//! What stands around a generation: which planner does it, what a finished one leaves in the
//! log, and where the version of a meeting that has ended comes from.

use crate::agent::{gap, in_turn, uncovered_content_gap, uncovered_words, Planner, Turn};
use crate::cli_planner::{AgentNames, AgentNamesView, CliKind};
use crate::clock::{now_utc, utc_text};
use crate::document::{Block, BlockView};
use crate::events::{
    DomainEvent, DomainEventView, TranscriptInputView, TranscriptSource, Usage, UsageView,
};
use crate::evidence::{
    default_budget, AgentError, AgentErrorView, BudgetInputs, CharUpperBound, ReadSnapshot,
};
use crate::generation::{
    comes_to, generate, prepared, produced_view, revised_blocks, GenerationRequest,
    GenerationResult, GenerationResultView, Limits,
};
use crate::session::{batch_of, source_answers, CommandReceipt, Session, SessionEventBatch};
use crate::session_model::{rejected, IdSeeds, ReceiptView, SessionView, SnapshotWork};
use crate::store::{DocumentBlock, DocumentBlockView, MeetingId, StoredRun, StoredRunView};
use crate::text::{
    chars_of, copy_opt, decimal, decimal_text, opt_view, same, signed_decimal, signed_text,
    string_of, trim, trimmed, views, views_push,
};
use vstd::prelude::*;
use vstd::string::*;

verus! {

broadcast use views_push;

// ---------------------------------------------------------------------------
// Who plans
// ---------------------------------------------------------------------------

/// Who plans a generation. That no program is installed and that the user chose to do
/// without one are two things: the first must not look like a summary.
#[derive(Debug, PartialEq, Eq)]
pub enum PlannerChoice {
    Cli(CliKind),
    /// The user chose the planner that is built in.
    Fixture,
    /// The program of this provider is not there.
    Missing(String),
}

pub enum PlannerChoiceView {
    Cli(CliKind),
    Fixture,
    Missing(Seq<char>),
}

impl View for PlannerChoice {
    type V = PlannerChoiceView;

    open spec fn view(&self) -> PlannerChoiceView {
        match *self {
            PlannerChoice::Cli(kind) => PlannerChoiceView::Cli(kind),
            PlannerChoice::Fixture => PlannerChoiceView::Fixture,
            PlannerChoice::Missing(provider) => PlannerChoiceView::Missing(provider@),
        }
    }
}

/// Who plans, by the provider in the settings, or nothing where those cannot be read, and by
/// which programs can be run. `system` is whichever is there; every other name is that
/// program or none.
pub open spec fn planner_of(
    provider: Option<Seq<char>>,
    names: AgentNamesView,
    claude: bool,
    codex: bool,
) -> PlannerChoiceView {
    match provider {
        None => PlannerChoiceView::Missing("設定"@),
        Some(p) => if p == "fixture"@ {
            PlannerChoiceView::Fixture
        } else if claude && (p == "system"@ || CliKind::named(p, names) == Some(CliKind::ClaudeCode)) {
            PlannerChoiceView::Cli(CliKind::ClaudeCode)
        } else if codex && (p == "system"@ || CliKind::named(p, names) == Some(CliKind::Codex)) {
            PlannerChoiceView::Cli(CliKind::Codex)
        } else {
            PlannerChoiceView::Missing(p)
        },
    }
}

/// Chooses who plans a generation.
pub fn choose_planner(
    provider: Option<&str>,
    names: &AgentNames,
    claude: bool,
    codex: bool,
) -> (r: PlannerChoice)
    ensures
        r@ == planner_of(opt_view(provider), names@, claude, codex),
{
    let p = match provider {
        None => {
            return PlannerChoice::Missing("設定".to_owned());
        },
        Some(p) => p,
    };
    if same(p, "fixture") {
        return PlannerChoice::Fixture;
    }
    let any = same(p, "system");
    let named = CliKind::from_provider(p, names);
    if claude && (any || matches!(named, Some(CliKind::ClaudeCode))) {
        PlannerChoice::Cli(CliKind::ClaudeCode)
    } else if codex && (any || matches!(named, Some(CliKind::Codex))) {
        PlannerChoice::Cli(CliKind::Codex)
    } else {
        PlannerChoice::Missing(p.to_owned())
    }
}

/// Nobody gets the built-in planner without having chosen it, and a program that is not there
/// is never run.
pub proof fn planners_are_never_swapped(
    provider: Option<Seq<char>>,
    names: AgentNamesView,
    claude: bool,
    codex: bool,
)
    ensures
        planner_of(provider, names, claude, codex) is Fixture <==> provider == Some("fixture"@),
        planner_of(provider, names, claude, codex) == PlannerChoiceView::Cli(CliKind::ClaudeCode)
            ==> claude,
        planner_of(provider, names, claude, codex) == PlannerChoiceView::Cli(CliKind::Codex) ==> codex,
        !claude && !codex ==> planner_of(provider, names, claude, codex) is Missing
            || planner_of(provider, names, claude, codex) is Fixture,
{
}

/// What is said where the program of a provider is not there.
pub open spec fn missing_words(provider: Seq<char>, names: AgentNamesView) -> Seq<char> {
    "找不到「"@ + provider + "」的執行檔。請確認 "@ + names.claude.label + " 或 "@ + names.codex.label
        + " 已安裝並在 PATH 中，或到設定頁改用其他方式。"@
}

/// What is said where the program of a provider is not there.
pub fn missing_reason(provider: &str, names: &AgentNames) -> (r: String)
    ensures
        r@ == missing_words(provider@, names@),
{
    let mut words = "找不到「".to_owned();
    words.append(provider);
    words.append("」的執行檔。請確認 ");
    words.append(names.claude.label.as_str());
    words.append(" 或 ");
    words.append(names.codex.label.as_str());
    words.append(" 已安裝並在 PATH 中，或到設定頁改用其他方式。");
    words
}

/// What is said of a generation that ended without an answer.
pub const CRASHED: &'static str = "生成工作異常結束";

// ---------------------------------------------------------------------------
// What a generation leaves
// ---------------------------------------------------------------------------

/// What came of a generation, with the reason where it counts as failed.
pub open spec fn judged(produced: Result<GenerationResultView, AgentErrorView>) -> Result<
    GenerationResultView,
    Seq<char>,
> {
    match produced {
        Err(e) => Err(e.words()),
        Ok(r) => match r.failure() {
            Some(reason) => Err(reason),
            None => Ok(r),
        },
    }
}

/// Judges what came of a generation. One without a block is a failure: an empty document that
/// says it is complete would tell the user nothing.
pub fn judge(produced: Result<GenerationResult, AgentError>) -> (r: Result<GenerationResult, String>)
    ensures
        (match r {
            Ok(x) => Ok(x@),
            Err(e) => Err(e@),
        }) == judged(produced_view(produced)),
{
    match produced {
        Err(e) => Err(e.message()),
        Ok(x) => match x.failure_reason() {
            Some(reason) => Err(reason),
            None => Ok(x),
        },
    }
}

/// The blocks of the document: those generated, and after them what has come since, where
/// there is any.
pub open spec fn with_uncovered(blocks: Seq<BlockView>, uncovered: u64) -> Seq<BlockView> {
    if uncovered == 0 {
        blocks
    } else {
        blocks.push(gap(uncovered_words(uncovered as nat)))
    }
}

/// What is kept of how a generation went.
pub open spec fn usage_of(r: GenerationResultView, revise_of: Option<u32>) -> UsageView {
    UsageView {
        rounds: r.rounds,
        stop_reason: r.stop_reason,
        evidence_tokens: r.evidence_tokens,
        segments_omitted: r.segments_omitted,
        rejected_blocks: r.rejected_blocks,
        duplicates_removed: r.duplicates_removed,
        revision_of: revise_of,
        degraded: r.degraded,
    }
}

/// The document that a generation comes to, and how it went. `uncovered` counts the events
/// with content after the cursor; it is taken when the generation has ended, since recording
/// goes on meanwhile.
pub fn completed_document(result: GenerationResult, uncovered: u64, revise_of: Option<u32>) -> (r: (
    Vec<Block>,
    Usage,
))
    ensures
        views(r.0@) == with_uncovered(result@.blocks, uncovered),
        r.1@ == usage_of(result@, revise_of),
{
    let mut blocks = result.blocks;
    if let Some(b) = uncovered_content_gap(uncovered) {
        blocks.push(b);
    }
    let usage = Usage {
        rounds: result.rounds,
        stop_reason: result.stop_reason,
        evidence_tokens: result.evidence_tokens,
        segments_omitted: result.segments_omitted,
        rejected_blocks: result.rejected_blocks,
        duplicates_removed: result.duplicates_removed,
        revision_of: revise_of,
        degraded: result.degraded,
    };
    (blocks, usage)
}

/// The number of a row, which has 32 bits.
pub open spec fn position_of(i: int) -> u32 {
    (i % 0x1_0000_0000) as u32
}

/// The rows of a document whose contents read `contents`, in order.
pub open spec fn rows_of(blocks: Seq<BlockView>, contents: Seq<Option<Seq<char>>>) -> Seq<
    DocumentBlockView,
> {
    Seq::new(
        blocks.len(),
        |i: int| blocks[i].stored(position_of(i), if i < contents.len() { contents[i] } else { None }),
    )
}

/// The rows of a document. `contents` holds the content of each block as JSON, or nothing
/// where it could not be written.
pub fn stored_rows(blocks: &Vec<Block>, contents: Vec<Option<String>>) -> (r: Vec<DocumentBlock>)
    ensures
        views(r@) == rows_of(
            views(blocks@),
            Seq::new(contents@.len(), |i: int| opt_view(contents@[i])),
        ),
{
    let mut out: Vec<DocumentBlock> = Vec::new();
    let mut i: usize = 0;
    while i < blocks.len()
        invariant
            i <= blocks@.len(),
            out@.len() == i,
            forall|k: int|
                0 <= k < i ==> (#[trigger] out@[k])@ == blocks@[k]@.stored(
                    position_of(k),
                    if k < contents@.len() {
                        opt_view(contents@[k])
                    } else {
                        None
                    },
                ),
        decreases blocks.len() - i,
    {
        let content = if i < contents.len() {
            copy_opt(&contents[i])
        } else {
            None
        };
        let position: u32 = (i as u64 % 0x1_0000_0000) as u32;
        out.push(blocks[i].to_stored(position, content));
        i = i + 1;
    }
    assert(views(out@) =~= rows_of(
        views(blocks@),
        Seq::new(contents@.len(), |i: int| opt_view(contents@[i])),
    ));
    out
}

/// How a generation is closed in the log of a meeting that has ended.
pub open spec fn closing(
    run_id: i64,
    produced: Result<(Seq<DocumentBlockView>, UsageView), Seq<char>>,
) -> DomainEventView {
    match produced {
        Ok(p) => DomainEventView::GenerationCompleted { run_id, blocks: p.0, usage: p.1 },
        Err(reason) => DomainEventView::GenerationFailed { run_id, reason },
    }
}

/// How a generation is closed in the log of a meeting that has ended. A failure is written
/// too: without it the version would seem to be under way for ever.
pub fn closing_event(run_id: i64, produced: Result<(Vec<DocumentBlock>, Usage), String>) -> (r:
    DomainEvent)
    ensures
        r@ == closing(
            run_id,
            match produced {
                Ok(p) => Ok((views(p.0@), p.1@)),
                Err(reason) => Err(reason@),
            },
        ),
{
    match produced {
        Ok(p) => DomainEvent::GenerationCompleted { run_id, blocks: p.0, usage: p.1 },
        Err(reason) => DomainEvent::GenerationFailed { run_id, reason },
    }
}

// ---------------------------------------------------------------------------
// A meeting that has ended
// ---------------------------------------------------------------------------

/// The highest version among the runs, or among those that were completed.
pub open spec fn highest_version(runs: Seq<StoredRunView>, completed_only: bool) -> Option<u32>
    decreases runs.len(),
{
    if runs.len() == 0 {
        None
    } else {
        let before = highest_version(runs.drop_last(), completed_only);
        let run = runs.last();
        if completed_only && run.status != "completed"@ {
            before
        } else if before matches Some(v) && v >= run.version_no {
            before
        } else {
            Some(run.version_no)
        }
    }
}

/// The first run of a version.
pub open spec fn run_of_version(runs: Seq<StoredRunView>, version: u32) -> Option<StoredRunView>
    decreases runs.len(),
{
    if runs.len() == 0 {
        None
    } else if runs[0].version_no == version {
        Some(runs[0])
    } else {
        run_of_version(runs.skip(1), version)
    }
}

/// The run with a number.
pub open spec fn run_with_id(runs: Seq<StoredRunView>, run_id: i64) -> Option<StoredRunView>
    decreases runs.len(),
{
    if runs.len() == 0 {
        None
    } else if runs[0].run_id == run_id {
        Some(runs[0])
    } else {
        run_with_id(runs.skip(1), run_id)
    }
}

/// The highest version among the runs, or among those that were completed.
pub fn last_version(runs: &[StoredRun], completed_only: bool) -> (r: Option<u32>)
    ensures
        r == highest_version(views(runs@), completed_only),
{
    let ghost all = views(runs@);
    let mut best: Option<u32> = None;
    let mut i: usize = 0;
    while i < runs.len()
        invariant
            i <= runs@.len(),
            all == views(runs@),
            best == highest_version(all.take(i as int), completed_only),
        decreases runs.len() - i,
    {
        assert(all.take(i + 1).drop_last() =~= all.take(i as int));
        assert(all.take(i + 1).last() == runs@[i as int]@);
        if !completed_only || same(runs[i].status.as_str(), "completed") {
            let v: u32 = runs[i].version_no;
            best = match best {
                Some(b) => if b >= v {
                    Some(b)
                } else {
                    Some(v)
                },
                None => Some(v),
            };
        }
        i = i + 1;
    }
    assert(all.take(i as int) =~= all);
    best
}

/// Finds the run of a version. The user speaks of versions, the log of runs.
pub fn find_version<'a>(runs: &'a [StoredRun], version: u32) -> (r: Option<&'a StoredRun>)
    ensures
        opt_view(r) == run_of_version(views(runs@), version),
{
    let ghost all = views(runs@);
    let mut i: usize = 0;
    assert(all.skip(0) =~= all);
    while i < runs.len()
        invariant
            i <= runs@.len(),
            all == views(runs@),
            run_of_version(all, version) == run_of_version(all.skip(i as int), version),
        decreases runs.len() - i,
    {
        assert(all.skip(i as int)[0] == runs@[i as int]@);
        assert(all.skip(i as int).skip(1) =~= all.skip(i + 1));
        if runs[i].version_no == version {
            return Some(&runs[i]);
        }
        i = i + 1;
    }
    None
}

/// Finds the run with a number.
pub fn find_run<'a>(runs: &'a [StoredRun], run_id: i64) -> (r: Result<&'a StoredRun, String>)
    ensures
        match r {
            Ok(run) => run_with_id(views(runs@), run_id) == Some(run@),
            Err(e) => run_with_id(views(runs@), run_id) is None && e@ == "找不到這個生成版本"@,
        },
{
    let ghost all = views(runs@);
    let mut i: usize = 0;
    assert(all.skip(0) =~= all);
    while i < runs.len()
        invariant
            i <= runs@.len(),
            all == views(runs@),
            run_with_id(all, run_id) == run_with_id(all.skip(i as int), run_id),
        decreases runs.len() - i,
    {
        assert(all.skip(i as int)[0] == runs@[i as int]@);
        assert(all.skip(i as int).skip(1) =~= all.skip(i + 1));
        if runs[i].run_id == run_id {
            return Ok(&runs[i]);
        }
        i = i + 1;
    }
    Err("找不到這個生成版本".to_owned())
}

/// The next version of a meeting that has ended.
#[derive(Debug, Clone, Copy, PartialEq, Eq, Structural)]
pub struct PastPlan {
    pub document_id: i64,
    pub run_id: i64,
    /// The run that is revised.
    pub parent_run_id: Option<i64>,
    pub work: SnapshotWork,
}

/// The next version of a meeting that has ended, by what is stored of it: its runs, its
/// document where it has one, its last event, and the last numbers given.
pub open spec fn past_plan(
    runs: Seq<StoredRunView>,
    seeds: IdSeeds,
    document: Option<i64>,
    high_seq: u64,
) -> PastPlan {
    let revise_of = highest_version(runs, true);
    PastPlan {
        document_id: match document {
            Some(id) => id,
            None => (seeds.document_id + 1) as i64,
        },
        run_id: (seeds.run_id + 1) as i64,
        parent_run_id: match revise_of {
            Some(v) => match run_of_version(runs, v) {
                Some(run) => Some(run.run_id),
                None => None,
            },
            None => None,
        },
        work: SnapshotWork {
            version: (match highest_version(runs, false) {
                Some(v) => v + 1,
                None => 1,
            }) as u32,
            through: high_seq,
            revise_of,
        },
    }
}

/// Plans the next version of a meeting that has ended. Its last event is the cursor: there
/// will be no more.
pub fn plan_past(
    runs: &[StoredRun],
    seeds: IdSeeds,
    document: Option<i64>,
    high_seq: u64,
) -> (r: PastPlan)
    requires
        seeds.document_id < i64::MAX,
        seeds.run_id < i64::MAX,
        highest_version(views(runs@), false) != Some(u32::MAX),
    ensures
        r == past_plan(views(runs@), seeds, document, high_seq),
{
    let revise_of = last_version(runs, true);
    let parent_run_id: Option<i64> = match revise_of {
        Some(v) => match find_version(runs, v) {
            Some(run) => Some(run.run_id),
            None => None,
        },
        None => None,
    };
    PastPlan {
        document_id: match document {
            Some(id) => id,
            None => seeds.document_id + 1,
        },
        run_id: seeds.run_id + 1,
        parent_run_id,
        work: SnapshotWork {
            version: match last_version(runs, false) {
                Some(v) => v + 1,
                None => 1,
            },
            through: high_seq,
            revise_of,
        },
    }
}

/// How the next version of a meeting that has ended begins in the log.
pub open spec fn opening(plan: PastPlan, prompt: Seq<char>) -> DomainEventView {
    DomainEventView::SnapshotCreated {
        document_id: plan.document_id,
        run_id: plan.run_id,
        parent_run_id: plan.parent_run_id,
        version_no: plan.work.version,
        purpose: "meeting-summary"@,
        title: "會議摘要"@,
        through_event_seq: plan.work.through,
        prompt,
    }
}

/// How the next version of a meeting that has ended begins in the log.
pub fn opening_event(plan: &PastPlan, prompt: &str) -> (r: DomainEvent)
    ensures
        r@ == opening(*plan, prompt@),
{
    DomainEvent::SnapshotCreated {
        document_id: plan.document_id,
        run_id: plan.run_id,
        parent_run_id: plan.parent_run_id,
        version_no: plan.work.version,
        purpose: "meeting-summary".to_owned(),
        title: "會議摘要".to_owned(),
        through_event_seq: plan.work.through,
        prompt: prompt.to_owned(),
    }
}

proof fn lemma_highest_version(runs: Seq<StoredRunView>, completed_only: bool)
    ensures
        match highest_version(runs, completed_only) {
            Some(v) => {
                &&& exists|i: int|
                    0 <= i < runs.len() && (#[trigger] runs[i]).version_no == v && (completed_only
                        ==> runs[i].status == "completed"@)
                &&& forall|i: int|
                    0 <= i < runs.len() && (completed_only ==> (#[trigger] runs[i]).status
                        == "completed"@) ==> (#[trigger] runs[i]).version_no <= v
            },
            None => forall|i: int|
                0 <= i < runs.len() ==> completed_only && (#[trigger] runs[i]).status
                    != "completed"@,
        },
    decreases runs.len(),
{
    if runs.len() > 0 {
        let rest = runs.drop_last();
        lemma_highest_version(rest, completed_only);
        let n = runs.len() - 1;
        assert forall|i: int| 0 <= i < n implies #[trigger] runs[i] == rest[i] by {}
        if let Some(v) = highest_version(rest, completed_only) {
            let k = choose|i: int|
                0 <= i < rest.len() && (#[trigger] rest[i]).version_no == v && (completed_only
                    ==> rest[i].status == "completed"@);
            assert(runs[k].version_no == v);
        }
        assert(runs[n] == runs.last());
    }
}

proof fn lemma_run_of_version(runs: Seq<StoredRunView>, version: u32, i: int)
    requires
        0 <= i < runs.len(),
        runs[i].version_no == version,
    ensures
        run_of_version(runs, version) matches Some(r) && r.version_no == version && runs.contains(r),
    decreases runs.len(),
{
    if runs[0].version_no == version {
        assert(runs.contains(runs[0]));
    } else {
        let rest = runs.skip(1);
        assert(rest[i - 1] == runs[i]);
        lemma_run_of_version(rest, version, i - 1);
        let r = run_of_version(rest, version)->0;
        let k = choose|k: int| 0 <= k < rest.len() && rest[k] == r;
        assert(runs[k + 1] == r);
    }
}

/// The next version of a meeting that has ended has a number that no run had, starts from the
/// last one that was completed, and names the run of the version that it starts from.
pub proof fn past_versions_go_on(
    runs: Seq<StoredRunView>,
    seeds: IdSeeds,
    document: Option<i64>,
    high_seq: u64,
    i: int,
)
    requires
        highest_version(runs, false) != Some(u32::MAX),
        0 <= i < runs.len(),
    ensures
        ({
            let p = past_plan(runs, seeds, document, high_seq);
            &&& runs[i].version_no < p.work.version
            &&& runs[i].status == "completed"@ ==> (p.work.revise_of matches Some(v) && v
                >= runs[i].version_no)
            &&& p.work.revise_of matches Some(v) ==> (exists|k: int|
                0 <= k < runs.len() && (#[trigger] runs[k]).version_no == v && runs[k].status
                    == "completed"@)
            &&& p.work.revise_of matches Some(v) ==> (exists|k: int|
                0 <= k < runs.len() && (#[trigger] runs[k]).version_no == v && p.parent_run_id
                    == Some(runs[k].run_id))
            &&& p.work.revise_of is None ==> p.parent_run_id is None
        }),
{
    lemma_highest_version(runs, false);
    lemma_highest_version(runs, true);
    assert(runs[i].version_no == runs[i].version_no);
    if let Some(v) = highest_version(runs, true) {
        let k = choose|k: int|
            0 <= k < runs.len() && (#[trigger] runs[k]).version_no == v && runs[k].status
                == "completed"@;
        lemma_run_of_version(runs, v, k);
        let r = run_of_version(runs, v)->0;
        let j = choose|j: int| 0 <= j < runs.len() && runs[j] == r;
        assert(runs[j].version_no == v);
    }
}

// ---------------------------------------------------------------------------
// The generation itself
// ---------------------------------------------------------------------------

/// What is asked for one version, with the ordinary limits.
pub open spec fn is_request_for(
    req: GenerationRequest<'_>,
    meeting: MeetingId,
    work: SnapshotWork,
    prompt: Seq<char>,
    previous_json: Option<Seq<char>>,
) -> bool {
    &&& req.meeting == meeting
    &&& req.through_event_seq == work.through
    &&& req.prompt@ == prompt
    &&& req.budget == default_budget()
    &&& req.limits.max_rounds == 3
    &&& req.revise_of == work.revise_of
    &&& opt_view(req.previous_json) == previous_json
}

/// What is asked for one version, with the ordinary limits.
pub fn request_for<'a>(
    meeting: MeetingId,
    work: SnapshotWork,
    prompt: &'a str,
    previous_json: Option<&'a str>,
) -> (r: GenerationRequest<'a>)
    ensures
        is_request_for(r, meeting, work, prompt@, opt_view(previous_json)),
{
    GenerationRequest {
        meeting,
        through_event_seq: work.through,
        prompt,
        budget: BudgetInputs::default(),
        limits: Limits::default(),
        revise_of: work.revise_of,
        previous_json,
    }
}

/// Generates one version. The evidence is what `store` shows, from beginning to end; whatever
/// the planner answers, there is a document or a reason, and the document is what its answers
/// come to.
pub fn produce<P: Planner>(
    store: &ReadSnapshot,
    meeting: MeetingId,
    work: SnapshotWork,
    prompt: &str,
    previous_json: Option<&str>,
    planner: &mut P,
) -> (r: Result<GenerationResult, String>)
    ensures
        exists|req: GenerationRequest<'_>|
            {
                &&& #[trigger] is_request_for(req, meeting, work, prompt@, opt_view(previous_json))
                &&& match prepared(store@, &req, &CharUpperBound) {
                    Err(e) => r is Err && r->Err_0@ == e.words() && *final(planner) == *old(planner),
                    Ok(pack) => exists|
                        produced: Result<GenerationResultView, AgentErrorView>,
                        turns: Seq<Turn>,
                        calls: Seq<&mut P>,
                        left: Seq<P>,
                    |
                        {
                            &&& (match r {
                                Ok(g) => Ok(g@),
                                Err(e) => Err(e@),
                            }) == judged(produced)
                            &&& #[trigger] comes_to(
                                store@.evidence,
                                &req,
                                pack,
                                revised_blocks(store@.runs, work.revise_of)->Ok_0,
                                turns,
                                produced,
                            )
                            &&& #[trigger] in_turn::<P>(
                                *old(planner),
                                turns,
                                calls,
                                left,
                                *final(planner),
                            )
                            &&& forall|i: int|
                                0 <= i < calls.len() ==> *final(#[trigger] calls[i]) == left[i]
                        },
                }
            },
{
    let req = request_for(meeting, work, prompt, previous_json);
    let produced = generate(store, &req, planner, &CharUpperBound);
    let ghost given = produced_view(produced);
    let r = judge(produced);
    assert(is_request_for(req, meeting, work, prompt@, opt_view(previous_json)));
    r
}

// ---------------------------------------------------------------------------
// A meeting that has ended, step by step
// ---------------------------------------------------------------------------

/// What happened outside, while a version of a meeting that has ended is made.
#[derive(Debug, PartialEq, Eq)]
pub enum PastEvent {
    /// An event was written to the log, or could not be.
    Wrote(Result<(), String>),
    /// It was settled who plans.
    Chosen(PlannerChoice),
    /// The generation has ended.
    Produced(Result<GenerationResult, String>),
    /// The events with content after the cursor were counted, or could not be.
    Counted(Result<u64, String>),
    /// The blocks were turned into rows.
    Rows(Vec<DocumentBlock>),
}

/// What is to be done outside next.
#[derive(Debug, PartialEq, Eq)]
pub enum PastAction {
    Write(DomainEvent),
    Choose,
    /// Generate with this program, or with the planner that is built in.
    Generate(Option<CliKind>),
    Count,
    MakeRows(Vec<Block>),
    /// It is over, with the number of the version or the reason why there is none.
    End(Result<u32, String>),
}

/// How far a version of a meeting that has ended has come.
#[derive(Debug, PartialEq, Eq)]
pub enum PastStage {
    Opening,
    Choosing,
    Generating,
    Counting(GenerationResult),
    Storing(Usage),
    Closing(Result<u32, String>),
    Ended,
}

pub enum PastEventView {
    Wrote(Result<(), Seq<char>>),
    Chosen(PlannerChoiceView),
    Produced(Result<GenerationResultView, Seq<char>>),
    Counted(Result<u64, Seq<char>>),
    Rows(Seq<DocumentBlockView>),
}

pub enum PastActionView {
    Write(DomainEventView),
    Choose,
    Generate(Option<CliKind>),
    Count,
    MakeRows(Seq<BlockView>),
    End(Result<u32, Seq<char>>),
}

pub enum PastStageView {
    Opening,
    Choosing,
    Generating,
    Counting(GenerationResultView),
    Storing(UsageView),
    Closing(Result<u32, Seq<char>>),
    Ended,
}

impl View for PastEvent {
    type V = PastEventView;

    open spec fn view(&self) -> PastEventView {
        match *self {
            PastEvent::Wrote(r) => PastEventView::Wrote(
                match r {
                    Ok(_) => Ok(()),
                    Err(e) => Err(e@),
                },
            ),
            PastEvent::Chosen(c) => PastEventView::Chosen(c@),
            PastEvent::Produced(r) => PastEventView::Produced(
                match r {
                    Ok(g) => Ok(g@),
                    Err(e) => Err(e@),
                },
            ),
            PastEvent::Counted(r) => PastEventView::Counted(
                match r {
                    Ok(n) => Ok(n),
                    Err(e) => Err(e@),
                },
            ),
            PastEvent::Rows(rows) => PastEventView::Rows(views(rows@)),
        }
    }
}

impl View for PastAction {
    type V = PastActionView;

    open spec fn view(&self) -> PastActionView {
        match *self {
            PastAction::Write(e) => PastActionView::Write(e@),
            PastAction::Choose => PastActionView::Choose,
            PastAction::Generate(k) => PastActionView::Generate(k),
            PastAction::Count => PastActionView::Count,
            PastAction::MakeRows(blocks) => PastActionView::MakeRows(views(blocks@)),
            PastAction::End(r) => PastActionView::End(
                match r {
                    Ok(v) => Ok(v),
                    Err(e) => Err(e@),
                },
            ),
        }
    }
}

impl View for PastStage {
    type V = PastStageView;

    open spec fn view(&self) -> PastStageView {
        match *self {
            PastStage::Opening => PastStageView::Opening,
            PastStage::Choosing => PastStageView::Choosing,
            PastStage::Generating => PastStageView::Generating,
            PastStage::Counting(g) => PastStageView::Counting(g@),
            PastStage::Storing(u) => PastStageView::Storing(u@),
            PastStage::Closing(r) => PastStageView::Closing(
                match r {
                    Ok(v) => Ok(v),
                    Err(e) => Err(e@),
                },
            ),
            PastStage::Ended => PastStageView::Ended,
        }
    }
}

/// Whether an event is the answer to what was to be done.
pub open spec fn is_due(stage: PastStageView, event: PastEventView) -> bool {
    match stage {
        PastStageView::Opening => event is Wrote,
        PastStageView::Choosing => event is Chosen,
        PastStageView::Generating => event is Produced,
        PastStageView::Counting(_) => event is Counted,
        PastStageView::Storing(_) => event is Rows,
        PastStageView::Closing(_) => event is Wrote,
        PastStageView::Ended => false,
    }
}

/// A version that failed: it is closed in the log with its reason.
pub open spec fn past_failure(plan: PastPlan, reason: Seq<char>) -> (PastStageView, PastActionView) {
    (
        PastStageView::Closing(Err(reason)),
        PastActionView::Write(closing(plan.run_id, Err(reason))),
    )
}

/// How it goes on after an event.
pub open spec fn past_step(
    plan: PastPlan,
    names: AgentNamesView,
    stage: PastStageView,
    event: PastEventView,
) -> (PastStageView, PastActionView) {
    match (stage, event) {
        (PastStageView::Opening, PastEventView::Wrote(Ok(_))) => (
            PastStageView::Choosing,
            PastActionView::Choose,
        ),
        (PastStageView::Opening, PastEventView::Wrote(Err(e))) => (
            PastStageView::Ended,
            PastActionView::End(Err(e)),
        ),
        (PastStageView::Choosing, PastEventView::Chosen(PlannerChoiceView::Cli(k))) => (
            PastStageView::Generating,
            PastActionView::Generate(Some(k)),
        ),
        (PastStageView::Choosing, PastEventView::Chosen(PlannerChoiceView::Fixture)) => (
            PastStageView::Generating,
            PastActionView::Generate(None),
        ),
        (PastStageView::Choosing, PastEventView::Chosen(PlannerChoiceView::Missing(p))) =>
            past_failure(plan, missing_words(p, names)),
        (PastStageView::Generating, PastEventView::Produced(Ok(g))) => (
            PastStageView::Counting(g),
            PastActionView::Count,
        ),
        (PastStageView::Generating, PastEventView::Produced(Err(reason))) => past_failure(
            plan,
            reason,
        ),
        (PastStageView::Counting(g), PastEventView::Counted(Ok(n))) => (
            PastStageView::Storing(usage_of(g, plan.work.revise_of)),
            PastActionView::MakeRows(with_uncovered(g.blocks, n)),
        ),
        (PastStageView::Counting(_), PastEventView::Counted(Err(e))) => (
            PastStageView::Ended,
            PastActionView::End(Err(e)),
        ),
        (PastStageView::Storing(u), PastEventView::Rows(rows)) => (
            PastStageView::Closing(Ok(plan.work.version)),
            PastActionView::Write(closing(plan.run_id, Ok((rows, u)))),
        ),
        (PastStageView::Closing(answer), PastEventView::Wrote(Ok(_))) => (
            PastStageView::Ended,
            PastActionView::End(answer),
        ),
        (PastStageView::Closing(_), PastEventView::Wrote(Err(e))) => (
            PastStageView::Ended,
            PastActionView::End(Err(e)),
        ),
        _ => (stage, PastActionView::Choose),
    }
}

/// The making of a version of a meeting that has ended.
#[derive(Debug, PartialEq, Eq)]
pub struct PastSummary {
    pub plan: PastPlan,
    pub stage: PastStage,
}

impl PastSummary {
    /// Begins a version, and says what is to be done first: that it has begun is written to
    /// the log.
    pub fn start(plan: PastPlan, prompt: &str) -> (r: (Self, PastAction))
        ensures
            r.0.plan == plan,
            r.0.stage@ == PastStageView::Opening,
            r.1@ == PastActionView::Write(opening(plan, prompt@)),
    {
        let first = opening_event(&plan, prompt);
        (PastSummary { plan, stage: PastStage::Opening }, PastAction::Write(first))
    }

    fn fail(plan: &PastPlan, reason: String) -> (r: (PastStage, PastAction))
        ensures
            (r.0@, r.1@) == past_failure(*plan, reason@),
    {
        let event = closing_event(plan.run_id, Err(reason.clone()));
        (PastStage::Closing(Err(reason)), PastAction::Write(event))
    }

    /// Goes on after an event, and says what is to be done next.
    pub fn step(self, event: PastEvent, names: &AgentNames) -> (r: (Self, PastAction))
        requires
            is_due(self.stage@, event@),
        ensures
            r.0.plan == self.plan,
            (r.0.stage@, r.1@) == past_step(self.plan, names@, self.stage@, event@),
    {
        let plan: PastPlan = self.plan;
        let (stage, action) = match (self.stage, event) {
            (PastStage::Opening, PastEvent::Wrote(Ok(()))) => (
                PastStage::Choosing,
                PastAction::Choose,
            ),
            (PastStage::Choosing, PastEvent::Chosen(PlannerChoice::Cli(k))) => (
                PastStage::Generating,
                PastAction::Generate(Some(k)),
            ),
            (PastStage::Choosing, PastEvent::Chosen(PlannerChoice::Fixture)) => (
                PastStage::Generating,
                PastAction::Generate(None),
            ),
            (PastStage::Choosing, PastEvent::Chosen(PlannerChoice::Missing(p))) => Self::fail(
                &plan,
                missing_reason(p.as_str(), names),
            ),
            (PastStage::Generating, PastEvent::Produced(Ok(g))) => (
                PastStage::Counting(g),
                PastAction::Count,
            ),
            (PastStage::Generating, PastEvent::Produced(Err(reason))) => Self::fail(&plan, reason),
            (PastStage::Counting(g), PastEvent::Counted(Ok(n))) => {
                let (blocks, usage) = completed_document(g, n, plan.work.revise_of);
                (PastStage::Storing(usage), PastAction::MakeRows(blocks))
            },
            (PastStage::Storing(usage), PastEvent::Rows(rows)) => {
                let event = closing_event(plan.run_id, Ok((rows, usage)));
                (PastStage::Closing(Ok(plan.work.version)), PastAction::Write(event))
            },
            (PastStage::Closing(answer), PastEvent::Wrote(Ok(()))) => (
                PastStage::Ended,
                PastAction::End(answer),
            ),
            (_, PastEvent::Wrote(Err(e))) => (PastStage::Ended, PastAction::End(Err(e))),
            (_, PastEvent::Counted(Err(e))) => (PastStage::Ended, PastAction::End(Err(e))),
            (stage, _) => (stage, PastAction::Choose),
        };
        (PastSummary { plan, stage }, action)
    }
}

/// A version that has begun is closed in the log before it is over, whatever became of it,
/// unless the log itself fails; and it is said to be there only where it has been written.
pub proof fn past_versions_are_closed(
    plan: PastPlan,
    names: AgentNamesView,
    stage: PastStageView,
    event: PastEventView,
)
    requires
        is_due(stage, event),
    ensures
        ({
            let (next, action) = past_step(plan, names, stage, event);
            let store_failed = event matches PastEventView::Wrote(Err(_)) || event
                matches PastEventView::Counted(Err(_));
            &&& action matches PastActionView::End(_) ==> store_failed || stage is Closing
            &&& action matches PastActionView::End(Ok(v)) ==> stage == PastStageView::Closing(
                Ok(v),
            )
            &&& next matches PastStageView::Closing(Ok(v)) ==> v == plan.work.version && (action
                matches PastActionView::Write(e) && e is GenerationCompleted)
            &&& next matches PastStageView::Closing(Err(_)) ==> (action
                matches PastActionView::Write(e) && e is GenerationFailed)
        }),
{
}

// ---------------------------------------------------------------------------
// Commands on meetings
// ---------------------------------------------------------------------------

/// That the state of a session is no longer known to be whole.
#[derive(Debug, Clone, Copy, PartialEq, Eq, Structural)]
pub struct PoisonedSession;

/// What is said where the state of a session is no longer known to be whole.
pub const POISONED_NOTE: &'static str = "工作階段狀態已損毀，請重新啟動應用程式";

impl PoisonedSession {
    /// The receipt of every command from then on.
    pub fn receipt(self) -> (r: CommandReceipt)
        ensures
            r@ == rejected(POISONED_NOTE@),
    {
        CommandReceipt::rejected(POISONED_NOTE)
    }
}

/// What came of opening the microphone and the system's sound.
#[derive(Debug, PartialEq, Eq)]
pub enum Capture {
    Started,
    /// The platform has no capture at all.
    Unsupported,
    Failed(String),
}

/// Why a meeting is not begun, by what came of its capture.
pub open spec fn capture_refused(capture: Capture) -> Option<ReceiptView> {
    match capture {
        Capture::Failed(e) => Some(rejected("無法開始擷取音訊："@ + e@)),
        _ => None,
    }
}

/// Why a meeting is not begun, by what came of its capture. Only where there is no capture at
/// all does the script stand in; every other failure is told before the meeting and not after
/// it.
pub fn capture_refusal(capture: &Capture) -> (r: Option<CommandReceipt>)
    ensures
        opt_view(r) == capture_refused(*capture),
{
    match capture {
        Capture::Failed(e) => {
            let mut words = "無法開始擷取音訊：".to_owned();
            words.append(e.as_str());
            Some(CommandReceipt::rejected(words.as_str()))
        },
        _ => None,
    }
}

/// What is said where the meeting's row could not be made.
pub fn creation_refusal(reason: &str) -> (r: CommandReceipt)
    ensures
        r@ == rejected("無法建立會議："@ + reason@),
{
    let mut words = "無法建立會議：".to_owned();
    words.append(reason);
    CommandReceipt::rejected(words.as_str())
}

/// What is said where the connection to the database is no longer known to be whole.
pub const POISONED_STORE: &'static str = "資料庫連線狀態已損毀";

/// The instant to the minute, with a space between date and time.
pub open spec fn minute_text(now: Seq<char>) -> Seq<char> {
    Seq::new(16, |i: int| if now[i] == 'T' { ' ' } else { now[i] })
}

/// The title of a meeting that begins at `now`.
pub fn title_at(now: &str) -> (r: String)
    requires
        now@.len() >= 16,
    ensures
        r@ == "會議 "@ + minute_text(now@),
{
    let all = chars_of(now);
    let mut chars: Vec<char> = Vec::new();
    let mut i: usize = 0;
    while i < 16
        invariant
            i <= 16,
            all@.len() >= 16,
            chars@.len() == i,
            forall|k: int|
                0 <= k < i ==> #[trigger] chars@[k] == if all@[k] == 'T' {
                    ' '
                } else {
                    all@[k]
                },
        decreases 16 - i,
    {
        chars.push(
            if all[i] == 'T' {
                ' '
            } else {
                all[i]
            },
        );
        i = i + 1;
    }
    let minute = string_of(&chars, 0, 16);
    assert(minute@ =~= minute_text(now@));
    let mut title = "會議 ".to_owned();
    title.append(minute.as_str());
    title
}

proof fn lemma_instants_are_long(ms: int)
    ensures
        utc_text(ms).len() >= 16,
{
}

/// The title of a meeting that begins now.
pub fn new_title() -> (r: String)
    ensures
        exists|ms: i64| r@ == "會議 "@ + minute_text(#[trigger] utc_text(ms as int)),
{
    let now = now_utc();
    proof {
        let ms = choose|ms: i64| now@ == #[trigger] utc_text(ms as int);
        lemma_instants_are_long(ms as int);
    }
    title_at(now.as_str())
}

/// The title that the user gives a meeting: without white space around it, and not empty.
pub fn checked_title(title: &str) -> (r: Result<String, String>)
    ensures
        match r {
            Ok(t) => t@ == trimmed(title@) && t@.len() > 0,
            Err(e) => trimmed(title@).len() == 0 && e@ == "標題不得為空"@,
        },
{
    let t = trim(title);
    if t.as_str().unicode_len() == 0 {
        Err("標題不得為空".to_owned())
    } else {
        Ok(t)
    }
}

/// Whether a meeting can be deleted or built anew: not while it goes on, since what comes
/// next would be written to a meeting that is not there.
pub fn check_idle(active: Option<MeetingId>, meeting: MeetingId) -> (r: Result<(), String>)
    ensures
        match r {
            Ok(_) => active != Some(meeting),
            Err(e) => active == Some(meeting) && e@ == "這場會議正在進行中，請先停止錄音"@,
        },
{
    match active {
        Some(id) if id == meeting => Err("這場會議正在進行中，請先停止錄音".to_owned()),
        _ => Ok(()),
    }
}

/// Whether a meeting is one of the past, so that a version of it can be made without its
/// session: two ways to give version numbers would give the same number twice.
pub fn check_past(held: Option<MeetingId>, meeting: MeetingId) -> (r: Result<(), String>)
    ensures
        match r {
            Ok(_) => held != Some(meeting),
            Err(e) => held == Some(meeting) && e@
                == "這場會議正在進行，請到「錄音」分頁建立摘要"@,
        },
{
    match held {
        Some(id) if id == meeting => Err(
            "這場會議正在進行，請到「錄音」分頁建立摘要".to_owned(),
        ),
        _ => Ok(()),
    }
}

/// The name of the file that a version of a meeting is exported to.
pub open spec fn export_file(meeting: MeetingId, version: u32) -> Seq<char> {
    "meeting-"@ + signed_decimal(meeting as int) + "-v"@ + decimal(version as nat) + ".html"@
}

/// The name of the file that a version of a meeting is exported to.
pub fn export_name(meeting: MeetingId, version: u32) -> (r: String)
    ensures
        r@ == export_file(meeting, version),
{
    let id = signed_text(meeting);
    let number = decimal_text(version as u128);
    let mut name = "meeting-".to_owned();
    name.append(id.as_str());
    name.append("-v");
    name.append(number.as_str());
    name.append(".html");
    name
}

// ---------------------------------------------------------------------------
// The pump
// ---------------------------------------------------------------------------

/// The one place from which batches go out, window by window.
#[derive(Debug, Clone, Copy, PartialEq, Eq, Structural)]
pub struct Pump {
    /// The last number that went out.
    pub prev_high_seq: u64,
}

/// What goes out after a window, of a session that then stands at `t`.
pub open spec fn pumped(
    before: Pump,
    t: SessionView,
    after: Pump,
    left: SessionView,
    out: Option<SessionEventBatch>,
) -> bool {
    if t.pending.len() == 0 && t.journal_error is None {
        out is None && after == before && left == t
    } else {
        &&& out matches Some(b)
        &&& b@ == batch_of(t, before.prev_high_seq, b.emitted_at_ms)
        &&& left == SessionView { pending: Seq::empty(), ..t }
        &&& after.prev_high_seq == match b@.last_seq {
            Some(last) => last,
            None => before.prev_high_seq,
        }
    }
}

impl Pump {
    pub fn new() -> (r: Self)
        ensures
            r.prev_high_seq == 0,
    {
        Pump { prev_high_seq: 0 }
    }

    /// One window, and what goes out after it. A window without news sends nothing, unless the
    /// log cannot be written: that must be told, and just then there may be nothing else.
    pub fn turn(&mut self, session: &mut Session, elapsed_ms: u64) -> (r: Option<SessionEventBatch>)
        requires
            old(session)@.meeting_time_ms + elapsed_ms <= u64::MAX,
            old(session)@.captured_audio_ms + elapsed_ms <= u64::MAX,
        ensures
            exists|measured: bool, inputs: Seq<TranscriptInputView>, drained: bool|
                pumped(
                    *old(self),
                    #[trigger] old(session)@.window(elapsed_ms, measured, inputs, drained),
                    *final(self),
                    final(session)@,
                    r,
                ) && source_answers::<dyn TranscriptSource>(
                    old(session)@,
                    elapsed_ms,
                    measured,
                    inputs,
                    drained,
                ),
    {
        session.tick(elapsed_ms);
        if !session.has_news() {
            return None;
        }
        let batch = session.drain(self.prev_high_seq);
        if let Some(last) = batch.last_seq {
            self.prev_high_seq = last;
        }
        Some(batch)
    }
}

} // verus!
