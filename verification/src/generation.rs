//! One generation from beginning to end: what is sent, round after round, and what the
//! document is in the end.

use crate::agent::{
    all_are_wanted, ask_draft, coverage, coverage_gaps, deduplicated, deduplicating_only_removes,
    drop_duplicates, every_sentence_survives, gap, in_turn, is_system_gap, key,
    lemma_dedup_not_empty, lemma_more_turns, lemma_no_turn, lemma_omitted_words_have_text,
    omitted_words, redraft_turn, redraft_turns, reported_by_system, settle_schema, settled,
    settled_answer, settles_to, settling_turns, unretried, Degraded, DegradedView, DraftRequest,
    DraftRequestView, Planner, RetryView, SettledDraft, SettledDraftView, Turn,
};
use crate::citation::{
    admitted_blocks, admitted_blocks_are_verified, block_verdicts, is_traceable, is_verified,
    valid_citations_are_traceable, verify_blocks, BlockVerdict, BlockVerdictView,
};
use crate::cursor::{SegmentRowView, SpeakerRowView};
use crate::document::{restored, Block, BlockView};
use crate::evidence::{
    allowance, build_index, capped, evidence_allowance, index_of, lemma_capped_instructions,
    lemma_total_not_negative, pack_evidence, packed, the_index_is_frozen, total_tokens, AgentError,
    AgentErrorView, BudgetInputs, EvidencePack, EvidencePackView, ReadSnapshot, ReadSnapshotView,
    Tokenizer,
};
use crate::store::{
    EvidenceText, EvidenceTextView, MeetingId, RunBlock, RunBlockView, StoredNoteView, StoredRun,
    StoredRunView,
};
use crate::text::{decimal, decimal_text, join, joined, opt_view, same, views};
use vstd::prelude::*;
use vstd::string::*;

verus! {

// ---------------------------------------------------------------------------
// The version that is revised
// ---------------------------------------------------------------------------

/// Whether a run is the finished one of a version.
pub open spec fn is_finished(run: StoredRunView, version: u32) -> bool {
    run.version_no == version && run.status == "completed"@
}

/// The finished run of a version.
pub open spec fn finished_run(runs: Seq<StoredRunView>, version: u32) -> Option<StoredRunView>
    decreases runs.len(),
{
    if runs.len() == 0 {
        None
    } else if is_finished(runs[0], version) {
        Some(runs[0])
    } else {
        finished_run(runs.skip(1), version)
    }
}

/// The blocks that can be read, without the gaps that the system reported.
pub open spec fn revisable(blocks: Seq<RunBlockView>) -> Seq<BlockView>
    decreases blocks.len(),
{
    if blocks.len() == 0 {
        Seq::empty()
    } else {
        let before = revisable(blocks.drop_last());
        match restored(blocks.last().row, blocks.last().content) {
            Some(b) => if reported_by_system(b) {
                before
            } else {
                before.push(b)
            },
            None => before,
        }
    }
}

/// The blocks of a version, to be revised.
pub open spec fn version_blocks(runs: Seq<StoredRunView>, version: u32) -> Result<
    Seq<BlockView>,
    AgentErrorView,
> {
    match finished_run(runs, version) {
        Some(run) => Ok(revisable(run.blocks)),
        None => Err(
            AgentErrorView::Provider("找不到可修訂的第 "@ + decimal(version as nat) + " 版"@),
        ),
    }
}

fn read_blocks(blocks: &Vec<RunBlock>) -> (r: Vec<Block>)
    ensures
        views(r@) == revisable(views(blocks@)),
{
    let ghost all = views(blocks@);
    let mut out: Vec<Block> = Vec::new();
    let mut i: usize = 0;
    assert(views(out@) =~= revisable(all.take(0)));
    while i < blocks.len()
        invariant
            i <= blocks@.len(),
            all == views(blocks@),
            views(out@) == revisable(all.take(i as int)),
        decreases blocks.len() - i,
    {
        let ghost before = out@;
        assert(all.take(i + 1).drop_last() =~= all.take(i as int));
        assert(all.take(i + 1).last() == blocks@[i as int]@);
        let content = match &blocks[i].content {
            Some(c) => Some(c.clone()),
            None => None,
        };
        if let Some(b) = Block::from_stored(&blocks[i].row, content) {
            if !is_system_gap(&b) {
                let ghost v = b@;
                out.push(b);
                assert(views(out@) =~= views(before).push(v));
            }
        }
        i = i + 1;
    }
    assert(all.take(i as int) =~= all);
    out
}

/// Reads the blocks of a version, to be revised. A block that cannot be read is passed
/// over; a version that does not exist is an error, since to start from nothing would
/// look like a revision.
pub fn load_version(runs: &[StoredRun], version: u32) -> (r: Result<Vec<Block>, AgentError>)
    ensures
        (match r {
            Ok(blocks) => Ok(views(blocks@)),
            Err(e) => Err(e@),
        }) == version_blocks(views(runs@), version),
{
    let ghost all = views(runs@);
    let mut i: usize = 0;
    assert(all.skip(0) =~= all);
    while i < runs.len()
        invariant
            i <= runs@.len(),
            all == views(runs@),
            finished_run(all, version) == finished_run(all.skip(i as int), version),
        decreases runs.len() - i,
    {
        assert(all.skip(i as int)[0] == runs@[i as int]@);
        assert(all.skip(i as int).skip(1) =~= all.skip(i + 1));
        if runs[i].version_no == version && same(runs[i].status.as_str(), "completed") {
            return Ok(read_blocks(&runs[i].blocks));
        }
        i = i + 1;
    }
    let number = decimal_text(version as u128);
    let mut words = "找不到可修訂的第 ".to_owned();
    words.append(number.as_str());
    words.append(" 版");
    Err(AgentError::Provider(words))
}

/// A version to be revised holds none of the gaps that the system reported for it: they
/// spoke of an earlier cursor.
pub proof fn revisions_start_without_system_gaps(blocks: Seq<RunBlockView>, k: int)
    requires
        0 <= k < revisable(blocks).len(),
    ensures
        !reported_by_system(revisable(blocks)[k]),
    decreases blocks.len(),
{
    if blocks.len() > 0 {
        let before = revisable(blocks.drop_last());
        if k < before.len() {
            revisions_start_without_system_gaps(blocks.drop_last(), k);
        }
    }
}

// ---------------------------------------------------------------------------
// Requests and results
// ---------------------------------------------------------------------------

/// Why the loop stopped.
#[derive(Debug, Clone, Copy, PartialEq, Eq, Structural)]
pub enum StopReason {
    /// All blocks passed the check.
    Verified,
    /// There were as many rounds as are allowed.
    RoundLimit,
    /// The last round was no better than the best one.
    NoImprovement,
    /// No block passed the check.
    NothingAdmissible,
}

/// How far the loop may go.
#[derive(Debug, Clone, Copy, PartialEq, Eq, Structural)]
pub struct Limits {
    pub max_rounds: u32,
}

impl Default for Limits {
    fn default() -> (r: Self)
        ensures
            r.max_rounds == 3,
    {
        Self { max_rounds: 3 }
    }
}

/// All that one generation needs.
pub struct GenerationRequest<'a> {
    pub meeting: MeetingId,
    /// The cursor of the snapshot. It fixes what the generation covers.
    pub through_event_seq: u64,
    /// What the user asks for. It may be empty.
    pub prompt: &'a str,
    pub budget: BudgetInputs,
    pub limits: Limits,
    /// The version to revise, where this is a revision.
    pub revise_of: Option<u32>,
    /// The blocks of that version as the JSON that is sent along, an empty list where this is
    /// no revision, or nothing where they could not be written.
    pub previous_json: Option<&'a str>,
}

/// What a generation comes to.
#[derive(Debug, PartialEq, Eq)]
pub struct GenerationResult {
    pub blocks: Vec<Block>,
    pub verdicts: Vec<BlockVerdict>,
    pub rounds: u32,
    pub stop_reason: StopReason,
    /// The blocks that became paragraphs.
    pub degraded: Vec<Degraded>,
    /// Why blocks of the last round did not pass.
    pub rejections: Vec<String>,
    pub evidence_tokens: usize,
    pub segments_omitted: usize,
    /// How many blocks did not pass, in all rounds.
    pub rejected_blocks: usize,
    /// How many repetitions were left out, in all rounds.
    pub duplicates_removed: usize,
}

pub struct GenerationResultView {
    pub blocks: Seq<BlockView>,
    pub verdicts: Seq<BlockVerdictView>,
    pub rounds: u32,
    pub stop_reason: StopReason,
    pub degraded: Seq<DegradedView>,
    pub rejections: Seq<Seq<char>>,
    pub evidence_tokens: usize,
    pub segments_omitted: usize,
    pub rejected_blocks: usize,
    pub duplicates_removed: usize,
}

impl View for GenerationResult {
    type V = GenerationResultView;

    open spec fn view(&self) -> GenerationResultView {
        GenerationResultView {
            blocks: views(self.blocks@),
            verdicts: views(self.verdicts@),
            rounds: self.rounds,
            stop_reason: self.stop_reason,
            degraded: views(self.degraded@),
            rejections: views(self.rejections@),
            evidence_tokens: self.evidence_tokens,
            segments_omitted: self.segments_omitted,
            rejected_blocks: self.rejected_blocks,
            duplicates_removed: self.duplicates_removed,
        }
    }
}

impl GenerationResultView {
    /// Why the generation counts as failed, if it does: a document without a block is
    /// not a finished one.
    pub open spec fn failure(self) -> Option<Seq<char>> {
        if self.blocks.len() > 0 {
            None
        } else if self.rejected_blocks == 0 {
            Some("模型沒有產出任何區塊。"@)
        } else {
            Some(
                "產出的 "@ + decimal(self.rejected_blocks as nat)
                    + " 個區塊都沒有通過驗證。最後一輪的原因："@ + if self.rejections.len() == 0 {
                    "未提供"@
                } else {
                    joined(self.rejections, "；"@)
                },
            )
        }
    }
}

impl GenerationResult {
    /// Why the generation counts as failed, if it does.
    pub fn failure_reason(&self) -> (r: Option<String>)
        ensures
            opt_view(r) == self@.failure(),
    {
        if self.blocks.len() > 0 {
            return None;
        }
        if self.rejected_blocks == 0 {
            return Some("模型沒有產出任何區塊。".to_owned());
        }
        let count = decimal_text(self.rejected_blocks as u128);
        let mut words = "產出的 ".to_owned();
        words.append(count.as_str());
        words.append(" 個區塊都沒有通過驗證。最後一輪的原因：");
        if self.rejections.len() == 0 {
            words.append("未提供");
        } else {
            let reasons = join(&self.rejections, "；");
            words.append(reasons.as_str());
        }
        Some(words)
    }
}

// ---------------------------------------------------------------------------
// Rounds
// ---------------------------------------------------------------------------

/// Where a generation stands between two rounds.
pub struct Run {
    pub best: Vec<Block>,
    pub best_verdicts: Vec<BlockVerdict>,
    /// How many blocks the best round lost.
    pub best_rejected: usize,
    /// Why blocks of the last round did not pass.
    pub rejections: Vec<String>,
    pub rejected_total: usize,
    pub degraded: Vec<Degraded>,
    pub duplicates: usize,
    pub round: u32,
}

pub struct RunView {
    pub best: Seq<BlockView>,
    pub best_verdicts: Seq<BlockVerdictView>,
    pub best_rejected: usize,
    pub rejections: Seq<Seq<char>>,
    pub rejected_total: usize,
    pub degraded: Seq<DegradedView>,
    pub duplicates: usize,
    pub round: u32,
}

impl View for Run {
    type V = RunView;

    open spec fn view(&self) -> RunView {
        RunView {
            best: views(self.best@),
            best_verdicts: views(self.best_verdicts@),
            best_rejected: self.best_rejected,
            rejections: views(self.rejections@),
            rejected_total: self.rejected_total,
            degraded: views(self.degraded@),
            duplicates: self.duplicates,
            round: self.round,
        }
    }
}

/// Before the first round.
pub open spec fn run_start() -> RunView {
    RunView {
        best: Seq::empty(),
        best_verdicts: Seq::empty(),
        best_rejected: usize::MAX,
        rejections: Seq::empty(),
        rejected_total: 0,
        degraded: Seq::empty(),
        duplicates: 0,
        round: 0,
    }
}

/// Why blocks did not pass.
pub open spec fn rejection_reasons(verdicts: Seq<BlockVerdictView>) -> Seq<Seq<char>>
    decreases verdicts.len(),
{
    if verdicts.len() == 0 {
        Seq::empty()
    } else {
        let before = rejection_reasons(verdicts.drop_last());
        match verdicts.last().reason {
            Some(reason) => if !verdicts.last().admitted {
                before.push(reason)
            } else {
                before
            },
            None => before,
        }
    }
}

/// The blocks of a draft that passed, without repetitions.
pub open spec fn passed(
    evidence: Seq<EvidenceTextView>,
    through: u64,
    draft: SettledDraftView,
) -> Seq<BlockView> {
    deduplicated(admitted_blocks(evidence, through, draft.blocks))
}

/// Whether a round is better than the best one before: more blocks passed, or as many
/// and fewer were lost.
pub open spec fn is_better(
    run: RunView,
    evidence: Seq<EvidenceTextView>,
    through: u64,
    draft: SettledDraftView,
) -> bool {
    let now = passed(evidence, through, draft);
    let lost = rejection_reasons(block_verdicts(evidence, through, draft.blocks));
    now.len() > run.best.len() || (now.len() == run.best.len() && lost.len() < run.best_rejected)
}

/// Where a generation stands after a round that gave `draft`.
pub open spec fn after_round(
    run: RunView,
    evidence: Seq<EvidenceTextView>,
    through: u64,
    draft: SettledDraftView,
) -> RunView {
    let admitted = admitted_blocks(evidence, through, draft.blocks);
    let now = passed(evidence, through, draft);
    let verdicts = block_verdicts(evidence, through, draft.blocks);
    let lost = rejection_reasons(verdicts);
    let better = is_better(run, evidence, through, draft);
    RunView {
        best: if better {
            now
        } else {
            run.best
        },
        best_verdicts: if better {
            verdicts
        } else {
            run.best_verdicts
        },
        best_rejected: if better {
            lost.len() as usize
        } else {
            run.best_rejected
        },
        rejections: lost,
        rejected_total: capped(run.rejected_total + draft.removed + lost.len()),
        degraded: run.degraded + draft.degraded,
        duplicates: capped(run.duplicates + admitted.len() - now.len()),
        round: (run.round + 1) as u32,
    }
}

/// Whether and why the loop stops after a round. Where nothing has passed yet it goes
/// on: the reasons for that are what the next round is told.
pub open spec fn stop_after(run: RunView, better: bool, max_rounds: u32) -> Option<StopReason> {
    if run.rejections.len() == 0 {
        Some(StopReason::Verified)
    } else if run.round >= max_rounds {
        if run.best.len() == 0 {
            Some(StopReason::NothingAdmissible)
        } else {
            Some(StopReason::RoundLimit)
        }
    } else if !better && run.best.len() > 0 {
        Some(StopReason::NoImprovement)
    } else {
        None
    }
}

/// What the generation comes to, once the loop has stopped. An empty document is never
/// called verified. Gaps in the evidence are reported last, in a document that has
/// something in it.
pub open spec fn finished(run: RunView, stop: StopReason, pack: EvidencePackView) -> GenerationResultView {
    let whole = run.best + coverage(pack.segments_omitted);
    GenerationResultView {
        blocks: if run.best.len() == 0 {
            run.best
        } else {
            deduplicated(whole)
        },
        verdicts: run.best_verdicts,
        rounds: run.round,
        stop_reason: if run.best.len() == 0 {
            StopReason::NothingAdmissible
        } else {
            stop
        },
        degraded: run.degraded,
        rejections: run.rejections,
        evidence_tokens: pack.tokens_used,
        segments_omitted: pack.segments_omitted,
        rejected_blocks: run.rejected_total,
        duplicates_removed: if run.best.len() == 0 {
            run.duplicates
        } else {
            capped(run.duplicates + whole.len() - deduplicated(whole).len())
        },
    }
}

fn collect_reasons(verdicts: &Vec<BlockVerdict>) -> (r: Vec<String>)
    ensures
        views(r@) == rejection_reasons(views(verdicts@)),
        r@.len() <= verdicts@.len(),
{
    let ghost all = views(verdicts@);
    let mut out: Vec<String> = Vec::new();
    let mut i: usize = 0;
    assert(views(out@) =~= rejection_reasons(all.take(0)));
    while i < verdicts.len()
        invariant
            i <= verdicts@.len(),
            all == views(verdicts@),
            views(out@) == rejection_reasons(all.take(i as int)),
            out@.len() <= i,
        decreases verdicts.len() - i,
    {
        let ghost before = out@;
        assert(all.take(i + 1).drop_last() =~= all.take(i as int));
        assert(all.take(i + 1).last() == verdicts@[i as int]@);
        if !verdicts[i].admitted {
            if let Some(reason) = &verdicts[i].reason {
                out.push(reason.clone());
                assert(views(out@) =~= views(before).push(reason@));
            }
        }
        i = i + 1;
    }
    assert(all.take(i as int) =~= all);
    out
}

impl Run {
    /// Before the first round.
    pub fn start() -> (r: Self)
        ensures
            r@ == run_start(),
    {
        let r = Run {
            best: Vec::new(),
            best_verdicts: Vec::new(),
            best_rejected: usize::MAX,
            rejections: Vec::new(),
            rejected_total: 0,
            degraded: Vec::new(),
            duplicates: 0,
            round: 0,
        };
        assert(r@.best =~= Seq::empty());
        assert(r@.best_verdicts =~= Seq::empty());
        assert(r@.rejections =~= Seq::empty());
        assert(r@.degraded =~= Seq::empty());
        r
    }

    /// Takes in the draft of a round: checks it, keeps it if it is better than the best
    /// one before, and says whether and why the loop stops.
    pub fn absorb(
        &mut self,
        evidence: &[EvidenceText],
        through_event_seq: u64,
        draft: SettledDraft,
        max_rounds: u32,
    ) -> (r: Option<StopReason>)
        requires
            old(self).round < u32::MAX,
        ensures
            final(self)@ == after_round(old(self)@, views(evidence@), through_event_seq, draft@),
            r == stop_after(
                final(self)@,
                is_better(old(self)@, views(evidence@), through_event_seq, draft@),
                max_rounds,
            ),
    {
        let ghost start = self@;
        let ghost ev = views(evidence@);
        let (admitted, verdicts) = verify_blocks(evidence, through_event_seq, draft.blocks.as_slice());
        let (admitted, dupes) = drop_duplicates(admitted);
        let rejected = collect_reasons(&verdicts);
        let lost: usize = rejected.len();
        assert(lost == rejection_reasons(block_verdicts(ev, through_event_seq, draft@.blocks)).len());
        self.round = self.round + 1;
        self.rejected_total = self.rejected_total.saturating_add(draft.removed).saturating_add(lost);
        self.duplicates = self.duplicates.saturating_add(dupes);
        let better: bool = admitted.len() > self.best.len() || (admitted.len() == self.best.len()
            && lost < self.best_rejected);
        if better {
            self.best = admitted;
            self.best_verdicts = verdicts;
            self.best_rejected = lost;
        }
        let ghost noted = self.degraded@;
        let mut degraded = draft.degraded;
        let ghost more = degraded@;
        self.degraded.append(&mut degraded);
        assert(views(noted + more) =~= views(noted) + views(more));
        self.rejections = rejected;
        assert(self@ == after_round(start, ev, through_event_seq, draft@));
        if lost == 0 {
            Some(StopReason::Verified)
        } else if self.round >= max_rounds {
            if self.best.len() == 0 {
                Some(StopReason::NothingAdmissible)
            } else {
                Some(StopReason::RoundLimit)
            }
        } else if !better && self.best.len() > 0 {
            Some(StopReason::NoImprovement)
        } else {
            None
        }
    }

    /// What the generation comes to, once the loop has stopped.
    pub fn finish(self, stop: StopReason, pack: &EvidencePack) -> (r: GenerationResult)
        ensures
            r@ == finished(self@, stop, pack@),
    {
        let mut blocks = self.best;
        let mut duplicates: usize = self.duplicates;
        let mut stop_reason: StopReason = StopReason::NothingAdmissible;
        if blocks.len() > 0 {
            let ghost best = blocks@;
            let mut gaps = coverage_gaps(pack.segments_omitted);
            let ghost more = gaps@;
            blocks.append(&mut gaps);
            assert(views(best + more) =~= views(best) + views(more));
            let (deduped, dupes) = drop_duplicates(blocks);
            blocks = deduped;
            duplicates = duplicates.saturating_add(dupes);
            stop_reason = stop;
        }
        GenerationResult {
            blocks,
            verdicts: self.best_verdicts,
            rounds: self.round,
            stop_reason,
            degraded: self.degraded,
            rejections: self.rejections,
            evidence_tokens: pack.tokens_used,
            segments_omitted: pack.segments_omitted,
            rejected_blocks: self.rejected_total,
            duplicates_removed: duplicates,
        }
    }
}

// ---------------------------------------------------------------------------
// The whole generation
// ---------------------------------------------------------------------------

/// What a planner answers in one round: the draft, and the blocks that it was asked for
/// anew.
pub struct RoundReply {
    pub drafted: Seq<BlockView>,
    pub redrafted: Seq<Seq<Option<BlockView>>>,
}

/// Where a generation stands after rounds in which a planner answered so.
pub open spec fn run_after(
    evidence: Seq<EvidenceTextView>,
    through: u64,
    rounds: Seq<RoundReply>,
) -> RunView
    decreases rounds.len(),
{
    if rounds.len() == 0 {
        run_start()
    } else {
        after_round(
            run_after(evidence, through, rounds.drop_last()),
            evidence,
            through,
            settled(rounds.last().drafted, rounds.last().redrafted),
        )
    }
}

/// Whether and why the loop stops after the last of these rounds.
pub open spec fn stop_at(
    evidence: Seq<EvidenceTextView>,
    through: u64,
    rounds: Seq<RoundReply>,
    max_rounds: u32,
) -> Option<StopReason> {
    stop_after(
        run_after(evidence, through, rounds),
        is_better(
            run_after(evidence, through, rounds.drop_last()),
            evidence,
            through,
            settled(rounds.last().drafted, rounds.last().redrafted),
        ),
        max_rounds,
    )
}

/// Whether the loop goes on after each of these rounds but the last, and stops there.
pub open spec fn is_whole(
    evidence: Seq<EvidenceTextView>,
    through: u64,
    rounds: Seq<RoundReply>,
    max_rounds: u32,
) -> bool {
    &&& rounds.len() > 0
    &&& stop_at(evidence, through, rounds, max_rounds) is Some
    &&& forall|k: int|
        0 < k < rounds.len() ==> stop_at(evidence, through, #[trigger] rounds.take(k), max_rounds)
            is None
}

/// What a generation comes to, where a planner answered so.
pub open spec fn generated(
    evidence: Seq<EvidenceTextView>,
    through: u64,
    rounds: Seq<RoundReply>,
    max_rounds: u32,
    pack: EvidencePackView,
) -> GenerationResultView {
    finished(
        run_after(evidence, through, rounds),
        stop_at(evidence, through, rounds, max_rounds)->0,
        pack,
    )
}

/// The blocks that a generation revises.
pub open spec fn revised_blocks(runs: Seq<StoredRunView>, revise_of: Option<u32>) -> Result<
    Seq<BlockView>,
    AgentErrorView,
> {
    match revise_of {
        Some(version) => version_blocks(runs, version),
        None => Ok(Seq::empty()),
    }
}

/// The plain texts of some blocks.
pub open spec fn plain_texts(blocks: Seq<BlockView>) -> Seq<Seq<char>> {
    Seq::new(blocks.len(), |i: int| blocks[i].content.plain())
}

/// What the instructions take up: the prompt, the rules for blocks, and the version that
/// is revised, in the form in which it is sent.
pub open spec fn instruction_size<T: Tokenizer>(
    prompt: Seq<char>,
    previous: Seq<BlockView>,
    previous_json: Option<Seq<char>>,
    tok: &T,
) -> int {
    tok.tokens(prompt) + tok.tokens(SCHEMA_BRIEF@) + match previous_json {
        Some(json) => tok.tokens(json) as int,
        None => total_tokens(plain_texts(previous), tok),
    }
}

/// What is settled before a planner is called: the evidence that is sent, or why there is
/// no generation.
pub open spec fn prepared<T: Tokenizer>(
    snapshot: ReadSnapshotView,
    req: &GenerationRequest<'_>,
    tok: &T,
) -> Result<EvidencePackView, AgentErrorView> {
    match revised_blocks(snapshot.runs, req.revise_of) {
        Err(e) => Err(e),
        Ok(previous) => match allowance(
            req.budget,
            instruction_size(req.prompt@, previous, opt_view(req.previous_json), tok),
        ) {
            Err(e) => Err(e),
            Ok(room) => packed(
                index_of(snapshot, req.meeting, req.through_event_seq),
                room,
                tok,
            ),
        },
    }
}

/// What a generation comes to, or why there is none.
pub open spec fn produced_view(r: Result<GenerationResult, AgentError>) -> Result<
    GenerationResultView,
    AgentErrorView,
> {
    match r {
        Ok(g) => Ok(g@),
        Err(e) => Err(e@),
    }
}

/// What a planner is asked after the rounds that led to `run`: it gets the same prompt,
/// evidence and earlier version each time, and what the round before was refused for.
pub open spec fn asked(
    prompt: Seq<char>,
    pack: EvidencePackView,
    previous: Seq<BlockView>,
    run: RunView,
) -> DraftRequestView {
    DraftRequestView {
        prompt,
        evidence: pack,
        rejections: run.rejections,
        round: (run.round + 1) as u32,
        previous,
    }
}

/// Whether in each of the rounds the replies for its blocks are all that they take.
pub open spec fn are_answered(rounds: Seq<RoundReply>) -> bool {
    forall|k: int|
        0 <= k < rounds.len() ==> all_are_wanted(
            (#[trigger] rounds[k]).drafted,
            rounds[k].redrafted,
        )
}

/// What a planner is asked in one round: one draft, and then the blocks of it that do not meet
/// the rules.
pub open spec fn round_turns(req: DraftRequestView, reply: RoundReply) -> Seq<Turn> {
    seq![Turn::Draft { req, answer: Ok(reply.drafted) }] + settling_turns(
        req,
        reply.drafted,
        reply.redrafted,
    )
}

/// What a planner is asked in these rounds, one after another.
pub open spec fn all_turns(
    evidence: Seq<EvidenceTextView>,
    through: u64,
    rounds: Seq<RoundReply>,
    prompt: Seq<char>,
    pack: EvidencePackView,
    previous: Seq<BlockView>,
) -> Seq<Turn>
    decreases rounds.len(),
{
    if rounds.len() == 0 {
        Seq::empty()
    } else {
        let before = rounds.drop_last();
        all_turns(evidence, through, before, prompt, pack, previous) + round_turns(
            asked(prompt, pack, previous, run_after(evidence, through, before)),
            rounds.last(),
        )
    }
}

/// Whether a round comes to `r`, with these turns: the draft that the answers come to, or the
/// failure where the planner was asked for the draft, or for a block of it anew.
pub open spec fn round_comes_to(
    req: DraftRequestView,
    turns: Seq<Turn>,
    r: Result<SettledDraftView, AgentErrorView>,
) -> bool {
    match r {
        Ok(d) => exists|reply: RoundReply|
            {
                &&& all_are_wanted(reply.drafted, reply.redrafted)
                &&& d == settled(reply.drafted, reply.redrafted)
                &&& turns == #[trigger] round_turns(req, reply)
            },
        Err(e) => {
            ||| turns == seq![Turn::Draft { req, answer: Err(e) }]
            ||| exists|drafted: Seq<BlockView>, more: Seq<Turn>| #[trigger]
                settles_to(req, drafted, more, Err(e)) && turns == seq![
                    Turn::Draft { req, answer: Ok(drafted) },
                ] + more
        },
    }
}

/// Whether the loop goes on after each of these rounds.
pub open spec fn goes_on(
    evidence: Seq<EvidenceTextView>,
    through: u64,
    rounds: Seq<RoundReply>,
    max_rounds: u32,
) -> bool {
    forall|k: int|
        0 < k <= rounds.len() ==> stop_at(evidence, through, #[trigger] rounds.take(k), max_rounds)
            is None
}

/// Whether a generation comes to `r` where a planner is asked and answers so, once it is settled
/// what goes to it: the document that its answers come to, or the failure that it ended with.
pub open spec fn comes_to(
    evidence: Seq<EvidenceTextView>,
    req: &GenerationRequest<'_>,
    pack: EvidencePackView,
    previous: Seq<BlockView>,
    turns: Seq<Turn>,
    r: Result<GenerationResultView, AgentErrorView>,
) -> bool {
    let through = req.through_event_seq;
    let max_rounds = req.limits.max_rounds;
    match r {
        Ok(g) => exists|rounds: Seq<RoundReply>|
            {
                &&& is_whole(evidence, through, rounds, max_rounds)
                &&& #[trigger] are_answered(rounds)
                &&& turns == all_turns(evidence, through, rounds, req.prompt@, pack, previous)
                &&& g == generated(evidence, through, rounds, max_rounds, pack)
            },
        Err(e) => exists|rounds: Seq<RoundReply>, failing: Seq<Turn>|
            {
                &&& goes_on(evidence, through, rounds, max_rounds)
                &&& #[trigger] are_answered(rounds)
                &&& #[trigger] round_comes_to(
                    asked(req.prompt@, pack, previous, run_after(evidence, through, rounds)),
                    failing,
                    Err(e),
                )
                &&& turns == all_turns(evidence, through, rounds, req.prompt@, pack, previous)
                    + failing
            },
    }
}

/// Counts what the instructions take up, as far as a machine word holds it.
fn instruction_tokens<T: Tokenizer>(
    prompt: &str,
    previous: &Vec<Block>,
    previous_json: Option<&str>,
    tok: &T,
) -> (r: usize)
    ensures
        r == capped(
            instruction_size(prompt@, views(previous@), opt_view(previous_json), tok),
        ),
{
    let ghost texts = plain_texts(views(previous@));
    let of_previous: usize = match previous_json {
        Some(json) => tok.count(json),
        None => {
            let mut sum: usize = 0;
            let mut i: usize = 0;
            while i < previous.len()
                invariant
                    i <= previous@.len(),
                    texts == plain_texts(views(previous@)),
                    0 <= total_tokens(texts.take(i as int), tok),
                    sum == capped(total_tokens(texts.take(i as int), tok)),
                decreases previous.len() - i,
            {
                let text = previous[i].content.plain_text();
                let n: usize = tok.count(text.as_str());
                assert(texts.take(i + 1).drop_last() =~= texts.take(i as int));
                assert(texts.take(i + 1).last() == text@);
                sum = sum.saturating_add(n);
                i = i + 1;
            }
            assert(texts.take(i as int) =~= texts);
            sum
        },
    };
    tok.count(prompt).saturating_add(tok.count(SCHEMA_BRIEF)).saturating_add(of_previous)
}

proof fn lemma_round<P: Planner>(
    req: DraftRequestView,
    drafted: Seq<BlockView>,
    r: Result<SettledDraftView, AgentErrorView>,
    start: P,
    mid: P,
    end: P,
)
    requires
        exists|calls: Seq<&mut P>, left: Seq<P>|
            {
                &&& #[trigger] in_turn::<P>(
                    start,
                    seq![Turn::Draft { req, answer: Ok(drafted) }],
                    calls,
                    left,
                    mid,
                )
                &&& forall|i: int| 0 <= i < calls.len() ==> *final(#[trigger] calls[i]) == left[i]
            },
        exists|turns: Seq<Turn>, calls: Seq<&mut P>, left: Seq<P>|
            {
                &&& #[trigger] settles_to(req, drafted, turns, r)
                &&& #[trigger] in_turn::<P>(mid, turns, calls, left, end)
                &&& forall|i: int| 0 <= i < calls.len() ==> *final(#[trigger] calls[i]) == left[i]
            },
    ensures
        exists|turns: Seq<Turn>, calls: Seq<&mut P>, left: Seq<P>|
            {
                &&& #[trigger] round_comes_to(req, turns, r)
                &&& #[trigger] in_turn::<P>(start, turns, calls, left, end)
                &&& forall|i: int| 0 <= i < calls.len() ==> *final(#[trigger] calls[i]) == left[i]
            },
{
    let first = seq![Turn::Draft { req, answer: Ok(drafted) }];
    let (turns, calls, left) = choose|turns: Seq<Turn>, calls: Seq<&mut P>, left: Seq<P>|
        {
            &&& #[trigger] settles_to(req, drafted, turns, r)
            &&& #[trigger] in_turn::<P>(mid, turns, calls, left, end)
            &&& forall|i: int| 0 <= i < calls.len() ==> *final(#[trigger] calls[i]) == left[i]
        };
    lemma_more_turns::<P>(start, first, mid, turns, end);
    match r {
        Ok(d) => {
            let redrafted = choose|replies: Seq<Seq<Option<BlockView>>>|
                {
                    &&& #[trigger] all_are_wanted(drafted, replies)
                    &&& d == settled(drafted, replies)
                    &&& turns == settling_turns(req, drafted, replies)
                };
            let reply = RoundReply { drafted, redrafted };
            assert(first + turns == round_turns(req, reply));
        },
        Err(e) => {
            assert(settles_to(req, drafted, turns, Err(e)));
        },
    }
    assert(round_comes_to(req, first + turns, r));
}

/// Asks for the draft of one round, and settles its blocks. The planner is called for the draft
/// once.
fn draft_round<P: Planner>(planner: &mut P, ask: &DraftRequest<'_>) -> (r: Result<
    SettledDraft,
    AgentError,
>)
    ensures
        exists|turns: Seq<Turn>, calls: Seq<&mut P>, left: Seq<P>|
            {
                &&& #[trigger] round_comes_to(ask@, turns, settled_answer(r))
                &&& #[trigger] in_turn::<P>(*old(planner), turns, calls, left, *final(planner))
                &&& forall|i: int| 0 <= i < calls.len() ==> *final(#[trigger] calls[i]) == left[i]
            },
{
    let ghost before = *planner;
    let answer = ask_draft(planner, ask);
    let ghost between = *planner;
    match answer {
        Err(e) => {
            assert(round_comes_to(
                ask@,
                seq![Turn::Draft { req: ask@, answer: Err(e@) }],
                Err(e@),
            ));
            Err(e)
        },
        Ok(drafted) => {
            let ghost first = views(drafted@);
            let r = settle_schema(planner, ask, drafted);
            proof {
                lemma_round::<P>(ask@, first, settled_answer(r), before, between, *planner);
            }
            r
        },
    }
}

/// One more round, after those before it.
proof fn lemma_round_added(
    evidence: Seq<EvidenceTextView>,
    through: u64,
    rounds: Seq<RoundReply>,
    reply: RoundReply,
    prompt: Seq<char>,
    pack: EvidencePackView,
    previous: Seq<BlockView>,
)
    requires
        are_answered(rounds),
        all_are_wanted(reply.drafted, reply.redrafted),
    ensures
        are_answered(rounds.push(reply)),
        all_turns(evidence, through, rounds.push(reply), prompt, pack, previous) == all_turns(
            evidence,
            through,
            rounds,
            prompt,
            pack,
            previous,
        ) + round_turns(
            asked(prompt, pack, previous, run_after(evidence, through, rounds)),
            reply,
        ),
        run_after(evidence, through, rounds.push(reply)) == after_round(
            run_after(evidence, through, rounds),
            evidence,
            through,
            settled(reply.drafted, reply.redrafted),
        ),
{
    let more = rounds.push(reply);
    assert(more.drop_last() =~= rounds);
    assert(more.last() == reply);
    assert forall|k: int| 0 <= k < more.len() implies all_are_wanted(
        (#[trigger] more[k]).drafted,
        more[k].redrafted,
    ) by {
        if k < rounds.len() {
            assert(more[k] == rounds[k]);
        }
    }
}

/// Where the loop went on after all rounds so far, it is the last one that settles whether it
/// stops.
proof fn lemma_stop_added(
    evidence: Seq<EvidenceTextView>,
    through: u64,
    rounds: Seq<RoundReply>,
    reply: RoundReply,
    max_rounds: u32,
)
    requires
        goes_on(evidence, through, rounds, max_rounds),
    ensures
        stop_at(evidence, through, rounds.push(reply), max_rounds) is Some ==> is_whole(
            evidence,
            through,
            rounds.push(reply),
            max_rounds,
        ),
        stop_at(evidence, through, rounds.push(reply), max_rounds) is None ==> goes_on(
            evidence,
            through,
            rounds.push(reply),
            max_rounds,
        ),
{
    let more = rounds.push(reply);
    assert forall|k: int| 0 < k < more.len() implies stop_at(
        evidence,
        through,
        #[trigger] more.take(k),
        max_rounds,
    ) is None by {
        assert(more.take(k) =~= rounds.take(k));
    }
    assert(more.take(more.len() as int) =~= more);
}

/// Whether the loop has gone on so far, and the generation stands at `run`, where a planner is
/// asked and answers so.
#[verifier::opaque]
spec fn reaches(
    evidence: Seq<EvidenceTextView>,
    req: &GenerationRequest<'_>,
    pack: EvidencePackView,
    previous: Seq<BlockView>,
    turns: Seq<Turn>,
    run: RunView,
) -> bool {
    exists|rounds: Seq<RoundReply>|
        {
            &&& #[trigger] are_answered(rounds)
            &&& goes_on(evidence, req.through_event_seq, rounds, req.limits.max_rounds)
            &&& run == run_after(evidence, req.through_event_seq, rounds)
            &&& turns == all_turns(
                evidence,
                req.through_event_seq,
                rounds,
                req.prompt@,
                pack,
                previous,
            )
        }
}

/// Whether and why the loop stops after one more round.
#[verifier::opaque]
spec fn next_stop(
    evidence: Seq<EvidenceTextView>,
    req: &GenerationRequest<'_>,
    run: RunView,
    draft: SettledDraftView,
) -> Option<StopReason> {
    stop_after(
        after_round(run, evidence, req.through_event_seq, draft),
        is_better(run, evidence, req.through_event_seq, draft),
        req.limits.max_rounds,
    )
}

proof fn lemma_reaches(
    evidence: Seq<EvidenceTextView>,
    req: &GenerationRequest<'_>,
    pack: EvidencePackView,
    previous: Seq<BlockView>,
    rounds: Seq<RoundReply>,
)
    requires
        are_answered(rounds),
        goes_on(evidence, req.through_event_seq, rounds, req.limits.max_rounds),
    ensures
        reaches(
            evidence,
            req,
            pack,
            previous,
            all_turns(evidence, req.through_event_seq, rounds, req.prompt@, pack, previous),
            run_after(evidence, req.through_event_seq, rounds),
        ),
{
    reveal(reaches);
}

proof fn lemma_comes_to(
    evidence: Seq<EvidenceTextView>,
    req: &GenerationRequest<'_>,
    pack: EvidencePackView,
    previous: Seq<BlockView>,
    rounds: Seq<RoundReply>,
)
    requires
        are_answered(rounds),
        is_whole(evidence, req.through_event_seq, rounds, req.limits.max_rounds),
    ensures
        comes_to(
            evidence,
            req,
            pack,
            previous,
            all_turns(evidence, req.through_event_seq, rounds, req.prompt@, pack, previous),
            Ok(
                finished(
                    run_after(evidence, req.through_event_seq, rounds),
                    stop_at(evidence, req.through_event_seq, rounds, req.limits.max_rounds)->0,
                    pack,
                ),
            ),
        ),
{
}

proof fn lemma_first_round(
    evidence: Seq<EvidenceTextView>,
    req: &GenerationRequest<'_>,
    pack: EvidencePackView,
    previous: Seq<BlockView>,
)
    ensures
        reaches(evidence, req, pack, previous, Seq::empty(), run_start()),
{
    let none = Seq::<RoundReply>::empty();
    assert(are_answered(none));
    lemma_reaches(evidence, req, pack, previous, none);
}

/// One more round, after those before it: the generation comes to its end, or goes on.
proof fn lemma_one_more_round(
    evidence: Seq<EvidenceTextView>,
    req: &GenerationRequest<'_>,
    pack: EvidencePackView,
    previous: Seq<BlockView>,
    run: RunView,
    turns: Seq<Turn>,
    more: Seq<Turn>,
    draft: SettledDraftView,
)
    requires
        reaches(evidence, req, pack, previous, turns, run),
        round_comes_to(asked(req.prompt@, pack, previous, run), more, Ok(draft)),
    ensures
        ({
            let after = after_round(run, evidence, req.through_event_seq, draft);
            match next_stop(evidence, req, run, draft) {
                Some(stop) => comes_to(
                    evidence,
                    req,
                    pack,
                    previous,
                    turns + more,
                    Ok(finished(after, stop, pack)),
                ),
                None => reaches(evidence, req, pack, previous, turns + more, after),
            }
        }),
{
    reveal(reaches);
    reveal(next_stop);
    let through = req.through_event_seq;
    let max_rounds = req.limits.max_rounds;
    let rounds = choose|rounds: Seq<RoundReply>|
        {
            &&& #[trigger] are_answered(rounds)
            &&& goes_on(evidence, through, rounds, max_rounds)
            &&& run == run_after(evidence, through, rounds)
            &&& turns == all_turns(evidence, through, rounds, req.prompt@, pack, previous)
        };
    let q = asked(req.prompt@, pack, previous, run);
    let reply = choose|reply: RoundReply|
        {
            &&& all_are_wanted(reply.drafted, reply.redrafted)
            &&& draft == settled(reply.drafted, reply.redrafted)
            &&& more == #[trigger] round_turns(q, reply)
        };
    lemma_round_added(evidence, through, rounds, reply, req.prompt@, pack, previous);
    lemma_stop_added(evidence, through, rounds, reply, max_rounds);
    let whole = rounds.push(reply);
    assert(whole.drop_last() =~= rounds);
    assert(whole.last() == reply);
    assert(next_stop(evidence, req, run, draft) == stop_at(evidence, through, whole, max_rounds));
    if next_stop(evidence, req, run, draft) is Some {
        lemma_comes_to(evidence, req, pack, previous, whole);
    } else {
        lemma_reaches(evidence, req, pack, previous, whole);
    }
}

/// A round fails, after those before it.
proof fn lemma_round_failed(
    evidence: Seq<EvidenceTextView>,
    req: &GenerationRequest<'_>,
    pack: EvidencePackView,
    previous: Seq<BlockView>,
    run: RunView,
    turns: Seq<Turn>,
    more: Seq<Turn>,
    e: AgentErrorView,
)
    requires
        reaches(evidence, req, pack, previous, turns, run),
        round_comes_to(asked(req.prompt@, pack, previous, run), more, Err(e)),
    ensures
        comes_to(evidence, req, pack, previous, turns + more, Err(e)),
{
    reveal(reaches);
    let through = req.through_event_seq;
    let rounds = choose|rounds: Seq<RoundReply>|
        {
            &&& #[trigger] are_answered(rounds)
            &&& goes_on(evidence, through, rounds, req.limits.max_rounds)
            &&& run == run_after(evidence, through, rounds)
            &&& turns == all_turns(evidence, through, rounds, req.prompt@, pack, previous)
        };
    assert(are_answered(rounds));
    assert(round_comes_to(
        asked(req.prompt@, pack, previous, run_after(evidence, through, rounds)),
        more,
        Err(e),
    ));
}

proof fn lemma_round_on<P: Planner>(
    evidence: Seq<EvidenceTextView>,
    req: &GenerationRequest<'_>,
    pack: EvidencePackView,
    previous: Seq<BlockView>,
    run: RunView,
    r: Result<SettledDraftView, AgentErrorView>,
    start: P,
    mid: P,
    end: P,
)
    requires
        exists|turns: Seq<Turn>, calls: Seq<&mut P>, left: Seq<P>|
            {
                &&& #[trigger] reaches(evidence, req, pack, previous, turns, run)
                &&& #[trigger] in_turn::<P>(start, turns, calls, left, mid)
                &&& forall|i: int| 0 <= i < calls.len() ==> *final(#[trigger] calls[i]) == left[i]
            },
        exists|turns: Seq<Turn>, calls: Seq<&mut P>, left: Seq<P>|
            {
                &&& #[trigger] round_comes_to(asked(req.prompt@, pack, previous, run), turns, r)
                &&& #[trigger] in_turn::<P>(mid, turns, calls, left, end)
                &&& forall|i: int| 0 <= i < calls.len() ==> *final(#[trigger] calls[i]) == left[i]
            },
    ensures
        match r {
            Err(e) => exists|turns: Seq<Turn>, calls: Seq<&mut P>, left: Seq<P>|
                {
                    &&& #[trigger] comes_to(evidence, req, pack, previous, turns, Err(e))
                    &&& #[trigger] in_turn::<P>(start, turns, calls, left, end)
                    &&& forall|i: int| 0 <= i < calls.len() ==> *final(#[trigger] calls[i]) == left[i]
                },
            Ok(draft) => match next_stop(evidence, req, run, draft) {
                Some(stop) => exists|turns: Seq<Turn>, calls: Seq<&mut P>, left: Seq<P>|
                    {
                        &&& #[trigger] comes_to(
                            evidence,
                            req,
                            pack,
                            previous,
                            turns,
                            Ok(finished(after_round(run, evidence, req.through_event_seq, draft), stop, pack)),
                        )
                        &&& #[trigger] in_turn::<P>(start, turns, calls, left, end)
                        &&& forall|i: int| 0 <= i < calls.len() ==> *final(#[trigger] calls[i]) == left[i]
                    },
                None => exists|turns: Seq<Turn>, calls: Seq<&mut P>, left: Seq<P>|
                    {
                        &&& #[trigger] reaches(
                            evidence,
                            req,
                            pack,
                            previous,
                            turns,
                            after_round(run, evidence, req.through_event_seq, draft),
                        )
                        &&& #[trigger] in_turn::<P>(start, turns, calls, left, end)
                        &&& forall|i: int| 0 <= i < calls.len() ==> *final(#[trigger] calls[i]) == left[i]
                    },
            },
        },
{
    let (first, first_calls, first_left) = choose|turns: Seq<Turn>, calls: Seq<&mut P>, left: Seq<P>|
        {
            &&& #[trigger] reaches(evidence, req, pack, previous, turns, run)
            &&& #[trigger] in_turn::<P>(start, turns, calls, left, mid)
            &&& forall|i: int| 0 <= i < calls.len() ==> *final(#[trigger] calls[i]) == left[i]
        };
    let (more, more_calls, more_left) = choose|turns: Seq<Turn>, calls: Seq<&mut P>, left: Seq<P>|
        {
            &&& #[trigger] round_comes_to(asked(req.prompt@, pack, previous, run), turns, r)
            &&& #[trigger] in_turn::<P>(mid, turns, calls, left, end)
            &&& forall|i: int| 0 <= i < calls.len() ==> *final(#[trigger] calls[i]) == left[i]
        };
    lemma_more_turns::<P>(start, first, mid, more, end);
    let turns = first + more;
    match r {
        Err(e) => {
            lemma_round_failed(evidence, req, pack, previous, run, first, more, e);
            assert(comes_to(evidence, req, pack, previous, turns, Err(e)));
        },
        Ok(draft) => {
            let after = after_round(run, evidence, req.through_event_seq, draft);
            lemma_one_more_round(evidence, req, pack, previous, run, first, more, draft);
            match next_stop(evidence, req, run, draft) {
                Some(stop) => {
                    let g = finished(after, stop, pack);
                    assert(comes_to(evidence, req, pack, previous, turns, Ok(g)));
                },
                None => {
                    assert(reaches(evidence, req, pack, previous, turns, after));
                },
            }
        },
    }
}

/// Runs the rounds of a generation, once it is settled what goes to the planner.
fn run_rounds<P: Planner>(
    evidence: &[EvidenceText],
    req: &GenerationRequest<'_>,
    pack: &EvidencePack,
    previous: &[Block],
    planner: &mut P,
) -> (r: Result<GenerationResult, AgentError>)
    ensures
        exists|turns: Seq<Turn>, calls: Seq<&mut P>, left: Seq<P>|
            {
                &&& #[trigger] comes_to(
                    views(evidence@),
                    req,
                    pack@,
                    views(previous@),
                    turns,
                    produced_view(r),
                )
                &&& #[trigger] in_turn::<P>(*old(planner), turns, calls, left, *final(planner))
                &&& forall|i: int| 0 <= i < calls.len() ==> *final(#[trigger] calls[i]) == left[i]
            },
{
    let ghost ev = views(evidence@);
    let ghost before = views(previous@);
    let through: u64 = req.through_event_seq;
    let max_rounds: u32 = req.limits.max_rounds;
    let mut run = Run::start();
    proof {
        lemma_no_turn::<P>(*planner);
        lemma_first_round(ev, req, pack@, before);
    }
    loop
        invariant
            ev == views(evidence@),
            before == views(previous@),
            through == req.through_event_seq,
            max_rounds == req.limits.max_rounds,
            run.round == 0 || run.round < max_rounds,
            exists|turns: Seq<Turn>, calls: Seq<&mut P>, left: Seq<P>|
                {
                    &&& #[trigger] reaches(ev, req, pack@, before, turns, run@)
                    &&& #[trigger] in_turn::<P>(*old(planner), turns, calls, left, *planner)
                    &&& forall|i: int| 0 <= i < calls.len() ==> *final(#[trigger] calls[i]) == left[i]
                },
        decreases max_rounds + 1 - run.round,
    {
        let ask = DraftRequest {
            prompt: req.prompt,
            evidence: pack,
            rejections: run.rejections.as_slice(),
            round: run.round + 1,
            previous,
        };
        let ghost now = run@;
        assert(ask@ == asked(req.prompt@, pack@, before, now));
        let ghost between = *planner;
        let answer = draft_round(planner, &ask);
        proof {
            lemma_round_on::<P>(
                ev,
                req,
                pack@,
                before,
                now,
                settled_answer(answer),
                *old(planner),
                between,
                *planner,
            );
        }
        let draft: SettledDraft = match answer {
            Ok(draft) => draft,
            Err(e) => {
                return Err(e);
            },
        };
        let ghost dv = draft@;
        let stop = run.absorb(evidence, through, draft, max_rounds);
        assert(stop == next_stop(ev, req, now, dv)) by {
            reveal(next_stop);
        }
        if let Some(stop) = stop {
            return Ok(run.finish(stop, pack));
        }
    }
}

/// Settles what goes to the planner: the version that is revised, and the evidence.
fn prepare<T: Tokenizer>(store: &ReadSnapshot, req: &GenerationRequest<'_>, tok: &T) -> (r: Result<
    (Vec<Block>, EvidencePack),
    AgentError,
>)
    ensures
        match r {
            Ok((previous, pack)) => {
                &&& prepared(store@, req, tok) == Ok::<EvidencePackView, AgentErrorView>(pack@)
                &&& revised_blocks(store@.runs, req.revise_of) == Ok::<
                    Seq<BlockView>,
                    AgentErrorView,
                >(views(previous@))
            },
            Err(e) => prepared(store@, req, tok) == Err::<EvidencePackView, AgentErrorView>(e@),
        },
{
    let previous: Vec<Block> = match req.revise_of {
        Some(version) => match load_version(store.runs.as_slice(), version) {
            Ok(blocks) => blocks,
            Err(e) => {
                return Err(e);
            },
        },
        None => Vec::new(),
    };
    assert(req.revise_of is None ==> views(previous@) =~= Seq::empty());
    let size: usize = instruction_tokens(req.prompt, &previous, req.previous_json, tok);
    proof {
        lemma_total_not_negative(plain_texts(views(previous@)), tok);
        lemma_capped_instructions(
            req.budget,
            instruction_size(req.prompt@, views(previous@), opt_view(req.previous_json), tok),
        );
    }
    let room: usize = match evidence_allowance(req.budget, size) {
        Ok(room) => room,
        Err(e) => {
            return Err(e);
        },
    };
    let index = build_index(store, req.meeting, req.through_event_seq);
    let pack: EvidencePack = match pack_evidence(&index, room, tok) {
        Ok(pack) => pack,
        Err(e) => {
            return Err(e);
        },
    };
    assert(prepared(store@, req, tok) == Ok::<EvidencePackView, AgentErrorView>(pack@));
    Ok((previous, pack))
}

/// Runs one generation. Drafts come from the planner; everything else is decided here.
///
/// Before the planner is called, the version to revise must exist and the evidence must
/// fit: otherwise there is no generation, and the planner is not called. After that the planner
/// gets what `asked` says, round by round, and is called for one draft in each, and whatever it
/// answers, the document is what `generated` makes of its answers.
pub fn generate<T: Tokenizer, P: Planner>(
    store: &ReadSnapshot,
    req: &GenerationRequest<'_>,
    planner: &mut P,
    tok: &T,
) -> (r: Result<GenerationResult, AgentError>)
    ensures
        match prepared(store@, req, tok) {
            Err(e) => r is Err && r->Err_0@ == e && *final(planner) == *old(planner),
            Ok(pack) => exists|turns: Seq<Turn>, calls: Seq<&mut P>, left: Seq<P>|
                {
                    &&& #[trigger] comes_to(
                        store@.evidence,
                        req,
                        pack,
                        revised_blocks(store@.runs, req.revise_of)->Ok_0,
                        turns,
                        produced_view(r),
                    )
                    &&& #[trigger] in_turn::<P>(*old(planner), turns, calls, left, *final(planner))
                    &&& forall|i: int| 0 <= i < calls.len() ==> *final(#[trigger] calls[i]) == left[i]
                },
        },
{
    let (previous, pack): (Vec<Block>, EvidencePack) = match prepare(store, req, tok) {
        Ok(ready) => ready,
        Err(e) => {
            return Err(e);
        },
    };
    let evidence = store.evidence.as_slice();
    assert(views(evidence@) == store@.evidence);
    let ghost before = *planner;
    let r = run_rounds(evidence, req, &pack, previous.as_slice(), planner);
    proof {
        let (turns, calls, left) = choose|turns: Seq<Turn>, calls: Seq<&mut P>, left: Seq<P>|
            {
                &&& #[trigger] comes_to(
                    store@.evidence,
                    req,
                    pack@,
                    views(previous@),
                    turns,
                    produced_view(r),
                )
                &&& #[trigger] in_turn::<P>(before, turns, calls, left, *planner)
                &&& forall|i: int| 0 <= i < calls.len() ==> *final(#[trigger] calls[i]) == left[i]
            };
        assert(comes_to(
            store@.evidence,
            req,
            prepared(store@, req, tok)->Ok_0,
            revised_blocks(store@.runs, req.revise_of)->Ok_0,
            turns,
            produced_view(r),
        ));
        assert(in_turn::<P>(*old(planner), turns, calls, left, *planner));
    }
    r
}

/// The rules for blocks as they are told to a model. They stand here so that what they
/// take up is counted.
pub const SCHEMA_BRIEF: &'static str = "\
每個區塊必須包含 kind、claimKind 與 content。claimKind 取值為 fact、inference、\
suggestion、gap，沒有預設值。claimKind 為 fact 或 inference 的區塊必須附上 \
sourceRefs，每筆包含 sourceKind、sourceId、sourceRevision、locator、quotedText \
與 quotedTextSha256。quotedText 必須逐字取自證據，不得改寫。";

// ---------------------------------------------------------------------------
// What holds of every generation
// ---------------------------------------------------------------------------

proof fn lemma_passed_is_verified(
    evidence: Seq<EvidenceTextView>,
    through: u64,
    draft: SettledDraftView,
    k: int,
)
    requires
        0 <= k < passed(evidence, through, draft).len(),
    ensures
        is_verified(evidence, through, passed(evidence, through, draft)[k]),
{
    let admitted = admitted_blocks(evidence, through, draft.blocks);
    deduplicating_only_removes(admitted, k);
    let i = choose|i: int|
        0 <= i < admitted.len() && deduplicated(admitted)[k] == #[trigger] admitted[i];
    admitted_blocks_are_verified(evidence, through, draft.blocks, i);
}

proof fn lemma_best_is_verified(
    evidence: Seq<EvidenceTextView>,
    through: u64,
    rounds: Seq<RoundReply>,
    k: int,
)
    requires
        0 <= k < run_after(evidence, through, rounds).best.len(),
    ensures
        is_verified(evidence, through, run_after(evidence, through, rounds).best[k]),
    decreases rounds.len(),
{
    if rounds.len() > 0 {
        let before = run_after(evidence, through, rounds.drop_last());
        let draft = settled(rounds.last().drafted, rounds.last().redrafted);
        if is_better(before, evidence, through, draft) {
            lemma_passed_is_verified(evidence, through, draft, k);
        } else {
            lemma_best_is_verified(evidence, through, rounds.drop_last(), k);
        }
    }
}

/// Whatever a planner answers, in however many rounds: every block of the document meets
/// the rules, cites something if it states a fact, and has only citations that were found
/// valid. The one exception is the gap that the system reports itself.
pub proof fn generated_blocks_are_verified(
    evidence: Seq<EvidenceTextView>,
    through: u64,
    rounds: Seq<RoundReply>,
    max_rounds: u32,
    pack: EvidencePackView,
    k: int,
)
    requires
        0 <= k < generated(evidence, through, rounds, max_rounds, pack).blocks.len(),
    ensures
        ({
            let b = generated(evidence, through, rounds, max_rounds, pack).blocks[k];
            ||| is_verified(evidence, through, b)
            ||| b == gap(omitted_words(pack.segments_omitted as nat)) && pack.segments_omitted > 0
        }),
{
    let best = run_after(evidence, through, rounds).best;
    let whole = best + coverage(pack.segments_omitted);
    deduplicating_only_removes(whole, k);
    let i = choose|i: int| 0 <= i < whole.len() && deduplicated(whole)[k] == #[trigger] whole[i];
    if i < best.len() {
        lemma_best_is_verified(evidence, through, rounds, i);
    }
}

/// What the program is for. Whatever planner is asked and whatever it answers: every fact in
/// the document carries a citation, and every citation of every block leads to words that stand
/// in the evidence, in a version from before the cursor.
pub proof fn every_fact_is_traceable(
    evidence: Seq<EvidenceTextView>,
    req: &GenerationRequest<'_>,
    pack: EvidencePackView,
    previous: Seq<BlockView>,
    turns: Seq<Turn>,
    g: GenerationResultView,
    k: int,
)
    requires
        comes_to(evidence, req, pack, previous, turns, Ok(g)),
        0 <= k < g.blocks.len(),
    ensures
        g.blocks[k].claim_kind is Fact ==> g.blocks[k].source_refs.len() > 0,
        forall|i: int|
            0 <= i < g.blocks[k].source_refs.len() ==> is_traceable(
                evidence,
                req.through_event_seq,
                #[trigger] g.blocks[k].source_refs[i],
            ) && g.blocks[k].source_refs[i].validation_status == "valid"@,
{
    let through = req.through_event_seq;
    let max_rounds = req.limits.max_rounds;
    let rounds = choose|rounds: Seq<RoundReply>|
        {
            &&& is_whole(evidence, through, rounds, max_rounds)
            &&& #[trigger] are_answered(rounds)
            &&& g == generated(evidence, through, rounds, max_rounds, pack)
        };
    generated_blocks_are_verified(evidence, through, rounds, max_rounds, pack, k);
    let b = g.blocks[k];
    assert forall|i: int| 0 <= i < b.source_refs.len() implies is_traceable(
        evidence,
        through,
        #[trigger] b.source_refs[i],
    ) && b.source_refs[i].validation_status == "valid"@ by {
        valid_citations_are_traceable(evidence, through, b.source_refs[i]);
    }
}

/// What is settled before a planner is called depends on what held at the cursor, and on
/// nothing that has been recorded since.
pub proof fn later_recordings_do_not_enter<T: Tokenizer>(
    a: ReadSnapshotView,
    b: ReadSnapshotView,
    more_segments: Seq<SegmentRowView>,
    more_notes: Seq<StoredNoteView>,
    more_speakers: Seq<SpeakerRowView>,
    req: &GenerationRequest<'_>,
    tok: &T,
)
    requires
        b.segments == a.segments + more_segments,
        b.notes == a.notes + more_notes,
        b.speakers == a.speakers + more_speakers,
        b.runs == a.runs,
        forall|k: int|
            0 <= k < more_segments.len() ==> (#[trigger] more_segments[k]).created_event_seq
                > req.through_event_seq,
        forall|k: int|
            0 <= k < more_notes.len() ==> (#[trigger] more_notes[k]).event_seq
                > req.through_event_seq,
        forall|k: int|
            0 <= k < more_speakers.len() ==> (#[trigger] more_speakers[k]).first_event_seq
                > req.through_event_seq,
    ensures
        prepared(b, req, tok) == prepared(a, req, tok),
{
    the_index_is_frozen(
        a,
        b,
        more_segments,
        more_notes,
        more_speakers,
        req.meeting,
        req.through_event_seq,
    );
}

proof fn lemma_round_count(evidence: Seq<EvidenceTextView>, through: u64, rounds: Seq<RoundReply>)
    requires
        rounds.len() <= u32::MAX,
    ensures
        run_after(evidence, through, rounds).round == rounds.len(),
    decreases rounds.len(),
{
    if rounds.len() > 0 {
        lemma_round_count(evidence, through, rounds.drop_last());
    }
}

/// The loop never runs for more rounds than it is allowed, and always for one.
pub proof fn rounds_are_limited(
    evidence: Seq<EvidenceTextView>,
    through: u64,
    rounds: Seq<RoundReply>,
    max_rounds: u32,
    pack: EvidencePackView,
)
    requires
        is_whole(evidence, through, rounds, max_rounds),
    ensures
        1 <= rounds.len(),
        rounds.len() <= max_rounds || rounds.len() == 1,
        generated(evidence, through, rounds, max_rounds, pack).rounds == rounds.len(),
{
    if rounds.len() > 1 {
        if rounds.len() > max_rounds {
            let k: int = if max_rounds == 0 {
                1
            } else {
                max_rounds as int
            };
            let r = rounds.take(k);
            assert(stop_at(evidence, through, r, max_rounds) is None);
            lemma_round_count(evidence, through, r);
        }
    }
    lemma_round_count(evidence, through, rounds);
}

/// How many of the turns are requests for a draft.
pub open spec fn draft_count(turns: Seq<Turn>) -> nat
    decreases turns.len(),
{
    if turns.len() == 0 {
        0
    } else {
        draft_count(turns.drop_last()) + if turns.last() is Draft {
            1nat
        } else {
            0nat
        }
    }
}

proof fn lemma_draft_count_add(a: Seq<Turn>, b: Seq<Turn>)
    ensures
        draft_count(a + b) == draft_count(a) + draft_count(b),
    decreases b.len(),
{
    if b.len() == 0 {
        assert(a + b =~= a);
    } else {
        lemma_draft_count_add(a, b.drop_last());
        assert((a + b).drop_last() =~= a + b.drop_last());
        assert((a + b).last() == b.last());
    }
}

proof fn lemma_no_drafts_in_redrafts(
    req: DraftRequestView,
    t: RetryView,
    replies: Seq<Option<BlockView>>,
)
    ensures
        draft_count(redraft_turns(req, t, replies)) == 0,
    decreases replies.len(),
{
    if replies.len() > 0 {
        let rest = redraft_turns(req, t.after(replies[0]), replies.skip(1));
        let first = seq![redraft_turn(req, t, Ok(replies[0]))];
        lemma_no_drafts_in_redrafts(req, t.after(replies[0]), replies.skip(1));
        lemma_draft_count_add(first, rest);
        assert(first.drop_last() =~= Seq::empty());
        assert(draft_count(first.drop_last()) == 0);
    }
}

proof fn lemma_no_drafts_in_settling(
    req: DraftRequestView,
    drafted: Seq<BlockView>,
    replies: Seq<Seq<Option<BlockView>>>,
)
    ensures
        draft_count(settling_turns(req, drafted, replies)) == 0,
    decreases drafted.len(),
{
    if drafted.len() > 0 {
        let n = drafted.len() - 1;
        let before = settling_turns(req, drafted.drop_last(), replies);
        let more = redraft_turns(req, unretried(drafted.last()), replies[n]);
        lemma_no_drafts_in_settling(req, drafted.drop_last(), replies);
        lemma_no_drafts_in_redrafts(req, unretried(drafted.last()), replies[n]);
        lemma_draft_count_add(before, more);
    }
}

proof fn lemma_one_draft_a_round(
    evidence: Seq<EvidenceTextView>,
    through: u64,
    rounds: Seq<RoundReply>,
    prompt: Seq<char>,
    pack: EvidencePackView,
    previous: Seq<BlockView>,
)
    ensures
        draft_count(all_turns(evidence, through, rounds, prompt, pack, previous)) == rounds.len(),
    decreases rounds.len(),
{
    if rounds.len() > 0 {
        let before = rounds.drop_last();
        let reply = rounds.last();
        let q = asked(prompt, pack, previous, run_after(evidence, through, before));
        let first = seq![Turn::Draft { req: q, answer: Ok(reply.drafted) }];
        let rest = settling_turns(q, reply.drafted, reply.redrafted);
        lemma_one_draft_a_round(evidence, through, before, prompt, pack, previous);
        lemma_no_drafts_in_settling(q, reply.drafted, reply.redrafted);
        lemma_draft_count_add(first, rest);
        assert(first.drop_last() =~= Seq::empty());
        assert(draft_count(first.drop_last()) == 0);
        assert(first.last() is Draft);
        lemma_draft_count_add(
            all_turns(evidence, through, before, prompt, pack, previous),
            round_turns(q, reply),
        );
    }
}

/// The planner is asked for a draft exactly as often as there are rounds, and there is one round
/// at least and no more than are allowed. A generation that stopped at the limit had all its
/// rounds, and one that stopped for want of progress had two at least.
pub proof fn one_draft_is_asked_for_in_each_round(
    evidence: Seq<EvidenceTextView>,
    req: &GenerationRequest<'_>,
    pack: EvidencePackView,
    previous: Seq<BlockView>,
    turns: Seq<Turn>,
    g: GenerationResultView,
)
    requires
        comes_to(evidence, req, pack, previous, turns, Ok(g)),
    ensures
        draft_count(turns) == g.rounds,
        1 <= g.rounds,
        g.rounds <= req.limits.max_rounds || g.rounds == 1,
        g.stop_reason is RoundLimit ==> g.rounds >= req.limits.max_rounds,
        g.stop_reason is NoImprovement ==> g.rounds >= 2,
{
    let through = req.through_event_seq;
    let max_rounds = req.limits.max_rounds;
    let rounds = choose|rounds: Seq<RoundReply>|
        {
            &&& is_whole(evidence, through, rounds, max_rounds)
            &&& #[trigger] are_answered(rounds)
            &&& turns == all_turns(evidence, through, rounds, req.prompt@, pack, previous)
            &&& g == generated(evidence, through, rounds, max_rounds, pack)
        };
    rounds_are_limited(evidence, through, rounds, max_rounds, pack);
    lemma_one_draft_a_round(evidence, through, rounds, req.prompt@, pack, previous);
    if rounds.len() == 1 {
        assert(run_after(evidence, through, rounds.drop_last()) == run_start());
    }
}

/// An empty document counts as failed and is never called verified; a document with
/// something in it does not count as failed.
pub proof fn empty_documents_are_failures(
    evidence: Seq<EvidenceTextView>,
    through: u64,
    rounds: Seq<RoundReply>,
    max_rounds: u32,
    pack: EvidencePackView,
)
    requires
        is_whole(evidence, through, rounds, max_rounds),
    ensures
        ({
            let g = generated(evidence, through, rounds, max_rounds, pack);
            &&& g.failure() is Some <==> g.blocks.len() == 0
            &&& g.blocks.len() == 0 <==> g.stop_reason is NothingAdmissible
            &&& g.stop_reason is Verified ==> g.rejections.len() == 0
        }),
{
    let run = run_after(evidence, through, rounds);
    let whole = run.best + coverage(pack.segments_omitted);
    if run.best.len() > 0 {
        lemma_dedup_not_empty(whole);
    }
}

/// A later round never makes the document poorer: it keeps at least as many blocks.
pub proof fn rounds_never_lose_ground(
    evidence: Seq<EvidenceTextView>,
    through: u64,
    rounds: Seq<RoundReply>,
)
    requires
        rounds.len() > 0,
    ensures
        run_after(evidence, through, rounds.drop_last()).best.len() <= run_after(
            evidence,
            through,
            rounds,
        ).best.len(),
{
}

/// What was left out of the evidence is said in the document, wherever the document has
/// something in it.
pub proof fn omissions_are_reported(
    evidence: Seq<EvidenceTextView>,
    through: u64,
    rounds: Seq<RoundReply>,
    max_rounds: u32,
    pack: EvidencePackView,
)
    requires
        pack.segments_omitted > 0,
        generated(evidence, through, rounds, max_rounds, pack).blocks.len() > 0,
    ensures
        exists|k: int|
            0 <= k < generated(evidence, through, rounds, max_rounds, pack).blocks.len()
                && key(
                #[trigger] generated(evidence, through, rounds, max_rounds, pack).blocks[k],
            ) == key(gap(omitted_words(pack.segments_omitted as nat))),
{
    let best = run_after(evidence, through, rounds).best;
    let whole = best + coverage(pack.segments_omitted);
    let i = best.len() as int;
    let g = gap(omitted_words(pack.segments_omitted as nat));
    assert(whole[i] == g);
    lemma_omitted_words_have_text(pack.segments_omitted as nat);
    every_sentence_survives(whole, i);
    let k = choose|k: int|
        0 <= k < deduplicated(whole).len() && key(#[trigger] deduplicated(whole)[k])
            == key(g);
    assert(generated(evidence, through, rounds, max_rounds, pack).blocks[k] == deduplicated(
        whole,
    )[k]);
}

} // verus!
