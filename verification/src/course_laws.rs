//! What holds of the steps around a meeting and its documents: what is looked up, what is
//! written and told at each step, and under which words.

use crate::agent::{coverage, gap, omitted_words, uncovered_words};
use crate::cli_planner::{AgentNamesView, CliKind};
use crate::document::{BlockKind, BlockView, ContentView};
use crate::events::{DomainEventView, Level, SessionEventView, UsageView};
use crate::evidence::{total_tokens, CharUpperBound, Tokenizer};
use crate::fixture_source::{script_line, steps_in, FixtureSourceView};
use crate::generation::{instruction_size, plain_texts, GenerationResultView, SCHEMA_BRIEF};
use crate::model::{ClaimKind, MeetingState, Origin, ProviderKind, Track};
use crate::parts::{lemma_stands, stands_in};
use crate::session::SessionEventBatch;
use crate::session_model::SessionView;
use crate::store::{lookup, DocumentBlockView, EvidenceTextView, MeetingId};
use crate::summary::{
    capture_refused, export_file, minute_text, opening, past_step, pumped, Capture, PastActionView,
    PastEventView, PastPlan, PastStageView, PlannerChoiceView, Pump,
};
use crate::text::{decimal, signed_decimal};
use vstd::prelude::*;

verus! {

// ---------------------------------------------------------------------------
// Looking up
// ---------------------------------------------------------------------------

/// A source is found by its kind, its name and its version, and nothing else stands in for it.
/// Where it is there more than once, the first is found.
pub proof fn sources_are_found_by_all_three(
    evidence: Seq<EvidenceTextView>,
    kind: Seq<char>,
    id: Seq<char>,
    revision: u32,
)
    ensures
        match lookup(evidence, kind, id, revision) {
            Some(e) => exists|i: int|
                0 <= i < evidence.len() && e == #[trigger] evidence[i] && e.source_kind == kind
                    && e.source_id == id && e.source_revision == revision && forall|j: int|
                    0 <= j < i ==> !((#[trigger] evidence[j]).source_kind == kind
                        && evidence[j].source_id == id && evidence[j].source_revision == revision),
            None => forall|j: int|
                0 <= j < evidence.len() ==> !((#[trigger] evidence[j]).source_kind == kind
                    && evidence[j].source_id == id && evidence[j].source_revision == revision),
        },
    decreases evidence.len(),
{
    if evidence.len() > 0 {
        let first = evidence[0];
        if !(first.source_kind == kind && first.source_id == id && first.source_revision
            == revision) {
            let rest = evidence.skip(1);
            sources_are_found_by_all_three(rest, kind, id, revision);
            assert forall|j: int| 0 < j < evidence.len() implies #[trigger] evidence[j] == rest[j
                - 1] by {}
            if let Some(e) = lookup(rest, kind, id, revision) {
                let i = choose|i: int|
                    0 <= i < rest.len() && e == #[trigger] rest[i] && e.source_kind == kind
                        && e.source_id == id && e.source_revision == revision && forall|j: int|
                        0 <= j < i ==> !((#[trigger] rest[j]).source_kind == kind
                            && rest[j].source_id == id && rest[j].source_revision == revision);
                assert(evidence[i + 1] == e);
            }
        }
    }
}

// ---------------------------------------------------------------------------
// What takes up room
// ---------------------------------------------------------------------------

/// The instructions take up what the prompt, the rules for blocks and the earlier version take
/// up. That is what is sent of it where it is sent as JSON, else each of its blocks.
pub proof fn instructions_take_up_their_parts<T: Tokenizer>(
    prompt: Seq<char>,
    previous: Seq<BlockView>,
    b: BlockView,
    json: Seq<char>,
    tok: &T,
)
    ensures
        instruction_size(prompt, previous, Some(json), tok) == tok.tokens(prompt) + tok.tokens(
            SCHEMA_BRIEF@,
        ) + tok.tokens(json),
        instruction_size(prompt, Seq::<BlockView>::empty(), None, tok) == tok.tokens(prompt)
            + tok.tokens(SCHEMA_BRIEF@),
        instruction_size(prompt, previous.push(b), None, tok) == instruction_size(
            prompt,
            previous,
            None,
            tok,
        ) + tok.tokens(b.content.plain()),
{
    let all = plain_texts(previous.push(b));
    assert(all.drop_last() =~= plain_texts(previous));
    assert(all.last() == b.content.plain());
    assert(plain_texts(Seq::<BlockView>::empty()).len() == 0);
    assert(total_tokens(plain_texts(Seq::<BlockView>::empty()), tok) == 0);
}

/// Without a better measure each character counts as one token.
pub proof fn characters_are_an_upper_bound(tok: CharUpperBound, text: Seq<char>)
    requires
        text.len() <= usize::MAX,
    ensures
        tok.tokens(text) == text.len(),
{
}

// ---------------------------------------------------------------------------
// Gaps
// ---------------------------------------------------------------------------

/// Where segments were left out, one gap says how many, and where none was there is no gap.
pub proof fn gaps_say_how_many(omitted: usize)
    ensures
        coverage(0).len() == 0,
        omitted > 0 ==> {
            &&& coverage(omitted).len() == 1
            &&& coverage(omitted)[0].kind == BlockKind::Gap
            &&& coverage(omitted)[0].claim_kind == ClaimKind::Gap
            &&& coverage(omitted)[0].source_refs.len() == 0
            &&& coverage(omitted)[0].content matches ContentView::Text { text } && stands_in(
                decimal(omitted as nat),
                text,
            )
        },
{
    lemma_stands(
        "本輪有 "@,
        decimal(omitted as nat),
        " 段逐字稿因額度限制未以原文納入證據，這些區間的內容未被涵蓋。"@,
    );
}

/// What was recorded after the snapshot is told by its number.
pub proof fn later_recordings_are_counted(count: nat)
    ensures
        stands_in(decimal(count), uncovered_words(count)),
        gap(uncovered_words(count)).content == (ContentView::Text { text: uncovered_words(count) }),
        omitted_words(count) != uncovered_words(count),
{
    lemma_stands("快照建立之後又記錄了 "@, decimal(count), " 筆逐字稿或筆記，那些內容不在本輪成果裡。"@);
    reveal_strlit("本輪有 ");
    reveal_strlit("快照建立之後又記錄了 ");
    assert(omitted_words(count)[0] == '本');
    assert(uncovered_words(count)[0] == '快');
}

// ---------------------------------------------------------------------------
// A meeting that has ended
// ---------------------------------------------------------------------------

/// A version of a meeting that has ended takes its course: it is opened in the log, a planner is
/// chosen, what that gives is counted, made into rows and closed in the log with its usage. What
/// fails on the way is closed with its own reason.
pub proof fn a_past_version_takes_its_course(
    plan: PastPlan,
    names: AgentNamesView,
    kind: CliKind,
    g: GenerationResultView,
    u: UsageView,
    rows: Seq<DocumentBlockView>,
    reason: Seq<char>,
    answer: Result<u32, Seq<char>>,
)
    ensures
        past_step(plan, names, PastStageView::Opening, PastEventView::Wrote(Ok(()))) == (
            PastStageView::Choosing,
            PastActionView::Choose,
        ),
        past_step(
            plan,
            names,
            PastStageView::Choosing,
            PastEventView::Chosen(PlannerChoiceView::Cli(kind)),
        ) == (PastStageView::Generating, PastActionView::Generate(Some(kind))),
        past_step(
            plan,
            names,
            PastStageView::Choosing,
            PastEventView::Chosen(PlannerChoiceView::Fixture),
        ) == (PastStageView::Generating, PastActionView::Generate(None)),
        past_step(plan, names, PastStageView::Generating, PastEventView::Produced(Ok(g))) == (
            PastStageView::Counting(g),
            PastActionView::Count,
        ),
        past_step(plan, names, PastStageView::Generating, PastEventView::Produced(Err(reason)))
            == (
            PastStageView::Closing(Err(reason)),
            PastActionView::Write(
                DomainEventView::GenerationFailed { run_id: plan.run_id, reason },
            ),
        ),
        past_step(plan, names, PastStageView::Counting(g), PastEventView::Counted(Ok(0))).1
            == PastActionView::MakeRows(g.blocks),
        past_step(plan, names, PastStageView::Storing(u), PastEventView::Rows(rows)) == (
            PastStageView::Closing(Ok(plan.work.version)),
            PastActionView::Write(
                DomainEventView::GenerationCompleted {
                    run_id: plan.run_id,
                    blocks: rows,
                    usage: u,
                },
            ),
        ),
        past_step(plan, names, PastStageView::Closing(answer), PastEventView::Wrote(Ok(()))) == (
            PastStageView::Ended,
            PastActionView::End(answer),
        ),
        past_step(plan, names, PastStageView::Closing(answer), PastEventView::Wrote(Err(reason)))
            == (PastStageView::Ended, PastActionView::End(Err(reason))),
        past_step(plan, names, PastStageView::Opening, PastEventView::Wrote(Err(reason))) == (
            PastStageView::Ended,
            PastActionView::End(Err(reason)),
        ),
{
}

/// Where no program stands for the chosen provider, the version is closed with words that name
/// the provider and both agents.
pub proof fn missing_programs_are_named(
    plan: PastPlan,
    names: AgentNamesView,
    provider: Seq<char>,
)
    ensures
        ({
            let (stage, action) = past_step(
                plan,
                names,
                PastStageView::Choosing,
                PastEventView::Chosen(PlannerChoiceView::Missing(provider)),
            );
            &&& stage matches PastStageView::Closing(Err(reason))
            &&& action == PastActionView::Write(
                DomainEventView::GenerationFailed { run_id: plan.run_id, reason },
            )
            &&& stands_in(provider, reason)
            &&& stands_in(names.claude.label, reason)
            &&& stands_in(names.codex.label, reason)
        }),
{
    broadcast use {crate::parts::lemma_stands_before, crate::parts::lemma_stands_last};

}

/// A version begins in the log with the numbers of its plan and the prompt that was given.
pub proof fn past_versions_are_opened_with_their_plan(plan: PastPlan, prompt: Seq<char>)
    ensures
        opening(plan, prompt) matches DomainEventView::SnapshotCreated {
            document_id,
            run_id,
            parent_run_id,
            version_no,
            through_event_seq,
            prompt: given,
            ..
        } && document_id == plan.document_id && run_id == plan.run_id && parent_run_id
            == plan.parent_run_id && version_no == plan.work.version && through_event_seq
            == plan.work.through && given == prompt,
{
}

// ---------------------------------------------------------------------------
// Commands and files
// ---------------------------------------------------------------------------

/// A meeting is not begun exactly where its capture failed, and the device's words are told.
pub proof fn failed_captures_are_told(e: String)
    ensures
        capture_refused(Capture::Started) is None,
        capture_refused(Capture::Unsupported) is None,
        capture_refused(Capture::Failed(e)) matches Some(r) && !r.accepted && r.seq is None && (
        r.note matches Some(note) && stands_in(e@, note)),
{
    broadcast use crate::parts::lemma_stands_last;

}

/// A title has the minute of an instant: all before the seconds, with a space for the mark
/// between date and time.
pub proof fn titles_have_the_minute(now: Seq<char>, i: int)
    requires
        now.len() >= 16,
        0 <= i < 16,
    ensures
        minute_text(now).len() == 16,
        now[i] != 'T' ==> minute_text(now)[i] == now[i],
        now[i] == 'T' ==> minute_text(now)[i] == ' ',
{
}

/// The name of an exported file says the meeting and the version.
pub proof fn exports_are_named_after_their_version(meeting: MeetingId, version: u32)
    ensures
        export_file(meeting, version) == "meeting-"@ + signed_decimal(meeting as int) + "-v"@
            + decimal(version as nat) + ".html"@,
        stands_in(signed_decimal(meeting as int), export_file(meeting, version)),
        stands_in(decimal(version as nat), export_file(meeting, version)),
{
    broadcast use {crate::parts::lemma_stands_before, crate::parts::lemma_stands_last};

}

// ---------------------------------------------------------------------------
// Windows
// ---------------------------------------------------------------------------

/// A window with nothing to tell sends nothing. Any other sends all that waits, in its order,
/// after which nothing waits and the last number that went out is known.
pub proof fn windows_send_what_waits(
    before: Pump,
    t: SessionView,
    after: Pump,
    left: SessionView,
    out: Option<SessionEventBatch>,
)
    requires
        pumped(before, t, after, left, out),
    ensures
        out is None <==> t.pending.len() == 0 && t.journal_error is None,
        out is None ==> after.prev_high_seq == before.prev_high_seq && left == t,
        out matches Some(b) ==> {
            &&& b@.events == t.pending
            &&& b@.prev_high_seq == before.prev_high_seq
            &&& b@.state == t.state
            &&& b@.journal_error == t.journal_error
            &&& b@.meeting_time_ms == t.meeting_time_ms
            &&& b@.captured_audio_ms == t.captured_audio_ms
            &&& left.pending.len() == 0
            &&& left.segments == t.segments && left.notes == t.notes && left.seq == t.seq
                && left.journal == t.journal && left.state == t.state
            &&& b@.last_seq matches Some(last) ==> after.prev_high_seq == last
            &&& b@.last_seq is None ==> after.prev_high_seq == before.prev_high_seq
        },
{
}

/// In each window of a meeting that is under way it is told how loud the tracks are. Nothing is
/// heard but while recording, a microphone that does not work is silent, and what the source
/// has measured is shown as such.
pub proof fn levels_are_told_in_every_window(s: SessionView, elapsed_ms: u64, measured: bool)
    ensures
        ({
            let b = s.window_begun(elapsed_ms, measured);
            &&& s.state is Idle || s.state is Completed ==> b.pending == s.pending
            &&& !(s.state is Idle || s.state is Completed) ==> {
                &&& b.pending.len() == s.pending.len() + 1
                &&& b.pending.drop_last() == s.pending
                &&& b.pending.last() matches SessionEventView::TrackActivity {
                    mic_level,
                    system_level,
                    mic_health,
                    system_health,
                    stt_health,
                } && mic_health == s.mic_health && system_health is Healthy && stt_health
                    == s.stt_health && (!(s.state is Recording) ==> mic_level is Silent
                    && system_level is Silent) && (s.state is Recording ==> {
                    &&& mic_level is Silent <==> !(s.mic_health is Healthy)
                    &&& measured ==> system_level is Measured && (s.mic_health is Healthy
                        ==> mic_level is Measured)
                    &&& !measured ==> (system_level matches Level::Drawn(n) && 2000 <= n <= 8993)
                        && (s.mic_health is Healthy ==> (mic_level matches Level::Drawn(m) && 1500
                        <= m <= 8493))
                })
            }
        }),
{
    let b = s.window_begun(elapsed_ms, measured);
    if !(s.state is Idle || s.state is Completed) {
        assert(b.pending.drop_last() =~= s.pending);
    }
}

/// A meeting that waits for its last words is over in the window in which they have come.
pub proof fn meetings_end_with_their_last_words(s: SessionView, drained: bool)
    requires
        s.seq < u64::MAX,
    ensures
        ({
            let t = s.window_ended(Seq::empty(), drained);
            &&& s.state is Finalizing && drained ==> t.state is Completed
            &&& !(s.state is Finalizing && drained) ==> t.state == s.state
        }),
{
}

// ---------------------------------------------------------------------------
// The script
// ---------------------------------------------------------------------------

/// A line of the script begins with the twentieth step of silence, with the next number and the
/// next words, and nothing is given meanwhile.
pub proof fn lines_come_in_their_order(s: FixtureSourceView)
    requires
        s.live is None,
        s.script_idx < 11,
    ensures
        s.step().1.len() == 0,
        s.step().0.live is Some <==> s.idle_ticks >= 19,
        s.step().0.live matches Some(l) ==> {
            &&& l.segment_id == 1001 + s.script_idx
            &&& l.speaker_id == script_line(s.script_idx as int).0
            &&& l.full == script_line(s.script_idx as int).1
            &&& l.shown == 0
            &&& s.step().0.script_idx == s.script_idx + 1
            &&& s.step().0.idle_ticks == 0
        },
        s.step().0.live is None ==> s.step().0.script_idx == s.script_idx && s.step().0.idle_ticks
            == s.idle_ticks + 1,
{
}

/// A poll makes a step for each tenth of a second that has passed, at least one and at most
/// eight.
pub proof fn polls_make_up_for_what_has_passed(window_ms: u64)
    ensures
        1 <= steps_in(window_ms) <= 8,
        100 <= window_ms < 900 ==> steps_in(window_ms) * 100 <= window_ms < steps_in(window_ms)
            * 100 + 100,
        window_ms < 100 ==> steps_in(window_ms) == 1,
        window_ms >= 900 ==> steps_in(window_ms) == 8,
{
}

// ---------------------------------------------------------------------------
// Words
// ---------------------------------------------------------------------------

/// The words under which values are stored.
pub proof fn values_are_stored_under_fixed_words()
    ensures
        MeetingState::Idle.word() == "idle"@,
        MeetingState::Recording.word() == "recording"@,
        MeetingState::Paused.word() == "paused"@,
        MeetingState::Stopping.word() == "stopping"@,
        MeetingState::Finalizing.word() == "finalizing"@,
        MeetingState::Completed.word() == "completed"@,
        MeetingState::Failed.word() == "failed"@,
        Origin::Provider.word() == "provider"@,
        Origin::User.word() == "user"@,
        Track::Mic.word() == "mic"@,
        Track::System.word() == "system"@,
        ClaimKind::Fact.word() == "fact"@,
        ClaimKind::Inference.word() == "inference"@,
        ClaimKind::Suggestion.word() == "suggestion"@,
        ClaimKind::Gap.word() == "gap"@,
        ProviderKind::Stt.word() == "stt"@,
        ProviderKind::Llm.word() == "llm"@,
{
}

} // verus!
