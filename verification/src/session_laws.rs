//! What holds of every meeting in progress, whatever happens in it and in which order.

use crate::citation::normalized;
use crate::events::{DomainEventView, SessionEventView, TranscriptInputView, UsageView};
use crate::model::{MeetingState, Timeline, Track};
use crate::session::{batch_of, event_numbers};
use crate::session_model::{
    blank_session, is_known, last_completed, pauses_after, unfinished, version_at, IdSeeds,
    Interval, ProjectedPause, ReceiptView, RunState, SegmentView, SessionView, SnapshotView,
    SpeakerView,
};
use crate::store::{DocumentBlockView, MeetingId};
use vstd::prelude::*;

verus! {

// ---------------------------------------------------------------------------
// Everything that can happen
// ---------------------------------------------------------------------------

/// Something that happens to a session.
pub enum Step {
    /// Time passes.
    Settle(u64),
    /// A window, and what the source answers in it.
    Window { elapsed_ms: u64, measured: bool, inputs: Seq<TranscriptInputView>, drained: bool },
    Start { meeting: MeetingId, seeds: IdSeeds },
    Pause,
    Resume,
    Stop,
    Note(Seq<char>),
    Name { speaker_id: Seq<char>, name: Seq<char> },
    Edit { segment_id: u64, text: Seq<char> },
    Snapshot(Seq<char>),
    Ended { version: u32, outcome: Result<(Seq<DocumentBlockView>, UsageView), Seq<char>> },
    Abandon,
    Fault(Seq<char>),
    /// What waits to be told is told.
    Drain,
    /// What waits to be logged is taken.
    TakeLog,
    LogFailed { reason: Seq<char>, batch: Seq<(DomainEventView, Timeline)> },
    LogRecovered,
}

/// What a step makes of a session.
pub open spec fn stepped(s: SessionView, step: Step) -> SessionView {
    match step {
        Step::Settle(ms) => s.settled(ms),
        Step::Window { elapsed_ms, measured, inputs, drained } => s.window(
            elapsed_ms,
            measured,
            inputs,
            drained,
        ),
        Step::Start { meeting, seeds } => s.started(meeting, seeds).0,
        Step::Pause => s.paused().0,
        Step::Resume => s.resumed().0,
        Step::Stop => s.stopped().0,
        Step::Note(text) => s.noted(text).0,
        Step::Name { speaker_id, name } => s.named(speaker_id, name).0,
        Step::Edit { segment_id, text } => s.edited(segment_id, text).0,
        Step::Snapshot(prompt) => s.snapshot_taken(prompt).0,
        Step::Ended { version, outcome } => s.generation_ended(version, outcome),
        Step::Abandon => s.abandoned(),
        Step::Fault(kind) => s.faulted(kind).0,
        Step::Drain => SessionView { pending: Seq::empty(), ..s },
        Step::TakeLog => SessionView { journal: Seq::empty(), ..s },
        Step::LogFailed { reason, batch } => s.log_failed(reason, batch),
        Step::LogRecovered => SessionView { journal_error: None, ..s },
    }
}

/// Whether a step stays within what the machine can count.
pub open spec fn fits(s: SessionView, step: Step) -> bool {
    match step {
        Step::Settle(ms) => s.meeting_time_ms + ms <= u64::MAX && s.captured_audio_ms + ms
            <= u64::MAX,
        Step::Window { elapsed_ms, .. } => s.meeting_time_ms + elapsed_ms <= u64::MAX
            && s.captured_audio_ms + elapsed_ms <= u64::MAX,
        Step::Start { seeds, .. } => s.has_room() && seeds.document_id < i64::MAX && seeds.run_id
            < i64::MAX,
        Step::Edit { segment_id, .. } => s.has_room() && (s.segments.contains_key(segment_id)
            ==> s.segments[segment_id].revision < u32::MAX),
        Step::Ended { .. } => s.seq < u64::MAX,
        Step::Abandon => s.seq + s.snapshots.len() <= u64::MAX,
        Step::Pause | Step::Resume | Step::Stop | Step::Note(_) | Step::Name { .. }
        | Step::Snapshot(_) | Step::Fault(_) => s.has_room(),
        Step::Drain | Step::TakeLog | Step::LogFailed { .. } | Step::LogRecovered => true,
    }
}

// ---------------------------------------------------------------------------
// Numbers and the log
// ---------------------------------------------------------------------------

/// What waits to be told has numbers without a gap, up to the last one given.
pub open spec fn is_numbered(s: SessionView) -> bool {
    let numbers = event_numbers(s.pending);
    &&& numbers.len() <= s.seq
    &&& forall|i: int|
        0 <= i < numbers.len() ==> #[trigger] numbers[i] == s.seq - numbers.len() + 1 + i
}

/// Whether `t` came from `s` by events that were each told and logged: what was there is still
/// there, in front, and for every number given there is one event told and one logged.
pub open spec fn grows(s: SessionView, t: SessionView) -> bool {
    &&& s.seq <= t.seq
    &&& s.journal.len() <= t.journal.len()
    &&& t.journal.take(s.journal.len() as int) == s.journal
    &&& s.pending.len() <= t.pending.len()
    &&& t.pending.take(s.pending.len() as int) == s.pending
    &&& t.journal.len() - s.journal.len() == t.seq - s.seq
    &&& event_numbers(t.pending).len() - event_numbers(s.pending).len() == t.seq - s.seq
}

proof fn lemma_grows_self(s: SessionView)
    ensures
        grows(s, s),
{
    assert(s.journal.take(s.journal.len() as int) =~= s.journal);
    assert(s.pending.take(s.pending.len() as int) =~= s.pending);
}

proof fn lemma_grows_same(s: SessionView, t: SessionView)
    requires
        s.seq == t.seq,
        s.journal == t.journal,
        s.pending == t.pending,
    ensures
        grows(s, t),
        is_numbered(s) ==> is_numbered(t),
{
    lemma_grows_self(s);
}

proof fn lemma_grows_on(a: SessionView, b: SessionView, c: SessionView)
    requires
        grows(a, b),
        grows(b, c),
    ensures
        grows(a, c),
{
    assert(c.journal.take(a.journal.len() as int) =~= c.journal.take(
        b.journal.len() as int,
    ).take(a.journal.len() as int));
    assert(c.pending.take(a.pending.len() as int) =~= c.pending.take(
        b.pending.len() as int,
    ).take(a.pending.len() as int));
}

proof fn lemma_numbers_push(events: Seq<SessionEventView>, e: SessionEventView)
    ensures
        event_numbers(events.push(e)) == match e.number() {
            Some(n) => event_numbers(events).push(n),
            None => event_numbers(events),
        },
{
    assert(events.push(e).drop_last() =~= events);
}

proof fn lemma_recorded(s: SessionView, domain: DomainEventView, ui: SessionEventView)
    requires
        s.seq < u64::MAX,
        ui.number() == Some(s.next_seq()),
    ensures
        grows(s, s.recorded(domain, ui)),
        is_numbered(s) ==> is_numbered(s.recorded(domain, ui)),
{
    let t = s.recorded(domain, ui);
    lemma_numbers_push(s.pending, ui);
    assert(t.journal.take(s.journal.len() as int) =~= s.journal);
    assert(t.pending.take(s.pending.len() as int) =~= s.pending);
}

proof fn lemma_told(s: SessionView, ui: SessionEventView)
    requires
        ui.number() is None,
    ensures
        grows(s, s.told(ui)),
        is_numbered(s) ==> is_numbered(s.told(ui)),
{
    let t = s.told(ui);
    lemma_numbers_push(s.pending, ui);
    assert(t.journal.take(s.journal.len() as int) =~= s.journal);
    assert(t.pending.take(s.pending.len() as int) =~= s.pending);
}

proof fn lemma_moved_grows(s: SessionView, state: MeetingState)
    requires
        s.seq < u64::MAX,
    ensures
        grows(s, s.moved_to(state)),
        is_numbered(s) ==> is_numbered(s.moved_to(state)),
{
    let t = SessionView {
        pauses: pauses_after(s.pauses, s.state, state, s.meeting_time_ms),
        state,
        ..s
    };
    lemma_grows_same(s, t);
    lemma_recorded(
        t,
        DomainEventView::MeetingStateChanged { state },
        SessionEventView::MeetingStateChanged {
            seq: s.next_seq(),
            state,
            meeting_time_ms: s.meeting_time_ms,
            captured_audio_ms: s.captured_audio_ms,
        },
    );
    lemma_grows_on(s, t, s.moved_to(state));
}

proof fn lemma_heard_grows(s: SessionView, id: Seq<char>, track: Track)
    requires
        s.seq < u64::MAX,
    ensures
        grows(s, s.heard(id, track)),
        is_numbered(s) ==> is_numbered(s.heard(id, track)),
        s.heard(id, track).seq <= s.seq + 1,
{
    lemma_grows_self(s);
    if !is_known(s.speakers, id) {
        let ordinal = (s.speakers.len() + 1) as u32;
        let t = SessionView {
            speakers: s.speakers.push(
                SpeakerView {
                    speaker_id: id,
                    ordinal,
                    proposed_name: None,
                    confirmed_name: None,
                    track,
                },
            ),
            ..s
        };
        lemma_grows_same(s, t);
        lemma_recorded(
            t,
            DomainEventView::SpeakerProposed {
                speaker_id: id,
                ordinal,
                proposed_name: None,
                provider_labels: seq![id],
            },
            SessionEventView::SpeakerProposed {
                seq: s.next_seq(),
                speaker_id: id,
                ordinal,
                proposed_name: None,
                track,
            },
        );
        lemma_grows_on(s, t, s.heard(id, track));
    }
}

proof fn lemma_revised_grows(s: SessionView, id: u64, text: Seq<char>, track: Track)
    requires
        s.seq < u64::MAX,
    ensures
        grows(s, s.revised(id, text, track)),
        is_numbered(s) ==> is_numbered(s.revised(id, text, track)),
{
    lemma_grows_self(s);
    if !(!s.segments.contains_key(id) || s.segments[id].origin is User || s.segments[id].revision
        == u32::MAX) {
        let old = s.segments[id];
        let rec = SegmentView { text, revision: (old.revision + 1) as u32, ..old };
        let t = SessionView { segments: s.segments.insert(id, rec), ..s };
        lemma_grows_same(s, t);
        lemma_recorded(
            t,
            DomainEventView::TranscriptSegmentRevised {
                segment: crate::session_model::revision_of(id, rec, track, s.now()),
            },
            SessionEventView::TranscriptFinalized {
                seq: s.next_seq(),
                segment_id: id,
                revision: rec.revision,
                origin: crate::model::Origin::Provider,
                speaker_id: rec.speaker_id,
                text,
                meeting_time_ms: rec.meeting_time_ms,
                captured_audio_ms: s.captured_audio_ms,
            },
        );
        lemma_grows_on(s, t, s.revised(id, text, track));
    }
}

proof fn lemma_taken_in_grows(s: SessionView, input: TranscriptInputView)
    ensures
        grows(s, s.taken_in(input)),
        is_numbered(s) ==> is_numbered(s.taken_in(input)),
{
    lemma_grows_self(s);
    if s.can_take_in() {
        match input {
            TranscriptInputView::Partial { segment_id: id, speaker_id, text, track } => {
                let h = s.heard(speaker_id, track);
                lemma_heard_grows(s, speaker_id, track);
                if !h.is_closed(id) {
                    let t = s.partial(id, speaker_id, text, track);
                    let u = SessionView { segments: t.segments, ..h };
                    lemma_grows_same(h, u);
                    lemma_told(
                        u,
                        SessionEventView::TranscriptPartial {
                            segment_id: id,
                            speaker_id,
                            text,
                            meeting_time_ms: h.meeting_time_ms,
                        },
                    );
                    lemma_grows_on(s, h, u);
                    lemma_grows_on(s, u, t);
                }
            },
            TranscriptInputView::Final { segment_id: id, speaker_id, text, track, audio_span } => {
                let key = s.interval(id, track, audio_span);
                if s.is_closed(id) {
                } else if s.intervals.contains_key(key) && s.intervals[key] != id {
                    lemma_revised_grows(s, s.intervals[key], text, track);
                } else {
                    let t = s.finalized(id, speaker_id, text, track, audio_span);
                    let a = SessionView { intervals: s.intervals.insert(key, id), ..s };
                    let h = a.heard(speaker_id, track);
                    let u = SessionView { segments: t.segments, ..h };
                    lemma_grows_same(s, a);
                    lemma_heard_grows(a, speaker_id, track);
                    lemma_grows_same(h, u);
                    lemma_grows_on(s, a, h);
                    lemma_grows_on(s, h, u);
                    lemma_recorded(u, t.journal.last().0, t.pending.last());
                    lemma_grows_on(s, u, t);
                }
            },
        }
    }
}

proof fn lemma_all_taken_in_grows(s: SessionView, inputs: Seq<TranscriptInputView>)
    ensures
        grows(s, s.all_taken_in(inputs)),
        is_numbered(s) ==> is_numbered(s.all_taken_in(inputs)),
    decreases inputs.len(),
{
    lemma_grows_self(s);
    if inputs.len() > 0 {
        let t = s.all_taken_in(inputs.drop_last());
        lemma_all_taken_in_grows(s, inputs.drop_last());
        lemma_taken_in_grows(t, inputs.last());
        lemma_grows_on(s, t, s.all_taken_in(inputs));
    }
}

proof fn lemma_window_grows(
    s: SessionView,
    elapsed_ms: u64,
    measured: bool,
    inputs: Seq<TranscriptInputView>,
    drained: bool,
)
    ensures
        grows(s, s.window(elapsed_ms, measured, inputs, drained)),
        is_numbered(s) ==> is_numbered(s.window(elapsed_ms, measured, inputs, drained)),
{
    let a = s.settled(elapsed_ms);
    lemma_grows_same(s, a);
    let b = s.window_begun(elapsed_ms, measured);
    if a.is_shown() {
        let (mic, system, rng) = a.levels(measured);
        let c = SessionView { rng, ..a };
        lemma_grows_same(a, c);
        lemma_told(c, b.pending.last());
        lemma_grows_on(s, a, c);
        lemma_grows_on(s, c, b);
    }
    if s.to_poll(elapsed_ms) is Some {
        let d = b.all_taken_in(inputs);
        lemma_all_taken_in_grows(b, inputs);
        lemma_grows_on(s, b, d);
        if d.state is Finalizing && drained && d.seq < u64::MAX {
            lemma_moved_grows(d, MeetingState::Completed);
            lemma_grows_on(s, d, d.moved_to(MeetingState::Completed));
        }
    }
}

proof fn lemma_ended_grows(
    s: SessionView,
    version: u32,
    outcome: Result<(Seq<DocumentBlockView>, UsageView), Seq<char>>,
)
    requires
        s.seq < u64::MAX,
    ensures
        grows(s, s.generation_ended(version, outcome)),
        is_numbered(s) ==> is_numbered(s.generation_ended(version, outcome)),
        s.generation_ended(version, outcome).seq <= s.seq + 1,
        s.generation_ended(version, outcome).snapshots.len() == s.snapshots.len(),
{
    lemma_grows_self(s);
    let t = s.generation_ended(version, outcome);
    let at = version_at(s.snapshots, version);
    if 0 <= at < s.snapshots.len() {
        let u = SessionView { snapshots: t.snapshots, ..s };
        lemma_grows_same(s, u);
        lemma_recorded(u, t.journal.last().0, t.pending.last());
        lemma_grows_on(s, u, t);
    }
}

proof fn lemma_all_failed_grows(s: SessionView, versions: Seq<u32>, reason: Seq<char>)
    requires
        s.seq + versions.len() <= u64::MAX,
    ensures
        grows(s, s.all_failed(versions, reason)),
        is_numbered(s) ==> is_numbered(s.all_failed(versions, reason)),
        s.all_failed(versions, reason).seq <= s.seq + versions.len(),
    decreases versions.len(),
{
    lemma_grows_self(s);
    if versions.len() > 0 {
        let t = s.all_failed(versions.drop_last(), reason);
        lemma_all_failed_grows(s, versions.drop_last(), reason);
        lemma_ended_grows(t, versions.last(), Err(reason));
        lemma_grows_on(s, t, s.all_failed(versions, reason));
    }
}

proof fn lemma_unfinished_count(snapshots: Seq<SnapshotView>)
    ensures
        unfinished(snapshots).len() <= snapshots.len(),
    decreases snapshots.len(),
{
    if snapshots.len() > 0 {
        lemma_unfinished_count(snapshots.drop_last());
    }
}

proof fn lemma_begun_grows(s: SessionView, state: RunState, parent: Option<i64>, prompt: Seq<char>)
    requires
        s.seq < u64::MAX,
    ensures
        grows(s, s.version_begun(state, parent, prompt)),
        is_numbered(s) ==> is_numbered(s.version_begun(state, parent, prompt)),
{
    let t = s.version_begun(state, parent, prompt);
    let u = SessionView {
        snapshots: t.snapshots,
        document_id: t.document_id,
        next_document_id: t.next_document_id,
        next_run_id: t.next_run_id,
        ..s
    };
    lemma_grows_same(s, u);
    lemma_recorded(u, t.journal.last().0, t.pending.last());
    lemma_grows_on(s, u, t);
}

/// Whether a step only takes something away from what waits, or puts it back.
pub open spec fn is_handing_over(step: Step) -> bool {
    step is Drain || step is TakeLog || step is LogFailed || step is LogRecovered
}

/// Every decisive event gets the next number, is told once and is logged once, whatever
/// happens; and nothing that waits is lost or moved.
#[verifier::spinoff_prover]
#[verifier::rlimit(60)]
pub proof fn every_event_is_told_and_logged(s: SessionView, step: Step)
    requires
        fits(s, step),
        !is_handing_over(step),
    ensures
        grows(s, stepped(s, step)),
        is_numbered(s) ==> is_numbered(stepped(s, step)),
{
    lemma_grows_self(s);
    let t = stepped(s, step);
    match step {
        Step::Settle(ms) => {
            lemma_grows_same(s, t);
        },
        Step::Window { elapsed_ms, measured, inputs, drained } => {
            lemma_window_grows(s, elapsed_ms, measured, inputs, drained);
        },
        Step::Start { meeting, seeds } => {
            if s.state is Idle {
                let a = SessionView {
                    meeting_id: Some(meeting),
                    next_document_id: (seeds.document_id + 1) as i64,
                    next_run_id: (seeds.run_id + 1) as i64,
                    ..s
                };
                lemma_grows_same(s, a);
                lemma_moved_grows(a, MeetingState::Recording);
                lemma_grows_on(s, a, t);
            }
        },
        Step::Pause => {
            lemma_moved_grows(s, MeetingState::Paused);
        },
        Step::Resume => {
            lemma_moved_grows(s, MeetingState::Recording);
        },
        Step::Stop => {
            let a = s.moved_to(MeetingState::Stopping);
            lemma_moved_grows(s, MeetingState::Stopping);
            lemma_moved_grows(a, MeetingState::Finalizing);
            lemma_grows_on(s, a, a.moved_to(MeetingState::Finalizing));
        },
        Step::Note(text) => {
            if t != s {
                let a = SessionView { next_note_id: t.next_note_id, notes: t.notes, ..s };
                lemma_grows_same(s, a);
                lemma_recorded(a, t.journal.last().0, t.pending.last());
                lemma_grows_on(s, a, t);
            }
        },
        Step::Name { speaker_id, name } => {
            if t != s {
                let a = SessionView { speakers: t.speakers, ..s };
                lemma_grows_same(s, a);
                lemma_recorded(a, t.journal.last().0, t.pending.last());
                lemma_grows_on(s, a, t);
            }
        },
        Step::Edit { segment_id, text } => {
            if t != s {
                let a = SessionView { segments: t.segments, ..s };
                lemma_grows_same(s, a);
                lemma_recorded(a, t.journal.last().0, t.pending.last());
                lemma_grows_on(s, a, t);
            }
        },
        Step::Snapshot(prompt) => {
            if t != s {
                let parent = match last_completed(s.snapshots) {
                    Some(b) => Some(b.run_id),
                    None => None,
                };
                lemma_begun_grows(s, RunState::Running, parent, prompt);
            }
        },
        Step::Ended { version, outcome } => {
            lemma_ended_grows(s, version, outcome);
        },
        Step::Abandon => {
            lemma_unfinished_count(s.snapshots);
            lemma_all_failed_grows(
                s,
                unfinished(s.snapshots),
                "使用者在生成完成前開了新會議"@,
            );
        },
        Step::Fault(kind) => {
            let a = s.version_begun(RunState::Failed, None, ""@);
            let version = (s.snapshots.len() + 1) as u32;
            lemma_begun_grows(s, RunState::Failed, None, ""@);
            lemma_ended_grows(a, version, Err("Provider 回報限流"@));
            lemma_grows_on(s, a, a.generation_ended(version, Err("Provider 回報限流"@)));
            if kind != "generationFailed"@ || !s.state.is_live() {
                lemma_grows_same(s, t);
            }
        },
        _ => {},
    }
}

/// Batches connect. After what waited was told, whatever has happened since: the next batch
/// begins with the number after the last one told, and ends with the last one given.
pub proof fn batches_connect(s: SessionView, t: SessionView, now: u64)
    requires
        s.pending.len() == 0,
        grows(s, t),
        is_numbered(t),
    ensures
        ({
            let b = batch_of(t, s.seq, now);
            &&& b.prev_high_seq == s.seq
            &&& t.seq > s.seq ==> b.first_seq == Some((s.seq + 1) as u64) && b.last_seq == Some(
                t.seq,
            )
            &&& t.seq == s.seq ==> b.first_seq is None && b.last_seq is None
            &&& b.events == t.pending
        }),
{
    assert(s.pending =~= Seq::empty());
    assert(event_numbers(s.pending).len() == 0);
    let numbers = event_numbers(t.pending);
    if t.seq > s.seq {
        assert(numbers[0] == t.seq - numbers.len() + 1);
        assert(numbers[numbers.len() - 1] == t.seq);
    }
}

/// A write to the log that failed loses nothing and keeps the order: what was taken comes
/// again first, and after it what has happened since.
pub proof fn failed_writes_are_retried_in_order(s: SessionView, later: SessionView, reason: Seq<char>)
    requires
        grows(SessionView { journal: Seq::empty(), ..s }, later),
    ensures
        ({
            let t = later.log_failed(reason, s.journal);
            &&& t.journal == s.journal + later.journal
            &&& t.journal.take(s.journal.len() as int) == s.journal
            &&& t.journal.len() == s.journal.len() + (later.seq - s.seq)
            &&& t.journal_error is Some
            &&& later.journal_error is Some ==> t.journal_error == later.journal_error
        }),
{
    let t = later.log_failed(reason, s.journal);
    assert(t.journal.take(s.journal.len() as int) =~= s.journal);
}

// ---------------------------------------------------------------------------
// What always holds
// ---------------------------------------------------------------------------

/// Recorded time never runs ahead of meeting time.
pub open spec fn sound_times(s: SessionView) -> bool {
    s.captured_audio_ms <= s.meeting_time_ms
}

/// Speakers are numbered in the order in which they were first heard, each once.
pub open spec fn sound_speakers(s: SessionView) -> bool {
    &&& s.speakers.len() <= u32::MAX
    &&& forall|i: int| 0 <= i < s.speakers.len() ==> (#[trigger] s.speakers[i]).ordinal == i + 1
    &&& forall|i: int, j: int|
        0 <= i < j < s.speakers.len() ==> (#[trigger] s.speakers[i]).speaker_id != (
        #[trigger] s.speakers[j]).speaker_id
}

/// Versions are numbered one after another, and each covers only what came before it.
pub open spec fn sound_versions(s: SessionView) -> bool {
    &&& s.snapshots.len() <= u32::MAX
    &&& forall|i: int|
        0 <= i < s.snapshots.len() ==> (#[trigger] s.snapshots[i]).version == i + 1
            && s.snapshots[i].through_event_seq < s.seq
}

/// Notes are numbered one after another.
pub open spec fn sound_notes(s: SessionView) -> bool {
    &&& s.next_note_id == s.notes.len() + 1
    &&& forall|i: int| 0 <= i < s.notes.len() ==> (#[trigger] s.notes[i]).note_id == i + 1
}

/// A pause ends before the present, and none is open but the last one, in a paused meeting.
pub open spec fn sound_pauses(s: SessionView) -> bool {
    &&& forall|i: int|
        0 <= i < s.pauses.len() ==> (#[trigger] s.pauses[i]).from_ms <= s.meeting_time_ms && (
        s.pauses[i].to_ms matches Some(to) ==> s.pauses[i].from_ms <= to <= s.meeting_time_ms) && (
        s.pauses[i].to_ms is None ==> i == s.pauses.len() - 1)
    &&& s.state is Paused <==> s.pauses.len() > 0 && s.pauses.last().to_ms is None
}

/// What stands for some audio is a final segment, and final segments have a version.
pub open spec fn sound_segments(s: SessionView) -> bool {
    &&& forall|k: Interval|
        s.intervals.contains_key(k) ==> s.segments.contains_key(#[trigger] s.intervals[k])
            && s.segments[s.intervals[k]].finalized
    &&& forall|id: u64|
        s.segments.contains_key(id) && (#[trigger] s.segments[id]).finalized
            ==> s.segments[id].revision >= 1
    &&& forall|id: u64|
        s.segments.contains_key(id) && (#[trigger] s.segments[id]).origin is User
            ==> s.segments[id].revision >= 1
}

/// Before a meeting begins there is nothing, and after that it has a name.
pub open spec fn sound_start(s: SessionView) -> bool {
    &&& s.state is Idle ==> s.seq == 0 && s.snapshots.len() == 0 && s.pauses.len() == 0
    &&& s.state is Idle <==> s.meeting_id is None
}

/// What the source was told goes with the state: in a pause it collects nothing, and after the
/// end no more.
pub open spec fn sound_orders(s: SessionView) -> bool {
    &&& s.state is Paused ==> s.source_paused
    &&& s.state is Idle || s.state is Recording ==> !s.source_paused
    &&& s.state is Idle || s.state is Recording || s.state is Paused ==> !s.source_flushing
    &&& s.state is Finalizing || s.state is Completed ==> s.source_flushing
}

/// What holds of what every session has recorded.
pub open spec fn sound_records(s: SessionView) -> bool {
    &&& is_numbered(s)
    &&& sound_times(s)
    &&& sound_speakers(s)
    &&& sound_versions(s)
    &&& sound_notes(s)
    &&& sound_pauses(s)
    &&& sound_segments(s)
    &&& sound_start(s)
}

/// What holds of every session.
pub open spec fn is_sound(s: SessionView) -> bool {
    &&& sound_records(s)
    &&& sound_orders(s)
}

/// What taking in transcripts leaves alone.
spec fn only_transcripts_differ(s: SessionView, t: SessionView) -> bool {
    t == SessionView {
        seq: t.seq,
        segments: t.segments,
        intervals: t.intervals,
        speakers: t.speakers,
        pending: t.pending,
        journal: t.journal,
        ..s
    }
}

proof fn lemma_taken_in_frame(s: SessionView, input: TranscriptInputView)
    ensures
        only_transcripts_differ(s, s.taken_in(input)),
{
}

proof fn lemma_all_taken_in_frame(s: SessionView, inputs: Seq<TranscriptInputView>)
    ensures
        only_transcripts_differ(s, s.all_taken_in(inputs)),
    decreases inputs.len(),
{
    if inputs.len() > 0 {
        lemma_all_taken_in_frame(s, inputs.drop_last());
        lemma_taken_in_frame(s.all_taken_in(inputs.drop_last()), inputs.last());
    }
}

proof fn lemma_heard_speakers(s: SessionView, id: Seq<char>, track: Track)
    requires
        sound_speakers(s),
        s.speakers.len() < u32::MAX,
    ensures
        sound_speakers(s.heard(id, track)),
{
    let t = s.heard(id, track);
    if !is_known(s.speakers, id) {
        let n = s.speakers.len() as int;
        assert forall|i: int| 0 <= i < t.speakers.len() implies (#[trigger] t.speakers[i]).ordinal
            == i + 1 by {
            if i < n {
                assert(t.speakers[i] == s.speakers[i]);
            }
        }
        assert forall|i: int, j: int| 0 <= i < j < t.speakers.len() implies (
        #[trigger] t.speakers[i]).speaker_id != (#[trigger] t.speakers[j]).speaker_id by {
            assert(t.speakers[i] == s.speakers[i]);
            if j < n {
                assert(t.speakers[j] == s.speakers[j]);
            }
        }
    }
}

proof fn lemma_taken_in_speakers(s: SessionView, input: TranscriptInputView)
    requires
        sound_speakers(s),
    ensures
        sound_speakers(s.taken_in(input)),
{
    if s.can_take_in() {
        match input {
            TranscriptInputView::Partial { speaker_id, track, .. } => {
                lemma_heard_speakers(s, speaker_id, track);
            },
            TranscriptInputView::Final { segment_id: id, speaker_id, track, audio_span, .. } => {
                let key = s.interval(id, track, audio_span);
                let a = SessionView { intervals: s.intervals.insert(key, id), ..s };
                lemma_heard_speakers(a, speaker_id, track);
            },
        }
    }
}

proof fn lemma_taken_in_segments(s: SessionView, input: TranscriptInputView)
    requires
        sound_segments(s),
    ensures
        sound_segments(s.taken_in(input)),
{
    let t = s.taken_in(input);
    if s.can_take_in() {
        match input {
            TranscriptInputView::Partial { segment_id: id, speaker_id, text, track } => {
                let h = s.heard(speaker_id, track);
                assert(h.segments == s.segments && h.intervals == s.intervals);
                if !h.is_closed(id) {
                    assert forall|k: Interval| t.intervals.contains_key(k) implies t.segments.contains_key(
                        #[trigger] t.intervals[k],
                    ) && t.segments[t.intervals[k]].finalized by {
                        assert(s.segments.contains_key(s.intervals[k]));
                        assert(s.intervals[k] != id);
                    }
                }
            },
            TranscriptInputView::Final { segment_id: id, speaker_id, text, track, audio_span } => {
                let key = s.interval(id, track, audio_span);
                if s.is_closed(id) {
                } else if s.intervals.contains_key(key) && s.intervals[key] != id {
                    let other = s.intervals[key];
                    assert(s.segments.contains_key(other));
                    if t != s {
                        assert forall|k: Interval| t.intervals.contains_key(k) implies t.segments.contains_key(
                            #[trigger] t.intervals[k],
                        ) && t.segments[t.intervals[k]].finalized by {
                            assert(s.segments.contains_key(s.intervals[k]));
                        }
                    }
                } else {
                    assert forall|k: Interval| t.intervals.contains_key(k) implies t.segments.contains_key(
                        #[trigger] t.intervals[k],
                    ) && t.segments[t.intervals[k]].finalized by {
                        if k != key {
                            assert(s.intervals.contains_key(k));
                            assert(s.segments.contains_key(s.intervals[k]));
                        }
                    }
                }
            },
        }
    }
}

proof fn lemma_all_taken_in_parts(s: SessionView, inputs: Seq<TranscriptInputView>)
    requires
        sound_speakers(s),
        sound_segments(s),
    ensures
        sound_speakers(s.all_taken_in(inputs)),
        sound_segments(s.all_taken_in(inputs)),
    decreases inputs.len(),
{
    if inputs.len() > 0 {
        let t = s.all_taken_in(inputs.drop_last());
        lemma_all_taken_in_parts(s, inputs.drop_last());
        lemma_taken_in_speakers(t, inputs.last());
        lemma_taken_in_segments(t, inputs.last());
    }
}

proof fn lemma_moved_is_sound(s: SessionView, state: MeetingState)
    requires
        sound_records(s),
        s.seq < u64::MAX,
        !(s.state is Idle),
        !(state is Idle),
        state is Paused ==> !(s.state is Paused),
    ensures
        sound_records(s.moved_to(state)),
{
    let t = s.moved_to(state);
    lemma_moved_grows(s, state);
    assert forall|i: int| 0 <= i < t.pauses.len() implies (#[trigger] t.pauses[i]).from_ms
        <= t.meeting_time_ms && (t.pauses[i].to_ms matches Some(to) ==> t.pauses[i].from_ms <= to
        <= t.meeting_time_ms) && (t.pauses[i].to_ms is None ==> i == t.pauses.len() - 1) by {
        if i < s.pauses.len() {
            assert(s.pauses[i].from_ms <= s.meeting_time_ms);
        }
    }
    assert forall|i: int| 0 <= i < t.snapshots.len() implies (#[trigger] t.snapshots[i]).version == i
        + 1 && t.snapshots[i].through_event_seq < t.seq by {
        assert(s.snapshots[i].version == i + 1);
    }
}

proof fn lemma_settled_is_sound(s: SessionView, ms: u64)
    requires
        is_sound(s),
        fits(s, Step::Settle(ms)),
    ensures
        is_sound(s.settled(ms)),
{
    let t = s.settled(ms);
    lemma_grows_same(s, t);
    assert forall|i: int| 0 <= i < t.pauses.len() implies (#[trigger] t.pauses[i]).from_ms
        <= t.meeting_time_ms && (t.pauses[i].to_ms matches Some(to) ==> t.pauses[i].from_ms <= to
        <= t.meeting_time_ms) && (t.pauses[i].to_ms is None ==> i == t.pauses.len() - 1) by {
        assert(s.pauses[i].from_ms <= s.meeting_time_ms);
    }
}

proof fn lemma_window_is_sound(
    s: SessionView,
    elapsed_ms: u64,
    measured: bool,
    inputs: Seq<TranscriptInputView>,
    drained: bool,
)
    requires
        is_sound(s),
        fits(s, Step::Settle(elapsed_ms)),
    ensures
        is_sound(s.window(elapsed_ms, measured, inputs, drained)),
{
    let a = s.settled(elapsed_ms);
    lemma_settled_is_sound(s, elapsed_ms);
    let b = s.window_begun(elapsed_ms, measured);
    if a.is_shown() {
        let c = SessionView { rng: b.rng, ..a };
        lemma_grows_same(a, c);
        lemma_told(c, b.pending.last());
    }
    assert(is_sound(b));
    if s.to_poll(elapsed_ms) is Some {
        let d = b.all_taken_in(inputs);
        lemma_all_taken_in_grows(b, inputs);
        lemma_all_taken_in_frame(b, inputs);
        lemma_all_taken_in_parts(b, inputs);
        assert(is_sound(d)) by {
            assert forall|i: int| 0 <= i < d.snapshots.len() implies (
            #[trigger] d.snapshots[i]).version == i + 1 && d.snapshots[i].through_event_seq
                < d.seq by {
                assert(b.snapshots[i].version == i + 1);
            }
        }
        if d.state is Finalizing && drained && d.seq < u64::MAX {
            lemma_moved_is_sound(d, MeetingState::Completed);
        }
    }
}

/// Where a version stands in a session.
proof fn lemma_version_at(snapshots: Seq<SnapshotView>, version: u32)
    ensures
        0 <= version_at(snapshots, version) <= snapshots.len(),
        version_at(snapshots, version) < snapshots.len() ==> snapshots[version_at(
            snapshots,
            version,
        )].version == version,
        forall|i: int|
            0 <= i < version_at(snapshots, version) ==> (#[trigger] snapshots[i]).version
                != version,
    decreases snapshots.len(),
{
    if snapshots.len() > 0 && snapshots[0].version != version {
        let rest = snapshots.skip(1);
        lemma_version_at(rest, version);
        assert forall|i: int| 0 <= i < version_at(snapshots, version) implies (
        #[trigger] snapshots[i]).version != version by {
            if i > 0 {
                assert(snapshots[i] == rest[i - 1]);
            }
        }
    }
}

proof fn lemma_ended_is_sound(
    s: SessionView,
    version: u32,
    outcome: Result<(Seq<DocumentBlockView>, UsageView), Seq<char>>,
)
    requires
        is_sound(s),
        s.seq < u64::MAX,
    ensures
        is_sound(s.generation_ended(version, outcome)),
{
    lemma_ended_grows(s, version, outcome);
    let t = s.generation_ended(version, outcome);
    let at = version_at(s.snapshots, version);
    lemma_version_at(s.snapshots, version);
    if at < s.snapshots.len() {
        assert forall|i: int| 0 <= i < t.snapshots.len() implies (#[trigger] t.snapshots[i]).version
            == i + 1 && t.snapshots[i].through_event_seq < t.seq by {
            assert(s.snapshots[i].version == i + 1);
        }
    }
}

proof fn lemma_begun_is_sound(
    s: SessionView,
    state: RunState,
    parent: Option<i64>,
    prompt: Seq<char>,
)
    requires
        is_sound(s),
        s.has_room(),
        !(s.state is Idle),
    ensures
        is_sound(s.version_begun(state, parent, prompt)),
{
    lemma_begun_grows(s, state, parent, prompt);
    let t = s.version_begun(state, parent, prompt);
    assert forall|i: int| 0 <= i < t.snapshots.len() implies (#[trigger] t.snapshots[i]).version == i
        + 1 && t.snapshots[i].through_event_seq < t.seq by {
        if i < s.snapshots.len() {
            assert(s.snapshots[i].version == i + 1);
        }
    }
}

proof fn lemma_all_failed_is_sound(s: SessionView, versions: Seq<u32>, reason: Seq<char>)
    requires
        is_sound(s),
        s.seq + versions.len() <= u64::MAX,
    ensures
        is_sound(s.all_failed(versions, reason)),
    decreases versions.len(),
{
    if versions.len() > 0 {
        let rest = versions.drop_last();
        lemma_all_failed_is_sound(s, rest, reason);
        lemma_all_failed_grows(s, rest, reason);
        lemma_ended_is_sound(s.all_failed(rest, reason), versions.last(), Err(reason));
    }
}

proof fn lemma_named_is_sound(s: SessionView, speaker_id: Seq<char>, name: Seq<char>)
    requires
        is_sound(s),
        s.has_room(),
    ensures
        is_sound(s.named(speaker_id, name).0),
{
    let t = s.named(speaker_id, name).0;
    every_event_is_told_and_logged(s, Step::Name { speaker_id, name });
    if t != s {
        assert forall|i: int| 0 <= i < t.speakers.len() implies (#[trigger] t.speakers[i]).ordinal
            == i + 1 by {
            assert(s.speakers[i].ordinal == i + 1);
        }
        assert forall|i: int, j: int| 0 <= i < j < t.speakers.len() implies (
        #[trigger] t.speakers[i]).speaker_id != (#[trigger] t.speakers[j]).speaker_id by {
            assert(s.speakers[i].speaker_id != s.speakers[j].speaker_id);
        }
        assert forall|i: int| 0 <= i < t.snapshots.len() implies (#[trigger] t.snapshots[i]).version
            == i + 1 && t.snapshots[i].through_event_seq < t.seq by {
            assert(s.snapshots[i].version == i + 1);
        }
    }
}

proof fn lemma_edited_is_sound(s: SessionView, id: u64, text: Seq<char>)
    requires
        is_sound(s),
        fits(s, Step::Edit { segment_id: id, text }),
    ensures
        is_sound(s.edited(id, text).0),
{
    let t = s.edited(id, text).0;
    every_event_is_told_and_logged(s, Step::Edit { segment_id: id, text });
    if t != s {
        assert forall|k: Interval| t.intervals.contains_key(k) implies t.segments.contains_key(
            #[trigger] t.intervals[k],
        ) && t.segments[t.intervals[k]].finalized by {
            assert(s.segments.contains_key(s.intervals[k]));
        }
        assert forall|i: int| 0 <= i < t.snapshots.len() implies (#[trigger] t.snapshots[i]).version
            == i + 1 && t.snapshots[i].through_event_seq < t.seq by {
            assert(s.snapshots[i].version == i + 1);
        }
    }
}

proof fn lemma_noted_is_sound(s: SessionView, text: Seq<char>)
    requires
        is_sound(s),
        s.has_room(),
    ensures
        is_sound(s.noted(text).0),
{
    let t = s.noted(text).0;
    every_event_is_told_and_logged(s, Step::Note(text));
    if t != s {
        assert forall|i: int| 0 <= i < t.notes.len() implies (#[trigger] t.notes[i]).note_id == i
            + 1 by {
            if i < s.notes.len() {
                assert(s.notes[i].note_id == i + 1);
            }
        }
        assert forall|i: int| 0 <= i < t.snapshots.len() implies (#[trigger] t.snapshots[i]).version
            == i + 1 && t.snapshots[i].through_event_seq < t.seq by {
            assert(s.snapshots[i].version == i + 1);
        }
    }
}

proof fn lemma_started_is_sound(s: SessionView, meeting: MeetingId, seeds: IdSeeds)
    requires
        is_sound(s),
        s.has_room(),
    ensures
        is_sound(s.started(meeting, seeds).0),
{
    if s.state is Idle {
        let a = SessionView {
            meeting_id: Some(meeting),
            next_document_id: (seeds.document_id + 1) as i64,
            next_run_id: (seeds.run_id + 1) as i64,
            ..s
        };
        lemma_grows_same(s, a);
        lemma_moved_grows(a, MeetingState::Recording);
    }
}

/// A session starts out sound.
pub proof fn a_blank_session_is_sound()
    ensures
        is_sound(blank_session()),
{
    assert(event_numbers(blank_session().pending).len() == 0);
}

proof fn lemma_snapshot_is_sound(s: SessionView, prompt: Seq<char>)
    requires
        is_sound(s),
        fits(s, Step::Snapshot(prompt)),
    ensures
        is_sound(stepped(s, Step::Snapshot(prompt))),
{
    let t = stepped(s, Step::Snapshot(prompt));
    if t != s {
        let parent = match last_completed(s.snapshots) {
            Some(b) => Some(b.run_id),
            None => None,
        };
        lemma_begun_is_sound(s, RunState::Running, parent, prompt);
    }
}

proof fn lemma_faulted_is_sound(s: SessionView, kind: Seq<char>)
    requires
        is_sound(s),
        fits(s, Step::Fault(kind)),
    ensures
        is_sound(stepped(s, Step::Fault(kind))),
{
    if kind == "generationFailed"@ && s.state.is_live() {
        lemma_begun_is_sound(s, RunState::Failed, None, ""@);
        lemma_ended_is_sound(
            s.version_begun(RunState::Failed, None, ""@),
            (s.snapshots.len() + 1) as u32,
            Err("Provider 回報限流"@),
        );
    } else {
        lemma_grows_same(s, stepped(s, Step::Fault(kind)));
    }
}

/// Whatever happens, a session stays sound: numbers without a gap, recorded time within
/// meeting time, speakers, versions and notes numbered in order, pauses closed, final segments
/// in place of the audio they stand for.
pub proof fn sessions_stay_sound(s: SessionView, step: Step)
    requires
        is_sound(s),
        fits(s, step),
    ensures
        is_sound(stepped(s, step)),
{
    let t = stepped(s, step);
    match step {
        Step::Settle(ms) => {
            lemma_settled_is_sound(s, ms);
        },
        Step::Window { elapsed_ms, measured, inputs, drained } => {
            lemma_window_is_sound(s, elapsed_ms, measured, inputs, drained);
        },
        Step::Start { meeting, seeds } => {
            lemma_started_is_sound(s, meeting, seeds);
        },
        Step::Pause => {
            if s.state is Recording {
                lemma_moved_is_sound(s, MeetingState::Paused);
            }
        },
        Step::Resume => {
            if s.state is Paused {
                lemma_moved_is_sound(s, MeetingState::Recording);
            }
        },
        Step::Stop => {
            if s.state.is_live() {
                lemma_moved_is_sound(s, MeetingState::Stopping);
                lemma_moved_is_sound(s.moved_to(MeetingState::Stopping), MeetingState::Finalizing);
            }
        },
        Step::Note(text) => {
            lemma_noted_is_sound(s, text);
        },
        Step::Name { speaker_id, name } => {
            lemma_named_is_sound(s, speaker_id, name);
        },
        Step::Edit { segment_id, text } => {
            lemma_edited_is_sound(s, segment_id, text);
        },
        Step::Snapshot(prompt) => {
            lemma_snapshot_is_sound(s, prompt);
        },
        Step::Ended { version, outcome } => {
            lemma_ended_is_sound(s, version, outcome);
        },
        Step::Abandon => {
            lemma_unfinished_count(s.snapshots);
            lemma_all_failed_is_sound(
                s,
                unfinished(s.snapshots),
                "使用者在生成完成前開了新會議"@,
            );
        },
        Step::Fault(kind) => {
            lemma_faulted_is_sound(s, kind);
        },
        Step::Drain => {
            assert(event_numbers(t.pending).len() == 0);
        },
        Step::TakeLog | Step::LogFailed { .. } | Step::LogRecovered => {
            lemma_same_pending(s, t);
        },
    }
}

proof fn lemma_same_pending(s: SessionView, t: SessionView)
    requires
        is_numbered(s),
        s.seq == t.seq,
        s.pending == t.pending,
    ensures
        is_numbered(t),
{
}

// ---------------------------------------------------------------------------
// Commands
// ---------------------------------------------------------------------------

/// The receipt of a command.
pub open spec fn receipt(s: SessionView, step: Step) -> Option<ReceiptView> {
    match step {
        Step::Start { meeting, seeds } => Some(s.started(meeting, seeds).1),
        Step::Pause => Some(s.paused().1),
        Step::Resume => Some(s.resumed().1),
        Step::Stop => Some(s.stopped().1),
        Step::Note(text) => Some(s.noted(text).1),
        Step::Name { speaker_id, name } => Some(s.named(speaker_id, name).1),
        Step::Edit { segment_id, text } => Some(s.edited(segment_id, text).1),
        Step::Snapshot(prompt) => Some(s.snapshot_taken(prompt).1),
        Step::Fault(kind) => Some(s.faulted(kind).1),
        _ => None,
    }
}

/// A command that is refused changes nothing and says why. A command that is accepted says the
/// number of the last event there is.
pub proof fn refused_commands_change_nothing(s: SessionView, step: Step)
    requires
        fits(s, step),
    ensures
        receipt(s, step) matches Some(r) ==> {
            &&& !r.accepted ==> stepped(s, step) == s && r.seq is None && r.note is Some
            &&& r.accepted ==> r.seq == Some(stepped(s, step).seq) && r.note is None
        },
{
}

/// Where the log cannot be written, every command on the content of a meeting is refused with
/// that reason, if it would otherwise have been accepted.
pub proof fn nothing_is_taken_that_cannot_be_kept(s: SessionView, step: Step)
    requires
        fits(s, step),
        s.journal_error is Some,
        step is Note || step is Name || step is Edit || step is Snapshot,
    ensures
        receipt(s, step) matches Some(r) && !r.accepted,
        stepped(s, step) == s,
        (receipt(SessionView { journal_error: None, ..s }, step) matches Some(r) && r.accepted)
            ==> receipt(s, step) == s.refusal(),
{
}

/// A meeting that has ended, or not begun, takes no notes and no edits, and a finished one
/// cannot be started again. A summary can be asked for after the end, and speakers can be
/// named.
pub proof fn what_a_meeting_takes_depends_on_its_state(s: SessionView, step: Step)
    requires
        fits(s, step),
        !s.state.is_live(),
    ensures
        step is Note || step is Edit || step is Stop || step is Pause || step is Resume
            ==> stepped(s, step) == s,
        step is Start && !(s.state is Idle) ==> stepped(s, step) == s,
        step is Snapshot && !(s.state is Completed) ==> stepped(s, step) == s,
        step is Snapshot && s.state is Completed && s.journal_error is None ==> (receipt(
            s,
            step,
        ) matches Some(r) && r.accepted),
        step is Name && (s.state is Idle || s.state is Stopping) ==> stepped(s, step) == s,
{
}

// ---------------------------------------------------------------------------
// Transcripts
// ---------------------------------------------------------------------------

/// What the user has written stays, whatever a source gives: no partial, no final, and no
/// other words for the same audio.
pub proof fn user_edits_outlive_the_source(
    s: SessionView,
    inputs: Seq<TranscriptInputView>,
    id: u64,
)
    requires
        s.segments.contains_key(id),
        s.segments[id].origin is User,
    ensures
        s.all_taken_in(inputs).segments.contains_key(id),
        s.all_taken_in(inputs).segments[id] == s.segments[id],
    decreases inputs.len(),
{
    if inputs.len() > 0 {
        user_edits_outlive_the_source(s, inputs.drop_last(), id);
    }
}

/// A segment that is final takes no more partials and no second final. Only other words for
/// the same audio, under another number, make a new version of it.
pub proof fn final_segments_stay(s: SessionView, input: TranscriptInputView, id: u64)
    requires
        s.segments.contains_key(id),
        s.segments[id].finalized,
    ensures
        ({
            let t = s.taken_in(input);
            let own = match input {
                TranscriptInputView::Partial { segment_id, .. } => segment_id == id,
                TranscriptInputView::Final { segment_id, .. } => segment_id == id,
            };
            &&& t.segments.contains_key(id)
            &&& t.segments[id].finalized
            &&& t.segments[id].revision >= s.segments[id].revision
            &&& t.segments[id].first_seen == s.segments[id].first_seen
            &&& own ==> t.segments[id] == s.segments[id]
            &&& input is Partial ==> t.segments[id] == s.segments[id]
        }),
{
}

/// What is still being spoken is shown and never logged. All that a partial can add to the log
/// is that somebody is heard for the first time.
pub proof fn partials_are_never_logged(
    s: SessionView,
    id: u64,
    speaker_id: Seq<char>,
    text: Seq<char>,
    track: Track,
)
    requires
        s.can_take_in(),
    ensures
        ({
            let t = s.taken_in(
                TranscriptInputView::Partial { segment_id: id, speaker_id, text, track },
            );
            &&& is_known(s.speakers, speaker_id) ==> t.seq == s.seq && t.journal == s.journal
            &&& !is_known(s.speakers, speaker_id) ==> t.seq == s.seq + 1 && t.journal.len()
                == s.journal.len() + 1 && t.journal.last().0 is SpeakerProposed
        }),
{
}

/// The same audio with the same words, under whatever number and speaker, leaves everything as
/// it is: no second segment, and nobody who was not there.
pub proof fn replays_leave_no_trace(
    s: SessionView,
    id: u64,
    speaker_id: Seq<char>,
    text: Seq<char>,
    track: Track,
    span: Option<(u64, u64)>,
)
    requires
        is_sound(s),
        !s.is_closed(id),
        s.intervals.contains_key(s.interval(id, track, span)),
        s.intervals[s.interval(id, track, span)] != id,
        normalized(s.segments[s.intervals[s.interval(id, track, span)]].text) == normalized(text),
    ensures
        s.taken_in(
            TranscriptInputView::Final { segment_id: id, speaker_id, text, track, audio_span: span },
        ) == s,
{
    let key = s.interval(id, track, span);
    assert(s.segments.contains_key(s.intervals[key]));
}

/// The same audio with other words is a new version of the segment that is there, and no new
/// segment.
pub proof fn other_words_make_a_new_version(
    s: SessionView,
    id: u64,
    speaker_id: Seq<char>,
    text: Seq<char>,
    track: Track,
    span: Option<(u64, u64)>,
)
    requires
        is_sound(s),
        s.can_take_in(),
        !s.is_closed(id),
        s.intervals.contains_key(s.interval(id, track, span)),
        s.intervals[s.interval(id, track, span)] != id,
        ({
            let old = s.segments[s.intervals[s.interval(id, track, span)]];
            &&& normalized(old.text) != normalized(text)
            &&& !(old.origin is User)
            &&& old.revision < u32::MAX
        }),
    ensures
        ({
            let other = s.intervals[s.interval(id, track, span)];
            let t = s.taken_in(
                TranscriptInputView::Final {
                    segment_id: id,
                    speaker_id,
                    text,
                    track,
                    audio_span: span,
                },
            );
            &&& t.segments.dom() == s.segments.dom()
            &&& t.segments[other].text == text
            &&& t.segments[other].revision == s.segments[other].revision + 1
            &&& t.seq == s.seq + 1
            &&& t.speakers == s.speakers
        }),
{
    let other = s.intervals[s.interval(id, track, span)];
    assert(s.segments.contains_key(other));
    let t = s.taken_in(
        TranscriptInputView::Final { segment_id: id, speaker_id, text, track, audio_span: span },
    );
    assert(t.segments.dom() =~= s.segments.dom());
}

/// While speech is not recognised, a meeting goes on recording, and nothing is transcribed.
pub proof fn an_outage_leaves_the_meeting_running(
    s: SessionView,
    elapsed_ms: u64,
    measured: bool,
    inputs: Seq<TranscriptInputView>,
    drained: bool,
)
    requires
        !(s.stt_health is Healthy),
    ensures
        ({
            let t = s.window(elapsed_ms, measured, inputs, drained);
            &&& t.state == s.state
            &&& t.segments == s.segments
            &&& t.seq == s.seq
            &&& t.captured_audio_ms == s.settled(elapsed_ms).captured_audio_ms
        }),
{
}

/// A meeting that is ending stays open for what is still being transcribed, and ends only when
/// everything has come.
pub proof fn meetings_end_when_everything_has_come(
    s: SessionView,
    elapsed_ms: u64,
    measured: bool,
    inputs: Seq<TranscriptInputView>,
    drained: bool,
)
    requires
        s.state is Finalizing,
    ensures
        ({
            let t = s.window(elapsed_ms, measured, inputs, drained);
            let taken = s.window_begun(elapsed_ms, measured).all_taken_in(inputs);
            &&& !drained ==> t.state is Finalizing
            &&& s.stt_health is Healthy ==> t.segments == taken.segments
            &&& s.stt_health is Healthy && drained && taken.seq < u64::MAX ==> t.state is Completed
        }),
{
    let b = s.window_begun(elapsed_ms, measured);
    lemma_all_taken_in_frame(b, inputs);
}

// ---------------------------------------------------------------------------
// Time
// ---------------------------------------------------------------------------

/// It makes no difference whether time is accounted for at once or in parts: a change of state
/// falls on the moment it happens.
pub proof fn time_can_be_accounted_for_in_parts(s: SessionView, a: u64, b: u64)
    requires
        s.last_settled_ms <= a <= b,
        fits(s, Step::Settle(b)),
    ensures
        s.settled(a).settled(b) == s.settled(b),
{
}

/// Recorded time goes on exactly while recording; meeting time goes on in pauses too.
pub proof fn pauses_stop_only_the_recording(s: SessionView, ms: u64)
    requires
        fits(s, Step::Settle(ms)),
    ensures
        ({
            let t = s.settled(ms);
            &&& s.state is Recording ==> t.captured_audio_ms - s.captured_audio_ms == s.passed(ms)
                && t.meeting_time_ms - s.meeting_time_ms == s.passed(ms)
            &&& s.state is Paused ==> t.captured_audio_ms == s.captured_audio_ms && t.meeting_time_ms
                - s.meeting_time_ms == s.passed(ms)
            &&& s.state is Idle || s.state is Completed || s.state is Failed ==> t.now() == s.now()
        }),
{
}

/// However a pause ends, it is closed: by going on, and by stopping.
pub proof fn pauses_are_closed(s: SessionView)
    requires
        is_sound(s),
        s.has_room(),
        s.state is Paused,
    ensures
        ({
            let from = s.pauses.last().from_ms;
            let closed = ProjectedPause { from_ms: from, to_ms: Some(s.meeting_time_ms) };
            &&& s.resumed().0.pauses.last() == closed
            &&& s.stopped().0.pauses.last() == closed
            &&& s.resumed().0.pauses.len() == s.pauses.len()
            &&& s.stopped().0.pauses.len() == s.pauses.len()
        }),
{
}

// ---------------------------------------------------------------------------
// Versions
// ---------------------------------------------------------------------------

proof fn lemma_all_failed_snapshots(s: SessionView, versions: Seq<u32>, reason: Seq<char>)
    ensures
        s.all_failed(versions, reason).snapshots.len() == s.snapshots.len(),
        forall|i: int|
            0 <= i < s.snapshots.len() ==> ({
                let old = s.snapshots[i];
                let new = #[trigger] s.all_failed(versions, reason).snapshots[i];
                new == old || new == SnapshotView { state: RunState::Failed, ..old }
            }),
    decreases versions.len(),
{
    if versions.len() > 0 {
        let rest = versions.drop_last();
        lemma_all_failed_snapshots(s, rest, reason);
        let t = s.all_failed(rest, reason);
        let u = s.all_failed(versions, reason);
        let at = version_at(t.snapshots, versions.last());
        lemma_version_at(t.snapshots, versions.last());
        assert forall|i: int| 0 <= i < s.snapshots.len() implies ({
            let old = s.snapshots[i];
            let new = #[trigger] u.snapshots[i];
            new == old || new == SnapshotView { state: RunState::Failed, ..old }
        }) by {
            let mid = t.snapshots[i];
        }
    }
}

/// What a version covers is fixed when it is begun: no event after that changes it.
pub proof fn cursors_are_frozen(s: SessionView, step: Step, i: int)
    requires
        fits(s, step),
        0 <= i < s.snapshots.len(),
    ensures
        stepped(s, step).snapshots.len() >= s.snapshots.len(),
        stepped(s, step).snapshots[i].through_event_seq == s.snapshots[i].through_event_seq,
        stepped(s, step).snapshots[i].version == s.snapshots[i].version,
        stepped(s, step).snapshots[i].prompt == s.snapshots[i].prompt,
{
    let t = stepped(s, step);
    match step {
        Step::Window { elapsed_ms, measured, inputs, drained } => {
            lemma_all_taken_in_frame(s.window_begun(elapsed_ms, measured), inputs);
        },
        Step::Abandon => {
            lemma_all_failed_snapshots(
                s,
                unfinished(s.snapshots),
                "使用者在生成完成前開了新會議"@,
            );
            assert(t.snapshots[i] == t.snapshots[i]);
        },
        Step::Ended { version, .. } => {
            lemma_version_at(s.snapshots, version);
        },
        Step::Fault(_) => {
            let a = s.version_begun(RunState::Failed, None, ""@);
            lemma_version_at(a.snapshots, (s.snapshots.len() + 1) as u32);
        },
        _ => {},
    }
}

/// A new version covers all that has happened before it and not itself, is the next in number,
/// and revises the last version that was completed.
pub proof fn new_versions_follow_the_last_good_one(s: SessionView, prompt: Seq<char>)
    requires
        is_sound(s),
        s.has_room(),
        s.snapshot_taken(prompt).1.accepted,
    ensures
        ({
            let (t, r, work) = s.snapshot_taken(prompt);
            &&& work matches Some(w)
            &&& w.through == s.seq
            &&& t.seq == s.seq + 1
            &&& w.version == s.snapshots.len() + 1
            &&& t.snapshots.last().prompt == prompt
            &&& w.revise_of is None <==> forall|i: int|
                0 <= i < s.snapshots.len() ==> !((#[trigger] s.snapshots[i]).state is Completed)
            &&& w.revise_of matches Some(v) ==> 1 <= v <= s.snapshots.len() && s.snapshots[v
                - 1].state is Completed && forall|i: int|
                v <= i < s.snapshots.len() ==> !((#[trigger] s.snapshots[i]).state is Completed)
        }),
{
    lemma_last_completed(s.snapshots);
    if let Some(b) = last_completed(s.snapshots) {
        let k = choose|k: int|
            0 <= k < s.snapshots.len() && #[trigger] s.snapshots[k] == b && b.state is Completed
                && forall|i: int|
                k < i < s.snapshots.len() ==> !((#[trigger] s.snapshots[i]).state is Completed);
        assert(s.snapshots[k].version == k + 1);
    }
}

proof fn lemma_last_completed(snapshots: Seq<SnapshotView>)
    ensures
        match last_completed(snapshots) {
            Some(b) => exists|k: int|
                0 <= k < snapshots.len() && #[trigger] snapshots[k] == b && b.state is Completed
                    && forall|i: int|
                    k < i < snapshots.len() ==> !((#[trigger] snapshots[i]).state is Completed),
            None => forall|i: int|
                0 <= i < snapshots.len() ==> !((#[trigger] snapshots[i]).state is Completed),
        },
    decreases snapshots.len(),
{
    if snapshots.len() > 0 {
        let rest = snapshots.drop_last();
        lemma_last_completed(rest);
        let n = snapshots.len() - 1;
        if snapshots.last().state is Completed {
            assert(snapshots[n] == snapshots.last());
        } else if let Some(b) = last_completed(rest) {
            let k = choose|k: int|
                0 <= k < rest.len() && #[trigger] rest[k] == b && b.state is Completed && forall|
                    i: int,
                |
                    k < i < rest.len() ==> !((#[trigger] rest[i]).state is Completed);
            assert(snapshots[k] == b);
            assert forall|i: int| k < i < snapshots.len() implies !((
            #[trigger] snapshots[i]).state is Completed) by {
                if i < n {
                    assert(rest[i] == snapshots[i]);
                }
            }
        } else {
            assert forall|i: int| 0 <= i < snapshots.len() implies !((
            #[trigger] snapshots[i]).state is Completed) by {
                if i < n {
                    assert(rest[i] == snapshots[i]);
                }
            }
        }
    }
}

proof fn lemma_unfinished_member(snapshots: Seq<SnapshotView>, i: int)
    requires
        0 <= i < snapshots.len(),
        snapshots[i].state is Queued || snapshots[i].state is Running,
    ensures
        unfinished(snapshots).contains(snapshots[i].version),
    decreases snapshots.len(),
{
    let rest = snapshots.drop_last();
    if i < rest.len() {
        lemma_unfinished_member(rest, i);
        let v = snapshots[i].version;
        let k = choose|k: int| 0 <= k < unfinished(rest).len() && unfinished(rest)[k] == v;
        assert(unfinished(snapshots)[k] == v);
    } else {
        assert(unfinished(snapshots).last() == snapshots[i].version);
    }
}

proof fn lemma_unfinished_only(snapshots: Seq<SnapshotView>, k: int)
    requires
        0 <= k < unfinished(snapshots).len(),
    ensures
        exists|i: int|
            0 <= i < snapshots.len() && (#[trigger] snapshots[i]).version == unfinished(
                snapshots,
            )[k] && (snapshots[i].state is Queued || snapshots[i].state is Running),
    decreases snapshots.len(),
{
    let rest = snapshots.drop_last();
    if k < unfinished(rest).len() {
        lemma_unfinished_only(rest, k);
        let i = choose|i: int|
            0 <= i < rest.len() && (#[trigger] rest[i]).version == unfinished(rest)[k] && (
            rest[i].state is Queued || rest[i].state is Running);
        assert(snapshots[i] == rest[i]);
    } else {
        assert(snapshots[snapshots.len() - 1] == snapshots.last());
    }
}

/// The versions that fail are those in the list, and no others.
proof fn lemma_all_failed_exactly(s: SessionView, versions: Seq<u32>, reason: Seq<char>, i: int)
    requires
        sound_versions(s),
        0 <= i < s.snapshots.len(),
    ensures
        s.all_failed(versions, reason).snapshots.len() == s.snapshots.len(),
        forall|j: int|
            0 <= j < s.snapshots.len() ==> (#[trigger] s.all_failed(
                versions,
                reason,
            ).snapshots[j]).version == j + 1,
        versions.contains(s.snapshots[i].version) ==> s.all_failed(
            versions,
            reason,
        ).snapshots[i].state is Failed,
        !versions.contains(s.snapshots[i].version) ==> s.all_failed(versions, reason).snapshots[i]
            == s.snapshots[i],
    decreases versions.len(),
{
    lemma_all_failed_snapshots(s, versions, reason);
    let u = s.all_failed(versions, reason);
    assert forall|j: int| 0 <= j < s.snapshots.len() implies (#[trigger] u.snapshots[j]).version == j
        + 1 by {
        assert(s.snapshots[j].version == j + 1);
    }
    if versions.len() > 0 {
        let rest = versions.drop_last();
        let t = s.all_failed(rest, reason);
        lemma_all_failed_exactly(s, rest, reason, i);
        let last = versions.last();
        let at = version_at(t.snapshots, last);
        lemma_version_at(t.snapshots, last);
        let v = s.snapshots[i].version;
        assert(v == i + 1);
        assert(t.snapshots[i].version == i + 1);
        if at < t.snapshots.len() {
            assert(t.snapshots[at].version == at + 1);
        }
        if last == v {
            if at < i {
                assert(t.snapshots[at].version == at + 1);
            }
            if at > i {
                assert(t.snapshots[i].version != last);
            }
            assert(at == i);
            assert(versions[versions.len() - 1] == v);
        } else {
            if rest.contains(v) {
                let k = choose|k: int| 0 <= k < rest.len() && rest[k] == v;
                assert(versions[k] == v);
            }
            if versions.contains(v) {
                let k = choose|k: int| 0 <= k < versions.len() && versions[k] == v;
                assert(k < rest.len());
                assert(rest[k] == v);
            }
        }
    }
}

/// When a session is given up, every generation that has not ended is said to have failed, and
/// those that have ended are left alone.
pub proof fn abandoned_generations_get_an_end(s: SessionView, i: int)
    requires
        is_sound(s),
        0 <= i < s.snapshots.len(),
    ensures
        ({
            let t = s.abandoned();
            let old = s.snapshots[i];
            &&& t.snapshots.len() == s.snapshots.len()
            &&& old.state is Queued || old.state is Running ==> t.snapshots[i].state is Failed
            &&& old.state is Completed || old.state is Failed ==> t.snapshots[i] == old
        }),
{
    let versions = unfinished(s.snapshots);
    let reason = "使用者在生成完成前開了新會議"@;
    let old = s.snapshots[i];
    lemma_all_failed_exactly(s, versions, reason, i);
    if old.state is Queued || old.state is Running {
        lemma_unfinished_member(s.snapshots, i);
    } else if versions.contains(old.version) {
        let k = choose|k: int| 0 <= k < versions.len() && versions[k] == old.version;
        lemma_unfinished_only(s.snapshots, k);
        let j = choose|j: int|
            0 <= j < s.snapshots.len() && (#[trigger] s.snapshots[j]).version == versions[k] && (
            s.snapshots[j].state is Queued || s.snapshots[j].state is Running);
        assert(s.snapshots[j].version == j + 1);
        assert(s.snapshots[i].version == i + 1);
    }
}

/// How well things work and where the meeting stands are two things: what goes wrong with the
/// microphone or with recognition does not change the meeting's state, and is told in a pause
/// too.
pub proof fn health_does_not_change_the_state(s: SessionView, kind: Seq<char>, ms: u64, measured: bool)
    requires
        fits(s, Step::Settle(ms)),
        s.has_room(),
    ensures
        s.faulted(kind).0.state == s.state,
        s.is_shown() ==> ({
            let t = s.window_begun(ms, measured);
            t.pending.len() == s.pending.len() + 1 && (t.pending.last() matches SessionEventView::TrackActivity {
                mic_health,
                stt_health,
                ..
            } && mic_health == s.mic_health && stt_health == s.stt_health)
        }),
{
}

/// Summaries do not disturb the recording: neither asking for one nor the end of one changes the
/// meeting's state, its time, its transcript or what the source was told.
pub proof fn summaries_leave_the_recording_alone(s: SessionView, step: Step)
    requires
        fits(s, step),
        step is Snapshot || step is Ended || step is Abandon,
    ensures
        ({
            let t = stepped(s, step);
            &&& t.state == s.state
            &&& t.now() == s.now()
            &&& t.segments == s.segments
            &&& t.speakers == s.speakers
            &&& t.notes == s.notes
            &&& t.source_paused == s.source_paused
            &&& t.source_flushing == s.source_flushing
        }),
{
    if step is Abandon {
        lemma_all_failed_leaves(s, unfinished(s.snapshots), "使用者在生成完成前開了新會議"@);
    }
}

proof fn lemma_all_failed_leaves(s: SessionView, versions: Seq<u32>, reason: Seq<char>)
    ensures
        ({
            let t = s.all_failed(versions, reason);
            &&& t.state == s.state
            &&& t.now() == s.now()
            &&& t.segments == s.segments
            &&& t.speakers == s.speakers
            &&& t.notes == s.notes
            &&& t.source_paused == s.source_paused
            &&& t.source_flushing == s.source_flushing
        }),
    decreases versions.len(),
{
    if versions.len() > 0 {
        lemma_all_failed_leaves(s, versions.drop_last(), reason);
    }
}

} // verus!
