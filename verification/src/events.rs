//! What happens in a meeting, told twice: to whoever watches, and to the log.
//!
//! An event with a number is decisive: it goes to both. An event without one is passing,
//! and is gone when the meeting is opened again.

use crate::agent::{Degraded, DegradedView};
use crate::generation::StopReason;
use crate::model::{Health, MeetingState, Origin, Timeline, Track};
use crate::store::{DocumentBlock, DocumentBlockView};
use crate::text::{opt_view, views};
use vstd::prelude::*;

verus! {

/// How loud a track is shown.
#[derive(Debug, Clone, Copy, PartialEq, Eq, Structural)]
pub enum Level {
    Silent,
    /// As loud as the source of audio has measured.
    Measured,
    /// So many ten-thousandths of full scale, drawn for a source that measures nothing.
    Drawn(u32),
}

/// What is told to whoever watches.
#[derive(Debug, PartialEq, Eq)]
pub enum SessionEvent {
    /// Passing: the same segment is rewritten again and again until it is final.
    TranscriptPartial { segment_id: u64, speaker_id: String, text: String, meeting_time_ms: u64 },
    TranscriptFinalized {
        seq: u64,
        segment_id: u64,
        revision: u32,
        origin: Origin,
        speaker_id: String,
        text: String,
        meeting_time_ms: u64,
        captured_audio_ms: u64,
    },
    TranscriptEdited { seq: u64, segment_id: u64, revision: u32, origin: Origin, text: String },
    NoteAdded {
        seq: u64,
        note_id: u64,
        text: String,
        meeting_time_ms: u64,
        captured_audio_ms: u64,
    },
    /// A speaker is heard for the first time.
    SpeakerProposed {
        seq: u64,
        speaker_id: String,
        ordinal: u32,
        proposed_name: Option<String>,
        track: Track,
    },
    SpeakerConfirmed { seq: u64, speaker_id: String, name: String },
    SnapshotCreated {
        seq: u64,
        version: u32,
        through_event_seq: u64,
        meeting_time_ms: u64,
        prompt: String,
    },
    GenerationCompleted { seq: u64, version: u32 },
    GenerationFailed { seq: u64, version: u32, reason: String },
    MeetingStateChanged {
        seq: u64,
        state: MeetingState,
        meeting_time_ms: u64,
        captured_audio_ms: u64,
    },
    /// Passing: how well things work, whatever the meeting's state is.
    TrackActivity {
        mic_level: Level,
        system_level: Level,
        mic_health: Health,
        system_health: Health,
        stt_health: Health,
    },
}

pub enum SessionEventView {
    TranscriptPartial {
        segment_id: u64,
        speaker_id: Seq<char>,
        text: Seq<char>,
        meeting_time_ms: u64,
    },
    TranscriptFinalized {
        seq: u64,
        segment_id: u64,
        revision: u32,
        origin: Origin,
        speaker_id: Seq<char>,
        text: Seq<char>,
        meeting_time_ms: u64,
        captured_audio_ms: u64,
    },
    TranscriptEdited { seq: u64, segment_id: u64, revision: u32, origin: Origin, text: Seq<char> },
    NoteAdded {
        seq: u64,
        note_id: u64,
        text: Seq<char>,
        meeting_time_ms: u64,
        captured_audio_ms: u64,
    },
    SpeakerProposed {
        seq: u64,
        speaker_id: Seq<char>,
        ordinal: u32,
        proposed_name: Option<Seq<char>>,
        track: Track,
    },
    SpeakerConfirmed { seq: u64, speaker_id: Seq<char>, name: Seq<char> },
    SnapshotCreated {
        seq: u64,
        version: u32,
        through_event_seq: u64,
        meeting_time_ms: u64,
        prompt: Seq<char>,
    },
    GenerationCompleted { seq: u64, version: u32 },
    GenerationFailed { seq: u64, version: u32, reason: Seq<char> },
    MeetingStateChanged {
        seq: u64,
        state: MeetingState,
        meeting_time_ms: u64,
        captured_audio_ms: u64,
    },
    TrackActivity {
        mic_level: Level,
        system_level: Level,
        mic_health: Health,
        system_health: Health,
        stt_health: Health,
    },
}

impl View for SessionEvent {
    type V = SessionEventView;

    open spec fn view(&self) -> SessionEventView {
        match *self {
            SessionEvent::TranscriptPartial { segment_id, speaker_id, text, meeting_time_ms } =>
                SessionEventView::TranscriptPartial {
                segment_id,
                speaker_id: speaker_id@,
                text: text@,
                meeting_time_ms,
            },
            SessionEvent::TranscriptFinalized {
                seq,
                segment_id,
                revision,
                origin,
                speaker_id,
                text,
                meeting_time_ms,
                captured_audio_ms,
            } => SessionEventView::TranscriptFinalized {
                seq,
                segment_id,
                revision,
                origin,
                speaker_id: speaker_id@,
                text: text@,
                meeting_time_ms,
                captured_audio_ms,
            },
            SessionEvent::TranscriptEdited { seq, segment_id, revision, origin, text } =>
                SessionEventView::TranscriptEdited {
                seq,
                segment_id,
                revision,
                origin,
                text: text@,
            },
            SessionEvent::NoteAdded { seq, note_id, text, meeting_time_ms, captured_audio_ms } =>
                SessionEventView::NoteAdded {
                seq,
                note_id,
                text: text@,
                meeting_time_ms,
                captured_audio_ms,
            },
            SessionEvent::SpeakerProposed { seq, speaker_id, ordinal, proposed_name, track } =>
                SessionEventView::SpeakerProposed {
                seq,
                speaker_id: speaker_id@,
                ordinal,
                proposed_name: opt_view(proposed_name),
                track,
            },
            SessionEvent::SpeakerConfirmed { seq, speaker_id, name } =>
                SessionEventView::SpeakerConfirmed {
                seq,
                speaker_id: speaker_id@,
                name: name@,
            },
            SessionEvent::SnapshotCreated {
                seq,
                version,
                through_event_seq,
                meeting_time_ms,
                prompt,
            } => SessionEventView::SnapshotCreated {
                seq,
                version,
                through_event_seq,
                meeting_time_ms,
                prompt: prompt@,
            },
            SessionEvent::GenerationCompleted { seq, version } =>
                SessionEventView::GenerationCompleted { seq, version },
            SessionEvent::GenerationFailed { seq, version, reason } =>
                SessionEventView::GenerationFailed { seq, version, reason: reason@ },
            SessionEvent::MeetingStateChanged {
                seq,
                state,
                meeting_time_ms,
                captured_audio_ms,
            } => SessionEventView::MeetingStateChanged {
                seq,
                state,
                meeting_time_ms,
                captured_audio_ms,
            },
            SessionEvent::TrackActivity {
                mic_level,
                system_level,
                mic_health,
                system_health,
                stt_health,
            } => SessionEventView::TrackActivity {
                mic_level,
                system_level,
                mic_health,
                system_health,
                stt_health,
            },
        }
    }
}

impl SessionEventView {
    /// The number of a decisive event.
    pub open spec fn number(self) -> Option<u64> {
        match self {
            SessionEventView::TranscriptFinalized { seq, .. } => Some(seq),
            SessionEventView::TranscriptEdited { seq, .. } => Some(seq),
            SessionEventView::NoteAdded { seq, .. } => Some(seq),
            SessionEventView::SpeakerProposed { seq, .. } => Some(seq),
            SessionEventView::SpeakerConfirmed { seq, .. } => Some(seq),
            SessionEventView::SnapshotCreated { seq, .. } => Some(seq),
            SessionEventView::GenerationCompleted { seq, .. } => Some(seq),
            SessionEventView::GenerationFailed { seq, .. } => Some(seq),
            SessionEventView::MeetingStateChanged { seq, .. } => Some(seq),
            SessionEventView::TranscriptPartial { .. } => None,
            SessionEventView::TrackActivity { .. } => None,
        }
    }
}

impl SessionEvent {
    /// The number of a decisive event.
    pub fn seq(&self) -> (r: Option<u64>)
        ensures
            r == self@.number(),
    {
        match self {
            SessionEvent::TranscriptFinalized { seq, .. } => Some(*seq),
            SessionEvent::TranscriptEdited { seq, .. } => Some(*seq),
            SessionEvent::NoteAdded { seq, .. } => Some(*seq),
            SessionEvent::SpeakerProposed { seq, .. } => Some(*seq),
            SessionEvent::SpeakerConfirmed { seq, .. } => Some(*seq),
            SessionEvent::SnapshotCreated { seq, .. } => Some(*seq),
            SessionEvent::GenerationCompleted { seq, .. } => Some(*seq),
            SessionEvent::GenerationFailed { seq, .. } => Some(*seq),
            SessionEvent::MeetingStateChanged { seq, .. } => Some(*seq),
            SessionEvent::TranscriptPartial { .. } => None,
            SessionEvent::TrackActivity { .. } => None,
        }
    }
}

/// One version of a segment, as it is logged.
#[derive(Debug, PartialEq, Eq)]
pub struct SegmentRevision {
    pub segment_id: u64,
    pub revision: u32,
    pub text: String,
    pub speaker_id: Option<String>,
    pub track: Track,
    pub meeting_start_ms: u64,
    pub meeting_end_ms: u64,
    pub captured_start_ms: u64,
    pub captured_end_ms: u64,
    pub origin: Origin,
}

pub struct SegmentRevisionView {
    pub segment_id: u64,
    pub revision: u32,
    pub text: Seq<char>,
    pub speaker_id: Option<Seq<char>>,
    pub track: Track,
    pub meeting_start_ms: u64,
    pub meeting_end_ms: u64,
    pub captured_start_ms: u64,
    pub captured_end_ms: u64,
    pub origin: Origin,
}

impl View for SegmentRevision {
    type V = SegmentRevisionView;

    open spec fn view(&self) -> SegmentRevisionView {
        SegmentRevisionView {
            segment_id: self.segment_id,
            revision: self.revision,
            text: self.text@,
            speaker_id: opt_view(self.speaker_id),
            track: self.track,
            meeting_start_ms: self.meeting_start_ms,
            meeting_end_ms: self.meeting_end_ms,
            captured_start_ms: self.captured_start_ms,
            captured_end_ms: self.captured_end_ms,
            origin: self.origin,
        }
    }
}

/// What a generation took, for the record.
#[derive(Debug, PartialEq, Eq)]
pub struct Usage {
    pub rounds: u32,
    pub stop_reason: StopReason,
    pub evidence_tokens: usize,
    pub segments_omitted: usize,
    pub rejected_blocks: usize,
    pub duplicates_removed: usize,
    pub revision_of: Option<u32>,
    pub degraded: Vec<Degraded>,
}

pub struct UsageView {
    pub rounds: u32,
    pub stop_reason: StopReason,
    pub evidence_tokens: usize,
    pub segments_omitted: usize,
    pub rejected_blocks: usize,
    pub duplicates_removed: usize,
    pub revision_of: Option<u32>,
    pub degraded: Seq<DegradedView>,
}

impl View for Usage {
    type V = UsageView;

    open spec fn view(&self) -> UsageView {
        UsageView {
            rounds: self.rounds,
            stop_reason: self.stop_reason,
            evidence_tokens: self.evidence_tokens,
            segments_omitted: self.segments_omitted,
            rejected_blocks: self.rejected_blocks,
            duplicates_removed: self.duplicates_removed,
            revision_of: self.revision_of,
            degraded: views(self.degraded@),
        }
    }
}

/// What is written to the log.
#[derive(Debug, PartialEq, Eq)]
pub enum DomainEvent {
    MeetingStateChanged { state: MeetingState },
    SpeakerProposed {
        speaker_id: String,
        ordinal: u32,
        proposed_name: Option<String>,
        provider_labels: Vec<String>,
    },
    SpeakerConfirmed { speaker_id: String, name: String },
    TranscriptSegmentFinalized { segment: SegmentRevision },
    TranscriptSegmentRevised { segment: SegmentRevision },
    TranscriptSegmentEdited { segment: SegmentRevision },
    NoteAdded { note_id: u64, text: String },
    SnapshotCreated {
        document_id: i64,
        run_id: i64,
        parent_run_id: Option<i64>,
        version_no: u32,
        purpose: String,
        title: String,
        through_event_seq: u64,
        prompt: String,
    },
    GenerationCompleted { run_id: i64, blocks: Vec<DocumentBlock>, usage: Usage },
    GenerationFailed { run_id: i64, reason: String },
}

pub enum DomainEventView {
    MeetingStateChanged { state: MeetingState },
    SpeakerProposed {
        speaker_id: Seq<char>,
        ordinal: u32,
        proposed_name: Option<Seq<char>>,
        provider_labels: Seq<Seq<char>>,
    },
    SpeakerConfirmed { speaker_id: Seq<char>, name: Seq<char> },
    TranscriptSegmentFinalized { segment: SegmentRevisionView },
    TranscriptSegmentRevised { segment: SegmentRevisionView },
    TranscriptSegmentEdited { segment: SegmentRevisionView },
    NoteAdded { note_id: u64, text: Seq<char> },
    SnapshotCreated {
        document_id: i64,
        run_id: i64,
        parent_run_id: Option<i64>,
        version_no: u32,
        purpose: Seq<char>,
        title: Seq<char>,
        through_event_seq: u64,
        prompt: Seq<char>,
    },
    GenerationCompleted { run_id: i64, blocks: Seq<DocumentBlockView>, usage: UsageView },
    GenerationFailed { run_id: i64, reason: Seq<char> },
}

impl View for DomainEvent {
    type V = DomainEventView;

    open spec fn view(&self) -> DomainEventView {
        match *self {
            DomainEvent::MeetingStateChanged { state } => DomainEventView::MeetingStateChanged {
                state,
            },
            DomainEvent::SpeakerProposed { speaker_id, ordinal, proposed_name, provider_labels } =>
                DomainEventView::SpeakerProposed {
                speaker_id: speaker_id@,
                ordinal,
                proposed_name: opt_view(proposed_name),
                provider_labels: views(provider_labels@),
            },
            DomainEvent::SpeakerConfirmed { speaker_id, name } =>
                DomainEventView::SpeakerConfirmed { speaker_id: speaker_id@, name: name@ },
            DomainEvent::TranscriptSegmentFinalized { segment } =>
                DomainEventView::TranscriptSegmentFinalized { segment: segment@ },
            DomainEvent::TranscriptSegmentRevised { segment } =>
                DomainEventView::TranscriptSegmentRevised { segment: segment@ },
            DomainEvent::TranscriptSegmentEdited { segment } =>
                DomainEventView::TranscriptSegmentEdited { segment: segment@ },
            DomainEvent::NoteAdded { note_id, text } => DomainEventView::NoteAdded {
                note_id,
                text: text@,
            },
            DomainEvent::SnapshotCreated {
                document_id,
                run_id,
                parent_run_id,
                version_no,
                purpose,
                title,
                through_event_seq,
                prompt,
            } => DomainEventView::SnapshotCreated {
                document_id,
                run_id,
                parent_run_id,
                version_no,
                purpose: purpose@,
                title: title@,
                through_event_seq,
                prompt: prompt@,
            },
            DomainEvent::GenerationCompleted { run_id, blocks, usage } =>
                DomainEventView::GenerationCompleted {
                run_id,
                blocks: views(blocks@),
                usage: usage@,
            },
            DomainEvent::GenerationFailed { run_id, reason } => DomainEventView::GenerationFailed {
                run_id,
                reason: reason@,
            },
        }
    }
}

impl DomainEventView {
    /// The name of the event's kind in the log.
    pub open spec fn kind_name(self) -> Seq<char> {
        match self {
            DomainEventView::MeetingStateChanged { .. } => "MeetingStateChanged"@,
            DomainEventView::SpeakerProposed { .. } => "SpeakerProposed"@,
            DomainEventView::SpeakerConfirmed { .. } => "SpeakerConfirmed"@,
            DomainEventView::TranscriptSegmentFinalized { .. } => "TranscriptSegmentFinalized"@,
            DomainEventView::TranscriptSegmentRevised { .. } => "TranscriptSegmentRevised"@,
            DomainEventView::TranscriptSegmentEdited { .. } => "TranscriptSegmentEdited"@,
            DomainEventView::NoteAdded { .. } => "NoteAdded"@,
            DomainEventView::SnapshotCreated { .. } => "SnapshotCreated"@,
            DomainEventView::GenerationCompleted { .. } => "GenerationCompleted"@,
            DomainEventView::GenerationFailed { .. } => "GenerationFailed"@,
        }
    }
}

impl DomainEvent {
    /// The name of the event's kind in the log.
    pub fn kind(&self) -> (r: &'static str)
        ensures
            r@ == self@.kind_name(),
    {
        match self {
            DomainEvent::MeetingStateChanged { .. } => "MeetingStateChanged",
            DomainEvent::SpeakerProposed { .. } => "SpeakerProposed",
            DomainEvent::SpeakerConfirmed { .. } => "SpeakerConfirmed",
            DomainEvent::TranscriptSegmentFinalized { .. } => "TranscriptSegmentFinalized",
            DomainEvent::TranscriptSegmentRevised { .. } => "TranscriptSegmentRevised",
            DomainEvent::TranscriptSegmentEdited { .. } => "TranscriptSegmentEdited",
            DomainEvent::NoteAdded { .. } => "NoteAdded",
            DomainEvent::SnapshotCreated { .. } => "SnapshotCreated",
            DomainEvent::GenerationCompleted { .. } => "GenerationCompleted",
            DomainEvent::GenerationFailed { .. } => "GenerationFailed",
        }
    }
}

/// An event of the log with the time at which it happened.
pub open spec fn journal_views(list: Seq<(DomainEvent, Timeline)>) -> Seq<
    (DomainEventView, Timeline),
> {
    Seq::new(list.len(), |i: int| (list[i].0@, list[i].1))
}

/// One more event in the log is one more model.
pub broadcast proof fn journal_views_push(list: Seq<(DomainEvent, Timeline)>, e: (
    DomainEvent,
    Timeline,
))
    ensures
        #[trigger] journal_views(list.push(e)) == journal_views(list).push((e.0@, e.1)),
{
    assert(journal_views(list.push(e)) =~= journal_views(list).push((e.0@, e.1)));
}

// ---------------------------------------------------------------------------
// What comes in
// ---------------------------------------------------------------------------

/// What a source of transcripts gives.
#[derive(Debug, PartialEq, Eq)]
pub enum TranscriptInput {
    Partial { segment_id: u64, speaker_id: String, text: String, track: Track },
    Final {
        segment_id: u64,
        speaker_id: String,
        text: String,
        track: Track,
        /// Where the words stand in the recorded audio of the track, if the source knows.
        audio_span: Option<(u64, u64)>,
    },
}

pub enum TranscriptInputView {
    Partial { segment_id: u64, speaker_id: Seq<char>, text: Seq<char>, track: Track },
    Final {
        segment_id: u64,
        speaker_id: Seq<char>,
        text: Seq<char>,
        track: Track,
        audio_span: Option<(u64, u64)>,
    },
}

impl View for TranscriptInput {
    type V = TranscriptInputView;

    open spec fn view(&self) -> TranscriptInputView {
        match *self {
            TranscriptInput::Partial { segment_id, speaker_id, text, track } =>
                TranscriptInputView::Partial {
                segment_id,
                speaker_id: speaker_id@,
                text: text@,
                track,
            },
            TranscriptInput::Final { segment_id, speaker_id, text, track, audio_span } =>
                TranscriptInputView::Final {
                segment_id,
                speaker_id: speaker_id@,
                text: text@,
                track,
                audio_span,
            },
        }
    }
}

/// Where transcripts come from. A meeting knows nothing else of audio and speech.
pub trait TranscriptSource: Send {
    /// Goes on for `window_ms` milliseconds and gives what came of it.
    fn poll(&mut self, window_ms: u64) -> Vec<TranscriptInput>;

    /// Stops or takes up again the collecting of audio. What is said in a pause is thrown
    /// away, not kept for later.
    fn set_paused(&mut self, _paused: bool) {
    }

    /// Ends the collecting of audio. What is still being transcribed comes with later polls.
    fn begin_flush(&mut self) {
    }

    /// Whether everything has come. A source that does nothing in the background has nothing
    /// to wait for.
    fn drained(&self) -> (r: bool)
        default_ensures
            r,
    {
        true
    }

    /// Whether the source measures how loud the tracks are. One without audio does not, so that
    /// nothing is shown as measured that is not.
    fn measures_levels(&self) -> (r: bool)
        default_ensures
            !r,
    {
        false
    }
}

/// Whether a source of this sort may give `inputs`, where it is to go on for `window_ms`: a call
/// of `poll` with that can give them.
pub open spec fn poll_gives<S: TranscriptSource + ?Sized>(
    window_ms: u64,
    inputs: Seq<TranscriptInputView>,
) -> bool {
    exists|s: &mut S, r: Vec<TranscriptInput>|
        views(r@) == inputs && #[trigger] call_ensures(S::poll, (s, window_ms), r)
}

/// Whether a source of this sort may say so of whether everything has come.
pub open spec fn drained_gives<S: TranscriptSource + ?Sized>(answer: bool) -> bool {
    exists|s: &S| #[trigger] call_ensures(S::drained, (s,), answer)
}

/// Whether a source of this sort may say so of whether it measures how loud the tracks are.
pub open spec fn measures_gives<S: TranscriptSource + ?Sized>(answer: bool) -> bool {
    exists|s: &S| #[trigger] call_ensures(S::measures_levels, (s,), answer)
}

/// Whether a source of this sort has been told to pause, or to go on.
pub open spec fn told_to_pause<S: TranscriptSource + ?Sized>(paused: bool) -> bool {
    exists|s: &mut S| #[trigger] call_ensures(S::set_paused, (s, paused), ())
}

/// Whether a source of this sort has been told that no more is to be collected.
pub open spec fn told_to_flush<S: TranscriptSource + ?Sized>() -> bool {
    exists|s: &mut S| #[trigger] call_ensures(S::begin_flush, (s,), ())
}

/// Lets a source go on.
pub fn poll_source<S: TranscriptSource + ?Sized>(source: &mut S, window_ms: u64) -> (r: Vec<
    TranscriptInput,
>)
    ensures
        poll_gives::<S>(window_ms, views(r@)),
{
    source.poll(window_ms)
}

/// Asks a source whether everything has come.
pub fn is_drained<S: TranscriptSource + ?Sized>(source: &S) -> (r: bool)
    ensures
        drained_gives::<S>(r),
{
    source.drained()
}

/// Asks a source whether it measures how loud the tracks are.
pub fn is_measured<S: TranscriptSource + ?Sized>(source: &S) -> (r: bool)
    ensures
        measures_gives::<S>(r),
{
    source.measures_levels()
}

/// Tells a source to pause or to go on.
pub fn tell_paused<S: TranscriptSource + ?Sized>(source: &mut S, paused: bool)
    ensures
        told_to_pause::<S>(paused),
{
    source.set_paused(paused);
}

/// Tells a source that no more is to be collected.
pub fn tell_flush<S: TranscriptSource + ?Sized>(source: &mut S)
    ensures
        told_to_flush::<S>(),
{
    source.begin_flush();
}

} // verus!
