//! A meeting in progress as a value, and what each thing that happens makes of it.

use crate::citation::normalized;
use crate::events::{
    DomainEventView, Level, SegmentRevisionView, SessionEventView, TranscriptInputView, UsageView,
};
use crate::model::{Health, MeetingState, Origin, Timeline, Track, UNKNOWN_REMOTE};
use crate::store::{DocumentBlockView, MeetingId};
use crate::text::trimmed;
use vstd::prelude::*;

verus! {

// ---------------------------------------------------------------------------
// The parts
// ---------------------------------------------------------------------------

/// A segment of the transcript.
pub struct SegmentView {
    pub speaker_id: Seq<char>,
    pub text: Seq<char>,
    pub meeting_time_ms: u64,
    pub track: Track,
    /// When it was first seen, on both axes.
    pub first_seen: Timeline,
    pub revision: u32,
    pub origin: Origin,
    pub finalized: bool,
}

/// A speaker who has been heard.
pub struct SpeakerView {
    pub speaker_id: Seq<char>,
    pub ordinal: u32,
    pub proposed_name: Option<Seq<char>>,
    pub confirmed_name: Option<Seq<char>>,
    pub track: Track,
}

/// A note.
pub struct NoteView {
    pub note_id: u64,
    pub text: Seq<char>,
    pub meeting_time_ms: u64,
    pub captured_audio_ms: u64,
}

/// What became of a generation.
#[derive(Debug, Clone, Copy, PartialEq, Eq, Structural)]
pub enum RunState {
    Queued,
    Running,
    Completed,
    Failed,
}

/// A version of the document.
pub struct SnapshotView {
    pub version: u32,
    pub through_event_seq: u64,
    pub meeting_time_ms: u64,
    pub state: RunState,
    pub prompt: Seq<char>,
    pub run_id: i64,
}

/// A pause, open until the meeting goes on.
#[derive(Debug, Clone, Copy, PartialEq, Eq, Structural)]
pub struct ProjectedPause {
    pub from_ms: u64,
    pub to_ms: Option<u64>,
}

/// What audio is told apart by: the track, and where it lies in the recording. Names that a
/// provider gives change when it reconnects; this does not.
pub type Interval = (Track, u64, u64);

/// A meeting in progress.
pub struct SessionView {
    pub meeting_id: Option<MeetingId>,
    pub state: MeetingState,
    /// The number of the last decisive event.
    pub seq: u64,
    pub meeting_time_ms: u64,
    pub captured_audio_ms: u64,
    /// Up to when time has been accounted for.
    pub last_settled_ms: u64,
    pub next_note_id: u64,
    pub segments: Map<u64, SegmentView>,
    /// Which segment stands for which audio.
    pub intervals: Map<Interval, u64>,
    /// In the order in which they were first heard.
    pub speakers: Seq<SpeakerView>,
    pub notes: Seq<NoteView>,
    pub snapshots: Seq<SnapshotView>,
    pub pauses: Seq<ProjectedPause>,
    /// What waits to be told to whoever watches.
    pub pending: Seq<SessionEventView>,
    /// What waits to be written to the log.
    pub journal: Seq<(DomainEventView, Timeline)>,
    /// Why the log could not be written.
    pub journal_error: Option<Seq<char>>,
    pub next_document_id: i64,
    pub next_run_id: i64,
    pub document_id: Option<i64>,
    pub mic_health: Health,
    pub stt_health: Health,
    pub rng: u32,
    /// Whether the source was last told to pause.
    pub source_paused: bool,
    /// Whether the source was told that no more is to be collected.
    pub source_flushing: bool,
}

/// What a command comes to.
pub struct ReceiptView {
    pub accepted: bool,
    pub seq: Option<u64>,
    pub note: Option<Seq<char>>,
}

pub open spec fn accepted(seq: u64) -> ReceiptView {
    ReceiptView { accepted: true, seq: Some(seq), note: None }
}

pub open spec fn rejected(note: Seq<char>) -> ReceiptView {
    ReceiptView { accepted: false, seq: None, note: Some(note) }
}

/// The names from which the numbers of documents and runs go on.
#[derive(Debug, Clone, Copy, PartialEq, Eq, Default, Structural)]
pub struct IdSeeds {
    pub document_id: i64,
    pub run_id: i64,
}

/// What a new version of the document is made from.
#[derive(Debug, Clone, Copy, PartialEq, Eq, Structural)]
pub struct SnapshotWork {
    pub version: u32,
    /// The last event that it covers.
    pub through: u64,
    /// The version that it revises.
    pub revise_of: Option<u32>,
}

/// How long a window is at least, in milliseconds.
pub const BATCH_MS: u64 = 100;

// ---------------------------------------------------------------------------
// Looking things up
// ---------------------------------------------------------------------------

/// Whether a speaker has been heard.
pub open spec fn is_known(speakers: Seq<SpeakerView>, id: Seq<char>) -> bool {
    exists|i: int| 0 <= i < speakers.len() && (#[trigger] speakers[i]).speaker_id == id
}

/// The speakers with a name confirmed for one of them.
pub open spec fn with_name(speakers: Seq<SpeakerView>, id: Seq<char>, name: Seq<char>) -> Seq<
    SpeakerView,
> {
    Seq::new(
        speakers.len(),
        |i: int|
            if speakers[i].speaker_id == id {
                SpeakerView { confirmed_name: Some(name), ..speakers[i] }
            } else {
                speakers[i]
            },
    )
}

/// The last version that was completed.
pub open spec fn last_completed(snapshots: Seq<SnapshotView>) -> Option<SnapshotView>
    decreases snapshots.len(),
{
    if snapshots.len() == 0 {
        None
    } else if snapshots.last().state is Completed {
        Some(snapshots.last())
    } else {
        last_completed(snapshots.drop_last())
    }
}

/// Where a version stands, or the number of versions where there is none of that number.
pub open spec fn version_at(snapshots: Seq<SnapshotView>, version: u32) -> int
    decreases snapshots.len(),
{
    if snapshots.len() == 0 || snapshots[0].version == version {
        0
    } else {
        1 + version_at(snapshots.skip(1), version)
    }
}

/// The versions whose generation has not ended.
pub open spec fn unfinished(snapshots: Seq<SnapshotView>) -> Seq<u32>
    decreases snapshots.len(),
{
    if snapshots.len() == 0 {
        Seq::empty()
    } else {
        let before = unfinished(snapshots.drop_last());
        if snapshots.last().state is Queued || snapshots.last().state is Running {
            before.push(snapshots.last().version)
        } else {
            before
        }
    }
}

/// The pauses when the meeting goes from one state to another: one begins with a pause, and
/// whatever ends a pause closes it.
pub open spec fn pauses_after(
    pauses: Seq<ProjectedPause>,
    from: MeetingState,
    to: MeetingState,
    now: u64,
) -> Seq<ProjectedPause> {
    if to is Paused {
        pauses.push(ProjectedPause { from_ms: now, to_ms: None })
    } else if from is Paused && pauses.len() > 0 && pauses.last().to_ms is None {
        pauses.drop_last().push(ProjectedPause { from_ms: pauses.last().from_ms, to_ms: Some(now) })
    } else {
        pauses
    }
}

/// What follows a number in the sequence that levels are drawn from.
pub open spec fn next_draw(x: u32) -> u32 {
    let a = x ^ (x << 13);
    let b = a ^ (a >> 17);
    b ^ (b << 5)
}

// ---------------------------------------------------------------------------
// What happens
// ---------------------------------------------------------------------------

/// The segment as it is logged, with the interval in which it was spoken.
pub open spec fn revision_of(
    id: u64,
    r: SegmentView,
    track: Track,
    end: Timeline,
) -> SegmentRevisionView {
    SegmentRevisionView {
        segment_id: id,
        revision: r.revision,
        text: r.text,
        speaker_id: Some(r.speaker_id),
        track,
        meeting_start_ms: r.first_seen.meeting_time_ms,
        meeting_end_ms: end.meeting_time_ms,
        captured_start_ms: r.first_seen.captured_audio_ms,
        captured_end_ms: end.captured_audio_ms,
        origin: r.origin,
    }
}

impl SessionView {
    /// The present moment, on both axes.
    pub open spec fn now(self) -> Timeline {
        Timeline { meeting_time_ms: self.meeting_time_ms, captured_audio_ms: self.captured_audio_ms }
    }

    /// The number of the next decisive event.
    pub open spec fn next_seq(self) -> u64 {
        (self.seq + 1) as u64
    }

    /// A decisive event: it takes the next number, and both tellings of it are kept.
    pub open spec fn recorded(self, domain: DomainEventView, ui: SessionEventView) -> Self {
        SessionView {
            seq: self.next_seq(),
            pending: self.pending.push(ui),
            journal: self.journal.push((domain, self.now())),
            ..self
        }
    }

    /// A passing event: it is told, and no more.
    pub open spec fn told(self, ui: SessionEventView) -> Self {
        SessionView { pending: self.pending.push(ui), ..self }
    }

    /// How much time has passed since the last account.
    pub open spec fn passed(self, elapsed_ms: u64) -> u64 {
        if elapsed_ms > self.last_settled_ms {
            (elapsed_ms - self.last_settled_ms) as u64
        } else {
            0
        }
    }

    /// Time accounted for. Meeting time goes on through pauses and until the end; recorded
    /// time only while recording.
    pub open spec fn settled(self, elapsed_ms: u64) -> Self {
        let delta = self.passed(elapsed_ms);
        SessionView {
            last_settled_ms: elapsed_ms,
            meeting_time_ms: if self.state is Recording || self.state is Paused
                || self.state is Stopping || self.state is Finalizing {
                (self.meeting_time_ms + delta) as u64
            } else {
                self.meeting_time_ms
            },
            captured_audio_ms: if self.state is Recording {
                (self.captured_audio_ms + delta) as u64
            } else {
                self.captured_audio_ms
            },
            ..self
        }
    }

    /// The meeting goes to another state.
    pub open spec fn moved_to(self, state: MeetingState) -> Self {
        SessionView {
            pauses: pauses_after(self.pauses, self.state, state, self.meeting_time_ms),
            state,
            ..self
        }.recorded(
            DomainEventView::MeetingStateChanged { state },
            SessionEventView::MeetingStateChanged {
                seq: self.next_seq(),
                state,
                meeting_time_ms: self.meeting_time_ms,
                captured_audio_ms: self.captured_audio_ms,
            },
        )
    }

    // -- Transcripts --------------------------------------------------------

    /// A speaker is heard. The first time, this is an event.
    pub open spec fn heard(self, id: Seq<char>, track: Track) -> Self {
        if is_known(self.speakers, id) {
            self
        } else {
            let ordinal = (self.speakers.len() + 1) as u32;
            SessionView {
                speakers: self.speakers.push(
                    SpeakerView {
                        speaker_id: id,
                        ordinal,
                        proposed_name: None,
                        confirmed_name: None,
                        track,
                    },
                ),
                ..self
            }.recorded(
                DomainEventView::SpeakerProposed {
                    speaker_id: id,
                    ordinal,
                    proposed_name: None,
                    provider_labels: seq![id],
                },
                SessionEventView::SpeakerProposed {
                    seq: self.next_seq(),
                    speaker_id: id,
                    ordinal,
                    proposed_name: None,
                    track,
                },
            )
        }
    }

    /// Whether a segment takes no more of what a provider gives: it is final, or the user
    /// has written it.
    pub open spec fn is_closed(self, id: u64) -> bool {
        self.segments.contains_key(id) && (self.segments[id].finalized || self.segments[id].origin
            is User)
    }

    /// A segment is still being spoken. It is shown, and no more.
    pub open spec fn partial(
        self,
        id: u64,
        speaker_id: Seq<char>,
        text: Seq<char>,
        track: Track,
    ) -> Self {
        let s = self.heard(speaker_id, track);
        if s.is_closed(id) {
            s
        } else {
            let rec = if s.segments.contains_key(id) {
                SegmentView { text, ..s.segments[id] }
            } else {
                SegmentView {
                    speaker_id,
                    text,
                    meeting_time_ms: s.meeting_time_ms,
                    track,
                    first_seen: s.now(),
                    revision: 0,
                    origin: Origin::Provider,
                    finalized: false,
                }
            };
            SessionView { segments: s.segments.insert(id, rec), ..s }.told(
                SessionEventView::TranscriptPartial {
                    segment_id: id,
                    speaker_id,
                    text,
                    meeting_time_ms: s.meeting_time_ms,
                },
            )
        }
    }

    /// A provider gives other words for audio that a segment already stands for.
    pub open spec fn revised(self, id: u64, text: Seq<char>, track: Track) -> Self {
        if !self.segments.contains_key(id) || self.segments[id].origin is User
            || self.segments[id].revision == u32::MAX {
            self
        } else {
            let old = self.segments[id];
            let rec = SegmentView { text, revision: (old.revision + 1) as u32, ..old };
            SessionView { segments: self.segments.insert(id, rec), ..self }.recorded(
                DomainEventView::TranscriptSegmentRevised {
                    segment: revision_of(id, rec, track, self.now()),
                },
                SessionEventView::TranscriptFinalized {
                    seq: self.next_seq(),
                    segment_id: id,
                    revision: rec.revision,
                    origin: Origin::Provider,
                    speaker_id: rec.speaker_id,
                    text,
                    meeting_time_ms: rec.meeting_time_ms,
                    captured_audio_ms: self.captured_audio_ms,
                },
            )
        }
    }

    /// When a segment was first seen.
    pub open spec fn first_seen(self, id: u64) -> Timeline {
        if self.segments.contains_key(id) {
            self.segments[id].first_seen
        } else {
            self.now()
        }
    }

    /// The audio that a final segment stands for.
    pub open spec fn interval(self, id: u64, track: Track, span: Option<(u64, u64)>) -> Interval {
        match span {
            Some((start, end)) => (track, start, end),
            None => (track, self.first_seen(id).captured_audio_ms, self.captured_audio_ms),
        }
    }

    /// When a final segment began: by its place in the audio, where the source knows it, and
    /// not by when it came.
    pub open spec fn began(self, id: u64, span: Option<(u64, u64)>) -> Timeline {
        match span {
            Some((start, _)) => {
                let behind = if self.captured_audio_ms > start {
                    self.captured_audio_ms - start
                } else {
                    0
                };
                Timeline {
                    meeting_time_ms: if self.meeting_time_ms > behind {
                        (self.meeting_time_ms - behind) as u64
                    } else {
                        0
                    },
                    captured_audio_ms: start,
                }
            },
            None => self.first_seen(id),
        }
    }

    /// A final segment is kept: it stands for its audio from now on, and its speaker is known.
    pub open spec fn kept(
        self,
        id: u64,
        speaker_id: Seq<char>,
        text: Seq<char>,
        track: Track,
        key: Interval,
        start: Timeline,
    ) -> Self {
        let rec = SegmentView {
            speaker_id,
            text,
            meeting_time_ms: start.meeting_time_ms,
            track,
            first_seen: start,
            revision: 1,
            origin: Origin::Provider,
            finalized: true,
        };
        let s = SessionView { intervals: self.intervals.insert(key, id), ..self }.heard(
            speaker_id,
            track,
        );
        SessionView { segments: s.segments.insert(id, rec), ..s }.recorded(
            DomainEventView::TranscriptSegmentFinalized {
                segment: revision_of(id, rec, track, s.now()),
            },
            SessionEventView::TranscriptFinalized {
                seq: s.next_seq(),
                segment_id: id,
                revision: 1,
                origin: Origin::Provider,
                speaker_id,
                text,
                meeting_time_ms: start.meeting_time_ms,
                captured_audio_ms: s.captured_audio_ms,
            },
        )
    }

    /// A segment is final. The same audio again is no new segment: with the same words it is
    /// dropped, with other words it is a new version of the segment that is there. Only what
    /// is kept makes its speaker known.
    pub open spec fn finalized(
        self,
        id: u64,
        speaker_id: Seq<char>,
        text: Seq<char>,
        track: Track,
        span: Option<(u64, u64)>,
    ) -> Self {
        let key = self.interval(id, track, span);
        if self.is_closed(id) {
            self
        } else if self.intervals.contains_key(key) && self.intervals[key] != id {
            let other = self.intervals[key];
            if self.segments.contains_key(other) && normalized(self.segments[other].text)
                == normalized(text) {
                self
            } else {
                self.revised(other, text, track)
            }
        } else {
            self.kept(id, speaker_id, text, track, key, self.began(id, span))
        }
    }

    /// Whether there are numbers left for what a source can give at once.
    pub open spec fn can_take_in(self) -> bool {
        self.seq < u64::MAX - 1 && self.speakers.len() < u32::MAX
    }

    /// What a source gives is taken in.
    pub open spec fn taken_in(self, input: TranscriptInputView) -> Self {
        if !self.can_take_in() {
            self
        } else {
            match input {
                TranscriptInputView::Partial { segment_id, speaker_id, text, track } =>
                    self.partial(segment_id, speaker_id, text, track),
                TranscriptInputView::Final { segment_id, speaker_id, text, track, audio_span } =>
                    self.finalized(segment_id, speaker_id, text, track, audio_span),
            }
        }
    }

    /// All that a source gives is taken in, one after another.
    pub open spec fn all_taken_in(self, inputs: Seq<TranscriptInputView>) -> Self
        decreases inputs.len(),
    {
        if inputs.len() == 0 {
            self
        } else {
            self.all_taken_in(inputs.drop_last()).taken_in(inputs.last())
        }
    }

    // -- Windows ------------------------------------------------------------

    /// The levels that are shown, and what levels are drawn from after that.
    pub open spec fn levels(self, measured: bool) -> (Level, Level, u32) {
        if !(self.state is Recording) {
            (Level::Silent, Level::Silent, self.rng)
        } else if measured {
            (
                if self.mic_health is Healthy {
                    Level::Measured
                } else {
                    Level::Silent
                },
                Level::Measured,
                self.rng,
            )
        } else if self.mic_health is Healthy {
            let a = next_draw(self.rng);
            let b = next_draw(a);
            (
                Level::Drawn((1500 + 7 * (a % 1000)) as u32),
                Level::Drawn((2000 + 7 * (b % 1000)) as u32),
                b,
            )
        } else {
            let a = next_draw(self.rng);
            (Level::Silent, Level::Drawn((2000 + 7 * (a % 1000)) as u32), a)
        }
    }

    /// Whether the meeting is one in which windows are shown.
    pub open spec fn is_shown(self) -> bool {
        !(self.state is Idle || self.state is Completed)
    }

    /// A window begins: time is accounted for, and how well things work is told.
    pub open spec fn window_begun(self, elapsed_ms: u64, measured: bool) -> Self {
        let s = self.settled(elapsed_ms);
        if !s.is_shown() {
            s
        } else {
            let (mic, system, rng) = s.levels(measured);
            SessionView { rng, ..s }.told(
                SessionEventView::TrackActivity {
                    mic_level: mic,
                    system_level: system,
                    mic_health: s.mic_health,
                    system_health: Health::Healthy,
                    stt_health: s.stt_health,
                },
            )
        }
    }

    /// For how long the source is to go on in a window, if it is asked at all: while
    /// recording, and after the end until everything has come.
    pub open spec fn to_poll(self, elapsed_ms: u64) -> Option<u64> {
        if (self.state is Recording || self.state is Finalizing) && self.stt_health is Healthy {
            Some(
                if self.passed(elapsed_ms) > BATCH_MS {
                    self.passed(elapsed_ms)
                } else {
                    BATCH_MS
                },
            )
        } else {
            None
        }
    }

    /// A window ends: what the source gave is taken in, and if the meeting waited for the
    /// last of it, it is over.
    pub open spec fn window_ended(self, inputs: Seq<TranscriptInputView>, drained: bool) -> Self {
        let s = self.all_taken_in(inputs);
        if s.state is Finalizing && drained && s.seq < u64::MAX {
            s.moved_to(MeetingState::Completed)
        } else {
            s
        }
    }

    /// One window, in which the source answers so.
    pub open spec fn window(
        self,
        elapsed_ms: u64,
        measured: bool,
        inputs: Seq<TranscriptInputView>,
        drained: bool,
    ) -> Self {
        let s = self.window_begun(elapsed_ms, measured);
        if self.to_poll(elapsed_ms) is Some {
            s.window_ended(inputs, drained)
        } else {
            s
        }
    }

    // -- Commands -----------------------------------------------------------

    /// Whether there are numbers left for what a command can need.
    pub open spec fn has_room(self) -> bool {
        &&& self.seq < u64::MAX - 1
        &&& self.next_note_id < u64::MAX
        &&& self.snapshots.len() < u32::MAX
        &&& self.next_document_id < i64::MAX
        &&& self.next_run_id < i64::MAX
    }

    /// What is said to a command where the log cannot be written.
    pub open spec fn refusal(self) -> Option<ReceiptView> {
        match self.journal_error {
            Some(e) => Some(rejected("內容無法寫入本機資料庫："@ + e)),
            None => None,
        }
    }

    /// A meeting is started.
    pub open spec fn started(self, meeting: MeetingId, seeds: IdSeeds) -> (Self, ReceiptView) {
        if self.state is Idle {
            let s = SessionView {
                meeting_id: Some(meeting),
                next_document_id: (seeds.document_id + 1) as i64,
                next_run_id: (seeds.run_id + 1) as i64,
                ..self
            }.moved_to(MeetingState::Recording);
            (s, accepted(s.seq))
        } else if self.state is Completed {
            (self, rejected("會議已結束，請建立新會議"@))
        } else {
            (self, rejected("會議已在進行中"@))
        }
    }

    pub open spec fn paused(self) -> (Self, ReceiptView) {
        if self.state is Recording {
            let s = SessionView { source_paused: true, ..self }.moved_to(MeetingState::Paused);
            (s, accepted(s.seq))
        } else {
            (self, rejected("目前不在錄音中"@))
        }
    }

    pub open spec fn resumed(self) -> (Self, ReceiptView) {
        if self.state is Paused {
            let s = SessionView { source_paused: false, ..self }.moved_to(MeetingState::Recording);
            (s, accepted(s.seq))
        } else {
            (self, rejected("目前不在暫停狀態"@))
        }
    }

    /// The meeting is stopped: it goes as far as waiting for the last words. A window ends it.
    pub open spec fn stopped(self) -> (Self, ReceiptView) {
        if self.state.is_live() {
            let s = SessionView {
                source_flushing: true,
                ..self.moved_to(MeetingState::Stopping)
            }.moved_to(MeetingState::Finalizing);
            (s, accepted(s.seq))
        } else {
            (self, rejected("會議尚未開始或已結束"@))
        }
    }

    pub open spec fn noted(self, text: Seq<char>) -> (Self, ReceiptView) {
        let t = trimmed(text);
        if t.len() == 0 {
            (self, rejected("筆記內容為空"@))
        } else if !self.state.is_live() {
            (self, rejected("目前的會議狀態不接受筆記"@))
        } else if self.refusal() is Some {
            (self, self.refusal()->0)
        } else {
            let id = self.next_note_id;
            let s = SessionView {
                next_note_id: (id + 1) as u64,
                notes: self.notes.push(
                    NoteView {
                        note_id: id,
                        text: t,
                        meeting_time_ms: self.meeting_time_ms,
                        captured_audio_ms: self.captured_audio_ms,
                    },
                ),
                ..self
            }.recorded(
                DomainEventView::NoteAdded { note_id: id, text: t },
                SessionEventView::NoteAdded {
                    seq: self.next_seq(),
                    note_id: id,
                    text: t,
                    meeting_time_ms: self.meeting_time_ms,
                    captured_audio_ms: self.captured_audio_ms,
                },
            );
            (s, accepted(s.seq))
        }
    }

    /// A speaker is named. This stays open after the meeting. Voices that cannot be told
    /// apart cannot be named: the name would make several people one.
    pub open spec fn named(self, speaker_id: Seq<char>, name: Seq<char>) -> (Self, ReceiptView) {
        let n = trimmed(name);
        if self.state is Idle || self.state is Stopping {
            (self, rejected("目前的會議狀態不接受語者確認"@))
        } else if n.len() == 0 {
            (self, rejected("語者名稱為空"@))
        } else if self.refusal() is Some {
            (self, self.refusal()->0)
        } else if speaker_id == UNKNOWN_REMOTE@ {
            (self, rejected("遠端不是單一語者，不接受命名"@))
        } else if !is_known(self.speakers, speaker_id) {
            (self, rejected("尚未聽到這位語者發言"@))
        } else {
            let s = SessionView {
                speakers: with_name(self.speakers, speaker_id, n),
                ..self
            }.recorded(
                DomainEventView::SpeakerConfirmed { speaker_id, name: n },
                SessionEventView::SpeakerConfirmed { seq: self.next_seq(), speaker_id, name: n },
            );
            (s, accepted(s.seq))
        }
    }

    /// The user writes a segment anew. This is a new version, over the same audio.
    pub open spec fn edited(self, id: u64, text: Seq<char>) -> (Self, ReceiptView) {
        let t = trimmed(text);
        if t.len() == 0 {
            (self, rejected("修訂內容為空"@))
        } else if !self.state.is_live() {
            (self, rejected("目前的會議狀態不接受修訂"@))
        } else if self.refusal() is Some {
            (self, self.refusal()->0)
        } else if !self.segments.contains_key(id) {
            (self, rejected("找不到這個逐字稿片段"@))
        } else {
            let old = self.segments[id];
            let rec = SegmentView {
                text: t,
                revision: (old.revision + 1) as u32,
                origin: Origin::User,
                ..old
            };
            let end = Timeline {
                meeting_time_ms: if rec.meeting_time_ms > rec.first_seen.meeting_time_ms {
                    rec.meeting_time_ms
                } else {
                    rec.first_seen.meeting_time_ms
                },
                captured_audio_ms: rec.first_seen.captured_audio_ms,
            };
            let s = SessionView { segments: self.segments.insert(id, rec), ..self }.recorded(
                DomainEventView::TranscriptSegmentEdited {
                    segment: revision_of(id, rec, rec.track, end),
                },
                SessionEventView::TranscriptEdited {
                    seq: self.next_seq(),
                    segment_id: id,
                    revision: rec.revision,
                    origin: Origin::User,
                    text: t,
                },
            );
            (s, accepted(s.seq))
        }
    }

    /// A version of the document is begun: it covers what has happened so far, and not that it
    /// was begun.
    pub open spec fn version_begun(self, state: RunState, parent: Option<i64>, prompt: Seq<char>) -> Self {
        let version = (self.snapshots.len() + 1) as u32;
        let document_id = match self.document_id {
            Some(id) => id,
            None => self.next_document_id,
        };
        SessionView {
            snapshots: self.snapshots.push(
                SnapshotView {
                    version,
                    through_event_seq: self.seq,
                    meeting_time_ms: self.meeting_time_ms,
                    state,
                    prompt,
                    run_id: self.next_run_id,
                },
            ),
            document_id: Some(document_id),
            next_document_id: if self.document_id is Some {
                self.next_document_id
            } else {
                (self.next_document_id + 1) as i64
            },
            next_run_id: (self.next_run_id + 1) as i64,
            ..self
        }.recorded(
            DomainEventView::SnapshotCreated {
                document_id,
                run_id: self.next_run_id,
                parent_run_id: parent,
                version_no: version,
                purpose: "meeting-summary"@,
                title: "會議摘要"@,
                through_event_seq: self.seq,
                prompt,
            },
            SessionEventView::SnapshotCreated {
                seq: self.next_seq(),
                version,
                through_event_seq: self.seq,
                meeting_time_ms: self.meeting_time_ms,
                prompt,
            },
        )
    }

    /// A summary is asked for. It revises the last version that was completed: a failed one
    /// has nothing to revise.
    pub open spec fn snapshot_taken(self, prompt: Seq<char>) -> (
        Self,
        ReceiptView,
        Option<SnapshotWork>,
    ) {
        if !(self.state.is_live() || self.state is Completed) {
            (self, rejected("目前的會議狀態不接受快照"@), None)
        } else if self.refusal() is Some {
            (self, self.refusal()->0, None)
        } else {
            let base = last_completed(self.snapshots);
            let s = self.version_begun(
                RunState::Running,
                match base {
                    Some(b) => Some(b.run_id),
                    None => None,
                },
                prompt,
            );
            (
                s,
                accepted(s.seq),
                Some(
                    SnapshotWork {
                        version: (self.snapshots.len() + 1) as u32,
                        through: self.seq,
                        revise_of: match base {
                            Some(b) => Some(b.version),
                            None => None,
                        },
                    },
                ),
            )
        }
    }

    /// A generation has ended, well or badly.
    pub open spec fn generation_ended(
        self,
        version: u32,
        outcome: Result<(Seq<DocumentBlockView>, UsageView), Seq<char>>,
    ) -> Self {
        let at = version_at(self.snapshots, version);
        if at < 0 || at >= self.snapshots.len() {
            self
        } else {
            let old = self.snapshots[at];
            let s = SessionView {
                snapshots: self.snapshots.update(
                    at,
                    SnapshotView {
                        state: if outcome is Ok {
                            RunState::Completed
                        } else {
                            RunState::Failed
                        },
                        ..old
                    },
                ),
                ..self
            };
            match outcome {
                Ok((blocks, usage)) => s.recorded(
                    DomainEventView::GenerationCompleted { run_id: old.run_id, blocks, usage },
                    SessionEventView::GenerationCompleted { seq: self.next_seq(), version },
                ),
                Err(reason) => s.recorded(
                    DomainEventView::GenerationFailed { run_id: old.run_id, reason },
                    SessionEventView::GenerationFailed { seq: self.next_seq(), version, reason },
                ),
            }
        }
    }

    /// The generations of these versions have failed.
    pub open spec fn all_failed(self, versions: Seq<u32>, reason: Seq<char>) -> Self
        decreases versions.len(),
    {
        if versions.len() == 0 {
            self
        } else {
            self.all_failed(versions.drop_last(), reason).generation_ended(
                versions.last(),
                Err(reason),
            )
        }
    }

    /// What is still being generated is given up.
    pub open spec fn abandoned(self) -> Self {
        self.all_failed(unfinished(self.snapshots), "使用者在生成完成前開了新會議"@)
    }

    /// Something is made to go wrong, or right again.
    pub open spec fn faulted(self, kind: Seq<char>) -> (Self, ReceiptView) {
        if kind == "micLost"@ {
            (SessionView { mic_health: Health::Lost, ..self }, accepted(self.seq))
        } else if kind == "micRestored"@ {
            (SessionView { mic_health: Health::Healthy, ..self }, accepted(self.seq))
        } else if kind == "sttDown"@ {
            (SessionView { stt_health: Health::Degraded, ..self }, accepted(self.seq))
        } else if kind == "sttUp"@ {
            (SessionView { stt_health: Health::Healthy, ..self }, accepted(self.seq))
        } else if kind == "generationFailed"@ {
            if !self.state.is_live() {
                (self, rejected("目前的會議狀態不接受生成"@))
            } else {
                let s = self.version_begun(RunState::Failed, None, ""@).generation_ended(
                    (self.snapshots.len() + 1) as u32,
                    Err("Provider 回報限流"@),
                );
                (s, accepted(s.seq))
            }
        } else {
            (self, rejected("未知的注入類型"@))
        }
    }

    // -- The log ------------------------------------------------------------

    /// The log could not be written: the reason is kept, the first one if there are several,
    /// and what could not be written comes again before what has happened since.
    pub open spec fn log_failed(
        self,
        reason: Seq<char>,
        batch: Seq<(DomainEventView, Timeline)>,
    ) -> Self {
        SessionView {
            journal_error: match self.journal_error {
                Some(first) => Some(first),
                None => Some(reason),
            },
            journal: batch + self.journal,
            ..self
        }
    }
}

/// A meeting before it has begun.
pub open spec fn blank_session() -> SessionView {
    SessionView {
        meeting_id: None,
        state: MeetingState::Idle,
        seq: 0,
        meeting_time_ms: 0,
        captured_audio_ms: 0,
        last_settled_ms: 0,
        next_note_id: 1,
        segments: Map::empty(),
        intervals: Map::empty(),
        speakers: Seq::empty(),
        notes: Seq::empty(),
        snapshots: Seq::empty(),
        pauses: Seq::empty(),
        pending: Seq::empty(),
        journal: Seq::empty(),
        journal_error: None,
        next_document_id: 1,
        next_run_id: 1,
        document_id: None,
        mic_health: Health::Healthy,
        stt_health: Health::Healthy,
        rng: 0x2545_f491,
        source_paused: false,
        source_flushing: false,
    }
}

} // verus!
