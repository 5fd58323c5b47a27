//! A meeting in progress: commands go in, batches of events come out.
//!
//! Time is not read here. Whoever holds a session says how many milliseconds have passed,
//! and says so before every change, so that changes happen at the moment they happen and
//! not at the next look.

use crate::citation::normalize_for_match;
use crate::clock::{stamp_millis, wall_clock_millis};
use crate::events::{
    drained_gives, is_drained, is_measured, journal_views, journal_views_push, measures_gives,
    poll_gives, poll_source, tell_flush, tell_paused, told_to_flush, told_to_pause, DomainEvent,
    Level, SegmentRevision, SessionEvent, SessionEventView, TranscriptInput, TranscriptInputView,
    TranscriptSource, Usage,
};
use crate::fixture_source::FixtureSource;
use crate::model::{Health, MeetingState, Origin, Timeline, Track, UNKNOWN_REMOTE};
use crate::session_model::{
    accepted, blank_session, is_known, last_completed, next_draw, rejected, unfinished, version_at,
    with_name, IdSeeds, Interval, NoteView, ProjectedPause, ReceiptView, RunState, SegmentView,
    SessionView, SnapshotView, SnapshotWork, SpeakerView, BATCH_MS,
};
use crate::store::{DocumentBlock, MeetingId};
use crate::text::{copy_opt, opt_view, same, trim, views, views_push};
use std::collections::HashMap;
use vstd::prelude::*;
use vstd::string::*;

verus! {

broadcast use {vstd::std_specs::hash::group_hash_axioms, views_push, journal_views_push};

// ---------------------------------------------------------------------------
// Receipts
// ---------------------------------------------------------------------------

/// What a command comes to.
#[derive(Debug, PartialEq, Eq)]
pub struct CommandReceipt {
    pub accepted: bool,
    pub seq: Option<u64>,
    pub note: Option<String>,
}

impl View for CommandReceipt {
    type V = ReceiptView;

    open spec fn view(&self) -> ReceiptView {
        ReceiptView { accepted: self.accepted, seq: self.seq, note: opt_view(self.note) }
    }
}

impl CommandReceipt {
    /// The command was carried out; `seq` is the number of what it did.
    pub fn ok(seq: u64) -> (r: Self)
        ensures
            r@ == accepted(seq),
    {
        Self { accepted: true, seq: Some(seq), note: None }
    }

    /// The command was refused, for the reason given.
    pub fn rejected(note: &str) -> (r: Self)
        ensures
            r@ == rejected(note@),
    {
        Self { accepted: false, seq: None, note: Some(note.to_owned()) }
    }
}

// ---------------------------------------------------------------------------
// The parts
// ---------------------------------------------------------------------------

struct SegmentRecord {
    speaker_id: String,
    text: String,
    meeting_time_ms: u64,
    track: Track,
    first_seen: Timeline,
    revision: u32,
    origin: Origin,
    finalized: bool,
}

impl View for SegmentRecord {
    type V = SegmentView;

    closed spec fn view(&self) -> SegmentView {
        SegmentView {
            speaker_id: self.speaker_id@,
            text: self.text@,
            meeting_time_ms: self.meeting_time_ms,
            track: self.track,
            first_seen: self.first_seen,
            revision: self.revision,
            origin: self.origin,
            finalized: self.finalized,
        }
    }
}

struct SpeakerRecord {
    speaker_id: String,
    ordinal: u32,
    proposed_name: Option<String>,
    confirmed_name: Option<String>,
    track: Track,
}

impl View for SpeakerRecord {
    type V = SpeakerView;

    closed spec fn view(&self) -> SpeakerView {
        SpeakerView {
            speaker_id: self.speaker_id@,
            ordinal: self.ordinal,
            proposed_name: opt_view(self.proposed_name),
            confirmed_name: opt_view(self.confirmed_name),
            track: self.track,
        }
    }
}

struct NoteRecord {
    note_id: u64,
    text: String,
    meeting_time_ms: u64,
    captured_audio_ms: u64,
}

impl View for NoteRecord {
    type V = NoteView;

    closed spec fn view(&self) -> NoteView {
        NoteView {
            note_id: self.note_id,
            text: self.text@,
            meeting_time_ms: self.meeting_time_ms,
            captured_audio_ms: self.captured_audio_ms,
        }
    }
}

struct SnapshotRecord {
    version: u32,
    through_event_seq: u64,
    meeting_time_ms: u64,
    state: RunState,
    prompt: String,
    run_id: i64,
}

impl View for SnapshotRecord {
    type V = SnapshotView;

    closed spec fn view(&self) -> SnapshotView {
        SnapshotView {
            version: self.version,
            through_event_seq: self.through_event_seq,
            meeting_time_ms: self.meeting_time_ms,
            state: self.state,
            prompt: self.prompt@,
            run_id: self.run_id,
        }
    }
}

/// The segments by their numbers.
spec fn segment_map(m: Map<u64, SegmentRecord>) -> Map<u64, SegmentView> {
    m.map_values(|r: SegmentRecord| r@)
}

proof fn lemma_segment_map_insert(m: Map<u64, SegmentRecord>, id: u64, r: SegmentRecord)
    ensures
        segment_map(m.insert(id, r)) == segment_map(m).insert(id, r@),
{
    assert(segment_map(m.insert(id, r)) =~= segment_map(m).insert(id, r@));
}

/// Which segment stands for which audio, by a list in which later entries win.
spec fn interval_map(list: Seq<(Interval, u64)>) -> Map<Interval, u64>
    decreases list.len(),
{
    if list.len() == 0 {
        Map::empty()
    } else {
        interval_map(list.drop_last()).insert(list.last().0, list.last().1)
    }
}

fn same_interval(a: Interval, b: Interval) -> (r: bool)
    ensures
        r == (a == b),
{
    a.0 == b.0 && a.1 == b.1 && a.2 == b.2
}

fn find_interval(list: &Vec<(Interval, u64)>, key: Interval) -> (r: Option<u64>)
    ensures
        r is Some <==> interval_map(list@).contains_key(key),
        r matches Some(id) ==> id == interval_map(list@)[key],
{
    let mut i: usize = list.len();
    assert(list@.take(i as int) =~= list@);
    while i > 0
        invariant
            i <= list@.len(),
            interval_map(list@).contains_key(key) == interval_map(
                list@.take(i as int),
            ).contains_key(key),
            interval_map(list@).contains_key(key) ==> interval_map(list@)[key] == interval_map(
                list@.take(i as int),
            )[key],
        decreases i,
    {
        let ghost part = list@.take(i as int);
        assert(part.last() == list@[i - 1]);
        assert(part.drop_last() =~= list@.take(i - 1));
        if same_interval(list[i - 1].0, key) {
            return Some(list[i - 1].1);
        }
        i = i - 1;
    }
    None
}

/// The source of transcripts, with what it was last told.
struct SourceSlot {
    source: Box<dyn TranscriptSource>,
    paused: bool,
    flushing: bool,
}

impl SourceSlot {
    fn new(source: Box<dyn TranscriptSource>) -> (r: Self)
        ensures
            r.source =~= source,
            !r.paused,
            !r.flushing,
    {
        SourceSlot { source, paused: false, flushing: false }
    }

    /// Tells the source to pause or to go on.
    fn set_paused(&mut self, paused: bool)
        ensures
            final(self).paused == paused,
            final(self).flushing == old(self).flushing,
            told_to_pause::<dyn TranscriptSource>(paused),
    {
        tell_paused(&mut *self.source, paused);
        self.paused = paused;
    }

    /// Tells the source that no more is to be collected.
    fn begin_flush(&mut self)
        ensures
            final(self).flushing,
            final(self).paused == old(self).paused,
            told_to_flush::<dyn TranscriptSource>(),
    {
        tell_flush(&mut *self.source);
        self.flushing = true;
    }
}

/// A meeting in progress.
pub struct Session {
    meeting_id: Option<MeetingId>,
    state: MeetingState,
    seq: u64,
    meeting_time_ms: u64,
    captured_audio_ms: u64,
    last_settled_ms: u64,
    next_note_id: u64,
    segments: HashMap<u64, SegmentRecord>,
    intervals: Vec<(Interval, u64)>,
    speakers: Vec<SpeakerRecord>,
    notes: Vec<NoteRecord>,
    snapshots: Vec<SnapshotRecord>,
    pauses: Vec<ProjectedPause>,
    pending: Vec<SessionEvent>,
    journal: Vec<(DomainEvent, Timeline)>,
    journal_error: Option<String>,
    next_document_id: i64,
    next_run_id: i64,
    document_id: Option<i64>,
    source: SourceSlot,
    mic_health: Health,
    stt_health: Health,
    rng: u32,
}

impl View for Session {
    type V = SessionView;

    closed spec fn view(&self) -> SessionView {
        SessionView {
            meeting_id: self.meeting_id,
            state: self.state,
            seq: self.seq,
            meeting_time_ms: self.meeting_time_ms,
            captured_audio_ms: self.captured_audio_ms,
            last_settled_ms: self.last_settled_ms,
            next_note_id: self.next_note_id,
            segments: segment_map(self.segments@),
            intervals: interval_map(self.intervals@),
            speakers: views(self.speakers@),
            notes: views(self.notes@),
            snapshots: views(self.snapshots@),
            pauses: self.pauses@,
            pending: views(self.pending@),
            journal: journal_views(self.journal@),
            journal_error: opt_view(self.journal_error),
            next_document_id: self.next_document_id,
            next_run_id: self.next_run_id,
            document_id: self.document_id,
            mic_health: self.mic_health,
            stt_health: self.stt_health,
            rng: self.rng,
            source_paused: self.source.paused,
            source_flushing: self.source.flushing,
        }
    }
}

impl SegmentRecord {
    fn copy(&self) -> (r: Self)
        ensures
            r == *self,
    {
        SegmentRecord {
            speaker_id: self.speaker_id.clone(),
            text: self.text.clone(),
            meeting_time_ms: self.meeting_time_ms,
            track: self.track,
            first_seen: self.first_seen,
            revision: self.revision,
            origin: self.origin,
            finalized: self.finalized,
        }
    }
}

/// The number that follows in the sequence that levels are drawn from.
fn draw(x: u32) -> (r: u32)
    ensures
        r == next_draw(x),
{
    let a: u32 = x ^ (x << 13);
    let b: u32 = a ^ (a >> 17);
    b ^ (b << 5)
}

impl Default for Session {
    /// A meeting that has not begun, with the script as its source.
    fn default() -> (r: Self)
        ensures
            r@ == blank_session(),
    {
        Session::with_source(Box::new(FixtureSource::default()))
    }
}

impl Session {
    /// Whether transcripts come from this source, as it was handed over.
    pub closed spec fn has_source(&self, source: Box<dyn TranscriptSource>) -> bool {
        self.source.source =~= source
    }

    /// A meeting that has not begun, with its source of transcripts.
    pub fn with_source(source: Box<dyn TranscriptSource>) -> (r: Self)
        ensures
            r@ == blank_session(),
            r.has_source(source),
    {
        let r = Session {
            meeting_id: None,
            state: MeetingState::Idle,
            seq: 0,
            meeting_time_ms: 0,
            captured_audio_ms: 0,
            last_settled_ms: 0,
            next_note_id: 1,
            segments: HashMap::new(),
            intervals: Vec::new(),
            speakers: Vec::new(),
            notes: Vec::new(),
            snapshots: Vec::new(),
            pauses: Vec::new(),
            pending: Vec::new(),
            journal: Vec::new(),
            journal_error: None,
            next_document_id: 1,
            next_run_id: 1,
            document_id: None,
            source: SourceSlot::new(source),
            mic_health: Health::Healthy,
            stt_health: Health::Healthy,
            rng: 0x2545_f491,
        };
        assert(r@.segments =~= Map::empty());
        assert(r@.intervals =~= Map::empty());
        assert(r@.speakers =~= Seq::empty());
        assert(r@.notes =~= Seq::empty());
        assert(r@.snapshots =~= Seq::empty());
        assert(r@.pauses =~= Seq::empty());
        assert(r@.pending =~= Seq::empty());
        assert(r@.journal =~= Seq::empty());
        r
    }

    /// Takes another source of transcripts. This is for a meeting that has not begun: a
    /// change later would break the identity of segments.
    pub fn attach_source(&mut self, source: Box<dyn TranscriptSource>)
        ensures
            final(self)@ == (SessionView {
                source_paused: false,
                source_flushing: false,
                ..old(self)@
            }),
            final(self).has_source(source),
    {
        self.source = SourceSlot::new(source);
    }

    // -- Reading ------------------------------------------------------------

    /// The meeting that events are written to.
    pub fn meeting_id(&self) -> (r: Option<MeetingId>)
        ensures
            r == self@.meeting_id,
    {
        self.meeting_id
    }

    /// The meeting, as long as it goes on.
    pub fn active_meeting_id(&self) -> (r: Option<MeetingId>)
        ensures
            r == if self@.is_shown() {
                self@.meeting_id
            } else {
                None
            },
    {
        match self.state {
            MeetingState::Idle | MeetingState::Completed => None,
            _ => self.meeting_id,
        }
    }

    pub fn state(&self) -> (r: MeetingState)
        ensures
            r == self@.state,
    {
        self.state
    }

    /// The number of the last decisive event.
    pub fn seq(&self) -> (r: u64)
        ensures
            r == self@.seq,
    {
        self.seq
    }

    /// The present moment, on both axes.
    pub fn now(&self) -> (r: Timeline)
        ensures
            r == self@.now(),
    {
        Timeline::new(self.meeting_time_ms, self.captured_audio_ms)
    }

    /// Whether something waits to be told: an event, or that the log cannot be written.
    pub fn has_news(&self) -> (r: bool)
        ensures
            r == (self@.pending.len() > 0 || self@.journal_error is Some),
    {
        self.pending.len() > 0 || self.journal_error.is_some()
    }

    /// Why the log could not be written.
    pub fn journal_error(&self) -> (r: Option<&str>)
        ensures
            opt_view(r) == self@.journal_error,
    {
        match &self.journal_error {
            Some(e) => Some(e.as_str()),
            None => None,
        }
    }

    /// Whether there are numbers left for what a command can need.
    pub fn has_room(&self) -> (r: bool)
        ensures
            r == self@.has_room(),
    {
        self.seq < u64::MAX - 1 && self.next_note_id < u64::MAX && self.snapshots.len() < u32::MAX as usize
            && self.next_document_id < i64::MAX && self.next_run_id < i64::MAX
    }

    // -- Events -------------------------------------------------------------

    /// Records a decisive event. This is the only way to a number, and both tellings of the
    /// event are kept at once, so that none can be missing from the log.
    fn record(&mut self, domain: DomainEvent, ui: SessionEvent) -> (r: u64)
        requires
            old(self)@.seq < u64::MAX,
        ensures
            final(self)@ == old(self)@.recorded(domain@, ui@),
            r == final(self)@.seq,
    {
        self.seq = self.seq + 1;
        self.pending.push(ui);
        self.journal.push((domain, Timeline::new(self.meeting_time_ms, self.captured_audio_ms)));
        self.seq
    }

    /// Tells a passing event.
    fn tell(&mut self, ui: SessionEvent)
        ensures
            final(self)@ == old(self)@.told(ui@),
    {
        self.pending.push(ui);
    }

    /// Accounts for the time up to `elapsed_ms`, by the state that holds now. Whatever
    /// changes the state has to come after this, or the time before and after the change
    /// would fall on the wrong side.
    pub fn settle(&mut self, elapsed_ms: u64)
        requires
            old(self)@.meeting_time_ms + elapsed_ms <= u64::MAX,
            old(self)@.captured_audio_ms + elapsed_ms <= u64::MAX,
        ensures
            final(self)@ == old(self)@.settled(elapsed_ms),
    {
        let delta: u64 = elapsed_ms.saturating_sub(self.last_settled_ms);
        self.last_settled_ms = elapsed_ms;
        match self.state {
            MeetingState::Recording => {
                self.meeting_time_ms = self.meeting_time_ms + delta;
                self.captured_audio_ms = self.captured_audio_ms + delta;
            },
            MeetingState::Paused | MeetingState::Stopping | MeetingState::Finalizing => {
                self.meeting_time_ms = self.meeting_time_ms + delta;
            },
            MeetingState::Idle | MeetingState::Completed | MeetingState::Failed => {},
        }
    }

    fn transition(&mut self, state: MeetingState) -> (r: u64)
        requires
            old(self)@.seq < u64::MAX,
        ensures
            final(self)@ == old(self)@.moved_to(state),
            r == final(self)@.seq,
    {
        let now: u64 = self.meeting_time_ms;
        let captured: u64 = self.captured_audio_ms;
        if state == MeetingState::Paused {
            self.pauses.push(ProjectedPause { from_ms: now, to_ms: None });
        } else if self.state == MeetingState::Paused {
            let n: usize = self.pauses.len();
            if n > 0 && self.pauses[n - 1].to_ms.is_none() {
                let ghost before = self.pauses@;
                let last: ProjectedPause = self.pauses[n - 1];
                let _ = self.pauses.pop();
                self.pauses.push(ProjectedPause { from_ms: last.from_ms, to_ms: Some(now) });
                assert(self.pauses@ =~= before.drop_last().push(
                    ProjectedPause { from_ms: last.from_ms, to_ms: Some(now) },
                ));
            }
        }
        self.state = state;
        let seq: u64 = self.seq + 1;
        self.record(
            DomainEvent::MeetingStateChanged { state },
            SessionEvent::MeetingStateChanged {
                seq,
                state,
                meeting_time_ms: now,
                captured_audio_ms: captured,
            },
        )
    }

    // -- Transcripts --------------------------------------------------------

    fn knows_speaker(&self, speaker_id: &str) -> (r: bool)
        ensures
            r == is_known(self@.speakers, speaker_id@),
    {
        let ghost all = views(self.speakers@);
        let mut i: usize = 0;
        while i < self.speakers.len()
            invariant
                i <= self.speakers@.len(),
                all == views(self.speakers@),
                forall|j: int| 0 <= j < i ==> (#[trigger] all[j]).speaker_id != speaker_id@,
            decreases self.speakers.len() - i,
        {
            assert(all[i as int] == self.speakers@[i as int]@);
            if same(self.speakers[i].speaker_id.as_str(), speaker_id) {
                return true;
            }
            i = i + 1;
        }
        false
    }

    /// Notes that a speaker is heard. The first time, this is an event: only who was heard
    /// can be named later.
    fn ensure_speaker(&mut self, speaker_id: &str, track: Track)
        requires
            old(self)@.seq < u64::MAX,
            old(self)@.speakers.len() < u32::MAX,
        ensures
            final(self)@ == old(self)@.heard(speaker_id@, track),
    {
        if self.knows_speaker(speaker_id) {
            return;
        }
        let ordinal: u32 = (self.speakers.len() + 1) as u32;
        self.speakers.push(
            SpeakerRecord {
                speaker_id: speaker_id.to_owned(),
                ordinal,
                proposed_name: None,
                confirmed_name: None,
                track,
            },
        );
        let mut labels: Vec<String> = Vec::new();
        labels.push(speaker_id.to_owned());
        assert(views(labels@) =~= seq![speaker_id@]);
        let seq: u64 = self.seq + 1;
        self.record(
            DomainEvent::SpeakerProposed {
                speaker_id: speaker_id.to_owned(),
                ordinal,
                proposed_name: None,
                provider_labels: labels,
            },
            SessionEvent::SpeakerProposed {
                seq,
                speaker_id: speaker_id.to_owned(),
                ordinal,
                proposed_name: None,
                track,
            },
        );
    }

    fn put_segment(&mut self, id: u64, rec: SegmentRecord)
        ensures
            final(self)@ == (SessionView {
                segments: old(self)@.segments.insert(id, rec@),
                ..old(self)@
            }),
    {
        let ghost before = self.segments@;
        self.segments.insert(id, rec);
        proof {
            lemma_segment_map_insert(before, id, rec);
        }
    }

    fn get_segment(&self, id: u64) -> (r: Option<&SegmentRecord>)
        ensures
            r is Some <==> self@.segments.contains_key(id),
            r matches Some(rec) ==> rec@ == self@.segments[id],
    {
        self.segments.get(&id)
    }

    /// Whether a segment takes no more of what a provider gives.
    fn segment_is_closed(&self, id: u64) -> (r: bool)
        ensures
            r == self@.is_closed(id),
    {
        match self.get_segment(id) {
            Some(rec) => rec.finalized || rec.origin == Origin::User,
            None => false,
        }
    }

    fn apply_partial(&mut self, id: u64, speaker_id: String, text: String, track: Track)
        requires
            old(self)@.can_take_in(),
        ensures
            final(self)@ == old(self)@.partial(id, speaker_id@, text@, track),
    {
        self.ensure_speaker(speaker_id.as_str(), track);
        if self.segment_is_closed(id) {
            return;
        }
        let now: u64 = self.meeting_time_ms;
        let rec: SegmentRecord = match self.get_segment(id) {
            Some(old_rec) => {
                let mut rec = old_rec.copy();
                rec.text = text.clone();
                rec
            },
            None => SegmentRecord {
                speaker_id: speaker_id.clone(),
                text: text.clone(),
                meeting_time_ms: now,
                track,
                first_seen: Timeline::new(now, self.captured_audio_ms),
                revision: 0,
                origin: Origin::Provider,
                finalized: false,
            },
        };
        self.put_segment(id, rec);
        self.tell(
            SessionEvent::TranscriptPartial { segment_id: id, speaker_id, text, meeting_time_ms: now },
        );
    }

    /// Makes a new version of a segment, for which a provider gives other words.
    fn revise_segment(&mut self, id: u64, text: String, track: Track)
        requires
            old(self)@.seq < u64::MAX,
        ensures
            final(self)@ == old(self)@.revised(id, text@, track),
    {
        let mut rec: SegmentRecord = match self.get_segment(id) {
            Some(rec) => rec.copy(),
            None => {
                return;
            },
        };
        if rec.origin == Origin::User || rec.revision == u32::MAX {
            return;
        }
        rec.revision = rec.revision + 1;
        rec.text = text.clone();
        let seq: u64 = self.seq + 1;
        let domain = DomainEvent::TranscriptSegmentRevised {
            segment: SegmentRevision {
                segment_id: id,
                revision: rec.revision,
                text: text.clone(),
                speaker_id: Some(rec.speaker_id.clone()),
                track,
                meeting_start_ms: rec.first_seen.meeting_time_ms,
                meeting_end_ms: self.meeting_time_ms,
                captured_start_ms: rec.first_seen.captured_audio_ms,
                captured_end_ms: self.captured_audio_ms,
                origin: rec.origin,
            },
        };
        let ui = SessionEvent::TranscriptFinalized {
            seq,
            segment_id: id,
            revision: rec.revision,
            origin: Origin::Provider,
            speaker_id: rec.speaker_id.clone(),
            text,
            meeting_time_ms: rec.meeting_time_ms,
            captured_audio_ms: self.captured_audio_ms,
        };
        self.put_segment(id, rec);
        self.record(domain, ui);
    }

    fn keep_final(
        &mut self,
        id: u64,
        speaker_id: String,
        text: String,
        track: Track,
        key: Interval,
        began: Timeline,
    )
        requires
            old(self)@.can_take_in(),
        ensures
            final(self)@ == old(self)@.kept(id, speaker_id@, text@, track, key, began),
    {
        let ghost before = self.intervals@;
        self.intervals.push((key, id));
        assert(self.intervals@.drop_last() =~= before);
        self.ensure_speaker(speaker_id.as_str(), track);
        let rec = SegmentRecord {
            speaker_id: speaker_id.clone(),
            text: text.clone(),
            meeting_time_ms: began.meeting_time_ms,
            track,
            first_seen: began,
            revision: 1,
            origin: Origin::Provider,
            finalized: true,
        };
        let seq: u64 = self.seq + 1;
        let domain = DomainEvent::TranscriptSegmentFinalized {
            segment: SegmentRevision {
                segment_id: id,
                revision: 1,
                text: text.clone(),
                speaker_id: Some(speaker_id.clone()),
                track,
                meeting_start_ms: began.meeting_time_ms,
                meeting_end_ms: self.meeting_time_ms,
                captured_start_ms: began.captured_audio_ms,
                captured_end_ms: self.captured_audio_ms,
                origin: Origin::Provider,
            },
        };
        let ui = SessionEvent::TranscriptFinalized {
            seq,
            segment_id: id,
            revision: 1,
            origin: Origin::Provider,
            speaker_id,
            text,
            meeting_time_ms: began.meeting_time_ms,
            captured_audio_ms: self.captured_audio_ms,
        };
        self.put_segment(id, rec);
        self.record(domain, ui);
    }

    fn apply_final(
        &mut self,
        id: u64,
        speaker_id: String,
        text: String,
        track: Track,
        audio_span: Option<(u64, u64)>,
    )
        requires
            old(self)@.can_take_in(),
        ensures
            final(self)@ == old(self)@.finalized(id, speaker_id@, text@, track, audio_span),
    {
        if self.segment_is_closed(id) {
            return;
        }
        let now = Timeline::new(self.meeting_time_ms, self.captured_audio_ms);
        let first_seen: Timeline = match self.get_segment(id) {
            Some(rec) => rec.first_seen,
            None => now,
        };
        let key: Interval = match audio_span {
            Some((start, end)) => (track, start, end),
            None => (track, first_seen.captured_audio_ms, now.captured_audio_ms),
        };
        let began: Timeline = match audio_span {
            Some((start, _)) => Timeline::new(
                now.meeting_time_ms.saturating_sub(now.captured_audio_ms.saturating_sub(start)),
                start,
            ),
            None => first_seen,
        };
        match find_interval(&self.intervals, key) {
            Some(other) if other != id => {
                let same_text: bool = match self.get_segment(other) {
                    Some(rec) => {
                        let a = normalize_for_match(rec.text.as_str());
                        let b = normalize_for_match(text.as_str());
                        same(a.as_str(), b.as_str())
                    },
                    None => false,
                };
                if !same_text {
                    self.revise_segment(other, text, track);
                }
                return;
            },
            _ => {},
        }
        self.keep_final(id, speaker_id, text, track, key, began);
    }

    /// Takes in what a source gives. The same rules hold for every source: what the user has
    /// written and what is final stay, and the same audio is never told twice. Where the
    /// numbers are used up nothing is taken in any more.
    pub fn apply_transcript_input(&mut self, input: TranscriptInput)
        ensures
            final(self)@ == old(self)@.taken_in(input@),
    {
        if self.seq >= u64::MAX - 1 || self.speakers.len() >= u32::MAX as usize {
            return;
        }
        match input {
            TranscriptInput::Partial { segment_id, speaker_id, text, track } => {
                self.apply_partial(segment_id, speaker_id, text, track);
            },
            TranscriptInput::Final { segment_id, speaker_id, text, track, audio_span } => {
                self.apply_final(segment_id, speaker_id, text, track, audio_span);
            },
        }
    }
}

// ---------------------------------------------------------------------------
// Windows
// ---------------------------------------------------------------------------

/// Whether a source of this sort may answer so in a window of a session that stands at `s`. It
/// is asked whether it measures levels while recording; where it is to go on, it is asked for
/// what came, and whether that was everything.
pub open spec fn source_answers<S: TranscriptSource + ?Sized>(
    s: SessionView,
    elapsed_ms: u64,
    measured: bool,
    inputs: Seq<TranscriptInputView>,
    drained: bool,
) -> bool {
    &&& if s.state is Recording {
        measures_gives::<S>(measured)
    } else {
        !measured
    }
    &&& match s.to_poll(elapsed_ms) {
        Some(window) => poll_gives::<S>(window, inputs) && drained_gives::<S>(drained),
        None => true,
    }
}

impl Session {
    /// Begins a window: accounts for the time and tells how well things work. `measured` says
    /// whether the source measures levels. Gives for how long the source is to go on, if it is
    /// to be asked at all.
    pub fn begin_window(&mut self, elapsed_ms: u64, measured: bool) -> (r: Option<u64>)
        requires
            old(self)@.meeting_time_ms + elapsed_ms <= u64::MAX,
            old(self)@.captured_audio_ms + elapsed_ms <= u64::MAX,
        ensures
            final(self)@ == old(self)@.window_begun(elapsed_ms, measured),
            r == old(self)@.to_poll(elapsed_ms),
    {
        let window: u64 = elapsed_ms.saturating_sub(self.last_settled_ms);
        self.settle(elapsed_ms);
        match self.state {
            MeetingState::Idle | MeetingState::Completed => {
                return None;
            },
            _ => {},
        }
        let recording: bool = self.state == MeetingState::Recording;
        let mic_on: bool = self.mic_health == Health::Healthy;
        let (mic_level, system_level): (Level, Level) = if !recording {
            (Level::Silent, Level::Silent)
        } else if measured {
            (if mic_on { Level::Measured } else { Level::Silent }, Level::Measured)
        } else {
            let mic: Level = if mic_on {
                self.rng = draw(self.rng);
                Level::Drawn(1500 + 7 * (self.rng % 1000))
            } else {
                Level::Silent
            };
            self.rng = draw(self.rng);
            (mic, Level::Drawn(2000 + 7 * (self.rng % 1000)))
        };
        let (mic_health, stt_health) = (self.mic_health, self.stt_health);
        self.tell(
            SessionEvent::TrackActivity {
                mic_level,
                system_level,
                mic_health,
                system_health: Health::Healthy,
                stt_health,
            },
        );
        let collecting: bool = recording || self.state == MeetingState::Finalizing;
        if collecting && stt_health == Health::Healthy {
            Some(if window > BATCH_MS { window } else { BATCH_MS })
        } else {
            None
        }
    }

    /// Ends a window with what the source gave, and whether everything has come.
    pub fn end_window(&mut self, inputs: Vec<TranscriptInput>, drained: bool)
        ensures
            final(self)@ == old(self)@.window_ended(views(inputs@), drained),
    {
        let ghost start = self@;
        let ghost all = views(inputs@);
        let ghost original = inputs@;
        for input in it: inputs
            invariant
                it.seq() == original,
                all == views(original),
                self@ == start.all_taken_in(all.take(it.index())),
        {
            let ghost k = it.index();
            assert(input == original[k]);
            assert(all.take(k + 1).drop_last() =~= all.take(k));
            assert(all.take(k + 1).last() == input@);
            self.apply_transcript_input(input);
        }
        assert(all.take(all.len() as int) =~= all);
        if self.state == MeetingState::Finalizing && drained && self.seq < u64::MAX {
            self.transition(MeetingState::Completed);
        }
    }

    /// One window: accounts for the time, tells how well things work, and takes in what the
    /// source has. Whatever the source answers to what it is asked, the session is what `window`
    /// makes of it.
    pub fn tick(&mut self, elapsed_ms: u64)
        requires
            old(self)@.meeting_time_ms + elapsed_ms <= u64::MAX,
            old(self)@.captured_audio_ms + elapsed_ms <= u64::MAX,
        ensures
            exists|measured: bool, inputs: Seq<TranscriptInputView>, drained: bool|
                final(self)@ == #[trigger] old(self)@.window(elapsed_ms, measured, inputs, drained)
                    && source_answers::<dyn TranscriptSource>(
                    old(self)@,
                    elapsed_ms,
                    measured,
                    inputs,
                    drained,
                ),
    {
        let ghost start = self@;
        let measured: bool = self.state == MeetingState::Recording && is_measured(
            &*self.source.source,
        );
        match self.begin_window(elapsed_ms, measured) {
            Some(window) => {
                let inputs = poll_source(&mut *self.source.source, window);
                let drained = is_drained(&*self.source.source);
                let ghost given = views(inputs@);
                self.end_window(inputs, drained);
                assert(self@ == start.window(elapsed_ms, measured, given, drained));
            },
            None => {
                assert(self@ == start.window(elapsed_ms, measured, Seq::empty(), true));
            },
        }
    }
}

// ---------------------------------------------------------------------------
// Commands
// ---------------------------------------------------------------------------

impl Session {
    /// What is said to a command where the log cannot be written: to accept it would be to
    /// say that it is kept.
    fn journal_guard(&self) -> (r: Option<CommandReceipt>)
        ensures
            opt_view(r) == self@.refusal(),
    {
        match &self.journal_error {
            Some(e) => {
                let mut words = "內容無法寫入本機資料庫：".to_owned();
                words.append(e.as_str());
                Some(CommandReceipt::rejected(words.as_str()))
            },
            None => None,
        }
    }

    /// Starts recording. The meeting has been made by the caller, and so have the names from
    /// which documents and runs go on.
    pub fn start(&mut self, meeting: MeetingId, seeds: IdSeeds) -> (r: CommandReceipt)
        requires
            old(self)@.has_room(),
            seeds.document_id < i64::MAX,
            seeds.run_id < i64::MAX,
        ensures
            (final(self)@, r@) == old(self)@.started(meeting, seeds),
    {
        match self.state {
            MeetingState::Idle => {
                self.meeting_id = Some(meeting);
                self.next_document_id = seeds.document_id + 1;
                self.next_run_id = seeds.run_id + 1;
                let seq: u64 = self.transition(MeetingState::Recording);
                CommandReceipt::ok(seq)
            },
            MeetingState::Completed => CommandReceipt::rejected("會議已結束，請建立新會議"),
            _ => CommandReceipt::rejected("會議已在進行中"),
        }
    }

    /// Pauses. The source is told too: what is said in a pause is not to be transcribed later.
    pub fn pause(&mut self) -> (r: CommandReceipt)
        requires
            old(self)@.has_room(),
        ensures
            (final(self)@, r@) == old(self)@.paused(),
            r.accepted ==> told_to_pause::<dyn TranscriptSource>(true),
    {
        match self.state {
            MeetingState::Recording => {
                self.source.set_paused(true);
                let seq: u64 = self.transition(MeetingState::Paused);
                CommandReceipt::ok(seq)
            },
            _ => CommandReceipt::rejected("目前不在錄音中"),
        }
    }

    /// Goes on after a pause. The source is told too.
    pub fn resume(&mut self) -> (r: CommandReceipt)
        requires
            old(self)@.has_room(),
        ensures
            (final(self)@, r@) == old(self)@.resumed(),
            r.accepted ==> told_to_pause::<dyn TranscriptSource>(false),
    {
        match self.state {
            MeetingState::Paused => {
                self.source.set_paused(false);
                let seq: u64 = self.transition(MeetingState::Recording);
                CommandReceipt::ok(seq)
            },
            _ => CommandReceipt::rejected("目前不在暫停狀態"),
        }
    }

    /// Stops, as far as waiting for what is still being transcribed: the last words before the
    /// end are often the ones that matter. The source is told that no more is to be collected, and
    /// a window ends the meeting.
    pub fn stop(&mut self) -> (r: CommandReceipt)
        requires
            old(self)@.has_room(),
        ensures
            (final(self)@, r@) == old(self)@.stopped(),
            r.accepted ==> told_to_flush::<dyn TranscriptSource>(),
    {
        if !self.state.accepts_document_work() {
            return CommandReceipt::rejected("會議尚未開始或已結束");
        }
        self.transition(MeetingState::Stopping);
        self.source.begin_flush();
        let seq: u64 = self.transition(MeetingState::Finalizing);
        CommandReceipt::ok(seq)
    }

    pub fn add_note(&mut self, text: &str) -> (r: CommandReceipt)
        requires
            old(self)@.has_room(),
        ensures
            (final(self)@, r@) == old(self)@.noted(text@),
    {
        let text = trim(text);
        if text.as_str().is_empty() {
            return CommandReceipt::rejected("筆記內容為空");
        }
        if !self.state.accepts_document_work() {
            return CommandReceipt::rejected("目前的會議狀態不接受筆記");
        }
        if let Some(r) = self.journal_guard() {
            return r;
        }
        let note_id: u64 = self.next_note_id;
        self.next_note_id = note_id + 1;
        let (now, captured): (u64, u64) = (self.meeting_time_ms, self.captured_audio_ms);
        self.notes.push(
            NoteRecord {
                note_id,
                text: text.clone(),
                meeting_time_ms: now,
                captured_audio_ms: captured,
            },
        );
        let seq: u64 = self.seq + 1;
        let seq: u64 = self.record(
            DomainEvent::NoteAdded { note_id, text: text.clone() },
            SessionEvent::NoteAdded {
                seq,
                note_id,
                text,
                meeting_time_ms: now,
                captured_audio_ms: captured,
            },
        );
        CommandReceipt::ok(seq)
    }

    /// Names a speaker, once heard.
    pub fn confirm_speaker(&mut self, speaker_id: &str, name: &str) -> (r: CommandReceipt)
        requires
            old(self)@.has_room(),
        ensures
            (final(self)@, r@) == old(self)@.named(speaker_id@, name@),
    {
        if !self.state.accepts_speaker_naming() {
            return CommandReceipt::rejected("目前的會議狀態不接受語者確認");
        }
        let name = trim(name);
        if name.as_str().is_empty() {
            return CommandReceipt::rejected("語者名稱為空");
        }
        if let Some(r) = self.journal_guard() {
            return r;
        }
        if same(speaker_id, UNKNOWN_REMOTE) {
            return CommandReceipt::rejected("遠端不是單一語者，不接受命名");
        }
        if !self.knows_speaker(speaker_id) {
            return CommandReceipt::rejected("尚未聽到這位語者發言");
        }
        let ghost before = self@;
        let ghost old_list = self.speakers@;
        let mut named: Vec<SpeakerRecord> = Vec::new();
        let ghost want = with_name(views(old_list), speaker_id@, name@);
        let mut i: usize = 0;
        while i < self.speakers.len()
            invariant
                i <= self.speakers@.len(),
                self.speakers@ == old_list,
                self@ == before,
                want == with_name(views(old_list), speaker_id@, name@),
                views(named@) == want.take(i as int),
            decreases self.speakers.len() - i,
        {
            let s = &self.speakers[i];
            let ghost done = named@;
            let confirmed: Option<String> = if same(s.speaker_id.as_str(), speaker_id) {
                Some(name.clone())
            } else {
                copy_opt(&s.confirmed_name)
            };
            let rec = SpeakerRecord {
                speaker_id: s.speaker_id.clone(),
                ordinal: s.ordinal,
                proposed_name: copy_opt(&s.proposed_name),
                confirmed_name: confirmed,
                track: s.track,
            };
            assert(rec@ == want[i as int]);
            named.push(rec);
            i = i + 1;
            assert(views(named@) =~= want.take(i as int));
        }
        assert(want.take(i as int) =~= want);
        self.speakers = named;
        let seq: u64 = self.seq + 1;
        let seq: u64 = self.record(
            DomainEvent::SpeakerConfirmed {
                speaker_id: speaker_id.to_owned(),
                name: name.clone(),
            },
            SessionEvent::SpeakerConfirmed { seq, speaker_id: speaker_id.to_owned(), name },
        );
        CommandReceipt::ok(seq)
    }

    /// Writes a segment anew for the user. From then on no provider changes it.
    pub fn edit_transcript(&mut self, segment_id: u64, text: &str) -> (r: CommandReceipt)
        requires
            old(self)@.has_room(),
            old(self)@.segments.contains_key(segment_id) ==> old(
                self,
            )@.segments[segment_id].revision < u32::MAX,
        ensures
            (final(self)@, r@) == old(self)@.edited(segment_id, text@),
    {
        let text = trim(text);
        if text.as_str().is_empty() {
            return CommandReceipt::rejected("修訂內容為空");
        }
        if !self.state.accepts_document_work() {
            return CommandReceipt::rejected("目前的會議狀態不接受修訂");
        }
        if let Some(r) = self.journal_guard() {
            return r;
        }
        let mut rec: SegmentRecord = match self.get_segment(segment_id) {
            Some(rec) => rec.copy(),
            None => {
                return CommandReceipt::rejected("找不到這個逐字稿片段");
            },
        };
        rec.revision = rec.revision + 1;
        rec.origin = Origin::User;
        rec.text = text.clone();
        let revision: u32 = rec.revision;
        let end: u64 = if rec.meeting_time_ms > rec.first_seen.meeting_time_ms {
            rec.meeting_time_ms
        } else {
            rec.first_seen.meeting_time_ms
        };
        let domain = DomainEvent::TranscriptSegmentEdited {
            segment: SegmentRevision {
                segment_id,
                revision,
                text: text.clone(),
                speaker_id: Some(rec.speaker_id.clone()),
                track: rec.track,
                meeting_start_ms: rec.first_seen.meeting_time_ms,
                meeting_end_ms: end,
                captured_start_ms: rec.first_seen.captured_audio_ms,
                captured_end_ms: rec.first_seen.captured_audio_ms,
                origin: Origin::User,
            },
        };
        self.put_segment(segment_id, rec);
        let seq: u64 = self.seq + 1;
        let seq: u64 = self.record(
            domain,
            SessionEvent::TranscriptEdited { seq, segment_id, revision, origin: Origin::User, text },
        );
        CommandReceipt::ok(seq)
    }

    /// The last version that was completed, and its run.
    fn base_version(&self) -> (r: Option<(u32, i64)>)
        ensures
            match last_completed(self@.snapshots) {
                Some(b) => r == Some((b.version, b.run_id)),
                None => r is None,
            },
    {
        let ghost all = views(self.snapshots@);
        let mut i: usize = self.snapshots.len();
        assert(all.take(i as int) =~= all);
        while i > 0
            invariant
                i <= self.snapshots@.len(),
                all == views(self.snapshots@),
                last_completed(all) == last_completed(all.take(i as int)),
            decreases i,
        {
            i = i - 1;
            assert(all.take(i + 1).last() == self.snapshots@[i as int]@);
            assert(all.take(i + 1).drop_last() =~= all.take(i as int));
            if self.snapshots[i].state == RunState::Completed {
                return Some((self.snapshots[i].version, self.snapshots[i].run_id));
            }
        }
        None
    }

    /// Begins a version of the document.
    fn begin_version(&mut self, state: RunState, parent: Option<i64>, prompt: &str) -> (r: u64)
        requires
            old(self)@.has_room(),
        ensures
            final(self)@ == old(self)@.version_begun(state, parent, prompt@),
            r == final(self)@.seq,
    {
        let version: u32 = (self.snapshots.len() + 1) as u32;
        let through: u64 = self.seq;
        let now: u64 = self.meeting_time_ms;
        let run_id: i64 = self.next_run_id;
        let document_id: i64 = match self.document_id {
            Some(id) => id,
            None => {
                let id: i64 = self.next_document_id;
                self.next_document_id = id + 1;
                id
            },
        };
        self.document_id = Some(document_id);
        self.next_run_id = run_id + 1;
        self.snapshots.push(
            SnapshotRecord {
                version,
                through_event_seq: through,
                meeting_time_ms: now,
                state,
                prompt: prompt.to_owned(),
                run_id,
            },
        );
        let seq: u64 = self.seq + 1;
        self.record(
            DomainEvent::SnapshotCreated {
                document_id,
                run_id,
                parent_run_id: parent,
                version_no: version,
                purpose: "meeting-summary".to_owned(),
                title: "會議摘要".to_owned(),
                through_event_seq: through,
                prompt: prompt.to_owned(),
            },
            SessionEvent::SnapshotCreated {
                seq,
                version,
                through_event_seq: through,
                meeting_time_ms: now,
                prompt: prompt.to_owned(),
            },
        )
    }

    /// Takes a snapshot for a summary. What it covers is fixed at once; the summary is written
    /// elsewhere, and recording goes on.
    pub fn create_snapshot(&mut self, prompt: &str) -> (r: (CommandReceipt, Option<SnapshotWork>))
        requires
            old(self)@.has_room(),
        ensures
            (final(self)@, r.0@, r.1) == old(self)@.snapshot_taken(prompt@),
    {
        if !self.state.accepts_snapshot() {
            return (CommandReceipt::rejected("目前的會議狀態不接受快照"), None);
        }
        if let Some(r) = self.journal_guard() {
            return (r, None);
        }
        let through: u64 = self.seq;
        let version: u32 = (self.snapshots.len() + 1) as u32;
        let base = self.base_version();
        let (revise_of, parent): (Option<u32>, Option<i64>) = match base {
            Some((v, run)) => (Some(v), Some(run)),
            None => (None, None),
        };
        let seq: u64 = self.begin_version(RunState::Running, parent, prompt);
        (CommandReceipt::ok(seq), Some(SnapshotWork { version, through, revise_of }))
    }

    fn find_version(&self, version: u32) -> (r: usize)
        ensures
            r == version_at(self@.snapshots, version),
            r <= self@.snapshots.len(),
    {
        let ghost all = views(self.snapshots@);
        let mut i: usize = 0;
        assert(all.skip(0) =~= all);
        while i < self.snapshots.len()
            invariant
                i <= self.snapshots@.len(),
                all == views(self.snapshots@),
                version_at(all, version) == i + version_at(all.skip(i as int), version),
            decreases self.snapshots.len() - i,
        {
            assert(all.skip(i as int)[0] == self.snapshots@[i as int]@);
            assert(all.skip(i as int).skip(1) =~= all.skip(i + 1));
            if self.snapshots[i].version == version {
                return i;
            }
            i = i + 1;
        }
        assert(all.skip(i as int).len() == 0);
        i
    }

    /// A generation has ended: with the blocks of the document, or with the reason why there
    /// are none.
    pub fn finish_generation(
        &mut self,
        version: u32,
        outcome: Result<(Vec<DocumentBlock>, Usage), String>,
    )
        requires
            old(self)@.seq < u64::MAX,
        ensures
            final(self)@ == old(self)@.generation_ended(
                version,
                match outcome {
                    Ok((blocks, usage)) => Ok((views(blocks@), usage@)),
                    Err(reason) => Err(reason@),
                },
            ),
    {
        let at: usize = self.find_version(version);
        if at >= self.snapshots.len() {
            return;
        }
        let ghost before = self.snapshots@;
        let run_id: i64 = self.snapshots[at].run_id;
        let state: RunState = match &outcome {
            Ok(_) => RunState::Completed,
            Err(_) => RunState::Failed,
        };
        let rec = SnapshotRecord {
            version: self.snapshots[at].version,
            through_event_seq: self.snapshots[at].through_event_seq,
            meeting_time_ms: self.snapshots[at].meeting_time_ms,
            state,
            prompt: self.snapshots[at].prompt.clone(),
            run_id,
        };
        let ghost v = rec@;
        self.snapshots.set(at, rec);
        assert(views(self.snapshots@) =~= views(before).update(at as int, v));
        let seq: u64 = self.seq + 1;
        match outcome {
            Ok((blocks, usage)) => {
                self.record(
                    DomainEvent::GenerationCompleted { run_id, blocks, usage },
                    SessionEvent::GenerationCompleted { seq, version },
                );
            },
            Err(reason) => {
                let told = reason.clone();
                self.record(
                    DomainEvent::GenerationFailed { run_id, reason },
                    SessionEvent::GenerationFailed { seq, version, reason: told },
                );
            },
        }
    }

    /// Gives up what is still being generated, before the session is replaced: nobody would
    /// be there any more to say how it ended.
    pub fn abandon_running_generations(&mut self)
        requires
            old(self)@.seq + old(self)@.snapshots.len() <= u64::MAX,
        ensures
            final(self)@ == old(self)@.abandoned(),
    {
        let ghost start = self@;
        let ghost all = views(self.snapshots@);
        let mut versions: Vec<u32> = Vec::new();
        let mut i: usize = 0;
        assert(versions@ =~= unfinished(all.take(0)));
        while i < self.snapshots.len()
            invariant
                i <= self.snapshots@.len(),
                self@ == start,
                all == views(self.snapshots@),
                versions@ == unfinished(all.take(i as int)),
                versions@.len() <= i,
            decreases self.snapshots.len() - i,
        {
            assert(all.take(i + 1).last() == self.snapshots@[i as int]@);
            assert(all.take(i + 1).drop_last() =~= all.take(i as int));
            let state: RunState = self.snapshots[i].state;
            if state == RunState::Queued || state == RunState::Running {
                versions.push(self.snapshots[i].version);
            }
            i = i + 1;
        }
        assert(all.take(i as int) =~= all);
        let ghost reason = "使用者在生成完成前開了新會議"@;
        let mut k: usize = 0;
        assert(versions@.take(0) =~= Seq::empty());
        while k < versions.len()
            invariant
                k <= versions@.len(),
                start.seq + versions@.len() <= u64::MAX,
                self@ == start.all_failed(versions@.take(k as int), reason),
                self@.seq <= start.seq + k,
                reason == "使用者在生成完成前開了新會議"@,
            decreases versions.len() - k,
        {
            assert(versions@.take(k + 1).drop_last() =~= versions@.take(k as int));
            assert(versions@.take(k + 1).last() == versions@[k as int]);
            self.finish_generation(
                versions[k],
                Err("使用者在生成完成前開了新會議".to_owned()),
            );
            k = k + 1;
        }
        assert(versions@.take(k as int) =~= versions@);
    }

    /// Makes something go wrong, or right again, to see what happens.
    pub fn inject_fault(&mut self, kind: &str) -> (r: CommandReceipt)
        requires
            old(self)@.has_room(),
        ensures
            (final(self)@, r@) == old(self)@.faulted(kind@),
    {
        if same(kind, "micLost") {
            self.mic_health = Health::Lost;
            CommandReceipt::ok(self.seq)
        } else if same(kind, "micRestored") {
            self.mic_health = Health::Healthy;
            CommandReceipt::ok(self.seq)
        } else if same(kind, "sttDown") {
            self.stt_health = Health::Degraded;
            CommandReceipt::ok(self.seq)
        } else if same(kind, "sttUp") {
            self.stt_health = Health::Healthy;
            CommandReceipt::ok(self.seq)
        } else if same(kind, "generationFailed") {
            if !self.state.accepts_document_work() {
                return CommandReceipt::rejected("目前的會議狀態不接受生成");
            }
            let version: u32 = (self.snapshots.len() + 1) as u32;
            self.begin_version(RunState::Failed, None, "");
            self.finish_generation(version, Err("Provider 回報限流".to_owned()));
            CommandReceipt::ok(self.seq)
        } else {
            CommandReceipt::rejected("未知的注入類型")
        }
    }
}

// ---------------------------------------------------------------------------
// The log
// ---------------------------------------------------------------------------

impl Session {
    /// Takes what waits to be written to the log. Who takes it writes it, and says so with
    /// `journal_recovered`, or gives it back with `journal_failed`.
    pub fn take_journal(&mut self) -> (r: Vec<(DomainEvent, Timeline)>)
        ensures
            journal_views(r@) == old(self)@.journal,
            final(self)@ == (SessionView { journal: Seq::empty(), ..old(self)@ }),
    {
        let mut out: Vec<(DomainEvent, Timeline)> = Vec::new();
        out.append(&mut self.journal);
        assert(journal_views(self.journal@) =~= Seq::empty());
        assert(out@ =~= old(self).journal@);
        out
    }

    /// The log could not be written. What could not be written comes again, before what has
    /// happened since: the order of events is what they mean.
    pub fn journal_failed(&mut self, reason: String, batch: Vec<(DomainEvent, Timeline)>)
        ensures
            final(self)@ == old(self)@.log_failed(reason@, journal_views(batch@)),
    {
        if self.journal_error.is_none() {
            self.journal_error = Some(reason);
        }
        let ghost (first, rest) = (batch@, self.journal@);
        let mut restored = batch;
        restored.append(&mut self.journal);
        assert(journal_views(first + rest) =~= journal_views(first) + journal_views(rest));
        self.journal = restored;
    }

    /// The log is written again, all of it.
    pub fn journal_recovered(&mut self)
        ensures
            final(self)@ == (SessionView { journal_error: None, ..old(self)@ }),
    {
        self.journal_error = None;
    }
}

// ---------------------------------------------------------------------------
// Batches
// ---------------------------------------------------------------------------

/// What is told at once.
#[derive(Debug, PartialEq, Eq)]
pub struct SessionEventBatch {
    pub first_seq: Option<u64>,
    pub last_seq: Option<u64>,
    /// The number of the last decisive event before this batch. Where it does not connect
    /// with `first_seq`, something was missed.
    pub prev_high_seq: u64,
    pub emitted_at_ms: u64,
    pub meeting_time_ms: u64,
    pub captured_audio_ms: u64,
    pub state: MeetingState,
    /// Why the log could not be written.
    pub journal_error: Option<String>,
    pub events: Vec<SessionEvent>,
}

pub struct BatchView {
    pub first_seq: Option<u64>,
    pub last_seq: Option<u64>,
    pub prev_high_seq: u64,
    pub emitted_at_ms: u64,
    pub meeting_time_ms: u64,
    pub captured_audio_ms: u64,
    pub state: MeetingState,
    pub journal_error: Option<Seq<char>>,
    pub events: Seq<SessionEventView>,
}

impl View for SessionEventBatch {
    type V = BatchView;

    open spec fn view(&self) -> BatchView {
        BatchView {
            first_seq: self.first_seq,
            last_seq: self.last_seq,
            prev_high_seq: self.prev_high_seq,
            emitted_at_ms: self.emitted_at_ms,
            meeting_time_ms: self.meeting_time_ms,
            captured_audio_ms: self.captured_audio_ms,
            state: self.state,
            journal_error: opt_view(self.journal_error),
            events: views(self.events@),
        }
    }
}

/// The numbers of the decisive events among some events.
pub open spec fn event_numbers(events: Seq<SessionEventView>) -> Seq<u64>
    decreases events.len(),
{
    if events.len() == 0 {
        Seq::empty()
    } else {
        match events.last().number() {
            Some(n) => event_numbers(events.drop_last()).push(n),
            None => event_numbers(events.drop_last()),
        }
    }
}

/// The batch of what waits in a session.
pub open spec fn batch_of(s: SessionView, prev_high_seq: u64, emitted_at_ms: u64) -> BatchView {
    let numbers = event_numbers(s.pending);
    BatchView {
        first_seq: if numbers.len() > 0 {
            Some(numbers[0])
        } else {
            None
        },
        last_seq: if numbers.len() > 0 {
            Some(numbers.last())
        } else {
            None
        },
        prev_high_seq,
        emitted_at_ms,
        meeting_time_ms: s.meeting_time_ms,
        captured_audio_ms: s.captured_audio_ms,
        state: s.state,
        journal_error: s.journal_error,
        events: s.pending,
    }
}

/// The wall clock in milliseconds, for display: the stamp of what the clock says, of which
/// nothing is known.
fn now_ms() -> (r: u64) {
    stamp_millis(wall_clock_millis())
}

impl Session {
    /// Takes what waits to be told, as the batch that is told at `emitted_at_ms`.
    pub fn drain_at(&mut self, prev_high_seq: u64, emitted_at_ms: u64) -> (r: SessionEventBatch)
        ensures
            r@ == batch_of(old(self)@, prev_high_seq, emitted_at_ms),
            final(self)@ == (SessionView { pending: Seq::empty(), ..old(self)@ }),
    {
        let mut events: Vec<SessionEvent> = Vec::new();
        events.append(&mut self.pending);
        assert(views(self.pending@) =~= Seq::empty());
        assert(events@ =~= old(self).pending@);
        let ghost all = views(events@);
        let mut first: Option<u64> = None;
        let mut last: Option<u64> = None;
        let mut i: usize = 0;
        assert(all.take(0) =~= Seq::empty());
        while i < events.len()
            invariant
                i <= events@.len(),
                all == views(events@),
                ({
                    let numbers = event_numbers(all.take(i as int));
                    &&& first == if numbers.len() > 0 {
                        Some(numbers[0])
                    } else {
                        None
                    }
                    &&& last == if numbers.len() > 0 {
                        Some(numbers.last())
                    } else {
                        None
                    }
                }),
            decreases events.len() - i,
        {
            assert(all.take(i + 1).last() == events@[i as int]@);
            assert(all.take(i + 1).drop_last() =~= all.take(i as int));
            if let Some(n) = events[i].seq() {
                if first.is_none() {
                    first = Some(n);
                }
                last = Some(n);
            }
            i = i + 1;
        }
        assert(all.take(i as int) =~= all);
        SessionEventBatch {
            first_seq: first,
            last_seq: last,
            prev_high_seq,
            emitted_at_ms,
            meeting_time_ms: self.meeting_time_ms,
            captured_audio_ms: self.captured_audio_ms,
            state: self.state,
            journal_error: copy_opt(&self.journal_error),
            events,
        }
    }

    /// Takes what waits to be told, as the batch that is told now.
    pub fn drain(&mut self, prev_high_seq: u64) -> (r: SessionEventBatch)
        ensures
            r@ == batch_of(old(self)@, prev_high_seq, r.emitted_at_ms),
            final(self)@ == (SessionView { pending: Seq::empty(), ..old(self)@ }),
    {
        let now: u64 = now_ms();
        self.drain_at(prev_high_seq, now)
    }
}

// ---------------------------------------------------------------------------
// The whole at once
// ---------------------------------------------------------------------------

/// All that is known of a meeting in progress, for whoever has missed something.
#[derive(Debug, PartialEq, Eq)]
pub struct SessionProjection {
    pub state: MeetingState,
    pub seq: u64,
    pub meeting_time_ms: u64,
    pub captured_audio_ms: u64,
    pub segments: Vec<ProjectedSegment>,
    pub speakers: Vec<ProjectedSpeaker>,
    pub notes: Vec<ProjectedNote>,
    pub snapshots: Vec<ProjectedSnapshot>,
    pub pauses: Vec<ProjectedPause>,
}

#[derive(Debug, PartialEq, Eq)]
pub struct ProjectedSegment {
    pub segment_id: u64,
    pub revision: u32,
    pub origin: Origin,
    pub speaker_id: String,
    pub text: String,
    pub meeting_time_ms: u64,
}

pub struct ProjectedSegmentView {
    pub segment_id: u64,
    pub revision: u32,
    pub origin: Origin,
    pub speaker_id: Seq<char>,
    pub text: Seq<char>,
    pub meeting_time_ms: u64,
}

impl View for ProjectedSegment {
    type V = ProjectedSegmentView;

    open spec fn view(&self) -> ProjectedSegmentView {
        ProjectedSegmentView {
            segment_id: self.segment_id,
            revision: self.revision,
            origin: self.origin,
            speaker_id: self.speaker_id@,
            text: self.text@,
            meeting_time_ms: self.meeting_time_ms,
        }
    }
}

#[derive(Debug, PartialEq, Eq)]
pub struct ProjectedSpeaker {
    pub speaker_id: String,
    pub ordinal: u32,
    pub proposed_name: Option<String>,
    pub confirmed_name: Option<String>,
    pub track: Track,
}

impl View for ProjectedSpeaker {
    type V = SpeakerView;

    open spec fn view(&self) -> SpeakerView {
        SpeakerView {
            speaker_id: self.speaker_id@,
            ordinal: self.ordinal,
            proposed_name: opt_view(self.proposed_name),
            confirmed_name: opt_view(self.confirmed_name),
            track: self.track,
        }
    }
}

#[derive(Debug, PartialEq, Eq)]
pub struct ProjectedNote {
    pub note_id: u64,
    pub text: String,
    pub meeting_time_ms: u64,
    pub captured_audio_ms: u64,
}

impl View for ProjectedNote {
    type V = NoteView;

    open spec fn view(&self) -> NoteView {
        NoteView {
            note_id: self.note_id,
            text: self.text@,
            meeting_time_ms: self.meeting_time_ms,
            captured_audio_ms: self.captured_audio_ms,
        }
    }
}

#[derive(Debug, PartialEq, Eq)]
pub struct ProjectedSnapshot {
    pub version: u32,
    pub through_event_seq: u64,
    pub meeting_time_ms: u64,
    pub state: &'static str,
    pub prompt: String,
}

pub struct ProjectedSnapshotView {
    pub version: u32,
    pub through_event_seq: u64,
    pub meeting_time_ms: u64,
    pub state: Seq<char>,
    pub prompt: Seq<char>,
}

impl View for ProjectedSnapshot {
    type V = ProjectedSnapshotView;

    open spec fn view(&self) -> ProjectedSnapshotView {
        ProjectedSnapshotView {
            version: self.version,
            through_event_seq: self.through_event_seq,
            meeting_time_ms: self.meeting_time_ms,
            state: self.state@,
            prompt: self.prompt@,
        }
    }
}

/// The word for what became of a generation.
pub open spec fn run_word(state: RunState) -> Seq<char> {
    match state {
        RunState::Queued => "queued"@,
        RunState::Running => "running"@,
        RunState::Completed => "completed"@,
        RunState::Failed => "failed"@,
    }
}

fn run_name(state: RunState) -> (r: &'static str)
    ensures
        r@ == run_word(state),
{
    match state {
        RunState::Queued => "queued",
        RunState::Running => "running",
        RunState::Completed => "completed",
        RunState::Failed => "failed",
    }
}

/// A segment as it is shown.
pub open spec fn shown_segment(id: u64, r: SegmentView) -> ProjectedSegmentView {
    ProjectedSegmentView {
        segment_id: id,
        revision: r.revision,
        origin: r.origin,
        speaker_id: r.speaker_id,
        text: r.text,
        meeting_time_ms: r.meeting_time_ms,
    }
}

/// A version as it is shown.
pub open spec fn shown_snapshot(s: SnapshotView) -> ProjectedSnapshotView {
    ProjectedSnapshotView {
        version: s.version,
        through_event_seq: s.through_event_seq,
        meeting_time_ms: s.meeting_time_ms,
        state: run_word(s.state),
        prompt: s.prompt,
    }
}

/// Whether a segment is shown before another: by its time, and then by its number.
pub open spec fn shown_before(a: ProjectedSegmentView, b: ProjectedSegmentView) -> bool {
    a.meeting_time_ms < b.meeting_time_ms || (a.meeting_time_ms == b.meeting_time_ms && a.segment_id
        < b.segment_id)
}

/// Whether a list shows some of the segments of a meeting, each once and in order.
pub open spec fn shows_only(
    list: Seq<ProjectedSegmentView>,
    segments: Map<u64, SegmentView>,
) -> bool {
    &&& forall|i: int, j: int|
        0 <= i < j < list.len() ==> shown_before(#[trigger] list[i], #[trigger] list[j])
    &&& forall|i: int|
        #![trigger list[i]]
        0 <= i < list.len() ==> segments.contains_key(list[i].segment_id) && list[i]
            == shown_segment(list[i].segment_id, segments[list[i].segment_id])
}

/// Whether a list shows segment `id`.
pub open spec fn shows(list: Seq<ProjectedSegmentView>, id: u64) -> bool {
    exists|i: int| 0 <= i < list.len() && (#[trigger] list[i]).segment_id == id
}

/// Whether a list shows the segments of a meeting: all of them, each once and in order.
pub open spec fn shows_all(
    list: Seq<ProjectedSegmentView>,
    segments: Map<u64, SegmentView>,
) -> bool {
    &&& shows_only(list, segments)
    &&& forall|id: u64| segments.contains_key(id) ==> #[trigger] shows(list, id)
}

/// Puts a segment into its place in a list.
fn insert_segment(
    list: &mut Vec<ProjectedSegment>,
    seg: ProjectedSegment,
    Ghost(segments): Ghost<Map<u64, SegmentView>>,
)
    requires
        shows_only(views(old(list)@), segments),
        segments.contains_key(seg.segment_id),
        seg@ == shown_segment(seg.segment_id, segments[seg.segment_id]),
        !shows(views(old(list)@), seg.segment_id),
    ensures
        shows_only(views(final(list)@), segments),
        forall|id: u64|
            #[trigger] shows(views(final(list)@), id) <==> shows(views(old(list)@), id) || id
                == seg.segment_id,
{
    let ghost before = views(list@);
    let ghost v = seg@;
    let mut at: usize = 0;
    while at < list.len() && (list[at].meeting_time_ms < seg.meeting_time_ms || (
    list[at].meeting_time_ms == seg.meeting_time_ms && list[at].segment_id < seg.segment_id))
        invariant
            at <= list@.len(),
            before == views(list@),
            v == seg@,
            forall|i: int| 0 <= i < at ==> shown_before(#[trigger] before[i], v),
        decreases list.len() - at,
    {
        assert(before[at as int] == list@[at as int]@);
        at = at + 1;
    }
    if at < list.len() {
        assert(before[at as int] == list@[at as int]@);
        assert(before[at as int].segment_id != v.segment_id);
        assert(shown_before(v, before[at as int]));
    }
    let ghost raw = list@;
    list.insert(at, seg);
    let ghost after = views(list@);
    proof {
        assert(after =~= before.insert(at as int, v));
        assert forall|i: int, j: int| 0 <= i < j < after.len() implies shown_before(
            #[trigger] after[i],
            #[trigger] after[j],
        ) by {
            if j < at {
                assert(after[i] == before[i] && after[j] == before[j]);
            } else if j == at {
                assert(after[i] == before[i]);
            } else if i == at {
                assert(after[j] == before[j - 1]);
                if j - 1 > at {
                    assert(shown_before(before[at as int], before[j - 1]));
                }
            } else if i < at {
                assert(after[i] == before[i] && after[j] == before[j - 1]);
                assert(shown_before(before[i], before[j - 1]));
            } else {
                assert(after[i] == before[i - 1] && after[j] == before[j - 1]);
            }
        }
        assert forall|i: int| #![trigger after[i]] 0 <= i < after.len() implies segments.contains_key(
            after[i].segment_id,
        ) && after[i] == shown_segment(after[i].segment_id, segments[after[i].segment_id]) by {
            if i < at {
                assert(after[i] == before[i]);
            } else if i > at {
                assert(after[i] == before[i - 1]);
            }
        }
        assert forall|id: u64| #[trigger] shows(after, id) <==> shows(before, id) || id
            == v.segment_id by {
            if shows(before, id) {
                let i = choose|i: int| 0 <= i < before.len() && (#[trigger] before[i]).segment_id
                    == id;
                if i < at {
                    assert(after[i].segment_id == id);
                } else {
                    assert(after[i + 1].segment_id == id);
                }
            }
            if id == v.segment_id {
                assert(after[at as int].segment_id == id);
            }
            if shows(after, id) {
                let i = choose|i: int| 0 <= i < after.len() && (#[trigger] after[i]).segment_id
                    == id;
                if i < at {
                    assert(before[i].segment_id == id);
                } else if i > at {
                    assert(before[i - 1].segment_id == id);
                }
            }
        }
    }
}

impl Session {
    fn project_segments(&self) -> (r: Vec<ProjectedSegment>)
        ensures
            shows_all(views(r@), self@.segments),
    {
        let ghost all = self@.segments;
        let mut out: Vec<ProjectedSegment> = Vec::new();
        let ghost mut seen: Set<u64> = Set::empty();
        for id in it: self.segments.keys()
            invariant
                it.seq().unref().to_set() == self.segments@.dom(),
                it.seq().no_duplicates(),
                all == self@.segments,
                shows_only(views(out@), all),
                forall|k: u64|
                    #[trigger] shows(views(out@), k) <==> exists|j: int|
                        0 <= j < it.index() && *(#[trigger] it.seq()[j]) == k,
        {
            let ghost n = it.index();
            assert(*it.seq()[n] == *id);
            assert(it.seq().unref()[n] == *id);
            assert(it.seq().unref().to_set().contains(*id));
            assert(!shows(views(out@), *id)) by {
                if shows(views(out@), *id) {
                    let j = choose|j: int| 0 <= j < n && *(#[trigger] it.seq()[j]) == *id;
                    assert(it.seq()[j] == it.seq()[n]);
                }
            }
            if let Some(rec) = self.get_segment(*id) {
                let seg = ProjectedSegment {
                    segment_id: *id,
                    revision: rec.revision,
                    origin: rec.origin,
                    speaker_id: rec.speaker_id.clone(),
                    text: rec.text.clone(),
                    meeting_time_ms: rec.meeting_time_ms,
                };
                let ghost before = views(out@);
                insert_segment(&mut out, seg, Ghost(all));
                proof {
                    assert forall|k: u64| #[trigger] shows(views(out@), k) <==> exists|j: int|
                        0 <= j < n + 1 && *(#[trigger] it.seq()[j]) == k by {
                        if k == *id {
                            assert(*it.seq()[n] == k);
                        }
                        if shows(before, k) {
                            let j = choose|j: int| 0 <= j < n && *(#[trigger] it.seq()[j]) == k;
                            assert(0 <= j < n + 1 && *it.seq()[j] == k);
                        }
                        if exists|j: int| 0 <= j < n + 1 && *(#[trigger] it.seq()[j]) == k {
                            let j = choose|j: int| 0 <= j < n + 1 && *(#[trigger] it.seq()[j]) == k;
                            if j < n {
                                assert(shows(before, k));
                            }
                        }
                    }
                }
            }
        }
        proof {
            assert forall|k: u64| all.contains_key(k) implies #[trigger] shows(views(out@), k) by {
                assert(self.segments@.dom().contains(k));
            }
        }
        out
    }
}

/// Whether a projection shows a session as it is.
pub open spec fn is_projection(p: SessionProjection, s: SessionView) -> bool {
    &&& p.state == s.state
    &&& p.seq == s.seq
    &&& p.meeting_time_ms == s.meeting_time_ms
    &&& p.captured_audio_ms == s.captured_audio_ms
    &&& shows_all(views(p.segments@), s.segments)
    &&& views(p.speakers@) == s.speakers
    &&& views(p.notes@) == s.notes
    &&& views(p.snapshots@) == Seq::new(
        s.snapshots.len(),
        |i: int| shown_snapshot(s.snapshots[i]),
    )
    &&& p.pauses@ == s.pauses
}

impl Session {
    fn project_speakers(&self) -> (r: Vec<ProjectedSpeaker>)
        ensures
            views(r@) == self@.speakers,
    {
        let ghost all = self@.speakers;
        let mut out: Vec<ProjectedSpeaker> = Vec::new();
        let mut i: usize = 0;
        while i < self.speakers.len()
            invariant
                i <= self.speakers@.len(),
                all == views(self.speakers@),
                views(out@) == all.take(i as int),
            decreases self.speakers.len() - i,
        {
            let s = &self.speakers[i];
            let one = ProjectedSpeaker {
                speaker_id: s.speaker_id.clone(),
                ordinal: s.ordinal,
                proposed_name: copy_opt(&s.proposed_name),
                confirmed_name: copy_opt(&s.confirmed_name),
                track: s.track,
            };
            assert(one@ == all[i as int]);
            out.push(one);
            i = i + 1;
            assert(views(out@) =~= all.take(i as int));
        }
        assert(all.take(i as int) =~= all);
        out
    }

    fn project_notes(&self) -> (r: Vec<ProjectedNote>)
        ensures
            views(r@) == self@.notes,
    {
        let ghost all = self@.notes;
        let mut out: Vec<ProjectedNote> = Vec::new();
        let mut i: usize = 0;
        while i < self.notes.len()
            invariant
                i <= self.notes@.len(),
                all == views(self.notes@),
                views(out@) == all.take(i as int),
            decreases self.notes.len() - i,
        {
            let n = &self.notes[i];
            let one = ProjectedNote {
                note_id: n.note_id,
                text: n.text.clone(),
                meeting_time_ms: n.meeting_time_ms,
                captured_audio_ms: n.captured_audio_ms,
            };
            assert(one@ == all[i as int]);
            out.push(one);
            i = i + 1;
            assert(views(out@) =~= all.take(i as int));
        }
        assert(all.take(i as int) =~= all);
        out
    }

    fn project_snapshots(&self) -> (r: Vec<ProjectedSnapshot>)
        ensures
            views(r@) == Seq::new(
                self@.snapshots.len(),
                |i: int| shown_snapshot(self@.snapshots[i]),
            ),
    {
        let ghost all = Seq::new(
            self@.snapshots.len(),
            |i: int| shown_snapshot(self@.snapshots[i]),
        );
        let mut out: Vec<ProjectedSnapshot> = Vec::new();
        let mut i: usize = 0;
        while i < self.snapshots.len()
            invariant
                i <= self.snapshots@.len(),
                all == Seq::new(
                    self@.snapshots.len(),
                    |i: int| shown_snapshot(self@.snapshots[i]),
                ),
                views(out@) == all.take(i as int),
            decreases self.snapshots.len() - i,
        {
            let s = &self.snapshots[i];
            let one = ProjectedSnapshot {
                version: s.version,
                through_event_seq: s.through_event_seq,
                meeting_time_ms: s.meeting_time_ms,
                state: run_name(s.state),
                prompt: s.prompt.clone(),
            };
            assert(one@ == all[i as int]);
            out.push(one);
            i = i + 1;
            assert(views(out@) =~= all.take(i as int));
        }
        assert(all.take(i as int) =~= all);
        out
    }

    /// All that is known of the meeting. Segments come by their time, speakers in the order in
    /// which they were first heard.
    pub fn projection(&self) -> (r: SessionProjection)
        ensures
            is_projection(r, self@),
    {
        let mut pauses: Vec<ProjectedPause> = Vec::new();
        let mut i: usize = 0;
        while i < self.pauses.len()
            invariant
                i <= self.pauses@.len(),
                pauses@ == self.pauses@.take(i as int),
            decreases self.pauses.len() - i,
        {
            pauses.push(self.pauses[i]);
            i = i + 1;
            assert(pauses@ =~= self.pauses@.take(i as int));
        }
        assert(self.pauses@.take(i as int) =~= self.pauses@);
        SessionProjection {
            state: self.state,
            seq: self.seq,
            meeting_time_ms: self.meeting_time_ms,
            captured_audio_ms: self.captured_audio_ms,
            segments: self.project_segments(),
            speakers: self.project_speakers(),
            notes: self.project_notes(),
            snapshots: self.project_snapshots(),
            pauses,
        }
    }
}

} // verus!
