//! What held of a meeting at a cursor.
//!
//! A cursor is the number of an event. Whatever was recorded after it is not part of what is
//! summed up, shown or exported, however long that takes.

use crate::events::DomainEventView;
use crate::store::{
    StoredNote, StoredNoteView, StoredSegment, StoredSegmentView, StoredSpeaker, StoredSpeakerView,
};
use crate::text::{copy_opt, same, views, views_push};
use vstd::prelude::*;

verus! {

broadcast use views_push;

/// One version of a segment, with the number of the event that made it.
#[derive(Debug, PartialEq, Eq)]
pub struct SegmentRow {
    pub segment: StoredSegment,
    pub created_event_seq: u64,
}

pub struct SegmentRowView {
    pub segment: StoredSegmentView,
    pub created_event_seq: u64,
}

impl View for SegmentRow {
    type V = SegmentRowView;

    open spec fn view(&self) -> SegmentRowView {
        SegmentRowView { segment: self.segment@, created_event_seq: self.created_event_seq }
    }
}

/// A speaker, with the number of the event in which they were first heard.
#[derive(Debug, PartialEq, Eq)]
pub struct SpeakerRow {
    pub speaker: StoredSpeaker,
    pub first_event_seq: u64,
}

pub struct SpeakerRowView {
    pub speaker: StoredSpeakerView,
    pub first_event_seq: u64,
}

impl View for SpeakerRow {
    type V = SpeakerRowView;

    open spec fn view(&self) -> SpeakerRowView {
        SpeakerRowView { speaker: self.speaker@, first_event_seq: self.first_event_seq }
    }
}

/// Whether a row is a version that is replaced by a later one, as far as the cursor goes.
pub open spec fn is_replaced(rows: Seq<SegmentRowView>, i: int, through: u64) -> bool {
    exists|j: int|
        {
            &&& 0 <= j < rows.len()
            &&& (#[trigger] rows[j]).segment.segment_id == rows[i].segment.segment_id
            &&& rows[j].created_event_seq <= through
            &&& rows[j].segment.revision > rows[i].segment.revision
        }
}

/// Whether a row holds at the cursor: it was there, and no later version was.
pub open spec fn is_current(rows: Seq<SegmentRowView>, i: int, through: u64) -> bool {
    rows[i].created_event_seq <= through && !is_replaced(rows, i, through)
}

/// The segments among the first `n` rows that hold at the cursor, in the order of the rows.
pub open spec fn current_among(rows: Seq<SegmentRowView>, n: int, through: u64) -> Seq<
    StoredSegmentView,
>
    decreases n,
{
    if n <= 0 {
        Seq::empty()
    } else {
        let before = current_among(rows, n - 1, through);
        if is_current(rows, n - 1, through) {
            before.push(rows[n - 1].segment)
        } else {
            before
        }
    }
}

/// The segments that hold at the cursor, each in its last version, in the order of the rows.
pub open spec fn segments_at(rows: Seq<SegmentRowView>, through: u64) -> Seq<StoredSegmentView> {
    current_among(rows, rows.len() as int, through)
}

/// The notes that hold at the cursor.
pub open spec fn notes_at(notes: Seq<StoredNoteView>, through: u64) -> Seq<StoredNoteView>
    decreases notes.len(),
{
    if notes.len() == 0 {
        Seq::empty()
    } else {
        let before = notes_at(notes.drop_last(), through);
        if notes.last().event_seq <= through {
            before.push(notes.last())
        } else {
            before
        }
    }
}

/// The speakers who have been heard at the cursor.
pub open spec fn speakers_at(rows: Seq<SpeakerRowView>, through: u64) -> Seq<StoredSpeakerView>
    decreases rows.len(),
{
    if rows.len() == 0 {
        Seq::empty()
    } else {
        let before = speakers_at(rows.drop_last(), through);
        if rows.last().first_event_seq <= through {
            before.push(rows.last().speaker)
        } else {
            before
        }
    }
}

fn replaced(rows: &[SegmentRow], i: usize, through: u64) -> (r: bool)
    requires
        i < rows@.len(),
    ensures
        r == is_replaced(views(rows@), i as int, through),
{
    let ghost all = views(rows@);
    let mut j: usize = 0;
    while j < rows.len()
        invariant
            i < rows@.len(),
            j <= rows@.len(),
            all == views(rows@),
            forall|k: int|
                0 <= k < j ==> !((#[trigger] all[k]).segment.segment_id == all[i as int].segment.segment_id
                    && all[k].created_event_seq <= through && all[k].segment.revision
                    > all[i as int].segment.revision),
        decreases rows.len() - j,
    {
        assert(all[j as int] == rows@[j as int]@);
        assert(all[i as int] == rows@[i as int]@);
        if rows[j].segment.segment_id == rows[i].segment.segment_id && rows[j].created_event_seq
            <= through && rows[j].segment.revision > rows[i].segment.revision {
            return true;
        }
        j = j + 1;
    }
    false
}

/// The segments that hold at the cursor, each in its last version, in the order of the rows.
pub fn segments_through(rows: &[SegmentRow], through: u64) -> (r: Vec<StoredSegment>)
    ensures
        views(r@) == segments_at(views(rows@), through),
{
    let ghost all = views(rows@);
    let mut out: Vec<StoredSegment> = Vec::new();
    let mut i: usize = 0;
    assert(views(out@) =~= current_among(all, 0, through));
    while i < rows.len()
        invariant
            i <= rows@.len(),
            all == views(rows@),
            views(out@) == current_among(all, i as int, through),
        decreases rows.len() - i,
    {
        assert(all[i as int] == rows@[i as int]@);
        if rows[i].created_event_seq <= through && !replaced(rows, i, through) {
            out.push(rows[i].segment.clone());
        }
        i = i + 1;
    }
    out
}

/// The notes that hold at the cursor.
pub fn notes_through(notes: &[StoredNote], through: u64) -> (r: Vec<StoredNote>)
    ensures
        views(r@) == notes_at(views(notes@), through),
{
    let ghost all = views(notes@);
    let mut out: Vec<StoredNote> = Vec::new();
    let mut i: usize = 0;
    assert(views(out@) =~= notes_at(all.take(0), through));
    while i < notes.len()
        invariant
            i <= notes@.len(),
            all == views(notes@),
            views(out@) == notes_at(all.take(i as int), through),
        decreases notes.len() - i,
    {
        assert(all.take(i + 1).drop_last() =~= all.take(i as int));
        assert(all.take(i + 1).last() == notes@[i as int]@);
        if notes[i].event_seq <= through {
            out.push(notes[i].clone());
        }
        i = i + 1;
    }
    assert(all.take(i as int) =~= all);
    out
}

fn copy_speaker(s: &StoredSpeaker) -> (r: StoredSpeaker)
    ensures
        r@ == s@,
{
    StoredSpeaker {
        speaker_id: s.speaker_id.clone(),
        ordinal: s.ordinal,
        proposed_name: copy_opt(&s.proposed_name),
        confirmed_name: copy_opt(&s.confirmed_name),
        status: s.status.clone(),
    }
}

/// The speakers who have been heard at the cursor.
pub fn speakers_through(rows: &[SpeakerRow], through: u64) -> (r: Vec<StoredSpeaker>)
    ensures
        views(r@) == speakers_at(views(rows@), through),
{
    let ghost all = views(rows@);
    let mut out: Vec<StoredSpeaker> = Vec::new();
    let mut i: usize = 0;
    assert(views(out@) =~= speakers_at(all.take(0), through));
    while i < rows.len()
        invariant
            i <= rows@.len(),
            all == views(rows@),
            views(out@) == speakers_at(all.take(i as int), through),
        decreases rows.len() - i,
    {
        assert(all.take(i + 1).drop_last() =~= all.take(i as int));
        assert(all.take(i + 1).last() == rows@[i as int]@);
        if rows[i].first_event_seq <= through {
            out.push(copy_speaker(&rows[i].speaker));
        }
        i = i + 1;
    }
    assert(all.take(i as int) =~= all);
    out
}

// ---------------------------------------------------------------------------
// What a cursor does not cover
// ---------------------------------------------------------------------------

/// An event of the log: its number, and the name of its kind.
#[derive(Debug, PartialEq, Eq)]
pub struct EventRow {
    pub seq: u64,
    pub kind: String,
}

pub struct EventRowView {
    pub seq: u64,
    pub kind: Seq<char>,
}

impl View for EventRow {
    type V = EventRowView;

    open spec fn view(&self) -> EventRowView {
        EventRowView { seq: self.seq, kind: self.kind@ }
    }
}

/// Whether events of a kind hold something that was said or written. What is recorded of
/// summaries themselves is not.
pub open spec fn is_content(kind: Seq<char>) -> bool {
    ||| kind == "TranscriptSegmentFinalized"@
    ||| kind == "TranscriptSegmentRevised"@
    ||| kind == "TranscriptSegmentEdited"@
    ||| kind == "NoteAdded"@
}

/// How many events with content come after the cursor.
pub open spec fn content_after(events: Seq<EventRowView>, through: u64) -> nat
    decreases events.len(),
{
    if events.len() == 0 {
        0
    } else {
        content_after(events.drop_last(), through) + if events.last().seq > through && is_content(
            events.last().kind,
        ) {
            1nat
        } else {
            0nat
        }
    }
}

/// Counts the events with content after the cursor.
pub fn content_events_after(events: &[EventRow], through: u64) -> (r: u64)
    ensures
        r == content_after(views(events@), through),
{
    let ghost all = views(events@);
    let size: usize = events.len();
    let mut count: u64 = 0;
    let mut i: usize = 0;
    while i < size
        invariant
            i <= size,
            size == events@.len(),
            all == views(events@),
            count <= i,
            count == content_after(all.take(i as int), through),
        decreases size - i,
    {
        assert(all.take(i + 1).drop_last() =~= all.take(i as int));
        assert(all.take(i + 1).last() == events@[i as int]@);
        let kind = events[i].kind.as_str();
        let content: bool = same(kind, "TranscriptSegmentFinalized") || same(
            kind,
            "TranscriptSegmentRevised",
        ) || same(kind, "TranscriptSegmentEdited") || same(kind, "NoteAdded");
        if events[i].seq > through && content {
            count = count + 1;
        }
        i = i + 1;
    }
    assert(all.take(i as int) =~= all);
    count
}

/// The names of the kinds say which events have content: segments and notes, and nothing that
/// is recorded of a meeting's state, its speakers or its summaries.
pub proof fn kinds_tell_content(e: DomainEventView)
    ensures
        is_content(e.kind_name()) <==> (e is TranscriptSegmentFinalized
            || e is TranscriptSegmentRevised || e is TranscriptSegmentEdited || e is NoteAdded),
{
    reveal_strlit("TranscriptSegmentFinalized");
    reveal_strlit("TranscriptSegmentRevised");
    reveal_strlit("TranscriptSegmentEdited");
    reveal_strlit("NoteAdded");
    reveal_strlit("MeetingStateChanged");
    reveal_strlit("SpeakerProposed");
    reveal_strlit("SpeakerConfirmed");
    reveal_strlit("SnapshotCreated");
    reveal_strlit("GenerationCompleted");
    reveal_strlit("GenerationFailed");
    assert("TranscriptSegmentFinalized"@.len() == 26);
    assert("TranscriptSegmentRevised"@.len() == 24);
    assert("TranscriptSegmentEdited"@.len() == 23);
    assert("NoteAdded"@.len() == 9);
    assert("MeetingStateChanged"@.len() == 19);
    assert("SpeakerProposed"@.len() == 15);
    assert("SpeakerConfirmed"@.len() == 16);
    assert("SnapshotCreated"@.len() == 15);
    assert("GenerationCompleted"@.len() == 19);
    assert("GenerationFailed"@.len() == 16);
}

// ---------------------------------------------------------------------------
// What comes later
// ---------------------------------------------------------------------------

proof fn lemma_later_rows(rows: Seq<SegmentRowView>, more: Seq<SegmentRowView>, n: int, through: u64)
    requires
        forall|k: int| 0 <= k < more.len() ==> (#[trigger] more[k]).created_event_seq > through,
        0 <= n <= rows.len(),
    ensures
        current_among(rows + more, n, through) == current_among(rows, n, through),
    decreases n,
{
    if n > 0 {
        lemma_later_rows(rows, more, n - 1, through);
        let all = rows + more;
        let i = n - 1;
        assert(all[i] == rows[i]);
        if is_replaced(all, i, through) {
            let j = choose|j: int|
                {
                    &&& 0 <= j < all.len()
                    &&& (#[trigger] all[j]).segment.segment_id == all[i].segment.segment_id
                    &&& all[j].created_event_seq <= through
                    &&& all[j].segment.revision > all[i].segment.revision
                };
            if j >= rows.len() {
                assert(all[j] == more[j - rows.len()]);
            }
            assert(rows[j] == all[j]);
        }
        if is_replaced(rows, i, through) {
            let j = choose|j: int|
                {
                    &&& 0 <= j < rows.len()
                    &&& (#[trigger] rows[j]).segment.segment_id == rows[i].segment.segment_id
                    &&& rows[j].created_event_seq <= through
                    &&& rows[j].segment.revision > rows[i].segment.revision
                };
            assert(all[j] == rows[j]);
        }
    }
}

proof fn lemma_later_rows_add_nothing(
    rows: Seq<SegmentRowView>,
    more: Seq<SegmentRowView>,
    n: int,
    through: u64,
)
    requires
        forall|k: int| 0 <= k < more.len() ==> (#[trigger] more[k]).created_event_seq > through,
        rows.len() <= n <= rows.len() + more.len(),
    ensures
        current_among(rows + more, n, through) == current_among(
            rows + more,
            rows.len() as int,
            through,
        ),
    decreases n,
{
    if n > rows.len() {
        lemma_later_rows_add_nothing(rows, more, n - 1, through);
        assert((rows + more)[n - 1] == more[n - 1 - rows.len()]);
    }
}

/// Whatever is recorded after the cursor, words and corrections, notes and speakers: what holds
/// at the cursor stays as it is.
pub proof fn what_comes_later_is_not_seen(
    segments: Seq<SegmentRowView>,
    more_segments: Seq<SegmentRowView>,
    notes: Seq<StoredNoteView>,
    more_notes: Seq<StoredNoteView>,
    speakers: Seq<SpeakerRowView>,
    more_speakers: Seq<SpeakerRowView>,
    through: u64,
)
    requires
        forall|k: int|
            0 <= k < more_segments.len() ==> (#[trigger] more_segments[k]).created_event_seq
                > through,
        forall|k: int|
            0 <= k < more_notes.len() ==> (#[trigger] more_notes[k]).event_seq > through,
        forall|k: int|
            0 <= k < more_speakers.len() ==> (#[trigger] more_speakers[k]).first_event_seq > through,
    ensures
        segments_at(segments + more_segments, through) == segments_at(segments, through),
        notes_at(notes + more_notes, through) == notes_at(notes, through),
        speakers_at(speakers + more_speakers, through) == speakers_at(speakers, through),
    decreases more_notes.len() + more_speakers.len(),
{
    lemma_later_rows(segments, more_segments, segments.len() as int, through);
    lemma_later_rows_add_nothing(
        segments,
        more_segments,
        (segments + more_segments).len() as int,
        through,
    );
    if more_notes.len() > 0 {
        let rest = more_notes.drop_last();
        what_comes_later_is_not_seen(
            segments,
            more_segments,
            notes,
            rest,
            speakers,
            more_speakers,
            through,
        );
        assert((notes + more_notes).drop_last() =~= notes + rest);
        assert((notes + more_notes).last() == more_notes[more_notes.len() - 1]);
    } else {
        assert(notes + more_notes =~= notes);
        if more_speakers.len() > 0 {
            let rest = more_speakers.drop_last();
            what_comes_later_is_not_seen(
                segments,
                more_segments,
                notes,
                more_notes,
                speakers,
                rest,
                through,
            );
            assert((speakers + more_speakers).drop_last() =~= speakers + rest);
            assert((speakers + more_speakers).last() == more_speakers[more_speakers.len() - 1]);
        } else {
            assert(speakers + more_speakers =~= speakers);
        }
    }
}

proof fn lemma_current_among(rows: Seq<SegmentRowView>, n: int, through: u64, k: int)
    requires
        0 <= n <= rows.len(),
        0 <= k < current_among(rows, n, through).len(),
    ensures
        exists|i: int|
            0 <= i < n && is_current(rows, i, through) && (#[trigger] rows[i]).segment
                == current_among(rows, n, through)[k],
    decreases n,
{
    let before = current_among(rows, n - 1, through);
    if k < before.len() {
        lemma_current_among(rows, n - 1, through, k);
    } else {
        assert(rows[n - 1].segment == current_among(rows, n, through)[k]);
    }
}

/// A segment that holds at the cursor is a version from before it, and the last such version.
pub proof fn each_segment_is_its_last_version(rows: Seq<SegmentRowView>, through: u64, k: int, j: int)
    requires
        0 <= k < segments_at(rows, through).len(),
        0 <= j < rows.len(),
        rows[j].segment.segment_id == segments_at(rows, through)[k].segment_id,
        rows[j].created_event_seq <= through,
    ensures
        rows[j].segment.revision <= segments_at(rows, through)[k].revision,
        exists|i: int|
            0 <= i < rows.len() && (#[trigger] rows[i]).created_event_seq <= through
                && rows[i].segment == segments_at(rows, through)[k],
{
    lemma_current_among(rows, rows.len() as int, through, k);
    let i = choose|i: int|
        0 <= i < rows.len() && is_current(rows, i, through) && (#[trigger] rows[i]).segment
            == segments_at(rows, through)[k];
    assert(rows[i].created_event_seq <= through);
    assert(!is_replaced(rows, i, through));
    assert(rows[j].segment.segment_id == rows[i].segment.segment_id);
}

} // verus!
