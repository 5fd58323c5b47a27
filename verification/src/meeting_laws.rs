//! What each thing that happens in a meeting leaves behind, for whoever watches and in the log.

use crate::events::{
    DomainEventView, SegmentRevisionView, SessionEventView, TranscriptInputView, UsageView,
};
use crate::model::{Health, MeetingState, Origin, Timeline, Track, UNKNOWN_REMOTE};
use crate::session::{batch_of, event_numbers, is_projection, shows, SessionProjection};
use crate::session_model::{
    blank_session, is_known, IdSeeds, NoteView, ProjectedPause, RunState, SegmentView, SessionView,
    SnapshotView, SpeakerView,
};
use crate::store::{DocumentBlockView, MeetingId};
use crate::text::{blank, trimmed, trimmed_is_empty_iff_blank, views};
use vstd::prelude::*;

verus! {

/// Whether a decisive event was added, and nothing else that waits was touched: it has the next
/// number, is told once, and is logged once with the moment it happened.
pub open spec fn adds_event(
    s: SessionView,
    t: SessionView,
    logged: DomainEventView,
    told: SessionEventView,
) -> bool {
    &&& t.seq == s.seq + 1
    &&& t.pending == s.pending.push(told)
    &&& t.journal == s.journal.push(
        (
            logged,
            Timeline {
                meeting_time_ms: s.meeting_time_ms,
                captured_audio_ms: s.captured_audio_ms,
            },
        ),
    )
    &&& t.journal_error == s.journal_error
    &&& t.meeting_time_ms == s.meeting_time_ms
    &&& t.captured_audio_ms == s.captured_audio_ms
    &&& t.last_settled_ms == s.last_settled_ms
}

/// Whether nothing of the transcript has changed.
pub open spec fn same_transcript(s: SessionView, t: SessionView) -> bool {
    t.segments == s.segments && t.intervals == s.intervals
}

/// Whether nothing of the state of a meeting has changed.
pub open spec fn same_meeting(s: SessionView, t: SessionView) -> bool {
    &&& t.state == s.state
    &&& t.meeting_id == s.meeting_id
    &&& t.pauses == s.pauses
    &&& t.mic_health == s.mic_health
    &&& t.stt_health == s.stt_health
    &&& t.source_paused == s.source_paused
    &&& t.source_flushing == s.source_flushing
}

/// Whether nothing of the versions of the document has changed.
pub open spec fn same_versions(s: SessionView, t: SessionView) -> bool {
    &&& t.snapshots == s.snapshots
    &&& t.document_id == s.document_id
    &&& t.next_document_id == s.next_document_id
    &&& t.next_run_id == s.next_run_id
}

// ---------------------------------------------------------------------------
// What the user does
// ---------------------------------------------------------------------------

/// A note is kept with its words, without the white space around them, and with the moment at
/// which it was taken; it gets the next number, and nothing else changes. It is taken exactly
/// where there are words, the meeting is live, and the log can be written.
pub proof fn notes_are_kept(s: SessionView, text: Seq<char>)
    requires
        s.has_room(),
    ensures
        ({
            let (t, r) = s.noted(text);
            let live = s.state is Recording || s.state is Paused;
            &&& r.accepted <==> !blank(text) && live && s.journal_error is None
            &&& r.accepted ==> {
                &&& adds_event(
                    s,
                    t,
                    DomainEventView::NoteAdded { note_id: s.next_note_id, text: trimmed(text) },
                    SessionEventView::NoteAdded {
                        seq: (s.seq + 1) as u64,
                        note_id: s.next_note_id,
                        text: trimmed(text),
                        meeting_time_ms: s.meeting_time_ms,
                        captured_audio_ms: s.captured_audio_ms,
                    },
                )
                &&& t.notes.len() == s.notes.len() + 1
                &&& t.notes.drop_last() == s.notes
                &&& t.notes.last() == (NoteView {
                    note_id: s.next_note_id,
                    text: trimmed(text),
                    meeting_time_ms: s.meeting_time_ms,
                    captured_audio_ms: s.captured_audio_ms,
                })
                &&& t.next_note_id == s.next_note_id + 1
                &&& same_transcript(s, t) && same_meeting(s, t) && same_versions(s, t)
                &&& t.speakers == s.speakers
            }
        }),
{
    trimmed_is_empty_iff_blank(text);
    let t = s.noted(text).0;
    if s.noted(text).1.accepted {
        assert(t.notes.drop_last() =~= s.notes);
    }
}

/// A name is confirmed for the speaker it is given to and for nobody else. It is taken exactly
/// where there is one, the meeting has begun, the log can be written, and the speaker is known
/// and one of those who can be told apart.
pub proof fn names_are_confirmed(s: SessionView, id: Seq<char>, name: Seq<char>)
    requires
        s.has_room(),
    ensures
        ({
            let (t, r) = s.named(id, name);
            &&& r.accepted <==> !blank(name) && !(s.state is Idle) && !(s.state is Stopping)
                && s.journal_error is None && id != UNKNOWN_REMOTE@ && exists|i: int|
                0 <= i < s.speakers.len() && (#[trigger] s.speakers[i]).speaker_id == id
            &&& r.accepted ==> {
                &&& adds_event(
                    s,
                    t,
                    DomainEventView::SpeakerConfirmed { speaker_id: id, name: trimmed(name) },
                    SessionEventView::SpeakerConfirmed {
                        seq: (s.seq + 1) as u64,
                        speaker_id: id,
                        name: trimmed(name),
                    },
                )
                &&& t.speakers.len() == s.speakers.len()
                &&& forall|i: int|
                    0 <= i < s.speakers.len() ==> #[trigger] t.speakers[i] == if s.speakers[i].speaker_id
                        == id {
                        SpeakerView { confirmed_name: Some(trimmed(name)), ..s.speakers[i] }
                    } else {
                        s.speakers[i]
                    }
                &&& same_transcript(s, t) && same_meeting(s, t) && same_versions(s, t)
                &&& t.notes == s.notes
            }
        }),
{
    trimmed_is_empty_iff_blank(name);
}

/// What the user writes takes the place of the words of that segment and of no other, as its
/// next version; when it was said, by whom and on which track stay. It is taken exactly where
/// there are words, the meeting is live, the log can be written, and there is such a segment.
pub proof fn edits_are_kept(s: SessionView, id: u64, text: Seq<char>)
    requires
        s.has_room(),
        s.segments.contains_key(id) ==> s.segments[id].revision < u32::MAX,
    ensures
        ({
            let (t, r) = s.edited(id, text);
            let live = s.state is Recording || s.state is Paused;
            let old = s.segments[id];
            &&& r.accepted <==> !blank(text) && live && s.journal_error is None
                && s.segments.contains_key(id)
            &&& r.accepted ==> {
                &&& t.segments.dom() == s.segments.dom()
                &&& t.segments[id].text == trimmed(text)
                &&& t.segments[id].revision == old.revision + 1
                &&& t.segments[id].origin is User
                &&& t.segments[id].speaker_id == old.speaker_id
                &&& t.segments[id].track == old.track
                &&& t.segments[id].first_seen == old.first_seen
                &&& t.segments[id].meeting_time_ms == old.meeting_time_ms
                &&& t.segments[id].finalized == old.finalized
                &&& forall|k: u64| k != id ==> #[trigger] t.segments[k] == s.segments[k]
                &&& t.seq == s.seq + 1
                &&& t.pending == s.pending.push(
                    SessionEventView::TranscriptEdited {
                        seq: (s.seq + 1) as u64,
                        segment_id: id,
                        revision: (old.revision + 1) as u32,
                        origin: Origin::User,
                        text: trimmed(text),
                    },
                )
                &&& t.journal.len() == s.journal.len() + 1
                &&& t.journal.drop_last() == s.journal
                &&& t.journal.last().0 matches DomainEventView::TranscriptSegmentEdited { segment }
                    && segment.segment_id == id && segment.text == trimmed(text)
                    && segment.revision == old.revision + 1 && segment.origin is User
                    && segment.speaker_id == Some(old.speaker_id) && segment.track == old.track
                    && segment.meeting_start_ms == old.first_seen.meeting_time_ms
                    && segment.captured_start_ms == old.first_seen.captured_audio_ms
                    && segment.captured_end_ms == old.first_seen.captured_audio_ms
                    && segment.meeting_end_ms >= segment.meeting_start_ms
                &&& t.intervals == s.intervals && same_meeting(s, t) && same_versions(s, t)
                &&& t.speakers == s.speakers && t.notes == s.notes
            }
        }),
{
    trimmed_is_empty_iff_blank(text);
    let t = s.edited(id, text).0;
    if s.edited(id, text).1.accepted {
        assert(t.segments.dom() =~= s.segments.dom());
        assert(t.journal.drop_last() =~= s.journal);
    }
}

// ---------------------------------------------------------------------------
// The course of a meeting
// ---------------------------------------------------------------------------

/// A meeting is started once, under its own name; it is paused while it records, goes on while
/// it is paused, and is stopped in either. Each is told and logged with the moment it happened.
pub proof fn a_meeting_takes_its_course(s: SessionView, meeting: MeetingId, seeds: IdSeeds)
    requires
        s.has_room(),
        seeds.document_id < i64::MAX,
        seeds.run_id < i64::MAX,
    ensures
        ({
            let (t, r) = s.started(meeting, seeds);
            &&& r.accepted <==> s.state is Idle
            &&& r.accepted ==> {
                &&& t.state is Recording
                &&& t.meeting_id == Some(meeting)
                &&& t.next_document_id == seeds.document_id + 1
                &&& t.next_run_id == seeds.run_id + 1
                &&& t.seq == s.seq + 1
                &&& t.journal.last().0 == (DomainEventView::MeetingStateChanged {
                    state: MeetingState::Recording,
                })
                &&& same_transcript(s, t) && t.speakers == s.speakers && t.notes == s.notes
                    && t.snapshots == s.snapshots
            }
        }),
        ({
            let (t, r) = s.paused();
            &&& r.accepted <==> s.state is Recording
            &&& r.accepted ==> {
                &&& t.state is Paused
                &&& t.source_paused
                &&& t.pauses == s.pauses.push(
                    ProjectedPause { from_ms: s.meeting_time_ms, to_ms: None },
                )
                &&& adds_event(
                    s,
                    t,
                    DomainEventView::MeetingStateChanged { state: MeetingState::Paused },
                    SessionEventView::MeetingStateChanged {
                        seq: (s.seq + 1) as u64,
                        state: MeetingState::Paused,
                        meeting_time_ms: s.meeting_time_ms,
                        captured_audio_ms: s.captured_audio_ms,
                    },
                )
                &&& same_transcript(s, t) && same_versions(s, t) && t.speakers == s.speakers
                    && t.notes == s.notes
            }
        }),
        ({
            let (t, r) = s.resumed();
            &&& r.accepted <==> s.state is Paused
            &&& r.accepted ==> {
                &&& t.state is Recording
                &&& !t.source_paused
                &&& adds_event(
                    s,
                    t,
                    DomainEventView::MeetingStateChanged { state: MeetingState::Recording },
                    SessionEventView::MeetingStateChanged {
                        seq: (s.seq + 1) as u64,
                        state: MeetingState::Recording,
                        meeting_time_ms: s.meeting_time_ms,
                        captured_audio_ms: s.captured_audio_ms,
                    },
                )
                &&& same_transcript(s, t) && same_versions(s, t) && t.speakers == s.speakers
                    && t.notes == s.notes
            }
        }),
        ({
            let (t, r) = s.stopped();
            let n = s.journal.len() as int;
            &&& r.accepted <==> s.state is Recording || s.state is Paused
            &&& r.accepted ==> {
                &&& t.state is Finalizing
                &&& t.source_flushing
                &&& t.seq == s.seq + 2
                &&& t.journal.len() == n + 2
                &&& t.journal.take(n) == s.journal
                &&& t.journal[n].0 == (DomainEventView::MeetingStateChanged {
                    state: MeetingState::Stopping,
                })
                &&& t.journal[n + 1].0 == (DomainEventView::MeetingStateChanged {
                    state: MeetingState::Finalizing,
                })
                &&& same_transcript(s, t) && same_versions(s, t) && t.speakers == s.speakers
                    && t.notes == s.notes
            }
        }),
{
    let t = s.stopped().0;
    if s.stopped().1.accepted {
        assert(t.journal.take(s.journal.len() as int) =~= s.journal);
    }
}

// ---------------------------------------------------------------------------
// What a source gives
// ---------------------------------------------------------------------------

/// A voice is entered when it is first heard, after those before it, under the next place in
/// the list and the track it is on; a voice that is known is not entered again.
pub proof fn voices_are_entered_once(s: SessionView, id: Seq<char>, track: Track)
    requires
        s.can_take_in(),
    ensures
        ({
            let t = s.heard(id, track);
            let known = exists|i: int|
                0 <= i < s.speakers.len() && (#[trigger] s.speakers[i]).speaker_id == id;
            &&& known ==> t == s
            &&& !known ==> {
                &&& t.speakers.len() == s.speakers.len() + 1
                &&& t.speakers.drop_last() == s.speakers
                &&& t.speakers.last() == (SpeakerView {
                    speaker_id: id,
                    ordinal: (s.speakers.len() + 1) as u32,
                    proposed_name: None,
                    confirmed_name: None,
                    track,
                })
                &&& adds_event(
                    s,
                    t,
                    DomainEventView::SpeakerProposed {
                        speaker_id: id,
                        ordinal: (s.speakers.len() + 1) as u32,
                        proposed_name: None,
                        provider_labels: seq![id],
                    },
                    SessionEventView::SpeakerProposed {
                        seq: (s.seq + 1) as u64,
                        speaker_id: id,
                        ordinal: (s.speakers.len() + 1) as u32,
                        proposed_name: None,
                        track,
                    },
                )
                &&& same_transcript(s, t) && same_meeting(s, t) && same_versions(s, t)
                &&& t.notes == s.notes
            }
        }),
{
    let t = s.heard(id, track);
    if !is_known(s.speakers, id) {
        assert(t.speakers.drop_last() =~= s.speakers);
    }
}

/// What is being spoken is shown with the words that have come last; a segment that is new gets
/// the moment at which it was first seen. No other segment changes.
pub proof fn partials_show_the_last_words(
    s: SessionView,
    id: u64,
    speaker: Seq<char>,
    text: Seq<char>,
    track: Track,
)
    requires
        s.can_take_in(),
        s.segments.contains_key(id) ==> !s.segments[id].finalized && !(s.segments[id].origin is User),
    ensures
        ({
            let t = s.taken_in(
                TranscriptInputView::Partial { segment_id: id, speaker_id: speaker, text, track },
            );
            &&& t.segments.dom() == s.segments.dom().insert(id)
            &&& t.segments[id].text == text
            &&& !t.segments[id].finalized
            &&& s.segments.contains_key(id) ==> t.segments[id] == (SegmentView {
                text,
                ..s.segments[id]
            })
            &&& !s.segments.contains_key(id) ==> t.segments[id] == (SegmentView {
                speaker_id: speaker,
                text,
                meeting_time_ms: s.meeting_time_ms,
                track,
                first_seen: Timeline {
                    meeting_time_ms: s.meeting_time_ms,
                    captured_audio_ms: s.captured_audio_ms,
                },
                revision: 0,
                origin: Origin::Provider,
                finalized: false,
            })
            &&& forall|k: u64| k != id ==> #[trigger] t.segments[k] == s.segments[k]
            &&& t.pending.last() == (SessionEventView::TranscriptPartial {
                segment_id: id,
                speaker_id: speaker,
                text,
                meeting_time_ms: s.meeting_time_ms,
            })
            &&& t.intervals == s.intervals && t.notes == s.notes && same_meeting(s, t)
                && same_versions(s, t)
        }),
{
    let t = s.taken_in(
        TranscriptInputView::Partial { segment_id: id, speaker_id: speaker, text, track },
    );
    assert(t.segments.dom() =~= s.segments.dom().insert(id));
}

/// A final segment over audio that nothing stands for yet is kept with its words, its speaker and
/// its track, as its first version. Where the source knows its place in the audio it began there,
/// as far before the present moment as that audio lies back; otherwise when it was first seen.
/// It is told and logged with that, and no other segment changes.
pub proof fn final_words_are_kept(
    s: SessionView,
    id: u64,
    speaker: Seq<char>,
    text: Seq<char>,
    track: Track,
    span: Option<(u64, u64)>,
)
    requires
        s.can_take_in(),
        s.segments.contains_key(id) ==> !s.segments[id].finalized && !(s.segments[id].origin is User),
        ({
            let first = if s.segments.contains_key(id) {
                s.segments[id].first_seen.captured_audio_ms
            } else {
                s.captured_audio_ms
            };
            let key = match span {
                Some((start, end)) => (track, start, end),
                None => (track, first, s.captured_audio_ms),
            };
            !s.intervals.contains_key(key) || s.intervals[key] == id
        }),
    ensures
        ({
            let t = s.taken_in(
                TranscriptInputView::Final {
                    segment_id: id,
                    speaker_id: speaker,
                    text,
                    track,
                    audio_span: span,
                },
            );
            let rec = t.segments[id];
            let first = if s.segments.contains_key(id) {
                s.segments[id].first_seen
            } else {
                Timeline {
                    meeting_time_ms: s.meeting_time_ms,
                    captured_audio_ms: s.captured_audio_ms,
                }
            };
            let key = match span {
                Some((start, end)) => (track, start, end),
                None => (track, first.captured_audio_ms, s.captured_audio_ms),
            };
            &&& t.segments.dom() == s.segments.dom().insert(id)
            &&& rec.text == text && rec.speaker_id == speaker && rec.track == track
            &&& rec.revision == 1 && rec.origin is Provider && rec.finalized
            &&& rec.meeting_time_ms == rec.first_seen.meeting_time_ms
            &&& span is None ==> rec.first_seen == first
            &&& span matches Some((start, _)) ==> {
                &&& rec.first_seen.captured_audio_ms == start
                &&& start <= s.captured_audio_ms && s.captured_audio_ms - start
                    <= s.meeting_time_ms ==> s.meeting_time_ms - rec.first_seen.meeting_time_ms
                    == s.captured_audio_ms - start
                &&& start > s.captured_audio_ms ==> rec.first_seen.meeting_time_ms
                    == s.meeting_time_ms
                &&& start <= s.captured_audio_ms && s.captured_audio_ms - start > s.meeting_time_ms
                    ==> rec.first_seen.meeting_time_ms == 0
            }
            &&& t.intervals == s.intervals.insert(key, id)
            &&& forall|k: u64| k != id ==> #[trigger] t.segments[k] == s.segments[k]
            &&& t.pending.last() == (SessionEventView::TranscriptFinalized {
                seq: t.seq,
                segment_id: id,
                revision: 1,
                origin: Origin::Provider,
                speaker_id: speaker,
                text,
                meeting_time_ms: rec.first_seen.meeting_time_ms,
                captured_audio_ms: s.captured_audio_ms,
            })
            &&& t.journal.last() == (
                DomainEventView::TranscriptSegmentFinalized {
                    segment: SegmentRevisionView {
                        segment_id: id,
                        revision: 1,
                        text,
                        speaker_id: Some(speaker),
                        track,
                        meeting_start_ms: rec.first_seen.meeting_time_ms,
                        meeting_end_ms: s.meeting_time_ms,
                        captured_start_ms: rec.first_seen.captured_audio_ms,
                        captured_end_ms: s.captured_audio_ms,
                        origin: Origin::Provider,
                    },
                },
                Timeline {
                    meeting_time_ms: s.meeting_time_ms,
                    captured_audio_ms: s.captured_audio_ms,
                },
            )
            &&& exists|i: int|
                0 <= i < t.speakers.len() && (#[trigger] t.speakers[i]).speaker_id == speaker
            &&& t.notes == s.notes && same_meeting(s, t) && same_versions(s, t)
        }),
{
    let t = s.taken_in(
        TranscriptInputView::Final {
            segment_id: id,
            speaker_id: speaker,
            text,
            track,
            audio_span: span,
        },
    );
    assert(t.segments.dom() =~= s.segments.dom().insert(id));
    if is_known(s.speakers, speaker) {
        let i = choose|i: int|
            0 <= i < s.speakers.len() && (#[trigger] s.speakers[i]).speaker_id == speaker;
        assert(t.speakers[i].speaker_id == speaker);
    } else {
        assert(t.speakers[s.speakers.len() as int].speaker_id == speaker);
    }
}

/// All that a source gives in a window is taken in, one after another in its order.
pub proof fn inputs_are_taken_in_order(
    s: SessionView,
    a: Seq<TranscriptInputView>,
    b: Seq<TranscriptInputView>,
    one: TranscriptInputView,
)
    ensures
        s.all_taken_in(a + b) == s.all_taken_in(a).all_taken_in(b),
        s.all_taken_in(seq![one]) == s.taken_in(one),
        s.all_taken_in(Seq::empty()) == s,
    decreases b.len(),
{
    let single = seq![one];
    assert(single.drop_last() =~= Seq::empty());
    assert(single.last() == one);
    assert(s.all_taken_in(single.drop_last()) == s);
    if b.len() == 0 {
        assert(a + b =~= a);
    } else {
        inputs_are_taken_in_order(s, a, b.drop_last(), one);
        assert((a + b).drop_last() =~= a + b.drop_last());
        assert((a + b).last() == b.last());
    }
}

/// In a window the source goes on for as long as has passed, and for a tenth of a second at
/// least; it is asked while recording and while the last words are awaited, as long as speech is
/// recognised, and what it gives is taken in.
pub proof fn windows_ask_for_what_has_passed(
    s: SessionView,
    elapsed_ms: u64,
    measured: bool,
    inputs: Seq<TranscriptInputView>,
    drained: bool,
)
    ensures
        ({
            let asked = (s.state is Recording || s.state is Finalizing) && s.stt_health is Healthy;
            let t = s.window(elapsed_ms, measured, inputs, drained);
            let b = s.window_begun(elapsed_ms, measured);
            &&& s.to_poll(elapsed_ms) is Some <==> asked
            &&& asked ==> {
                &&& s.to_poll(elapsed_ms)->0 >= 100
                &&& elapsed_ms - s.last_settled_ms >= 100 ==> s.to_poll(elapsed_ms)->0
                    == elapsed_ms - s.last_settled_ms
                &&& elapsed_ms - s.last_settled_ms < 100 ==> s.to_poll(elapsed_ms)->0 == 100
                &&& t.segments == b.all_taken_in(inputs).segments
                &&& t.speakers == b.all_taken_in(inputs).speakers
                &&& t.notes == b.all_taken_in(inputs).notes
            }
            &&& !asked ==> t == b
            &&& b.segments == s.segments && b.speakers == s.speakers && b.notes == s.notes
                && b.snapshots == s.snapshots && b.journal == s.journal && b.seq == s.seq
                && b.state == s.state
            &&& b.last_settled_ms == elapsed_ms
        }),
{
}

/// Accounting for time changes nothing but the times. A meeting goes on from its start until it is
/// over, pauses and the wait for its last words included, and is recorded only while recording.
pub proof fn time_goes_on(s: SessionView, elapsed_ms: u64)
    requires
        s.last_settled_ms <= elapsed_ms,
        s.meeting_time_ms + (elapsed_ms - s.last_settled_ms) <= u64::MAX,
        s.captured_audio_ms <= s.meeting_time_ms,
    ensures
        ({
            let t = s.settled(elapsed_ms);
            let d = elapsed_ms - s.last_settled_ms;
            &&& t.last_settled_ms == elapsed_ms
            &&& s.state is Idle || s.state is Completed || s.state is Failed ==> t.meeting_time_ms
                == s.meeting_time_ms
            &&& !(s.state is Idle || s.state is Completed || s.state is Failed)
                ==> t.meeting_time_ms == s.meeting_time_ms + d
            &&& s.state is Recording ==> t.captured_audio_ms == s.captured_audio_ms + d
            &&& !(s.state is Recording) ==> t.captured_audio_ms == s.captured_audio_ms
            &&& t == SessionView {
                last_settled_ms: t.last_settled_ms,
                meeting_time_ms: t.meeting_time_ms,
                captured_audio_ms: t.captured_audio_ms,
                ..s
            }
        }),
{
}

// ---------------------------------------------------------------------------
// Versions of the document
// ---------------------------------------------------------------------------

/// A version that is asked for is entered as running, with the prompt, the cursor, the moment and
/// a run of its own. Documents and runs never share a number, and the first version makes the
/// document that the others belong to.
pub proof fn versions_are_entered(s: SessionView, prompt: Seq<char>)
    requires
        s.has_room(),
        s.snapshot_taken(prompt).1.accepted,
    ensures
        ({
            let t = s.snapshot_taken(prompt).0;
            let document = match s.document_id {
                Some(id) => id,
                None => s.next_document_id,
            };
            &&& t.snapshots.len() == s.snapshots.len() + 1
            &&& t.snapshots.drop_last() == s.snapshots
            &&& t.snapshots.last() == (SnapshotView {
                version: (s.snapshots.len() + 1) as u32,
                through_event_seq: s.seq,
                meeting_time_ms: s.meeting_time_ms,
                state: RunState::Running,
                prompt,
                run_id: s.next_run_id,
            })
            &&& t.next_run_id == s.next_run_id + 1
            &&& t.document_id == Some(document)
            &&& s.document_id is None ==> t.next_document_id == s.next_document_id + 1
            &&& s.document_id is Some ==> t.next_document_id == s.next_document_id
            &&& t.seq == s.seq + 1
            &&& t.pending == s.pending.push(
                SessionEventView::SnapshotCreated {
                    seq: (s.seq + 1) as u64,
                    version: (s.snapshots.len() + 1) as u32,
                    through_event_seq: s.seq,
                    meeting_time_ms: s.meeting_time_ms,
                    prompt,
                },
            )
            &&& t.journal.len() == s.journal.len() + 1
            &&& t.journal.last().0 matches DomainEventView::SnapshotCreated {
                document_id,
                run_id,
                version_no,
                through_event_seq,
                prompt: p,
                ..
            } && document_id == document && run_id == s.next_run_id && version_no
                == s.snapshots.len() + 1 && through_event_seq == s.seq && p == prompt
            &&& same_transcript(s, t) && same_meeting(s, t) && t.speakers == s.speakers && t.notes
                == s.notes
        }),
        s.snapshot_taken(prompt).1.accepted <==> s.journal_error is None && (s.state is Recording
            || s.state is Paused || s.state is Completed),
{
    let t = s.snapshot_taken(prompt).0;
    assert(t.snapshots.drop_last() =~= s.snapshots);
}

/// When a generation ends, its version is completed or failed, and no other version changes; the
/// blocks are logged as they were given, or the reason is, under the run of that version.
pub proof fn generations_end_with_what_they_gave(
    s: SessionView,
    at: int,
    outcome: Result<(Seq<DocumentBlockView>, UsageView), Seq<char>>,
)
    requires
        s.seq < u64::MAX,
        0 <= at < s.snapshots.len(),
        forall|j: int| 0 <= j < at ==> (#[trigger] s.snapshots[j]).version != s.snapshots[at].version,
    ensures
        ({
            let version = s.snapshots[at].version;
            let t = s.generation_ended(version, outcome);
            &&& t.snapshots.len() == s.snapshots.len()
            &&& forall|j: int|
                0 <= j < s.snapshots.len() && j != at ==> #[trigger] t.snapshots[j]
                    == s.snapshots[j]
            &&& t.snapshots[at] == (SnapshotView {
                state: if outcome is Ok {
                    RunState::Completed
                } else {
                    RunState::Failed
                },
                ..s.snapshots[at]
            })
            &&& match outcome {
                Ok((blocks, usage)) => adds_event(
                    s,
                    t,
                    DomainEventView::GenerationCompleted {
                        run_id: s.snapshots[at].run_id,
                        blocks,
                        usage,
                    },
                    SessionEventView::GenerationCompleted { seq: (s.seq + 1) as u64, version },
                ),
                Err(reason) => adds_event(
                    s,
                    t,
                    DomainEventView::GenerationFailed { run_id: s.snapshots[at].run_id, reason },
                    SessionEventView::GenerationFailed {
                        seq: (s.seq + 1) as u64,
                        version,
                        reason,
                    },
                ),
            }
            &&& same_transcript(s, t) && same_meeting(s, t) && t.speakers == s.speakers && t.notes
                == s.notes && t.document_id == s.document_id
        }),
{
    lemma_version_found(s.snapshots, s.snapshots[at].version, at);
}

proof fn lemma_version_found(snapshots: Seq<SnapshotView>, version: u32, at: int)
    requires
        0 <= at < snapshots.len(),
        snapshots[at].version == version,
        forall|j: int| 0 <= j < at ==> (#[trigger] snapshots[j]).version != version,
    ensures
        crate::session_model::version_at(snapshots, version) == at,
    decreases at,
{
    if at > 0 {
        let rest = snapshots.skip(1);
        assert(snapshots[0].version != version);
        assert forall|j: int| 0 <= j < at - 1 implies (#[trigger] rest[j]).version != version by {
            assert(rest[j] == snapshots[j + 1]);
        }
        lemma_version_found(rest, version, at - 1);
    }
}

// ---------------------------------------------------------------------------
// What is told
// ---------------------------------------------------------------------------

/// A batch holds all that waits, in its order, and says where the meeting stands. Its first and
/// last number are those of the first and the last event in it that has one.
pub proof fn batches_hold_all_that_waits(
    s: SessionView,
    prev: u64,
    at_ms: u64,
    first: int,
    last: int,
)
    requires
        0 <= first <= last < s.pending.len(),
        s.pending[first].number() is Some,
        s.pending[last].number() is Some,
        forall|i: int| 0 <= i < first ==> (#[trigger] s.pending[i]).number() is None,
        forall|i: int| last < i < s.pending.len() ==> (#[trigger] s.pending[i]).number() is None,
    ensures
        ({
            let b = batch_of(s, prev, at_ms);
            &&& b.events == s.pending
            &&& b.first_seq == s.pending[first].number()
            &&& b.last_seq == s.pending[last].number()
            &&& b.prev_high_seq == prev
            &&& b.emitted_at_ms == at_ms
            &&& b.meeting_time_ms == s.meeting_time_ms
            &&& b.captured_audio_ms == s.captured_audio_ms
            &&& b.state == s.state
            &&& b.journal_error == s.journal_error
        }),
{
    lemma_numbers(s.pending, first, last);
}

proof fn lemma_numbers(events: Seq<SessionEventView>, first: int, last: int)
    requires
        0 <= first <= last < events.len(),
        events[first].number() is Some,
        events[last].number() is Some,
        forall|i: int| 0 <= i < first ==> (#[trigger] events[i]).number() is None,
        forall|i: int| last < i < events.len() ==> (#[trigger] events[i]).number() is None,
    ensures
        event_numbers(events).len() > 0,
        event_numbers(events)[0] == events[first].number()->0,
        event_numbers(events).last() == events[last].number()->0,
    decreases events.len(),
{
    let n = events.len() - 1;
    let rest = events.drop_last();
    if last < n {
        assert(events[n].number() is None);
        assert forall|i: int| last < i < rest.len() implies (#[trigger] rest[i]).number() is None by {
            assert(rest[i] == events[i]);
        }
        assert forall|i: int| 0 <= i < first implies (#[trigger] rest[i]).number() is None by {
            assert(rest[i] == events[i]);
        }
        lemma_numbers(rest, first, last);
    } else if first < n {
        let k = lemma_last_numbered(rest, first);
        assert forall|i: int| 0 <= i < first implies (#[trigger] rest[i]).number() is None by {
            assert(rest[i] == events[i]);
        }
        lemma_numbers(rest, first, k);
    } else {
        assert forall|i: int| 0 <= i < rest.len() implies (#[trigger] rest[i]).number() is None by {
            assert(rest[i] == events[i]);
        }
        lemma_no_numbers(rest);
    }
}

proof fn lemma_last_numbered(events: Seq<SessionEventView>, first: int) -> (k: int)
    requires
        0 <= first < events.len(),
        events[first].number() is Some,
    ensures
        first <= k < events.len(),
        events[k].number() is Some,
        forall|i: int| k < i < events.len() ==> (#[trigger] events[i]).number() is None,
    decreases events.len(),
{
    let n = events.len() - 1;
    if events[n].number() is Some {
        n
    } else {
        let rest = events.drop_last();
        let k = lemma_last_numbered(rest, first);
        assert forall|i: int| k < i < events.len() implies (#[trigger] events[i]).number() is None by {
            if i < n {
                assert(rest[i] == events[i]);
            }
        }
        assert(events[k] == rest[k]);
        k
    }
}

proof fn lemma_no_numbers(events: Seq<SessionEventView>)
    requires
        forall|i: int| 0 <= i < events.len() ==> (#[trigger] events[i]).number() is None,
    ensures
        event_numbers(events) == Seq::<u64>::empty(),
    decreases events.len(),
{
    if events.len() > 0 {
        let rest = events.drop_last();
        assert forall|i: int| 0 <= i < rest.len() implies (#[trigger] rest[i]).number() is None by {
            assert(rest[i] == events[i]);
        }
        lemma_no_numbers(rest);
        assert(events[events.len() - 1].number() is None);
    }
}

/// Whoever has missed something is shown the meeting as it is: every segment once, with its own
/// words, version, speaker and time, the earlier before the later; all speakers, notes, versions
/// and pauses in their order.
pub proof fn a_projection_shows_the_meeting(p: SessionProjection, s: SessionView)
    requires
        is_projection(p, s),
    ensures
        p.state == s.state,
        p.seq == s.seq,
        p.meeting_time_ms == s.meeting_time_ms,
        p.captured_audio_ms == s.captured_audio_ms,
        ({
            let list = views(p.segments@);
            &&& forall|i: int, j: int|
                0 <= i < j < list.len() ==> #[trigger] list[i].meeting_time_ms < (
                #[trigger] list[j]).meeting_time_ms || (list[i].meeting_time_ms
                    == list[j].meeting_time_ms && list[i].segment_id < list[j].segment_id)
            &&& forall|i: int|
                #![trigger list[i]]
                0 <= i < list.len() ==> {
                    let r = s.segments[list[i].segment_id];
                    &&& s.segments.contains_key(list[i].segment_id)
                    &&& list[i].text == r.text && list[i].revision == r.revision && list[i].origin
                        == r.origin && list[i].speaker_id == r.speaker_id
                        && list[i].meeting_time_ms == r.meeting_time_ms
                }
            &&& forall|id: u64| #[trigger]
                s.segments.contains_key(id) ==> exists|i: int|
                    0 <= i < list.len() && (#[trigger] list[i]).segment_id == id
        }),
        views(p.speakers@) == s.speakers,
        views(p.notes@) == s.notes,
        p.pauses@ == s.pauses,
        views(p.snapshots@).len() == s.snapshots.len(),
        forall|i: int|
            0 <= i < s.snapshots.len() ==> {
                let shown = #[trigger] views(p.snapshots@)[i];
                &&& shown.version == s.snapshots[i].version
                &&& shown.through_event_seq == s.snapshots[i].through_event_seq
                &&& shown.meeting_time_ms == s.snapshots[i].meeting_time_ms
                &&& shown.prompt == s.snapshots[i].prompt
                &&& shown.state == match s.snapshots[i].state {
                    RunState::Queued => "queued"@,
                    RunState::Running => "running"@,
                    RunState::Completed => "completed"@,
                    RunState::Failed => "failed"@,
                }
            },
{
    let list = views(p.segments@);
    assert forall|id: u64| #[trigger] s.segments.contains_key(id) implies exists|i: int|
        0 <= i < list.len() && (#[trigger] list[i]).segment_id == id by {
        assert(shows(list, id));
    }
    assert forall|i: int, j: int| 0 <= i < j < list.len() implies #[trigger] list[i].meeting_time_ms
        < (#[trigger] list[j]).meeting_time_ms || (list[i].meeting_time_ms
        == list[j].meeting_time_ms && list[i].segment_id < list[j].segment_id) by {
        assert(crate::session::shown_before(list[i], list[j]));
    }
}

/// A meeting that has not begun is empty.
pub proof fn a_new_meeting_is_empty()
    ensures
        ({
            let s = blank_session();
            &&& s.state is Idle
            &&& s.seq == 0 && s.meeting_time_ms == 0 && s.captured_audio_ms == 0
                && s.last_settled_ms == 0
            &&& s.segments == Map::<u64, SegmentView>::empty()
            &&& s.speakers.len() == 0 && s.notes.len() == 0 && s.snapshots.len() == 0
                && s.pauses.len() == 0 && s.pending.len() == 0 && s.journal.len() == 0
            &&& s.journal_error is None && s.meeting_id is None && s.document_id is None
            &&& s.next_note_id == 1
            &&& s.mic_health is Healthy && s.stt_health is Healthy
        }),
{
}

/// A fault changes how well a part works and nothing else of the meeting: the microphone is lost
/// and comes back, the recognition of speech goes down and comes up.
pub proof fn faults_change_one_thing(s: SessionView)
    ensures
        s.faulted("micLost"@).0 == (SessionView { mic_health: Health::Lost, ..s }),
        s.faulted("micRestored"@).0 == (SessionView { mic_health: Health::Healthy, ..s }),
        s.faulted("sttDown"@).0 == (SessionView { stt_health: Health::Degraded, ..s }),
        s.faulted("sttUp"@).0 == (SessionView { stt_health: Health::Healthy, ..s }),
        s.faulted("micLost"@).1.accepted && s.faulted("micRestored"@).1.accepted && s.faulted(
            "sttDown"@,
        ).1.accepted && s.faulted("sttUp"@).1.accepted,
{
    reveal_strlit("micLost");
    reveal_strlit("micRestored");
    reveal_strlit("sttDown");
    reveal_strlit("sttUp");
    assert("micLost"@.len() == 7 && "micRestored"@.len() == 11 && "sttDown"@.len() == 7
        && "sttUp"@.len() == 5);
    assert("micLost"@[0] == 'm' && "sttDown"@[0] == 's');
}

} // verus!
