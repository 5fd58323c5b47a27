//! What is chosen as evidence: what held at the cursor, from the end of the meeting back as far
//! as there is room.

use crate::cursor::{
    content_after, current_among, is_current, is_replaced, notes_at, segments_at, speakers_at,
    EventRowView, SegmentRowView, SpeakerRowView,
};
use crate::evidence::{
    allowance, chunk_start, fitting, index_of, mandatory_texts, outline_of, packed, segment_texts,
    total_tokens, truncated, AgentErrorView, BudgetInputs, EvidenceIndexView, EvidencePackView,
    ReadSnapshotView, Tokenizer,
};
use crate::store::{MeetingId, StoredNoteView, StoredSegmentView, StoredSpeakerView};
use crate::text::joined;
use vstd::prelude::*;

verus! {

// ---------------------------------------------------------------------------
// Counting
// ---------------------------------------------------------------------------

/// The tokens of texts add up, one text after another.
pub proof fn tokens_add_up<T: Tokenizer>(a: Seq<Seq<char>>, b: Seq<Seq<char>>, t: Seq<char>, tok: &T)
    ensures
        total_tokens(a + b, tok) == total_tokens(a, tok) + total_tokens(b, tok),
        total_tokens(seq![t], tok) == tok.tokens(t),
        total_tokens(Seq::<Seq<char>>::empty(), tok) == 0,
    decreases b.len(),
{
    let one = seq![t];
    assert(one.drop_last() =~= Seq::empty());
    assert(total_tokens(one.drop_last(), tok) == 0);
    if b.len() == 0 {
        assert(a + b =~= a);
    } else {
        tokens_add_up(a, b.drop_last(), t, tok);
        assert((a + b).drop_last() =~= a + b.drop_last());
        assert((a + b).last() == b.last());
    }
}

// ---------------------------------------------------------------------------
// Packing
// ---------------------------------------------------------------------------

/// The places of the segments that are sent, in their order.
spec fn places<T: Tokenizer>(segments: Seq<StoredSegmentView>, room: int, tok: &T) -> Seq<int>
    decreases segments.len(),
{
    if segments.len() == 0 {
        Seq::empty()
    } else {
        let cost = tok.tokens(segments.last().text);
        if cost <= room {
            places(segments.drop_last(), room - cost, tok).push(segments.len() - 1)
        } else {
            places(segments.drop_last(), room, tok)
        }
    }
}

/// The texts of the segments at those of the places that come after `i`.
pub open spec fn texts_after(segments: Seq<StoredSegmentView>, at: Seq<int>, i: int) -> Seq<
    Seq<char>,
>
    decreases at.len(),
{
    if at.len() == 0 {
        Seq::empty()
    } else if at.last() > i {
        texts_after(segments, at.drop_last(), i).push(segments[at.last()].text)
    } else {
        texts_after(segments, at.drop_last(), i)
    }
}

proof fn lemma_places<T: Tokenizer>(segments: Seq<StoredSegmentView>, room: int, tok: &T)
    requires
        0 <= room,
    ensures
        ({
            let at = places(segments, room, tok);
            let sent = fitting(segments, room, tok);
            &&& at.len() == sent.len()
            &&& forall|k: int|
                0 <= k < at.len() ==> 0 <= #[trigger] at[k] < segments.len() && sent[k]
                    == segments[at[k]]
            &&& forall|j: int, k: int| 0 <= j < k < at.len() ==> at[j] < at[k]
            &&& forall|i: int|
                0 <= i < segments.len() && !at.contains(i) ==> tok.tokens(
                    (#[trigger] segments[i]).text,
                ) + total_tokens(texts_after(segments, at, i), tok) > room
        }),
    decreases segments.len(),
{
    if segments.len() > 0 {
        let n = segments.len() - 1;
        let rest = segments.drop_last();
        let cost = tok.tokens(segments.last().text);
        let next = if cost <= room {
            room - cost
        } else {
            room
        };
        lemma_places(rest, next, tok);
        let before = places(rest, next, tok);
        let at = places(segments, room, tok);
        let sent = fitting(segments, room, tok);
        assert forall|k: int| 0 <= k < at.len() implies 0 <= #[trigger] at[k] < segments.len()
            && sent[k] == segments[at[k]] by {
            if k < before.len() {
                assert(at[k] == before[k]);
                assert(0 <= before[k] < rest.len());
            }
        }
        assert forall|j: int, k: int| 0 <= j < k < at.len() implies at[j] < at[k] by {
            assert(at[j] == before[j]);
            assert(0 <= before[j] < rest.len());
            if k < before.len() {
                assert(at[k] == before[k]);
            }
        }
        assert forall|i: int| 0 <= i < segments.len() && !at.contains(i) implies tok.tokens(
            (#[trigger] segments[i]).text,
        ) + total_tokens(texts_after(segments, at, i), tok) > room by {
            lemma_texts_after_same(rest, segments, before, i);
            if i == n {
                if cost <= room {
                    assert(at[at.len() - 1] == n);
                }
                lemma_nothing_after(segments, at, i);
            } else {
                if before.contains(i) {
                    let k = choose|k: int| 0 <= k < before.len() && before[k] == i;
                    assert(at[k] == i);
                }
                assert(rest[i] == segments[i]);
                if cost <= room {
                    let t = texts_after(segments, before, i);
                    assert(at.drop_last() =~= before);
                    assert(at.last() == n);
                    assert(texts_after(segments, at, i) == t.push(segments[n].text));
                    assert(t.push(segments[n].text) =~= t + seq![segments[n].text]);
                    tokens_add_up(t, seq![segments[n].text], segments[n].text, tok);
                }
            }
        }
    }
}

proof fn lemma_texts_after_same(
    a: Seq<StoredSegmentView>,
    b: Seq<StoredSegmentView>,
    at: Seq<int>,
    i: int,
)
    requires
        forall|k: int| 0 <= k < at.len() ==> 0 <= #[trigger] at[k] < a.len(),
        a.len() <= b.len(),
        forall|k: int| 0 <= k < a.len() ==> #[trigger] a[k] == b[k],
    ensures
        texts_after(a, at, i) == texts_after(b, at, i),
    decreases at.len(),
{
    if at.len() > 0 {
        let front = at.drop_last();
        assert forall|k: int| 0 <= k < front.len() implies 0 <= #[trigger] front[k] < a.len() by {
            assert(front[k] == at[k]);
        }
        lemma_texts_after_same(a, b, front, i);
        assert(0 <= at[at.len() - 1] < a.len());
        assert(a[at.last()] == b[at.last()]);
    }
}

proof fn lemma_nothing_after(segments: Seq<StoredSegmentView>, at: Seq<int>, i: int)
    requires
        forall|k: int| 0 <= k < at.len() ==> #[trigger] at[k] <= i,
    ensures
        texts_after(segments, at, i) == Seq::<Seq<char>>::empty(),
    decreases at.len(),
{
    if at.len() > 0 {
        let front = at.drop_last();
        assert forall|k: int| 0 <= k < front.len() implies #[trigger] front[k] <= i by {
            assert(front[k] == at[k]);
        }
        lemma_nothing_after(segments, front, i);
        assert(at[at.len() - 1] <= i);
    }
}

/// What is always sent: the outline, the notes and the names.
proof fn lemma_mandatory<T: Tokenizer>(index: EvidenceIndexView, tok: &T)
    ensures
        total_tokens(mandatory_texts(index), tok) == total_tokens(
            Seq::new(index.outline.len(), |i: int| index.outline[i].summary),
            tok,
        ) + total_tokens(Seq::new(index.notes.len(), |i: int| index.notes[i].text), tok)
            + total_tokens(Seq::new(index.speakers.len(), |i: int| index.speakers[i].display), tok),
        total_tokens(mandatory_texts(index), tok) >= 0,
{
    let a = Seq::new(index.outline.len(), |i: int| index.outline[i].summary);
    let b = Seq::new(index.notes.len(), |i: int| index.notes[i].text);
    let c = Seq::new(index.speakers.len(), |i: int| index.speakers[i].display);
    tokens_add_up(a + b, c, Seq::empty(), tok);
    tokens_add_up(a, b, Seq::empty(), tok);
    crate::evidence::lemma_total_not_negative(mandatory_texts(index), tok);
}

/// The end of a meeting is sent first. What is sent stands at some places of the index, in its
/// order, and a segment is left out only where it does not fit beside those that are sent from
/// after it, once the outline, the notes and the names have their room. So the last segment is
/// sent wherever it fits alone, and what is cut is the opening.
pub proof fn the_end_is_sent_first<T: Tokenizer>(
    index: EvidenceIndexView,
    allowance: usize,
    tok: &T,
    p: EvidencePackView,
)
    requires
        packed(index, allowance, tok) == Ok::<EvidencePackView, AgentErrorView>(p),
        allowance < usize::MAX,
    ensures
        ({
            let room = allowance - (total_tokens(
                Seq::new(index.outline.len(), |i: int| index.outline[i].summary),
                tok,
            ) + total_tokens(Seq::new(index.notes.len(), |i: int| index.notes[i].text), tok)
                + total_tokens(
                Seq::new(index.speakers.len(), |i: int| index.speakers[i].display),
                tok,
            ));
            &&& 0 <= room
            &&& exists|at: Seq<int>|
                {
                    &&& #[trigger] at.len() == p.segments.len()
                    &&& forall|k: int|
                        0 <= k < at.len() ==> 0 <= #[trigger] at[k] < index.segments.len()
                            && p.segments[k] == index.segments[at[k]]
                    &&& forall|j: int, k: int| 0 <= j < k < at.len() ==> at[j] < at[k]
                    &&& forall|i: int|
                        0 <= i < index.segments.len() && !at.contains(i) ==> tok.tokens(
                            (#[trigger] index.segments[i]).text,
                        ) + total_tokens(texts_after(index.segments, at, i), tok) > room
                }
            &&& index.segments.len() > 0 && tok.tokens(index.segments.last().text) <= room
                ==> p.segments.len() > 0 && p.segments.last() == index.segments.last()
        }),
{
    lemma_mandatory(index, tok);
    let room = allowance - total_tokens(mandatory_texts(index), tok);
    lemma_places(index.segments, room, tok);
    let at = places(index.segments, room, tok);
    assert(at.len() == p.segments.len());
    let n = index.segments.len() - 1;
    if index.segments.len() > 0 && tok.tokens(index.segments.last().text) <= room {
        assert(at[at.len() - 1] == n);
    }
}

/// What is sent takes up what its texts take up, and fits; nothing is sent where the outline, the
/// notes and the names alone do not fit. How many segments are missing is counted.
pub proof fn what_is_sent_is_counted<T: Tokenizer>(
    index: EvidenceIndexView,
    allowance: usize,
    tok: &T,
)
    requires
        index.segments.len() <= usize::MAX,
        allowance < usize::MAX,
    ensures
        ({
            let always = total_tokens(
                Seq::new(index.outline.len(), |i: int| index.outline[i].summary),
                tok,
            ) + total_tokens(Seq::new(index.notes.len(), |i: int| index.notes[i].text), tok)
                + total_tokens(
                Seq::new(index.speakers.len(), |i: int| index.speakers[i].display),
                tok,
            );
            match packed(index, allowance, tok) {
                Ok(p) => {
                    &&& always <= allowance
                    &&& p.outline == index.outline && p.notes == index.notes && p.speakers
                        == index.speakers
                    &&& p.tokens_used == always + total_tokens(
                        Seq::new(p.segments.len(), |i: int| p.segments[i].text),
                        tok,
                    )
                    &&& p.tokens_used <= allowance
                    &&& p.segments_omitted == index.segments.len() - p.segments.len()
                },
                Err(e) => always > allowance && e is BudgetExceeded,
            }
        }),
{
    lemma_mandatory(index, tok);
    let all = total_tokens(mandatory_texts(index), tok);
    if all <= allowance {
        crate::evidence::lemma_fitting_bounds(index.segments, allowance - all, tok);
        let sent = fitting(index.segments, allowance - all, tok);
        assert(segment_texts(sent) =~= Seq::new(sent.len(), |i: int| sent[i].text));
    }
}

/// The room for evidence is the window less what is kept free and what the instructions take up,
/// and is given exactly where that is at least the least evidence worth while.
pub proof fn the_room_is_what_is_left(b: BudgetInputs, instructions: int)
    requires
        0 <= instructions,
    ensures
        ({
            let left = b.context_window - b.output_reserve - b.safety_margin - instructions;
            match allowance(b, instructions) {
                Ok(room) => room >= b.minimum_evidence && (room == left || (left <= 0 && room == 0)),
                Err(e) => (left < b.minimum_evidence || left <= 0) && e is BudgetExceeded,
            }
        }),
        b.context_window - b.output_reserve - b.safety_margin - instructions >= b.minimum_evidence
            ==> allowance(b, instructions) is Ok,
{
}

// ---------------------------------------------------------------------------
// What held at the cursor
// ---------------------------------------------------------------------------

proof fn lemma_current_is_there(rows: Seq<SegmentRowView>, n: int, through: u64, i: int)
    requires
        0 <= i < n <= rows.len(),
        is_current(rows, i, through),
    ensures
        exists|k: int|
            0 <= k < current_among(rows, n, through).len() && #[trigger] current_among(
                rows,
                n,
                through,
            )[k] == rows[i].segment,
    decreases n,
{
    let before = current_among(rows, n - 1, through);
    if i == n - 1 {
        assert(current_among(rows, n, through)[before.len() as int] == rows[i].segment);
    } else {
        lemma_current_is_there(rows, n - 1, through, i);
        let k = choose|k: int| 0 <= k < before.len() && #[trigger] before[k] == rows[i].segment;
        assert(current_among(rows, n, through)[k] == rows[i].segment);
    }
}

/// The places of the rows that hold at the cursor.
spec fn current_places(rows: Seq<SegmentRowView>, n: int, through: u64) -> Seq<int>
    decreases n,
{
    if n <= 0 {
        Seq::empty()
    } else if is_current(rows, n - 1, through) {
        current_places(rows, n - 1, through).push(n - 1)
    } else {
        current_places(rows, n - 1, through)
    }
}

proof fn lemma_current_places(rows: Seq<SegmentRowView>, n: int, through: u64)
    requires
        0 <= n <= rows.len(),
    ensures
        ({
            let at = current_places(rows, n, through);
            let list = current_among(rows, n, through);
            &&& at.len() == list.len()
            &&& forall|k: int|
                0 <= k < at.len() ==> 0 <= #[trigger] at[k] < n && list[k] == rows[at[k]].segment
                    && is_current(rows, at[k], through)
            &&& forall|j: int, k: int| 0 <= j < k < at.len() ==> at[j] < at[k]
            &&& forall|i: int| 0 <= i < n && is_current(rows, i, through) ==> #[trigger] at.contains(i)
        }),
    decreases n,
{
    if n > 0 {
        lemma_current_places(rows, n - 1, through);
        let before = current_places(rows, n - 1, through);
        let at = current_places(rows, n, through);
        assert forall|i: int| 0 <= i < n && is_current(rows, i, through) implies #[trigger] at.contains(
            i,
        ) by {
            if i == n - 1 {
                assert(at[at.len() - 1] == i);
            } else {
                assert(before.contains(i));
                let k = choose|k: int| 0 <= k < before.len() && before[k] == i;
                assert(at[k] == i);
            }
        }
    }
}

/// Of each segment the last version up to the cursor is seen, and no other: in the order of the
/// rows, exactly those rows from up to the cursor that no later version from up to the cursor
/// replaces.
pub proof fn the_last_versions_are_seen(rows: Seq<SegmentRowView>, through: u64)
    ensures
        exists|at: Seq<int>|
            {
                &&& #[trigger] at.len() == segments_at(rows, through).len()
                &&& forall|k: int|
                    0 <= k < at.len() ==> 0 <= #[trigger] at[k] < rows.len() && segments_at(
                        rows,
                        through,
                    )[k] == rows[at[k]].segment
                &&& forall|j: int, k: int| 0 <= j < k < at.len() ==> at[j] < at[k]
                &&& forall|i: int|
                    #![trigger at.contains(i)]
                    0 <= i < rows.len() ==> (at.contains(i) <==> rows[i].created_event_seq
                        <= through && forall|j: int|
                        0 <= j < rows.len() && (#[trigger] rows[j]).segment.segment_id
                            == rows[i].segment.segment_id && rows[j].created_event_seq <= through
                            ==> rows[j].segment.revision <= rows[i].segment.revision)
            },
{
    let n = rows.len() as int;
    lemma_current_places(rows, n, through);
    let at = current_places(rows, n, through);
    assert(at.len() == segments_at(rows, through).len());
    assert forall|i: int| #![trigger at.contains(i)] 0 <= i < n implies (at.contains(i)
        <==> rows[i].created_event_seq <= through && forall|j: int|
        0 <= j < rows.len() && (#[trigger] rows[j]).segment.segment_id == rows[i].segment.segment_id
            && rows[j].created_event_seq <= through ==> rows[j].segment.revision
            <= rows[i].segment.revision) by {
        if at.contains(i) {
            let k = choose|k: int| 0 <= k < at.len() && at[k] == i;
            assert(is_current(rows, at[k], through));
            assert(!is_replaced(rows, i, through));
        }
        if rows[i].created_event_seq <= through && forall|j: int|
            0 <= j < rows.len() && (#[trigger] rows[j]).segment.segment_id
                == rows[i].segment.segment_id && rows[j].created_event_seq <= through
                ==> rows[j].segment.revision <= rows[i].segment.revision {
            assert(is_current(rows, i, through));
        }
    }
}

/// Notes and speakers are seen exactly where they come from up to the cursor, in their order.
pub proof fn notes_and_speakers_are_seen_up_to_the_cursor(
    notes: Seq<StoredNoteView>,
    more_notes: Seq<StoredNoteView>,
    note: StoredNoteView,
    speakers: Seq<SpeakerRowView>,
    more_speakers: Seq<SpeakerRowView>,
    speaker: SpeakerRowView,
    through: u64,
)
    ensures
        notes_at(notes + more_notes, through) == notes_at(notes, through) + notes_at(
            more_notes,
            through,
        ),
        notes_at(seq![note], through) == if note.event_seq <= through {
            seq![note]
        } else {
            Seq::empty()
        },
        speakers_at(speakers + more_speakers, through) == speakers_at(speakers, through)
            + speakers_at(more_speakers, through),
        speakers_at(seq![speaker], through) == if speaker.first_event_seq <= through {
            seq![speaker.speaker]
        } else {
            Seq::empty()
        },
{
    lemma_notes_concat(notes, more_notes, through);
    lemma_speakers_concat(speakers, more_speakers, through);
    let (a, b) = (seq![note], seq![speaker]);
    assert(a.drop_last() =~= Seq::empty());
    assert(b.drop_last() =~= Seq::empty());
    assert(notes_at(a.drop_last(), through) =~= Seq::empty());
    assert(speakers_at(b.drop_last(), through) =~= Seq::empty());
    assert(a.last() == note && b.last() == speaker);
    assert(Seq::<StoredNoteView>::empty().push(note) =~= seq![note]);
    assert(Seq::<StoredSpeakerView>::empty().push(speaker.speaker) =~= seq![speaker.speaker]);
}

proof fn lemma_notes_concat(a: Seq<StoredNoteView>, b: Seq<StoredNoteView>, through: u64)
    ensures
        notes_at(a + b, through) == notes_at(a, through) + notes_at(b, through),
    decreases b.len(),
{
    if b.len() == 0 {
        assert(a + b =~= a);
        assert(notes_at(a, through) + notes_at(b, through) =~= notes_at(a, through));
    } else {
        lemma_notes_concat(a, b.drop_last(), through);
        assert((a + b).drop_last() =~= a + b.drop_last());
        assert((a + b).last() == b.last());
        assert(notes_at(a + b, through) =~= notes_at(a, through) + notes_at(b, through));
    }
}

proof fn lemma_speakers_concat(a: Seq<SpeakerRowView>, b: Seq<SpeakerRowView>, through: u64)
    ensures
        speakers_at(a + b, through) == speakers_at(a, through) + speakers_at(b, through),
    decreases b.len(),
{
    if b.len() == 0 {
        assert(a + b =~= a);
        assert(speakers_at(a, through) + speakers_at(b, through) =~= speakers_at(a, through));
    } else {
        lemma_speakers_concat(a, b.drop_last(), through);
        assert((a + b).drop_last() =~= a + b.drop_last());
        assert((a + b).last() == b.last());
        assert(speakers_at(a + b, through) =~= speakers_at(a, through) + speakers_at(b, through));
    }
}

/// What is not covered is counted event by event: those from after the cursor in which something
/// was said, corrected or written down.
pub proof fn uncovered_events_are_counted(
    a: Seq<EventRowView>,
    b: Seq<EventRowView>,
    e: EventRowView,
    through: u64,
)
    ensures
        content_after(a + b, through) == content_after(a, through) + content_after(b, through),
        content_after(seq![e], through) == if e.seq > through && (e.kind
            == "TranscriptSegmentFinalized"@ || e.kind == "TranscriptSegmentRevised"@ || e.kind
            == "TranscriptSegmentEdited"@ || e.kind == "NoteAdded"@) {
            1nat
        } else {
            0nat
        },
    decreases b.len(),
{
    let one = seq![e];
    assert(one.drop_last() =~= Seq::empty());
    assert(one.last() == e);
    assert(content_after(one.drop_last(), through) == 0);
    if b.len() == 0 {
        assert(a + b =~= a);
    } else {
        uncovered_events_are_counted(a, b.drop_last(), e, through);
        assert((a + b).drop_last() =~= a + b.drop_last());
        assert((a + b).last() == b.last());
    }
}

/// The index holds what held at the cursor: the last versions of the segments, the notes, and
/// under the names they are shown by the speakers; and an outline of those segments.
pub proof fn the_index_holds_what_held(
    snapshot: ReadSnapshotView,
    meeting: MeetingId,
    through: u64,
)
    ensures
        ({
            let index = index_of(snapshot, meeting, through);
            let segments = segments_at(snapshot.segments, through);
            let names = crate::render::display_names(
                speakers_at(snapshot.speakers, through),
                segments,
            );
            &&& index.segments == segments
            &&& index.notes == notes_at(snapshot.notes, through)
            &&& index.speakers.len() == names.len()
            &&& forall|k: int|
                0 <= k < names.len() ==> (#[trigger] index.speakers[k]).id == names[k].0
                    && index.speakers[k].display == names[k].1
            &&& index.outline == outline_of(segments)
        }),
{
}

/// Each entry of the outline covers eight segments, or what is left of them at the end, and says
/// how they begin: their texts one after another, up to sixty characters, with a mark where
/// there was more.
pub proof fn the_outline_says_how_segments_begin(segments: Seq<StoredSegmentView>, k: int)
    requires
        0 <= k,
        8 * k < segments.len(),
    ensures
        ({
            let c = outline_of(segments)[k];
            let (from, to) = (
                8 * k,
                if 8 * k + 8 < segments.len() {
                    8 * k + 8
                } else {
                    segments.len() as int
                },
            );
            let said = joined(Seq::new((to - from) as nat, |i: int| segments[from + i].text), " "@);
            &&& k < outline_of(segments).len()
            &&& 8 * outline_of(segments).len() >= segments.len()
            &&& 8 * (outline_of(segments).len() - 1) < segments.len()
            &&& c.first_segment_id == segments[from].segment_id
            &&& c.last_segment_id == segments[to - 1].segment_id
            &&& c.meeting_start_ms == segments[from].meeting_start_ms
            &&& c.meeting_end_ms == segments[to - 1].meeting_end_ms
            &&& said.len() <= 60 ==> c.summary == said
            &&& said.len() > 60 ==> c.summary.len() == 61 && c.summary.take(60) == said.take(60)
                && c.summary[60] == '…'
        }),
{
    let n = segments.len() as int;
    let (from, to) = (
        8 * k,
        if 8 * k + 8 < n {
            8 * k + 8
        } else {
            n
        },
    );
    assert(chunk_start(k, n) == from);
    assert(chunk_start(k + 1, n) == to);
    let part = segments.subrange(from, to);
    assert(segment_texts(part) =~= Seq::new((to - from) as nat, |i: int| segments[from + i].text));
    let said = joined(segment_texts(part), " "@);
    if said.len() > 60 {
        assert(truncated(said, 60).take(60) =~= said.take(60));
    }
}

} // verus!
