//! What a model is sent: all of the evidence, line by line and in its order, and what the user
//! asks for.

use crate::agent::DraftRequest;
use crate::cli_planner::{
    bullets, called, displays, fence_of, instructions, note_lines, outline_lines, prompt_text,
    segment_lines, untrusted, who, fenced_prompt, FENCE_NOTICE, NOTES_NOTICE, OUTLINE_NOTICE,
    PROMPT_FORMAT, PROMPT_RETRY, PROMPT_REVISION, PROMPT_ROLE,
};
use crate::evidence::{EvidencePackView, OutlineChunkView, SpeakerNameView};
use crate::generation::SCHEMA_BRIEF;
use crate::parts::{
    lemma_flat_last, lemma_flat_part, lemma_stands, lemma_stands_before, lemma_stands_last,
    lemma_stands_within, stand_in_a_row, stands_in,
};
use crate::store::{StoredNoteView, StoredSegmentView};
use crate::text::{blank, decimal, joined, trimmed, trimmed_is_empty_iff_blank, views};
use vstd::prelude::*;

verus! {

/// Who speaks in a segment is shown by the name of the first speaker with that mark, by the mark
/// where nobody has it, and as unconfirmed where the segment has none.
pub proof fn speakers_are_shown_by_name(s: StoredSegmentView, speakers: Seq<SpeakerNameView>)
    ensures
        s.speaker_id is None ==> who(s, speakers) == "未確認"@,
        forall|k: int|
            s.speaker_id is Some && 0 <= k < speakers.len() && (#[trigger] speakers[k]).id
                == s.speaker_id->0 && (forall|j: int|
                0 <= j < k ==> (#[trigger] speakers[j]).id != s.speaker_id->0) ==> who(s, speakers)
                == speakers[k].display,
        s.speaker_id is Some && (forall|j: int|
            0 <= j < speakers.len() ==> (#[trigger] speakers[j]).id != s.speaker_id->0) ==> who(
            s,
            speakers,
        ) == s.speaker_id->0,
{
    if let Some(id) = s.speaker_id {
        assert forall|k: int|
            0 <= k < speakers.len() && (#[trigger] speakers[k]).id == id && (forall|j: int|
                0 <= j < k ==> (#[trigger] speakers[j]).id != id) implies who(s, speakers)
            == speakers[k].display by {
            lemma_called(speakers, id, k);
        }
        if forall|j: int| 0 <= j < speakers.len() ==> (#[trigger] speakers[j]).id != id {
            lemma_called(speakers, id, speakers.len() as int);
        }
    }
}

proof fn lemma_called(speakers: Seq<SpeakerNameView>, id: Seq<char>, k: int)
    requires
        0 <= k <= speakers.len(),
        k < speakers.len() ==> speakers[k].id == id,
        forall|j: int| 0 <= j < k ==> (#[trigger] speakers[j]).id != id,
    ensures
        called(speakers, id) == if k < speakers.len() {
            Some(speakers[k].display)
        } else {
            None
        },
    decreases k,
{
    if k > 0 {
        let rest = speakers.skip(1);
        assert(speakers[0].id != id);
        assert forall|j: int| 0 <= j < k - 1 implies (#[trigger] rest[j]).id != id by {
            assert(rest[j] == speakers[j + 1]);
        }
        lemma_called(rest, id, k - 1);
    }
}

proof fn lemma_segment_lines(segments: Seq<StoredSegmentView>, speakers: Seq<SpeakerNameView>)
    ensures
        segment_lines(segments, speakers) == Seq::new(
            segments.len(),
            |i: int|
                "- id="@ + decimal(segments[i].segment_id as nat) + " rev="@ + decimal(
                    segments[i].revision as nat,
                ) + " 語者="@ + who(segments[i], speakers) + " 內容："@ + segments[i].text + "\n"@,
        ).flatten(),
    decreases segments.len(),
{
    let parts = Seq::new(
        segments.len(),
        |i: int|
            "- id="@ + decimal(segments[i].segment_id as nat) + " rev="@ + decimal(
                segments[i].revision as nat,
            ) + " 語者="@ + who(segments[i], speakers) + " 內容："@ + segments[i].text + "\n"@,
    );
    if segments.len() > 0 {
        let rest = segments.drop_last();
        lemma_segment_lines(rest, speakers);
        let front = Seq::new(
            rest.len(),
            |i: int|
                "- id="@ + decimal(rest[i].segment_id as nat) + " rev="@ + decimal(
                    rest[i].revision as nat,
                ) + " 語者="@ + who(rest[i], speakers) + " 內容："@ + rest[i].text + "\n"@,
        );
        assert(parts.drop_last() =~= front);
        lemma_flat_last(parts);
        assert(segment_lines(segments, speakers) =~= segment_lines(rest, speakers) + parts.last());
    }
}

proof fn lemma_note_lines(notes: Seq<StoredNoteView>)
    ensures
        note_lines(notes) == Seq::new(
            notes.len(),
            |i: int|
                "- id="@ + decimal(notes[i].note_id as nat) + " seq="@ + decimal(
                    notes[i].event_seq as nat,
                ) + " 時間="@ + decimal(notes[i].meeting_time_ms as nat) + " 內容："@
                    + notes[i].text + "\n"@,
        ).flatten(),
    decreases notes.len(),
{
    let parts = Seq::new(
        notes.len(),
        |i: int|
            "- id="@ + decimal(notes[i].note_id as nat) + " seq="@ + decimal(
                notes[i].event_seq as nat,
            ) + " 時間="@ + decimal(notes[i].meeting_time_ms as nat) + " 內容："@ + notes[i].text
                + "\n"@,
    );
    if notes.len() > 0 {
        let rest = notes.drop_last();
        lemma_note_lines(rest);
        let front = Seq::new(
            rest.len(),
            |i: int|
                "- id="@ + decimal(rest[i].note_id as nat) + " seq="@ + decimal(
                    rest[i].event_seq as nat,
                ) + " 時間="@ + decimal(rest[i].meeting_time_ms as nat) + " 內容："@ + rest[i].text
                    + "\n"@,
        );
        assert(parts.drop_last() =~= front);
        lemma_flat_last(parts);
        assert(note_lines(notes) =~= note_lines(rest) + parts.last());
    }
}

proof fn lemma_outline_lines(outline: Seq<OutlineChunkView>)
    ensures
        outline_lines(outline) == Seq::new(
            outline.len(),
            |i: int|
                "- ["@ + decimal(outline[i].meeting_start_ms as nat) + "-"@ + decimal(
                    outline[i].meeting_end_ms as nat,
                ) + " ms] "@ + outline[i].summary + "\n"@,
        ).flatten(),
    decreases outline.len(),
{
    let parts = Seq::new(
        outline.len(),
        |i: int|
            "- ["@ + decimal(outline[i].meeting_start_ms as nat) + "-"@ + decimal(
                outline[i].meeting_end_ms as nat,
            ) + " ms] "@ + outline[i].summary + "\n"@,
    );
    if outline.len() > 0 {
        let rest = outline.drop_last();
        lemma_outline_lines(rest);
        let front = Seq::new(
            rest.len(),
            |i: int|
                "- ["@ + decimal(rest[i].meeting_start_ms as nat) + "-"@ + decimal(
                    rest[i].meeting_end_ms as nat,
                ) + " ms] "@ + rest[i].summary + "\n"@,
        );
        assert(parts.drop_last() =~= front);
        lemma_flat_last(parts);
        assert(outline_lines(outline) =~= outline_lines(rest) + parts.last());
    }
}

proof fn lemma_bullets(items: Seq<Seq<char>>)
    ensures
        bullets(items) == Seq::new(items.len(), |i: int| "- "@ + items[i] + "\n"@).flatten(),
    decreases items.len(),
{
    let parts = Seq::new(items.len(), |i: int| "- "@ + items[i] + "\n"@);
    if items.len() > 0 {
        let rest = items.drop_last();
        lemma_bullets(rest);
        let front = Seq::new(rest.len(), |i: int| "- "@ + rest[i] + "\n"@);
        assert(parts.drop_last() =~= front);
        lemma_flat_last(parts);
        assert(bullets(items) =~= bullets(rest) + parts.last());
    }
}

proof fn lemma_joined(parts: Seq<Seq<char>>, sep: Seq<char>)
    requires
        parts.len() > 0,
    ensures
        joined(parts, sep) == parts[0] + Seq::new(
            (parts.len() - 1) as nat,
            |i: int| sep + parts[i + 1],
        ).flatten(),
    decreases parts.len(),
{
    let more = Seq::new((parts.len() - 1) as nat, |i: int| sep + parts[i + 1]);
    if parts.len() == 1 {
        assert(joined(parts, sep) =~= parts[0] + more.flatten());
    } else {
        let rest = parts.drop_last();
        lemma_joined(rest, sep);
        let front = Seq::new((rest.len() - 1) as nat, |i: int| sep + rest[i + 1]);
        assert(more.drop_last() =~= front);
        lemma_flat_last(more);
        assert(joined(parts, sep) =~= parts[0] + more.flatten());
    }
}

/// Texts that are put together stand in the whole in their order, with `sep` between
/// neighbours and nowhere else.
pub proof fn joined_texts_keep_their_order(parts: Seq<Seq<char>>, sep: Seq<char>)
    requires
        parts.len() > 0,
    ensures
        joined(parts, sep) == parts[0] + Seq::new(
            (parts.len() - 1) as nat,
            |i: int| sep + parts[i + 1],
        ).flatten(),
{
    lemma_joined(parts, sep);
}

proof fn lemma_untrusted_stands(
    req: &DraftRequest<'_>,
    previous_json: Seq<char>,
    retry: Option<(Seq<char>, Seq<char>)>,
)
    ensures
        stands_in(
            untrusted(
                if req.previous@.len() > 0 {
                    Some(previous_json)
                } else {
                    None
                },
                views(req.rejections@),
                match retry {
                    Some((json, _)) => Some(json),
                    None => None,
                },
                req.evidence@,
            ),
            prompt_text(req, previous_json, retry),
        ),
{
    broadcast use {lemma_stands_before, lemma_stands_last};

}

/// Every segment of the evidence is sent, each on a line of its own, with its number, its version,
/// who speaks and all that is said, in the order of the evidence and with nothing between.
pub proof fn every_segment_is_sent(
    req: &DraftRequest<'_>,
    previous_json: Seq<char>,
    retry: Option<(Seq<char>, Seq<char>)>,
)
    ensures
        ({
            let ev = req.evidence@;
            stand_in_a_row(
                Seq::new(
                    ev.segments.len(),
                    |i: int|
                        "- id="@ + decimal(ev.segments[i].segment_id as nat) + " rev="@ + decimal(
                            ev.segments[i].revision as nat,
                        ) + " 語者="@ + who(ev.segments[i], ev.speakers) + " 內容："@
                            + ev.segments[i].text + "\n"@,
                ),
                prompt_text(req, previous_json, retry),
            )
        }),
        forall|i: int|
            0 <= i < req.evidence@.segments.len() ==> stands_in(
                (#[trigger] req.evidence@.segments[i]).text,
                prompt_text(req, previous_json, retry),
            ),
{
    broadcast use {lemma_stands_before, lemma_stands_last};

    let ev = req.evidence@;
    let p = prompt_text(req, previous_json, retry);
    lemma_untrusted_stands(req, previous_json, retry);
    let previous = if req.previous@.len() > 0 {
        Some(previous_json)
    } else {
        None
    };
    let again = match retry {
        Some((json, _)) => Some(json),
        None => None,
    };
    let u = untrusted(previous, views(req.rejections@), again, ev);
    let lines = segment_lines(ev.segments, ev.speakers);
    lemma_segment_lines(ev.segments, ev.speakers);
    let parts = Seq::new(
        ev.segments.len(),
        |i: int|
            "- id="@ + decimal(ev.segments[i].segment_id as nat) + " rev="@ + decimal(
                ev.segments[i].revision as nat,
            ) + " 語者="@ + who(ev.segments[i], ev.speakers) + " 內容："@ + ev.segments[i].text
                + "\n"@,
    );
    if ev.segments.len() == 0 {
        let none = Seq::<char>::empty();
        assert(parts.flatten() =~= none);
        assert(p =~= p + none + none);
        lemma_stands(p, none, none);
    } else {
        assert(stands_in(lines, u));
        lemma_stands_within(lines, u, p);
        assert forall|i: int| 0 <= i < ev.segments.len() implies stands_in(
            (#[trigger] ev.segments[i]).text,
            p,
        ) by {
            lemma_flat_part(parts, i);
            assert(stands_in(ev.segments[i].text, parts[i]));
            lemma_stands_within(ev.segments[i].text, parts[i], lines);
            lemma_stands_within(ev.segments[i].text, lines, p);
        }
    }
}

/// Every note is sent, each on a line of its own, in its order.
pub proof fn every_note_is_sent(
    req: &DraftRequest<'_>,
    previous_json: Seq<char>,
    retry: Option<(Seq<char>, Seq<char>)>,
)
    requires
        req.evidence@.notes.len() > 0,
    ensures
        ({
            let notes = req.evidence@.notes;
            stands_in(
                NOTES_NOTICE@ + Seq::new(
                    notes.len(),
                    |i: int|
                        "- id="@ + decimal(notes[i].note_id as nat) + " seq="@ + decimal(
                            notes[i].event_seq as nat,
                        ) + " 時間="@ + decimal(notes[i].meeting_time_ms as nat) + " 內容："@
                            + notes[i].text + "\n"@,
                ).flatten(),
                prompt_text(req, previous_json, retry),
            )
        }),
{
    broadcast use {lemma_stands_before, lemma_stands_last};

    let ev = req.evidence@;
    lemma_note_lines(ev.notes);
    lemma_untrusted_stands(req, previous_json, retry);
    let previous = if req.previous@.len() > 0 {
        Some(previous_json)
    } else {
        None
    };
    let again = match retry {
        Some((json, _)) => Some(json),
        None => None,
    };
    let u = untrusted(previous, views(req.rejections@), again, ev);
    let lines = NOTES_NOTICE@ + note_lines(ev.notes);
    let e = lemma_before_notes(previous, views(req.rejections@), again, ev);
    assert(e + NOTES_NOTICE@ + note_lines(ev.notes) =~= e + lines);
    assert(stands_in(lines, u));
    lemma_stands_within(lines, u, prompt_text(req, previous_json, retry));
}

/// What is written before the notes.
proof fn lemma_before_notes(
    previous_json: Option<Seq<char>>,
    rejections: Seq<Seq<char>>,
    retry_json: Option<Seq<char>>,
    ev: EvidencePackView,
) -> (e: Seq<char>)
    requires
        ev.notes.len() > 0,
    ensures
        untrusted(previous_json, rejections, retry_json, ev) == ({
            let f = e + NOTES_NOTICE@ + note_lines(ev.notes) + "\n"@;
            let g = if ev.segments.len() > 0 {
                f + "逐字稿片段（sourceId / sourceRevision 引用時要照抄）：\n"@ + segment_lines(
                    ev.segments,
                    ev.speakers,
                ) + "\n"@
            } else {
                f
            };
            if ev.segments_omitted > 0 {
                g + "注意：另有 "@ + decimal(ev.segments_omitted as nat)
                    + " 段逐字稿因額度限制未送入，這些區間的內容你看不到，不要把成果寫得像涵蓋了整場會議。\n"@
            } else {
                g
            }
        }),
{
    let bare = EvidencePackView {
        notes: Seq::empty(),
        segments: Seq::empty(),
        segments_omitted: 0,
        ..ev
    };
    untrusted(previous_json, rejections, retry_json, bare)
}

/// The outline is sent, each entry on a line of its own, in its order.
pub proof fn the_outline_is_sent(
    req: &DraftRequest<'_>,
    previous_json: Seq<char>,
    retry: Option<(Seq<char>, Seq<char>)>,
)
    requires
        req.evidence@.outline.len() > 0,
    ensures
        ({
            let outline = req.evidence@.outline;
            stand_in_a_row(
                Seq::new(
                    outline.len(),
                    |i: int|
                        "- ["@ + decimal(outline[i].meeting_start_ms as nat) + "-"@ + decimal(
                            outline[i].meeting_end_ms as nat,
                        ) + " ms] "@ + outline[i].summary + "\n"@,
                ),
                prompt_text(req, previous_json, retry),
            )
        }),
        stands_in(OUTLINE_NOTICE@, prompt_text(req, previous_json, retry)),
{
    broadcast use {lemma_stands_before, lemma_stands_last};

    let ev = req.evidence@;
    let p = prompt_text(req, previous_json, retry);
    lemma_outline_lines(ev.outline);
    lemma_untrusted_stands(req, previous_json, retry);
    let previous = if req.previous@.len() > 0 {
        Some(previous_json)
    } else {
        None
    };
    let again = match retry {
        Some((json, _)) => Some(json),
        None => None,
    };
    let u = untrusted(previous, views(req.rejections@), again, ev);
    assert(stands_in(outline_lines(ev.outline), u));
    assert(stands_in(OUTLINE_NOTICE@, u));
    lemma_stands_within(outline_lines(ev.outline), u, p);
    lemma_stands_within(OUTLINE_NOTICE@, u, p);
}

/// The untrusted text of a prompt.
spec fn untrusted_of(
    req: &DraftRequest<'_>,
    previous_json: Seq<char>,
    retry: Option<(Seq<char>, Seq<char>)>,
) -> Seq<char> {
    untrusted(
        if req.previous@.len() > 0 {
            Some(previous_json)
        } else {
            None
        },
        views(req.rejections@),
        match retry {
            Some((json, _)) => Some(json),
            None => None,
        },
        req.evidence@,
    )
}

/// The instructions of a prompt.
spec fn instructions_of(
    req: &DraftRequest<'_>,
    retry: Option<(Seq<char>, Seq<char>)>,
) -> Seq<char> {
    instructions(
        req.prompt@,
        req.previous@.len() > 0,
        req.rejections@.len() > 0,
        match retry {
            Some((_, reason)) => Some(reason),
            None => None,
        },
    )
}

proof fn lemma_instructions_stand(
    req: &DraftRequest<'_>,
    previous_json: Seq<char>,
    retry: Option<(Seq<char>, Seq<char>)>,
) -> (rest: Seq<char>)
    ensures
        prompt_text(req, previous_json, retry) == instructions_of(req, retry) + rest,
        stands_in(instructions_of(req, retry), prompt_text(req, previous_json, retry)),
        stands_in(untrusted_of(req, previous_json, retry), rest),
{
    let head = instructions_of(req, retry);
    let u = untrusted_of(req, previous_json, retry);
    let fence = fence_of(u);
    let open = "以下到 <<END-"@ + fence + FENCE_NOTICE@ + fence + ">>\n"@;
    let close = "\n<<END-"@ + fence + ">>\n"@;
    let rest = open + u + close;
    assert(fenced_prompt(head, fence, u) =~= head + rest);
    lemma_stands(open, u, close);
    let none = Seq::<char>::empty();
    assert(head + rest =~= none + head + rest);
    lemma_stands(none, head, rest);
    rest
}

/// The names of the speakers are sent, one after another.
pub proof fn the_names_are_sent(
    req: &DraftRequest<'_>,
    previous_json: Seq<char>,
    retry: Option<(Seq<char>, Seq<char>)>,
)
    requires
        req.evidence@.speakers.len() > 0,
    ensures
        stands_in(
            joined(
                Seq::new(
                    req.evidence@.speakers.len(),
                    |i: int| req.evidence@.speakers[i].display,
                ),
                "、"@,
            ),
            prompt_text(req, previous_json, retry),
        ),
{
    broadcast use {lemma_stands_before, lemma_stands_last};

    let ev = req.evidence@;
    lemma_untrusted_stands(req, previous_json, retry);
    let u = untrusted_of(req, previous_json, retry);
    let names = joined(displays(ev.speakers), "、"@);
    assert(displays(ev.speakers) =~= Seq::new(
        ev.speakers.len(),
        |i: int| ev.speakers[i].display,
    ));
    assert(stands_in(names, u));
    lemma_stands_within(names, u, prompt_text(req, previous_json, retry));
}

/// The version that is revised is sent in full, with what a revision is.
pub proof fn the_revised_version_is_sent(
    req: &DraftRequest<'_>,
    previous_json: Seq<char>,
    retry: Option<(Seq<char>, Seq<char>)>,
)
    requires
        req.previous@.len() > 0,
    ensures
        stands_in(previous_json, prompt_text(req, previous_json, retry)),
        stands_in(PROMPT_REVISION@, prompt_text(req, previous_json, retry)),
{
    broadcast use {lemma_stands_before, lemma_stands_last};

    let p = prompt_text(req, previous_json, retry);
    lemma_untrusted_stands(req, previous_json, retry);
    let rest = lemma_instructions_stand(req, previous_json, retry);
    let u = untrusted_of(req, previous_json, retry);
    assert(stands_in(previous_json, u));
    lemma_stands_within(previous_json, u, p);
    let head = instructions_of(req, retry);
    assert(stands_in(PROMPT_REVISION@, head));
    lemma_stands_within(PROMPT_REVISION@, head, p);
}

/// Why blocks were refused in the round before is sent, reason by reason.
pub proof fn every_refusal_is_sent(
    req: &DraftRequest<'_>,
    previous_json: Seq<char>,
    retry: Option<(Seq<char>, Seq<char>)>,
)
    requires
        req.rejections@.len() > 0,
    ensures
        stand_in_a_row(
            Seq::new(
                req.rejections@.len(),
                |i: int| "- "@ + req.rejections@[i]@ + "\n"@,
            ),
            prompt_text(req, previous_json, retry),
        ),
{
    broadcast use {lemma_stands_before, lemma_stands_last};

    let rejections = views(req.rejections@);
    lemma_bullets(rejections);
    lemma_untrusted_stands(req, previous_json, retry);
    let u = untrusted_of(req, previous_json, retry);
    assert(stands_in(bullets(rejections), u));
    lemma_stands_within(bullets(rejections), u, prompt_text(req, previous_json, retry));
    assert(Seq::new(rejections.len(), |i: int| "- "@ + rejections[i] + "\n"@) =~= Seq::new(
        req.rejections@.len(),
        |i: int| "- "@ + req.rejections@[i]@ + "\n"@,
    ));
}

/// A block that is asked for anew is sent, and what is wrong with it is told.
pub proof fn the_block_to_write_anew_is_sent(
    req: &DraftRequest<'_>,
    previous_json: Seq<char>,
    json: Seq<char>,
    reason: Seq<char>,
)
    ensures
        stands_in(json, prompt_text(req, previous_json, Some((json, reason)))),
        stands_in(PROMPT_RETRY@ + reason, prompt_text(req, previous_json, Some((json, reason)))),
{
    let retry = Some((json, reason));
    let p = prompt_text(req, previous_json, retry);
    lemma_untrusted_stands(req, previous_json, retry);
    let rest = lemma_instructions_stand(req, previous_json, retry);
    let u = untrusted_of(req, previous_json, retry);
    assert(stands_in(json, u)) by {
        broadcast use {lemma_stands_before, lemma_stands_last};

    }
    lemma_stands_within(json, u, p);
    let head = instructions_of(req, retry);
    let told = instructions(req.prompt@, req.previous@.len() > 0, req.rejections@.len() > 0, None);
    assert(head =~= told + (PROMPT_RETRY@ + reason) + "\n\n"@);
    lemma_stands(told, PROMPT_RETRY@ + reason, "\n\n"@);
    lemma_stands_within(PROMPT_RETRY@ + reason, head, p);
}

/// How many segments are missing is told, where any are.
pub proof fn missing_segments_are_told(
    req: &DraftRequest<'_>,
    previous_json: Seq<char>,
    retry: Option<(Seq<char>, Seq<char>)>,
)
    requires
        req.evidence@.segments_omitted > 0,
    ensures
        stands_in(
            "注意：另有 "@ + decimal(req.evidence@.segments_omitted as nat)
                + " 段逐字稿因額度限制未送入，這些區間的內容你看不到，不要把成果寫得像涵蓋了整場會議。\n"@,
            prompt_text(req, previous_json, retry),
        ),
{
    let ev = req.evidence@;
    lemma_untrusted_stands(req, previous_json, retry);
    let u = untrusted_of(req, previous_json, retry);
    let previous = if req.previous@.len() > 0 {
        Some(previous_json)
    } else {
        None
    };
    let again = match retry {
        Some((json, _)) => Some(json),
        None => None,
    };
    let all = EvidencePackView { segments_omitted: 0, ..ev };
    let g = untrusted(previous, views(req.rejections@), again, all);
    let more = " 段逐字稿因額度限制未送入，這些區間的內容你看不到，不要把成果寫得像涵蓋了整場會議。\n"@;
    let words = "注意：另有 "@ + decimal(ev.segments_omitted as nat) + more;
    assert(u == g + "注意：另有 "@ + decimal(ev.segments_omitted as nat) + more);
    assert(u =~= g + words);
    lemma_stands_last(words, g);
    lemma_stands_within(words, u, prompt_text(req, previous_json, retry));
}

proof fn lemma_said(
    prompt: Seq<char>,
    revising: bool,
    rejected: bool,
    reason: Option<Seq<char>>,
)
    requires
        !blank(prompt),
    ensures
        stands_in(
            "本輪使用者要求：\n"@ + trimmed(prompt) + "\n\n"@,
            instructions(prompt, revising, rejected, reason),
        ),
{
    broadcast use {lemma_stands_before, lemma_stands_last};

    trimmed_is_empty_iff_blank(prompt);
    let said = "本輪使用者要求：\n"@ + trimmed(prompt) + "\n\n"@;
    let start = PROMPT_ROLE@ + SCHEMA_BRIEF@ + PROMPT_FORMAT@;
    let asked = start + "本輪使用者要求：\n"@ + trimmed(prompt) + "\n\n"@;
    assert(asked =~= start + said);
    assert(stands_in(said, asked));
}

/// What the user asks for stands in the instructions, before anything that others have said or
/// written, without the white space around it.
pub proof fn the_users_words_are_instructions(
    req: &DraftRequest<'_>,
    previous_json: Seq<char>,
    retry: Option<(Seq<char>, Seq<char>)>,
)
    requires
        !blank(req.prompt@),
    ensures
        exists|head: Seq<char>, rest: Seq<char>|
            {
                &&& prompt_text(req, previous_json, retry) == #[trigger] (head + rest)
                &&& stands_in("本輪使用者要求：\n"@ + trimmed(req.prompt@) + "\n\n"@, head)
                &&& stands_in(
                    untrusted(
                        if req.previous@.len() > 0 {
                            Some(previous_json)
                        } else {
                            None
                        },
                        views(req.rejections@),
                        match retry {
                            Some((json, _)) => Some(json),
                            None => None,
                        },
                        req.evidence@,
                    ),
                    rest,
                )
            },
{
    let reason = match retry {
        Some((_, reason)) => Some(reason),
        None => None,
    };
    lemma_said(req.prompt@, req.previous@.len() > 0, req.rejections@.len() > 0, reason);
    let rest = lemma_instructions_stand(req, previous_json, retry);
    let head = instructions_of(req, retry);
    assert(prompt_text(req, previous_json, retry) == head + rest);
}

/// The rules for blocks come first in every prompt.
pub proof fn the_rules_come_first(
    req: &DraftRequest<'_>,
    previous_json: Seq<char>,
    retry: Option<(Seq<char>, Seq<char>)>,
)
    ensures
        ({
            let rules = PROMPT_ROLE@ + SCHEMA_BRIEF@ + PROMPT_FORMAT@;
            let p = prompt_text(req, previous_json, retry);
            rules.len() <= p.len() && p.subrange(0, rules.len() as int) == rules
        }),
{
    let rest = lemma_instructions_stand(req, previous_json, retry);
    let start = PROMPT_ROLE@ + SCHEMA_BRIEF@ + PROMPT_FORMAT@;
    let head = instructions_of(req, retry);
    let n = start.len() as int;
    assert(head.subrange(0, n) =~= start);
    assert((head + rest).subrange(0, n) =~= head.subrange(0, n));
}

} // verus!
