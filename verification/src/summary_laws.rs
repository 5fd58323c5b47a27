//! What a summary comes to: which blocks meet the rules, which drafts are kept, and what is
//! stored of them.

use crate::agent::{
    deduplicated, gap, key, outcome, reported_by_system, retried, settled, stays, staying,
    unretried, weight, DegradedView, RetryView, SettledDraftView, SettledView,
};
use crate::citation::{admitted_blocks, block_verdicts, normalized, BlockVerdictView};
use crate::cli_planner::{completed, AgentNamesView, CliKind};
use crate::document::{restored, rows_text, BlockKind, BlockView, ContentView};
use crate::evidence::{AgentErrorView, EvidencePackView};
use crate::generation::{
    after_round, asked, finished, finished_run, rejection_reasons, revisable, run_start, stop_after,
    version_blocks, GenerationResultView, RunView, StopReason,
};
use crate::model::ClaimKind;
use crate::parts::{lemma_flat_last, stands_in};
use crate::session_model::IdSeeds;
use crate::store::{EvidenceTextView, RunBlockView, StoredRunView};
use crate::summary::{
    judged, past_plan, planner_of, rows_of, run_of_version, run_with_id, usage_of, with_uncovered,
    PlannerChoiceView,
};
use crate::text::{blank, decimal, joined};
use vstd::prelude::*;

verus! {

// ---------------------------------------------------------------------------
// The rules for blocks
// ---------------------------------------------------------------------------

/// What the rules ask of a block, kind by kind: the structure of the kind, the claim that the kind
/// can make, and something in every part that a reader is to read.
pub proof fn what_the_rules_ask(b: BlockView)
    ensures
        b.check() is Ok <==> match (b.kind, b.content) {
            (BlockKind::Heading, ContentView::Heading { level, text }) => 1 <= level <= 4 && !blank(
                text,
            ),
            (BlockKind::Paragraph, ContentView::Text { text }) => !blank(text),
            (BlockKind::Decision, ContentView::Text { text }) => !blank(text) && b.claim_kind is Fact,
            (BlockKind::Gap, ContentView::Text { text }) => !blank(text) && b.claim_kind is Gap,
            (BlockKind::Suggestion, ContentView::Text { text }) => !blank(text) && b.claim_kind
                is Suggestion,
            (BlockKind::BulletList, ContentView::Bullets { items }) => items.len() > 0 && forall|
                i: int,
            |
                0 <= i < items.len() ==> !blank(#[trigger] items[i]),
            (BlockKind::Table, ContentView::Table { headers, rows }) => headers.len() > 0 && forall|
                i: int,
            |
                0 <= i < rows.len() ==> (#[trigger] rows[i]).len() == headers.len(),
            (BlockKind::MermaidDiagram, ContentView::Mermaid { source }) => !blank(source),
            (BlockKind::Callout, ContentView::Callout { title, body, .. }) => !blank(title)
                && !blank(body),
            (BlockKind::ActionItem, ContentView::ActionItem { text, .. }) => !blank(text)
                && b.claim_kind is Fact,
            (BlockKind::TranscriptExcerpt, ContentView::Excerpt { text, .. }) => !blank(text)
                && b.claim_kind is Fact,
            (BlockKind::SourceLink, ContentView::Link { label, target }) => !blank(label)
                && !blank(target),
            _ => false,
        },
{
}

proof fn lemma_rows_text(rows: Seq<Seq<Seq<char>>>)
    ensures
        rows_text(rows) == Seq::new(
            rows.len(),
            |i: int| seq!['；'] + joined(rows[i], "、"@),
        ).flatten(),
    decreases rows.len(),
{
    let parts = Seq::new(rows.len(), |i: int| seq!['；'] + joined(rows[i], "、"@));
    if rows.len() > 0 {
        let rest = rows.drop_last();
        lemma_rows_text(rest);
        let front = Seq::new(rest.len(), |i: int| seq!['；'] + joined(rest[i], "、"@));
        assert(parts.drop_last() =~= front);
        lemma_flat_last(parts);
        assert(rows_text(rows) =~= rows_text(rest) + parts.last());
    }
}

/// The text of a block without its structure leaves nothing out that it says: all items of a
/// list, all cells of a table row by row, the title and the words of a callout, the label and
/// the target of a link.
pub proof fn plain_text_leaves_nothing_out(c: ContentView)
    ensures
        match c {
            ContentView::Heading { text, .. } => c.plain() == text,
            ContentView::Text { text } => c.plain() == text,
            ContentView::ActionItem { text, .. } => c.plain() == text,
            ContentView::Excerpt { text, .. } => c.plain() == text,
            ContentView::Bullets { items } => c.plain() == joined(items, "；"@),
            ContentView::Table { headers, rows } => c.plain() == joined(headers, "、"@) + Seq::new(
                rows.len(),
                |i: int| seq!['；'] + joined(rows[i], "、"@),
            ).flatten(),
            ContentView::Mermaid { source } => c.plain() == source,
            ContentView::Callout { title, body, .. } => c.plain() == title + "："@ + body,
            ContentView::Link { label, target } => c.plain() == label + "（"@ + target + "）"@,
        },
{
    if let ContentView::Table { rows, .. } = c {
        lemma_rows_text(rows);
    }
}

/// A block in its last form stays as it is where it meets the rules. Where it does not, a fact
/// is removed, and anything else becomes a paragraph with all of its words, its claim and its
/// citations, and a note of the place, the kind and the reason.
pub proof fn blocks_stay_or_give_up_their_structure(position: u32, original: BlockKind, b: BlockView)
    ensures
        match outcome(position, original, b) {
            SettledView::Kept(k) => b.check() is Ok && k == b,
            SettledView::Removed => b.check() is Err && b.claim_kind is Fact,
            SettledView::Degraded(p, note) => {
                &&& b.check() is Err
                &&& !(b.claim_kind is Fact)
                &&& p.kind is Paragraph
                &&& p.claim_kind == b.claim_kind
                &&& p.content == (ContentView::Text { text: b.content.plain() })
                &&& p.source_refs == b.source_refs
                &&& note.position == position
                &&& note.original_kind == original.word()
                &&& b.check() matches Err(e) && note.reason == e.words()
            },
        },
{
}

// ---------------------------------------------------------------------------
// Repetitions
// ---------------------------------------------------------------------------

spec fn staying_places(blocks: Seq<BlockView>, n: int) -> Seq<int>
    decreases n,
{
    if n <= 0 {
        Seq::empty()
    } else if stays(blocks, n - 1) {
        staying_places(blocks, n - 1).push(n - 1)
    } else {
        staying_places(blocks, n - 1)
    }
}

proof fn lemma_staying_places(blocks: Seq<BlockView>, n: int)
    requires
        0 <= n <= blocks.len(),
    ensures
        ({
            let at = staying_places(blocks, n);
            let kept = staying(blocks, n);
            &&& at.len() == kept.len()
            &&& forall|k: int|
                0 <= k < at.len() ==> 0 <= #[trigger] at[k] < n && kept[k] == blocks[at[k]] && stays(
                    blocks,
                    at[k],
                )
            &&& forall|j: int, k: int| 0 <= j < k < at.len() ==> at[j] < at[k]
            &&& forall|i: int| 0 <= i < n && stays(blocks, i) ==> #[trigger] at.contains(i)
        }),
    decreases n,
{
    if n > 0 {
        lemma_staying_places(blocks, n - 1);
        let before = staying_places(blocks, n - 1);
        let at = staying_places(blocks, n);
        assert forall|i: int| 0 <= i < n && stays(blocks, i) implies #[trigger] at.contains(i) by {
            if i == n - 1 {
                assert(at[at.len() - 1] == i);
            } else {
                assert(before.contains(i));
                let k = choose|k: int| 0 <= k < before.len() && before[k] == i;
                assert(at[k] == i);
            }
        }
    }
}

/// A draft is settled block by block: each block stays, gives up its structure or is left out by
/// itself, those that are there stay in their order, and each that gave up its structure is noted
/// with its place.
pub proof fn drafts_are_settled_block_by_block(
    drafted: Seq<BlockView>,
    replies: Seq<Seq<Option<BlockView>>>,
)
    requires
        drafted.len() <= usize::MAX,
    ensures
        ({
            let d = settled(drafted, replies);
            let out = Seq::new(
                drafted.len(),
                |i: int|
                    outcome(
                        i as u32,
                        drafted[i].kind,
                        retried(unretried(drafted[i]), replies[i]),
                    ),
            );
            &&& d.blocks == Seq::new(
                out.len(),
                |i: int|
                    match out[i] {
                        SettledView::Kept(b) => seq![b],
                        SettledView::Degraded(b, _) => seq![b],
                        SettledView::Removed => Seq::<BlockView>::empty(),
                    },
            ).flatten()
            &&& d.degraded == Seq::new(
                out.len(),
                |i: int|
                    match out[i] {
                        SettledView::Degraded(_, note) => seq![note],
                        _ => Seq::<DegradedView>::empty(),
                    },
            ).flatten()
            &&& d.removed == Seq::new(
                out.len(),
                |i: int|
                    if out[i] is Removed {
                        seq![i]
                    } else {
                        Seq::<int>::empty()
                    },
            ).flatten().len()
            &&& d.removed <= drafted.len()
        }),
    decreases drafted.len(),
{
    let out = Seq::new(
        drafted.len(),
        |i: int|
            outcome(i as u32, drafted[i].kind, retried(unretried(drafted[i]), replies[i])),
    );
    let a = Seq::new(
        out.len(),
        |i: int|
            match out[i] {
                SettledView::Kept(b) => seq![b],
                SettledView::Degraded(b, _) => seq![b],
                SettledView::Removed => Seq::<BlockView>::empty(),
            },
    );
    let b = Seq::new(
        out.len(),
        |i: int|
            match out[i] {
                SettledView::Degraded(_, note) => seq![note],
                _ => Seq::<DegradedView>::empty(),
            },
    );
    let c = Seq::new(
        out.len(),
        |i: int|
            if out[i] is Removed {
                seq![i]
            } else {
                Seq::<int>::empty()
            },
    );
    if drafted.len() > 0 {
        let rest = drafted.drop_last();
        drafts_are_settled_block_by_block(rest, replies);
        let before = Seq::new(
            rest.len(),
            |i: int| outcome(i as u32, rest[i].kind, retried(unretried(rest[i]), replies[i])),
        );
        assert(before =~= out.drop_last());
        assert(Seq::new(
            before.len(),
            |i: int|
                match before[i] {
                    SettledView::Kept(b) => seq![b],
                    SettledView::Degraded(b, _) => seq![b],
                    SettledView::Removed => Seq::<BlockView>::empty(),
                },
        ) =~= a.drop_last());
        assert(Seq::new(
            before.len(),
            |i: int|
                match before[i] {
                    SettledView::Degraded(_, note) => seq![note],
                    _ => Seq::<DegradedView>::empty(),
                },
        ) =~= b.drop_last());
        assert(Seq::new(
            before.len(),
            |i: int|
                if before[i] is Removed {
                    seq![i]
                } else {
                    Seq::<int>::empty()
                },
        ) =~= c.drop_last());
        lemma_flat_last(a);
        lemma_flat_last(b);
        lemma_flat_last(c);
    }
}

/// How much structure a kind carries: decisions and action items most, then gaps and
/// suggestions, then everything else, and paragraphs least.
pub proof fn decisions_weigh_most(kind: BlockKind)
    ensures
        weight(kind) == match kind {
            BlockKind::Decision => 3int,
            BlockKind::ActionItem => 3,
            BlockKind::Gap => 2,
            BlockKind::Suggestion => 2,
            BlockKind::Paragraph => 0,
            _ => 1,
        },
{
}

/// Repetitions are left out and nothing else, and what is left keeps its order. A block stays
/// exactly where it has no text to compare, or no other block with the same text carries more
/// structure, or as much and comes before it.
pub proof fn repetitions_are_left_out(blocks: Seq<BlockView>)
    ensures
        exists|at: Seq<int>|
            {
                &&& #[trigger] at.len() == deduplicated(blocks).len()
                &&& forall|k: int|
                    0 <= k < at.len() ==> 0 <= #[trigger] at[k] < blocks.len() && deduplicated(
                        blocks,
                    )[k] == blocks[at[k]]
                &&& forall|j: int, k: int| 0 <= j < k < at.len() ==> at[j] < at[k]
                &&& forall|i: int|
                    #![trigger at.contains(i)]
                    0 <= i < blocks.len() ==> (at.contains(i) <==> normalized(
                        blocks[i].content.plain(),
                    ).len() == 0 || forall|j: int|
                        0 <= j < blocks.len() && normalized(
                            (#[trigger] blocks[j]).content.plain(),
                        ) == normalized(blocks[i].content.plain()) ==> weight(blocks[j].kind)
                            < weight(blocks[i].kind) || (weight(blocks[j].kind) == weight(
                            blocks[i].kind,
                        ) && j >= i))
            },
{
    let n = blocks.len() as int;
    lemma_staying_places(blocks, n);
    let at = staying_places(blocks, n);
    assert(at.len() == deduplicated(blocks).len());
    assert forall|i: int| #![trigger at.contains(i)] 0 <= i < n implies (at.contains(i)
        <==> normalized(blocks[i].content.plain()).len() == 0 || forall|j: int|
        0 <= j < blocks.len() && normalized((#[trigger] blocks[j]).content.plain()) == normalized(
            blocks[i].content.plain(),
        ) ==> weight(blocks[j].kind) < weight(blocks[i].kind) || (weight(blocks[j].kind) == weight(
            blocks[i].kind,
        ) && j >= i)) by {
        if at.contains(i) {
            let k = choose|k: int| 0 <= k < at.len() && at[k] == i;
            assert(stays(blocks, at[k]));
            assert forall|j: int|
                key(blocks[i]).len() > 0 && 0 <= j < blocks.len() && normalized(
                    (#[trigger] blocks[j]).content.plain(),
                ) == normalized(blocks[i].content.plain()) implies weight(blocks[j].kind) < weight(
                blocks[i].kind,
            ) || (weight(blocks[j].kind) == weight(blocks[i].kind) && j >= i) by {
                assert(!crate::agent::replaces(blocks, j, i));
            }
        } else {
            assert(!stays(blocks, i));
            let j = choose|j: int|
                0 <= j < blocks.len() && #[trigger] crate::agent::replaces(blocks, j, i);
            assert(normalized(blocks[j].content.plain()) == normalized(blocks[i].content.plain()));
        }
    }
}

// ---------------------------------------------------------------------------
// Rounds
// ---------------------------------------------------------------------------

/// Why blocks did not pass is collected block by block, in their order.
pub proof fn reasons_are_collected_in_order(
    a: Seq<BlockVerdictView>,
    b: Seq<BlockVerdictView>,
    v: BlockVerdictView,
)
    ensures
        rejection_reasons(a + b) == rejection_reasons(a) + rejection_reasons(b),
        rejection_reasons(seq![v]) == if !v.admitted && v.reason is Some {
            seq![v.reason->0]
        } else {
            Seq::empty()
        },
    decreases b.len(),
{
    let one = seq![v];
    assert(one.drop_last() =~= Seq::empty());
    assert(one.last() == v);
    assert(rejection_reasons(one.drop_last()) =~= Seq::empty());
    assert(Seq::<Seq<char>>::empty().push(v.reason->0) =~= seq![v.reason->0]);
    if b.len() == 0 {
        assert(a + b =~= a);
        assert(rejection_reasons(a) + rejection_reasons(b) =~= rejection_reasons(a));
    } else {
        reasons_are_collected_in_order(a, b.drop_last(), v);
        assert((a + b).drop_last() =~= a + b.drop_last());
        assert((a + b).last() == b.last());
        assert(rejection_reasons(a + b) =~= rejection_reasons(a) + rejection_reasons(b));
    }
}

/// After a round the better draft is kept: the new one where more of its blocks pass, or as many
/// and fewer are lost, and the best one before where not. The next round is told why blocks of
/// this one were refused. What was given up is noted, round after round.
pub proof fn the_better_draft_is_kept(
    run: RunView,
    evidence: Seq<EvidenceTextView>,
    through: u64,
    draft: SettledDraftView,
)
    requires
        run.round < u32::MAX,
        draft.blocks.len() <= usize::MAX,
    ensures
        ({
            let t = after_round(run, evidence, through, draft);
            let sound = deduplicated(
                admitted_blocks(evidence, through, draft.blocks),
            );
            let lost = rejection_reasons(
                block_verdicts(evidence, through, draft.blocks),
            );
            &&& t.rejections == lost
            &&& t.round == run.round + 1
            &&& t.degraded == run.degraded + draft.degraded
            &&& sound.len() > run.best.len() ==> t.best == sound
            &&& sound.len() == run.best.len() && lost.len() < run.best_rejected ==> t.best == sound
                && t.best_rejected == lost.len()
            &&& sound.len() < run.best.len() ==> t.best == run.best && t.best_rejected
                == run.best_rejected
            &&& sound.len() == run.best.len() && lost.len() >= run.best_rejected ==> t.best
                == run.best && t.best_rejected == run.best_rejected
            &&& run.rejected_total + draft.removed + lost.len() <= usize::MAX ==> t.rejected_total
                == run.rejected_total + draft.removed + lost.len()
        }),
{
    let verdicts = block_verdicts(evidence, through, draft.blocks);
    lemma_reasons_bounded(verdicts);
}

/// The verdicts that are kept are those on the draft that is kept, and what was said twice in a
/// draft is counted, whether or not that draft is kept.
pub proof fn verdicts_go_with_their_draft(
    run: RunView,
    evidence: Seq<EvidenceTextView>,
    through: u64,
    draft: SettledDraftView,
)
    ensures
        ({
            let t = after_round(run, evidence, through, draft);
            let verdicts = block_verdicts(evidence, through, draft.blocks);
            let sound = admitted_blocks(evidence, through, draft.blocks);
            let once = deduplicated(sound);
            let lost = rejection_reasons(verdicts);
            let better = once.len() > run.best.len() || (once.len() == run.best.len() && lost.len()
                < run.best_rejected);
            &&& better ==> t.best_verdicts == verdicts
            &&& !better ==> t.best_verdicts == run.best_verdicts
            &&& once.len() <= sound.len() && run.duplicates + (sound.len() - once.len())
                <= usize::MAX ==> t.duplicates == run.duplicates + (sound.len() - once.len())
        }),
{
}

/// Every round is asked for with the same prompt, evidence and earlier version, under its number,
/// and is told why blocks of the round before were refused.
pub proof fn every_round_is_told_why(
    prompt: Seq<char>,
    pack: EvidencePackView,
    previous: Seq<BlockView>,
    run: RunView,
    evidence: Seq<EvidenceTextView>,
    through: u64,
    draft: SettledDraftView,
)
    requires
        run.round < u32::MAX - 1,
    ensures
        asked(prompt, pack, previous, run_start()).rejections.len() == 0,
        asked(prompt, pack, previous, run_start()).round == 1,
        ({
            let r = asked(prompt, pack, previous, after_round(run, evidence, through, draft));
            &&& r.prompt == prompt && r.evidence == pack && r.previous == previous
            &&& r.rejections == rejection_reasons(block_verdicts(evidence, through, draft.blocks))
            &&& r.round == run.round + 2
        }),
{
}

/// A block that is not written anew when it is asked for is not asked for again, and stays what
/// it was. One that is takes the place of what it was, and one chance is used up.
pub proof fn each_answer_uses_up_a_chance(t: RetryView, b: BlockView)
    requires
        t.left > 0,
    ensures
        t.after(None).block == t.block,
        t.after(None).reason() is None,
        t.after(Some(b)).block == b,
        t.after(Some(b)).left == t.left - 1,
        t.reason() is Some <==> t.block.check() is Err,
        b.check() is Ok ==> t.after(Some(b)).reason() is None,
        unretried(b).left == 2,
{
}

proof fn lemma_reasons_bounded(verdicts: Seq<BlockVerdictView>)
    ensures
        rejection_reasons(verdicts).len() <= verdicts.len(),
    decreases verdicts.len(),
{
    if verdicts.len() > 0 {
        lemma_reasons_bounded(verdicts.drop_last());
    }
}

/// The loop stops where nothing was refused, where there were as many rounds as are allowed, and
/// where a round with something to show before it brought nothing better; otherwise it goes on.
pub proof fn when_the_loop_stops(run: RunView, better: bool, max_rounds: u32)
    ensures
        stop_after(run, better, max_rounds) is None <==> run.rejections.len() > 0 && run.round
            < max_rounds && (better || run.best.len() == 0),
        stop_after(run, better, max_rounds) == Some(StopReason::Verified)
            <==> run.rejections.len() == 0,
        stop_after(run, better, max_rounds) == Some(StopReason::NoImprovement)
            <==> run.rejections.len() > 0 && run.round < max_rounds && !better && run.best.len() > 0,
        stop_after(run, better, max_rounds) == Some(StopReason::RoundLimit)
            <==> run.rejections.len() > 0 && run.round >= max_rounds && run.best.len() > 0,
        stop_after(run, better, max_rounds) == Some(StopReason::NothingAdmissible)
            <==> run.rejections.len() > 0 && run.round >= max_rounds && run.best.len() == 0,
{
}

/// A generation comes to the best draft, and after it says how many segments were left out, where
/// any were; without repetitions. It says how often it asked, what it gave up and what it sent.
pub proof fn a_generation_comes_to_its_best_draft(
    run: RunView,
    stop: StopReason,
    pack: EvidencePackView,
)
    ensures
        ({
            let g = finished(run, stop, pack);
            &&& run.best.len() == 0 ==> g.blocks.len() == 0 && g.stop_reason is NothingAdmissible
            &&& run.best.len() > 0 ==> g.stop_reason == stop
            &&& run.best.len() > 0 && pack.segments_omitted == 0 ==> g.blocks == deduplicated(
                run.best,
            )
            &&& run.best.len() > 0 && pack.segments_omitted > 0 ==> g.blocks == deduplicated(
                run.best.push(
                    BlockView {
                        kind: BlockKind::Gap,
                        claim_kind: ClaimKind::Gap,
                        content: ContentView::Text {
                            text: "本輪有 "@ + decimal(pack.segments_omitted as nat)
                                + " 段逐字稿因額度限制未以原文納入證據，這些區間的內容未被涵蓋。"@,
                        },
                        source_refs: Seq::empty(),
                    },
                ),
            )
            &&& g.rounds == run.round
            &&& g.rejections == run.rejections
            &&& g.degraded == run.degraded
            &&& g.rejected_blocks == run.rejected_total
            &&& g.evidence_tokens == pack.tokens_used
            &&& g.segments_omitted == pack.segments_omitted
        }),
{
    let none = Seq::<BlockView>::empty();
    assert(run.best + none =~= run.best);
    if pack.segments_omitted > 0 {
        let g = gap(crate::agent::omitted_words(pack.segments_omitted as nat));
        assert(run.best + seq![g] =~= run.best.push(g));
    }
}

// ---------------------------------------------------------------------------
// Revisions
// ---------------------------------------------------------------------------

/// A revision starts from the first completed run of its version, and from nothing else; where
/// there is none it does not start.
pub proof fn revisions_start_from_their_version(runs: Seq<StoredRunView>, version: u32, k: int)
    requires
        0 <= k <= runs.len(),
        k < runs.len() ==> runs[k].version_no == version && runs[k].status == "completed"@,
        forall|j: int|
            0 <= j < k ==> !((#[trigger] runs[j]).version_no == version && runs[j].status
                == "completed"@),
    ensures
        k < runs.len() ==> version_blocks(runs, version) == Ok::<Seq<BlockView>, AgentErrorView>(
            revisable(runs[k].blocks),
        ),
        k == runs.len() ==> version_blocks(runs, version) is Err,
{
    lemma_finished_run(runs, version, k);
}

proof fn lemma_finished_run(runs: Seq<StoredRunView>, version: u32, k: int)
    requires
        0 <= k <= runs.len(),
        k < runs.len() ==> runs[k].version_no == version && runs[k].status == "completed"@,
        forall|j: int|
            0 <= j < k ==> !((#[trigger] runs[j]).version_no == version && runs[j].status
                == "completed"@),
    ensures
        finished_run(runs, version) == if k < runs.len() {
            Some(runs[k])
        } else {
            None
        },
    decreases k,
{
    if k > 0 {
        let rest = runs.skip(1);
        assert(!(runs[0].version_no == version && runs[0].status == "completed"@));
        assert forall|j: int| 0 <= j < k - 1 implies !((#[trigger] rest[j]).version_no == version
            && rest[j].status == "completed"@) by {
            assert(rest[j] == runs[j + 1]);
        }
        lemma_finished_run(rest, version, k - 1);
    }
}

/// All blocks of that version are revised that can be read, in their order, but for the gaps
/// that the system itself reported.
pub proof fn revisions_start_with_all_that_can_be_read(
    a: Seq<RunBlockView>,
    b: Seq<RunBlockView>,
    one: RunBlockView,
)
    ensures
        revisable(a + b) == revisable(a) + revisable(b),
        revisable(seq![one]) == match restored(one.row, one.content) {
            Some(block) => if reported_by_system(block) {
                Seq::empty()
            } else {
                seq![block]
            },
            None => Seq::empty(),
        },
    decreases b.len(),
{
    let single = seq![one];
    assert(single.drop_last() =~= Seq::empty());
    assert(single.last() == one);
    assert(revisable(single.drop_last()) =~= Seq::empty());
    if let Some(block) = restored(one.row, one.content) {
        assert(Seq::<BlockView>::empty().push(block) =~= seq![block]);
    }
    if b.len() == 0 {
        assert(a + b =~= a);
        assert(revisable(a) + revisable(b) =~= revisable(a));
    } else {
        revisions_start_with_all_that_can_be_read(a, b.drop_last(), one);
        assert((a + b).drop_last() =~= a + b.drop_last());
        assert((a + b).last() == b.last());
        assert(revisable(a + b) =~= revisable(a) + revisable(b));
    }
}

// ---------------------------------------------------------------------------
// What is stored
// ---------------------------------------------------------------------------

/// A document holds what was generated, in its order, and after it says how much has come since,
/// where anything has.
pub proof fn documents_hold_what_was_generated(blocks: Seq<BlockView>, uncovered: u64)
    ensures
        uncovered == 0 ==> with_uncovered(blocks, uncovered) == blocks,
        uncovered > 0 ==> with_uncovered(blocks, uncovered) == blocks.push(
            BlockView {
                kind: BlockKind::Gap,
                claim_kind: ClaimKind::Gap,
                content: ContentView::Text {
                    text: "快照建立之後又記錄了 "@ + decimal(uncovered as nat)
                        + " 筆逐字稿或筆記，那些內容不在本輪成果裡。"@,
                },
                source_refs: Seq::empty(),
            },
        ),
{
}

/// Every block is stored in a row of its own, under its place, with its kind, its claim, its
/// content and its citations.
pub proof fn every_block_is_stored(
    blocks: Seq<BlockView>,
    contents: Seq<Option<Seq<char>>>,
    i: int,
)
    requires
        0 <= i < blocks.len(),
        i < 0x1_0000_0000,
    ensures
        ({
            let row = rows_of(blocks, contents)[i];
            &&& rows_of(blocks, contents).len() == blocks.len()
            &&& row.position == i
            &&& row.kind == blocks[i].kind.word()
            &&& row.claim_kind == blocks[i].claim_kind
            &&& row.source_refs == blocks[i].source_refs
            &&& i < contents.len() && contents[i] is Some ==> row.content == contents[i]->0
            &&& i >= contents.len() || contents[i] is None ==> row.content == "{}"@
        }),
{
}

/// How a generation went is kept with the document.
pub proof fn how_it_went_is_kept(r: GenerationResultView, revise_of: Option<u32>)
    ensures
        ({
            let u = usage_of(r, revise_of);
            &&& u.rounds == r.rounds && u.stop_reason == r.stop_reason
            &&& u.evidence_tokens == r.evidence_tokens && u.segments_omitted == r.segments_omitted
            &&& u.rejected_blocks == r.rejected_blocks && u.duplicates_removed
                == r.duplicates_removed
            &&& u.revision_of == revise_of && u.degraded == r.degraded
        }),
{
}

/// A generation with a block in it is a document as it is; one without is a failure, and so is
/// an error, each with its reason.
pub proof fn empty_generations_are_failures(produced: Result<GenerationResultView, AgentErrorView>)
    ensures
        match produced {
            Err(e) => judged(produced) == Err::<GenerationResultView, Seq<char>>(e.words()),
            Ok(g) => if g.blocks.len() > 0 {
                judged(produced) == Ok::<GenerationResultView, Seq<char>>(g)
            } else if g.rejected_blocks == 0 {
                judged(produced) == Err::<GenerationResultView, Seq<char>>(
                    "模型沒有產出任何區塊。"@,
                )
            } else {
                judged(produced) matches Err(reason) && stands_in(
                    "產出的 "@ + decimal(g.rejected_blocks as nat),
                    reason,
                ) && (g.rejections.len() > 0 ==> stands_in(joined(g.rejections, "；"@), reason))
            },
        },
{
    broadcast use {crate::parts::lemma_stands_before, crate::parts::lemma_stands_last};

    if let Ok(g) = produced {
        crate::parts::lemma_stands_in_itself("產出的 "@ + decimal(g.rejected_blocks as nat));
    }
}

/// Who plans: the built-in planner where it is chosen, the program that is named where it can be
/// run, whichever can be run where that is left to the machine, the first before the second; and
/// otherwise nobody, which is said of what was chosen.
pub proof fn the_chosen_planner_plans(
    provider: Seq<char>,
    names: AgentNamesView,
    first: bool,
    second: bool,
)
    requires
        provider != "fixture"@,
        names.claude.id != names.codex.id,
        names.claude.id != "system"@,
        names.codex.id != "system"@,
    ensures
        ({
            let choice = planner_of(Some(provider), names, first, second);
            &&& provider == "system"@ && first ==> choice == PlannerChoiceView::Cli(
                CliKind::ClaudeCode,
            )
            &&& provider == "system"@ && !first && second ==> choice == PlannerChoiceView::Cli(
                CliKind::Codex,
            )
            &&& provider == names.claude.id && first ==> choice == PlannerChoiceView::Cli(
                CliKind::ClaudeCode,
            )
            &&& provider == names.codex.id && second ==> choice == PlannerChoiceView::Cli(
                CliKind::Codex,
            )
            &&& provider == names.claude.id && !first ==> choice == PlannerChoiceView::Missing(
                provider,
            )
            &&& provider == names.codex.id && !second ==> choice == PlannerChoiceView::Missing(
                provider,
            )
            &&& provider != "system"@ && provider != names.claude.id && provider != names.codex.id
                ==> choice == PlannerChoiceView::Missing(provider)
        }),
{
}

/// The next version of a meeting that has ended covers it to its last event, in the document that
/// it has, under the next run.
pub proof fn past_versions_cover_the_whole_meeting(
    runs: Seq<StoredRunView>,
    seeds: IdSeeds,
    document: Option<i64>,
    high_seq: u64,
)
    requires
        seeds.document_id < i64::MAX,
        seeds.run_id < i64::MAX,
    ensures
        ({
            let p = past_plan(runs, seeds, document, high_seq);
            &&& p.work.through == high_seq
            &&& p.run_id == seeds.run_id + 1
            &&& document matches Some(id) ==> p.document_id == id
            &&& document is None ==> p.document_id == seeds.document_id + 1
            &&& runs.len() == 0 ==> p.work.version == 1 && p.work.revise_of is None
        }),
{
}

/// The run with a number is found, the first one where there are several.
pub proof fn runs_are_found_by_number(runs: Seq<StoredRunView>, run_id: i64, k: int)
    requires
        0 <= k <= runs.len(),
        k < runs.len() ==> runs[k].run_id == run_id,
        forall|j: int| 0 <= j < k ==> (#[trigger] runs[j]).run_id != run_id,
    ensures
        run_with_id(runs, run_id) == if k < runs.len() {
            Some(runs[k])
        } else {
            None
        },
    decreases k,
{
    if k > 0 {
        let rest = runs.skip(1);
        assert(runs[0].run_id != run_id);
        assert forall|j: int| 0 <= j < k - 1 implies (#[trigger] rest[j]).run_id != run_id by {
            assert(rest[j] == runs[j + 1]);
        }
        runs_are_found_by_number(rest, run_id, k - 1);
    }
}

/// The run of a version is found, the first one where there are several.
pub proof fn runs_are_found_by_version(runs: Seq<StoredRunView>, version: u32, k: int)
    requires
        0 <= k <= runs.len(),
        k < runs.len() ==> runs[k].version_no == version,
        forall|j: int| 0 <= j < k ==> (#[trigger] runs[j]).version_no != version,
    ensures
        run_of_version(runs, version) == if k < runs.len() {
            Some(runs[k])
        } else {
            None
        },
    decreases k,
{
    if k > 0 {
        let rest = runs.skip(1);
        assert(runs[0].version_no != version);
        assert forall|j: int| 0 <= j < k - 1 implies (#[trigger] rest[j]).version_no != version by {
            assert(rest[j] == runs[j + 1]);
        }
        runs_are_found_by_version(rest, version, k - 1);
    }
}

/// A gap is known as one of the system's where it claims one, cites nothing, and begins with the
/// words that the system begins with.
pub proof fn the_systems_gaps_are_told_by_their_words(b: BlockView)
    ensures
        reported_by_system(b) <==> {
            &&& b.claim_kind is Gap
            &&& b.source_refs.len() == 0
            &&& ({
                let t = b.content.plain();
                ||| "本輪有"@.len() <= t.len() && t.subrange(0, "本輪有"@.len() as int)
                    == "本輪有"@
                ||| "快照建立之後"@.len() <= t.len() && t.subrange(
                    0,
                    "快照建立之後"@.len() as int,
                ) == "快照建立之後"@
            })
        },
{
    let t = b.content.plain();
    if "本輪有"@.len() <= t.len() {
        assert(t.subrange(0, "本輪有"@.len() as int) =~= t.take("本輪有"@.len() as int));
    }
    if "快照建立之後"@.len() <= t.len() {
        assert(t.subrange(0, "快照建立之後"@.len() as int) =~= t.take(
            "快照建立之後"@.len() as int,
        ));
    }
}

} // verus!
