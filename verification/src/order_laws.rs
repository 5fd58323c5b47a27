//! Where a decision stands among the blocks has no bearing on the page.

use crate::document::{BlockView, ContentView};
use crate::render::{
    block_html, body_html, content_html, heading_entries, is_listed, lemma_summary_at, main_html,
    page, section, summary_at, summary_html, sums_up, toc_entries, without_summary, ContextView,
    Listing, TocEntryView,
};
use crate::render_laws::{lemma_summary_found, listed, lists_depend_on_their_own_blocks};
use crate::store::StoredSegmentView;
use vstd::prelude::*;

verus! {

/// Whether a block is a heading that the table of contents leads to. Its anchor goes by its
/// place among the blocks.
pub open spec fn is_anchored(b: BlockView) -> bool {
    section(b) is Body && match b.content {
        ContentView::Heading { level, .. } => level <= 2,
        _ => false,
    }
}

/// Whether a decision or action item may pass a block without a change in the page: the block is
/// of another kind, and has no anchor that counts the blocks before it.
pub open spec fn may_pass(d: BlockView, b: BlockView) -> bool {
    b.kind != d.kind && !is_anchored(b)
}

pub open spec fn may_pass_all(d: BlockView, blocks: Seq<BlockView>) -> bool {
    forall|i: int| 0 <= i < blocks.len() ==> may_pass(d, #[trigger] blocks[i])
}

/// Whether a block has a list of its own kind in the page, and does not lead the page.
pub open spec fn is_listed_apart(d: BlockView) -> bool {
    (d.kind is Decision || d.kind is ActionItem) && !sums_up(d)
}

proof fn lemma_unanchored(b: BlockView, i: nat, j: nat, transcript: Seq<StoredSegmentView>)
    requires
        section(b) is Body,
        !is_anchored(b),
    ensures
        block_html(b, Some(i), transcript) == block_html(b, Some(j), transcript),
{
    assert(content_html(b.content, Some(i)) == content_html(b.content, Some(j)));
}

proof fn lemma_body_with(
    head: Seq<BlockView>,
    d: BlockView,
    tail: Seq<BlockView>,
    transcript: Seq<StoredSegmentView>,
)
    requires
        is_listed_apart(d),
        may_pass_all(d, tail),
    ensures
        body_html(head.push(d) + tail, transcript) == body_html(head + tail, transcript),
    decreases tail.len(),
{
    let (a, b) = (head.push(d) + tail, head + tail);
    if tail.len() == 0 {
        assert(a.drop_last() =~= head);
        assert(a.last() == d);
        assert(b =~= head);
    } else {
        let front = tail.drop_last();
        assert forall|i: int| 0 <= i < front.len() implies may_pass(d, #[trigger] front[i]) by {
            assert(may_pass(d, tail[i]));
        }
        lemma_body_with(head, d, front, transcript);
        assert(a.drop_last() =~= head.push(d) + front);
        assert(b.drop_last() =~= head + front);
        assert(may_pass(d, tail[tail.len() - 1]));
        assert(a.last() == tail.last() && b.last() == tail.last());
        if section(tail.last()) is Body {
            lemma_unanchored(
                tail.last(),
                (a.len() - 1) as nat,
                (b.len() - 1) as nat,
                transcript,
            );
        }
    }
}

proof fn lemma_listed_with(
    head: Seq<BlockView>,
    d: BlockView,
    tail: Seq<BlockView>,
    listing: Listing,
)
    requires
        is_listed_apart(d),
        may_pass_all(d, head),
        may_pass_all(d, tail),
    ensures
        listed(head.push(d) + tail, listing) == if is_listed(d, listing) {
            seq![d]
        } else {
            listed(head + tail, listing)
        },
        is_listed(d, listing) ==> listed(head + tail, listing) == Seq::<BlockView>::empty(),
    decreases head.len() + tail.len(),
{
    let (a, b) = (head.push(d) + tail, head + tail);
    if tail.len() == 0 {
        assert(a.drop_last() =~= head);
        assert(a.last() == d);
        assert(b =~= head);
        if head.len() > 0 {
            let front = head.drop_last();
            assert forall|i: int| 0 <= i < front.len() implies may_pass(d, #[trigger] front[i]) by {
                assert(may_pass(d, head[i]));
            }
            lemma_listed_with(front, d, tail, listing);
            assert(front + tail =~= front);
            assert(may_pass(d, head[head.len() - 1]));
        }
        if is_listed(d, listing) {
            assert(listed(head, listing) =~= Seq::<BlockView>::empty());
            assert(listed(a, listing) == listed(head, listing).push(d));
            assert(Seq::<BlockView>::empty().push(d) =~= seq![d]);
        } else {
            assert(listed(a, listing) == listed(head, listing));
        }
    } else {
        let front = tail.drop_last();
        assert forall|i: int| 0 <= i < front.len() implies may_pass(d, #[trigger] front[i]) by {
            assert(may_pass(d, tail[i]));
        }
        lemma_listed_with(head, d, front, listing);
        assert(a.drop_last() =~= head.push(d) + front);
        assert(b.drop_last() =~= head + front);
        assert(may_pass(d, tail[tail.len() - 1]));
        assert(a.last() == tail.last() && b.last() == tail.last());
    }
}

proof fn lemma_no_headings(rest: Seq<BlockView>)
    requires
        forall|i: int| 0 <= i < rest.len() ==> !is_anchored(#[trigger] rest[i]),
    ensures
        heading_entries(rest) == Seq::<TocEntryView>::empty(),
    decreases rest.len(),
{
    if rest.len() > 0 {
        let front = rest.drop_last();
        assert forall|i: int| 0 <= i < front.len() implies !is_anchored(#[trigger] front[i]) by {
            assert(front[i] == rest[i]);
        }
        lemma_no_headings(front);
        assert(!is_anchored(rest[rest.len() - 1]));
    }
}

/// The blocks without the summary, before and after the one that was put among them.
spec fn parted(head: Seq<BlockView>, tail: Seq<BlockView>) -> (Seq<BlockView>, Seq<BlockView>) {
    let at = summary_at(head + tail);
    if at < head.len() {
        (head.take(at) + head.skip(at + 1), tail)
    } else if at < head.len() + tail.len() {
        (head, tail.take(at - head.len()) + tail.skip(at - head.len() + 1))
    } else {
        (head, tail)
    }
}

proof fn lemma_parted(head: Seq<BlockView>, d: BlockView, tail: Seq<BlockView>)
    requires
        is_listed_apart(d),
        may_pass_all(d, head),
        may_pass_all(d, tail),
    ensures
        ({
            let (h, t) = parted(head, tail);
            &&& without_summary(head.push(d) + tail) == h.push(d) + t
            &&& without_summary(head + tail) == h + t
            &&& may_pass_all(d, h)
            &&& may_pass_all(d, t)
        }),
        forall|s: Seq<StoredSegmentView>| #[trigger]
            summary_html(head.push(d) + tail, s) == summary_html(head + tail, s),
{
    let (a, b) = (head.push(d) + tail, head + tail);
    let at = summary_at(b);
    lemma_summary_found(b);
    let k = if at < head.len() {
        at
    } else {
        at + 1
    };
    assert forall|i: int| 0 <= i < k implies !sums_up(#[trigger] a[i]) by {
        if i < head.len() {
            assert(a[i] == b[i]);
        } else if i == head.len() {
            assert(a[i] == d);
        } else {
            assert(a[i] == b[i - 1]);
        }
    }
    if k < a.len() {
        assert(a[k] == b[at]);
    }
    lemma_summary_at(a, k);
    let (h, t) = parted(head, tail);
    assert(without_summary(a) =~= h.push(d) + t);
    assert(without_summary(b) =~= h + t);
    assert forall|i: int| 0 <= i < h.len() implies may_pass(d, #[trigger] h[i]) by {
        if at < head.len() && i >= at {
            assert(h[i] == head[i + 1]);
        } else {
            assert(h[i] == head[i]);
        }
    }
    assert forall|i: int| 0 <= i < t.len() implies may_pass(d, #[trigger] t[i]) by {
        if head.len() <= at < b.len() && i >= at - head.len() {
            assert(t[i] == tail[i + 1]);
        } else {
            assert(t[i] == tail[i]);
        }
    }
}

proof fn lemma_moved_to_the_end(
    ctx: ContextView,
    head: Seq<BlockView>,
    d: BlockView,
    tail: Seq<BlockView>,
)
    requires
        is_listed_apart(d),
        may_pass_all(d, head),
        may_pass_all(d, tail),
    ensures
        page(ctx, head.push(d) + tail) == page(ctx, (head + tail).push(d)),
{
    let none = Seq::<BlockView>::empty();
    let all = head + tail;
    let (a, b) = (head.push(d) + tail, all.push(d));
    let s = ctx.transcript;
    assert(may_pass_all(d, all)) by {
        assert forall|i: int| 0 <= i < all.len() implies may_pass(d, #[trigger] all[i]) by {
            if i < head.len() {
                assert(all[i] == head[i]);
            } else {
                assert(all[i] == tail[i - head.len()]);
            }
        }
    }
    assert(all.push(d) + none =~= b);
    assert(all + none =~= all);
    lemma_parted(head, d, tail);
    lemma_parted(all, d, none);
    assert(summary_html(all.push(d) + none, s) == summary_html(all + none, s));
    assert(summary_html(a, s) == summary_html(b, s));
    let (h, t) = parted(head, tail);
    let (g, u) = parted(all, none);
    assert(h + t == g + u);
    let (x, y) = (without_summary(a), without_summary(b));
    lemma_body_with(h, d, t, s);
    lemma_body_with(g, d, u, s);
    assert(body_html(x, s) == body_html(y, s));
    lemma_listed_with(h, d, t, Listing::Decisions);
    lemma_listed_with(g, d, u, Listing::Decisions);
    lists_depend_on_their_own_blocks(x, y, Listing::Decisions, s);
    lemma_listed_with(h, d, t, Listing::Actions);
    lemma_listed_with(g, d, u, Listing::Actions);
    lists_depend_on_their_own_blocks(x, y, Listing::Actions, s);
    lemma_listed_with(h, d, t, Listing::Open);
    lemma_listed_with(g, d, u, Listing::Open);
    lists_depend_on_their_own_blocks(x, y, Listing::Open, s);
    assert forall|i: int| 0 <= i < x.len() implies !is_anchored(#[trigger] x[i]) by {
        if i < h.len() {
            assert(x[i] == h[i]);
        } else if i > h.len() {
            assert(x[i] == t[i - h.len() - 1]);
        }
    }
    assert forall|i: int| 0 <= i < y.len() implies !is_anchored(#[trigger] y[i]) by {
        if i < g.len() {
            assert(y[i] == g[i]);
        } else if i > g.len() {
            assert(y[i] == u[i - g.len() - 1]);
        }
    }
    lemma_no_headings(x);
    lemma_no_headings(y);
    assert(toc_entries(a, s) == toc_entries(b, s));
    assert(main_html(a, s) == main_html(b, s));
}

/// Where a model writes a decision or an action item changes nothing that a reader sees: the
/// page is the same, letter for letter, whether it stands first, last or anywhere between,
/// among blocks of other kinds and without headings that the table of contents leads to.
/// Those have anchors that count the blocks before them.
pub proof fn a_decision_may_stand_anywhere(
    ctx: ContextView,
    head: Seq<BlockView>,
    d: BlockView,
    tail: Seq<BlockView>,
)
    requires
        is_listed_apart(d),
        may_pass_all(d, head + tail),
    ensures
        page(ctx, head + seq![d] + tail) == page(ctx, seq![d] + (head + tail)),
        page(ctx, head + seq![d] + tail) == page(ctx, head + tail + seq![d]),
{
    let none = Seq::<BlockView>::empty();
    let all = head + tail;
    assert forall|i: int| 0 <= i < head.len() implies may_pass(d, #[trigger] head[i]) by {
        assert(all[i] == head[i]);
    }
    assert forall|i: int| 0 <= i < tail.len() implies may_pass(d, #[trigger] tail[i]) by {
        assert(all[head.len() + i] == tail[i]);
    }
    lemma_moved_to_the_end(ctx, head, d, tail);
    lemma_moved_to_the_end(ctx, none, d, all);
    assert(head + seq![d] + tail =~= head.push(d) + tail);
    assert(seq![d] + all =~= none.push(d) + all);
    assert(none + all =~= all);
    assert(all + seq![d] =~= all.push(d));
}

} // verus!
