//! What holds of every page: text cannot become markup, and each block stands in the
//! part of the page that its kind and claim put it in.

use crate::document::{BlockView, ContentView};
use crate::render::{
    action_meta, block_html, body_html, cite_html, cite_label, cite_list, cites_html, content_html,
    decisions_section, display_names, entries_html, entry, entry_html, entry_if, escaped,
    escaped_char, framed, heading_entries, href, is_listed, is_numbered, is_safe_target, is_stale,
    listing_html, main_html, nav_html, numbered_count, page, rows_html, section, segment_html,
    segments_html, summary_at, summary_html, sums_up, toc_entries, transcript_html, without_summary,
    wrapped, ContextView, Listing, TocEntryView,
};
use crate::model::UNKNOWN_REMOTE;
use crate::store::{SourceRefView, StoredSegmentView, StoredSpeakerView};
use crate::text::{decimal, decimal_is_injective, digit_char, trimmed};
use vstd::prelude::*;

verus! {

/// The characters that open, close or delimit tags and attribute values.
pub open spec fn is_mark(c: char) -> bool {
    c == '<' || c == '>' || c == '"' || c == '\''
}

/// The marks in a text, in their order: the markup without what it holds.
pub open spec fn marks(s: Seq<char>) -> Seq<char>
    decreases s.len(),
{
    if s.len() == 0 {
        Seq::empty()
    } else if is_mark(s.last()) {
        marks(s.drop_last()).push(s.last())
    } else {
        marks(s.drop_last())
    }
}

broadcast proof fn lemma_marks_concat(a: Seq<char>, b: Seq<char>)
    ensures
        #[trigger] marks(a + b) == marks(a) + marks(b),
    decreases b.len(),
{
    if b.len() == 0 {
        assert(a + b =~= a);
        assert(marks(a) + marks(b) =~= marks(a));
    } else {
        lemma_marks_concat(a, b.drop_last());
        assert((a + b).drop_last() =~= a + b.drop_last());
        assert((a + b).last() == b.last());
        assert(marks(a + b) =~= marks(a) + marks(b));
    }
}

proof fn lemma_no_marks(s: Seq<char>)
    requires
        forall|i: int| 0 <= i < s.len() ==> !is_mark(#[trigger] s[i]),
    ensures
        marks(s) == Seq::<char>::empty(),
    decreases s.len(),
{
    if s.len() > 0 {
        let rest = s.drop_last();
        assert forall|i: int| 0 <= i < rest.len() implies !is_mark(#[trigger] rest[i]) by {
            assert(rest[i] == s[i]);
        }
        lemma_no_marks(rest);
        assert(!is_mark(s[s.len() - 1]));
    }
}

proof fn lemma_escaped_char(c: char, i: int)
    requires
        0 <= i < escaped_char(c).len(),
    ensures
        !is_mark(escaped_char(c)[i]),
{
    reveal_strlit("&amp;");
    reveal_strlit("&lt;");
    reveal_strlit("&gt;");
    reveal_strlit("&quot;");
    reveal_strlit("&#39;");
}

/// Escaped text holds no character that could open, close or delimit a tag or an
/// attribute value.
pub proof fn escaped_text_has_no_marks(s: Seq<char>, i: int)
    requires
        0 <= i < escaped(s).len(),
    ensures
        !is_mark(escaped(s)[i]),
    decreases s.len(),
{
    if s.len() > 0 {
        let before = escaped(s.drop_last());
        if i < before.len() {
            escaped_text_has_no_marks(s.drop_last(), i);
        } else {
            lemma_escaped_char(s.last(), i - before.len());
        }
    }
}

broadcast proof fn lemma_marks_escaped(s: Seq<char>)
    ensures
        #[trigger] marks(escaped(s)) == Seq::<char>::empty(),
{
    assert forall|i: int| 0 <= i < escaped(s).len() implies !is_mark(#[trigger] escaped(s)[i]) by {
        escaped_text_has_no_marks(s, i);
    }
    lemma_no_marks(escaped(s));
}

broadcast proof fn lemma_marks_decimal(n: nat)
    ensures
        #[trigger] marks(decimal(n)) == Seq::<char>::empty(),
    decreases n,
{
    if n < 10 {
        let s = decimal(n);
        assert(s =~= seq![digit_char(n as int)]);
        assert(!is_mark(digit_char(n as int)));
        lemma_no_marks(s);
    } else {
        lemma_marks_decimal(n / 10);
        assert(decimal(n).drop_last() =~= decimal(n / 10));
        assert(decimal(n).last() == digit_char((n % 10) as int));
    }
}

proof fn lemma_marks_of_fixed_texts()
    ensures
        marks("#blocked"@) == Seq::<char>::empty(),
        marks("（已修訂）"@) == Seq::<char>::empty(),
        marks("1"@) == Seq::<char>::empty(),
        marks("0"@) == Seq::<char>::empty(),
        marks(""@) == Seq::<char>::empty(),
        "#blocked"@.len() == 8,
{
    reveal_strlit("#blocked");
    reveal_strlit("（已修訂）");
    reveal_strlit("1");
    reveal_strlit("0");
    reveal_strlit("");
    lemma_no_marks("#blocked"@);
    lemma_no_marks("（已修訂）"@);
    lemma_no_marks("1"@);
    lemma_no_marks("0"@);
    lemma_no_marks(""@);
}

/// A link leads to the web, to a place in the page, or nowhere; and its target cannot
/// break out of the attribute.
pub proof fn links_are_safe(target: Seq<char>)
    ensures
        marks(href(target)) == Seq::<char>::empty(),
        href(target) == "#blocked"@ || is_safe_target(trimmed(target)),
{
    broadcast use lemma_marks_escaped;

    lemma_marks_of_fixed_texts();
}

// ---------------------------------------------------------------------------
// Text does not change the markup
// ---------------------------------------------------------------------------

/// Whether two contents have the same structure, whatever their texts say.
pub open spec fn same_structure(a: ContentView, b: ContentView) -> bool {
    match (a, b) {
        (ContentView::Heading { level: l, .. }, ContentView::Heading { level: m, .. }) => (l <= 2)
            == (m <= 2),
        (ContentView::Text { .. }, ContentView::Text { .. }) => true,
        (ContentView::Bullets { items: x }, ContentView::Bullets { items: y }) => x.len()
            == y.len(),
        (
            ContentView::Table { headers: x, rows: r },
            ContentView::Table { headers: y, rows: q },
        ) => x.len() == y.len() && same_row_sizes(r, q),
        (ContentView::Mermaid { .. }, ContentView::Mermaid { .. }) => true,
        (ContentView::Callout { tone: t, .. }, ContentView::Callout { tone: u, .. }) => (t
            == "summary"@) == (u == "summary"@),
        (
            ContentView::ActionItem { owner: o, due: d, .. },
            ContentView::ActionItem { owner: p, due: e, .. },
        ) => (o is Some) == (p is Some) && (d is Some) == (e is Some),
        (ContentView::Excerpt { .. }, ContentView::Excerpt { .. }) => true,
        (ContentView::Link { .. }, ContentView::Link { .. }) => true,
        _ => false,
    }
}

pub open spec fn same_row_sizes(r: Seq<Seq<Seq<char>>>, q: Seq<Seq<Seq<char>>>) -> bool {
    &&& r.len() == q.len()
    &&& forall|i: int| 0 <= i < r.len() ==> (#[trigger] r[i]).len() == (#[trigger] q[i]).len()
}

/// Whether two lists of citations are as long, and cite the transcript at the same
/// places of the list.
pub open spec fn same_cites(a: Seq<SourceRefView>, b: Seq<SourceRefView>) -> bool {
    &&& a.len() == b.len()
    &&& forall|i: int|
        0 <= i < a.len() ==> ((#[trigger] a[i]).source_kind == "transcript_segment"@) == (
        (#[trigger] b[i]).source_kind == "transcript_segment"@)
}

/// Whether two blocks are alike but for the texts in them.
pub open spec fn same_layout(a: BlockView, b: BlockView) -> bool {
    &&& a.kind == b.kind
    &&& a.claim_kind == b.claim_kind
    &&& same_structure(a.content, b.content)
    &&& same_cites(a.source_refs, b.source_refs)
}

/// Whether two lists of blocks are alike but for the texts in them.
pub open spec fn same_layouts(a: Seq<BlockView>, b: Seq<BlockView>) -> bool {
    &&& a.len() == b.len()
    &&& forall|i: int| 0 <= i < a.len() ==> same_layout(#[trigger] a[i], #[trigger] b[i])
}

proof fn lemma_wrapped(a: Seq<Seq<char>>, b: Seq<Seq<char>>, open: Seq<char>, close: Seq<char>)
    requires
        a.len() == b.len(),
    ensures
        marks(wrapped(a, open, close)) == marks(wrapped(b, open, close)),
    decreases a.len(),
{
    broadcast use {lemma_marks_concat, lemma_marks_escaped};

    if a.len() > 0 {
        lemma_wrapped(a.drop_last(), b.drop_last(), open, close);
    }
}

proof fn lemma_rows(a: Seq<Seq<Seq<char>>>, b: Seq<Seq<Seq<char>>>)
    requires
        same_row_sizes(a, b),
    ensures
        marks(rows_html(a)) == marks(rows_html(b)),
    decreases a.len(),
{
    broadcast use {lemma_marks_concat, lemma_marks_escaped};

    if a.len() > 0 {
        let (c, d) = (a.drop_last(), b.drop_last());
        assert forall|i: int| 0 <= i < c.len() implies (#[trigger] c[i]).len() == (
        #[trigger] d[i]).len() by {
            assert(a[i].len() == b[i].len());
        }
        lemma_rows(c, d);
        assert(a[a.len() - 1].len() == b[b.len() - 1].len());
        lemma_wrapped(a.last(), b.last(), "<td>"@, "</td>"@);
    }
}

proof fn lemma_cite(a: SourceRefView, b: SourceRefView, s: bool, t: bool)
    requires
        (a.source_kind == "transcript_segment"@) == (b.source_kind == "transcript_segment"@),
    ensures
        marks(cite_html(a, s)) == marks(cite_html(b, t)),
{
    broadcast use {lemma_marks_concat, lemma_marks_escaped, lemma_marks_decimal};

    lemma_marks_of_fixed_texts();
    assert(marks(cite_label(a, s)) == marks(cite_label(b, t)));
}

proof fn lemma_cites(
    a: Seq<SourceRefView>,
    b: Seq<SourceRefView>,
    s: Seq<StoredSegmentView>,
    t: Seq<StoredSegmentView>,
)
    requires
        same_cites(a, b),
    ensures
        marks(cites_html(a, s)) == marks(cites_html(b, t)),
        marks(cite_list(a, s)) == marks(cite_list(b, t)),
    decreases a.len(),
{
    broadcast use lemma_marks_concat;

    if a.len() > 0 {
        let (c, d) = (a.drop_last(), b.drop_last());
        assert forall|i: int| 0 <= i < c.len() implies ((#[trigger] c[i]).source_kind
            == "transcript_segment"@) == ((#[trigger] d[i]).source_kind
            == "transcript_segment"@) by {
            assert((a[i].source_kind == "transcript_segment"@) == (b[i].source_kind
                == "transcript_segment"@));
        }
        lemma_cites(c, d, s, t);
        let n = a.len() - 1;
        assert((a[n].source_kind == "transcript_segment"@) == (b[n].source_kind
            == "transcript_segment"@));
        lemma_cite(a.last(), b.last(), is_stale(s, a.last()), is_stale(t, b.last()));
    }
}

proof fn lemma_content(a: ContentView, b: ContentView, anchor: Option<nat>)
    requires
        same_structure(a, b),
    ensures
        marks(content_html(a, anchor)) == marks(content_html(b, anchor)),
{
    broadcast use {lemma_marks_concat, lemma_marks_escaped, lemma_marks_decimal};

    lemma_marks_of_fixed_texts();
    match (a, b) {
        (ContentView::Bullets { items: x }, ContentView::Bullets { items: y }) => {
            lemma_wrapped(x, y, "<li>"@, "</li>"@);
        },
        (
            ContentView::Table { headers: x, rows: r },
            ContentView::Table { headers: y, rows: q },
        ) => {
            lemma_wrapped(x, y, "<th>"@, "</th>"@);
            lemma_rows(r, q);
        },
        (
            ContentView::ActionItem { owner: o, due: d, .. },
            ContentView::ActionItem { owner: p, due: e, .. },
        ) => {
            assert(marks(action_meta(o, d)) == marks(action_meta(p, e)));
        },
        (ContentView::Link { target: t, .. }, ContentView::Link { target: u, .. }) => {
            links_are_safe(t);
            links_are_safe(u);
        },
        _ => {},
    }
}

proof fn lemma_block(
    a: BlockView,
    b: BlockView,
    anchor: Option<nat>,
    s: Seq<StoredSegmentView>,
    t: Seq<StoredSegmentView>,
)
    requires
        same_layout(a, b),
    ensures
        marks(block_html(a, anchor, s)) == marks(block_html(b, anchor, t)),
{
    broadcast use lemma_marks_concat;

    lemma_content(a.content, b.content, anchor);
    lemma_cites(a.source_refs, b.source_refs, s, t);
}

pub proof fn lemma_block_is_shown(b: BlockView, anchor: Option<nat>, s: Seq<StoredSegmentView>)
    ensures
        block_html(b, anchor, s).len() > 0,
{
    reveal_strlit("</div>");
}

proof fn lemma_same_layouts_drop_last(a: Seq<BlockView>, b: Seq<BlockView>)
    requires
        same_layouts(a, b),
        a.len() > 0,
    ensures
        same_layouts(a.drop_last(), b.drop_last()),
        same_layout(a.last(), b.last()),
{
    let (c, d) = (a.drop_last(), b.drop_last());
    assert forall|i: int| 0 <= i < c.len() implies same_layout(
        #[trigger] c[i],
        #[trigger] d[i],
    ) by {
        assert(same_layout(a[i], b[i]));
    }
    assert(same_layout(a[a.len() - 1], b[b.len() - 1]));
}

proof fn lemma_body(
    a: Seq<BlockView>,
    b: Seq<BlockView>,
    s: Seq<StoredSegmentView>,
    t: Seq<StoredSegmentView>,
)
    requires
        same_layouts(a, b),
    ensures
        marks(body_html(a, s)) == marks(body_html(b, t)),
        (body_html(a, s).len() > 0) == (body_html(b, t).len() > 0),
    decreases a.len(),
{
    broadcast use lemma_marks_concat;

    if a.len() > 0 {
        lemma_same_layouts_drop_last(a, b);
        lemma_body(a.drop_last(), b.drop_last(), s, t);
        let n = Some((a.len() - 1) as nat);
        lemma_block(a.last(), b.last(), n, s, t);
        lemma_block_is_shown(a.last(), n, s);
        lemma_block_is_shown(b.last(), n, t);
    }
}

proof fn lemma_listing(
    a: Seq<BlockView>,
    b: Seq<BlockView>,
    listing: Listing,
    s: Seq<StoredSegmentView>,
    t: Seq<StoredSegmentView>,
)
    requires
        same_layouts(a, b),
    ensures
        marks(listing_html(a, listing, s)) == marks(listing_html(b, listing, t)),
        (listing_html(a, listing, s).len() > 0) == (listing_html(b, listing, t).len() > 0),
    decreases a.len(),
{
    broadcast use lemma_marks_concat;

    if a.len() > 0 {
        lemma_same_layouts_drop_last(a, b);
        lemma_listing(a.drop_last(), b.drop_last(), listing, s, t);
        lemma_block(a.last(), b.last(), None, s, t);
        lemma_block_is_shown(a.last(), None, s);
        lemma_block_is_shown(b.last(), None, t);
    }
}

proof fn lemma_summary_place(a: Seq<BlockView>, b: Seq<BlockView>)
    requires
        same_layouts(a, b),
    ensures
        summary_at(a) == summary_at(b),
        0 <= summary_at(a) <= a.len(),
    decreases a.len(),
{
    if a.len() > 0 {
        assert(same_layout(a[0], b[0]));
        let (c, d) = (a.skip(1), b.skip(1));
        assert forall|i: int| 0 <= i < c.len() implies same_layout(
            #[trigger] c[i],
            #[trigger] d[i],
        ) by {
            assert(same_layout(a[i + 1], b[i + 1]));
        }
        lemma_summary_place(c, d);
    }
}

pub proof fn lemma_summary_found(a: Seq<BlockView>)
    ensures
        0 <= summary_at(a) <= a.len(),
        summary_at(a) < a.len() ==> sums_up(a[summary_at(a)]),
        forall|i: int| 0 <= i < summary_at(a) ==> !sums_up(#[trigger] a[i]),
    decreases a.len(),
{
    if a.len() > 0 && !sums_up(a[0]) {
        let rest = a.skip(1);
        lemma_summary_found(rest);
        assert forall|i: int| 0 <= i < summary_at(a) implies !sums_up(#[trigger] a[i]) by {
            if i > 0 {
                assert(a[i] == rest[i - 1]);
            }
        }
    }
}

proof fn lemma_summary(
    a: Seq<BlockView>,
    b: Seq<BlockView>,
    s: Seq<StoredSegmentView>,
    t: Seq<StoredSegmentView>,
)
    requires
        same_layouts(a, b),
    ensures
        marks(summary_html(a, s)) == marks(summary_html(b, t)),
        (summary_html(a, s).len() > 0) == (summary_html(b, t).len() > 0),
{
    broadcast use {lemma_marks_concat, lemma_marks_escaped};

    lemma_summary_place(a, b);
    lemma_summary_found(a);
    lemma_summary_found(b);
    let at = summary_at(a);
    reveal_strlit("</section>");
    if at < a.len() {
        assert(same_layout(a[at], b[at]));
        lemma_cites(a[at].source_refs, b[at].source_refs, s, t);
    }
}

proof fn lemma_rest(a: Seq<BlockView>, b: Seq<BlockView>)
    requires
        same_layouts(a, b),
    ensures
        same_layouts(without_summary(a), without_summary(b)),
{
    lemma_summary_place(a, b);
    let (c, d) = (without_summary(a), without_summary(b));
    let at = summary_at(a);
    assert forall|i: int| 0 <= i < c.len() implies same_layout(
        #[trigger] c[i],
        #[trigger] d[i],
    ) by {
        if at < a.len() && i >= at {
            assert(same_layout(a[i + 1], b[i + 1]));
        } else {
            assert(same_layout(a[i], b[i]));
        }
    }
}

/// Whether two tables of contents are alike but for the labels in them.
spec fn same_entries(a: Seq<TocEntryView>, b: Seq<TocEntryView>) -> bool {
    &&& a.len() == b.len()
    &&& forall|i: int|
        0 <= i < a.len() ==> (#[trigger] a[i]).sub == (#[trigger] b[i]).sub && marks(a[i].href)
            == marks(b[i].href)
}

proof fn lemma_headings(a: Seq<BlockView>, b: Seq<BlockView>)
    requires
        same_layouts(a, b),
    ensures
        same_entries(heading_entries(a), heading_entries(b)),
    decreases a.len(),
{
    if a.len() > 0 {
        lemma_same_layouts_drop_last(a, b);
        lemma_headings(a.drop_last(), b.drop_last());
    }
}

proof fn lemma_entries(a: Seq<TocEntryView>, b: Seq<TocEntryView>)
    requires
        same_entries(a, b),
    ensures
        marks(entries_html(a)) == marks(entries_html(b)),
    decreases a.len(),
{
    broadcast use {lemma_marks_concat, lemma_marks_escaped};

    if a.len() > 0 {
        let (c, d) = (a.drop_last(), b.drop_last());
        assert forall|i: int| 0 <= i < c.len() implies (#[trigger] c[i]).sub == (#[trigger] d[i]).sub
            && marks(c[i].href) == marks(d[i].href) by {
            assert(a[i].sub == b[i].sub && marks(a[i].href) == marks(b[i].href));
        }
        lemma_entries(c, d);
        let n = a.len() - 1;
        assert(a[n].sub == b[n].sub && marks(a[n].href) == marks(b[n].href));
        assert(marks(entry_html(a.last())) == marks(entry_html(b.last())));
    }
}

proof fn lemma_entries_concat(
    a: Seq<TocEntryView>,
    b: Seq<TocEntryView>,
    c: Seq<TocEntryView>,
    d: Seq<TocEntryView>,
)
    requires
        same_entries(a, b),
        same_entries(c, d),
    ensures
        same_entries(a + c, b + d),
{
    let (x, y) = (a + c, b + d);
    assert forall|i: int| 0 <= i < x.len() implies (#[trigger] x[i]).sub == (#[trigger] y[i]).sub
        && marks(x[i].href) == marks(y[i].href) by {
        if i < a.len() {
            assert(a[i].sub == b[i].sub);
        } else {
            assert(c[i - a.len()].sub == d[i - a.len()].sub);
        }
    }
}

proof fn lemma_toc(
    a: Seq<BlockView>,
    b: Seq<BlockView>,
    s: Seq<StoredSegmentView>,
    t: Seq<StoredSegmentView>,
)
    requires
        same_layouts(a, b),
        s.len() == t.len(),
    ensures
        same_entries(toc_entries(a, s), toc_entries(b, t)),
{
    let (c, d) = (without_summary(a), without_summary(b));
    lemma_rest(a, b);
    lemma_summary(a, b, s, t);
    lemma_body(c, d, s, t);
    lemma_listing(c, d, Listing::Decisions, s, t);
    lemma_listing(c, d, Listing::Actions, s, t);
    lemma_listing(c, d, Listing::Open, s, t);
    lemma_headings(c, d);
    let has_body = body_html(c, s).len() > 0;
    let e1 = entry_if(summary_html(a, s).len() > 0, "s-summary"@, "成果摘要"@);
    let h = seq![entry("s-body"@, "主文"@, false)];
    let p2 = if has_body {
        h + heading_entries(c)
    } else {
        Seq::empty()
    };
    let q2 = if has_body {
        h + heading_entries(d)
    } else {
        Seq::empty()
    };
    lemma_entries_concat(h, h, heading_entries(c), heading_entries(d));
    assert(same_entries(p2, q2));
    let e3 = entry_if(
        listing_html(c, Listing::Decisions, s).len() > 0 || listing_html(
            c,
            Listing::Actions,
            s,
        ).len() > 0,
        "s-decisions"@,
        "決議與行動項目"@,
    );
    let e4 = entry_if(listing_html(c, Listing::Open, s).len() > 0, "s-open"@, "缺口與建議"@);
    let e5 = entry_if(s.len() > 0, "s-transcript"@, "逐字稿"@);
    lemma_entries_concat(e1, e1, p2, q2);
    lemma_entries_concat(e1 + p2, e1 + q2, e3, e3);
    lemma_entries_concat(e1 + p2 + e3, e1 + q2 + e3, e4, e4);
    lemma_entries_concat(e1 + p2 + e3 + e4, e1 + q2 + e3 + e4, e5, e5);
}

proof fn lemma_segments(
    s: Seq<StoredSegmentView>,
    t: Seq<StoredSegmentView>,
    m: Seq<(Seq<char>, Seq<char>)>,
    n: Seq<(Seq<char>, Seq<char>)>,
)
    requires
        s.len() == t.len(),
    ensures
        marks(segments_html(s, m)) == marks(segments_html(t, n)),
        (segments_html(s, m).len() > 0) == (s.len() > 0),
        (segments_html(t, n).len() > 0) == (t.len() > 0),
    decreases s.len(),
{
    broadcast use {lemma_marks_concat, lemma_marks_escaped, lemma_marks_decimal};

    reveal_strlit("</p></div>");
    if s.len() > 0 {
        lemma_segments(s.drop_last(), t.drop_last(), m, n);
        assert(marks(segment_html(s.last(), m)) == marks(segment_html(t.last(), n)));
    }
}

proof fn lemma_framed(open: Seq<char>, a: Seq<char>, b: Seq<char>, close: Seq<char>)
    requires
        marks(a) == marks(b),
        (a.len() > 0) == (b.len() > 0),
    ensures
        marks(framed(open, a, close)) == marks(framed(open, b, close)),
{
    broadcast use lemma_marks_concat;

}

proof fn lemma_main(
    a: Seq<BlockView>,
    b: Seq<BlockView>,
    s: Seq<StoredSegmentView>,
    t: Seq<StoredSegmentView>,
)
    requires
        same_layouts(a, b),
    ensures
        marks(main_html(a, s)) == marks(main_html(b, t)),
{
    broadcast use lemma_marks_concat;

    let (c, d) = (without_summary(a), without_summary(b));
    lemma_rest(a, b);
    lemma_summary(a, b, s, t);
    lemma_body(c, d, s, t);
    lemma_listing(c, d, Listing::Decisions, s, t);
    lemma_listing(c, d, Listing::Actions, s, t);
    lemma_listing(c, d, Listing::Open, s, t);
    lemma_framed("<section id=\"s-body\">"@, body_html(c, s), body_html(d, t), "</section>"@);
    let (p, q) = (
        listing_html(c, Listing::Decisions, s),
        listing_html(d, Listing::Decisions, t),
    );
    let (x, y) = (listing_html(c, Listing::Actions, s), listing_html(d, Listing::Actions, t));
    lemma_framed("<h3>決議</h3>"@, p, q, ""@);
    lemma_framed("<h3>行動項目</h3>"@, x, y, ""@);
    assert(marks(decisions_section(p, x)) == marks(decisions_section(q, y)));
    lemma_framed(
        "<section id=\"s-open\" class=\"aside-claims\"><h2>缺口與建議</h2>"@,
        listing_html(c, Listing::Open, s),
        listing_html(d, Listing::Open, t),
        "</section>"@,
    );
}

/// Text never becomes markup. Two documents that are alike but for what their texts
/// say give pages with the same tags and attributes, mark for mark: whatever is
/// written into titles, names, quotes, cells, links, diagrams or transcripts.
pub proof fn text_never_becomes_markup(
    c1: ContextView,
    b1: Seq<BlockView>,
    c2: ContextView,
    b2: Seq<BlockView>,
)
    requires
        same_layouts(b1, b2),
        c1.transcript.len() == c2.transcript.len(),
    ensures
        marks(page(c1, b1)) == marks(page(c2, b2)),
{
    broadcast use {lemma_marks_concat, lemma_marks_escaped, lemma_marks_decimal};

    let (s, t) = (c1.transcript, c2.transcript);
    let (m, n) = (display_names(c1.speakers, s), display_names(c2.speakers, t));
    lemma_main(b1, b2, s, t);
    lemma_toc(b1, b2, s, t);
    let (e, f) = (toc_entries(b1, s), toc_entries(b2, t));
    lemma_entries(e, f);
    assert(marks(nav_html(e)) == marks(nav_html(f)));
    lemma_segments(s, t, m, n);
    lemma_framed(
        "<section id=\"s-transcript\" class=\"transcript\"><h2>逐字稿</h2>"@,
        segments_html(s, m),
        segments_html(t, n),
        "</section>"@,
    );
    assert(marks(transcript_html(s, m)) == marks(transcript_html(t, n)));
}

// ---------------------------------------------------------------------------
// Every block has its place
// ---------------------------------------------------------------------------

/// A block is shown in exactly one part of the page: the main part, the decisions, the
/// action items, or the gaps and suggestions. What is not said in the meeting never
/// stands in the main part, and decisions and action items always have their own.
pub proof fn every_block_has_one_place(b: BlockView)
    ensures
        section(b) is Body <==> !is_listed(b, Listing::Decisions) && !is_listed(
            b,
            Listing::Actions,
        ) && !is_listed(b, Listing::Open),
        !(is_listed(b, Listing::Decisions) && is_listed(b, Listing::Actions)),
        !(is_listed(b, Listing::Decisions) && is_listed(b, Listing::Open)),
        !(is_listed(b, Listing::Actions) && is_listed(b, Listing::Open)),
        b.kind is Decision <==> is_listed(b, Listing::Decisions),
        b.kind is ActionItem <==> is_listed(b, Listing::Actions),
        b.claim_kind is Gap || b.claim_kind is Suggestion ==> !(section(b) is Body),
{
}

proof fn lemma_listing_shown(
    rest: Seq<BlockView>,
    listing: Listing,
    s: Seq<StoredSegmentView>,
)
    ensures
        listing_html(rest, listing, s).len() > 0 <==> exists|i: int|
            0 <= i < rest.len() && is_listed(#[trigger] rest[i], listing),
    decreases rest.len(),
{
    if rest.len() > 0 {
        let before = rest.drop_last();
        lemma_listing_shown(before, listing, s);
        lemma_block_is_shown(rest.last(), None, s);
        if is_listed(rest.last(), listing) {
            assert(is_listed(rest[rest.len() - 1], listing));
        }
        if exists|i: int| 0 <= i < before.len() && is_listed(#[trigger] before[i], listing) {
            let i = choose|i: int| 0 <= i < before.len() && is_listed(#[trigger] before[i], listing);
            assert(is_listed(rest[i], listing));
        }
        if exists|i: int| 0 <= i < rest.len() && is_listed(#[trigger] rest[i], listing) {
            let i = choose|i: int| 0 <= i < rest.len() && is_listed(#[trigger] rest[i], listing);
            if i < before.len() {
                assert(is_listed(before[i], listing));
            }
        }
    }
}

proof fn lemma_body_shown(rest: Seq<BlockView>, s: Seq<StoredSegmentView>)
    ensures
        body_html(rest, s).len() > 0 <==> exists|i: int|
            0 <= i < rest.len() && section(#[trigger] rest[i]) is Body,
    decreases rest.len(),
{
    if rest.len() > 0 {
        let before = rest.drop_last();
        lemma_body_shown(before, s);
        lemma_block_is_shown(rest.last(), Some((rest.len() - 1) as nat), s);
        if section(rest.last()) is Body {
            assert(section(rest[rest.len() - 1]) is Body);
        }
        if exists|i: int| 0 <= i < before.len() && section(#[trigger] before[i]) is Body {
            let i = choose|i: int| 0 <= i < before.len() && section(#[trigger] before[i]) is Body;
            assert(section(rest[i]) is Body);
        }
        if exists|i: int| 0 <= i < rest.len() && section(#[trigger] rest[i]) is Body {
            let i = choose|i: int| 0 <= i < rest.len() && section(#[trigger] rest[i]) is Body;
            if i < before.len() {
                assert(section(before[i]) is Body);
            }
        }
    }
}

/// A part of the page is there exactly where it has something to show, and so is its
/// entry in the table of contents. The summary is never made up.
pub proof fn parts_appear_with_their_blocks(blocks: Seq<BlockView>, s: Seq<StoredSegmentView>)
    ensures
        ({
            let rest = without_summary(blocks);
            &&& summary_html(blocks, s).len() > 0 <==> exists|i: int|
                0 <= i < blocks.len() && sums_up(#[trigger] blocks[i])
            &&& body_html(rest, s).len() > 0 <==> exists|i: int|
                0 <= i < rest.len() && section(#[trigger] rest[i]) is Body
            &&& forall|listing: Listing|
                #![trigger listing_html(rest, listing, s)]
                listing_html(rest, listing, s).len() > 0 <==> exists|i: int|
                    0 <= i < rest.len() && is_listed(#[trigger] rest[i], listing)
        }),
{
    let rest = without_summary(blocks);
    lemma_body_shown(rest, s);
    assert forall|listing: Listing| #![trigger listing_html(rest, listing, s)] listing_html(
        rest,
        listing,
        s,
    ).len() > 0 <==> exists|i: int|
        0 <= i < rest.len() && is_listed(#[trigger] rest[i], listing) by {
        lemma_listing_shown(rest, listing, s);
    }
    lemma_summary_found(blocks);
    reveal_strlit("</section>");
    reveal_strlit("");
    let at = summary_at(blocks);
    if at < blocks.len() {
        assert(sums_up(blocks[at]));
    }
}

/// The page shows every block: those that are not the summary that leads it are the
/// blocks without it, in their order.
pub proof fn only_the_summary_moves(blocks: Seq<BlockView>)
    ensures
        ({
            let at = summary_at(blocks);
            let rest = without_summary(blocks);
            &&& at == blocks.len() ==> rest == blocks
            &&& at < blocks.len() ==> sums_up(blocks[at]) && rest.len() == blocks.len() - 1
                && rest.insert(at, blocks[at]) == blocks
        }),
{
    lemma_summary_found(blocks);
    let at = summary_at(blocks);
    if at < blocks.len() {
        assert(without_summary(blocks).insert(at, blocks[at]) =~= blocks);
    }
}

/// Remote speech of unknown voices is shown as such, whatever name was stored for it,
/// and takes up no number.
pub proof fn unknown_voices_have_no_name_and_no_number(
    speakers: Seq<StoredSpeakerView>,
    transcript: Seq<StoredSegmentView>,
    k: int,
)
    requires
        0 <= k < speakers.len(),
        speakers[k].speaker_id == UNKNOWN_REMOTE@,
    ensures
        display_names(speakers, transcript)[k] == (UNKNOWN_REMOTE@, "遠端"@),
        numbered_count(transcript, speakers.take(k + 1)) == numbered_count(
            transcript,
            speakers.take(k),
        ),
{
    assert(speakers.take(k + 1).drop_last() =~= speakers.take(k));
}

proof fn lemma_count_grows(
    speakers: Seq<StoredSpeakerView>,
    transcript: Seq<StoredSegmentView>,
    j: int,
    k: int,
)
    requires
        0 <= j <= k <= speakers.len(),
    ensures
        numbered_count(transcript, speakers.take(j)) <= numbered_count(transcript, speakers.take(k)),
    decreases k - j,
{
    if j < k {
        lemma_count_grows(speakers, transcript, j, k - 1);
        assert(speakers.take(k).drop_last() =~= speakers.take(k - 1));
    }
}

/// Two remote speakers who are told apart, and have no name yet, are called
/// differently.
pub proof fn unnamed_speakers_are_told_apart(
    speakers: Seq<StoredSpeakerView>,
    transcript: Seq<StoredSegmentView>,
    j: int,
    k: int,
)
    requires
        0 <= j < k < speakers.len(),
        forall|i: int|
            i == j || i == k ==> is_numbered(transcript, #[trigger] speakers[i])
                && speakers[i].confirmed_name is None && speakers[i].proposed_name is None,
    ensures
        display_names(speakers, transcript)[j].1 != display_names(speakers, transcript)[k].1,
{
    let (a, b) = (speakers.take(j + 1), speakers.take(k + 1));
    assert(is_numbered(transcript, speakers[j]) && is_numbered(transcript, speakers[k]));
    assert(b.drop_last() =~= speakers.take(k));
    lemma_count_grows(speakers, transcript, j + 1, k);
    let (m, n) = (numbered_count(transcript, a), numbered_count(transcript, b));
    assert(m < n);
    let (x, y) = ("語者 "@ + decimal(m), "語者 "@ + decimal(n));
    if x == y {
        let p = "語者 "@.len() as int;
        assert(x.skip(p) =~= decimal(m));
        assert(y.skip(p) =~= decimal(n));
        decimal_is_injective(m, n);
    }
}

/// The blocks of a list.
pub open spec fn listed(rest: Seq<BlockView>, listing: Listing) -> Seq<BlockView>
    decreases rest.len(),
{
    if rest.len() == 0 {
        Seq::empty()
    } else {
        let before = listed(rest.drop_last(), listing);
        if is_listed(rest.last(), listing) {
            before.push(rest.last())
        } else {
            before
        }
    }
}

/// The blocks of the main part.
pub open spec fn in_body(rest: Seq<BlockView>) -> Seq<BlockView>
    decreases rest.len(),
{
    if rest.len() == 0 {
        Seq::empty()
    } else {
        let before = in_body(rest.drop_last());
        if section(rest.last()) is Body {
            before.push(rest.last())
        } else {
            before
        }
    }
}

proof fn lemma_listing_of_listed(
    rest: Seq<BlockView>,
    listing: Listing,
    transcript: Seq<StoredSegmentView>,
)
    ensures
        listing_html(rest, listing, transcript) == listing_html(
            listed(rest, listing),
            listing,
            transcript,
        ),
    decreases rest.len(),
{
    if rest.len() > 0 {
        let before = listed(rest.drop_last(), listing);
        lemma_listing_of_listed(rest.drop_last(), listing, transcript);
        if is_listed(rest.last(), listing) {
            let now = before.push(rest.last());
            assert(now.drop_last() =~= before);
            assert(now.last() == rest.last());
        }
    }
}

/// What a list shows depends on its own blocks and their order, and not on where they stand
/// among the others: whether a model writes a decision first or last changes nothing.
pub proof fn lists_depend_on_their_own_blocks(
    a: Seq<BlockView>,
    b: Seq<BlockView>,
    listing: Listing,
    transcript: Seq<StoredSegmentView>,
)
    requires
        listed(a, listing) == listed(b, listing),
    ensures
        listing_html(a, listing, transcript) == listing_html(b, listing, transcript),
{
    lemma_listing_of_listed(a, listing, transcript);
    lemma_listing_of_listed(b, listing, transcript);
}

proof fn lemma_body_skips_others(
    rest: Seq<BlockView>,
    b: BlockView,
    transcript: Seq<StoredSegmentView>,
)
    requires
        !(section(b) is Body),
    ensures
        body_html(rest.push(b), transcript) == body_html(rest, transcript),
        in_body(rest.push(b)) == in_body(rest),
{
    assert(rest.push(b).drop_last() =~= rest);
}

/// The blocks of the main part that follow the first `from` blocks bring their own markup, with
/// anchors that count all blocks.
pub open spec fn body_from(
    rest: Seq<BlockView>,
    from: nat,
    transcript: Seq<StoredSegmentView>,
) -> Seq<char>
    decreases rest.len(),
{
    if rest.len() == 0 {
        Seq::empty()
    } else {
        let before = body_from(rest.drop_last(), from, transcript);
        if section(rest.last()) is Body {
            before + block_html(rest.last(), Some((from + rest.len() - 1) as nat), transcript)
        } else {
            before
        }
    }
}

/// A decision, a gap or a suggestion changes nothing in the main part before it, and after it
/// nothing but the count that the anchors go by.
pub proof fn the_body_passes_over_other_blocks(
    head: Seq<BlockView>,
    b: BlockView,
    tail: Seq<BlockView>,
    transcript: Seq<StoredSegmentView>,
)
    requires
        !(section(b) is Body),
    ensures
        body_html(head.push(b) + tail, transcript) == body_html(head, transcript) + body_from(
            tail,
            head.len() + 1,
            transcript,
        ),
        in_body(head.push(b) + tail) == in_body(head + tail),
    decreases tail.len(),
{
    if tail.len() == 0 {
        lemma_body_skips_others(head, b, transcript);
        assert(head.push(b) + tail =~= head.push(b));
        assert(head + tail =~= head);
        assert(body_html(head, transcript) + body_from(tail, head.len() + 1, transcript)
            =~= body_html(head, transcript));
    } else {
        the_body_passes_over_other_blocks(head, b, tail.drop_last(), transcript);
        let whole = head.push(b) + tail;
        assert(whole.drop_last() =~= head.push(b) + tail.drop_last());
        assert((head + tail).drop_last() =~= head + tail.drop_last());
        assert(whole.last() == tail.last());
        assert((head + tail).last() == tail.last());
        assert(body_html(whole, transcript) =~= body_html(head, transcript) + body_from(
            tail,
            head.len() + 1,
            transcript,
        ));
    }
}

} // verus!
