//! What a page shows: every block, with every text of it in its place and order, and the
//! transcript that goes with it.

use crate::document::{BlockView, ContentView};
use crate::model::{Track, UNKNOWN_REMOTE};
use crate::parts::{
    lemma_flat_last, lemma_flat_part, lemma_stands, lemma_stands_before, lemma_stands_in_itself,
    lemma_stands_last, lemma_stands_within, stand_in_a_row, stands_in,
};
use crate::render::{
    block_html, body_html, cite_html, cite_list, cites_html, clock_text, content_html,
    decisions_section, display_names, entries_html, escaped, framed, heading_entries, heading_rank,
    href, is_listed, is_safe_target, is_stale, listing_html, main_html, name_in, nav_html,
    numbered_count, page, rows_html, section, segment_html, segments_html, speaker_label,
    summary_html, sums_up, track_of, transcript_html, without_summary, wrapped, ContextView,
    Listing, TocEntryView,
};
use crate::store::{SourceRefView, StoredSegmentView, StoredSpeakerView};
use crate::text::{ascii_lower, begins_with, decimal, trimmed};
use vstd::prelude::*;

verus! {

// ---------------------------------------------------------------------------
// Lists and tables
// ---------------------------------------------------------------------------

proof fn lemma_wrapped(items: Seq<Seq<char>>, open: Seq<char>, close: Seq<char>)
    ensures
        wrapped(items, open, close) == Seq::new(
            items.len(),
            |i: int| open + escaped(items[i]) + close,
        ).flatten(),
    decreases items.len(),
{
    let parts = Seq::new(items.len(), |i: int| open + escaped(items[i]) + close);
    if items.len() > 0 {
        let rest = items.drop_last();
        lemma_wrapped(rest, open, close);
        let front = Seq::new(rest.len(), |i: int| open + escaped(rest[i]) + close);
        assert(parts.drop_last() =~= front);
        lemma_flat_last(parts);
        assert(wrapped(items, open, close) =~= wrapped(rest, open, close) + parts.last());
    }
}

proof fn lemma_rows(rows: Seq<Seq<Seq<char>>>)
    ensures
        rows_html(rows) == Seq::new(
            rows.len(),
            |r: int|
                "<tr>"@ + Seq::new(
                    rows[r].len(),
                    |c: int| "<td>"@ + escaped(rows[r][c]) + "</td>"@,
                ).flatten() + "</tr>"@,
        ).flatten(),
    decreases rows.len(),
{
    let parts = Seq::new(
        rows.len(),
        |r: int|
            "<tr>"@ + Seq::new(
                rows[r].len(),
                |c: int| "<td>"@ + escaped(rows[r][c]) + "</td>"@,
            ).flatten() + "</tr>"@,
    );
    if rows.len() > 0 {
        let rest = rows.drop_last();
        lemma_rows(rest);
        let front = Seq::new(
            rest.len(),
            |r: int|
                "<tr>"@ + Seq::new(
                    rest[r].len(),
                    |c: int| "<td>"@ + escaped(rest[r][c]) + "</td>"@,
                ).flatten() + "</tr>"@,
        );
        assert forall|r: int| 0 <= r < front.len() implies parts.drop_last()[r] == front[r] by {
            assert(rest[r] == rows[r]);
        }
        assert(parts.drop_last() =~= front);
        lemma_flat_last(parts);
        let last = rows.last();
        lemma_wrapped(last, "<td>"@, "</td>"@);
        assert(rows[rows.len() - 1] == last);
        assert(rows_html(rows) =~= rows_html(rest) + parts.last());
    }
}

/// A list has one entry for each of its items, each with the text of its own item, in their
/// order.
pub proof fn lists_show_each_item_once(items: Seq<Seq<char>>, anchor: Option<nat>)
    ensures
        content_html(ContentView::Bullets { items }, anchor) == "<ul>"@ + Seq::new(
            items.len(),
            |i: int| "<li>"@ + escaped(items[i]) + "</li>"@,
        ).flatten() + "</ul>"@,
{
    lemma_wrapped(items, "<li>"@, "</li>"@);
}

/// A table has a head with one cell for each header, and one row for each of its rows with one
/// cell for each of its cells, each with its own text, in their order.
pub proof fn tables_show_each_cell_once(
    headers: Seq<Seq<char>>,
    rows: Seq<Seq<Seq<char>>>,
    anchor: Option<nat>,
)
    ensures
        content_html(ContentView::Table { headers, rows }, anchor) == "<table><thead><tr>"@
            + Seq::new(headers.len(), |i: int| "<th>"@ + escaped(headers[i]) + "</th>"@).flatten()
            + "</tr></thead><tbody>"@ + Seq::new(
            rows.len(),
            |r: int|
                "<tr>"@ + Seq::new(
                    rows[r].len(),
                    |c: int| "<td>"@ + escaped(rows[r][c]) + "</td>"@,
                ).flatten() + "</tr>"@,
        ).flatten() + "</tbody></table>"@,
{
    lemma_wrapped(headers, "<th>"@, "</th>"@);
    lemma_rows(rows);
}

proof fn lemma_list_item(items: Seq<Seq<char>>, open: Seq<char>, close: Seq<char>, i: int)
    requires
        0 <= i < items.len(),
    ensures
        stands_in(open + escaped(items[i]) + close, wrapped(items, open, close)),
{
    lemma_wrapped(items, open, close);
    let parts = Seq::new(items.len(), |i: int| open + escaped(items[i]) + close);
    lemma_flat_part(parts, i);
}

/// The item at `i` of a list is what the reader finds at the `i`-th entry: there are `i` entries
/// before it, and it is followed by the others.
pub proof fn the_entry_at_a_place_is_its_item(items: Seq<Seq<char>>, anchor: Option<nat>, i: int)
    requires
        0 <= i < items.len(),
    ensures
        content_html(ContentView::Bullets { items }, anchor) == "<ul>"@ + wrapped(
            items.take(i),
            "<li>"@,
            "</li>"@,
        ) + ("<li>"@ + escaped(items[i]) + "</li>"@) + wrapped(
            items.skip(i + 1),
            "<li>"@,
            "</li>"@,
        ) + "</ul>"@,
{
    let (o, c) = ("<li>"@, "</li>"@);
    lemma_wrapped(items, o, c);
    lemma_wrapped(items.take(i), o, c);
    lemma_wrapped(items.skip(i + 1), o, c);
    let parts = Seq::new(items.len(), |i: int| o + escaped(items[i]) + c);
    lemma_flat_part(parts, i);
    let (a, b) = (items.take(i), items.skip(i + 1));
    assert(parts.take(i) =~= Seq::new(a.len(), |i: int| o + escaped(a[i]) + c));
    assert(parts.skip(i + 1) =~= Seq::new(b.len(), |i: int| o + escaped(b[i]) + c));
    assert(content_html(ContentView::Bullets { items }, anchor) =~= "<ul>"@ + wrapped(a, o, c) + (o
        + escaped(items[i]) + c) + wrapped(b, o, c) + "</ul>"@);
}

// ---------------------------------------------------------------------------
// Blocks
// ---------------------------------------------------------------------------

/// Every text of a block is shown: headings, paragraphs, each item and each cell, diagrams,
/// what a callout says, what is to be done, by whom and by when, who said what, and the label of
/// a link, which leads to its target where that is safe.
pub proof fn every_text_of_a_block_is_shown(content: ContentView, anchor: Option<nat>)
    ensures
        ({
            let h = content_html(content, anchor);
            match content {
                ContentView::Heading { text, .. } => stands_in(">"@ + escaped(text) + "</h"@, h),
                ContentView::Text { text } => h == "<p>"@ + escaped(text) + "</p>"@,
                ContentView::Bullets { items } => forall|i: int|
                    0 <= i < items.len() ==> stands_in(
                        "<li>"@ + escaped(#[trigger] items[i]) + "</li>"@,
                        h,
                    ),
                ContentView::Table { headers, rows } => {
                    &&& forall|i: int|
                        0 <= i < headers.len() ==> stands_in(
                            "<th>"@ + escaped(#[trigger] headers[i]) + "</th>"@,
                            h,
                        )
                    &&& forall|r: int, c: int|
                        0 <= r < rows.len() && 0 <= c < rows[r].len() ==> stands_in(
                            "<td>"@ + escaped(#[trigger] rows[r][c]) + "</td>"@,
                            h,
                        )
                },
                ContentView::Mermaid { source } => h == "<pre class=\"mermaid\">"@ + escaped(source)
                    + "</pre>"@,
                ContentView::Callout { tone, title, body } => {
                    &&& stands_in("data-tone=\""@ + escaped(tone) + "\">"@, h)
                    &&& stands_in("<b>"@ + escaped(title) + "</b>"@, h)
                    &&& stands_in("<p>"@ + escaped(body) + "</p>"@, h)
                },
                ContentView::ActionItem { text, owner, due } => {
                    &&& stands_in("<p class=\"action\">"@ + escaped(text), h)
                    &&& owner matches Some(o) ==> stands_in(
                        "<span class=\"owner\">"@ + escaped(o) + "</span>"@,
                        h,
                    )
                    &&& due matches Some(d) ==> stands_in(
                        "<span class=\"due\">"@ + escaped(d) + "</span>"@,
                        h,
                    )
                },
                ContentView::Excerpt { speaker, text, meeting_time_ms } => {
                    &&& stands_in(
                        "<span class=\"t-time\">"@ + escaped(clock_text(meeting_time_ms as nat))
                            + "</span>"@,
                        h,
                    )
                    &&& stands_in("<b>"@ + escaped(speaker) + "</b>"@, h)
                    &&& stands_in("<p>"@ + escaped(text) + "</p>"@, h)
                },
                ContentView::Link { label, target } => {
                    &&& stands_in("\">"@ + escaped(label) + "</a>"@, h)
                    &&& is_safe_target(trimmed(target)) ==> stands_in(
                        "<a href=\""@ + escaped(trimmed(target)) + "\""@,
                        h,
                    )
                    &&& !is_safe_target(trimmed(target)) ==> stands_in(
                        "<a href=\"#blocked\""@,
                        h,
                    )
                },
            }
        }),
{
    broadcast use {lemma_stands_before, lemma_stands_last};

    let h = content_html(content, anchor);
    match content {
        ContentView::Heading { level, text } => {
            lemma_heading_shown(level, text, anchor);
        },
        ContentView::Text { text } => {},
        ContentView::Bullets { items } => {
            assert forall|i: int| 0 <= i < items.len() implies stands_in(
                "<li>"@ + escaped(#[trigger] items[i]) + "</li>"@,
                h,
            ) by {
                lemma_list_item(items, "<li>"@, "</li>"@, i);
                let w = wrapped(items, "<li>"@, "</li>"@);
                assert(stands_in(w, "<ul>"@ + w));
                lemma_stands_within("<li>"@ + escaped(items[i]) + "</li>"@, w, "<ul>"@ + w);
            }
        },
        ContentView::Table { headers, rows } => {
            lemma_table_shown(headers, rows, anchor);
        },
        ContentView::Mermaid { source } => {},
        ContentView::Callout { tone, title, body } => {
            lemma_callout_shown(tone, title, body, anchor);
        },
        ContentView::ActionItem { text, owner, due } => {
            lemma_action_shown(text, owner, due, anchor);
        },
        ContentView::Excerpt { speaker, text, meeting_time_ms } => {
            lemma_excerpt_shown(speaker, text, meeting_time_ms, anchor);
        },
        ContentView::Link { label, target } => {
            lemma_link_shown(label, target, anchor);
        },
    }
}

proof fn lemma_heading_shown(level: u8, text: Seq<char>, anchor: Option<nat>)
    ensures
        stands_in(
            ">"@ + escaped(text) + "</h"@,
            content_html(ContentView::Heading { level, text }, anchor),
        ),
{
    let rank = decimal(heading_rank(level));
    let a = "<h"@ + rank + crate::render::heading_anchor(level, anchor);
    let part = ">"@ + escaped(text) + "</h"@;
    let b = rank + ">"@;
    assert(content_html(ContentView::Heading { level, text }, anchor) =~= a + part + b);
    lemma_stands(a, part, b);
}

/// A heading is shown one step below its level, as the title of the page is the first.
pub proof fn headings_keep_their_level(level: u8, text: Seq<char>, anchor: Option<nat>)
    requires
        1 <= level <= 4,
    ensures
        ({
            let h = content_html(ContentView::Heading { level, text }, anchor);
            let open = "<h"@ + decimal((level + 1) as nat);
            let close = "</h"@ + decimal((level + 1) as nat) + ">"@;
            &&& open.len() + close.len() <= h.len()
            &&& h.subrange(0, open.len() as int) == open
            &&& h.subrange(h.len() - close.len(), h.len() as int) == close
        }),
{
    let rank = decimal(heading_rank(level));
    let h = content_html(ContentView::Heading { level, text }, anchor);
    let open = "<h"@ + rank;
    let close = "</h"@ + rank + ">"@;
    let mid = crate::render::heading_anchor(level, anchor) + ">"@ + escaped(text);
    assert(h =~= open + mid + close);
    assert(h.subrange(0, open.len() as int) =~= open);
    assert(h.subrange(h.len() - close.len(), h.len() as int) =~= close);
}

proof fn lemma_table_shown(
    headers: Seq<Seq<char>>,
    rows: Seq<Seq<Seq<char>>>,
    anchor: Option<nat>,
)
    ensures
        ({
            let h = content_html(ContentView::Table { headers, rows }, anchor);
            &&& forall|i: int|
                0 <= i < headers.len() ==> stands_in(
                    "<th>"@ + escaped(#[trigger] headers[i]) + "</th>"@,
                    h,
                )
            &&& forall|r: int, c: int|
                0 <= r < rows.len() && 0 <= c < rows[r].len() ==> stands_in(
                    "<td>"@ + escaped(#[trigger] rows[r][c]) + "</td>"@,
                    h,
                )
        }),
{
    let h = content_html(ContentView::Table { headers, rows }, anchor);
    let w = wrapped(headers, "<th>"@, "</th>"@);
    let b = rows_html(rows);
    let (o, m, e) = ("<table><thead><tr>"@, "</tr></thead><tbody>"@, "</tbody></table>"@);
    assert(h =~= o + w + (m + b + e));
    lemma_stands(o, w, m + b + e);
    assert(h =~= (o + w + m) + b + e);
    lemma_stands(o + w + m, b, e);
    assert forall|i: int| 0 <= i < headers.len() implies stands_in(
        "<th>"@ + escaped(#[trigger] headers[i]) + "</th>"@,
        h,
    ) by {
        lemma_list_item(headers, "<th>"@, "</th>"@, i);
        lemma_stands_within("<th>"@ + escaped(headers[i]) + "</th>"@, w, h);
    }
    lemma_rows(rows);
    let parts = Seq::new(
        rows.len(),
        |r: int|
            "<tr>"@ + Seq::new(
                rows[r].len(),
                |c: int| "<td>"@ + escaped(rows[r][c]) + "</td>"@,
            ).flatten() + "</tr>"@,
    );
    assert forall|r: int, c: int| 0 <= r < rows.len() && 0 <= c < rows[r].len() implies stands_in(
        "<td>"@ + escaped(#[trigger] rows[r][c]) + "</td>"@,
        h,
    ) by {
        let cell = "<td>"@ + escaped(rows[r][c]) + "</td>"@;
        lemma_flat_part(parts, r);
        let cells = Seq::new(rows[r].len(), |c: int| "<td>"@ + escaped(rows[r][c]) + "</td>"@);
        lemma_flat_part(cells, c);
        assert(cells[c] == cell);
        lemma_stands("<tr>"@, cells.flatten(), "</tr>"@);
        assert(parts[r] == "<tr>"@ + cells.flatten() + "</tr>"@);
        lemma_stands_within(cell, cells.flatten(), parts[r]);
        lemma_stands_within(cell, parts[r], b);
        lemma_stands_within(cell, b, h);
    }
}

proof fn lemma_callout_shown(
    tone: Seq<char>,
    title: Seq<char>,
    body: Seq<char>,
    anchor: Option<nat>,
)
    ensures
        ({
            let h = content_html(ContentView::Callout { tone, title, body }, anchor);
            &&& stands_in("data-tone=\""@ + escaped(tone) + "\">"@, h)
            &&& stands_in("<b>"@ + escaped(title) + "</b>"@, h)
            &&& stands_in("<p>"@ + escaped(body) + "</p>"@, h)
        }),
{
    let h = content_html(ContentView::Callout { tone, title, body }, anchor);
    let (t, u, b) = (escaped(tone), escaped(title), escaped(body));
    reveal_strlit("<aside class=\"callout\" data-tone=\"");
    reveal_strlit("<aside class=\"callout\" ");
    reveal_strlit("data-tone=\"");
    reveal_strlit("\"><b>");
    reveal_strlit("\">");
    reveal_strlit("<b>");
    reveal_strlit("</b><p>");
    reveal_strlit("</b>");
    reveal_strlit("<p>");
    reveal_strlit("</p></aside>");
    reveal_strlit("</p>");
    reveal_strlit("</aside>");
    assert("<aside class=\"callout\" data-tone=\""@ =~= "<aside class=\"callout\" "@
        + "data-tone=\""@);
    assert("\"><b>"@ =~= "\">"@ + "<b>"@);
    assert("</b><p>"@ =~= "</b>"@ + "<p>"@);
    assert("</p></aside>"@ =~= "</p>"@ + "</aside>"@);
    let p1 = "data-tone=\""@ + t + "\">"@;
    let p2 = "<b>"@ + u + "</b>"@;
    let p3 = "<p>"@ + b + "</p>"@;
    let a = "<aside class=\"callout\" "@;
    assert(h =~= a + p1 + (p2 + p3 + "</aside>"@));
    lemma_stands(a, p1, p2 + p3 + "</aside>"@);
    assert(h =~= (a + p1) + p2 + (p3 + "</aside>"@));
    lemma_stands(a + p1, p2, p3 + "</aside>"@);
    assert(h =~= (a + p1 + p2) + p3 + "</aside>"@);
    lemma_stands(a + p1 + p2, p3, "</aside>"@);
}

proof fn lemma_action_shown(
    text: Seq<char>,
    owner: Option<Seq<char>>,
    due: Option<Seq<char>>,
    anchor: Option<nat>,
)
    ensures
        ({
            let h = content_html(ContentView::ActionItem { text, owner, due }, anchor);
            &&& stands_in("<p class=\"action\">"@ + escaped(text), h)
            &&& owner matches Some(o) ==> stands_in(
                "<span class=\"owner\">"@ + escaped(o) + "</span>"@,
                h,
            )
            &&& due matches Some(d) ==> stands_in(
                "<span class=\"due\">"@ + escaped(d) + "</span>"@,
                h,
            )
        }),
{
    broadcast use {lemma_stands_before, lemma_stands_last};

    let h = content_html(ContentView::ActionItem { text, owner, due }, anchor);
    let first = "<p class=\"action\">"@ + escaped(text);
    lemma_stands_in_itself(first);
    let meta = crate::render::action_meta(owner, due);
    assert(stands_in(meta, first + meta));
    if let Some(o) = owner {
        let part = "<span class=\"owner\">"@ + escaped(o) + "</span>"@;
        assert(stands_in(part, meta));
        lemma_stands_within(part, meta, h);
    }
    if let Some(d) = due {
        let part = "<span class=\"due\">"@ + escaped(d) + "</span>"@;
        assert(stands_in(part, meta));
        lemma_stands_within(part, meta, h);
    }
}

proof fn lemma_excerpt_shown(
    speaker: Seq<char>,
    text: Seq<char>,
    meeting_time_ms: u64,
    anchor: Option<nat>,
)
    ensures
        ({
            let h = content_html(ContentView::Excerpt { speaker, text, meeting_time_ms }, anchor);
            &&& stands_in(
                "<span class=\"t-time\">"@ + escaped(clock_text(meeting_time_ms as nat))
                    + "</span>"@,
                h,
            )
            &&& stands_in("<b>"@ + escaped(speaker) + "</b>"@, h)
            &&& stands_in("<p>"@ + escaped(text) + "</p>"@, h)
        }),
{
    let h = content_html(ContentView::Excerpt { speaker, text, meeting_time_ms }, anchor);
    let (t, u, b) = (escaped(clock_text(meeting_time_ms as nat)), escaped(speaker), escaped(text));
    reveal_strlit("<blockquote><span class=\"t-time\">");
    reveal_strlit("<blockquote>");
    reveal_strlit("<span class=\"t-time\">");
    reveal_strlit("</span><b>");
    reveal_strlit("</span>");
    reveal_strlit("<b>");
    reveal_strlit("</b><p>");
    reveal_strlit("</b>");
    reveal_strlit("<p>");
    reveal_strlit("</p></blockquote>");
    reveal_strlit("</p>");
    reveal_strlit("</blockquote>");
    assert("<blockquote><span class=\"t-time\">"@ =~= "<blockquote>"@ + "<span class=\"t-time\">"@);
    assert("</span><b>"@ =~= "</span>"@ + "<b>"@);
    assert("</b><p>"@ =~= "</b>"@ + "<p>"@);
    assert("</p></blockquote>"@ =~= "</p>"@ + "</blockquote>"@);
    let p1 = "<span class=\"t-time\">"@ + t + "</span>"@;
    let p2 = "<b>"@ + u + "</b>"@;
    let p3 = "<p>"@ + b + "</p>"@;
    let (a, z) = ("<blockquote>"@, "</blockquote>"@);
    assert(h =~= a + p1 + (p2 + p3 + z));
    lemma_stands(a, p1, p2 + p3 + z);
    assert(h =~= (a + p1) + p2 + (p3 + z));
    lemma_stands(a + p1, p2, p3 + z);
    assert(h =~= (a + p1 + p2) + p3 + z);
    lemma_stands(a + p1 + p2, p3, z);
}

proof fn lemma_link_shown(label: Seq<char>, target: Seq<char>, anchor: Option<nat>)
    ensures
        ({
            let h = content_html(ContentView::Link { label, target }, anchor);
            &&& stands_in("\">"@ + escaped(label) + "</a>"@, h)
            &&& is_safe_target(trimmed(target)) ==> stands_in(
                "<a href=\""@ + escaped(trimmed(target)) + "\""@,
                h,
            )
            &&& !is_safe_target(trimmed(target)) ==> stands_in("<a href=\"#blocked\""@, h)
        }),
{
    let h = content_html(ContentView::Link { label, target }, anchor);
    let (r, l) = (href(target), escaped(label));
    reveal_strlit("\" rel=\"noopener noreferrer\">");
    reveal_strlit("\"");
    reveal_strlit(" rel=\"noopener noreferrer");
    reveal_strlit("\">");
    reveal_strlit("<a href=\"");
    reveal_strlit("#blocked");
    reveal_strlit("<a href=\"#blocked\"");
    assert("\" rel=\"noopener noreferrer\">"@ =~= "\""@ + " rel=\"noopener noreferrer"@ + "\">"@);
    let none = Seq::<char>::empty();
    let p1 = "<a href=\""@ + r + "\""@;
    let p2 = "\">"@ + l + "</a>"@;
    let m = " rel=\"noopener noreferrer"@;
    assert(h =~= none + p1 + (m + p2));
    lemma_stands(none, p1, m + p2);
    assert(h =~= (p1 + m) + p2 + none);
    lemma_stands(p1 + m, p2, none);
    if !is_safe_target(trimmed(target)) {
        assert("<a href=\"#blocked\""@ =~= p1);
    }
}

/// A block is shown with its kind and its claim, and with its citations after it.
pub proof fn a_block_is_shown_with_its_citations(
    b: BlockView,
    anchor: Option<nat>,
    transcript: Seq<StoredSegmentView>,
)
    ensures
        stands_in(content_html(b.content, anchor), block_html(b, anchor, transcript)),
        b.source_refs.len() > 0 ==> stand_in_a_row(
            Seq::new(
                b.source_refs.len(),
                |i: int| cite_html(b.source_refs[i], is_stale(transcript, b.source_refs[i])),
            ),
            block_html(b, anchor, transcript),
        ),
        stands_in(
            "data-kind=\""@ + b.kind.word() + "\" data-claim=\""@ + b.claim_kind.word() + "\">"@,
            block_html(b, anchor, transcript),
        ),
{
    let h = block_html(b, anchor, transcript);
    let c = content_html(b.content, anchor);
    let cites = cites_html(b.source_refs, transcript);
    let (k, q) = (b.kind.word(), b.claim_kind.word());
    let open = "<div class=\"blk\" data-kind=\""@ + k + "\" data-claim=\""@ + q + "\">"@;
    assert(h =~= open + c + (cites + "</div>"@));
    lemma_stands(open, c, cites + "</div>"@);
    if b.source_refs.len() > 0 {
        let list = cite_list(b.source_refs, transcript);
        lemma_cite_list(b.source_refs, transcript);
        lemma_stands("<span class=\"cites\">"@, list, "</span>"@);
        assert(h =~= (open + c) + cites + "</div>"@);
        lemma_stands(open + c, cites, "</div>"@);
        lemma_stands_within(list, cites, h);
    }
    reveal_strlit("<div class=\"blk\" data-kind=\"");
    reveal_strlit("<div class=\"blk\" ");
    reveal_strlit("data-kind=\"");
    let part = "data-kind=\""@ + k + "\" data-claim=\""@ + q + "\">"@;
    assert("<div class=\"blk\" data-kind=\""@ =~= "<div class=\"blk\" "@ + "data-kind=\""@);
    let rest = c + cites + "</div>"@;
    assert(h =~= "<div class=\"blk\" "@ + part + rest);
    lemma_stands("<div class=\"blk\" "@, part, rest);
}

proof fn lemma_cite_list(refs: Seq<SourceRefView>, transcript: Seq<StoredSegmentView>)
    ensures
        cite_list(refs, transcript) == Seq::new(
            refs.len(),
            |i: int| cite_html(refs[i], is_stale(transcript, refs[i])),
        ).flatten(),
    decreases refs.len(),
{
    let parts = Seq::new(refs.len(), |i: int| cite_html(refs[i], is_stale(transcript, refs[i])));
    if refs.len() > 0 {
        let rest = refs.drop_last();
        lemma_cite_list(rest, transcript);
        let front = Seq::new(
            rest.len(),
            |i: int| cite_html(rest[i], is_stale(transcript, rest[i])),
        );
        assert(parts.drop_last() =~= front);
        lemma_flat_last(parts);
    }
}

proof fn lemma_three(x: Seq<char>, a: Seq<char>, b: Seq<char>, c: Seq<char>)
    ensures
        x + a + b + c == x + (a + b + c),
        stands_in(a + b + c, x + a + b + c),
{
    let none = Seq::<char>::empty();
    assert(x + a + b + c =~= x + (a + b + c));
    assert(x + a + b + c =~= x + (a + b + c) + none);
    lemma_stands(x, a + b + c, none);
}

/// A citation shows what it quotes, of what, and in which version; one of the transcript leads
/// to the segment.
pub proof fn citations_show_what_they_quote(r: SourceRefView, stale: bool)
    ensures
        stands_in("\" title=\""@ + escaped(r.quoted_text) + "\">"@, cite_html(r, stale)) || stands_in(
            "<span class=\"cite\" title=\""@ + escaped(r.quoted_text) + "\">"@,
            cite_html(r, stale),
        ),
        stands_in(
            escaped(r.source_kind) + " "@ + escaped(r.source_id) + " r"@ + decimal(
                r.source_revision as nat,
            ),
            cite_html(r, stale),
        ),
        r.source_kind == "transcript_segment"@ ==> stands_in(
            "<a class=\"cite\" href=\"#seg-"@ + escaped(r.source_id) + "\" data-stale=\""@ + if stale {
                "1"@
            } else {
                "0"@
            },
            cite_html(r, stale),
        ),
        stale ==> stands_in("（已修訂）"@, cite_html(r, stale)),
{
    broadcast use {lemma_stands_before, lemma_stands_last};

    let h = cite_html(r, stale);
    let (i, q) = (escaped(r.source_id), escaped(r.quoted_text));
    let label = crate::render::cite_label(r, stale);
    let name = escaped(r.source_kind) + " "@ + i + " r"@ + decimal(r.source_revision as nat);
    let mark = if stale {
        "（已修訂）"@
    } else {
        ""@
    };
    let flag = if stale {
        "1"@
    } else {
        "0"@
    };
    lemma_stands_in_itself(name);
    assert(label == name + mark);
    if r.source_kind == "transcript_segment"@ {
        let first = "<a class=\"cite\" href=\"#seg-"@ + i + "\" data-stale=\""@ + flag;
        lemma_stands_in_itself(first);
        lemma_three(first, "\" title=\""@, q, "\">"@);
        let x = first + "\" title=\""@ + q + "\">"@;
        lemma_label(x, label, "</a>"@, name, mark);
        assert(h == x + label + "</a>"@);
    } else {
        let x = "<span class=\"cite\" title=\""@ + q + "\">"@;
        lemma_stands_in_itself(x);
        lemma_label(x, label, "</span>"@, name, mark);
        assert(h == x + label + "</span>"@);
    }
}

proof fn lemma_label(
    x: Seq<char>,
    label: Seq<char>,
    close: Seq<char>,
    name: Seq<char>,
    mark: Seq<char>,
)
    requires
        label == name + mark,
    ensures
        stands_in(name, x + label + close),
        stands_in(mark, x + label + close),
{
    let none = Seq::<char>::empty();
    assert(label =~= none + name + mark);
    lemma_stands(none, name, mark);
    assert(label =~= name + mark + none);
    lemma_stands(name, mark, none);
    lemma_stands(x, label, close);
    lemma_stands_within(name, label, x + label + close);
    lemma_stands_within(mark, label, x + label + close);
}

/// A citation is marked as outdated exactly where the transcript shows a later version of that
/// segment; of rows with the same number the last one counts.
pub proof fn outdated_citations_are_marked(
    transcript: Seq<StoredSegmentView>,
    r: SourceRefView,
    k: int,
)
    requires
        0 <= k <= transcript.len(),
        k < transcript.len() ==> decimal(transcript[k].segment_id as nat) == r.source_id,
        forall|j: int|
            k < j < transcript.len() ==> decimal((#[trigger] transcript[j]).segment_id as nat)
                != r.source_id,
        k == transcript.len() ==> forall|j: int|
            0 <= j < transcript.len() ==> decimal((#[trigger] transcript[j]).segment_id as nat)
                != r.source_id,
    ensures
        is_stale(transcript, r) == (k < transcript.len() && transcript[k].revision
            > r.source_revision),
    decreases transcript.len(),
{
    if transcript.len() > 0 {
        let n = transcript.len() - 1;
        let rest = transcript.drop_last();
        if k == n {
            assert(transcript.last() == transcript[k]);
        } else {
            assert(decimal(transcript[n].segment_id as nat) != r.source_id);
            let m = if k == transcript.len() {
                n
            } else {
                k
            };
            assert forall|j: int| m < j < rest.len() implies decimal(
                (#[trigger] rest[j]).segment_id as nat,
            ) != r.source_id by {
                assert(rest[j] == transcript[j]);
            }
            if m == rest.len() {
                assert forall|j: int| 0 <= j < rest.len() implies decimal(
                    (#[trigger] rest[j]).segment_id as nat,
                ) != r.source_id by {
                    assert(rest[j] == transcript[j]);
                }
            }
            outdated_citations_are_marked(rest, r, m);
        }
    }
}

// ---------------------------------------------------------------------------
// The page
// ---------------------------------------------------------------------------

proof fn lemma_main_stands(ctx: ContextView, blocks: Seq<BlockView>)
    ensures
        stands_in(main_html(blocks, ctx.transcript), page(ctx, blocks)),
        stands_in(
            transcript_html(ctx.transcript, display_names(ctx.speakers, ctx.transcript)),
            page(ctx, blocks),
        ),
{
    broadcast use {lemma_stands_before, lemma_stands_last};

}

proof fn lemma_parts_stand(blocks: Seq<BlockView>, s: Seq<StoredSegmentView>)
    ensures
        ({
            let rest = without_summary(blocks);
            let m = main_html(blocks, s);
            &&& stands_in(summary_html(blocks, s), m)
            &&& body_html(rest, s).len() > 0 ==> stands_in(body_html(rest, s), m)
            &&& listing_html(rest, Listing::Decisions, s).len() > 0 ==> stands_in(
                listing_html(rest, Listing::Decisions, s),
                m,
            )
            &&& listing_html(rest, Listing::Actions, s).len() > 0 ==> stands_in(
                listing_html(rest, Listing::Actions, s),
                m,
            )
            &&& listing_html(rest, Listing::Open, s).len() > 0 ==> stands_in(
                listing_html(rest, Listing::Open, s),
                m,
            )
        }),
{
    let rest = without_summary(blocks);
    let m = main_html(blocks, s);
    let a = summary_html(blocks, s);
    let body = body_html(rest, s);
    let (x, y, z) = (
        listing_html(rest, Listing::Decisions, s),
        listing_html(rest, Listing::Actions, s),
        listing_html(rest, Listing::Open, s),
    );
    let b = framed("<section id=\"s-body\">"@, body, "</section>"@);
    let c = decisions_section(x, y);
    let d = framed(
        "<section id=\"s-open\" class=\"aside-claims\"><h2>缺口與建議</h2>"@,
        z,
        "</section>"@,
    );
    let none = Seq::<char>::empty();
    assert(m =~= none + a + (b + c + d));
    lemma_stands(none, a, b + c + d);
    assert(m =~= a + b + (c + d));
    lemma_stands(a, b, c + d);
    assert(m =~= (a + b) + c + d);
    lemma_stands(a + b, c, d);
    assert(m =~= (a + b + c) + d + none);
    lemma_stands(a + b + c, d, none);
    if body.len() > 0 {
        lemma_stands("<section id=\"s-body\">"@, body, "</section>"@);
        lemma_stands_within(body, b, m);
    }
    if z.len() > 0 {
        let o = "<section id=\"s-open\" class=\"aside-claims\"><h2>缺口與建議</h2>"@;
        lemma_stands(o, z, "</section>"@);
        lemma_stands_within(z, d, m);
    }
    let o = "<section id=\"s-decisions\"><h2>決議與行動項目</h2>"@;
    let f = framed("<h3>決議</h3>"@, x, ""@);
    let g = framed("<h3>行動項目</h3>"@, y, ""@);
    if x.len() > 0 {
        lemma_stands("<h3>決議</h3>"@, x, ""@);
        assert(c =~= o + f + (g + "</section>"@));
        lemma_stands(o, f, g + "</section>"@);
        lemma_stands_within(x, f, c);
        lemma_stands_within(x, c, m);
    }
    if y.len() > 0 {
        lemma_stands("<h3>行動項目</h3>"@, y, ""@);
        assert(c =~= (o + f) + g + "</section>"@);
        lemma_stands(o + f, g, "</section>"@);
        lemma_stands_within(y, g, c);
        lemma_stands_within(y, c, m);
    }
}

/// The blocks of the main part are there one after another, each under its place among all.
proof fn lemma_body_parts(rest: Seq<BlockView>, s: Seq<StoredSegmentView>)
    ensures
        body_html(rest, s) == Seq::new(
            rest.len(),
            |k: int|
                if section(rest[k]) is Body {
                    block_html(rest[k], Some(k as nat), s)
                } else {
                    Seq::empty()
                },
        ).flatten(),
    decreases rest.len(),
{
    let parts = Seq::new(
        rest.len(),
        |k: int|
            if section(rest[k]) is Body {
                block_html(rest[k], Some(k as nat), s)
            } else {
                Seq::empty()
            },
    );
    if rest.len() > 0 {
        let before = rest.drop_last();
        lemma_body_parts(before, s);
        let front = Seq::new(
            before.len(),
            |k: int|
                if section(before[k]) is Body {
                    block_html(before[k], Some(k as nat), s)
                } else {
                    Seq::empty()
                },
        );
        assert(parts.drop_last() =~= front);
        lemma_flat_last(parts);
        assert(body_html(rest, s) =~= parts.flatten());
    }
}

proof fn lemma_listing_parts(rest: Seq<BlockView>, listing: Listing, s: Seq<StoredSegmentView>)
    ensures
        listing_html(rest, listing, s) == Seq::new(
            rest.len(),
            |k: int|
                if is_listed(rest[k], listing) {
                    block_html(rest[k], None, s)
                } else {
                    Seq::empty()
                },
        ).flatten(),
    decreases rest.len(),
{
    let parts = Seq::new(
        rest.len(),
        |k: int|
            if is_listed(rest[k], listing) {
                block_html(rest[k], None, s)
            } else {
                Seq::empty()
            },
    );
    if rest.len() > 0 {
        let before = rest.drop_last();
        lemma_listing_parts(before, listing, s);
        let front = Seq::new(
            before.len(),
            |k: int|
                if is_listed(before[k], listing) {
                    block_html(before[k], None, s)
                } else {
                    Seq::empty()
                },
        );
        assert(parts.drop_last() =~= front);
        lemma_flat_last(parts);
        assert(listing_html(rest, listing, s) =~= parts.flatten());
    }
}

/// Every block but the summary is shown in the page, whole: in the main part those that state
/// what was said or inferred, and in lists of their own decisions, action items, and what is
/// missing or suggested. Within each of the four they stand in their order, with nothing between.
pub proof fn every_block_is_shown_in_its_order(ctx: ContextView, blocks: Seq<BlockView>)
    ensures
        ({
            let p = page(ctx, blocks);
            let rest = without_summary(blocks);
            let s = ctx.transcript;
            &&& stand_in_a_row(
                Seq::new(
                    rest.len(),
                    |k: int|
                        if !(rest[k].kind is Decision) && !(rest[k].kind is ActionItem) && (
                        rest[k].claim_kind is Fact || rest[k].claim_kind is Inference) {
                            block_html(rest[k], Some(k as nat), s)
                        } else {
                            Seq::empty()
                        },
                ),
                p,
            )
            &&& stand_in_a_row(
                Seq::new(
                    rest.len(),
                    |k: int|
                        if rest[k].kind is Decision {
                            block_html(rest[k], None, s)
                        } else {
                            Seq::empty()
                        },
                ),
                p,
            )
            &&& stand_in_a_row(
                Seq::new(
                    rest.len(),
                    |k: int|
                        if rest[k].kind is ActionItem {
                            block_html(rest[k], None, s)
                        } else {
                            Seq::empty()
                        },
                ),
                p,
            )
            &&& stand_in_a_row(
                Seq::new(
                    rest.len(),
                    |k: int|
                        if !(rest[k].kind is Decision) && !(rest[k].kind is ActionItem) && (
                        rest[k].claim_kind is Gap || rest[k].claim_kind is Suggestion) {
                            block_html(rest[k], None, s)
                        } else {
                            Seq::empty()
                        },
                ),
                p,
            )
        }),
{
    let p = page(ctx, blocks);
    let rest = without_summary(blocks);
    let s = ctx.transcript;
    lemma_main_stands(ctx, blocks);
    lemma_parts_stand(blocks, s);
    let m = main_html(blocks, s);
    lemma_body_parts(rest, s);
    lemma_row_in_page(body_html(rest, s), m, p);
    assert(Seq::new(
        rest.len(),
        |k: int|
            if section(rest[k]) is Body {
                block_html(rest[k], Some(k as nat), s)
            } else {
                Seq::empty()
            },
    ) =~= Seq::new(
        rest.len(),
        |k: int|
            if !(rest[k].kind is Decision) && !(rest[k].kind is ActionItem) && (
            rest[k].claim_kind is Fact || rest[k].claim_kind is Inference) {
                block_html(rest[k], Some(k as nat), s)
            } else {
                Seq::empty()
            },
    ));
    lemma_listing_parts(rest, Listing::Decisions, s);
    lemma_row_in_page(listing_html(rest, Listing::Decisions, s), m, p);
    assert(Seq::new(
        rest.len(),
        |k: int|
            if is_listed(rest[k], Listing::Decisions) {
                block_html(rest[k], None, s)
            } else {
                Seq::empty()
            },
    ) =~= Seq::new(
        rest.len(),
        |k: int|
            if rest[k].kind is Decision {
                block_html(rest[k], None, s)
            } else {
                Seq::empty()
            },
    ));
    lemma_listing_parts(rest, Listing::Actions, s);
    lemma_row_in_page(listing_html(rest, Listing::Actions, s), m, p);
    assert(Seq::new(
        rest.len(),
        |k: int|
            if is_listed(rest[k], Listing::Actions) {
                block_html(rest[k], None, s)
            } else {
                Seq::empty()
            },
    ) =~= Seq::new(
        rest.len(),
        |k: int|
            if rest[k].kind is ActionItem {
                block_html(rest[k], None, s)
            } else {
                Seq::empty()
            },
    ));
    lemma_listing_parts(rest, Listing::Open, s);
    lemma_row_in_page(listing_html(rest, Listing::Open, s), m, p);
    assert(Seq::new(
        rest.len(),
        |k: int|
            if is_listed(rest[k], Listing::Open) {
                block_html(rest[k], None, s)
            } else {
                Seq::empty()
            },
    ) =~= Seq::new(
        rest.len(),
        |k: int|
            if !(rest[k].kind is Decision) && !(rest[k].kind is ActionItem) && (
            rest[k].claim_kind is Gap || rest[k].claim_kind is Suggestion) {
                block_html(rest[k], None, s)
            } else {
                Seq::empty()
            },
    ));
}

proof fn lemma_row_in_page(row: Seq<char>, m: Seq<char>, p: Seq<char>)
    requires
        row.len() > 0 ==> stands_in(row, m),
        stands_in(m, p),
    ensures
        stands_in(row, p),
{
    if row.len() > 0 {
        lemma_stands_within(row, m, p);
    } else {
        let none = Seq::<char>::empty();
        assert(p =~= p + row + none);
        lemma_stands(p, row, none);
    }
}

proof fn lemma_summary_says(blocks: Seq<BlockView>, at: int, s: Seq<StoredSegmentView>)
    requires
        0 <= at < blocks.len(),
        blocks[at].content matches ContentView::Callout { tone, .. } && tone == "summary"@,
        forall|j: int| 0 <= j < at ==> !sums_up(#[trigger] blocks[j]),
    ensures
        stands_in(
            "<p>"@ + escaped(
                match blocks[at].content {
                    ContentView::Callout { body, .. } => body,
                    _ => Seq::empty(),
                },
            ) + "</p>"@ + cites_html(blocks[at].source_refs, s),
            summary_html(blocks, s),
        ),
{
    crate::render::lemma_summary_at(blocks, at);
    if let ContentView::Callout { body, .. } = blocks[at].content {
        let (text, cites) = (escaped(body), cites_html(blocks[at].source_refs, s));
        let open = "<section id=\"s-summary\" class=\"tldr\"><h2>成果摘要</h2>"@;
        reveal_strlit("<section id=\"s-summary\" class=\"tldr\"><h2>成果摘要</h2><p>");
        reveal_strlit("<section id=\"s-summary\" class=\"tldr\"><h2>成果摘要</h2>");
        reveal_strlit("<p>");
        assert("<section id=\"s-summary\" class=\"tldr\"><h2>成果摘要</h2><p>"@ =~= open + "<p>"@);
        lemma_framed_text(open, "<p>"@, text, "</p>"@, cites, "</section>"@);
    }
}

proof fn lemma_framed_text(
    a: Seq<char>,
    b: Seq<char>,
    text: Seq<char>,
    c: Seq<char>,
    cites: Seq<char>,
    d: Seq<char>,
)
    ensures
        stands_in(b + text + c + cites, (a + b) + text + c + cites + d),
{
    assert((a + b) + text + c + cites + d =~= a + (b + text + c + cites) + d);
    lemma_stands(a, b + text + c + cites, d);
}

/// The first summary leads the page with all that it says, and the blocks after and before it
/// are the others in their order.
pub proof fn the_summary_is_shown(ctx: ContextView, blocks: Seq<BlockView>, at: int)
    requires
        0 <= at < blocks.len(),
        blocks[at].content matches ContentView::Callout { tone, .. } && tone == "summary"@,
        forall|j: int|
            0 <= j < at ==> !((#[trigger] blocks[j]).content matches ContentView::Callout {
                tone,
                ..
            } && tone == "summary"@),
    ensures
        stands_in(
            "<p>"@ + escaped(
                match blocks[at].content {
                    ContentView::Callout { body, .. } => body,
                    _ => Seq::empty(),
                },
            ) + "</p>"@ + cites_html(blocks[at].source_refs, ctx.transcript),
            page(ctx, blocks),
        ),
        without_summary(blocks) == blocks.take(at) + blocks.skip(at + 1),
{
    let s = ctx.transcript;
    assert forall|j: int| 0 <= j < at implies !sums_up(#[trigger] blocks[j]) by {}
    crate::render::lemma_summary_at(blocks, at);
    lemma_main_stands(ctx, blocks);
    lemma_parts_stand(blocks, s);
    lemma_stands_within(summary_html(blocks, s), main_html(blocks, s), page(ctx, blocks));
    lemma_summary_says(blocks, at, s);
    let part = "<p>"@ + escaped(
        match blocks[at].content {
            ContentView::Callout { body, .. } => body,
            _ => Seq::empty(),
        },
    ) + "</p>"@ + cites_html(blocks[at].source_refs, s);
    lemma_stands_within(part, summary_html(blocks, s), page(ctx, blocks));
}

/// A link leads to a page of the web or to a place in this page, by how its target begins, white
/// space aside. Any other link leads nowhere.
pub proof fn links_lead_to_the_web_or_into_the_page(target: Seq<char>)
    ensures
        ({
            let t = trimmed(target);
            let web = (t.len() >= 7 && ascii_lower(t).take(7) == "http://"@) || (t.len() >= 8
                && ascii_lower(t).take(8) == "https://"@);
            let inside = t.len() > 0 && t[0] == '#';
            &&& web || inside ==> href(target) == escaped(t)
            &&& !(web || inside) ==> href(target) == "#blocked"@
        }),
{
    reveal_strlit("http://");
    reveal_strlit("https://");
    reveal_strlit("#");
    let t = trimmed(target);
    assert(begins_with(t, "#"@) <==> t.len() > 0 && t[0] == '#') by {
        if t.len() > 0 {
            assert(t.take(1)[0] == t[0]);
            if t[0] == '#' {
                assert(t.take(1) =~= "#"@);
            }
        }
    }
}

/// The sections come in one order: the summary, the main part, what was decided and then what is to
/// be done, and what is open. One without a block is left out with its heading.
pub proof fn sections_come_in_their_order(blocks: Seq<BlockView>, s: Seq<StoredSegmentView>)
    ensures
        ({
            let rest = without_summary(blocks);
            let body = body_html(rest, s);
            let decided = listing_html(rest, Listing::Decisions, s);
            let to_do = listing_html(rest, Listing::Actions, s);
            let open = listing_html(rest, Listing::Open, s);
            main_html(blocks, s) == summary_html(blocks, s) + (if body.len() > 0 {
                "<section id=\"s-body\">"@ + body + "</section>"@
            } else {
                ""@
            }) + (if decided.len() > 0 || to_do.len() > 0 {
                "<section id=\"s-decisions\"><h2>決議與行動項目</h2>"@ + (if decided.len() > 0 {
                    "<h3>決議</h3>"@ + decided + ""@
                } else {
                    ""@
                }) + (if to_do.len() > 0 {
                    "<h3>行動項目</h3>"@ + to_do + ""@
                } else {
                    ""@
                }) + "</section>"@
            } else {
                ""@
            }) + (if open.len() > 0 {
                "<section id=\"s-open\" class=\"aside-claims\"><h2>缺口與建議</h2>"@ + open
                    + "</section>"@
            } else {
                ""@
            })
        }),
{
}

/// The table of contents has a line for each of its entries, in their order, which leads to the
/// entry's place under the entry's words. A table with fewer than two lines is left out.
pub proof fn the_contents_show_their_entries(entries: Seq<TocEntryView>)
    ensures
        entries_html(entries) == Seq::new(
            entries.len(),
            |i: int|
                "<li"@ + (if entries[i].sub {
                    " class=\"sub\""@
                } else {
                    ""@
                }) + "><a href=\"#"@ + entries[i].href + "\">"@ + escaped(entries[i].label)
                    + "</a></li>"@,
        ).flatten(),
        entries.len() > 1 ==> stands_in(entries_html(entries), nav_html(entries)),
        entries.len() <= 1 ==> nav_html(entries) == ""@,
    decreases entries.len(),
{
    let lines = Seq::new(
        entries.len(),
        |i: int|
            "<li"@ + (if entries[i].sub {
                " class=\"sub\""@
            } else {
                ""@
            }) + "><a href=\"#"@ + entries[i].href + "\">"@ + escaped(entries[i].label)
                + "</a></li>"@,
    );
    if entries.len() > 0 {
        let rest = entries.drop_last();
        the_contents_show_their_entries(rest);
        assert(lines.drop_last() =~= Seq::new(
            rest.len(),
            |i: int|
                "<li"@ + (if rest[i].sub {
                    " class=\"sub\""@
                } else {
                    ""@
                }) + "><a href=\"#"@ + rest[i].href + "\">"@ + escaped(rest[i].label)
                    + "</a></li>"@,
        ));
        lemma_flat_last(lines);
    }
    if entries.len() > 1 {
        lemma_stands(
            "<nav class=\"toc\" aria-label=\"目錄\"><ul>"@,
            entries_html(entries),
            "</ul></nav>"@,
        );
    }
}

/// Every heading of the first two levels in the main part has an entry with its place and its
/// words, and no other block has one.
pub proof fn headings_are_in_the_contents(rest: Seq<BlockView>)
    ensures
        heading_entries(rest) == Seq::new(
            rest.len(),
            |k: int|
                match rest[k].content {
                    ContentView::Heading { level, text } => if level <= 2 && !(rest[k].kind
                        is Decision) && !(rest[k].kind is ActionItem) && !(rest[k].claim_kind is Gap)
                        && !(rest[k].claim_kind is Suggestion) {
                        seq![TocEntryView { href: "h-"@ + decimal(k as nat), label: text, sub: true }]
                    } else {
                        Seq::empty()
                    },
                    _ => Seq::empty(),
                },
        ).flatten(),
    decreases rest.len(),
{
    let parts = Seq::new(
        rest.len(),
        |k: int|
            match rest[k].content {
                ContentView::Heading { level, text } => if level <= 2 && !(rest[k].kind is Decision)
                    && !(rest[k].kind is ActionItem) && !(rest[k].claim_kind is Gap) && !(
                rest[k].claim_kind is Suggestion) {
                    seq![TocEntryView { href: "h-"@ + decimal(k as nat), label: text, sub: true }]
                } else {
                    Seq::empty()
                },
                _ => Seq::empty(),
            },
    );
    if rest.len() > 0 {
        let front = rest.drop_last();
        headings_are_in_the_contents(front);
        assert(parts.drop_last() =~= Seq::new(
            front.len(),
            |k: int|
                match front[k].content {
                    ContentView::Heading { level, text } => if level <= 2 && !(front[k].kind
                        is Decision) && !(front[k].kind is ActionItem) && !(front[k].claim_kind
                        is Gap) && !(front[k].claim_kind is Suggestion) {
                        seq![TocEntryView { href: "h-"@ + decimal(k as nat), label: text, sub: true }]
                    } else {
                        Seq::empty()
                    },
                    _ => Seq::empty(),
                },
        ));
        lemma_flat_last(parts);
    }
}

proof fn lemma_segments(s: Seq<StoredSegmentView>, names: Seq<(Seq<char>, Seq<char>)>)
    ensures
        segments_html(s, names) == Seq::new(
            s.len(),
            |i: int| segment_html(s[i], names),
        ).flatten(),
    decreases s.len(),
{
    let parts = Seq::new(s.len(), |i: int| segment_html(s[i], names));
    if s.len() > 0 {
        let rest = s.drop_last();
        lemma_segments(rest, names);
        let front = Seq::new(rest.len(), |i: int| segment_html(rest[i], names));
        assert(parts.drop_last() =~= front);
        lemma_flat_last(parts);
    }
}

/// The whole transcript goes with the page: a row for each segment, in their order, with when
/// it was said, by whom, and all of its words.
pub proof fn the_transcript_is_shown(ctx: ContextView, blocks: Seq<BlockView>)
    ensures
        ({
            let s = ctx.transcript;
            let names = display_names(ctx.speakers, s);
            stand_in_a_row(
                Seq::new(
                    s.len(),
                    |i: int|
                        "<div class=\"t-row\" id=\"seg-"@ + decimal(s[i].segment_id as nat)
                            + "\"><span class=\"t-time\">"@ + escaped(
                            clock_text(s[i].meeting_start_ms as nat),
                        ) + "</span><span class=\"t-who\" id=\"seg-"@ + decimal(
                            s[i].segment_id as nat,
                        ) + "-r"@ + decimal(s[i].revision as nat) + "\">"@ + escaped(
                            speaker_label(s[i], names),
                        ) + "</span><p>"@ + escaped(s[i].text) + "</p></div>"@,
                ),
                page(ctx, blocks),
            )
        }),
{
    let s = ctx.transcript;
    let names = display_names(ctx.speakers, s);
    let p = page(ctx, blocks);
    lemma_main_stands(ctx, blocks);
    lemma_segments(s, names);
    let all = segments_html(s, names);
    let t = transcript_html(s, names);
    assert(Seq::new(s.len(), |i: int| segment_html(s[i], names)) =~= Seq::new(
        s.len(),
        |i: int|
            "<div class=\"t-row\" id=\"seg-"@ + decimal(s[i].segment_id as nat)
                + "\"><span class=\"t-time\">"@ + escaped(clock_text(s[i].meeting_start_ms as nat))
                + "</span><span class=\"t-who\" id=\"seg-"@ + decimal(s[i].segment_id as nat)
                + "-r"@ + decimal(s[i].revision as nat) + "\">"@ + escaped(
                speaker_label(s[i], names),
            ) + "</span><p>"@ + escaped(s[i].text) + "</p></div>"@,
    ));
    if all.len() > 0 {
        lemma_stands(
            "<section id=\"s-transcript\" class=\"transcript\"><h2>逐字稿</h2>"@,
            all,
            "</section>"@,
        );
    }
    lemma_row_in_page(all, t, p);
}

/// The page says what it is of: the title, the version, the cursor and when it was made.
pub proof fn the_page_says_what_it_is_of(ctx: ContextView, blocks: Seq<BlockView>)
    ensures
        stands_in(
            "<!doctype html><html lang=\"zh-Hant\"><head><meta charset=\"utf-8\"><meta name=\"viewport\" content=\"width=device-width,initial-scale=1\"><title>"@
                + escaped(ctx.title) + "</title><style>"@,
            page(ctx, blocks),
        ),
        stands_in(
            "</style></head><body><header><h1>"@ + escaped(ctx.title)
                + "</h1><p class=\"meta\">版本 v"@,
            page(ctx, blocks),
        ),
        stands_in(
            "</h1><p class=\"meta\">版本 v"@ + decimal(ctx.version_no as nat) + "・涵蓋至事件 "@,
            page(ctx, blocks),
        ),
        stands_in(
            "・涵蓋至事件 "@ + decimal(ctx.through_event_seq as nat) + "・生成於 "@,
            page(ctx, blocks),
        ),
        stands_in(
            "・生成於 "@ + escaped(ctx.created_at)
                + "</p><p class=\"disclaimer\">引用標記代表來源可回溯，不代表該陳述已被驗證為真。</p></header>"@,
            page(ctx, blocks),
        ),
{
    let title = escaped(ctx.title);
    let (v, e, c) = (
        decimal(ctx.version_no as nat),
        decimal(ctx.through_event_seq as nat),
        escaped(ctx.created_at),
    );
    let l1 = "<!doctype html><html lang=\"zh-Hant\"><head><meta charset=\"utf-8\"><meta name=\"viewport\" content=\"width=device-width,initial-scale=1\"><title>"@;
    let l2 = "</title><style>"@;
    let l3 = "</style></head><body><header><h1>"@;
    let l4 = "</h1><p class=\"meta\">版本 v"@;
    let (l5, l6) = ("・涵蓋至事件 "@, "・生成於 "@);
    let l7 = "</p><p class=\"disclaimer\">引用標記代表來源可回溯，不代表該陳述已被驗證為真。</p></header>"@;
    let a = l1 + title + l2;
    lemma_stands_in_itself(a);
    let b = a + crate::render::EXPORT_CSS@;
    let d = b + l3 + title + l4;
    lemma_three(b, l3, title, l4);
    let f = b + l3 + title;
    lemma_three(f, l4, v, l5);
    let g = f + l4 + v;
    lemma_three(g, l5, e, l6);
    let k = g + l5 + e;
    lemma_three(k, l6, c, l7);
    let z = k + l6 + c + l7;
    lemma_rest_of_page(ctx, blocks, z, a);
    lemma_rest_of_page(ctx, blocks, z, l3 + title + l4);
    lemma_rest_of_page(ctx, blocks, z, l4 + v + l5);
    lemma_rest_of_page(ctx, blocks, z, l5 + e + l6);
    lemma_rest_of_page(ctx, blocks, z, l6 + c + l7);
}

/// What stands in the head of the page stands in the page.
proof fn lemma_rest_of_page(
    ctx: ContextView,
    blocks: Seq<BlockView>,
    head: Seq<char>,
    part: Seq<char>,
)
    requires
        head == "<!doctype html><html lang=\"zh-Hant\"><head><meta charset=\"utf-8\"><meta name=\"viewport\" content=\"width=device-width,initial-scale=1\"><title>"@
            + escaped(ctx.title) + "</title><style>"@ + crate::render::EXPORT_CSS@
            + "</style></head><body><header><h1>"@ + escaped(ctx.title)
            + "</h1><p class=\"meta\">版本 v"@ + decimal(ctx.version_no as nat) + "・涵蓋至事件 "@
            + decimal(ctx.through_event_seq as nat) + "・生成於 "@ + escaped(ctx.created_at)
            + "</p><p class=\"disclaimer\">引用標記代表來源可回溯，不代表該陳述已被驗證為真。</p></header>"@,
        part == "<!doctype html><html lang=\"zh-Hant\"><head><meta charset=\"utf-8\"><meta name=\"viewport\" content=\"width=device-width,initial-scale=1\"><title>"@
            + escaped(ctx.title) + "</title><style>"@ || stands_in(part, head) || stands_in(
            part,
            "<!doctype html><html lang=\"zh-Hant\"><head><meta charset=\"utf-8\"><meta name=\"viewport\" content=\"width=device-width,initial-scale=1\"><title>"@
                + escaped(ctx.title) + "</title><style>"@ + crate::render::EXPORT_CSS@
                + "</style></head><body><header><h1>"@ + escaped(ctx.title)
                + "</h1><p class=\"meta\">版本 v"@,
        ) || stands_in(
            part,
            "<!doctype html><html lang=\"zh-Hant\"><head><meta charset=\"utf-8\"><meta name=\"viewport\" content=\"width=device-width,initial-scale=1\"><title>"@
                + escaped(ctx.title) + "</title><style>"@ + crate::render::EXPORT_CSS@
                + "</style></head><body><header><h1>"@ + escaped(ctx.title)
                + "</h1><p class=\"meta\">版本 v"@ + decimal(ctx.version_no as nat)
                + "・涵蓋至事件 "@,
        ) || stands_in(
            part,
            "<!doctype html><html lang=\"zh-Hant\"><head><meta charset=\"utf-8\"><meta name=\"viewport\" content=\"width=device-width,initial-scale=1\"><title>"@
                + escaped(ctx.title) + "</title><style>"@ + crate::render::EXPORT_CSS@
                + "</style></head><body><header><h1>"@ + escaped(ctx.title)
                + "</h1><p class=\"meta\">版本 v"@ + decimal(ctx.version_no as nat)
                + "・涵蓋至事件 "@ + decimal(ctx.through_event_seq as nat) + "・生成於 "@,
        ),
    ensures
        stands_in(part, page(ctx, blocks)),
{
    broadcast use lemma_stands_before;

    lemma_stands_in_itself(part);
    assert(stands_in(part, head));
}

// ---------------------------------------------------------------------------
// Who speaks
// ---------------------------------------------------------------------------

/// What a speaker is called: the confirmed name, else the proposed one, else "me" for the
/// microphone and a number for a remote voice. Numbers are given in the order of the list, to
/// remote voices alone, whether or not they have a name.
pub proof fn names_are_given_in_order(
    speakers: Seq<StoredSpeakerView>,
    transcript: Seq<StoredSegmentView>,
    k: int,
)
    requires
        0 <= k < speakers.len(),
        speakers[k].speaker_id != UNKNOWN_REMOTE@,
    ensures
        ({
            let s = speakers[k];
            let name = display_names(speakers, transcript)[k];
            &&& display_names(speakers, transcript).len() == speakers.len()
            &&& name.0 == s.speaker_id
            &&& s.confirmed_name matches Some(n) ==> name.1 == n
            &&& s.confirmed_name is None ==> (s.proposed_name matches Some(n) ==> name.1 == n)
            &&& s.confirmed_name is None && s.proposed_name is None && track_of(
                transcript,
                s.speaker_id,
            ) is Mic ==> name.1 == "我"@
            &&& s.confirmed_name is None && s.proposed_name is None && track_of(
                transcript,
                s.speaker_id,
            ) is System ==> name.1 == "語者 "@ + decimal(
                1 + numbered_count(transcript, speakers.take(k)),
            )
            &&& numbered_count(transcript, speakers.take(k + 1)) == numbered_count(
                transcript,
                speakers.take(k),
            ) + if track_of(transcript, s.speaker_id) is System {
                1nat
            } else {
                0nat
            }
            &&& numbered_count(transcript, speakers.take(0)) == 0
        }),
{
    let upto = speakers.take(k + 1);
    assert(upto.last() == speakers[k]);
    assert(upto.drop_last() =~= speakers.take(k));
}

/// A speaker is on the track on which they are first heard, and remote where they are not heard.
pub proof fn tracks_are_where_speakers_are_first_heard(
    transcript: Seq<StoredSegmentView>,
    id: Seq<char>,
    k: int,
)
    requires
        0 <= k <= transcript.len(),
        k < transcript.len() ==> transcript[k].speaker_id == Some(id),
        forall|j: int| 0 <= j < k ==> (#[trigger] transcript[j]).speaker_id != Some(id),
    ensures
        track_of(transcript, id) == if k < transcript.len() {
            transcript[k].track
        } else {
            Track::System
        },
    decreases k,
{
    if k > 0 {
        let rest = transcript.skip(1);
        assert(transcript[0].speaker_id != Some(id));
        assert forall|j: int| 0 <= j < k - 1 implies (#[trigger] rest[j]).speaker_id != Some(id) by {
            assert(rest[j] == transcript[j + 1]);
        }
        tracks_are_where_speakers_are_first_heard(rest, id, k - 1);
    }
}

/// A row of the transcript shows the name of its speaker, the last one given under that mark,
/// and nobody where there is none.
pub proof fn rows_show_their_speaker(
    s: StoredSegmentView,
    names: Seq<(Seq<char>, Seq<char>)>,
    k: int,
)
    requires
        -1 <= k < names.len(),
        s.speaker_id is Some,
        k >= 0 ==> names[k].0 == s.speaker_id->0,
        forall|j: int| k < j < names.len() ==> (#[trigger] names[j]).0 != s.speaker_id->0,
    ensures
        speaker_label(s, names) == if k >= 0 {
            names[k].1
        } else {
            "未指派"@
        },
{
    lemma_name_in(names, s.speaker_id->0, k);
}

proof fn lemma_name_in(names: Seq<(Seq<char>, Seq<char>)>, id: Seq<char>, k: int)
    requires
        -1 <= k < names.len(),
        k >= 0 ==> names[k].0 == id,
        forall|j: int| k < j < names.len() ==> (#[trigger] names[j]).0 != id,
    ensures
        name_in(names, id) == if k >= 0 {
            Some(names[k].1)
        } else {
            None
        },
    decreases names.len(),
{
    if names.len() > 0 && k < names.len() - 1 {
        let rest = names.drop_last();
        assert(names[names.len() - 1].0 != id);
        assert forall|j: int| k < j < rest.len() implies (#[trigger] rest[j]).0 != id by {
            assert(rest[j] == names[j]);
        }
        lemma_name_in(rest, id, k);
    }
}

} // verus!
