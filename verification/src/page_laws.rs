//! What a reader finds in the page: each section once and in its order, and a table of contents
//! whose links all lead somewhere.

use crate::citation::lemma_first_index;
use crate::document::{BlockKind, BlockView, ContentView};
use crate::model::ClaimKind;
use crate::order_laws::is_anchored;
use crate::reading::{
    count_in, is_closed, is_complete, is_inside, lemma_count_add, lemma_count_one, lemma_never,
    lemma_once, lemma_times_add, lemma_values_add, times, up_to_quote, values,
};
use crate::render::{
    action_meta, block_html, body_html, cite_html, cite_label, cite_list, cites_html, content_html,
    decisions_section, display_names, entries_html, entry, entry_html, entry_if, escaped, framed,
    heading_anchor, heading_entries, heading_rank, href, is_listed, is_stale, lemma_style_sheet,
    listing_html, main_html, nav_html, optional_span, page, rows_html, section, segment_html,
    segments_html, summary_at, summary_html, sums_up, toc_entries, transcript_html,
    without_summary, wrapped, ContextView, Listing, Section, TocEntryView, EXPORT_CSS,
};
use crate::render_laws::{
    escaped_text_has_no_marks, lemma_block_is_shown, lemma_summary_found,
    parts_appear_with_their_blocks,
};
use crate::store::{SourceRefView, StoredSegmentView};
use crate::text::{decimal, decimal_is_injective, decimal_reads_back, is_digit, occurs_at};
use vstd::prelude::*;

verus! {

/// What a section of the page begins with, up to its name.
pub open spec fn section_mark() -> Seq<char> {
    "<section id=\""@
}

/// What the table of contents begins with.
pub open spec fn nav_mark() -> Seq<char> {
    "<nav class=\"toc\""@
}

/// What a link to a place in the page begins with, up to the name of the place.
pub open spec fn link_mark() -> Seq<char> {
    "href=\"#"@
}

/// What makes `x` the name of a place in the page.
pub open spec fn anchor_mark(x: Seq<char>) -> Seq<char> {
    "id=\""@ + x + "\""@
}

// ---------------------------------------------------------------------------
// Parts without sections, tables of contents and places that one leads to
// ---------------------------------------------------------------------------

/// Whether `x` is of the form of a name that the table of contents leads to.
spec fn is_target(x: Seq<char>) -> bool {
    &&& x.len() >= 2
    &&& x[0] == 'h' || (x[0] == 's' && x[1] == '-')
    &&& forall|i: int|
        0 <= i < x.len() ==> #[trigger] x[i] != '"' && x[i] != '<' && x[i] != '>' && x[i] != '='
}

/// Whether a text brings no section, no table of contents and no place that one leads to,
/// whatever stands before and after it: what follows each opening bracket, and what stands
/// around each quotation mark, tells so.
#[verifier::opaque]
spec fn is_quiet(s: Seq<char>) -> bool {
    forall|i: int| #![trigger s[i]]
        0 <= i < s.len() ==> {
            &&& s[i] == '<' ==> {
                &&& i + 1 < s.len()
                &&& s[i + 1] == 's' ==> i + 2 < s.len() && s[i + 2] != 'e'
                &&& s[i + 1] == 'n' ==> i + 2 < s.len() && s[i + 2] != 'a'
            }
            &&& s[i] == '"' ==> {
                ||| i >= 3 && !(s[i - 3] == 'i' && s[i - 2] == 'd' && s[i - 1] == '=')
                ||| i + 1 < s.len() && s[i + 1] != 'h' && (s[i + 1] == 's' ==> i + 2 < s.len()
                    && s[i + 2] != '-')
            }
        }
}

broadcast proof fn lemma_quiet_concat(a: Seq<char>, b: Seq<char>)
    requires
        is_quiet(a),
        is_quiet(b),
    ensures
        #[trigger] is_quiet(a + b),
{
    reveal(is_quiet);
    let s = a + b;
    assert forall|i: int| #![trigger s[i]] 0 <= i < s.len() implies {
        &&& s[i] == '<' ==> {
            &&& i + 1 < s.len()
            &&& s[i + 1] == 's' ==> i + 2 < s.len() && s[i + 2] != 'e'
            &&& s[i + 1] == 'n' ==> i + 2 < s.len() && s[i + 2] != 'a'
        }
        &&& s[i] == '"' ==> {
            ||| i >= 3 && !(s[i - 3] == 'i' && s[i - 2] == 'd' && s[i - 1] == '=')
            ||| i + 1 < s.len() && s[i + 1] != 'h' && (s[i + 1] == 's' ==> i + 2 < s.len()
                && s[i + 2] != '-')
        }
    } by {
        if i < a.len() {
            assert(s[i] == a[i]);
        } else {
            assert(s[i] == b[i - a.len()]);
        }
    }
}

proof fn lemma_quiet_without_marks(s: Seq<char>)
    requires
        forall|i: int| 0 <= i < s.len() ==> #[trigger] s[i] != '<' && s[i] != '"',
    ensures
        is_quiet(s),
{
    reveal(is_quiet);
}

broadcast proof fn lemma_quiet_escaped(s: Seq<char>)
    ensures
        #[trigger] is_quiet(escaped(s)),
{
    let e = escaped(s);
    assert forall|i: int| 0 <= i < e.len() implies #[trigger] e[i] != '<' && e[i] != '"' by {
        escaped_text_has_no_marks(s, i);
    }
    lemma_quiet_without_marks(e);
}

broadcast proof fn lemma_quiet_decimal(n: nat)
    ensures
        #[trigger] is_quiet(decimal(n)),
{
    decimal_reads_back(n);
    let e = decimal(n);
    assert forall|i: int| 0 <= i < e.len() implies #[trigger] e[i] != '<' && e[i] != '"' by {
        assert(is_digit(e[i]));
    }
    lemma_quiet_without_marks(e);
}

proof fn lemma_quiet_empty()
    ensures
        is_quiet(Seq::<char>::empty()),
{
    lemma_quiet_without_marks(Seq::<char>::empty());
}

proof fn lemma_quiet_in_citations()
    ensures
        is_quiet(" "@),
        is_quiet(" r"@),
        is_quiet("（已修訂）"@),
        is_quiet(""@),
        is_quiet("<a class=\"cite\" href=\"#seg-"@),
        is_quiet("\" data-stale=\""@),
        is_quiet("1"@),
        is_quiet("0"@),
        is_quiet("\" title=\""@),
        is_quiet("\">"@),
        is_quiet("</a>"@),
        is_quiet("<span class=\"cite\" title=\""@),
        is_quiet("</span>"@),
        is_quiet("<span class=\"cites\">"@),
{
    reveal(is_quiet);
    reveal_strlit(" ");
    reveal_strlit(" r");
    reveal_strlit("（已修訂）");
    reveal_strlit("");
    reveal_strlit("<a class=\"cite\" href=\"#seg-");
    reveal_strlit("\" data-stale=\"");
    reveal_strlit("1");
    reveal_strlit("0");
    reveal_strlit("\" title=\"");
    reveal_strlit("\">");
    reveal_strlit("</a>");
    reveal_strlit("<span class=\"cite\" title=\"");
    reveal_strlit("</span>");
    reveal_strlit("<span class=\"cites\">");
}

proof fn lemma_quiet_in_contents()
    ensures
        is_quiet("<li>"@),
        is_quiet("</li>"@),
        is_quiet("<td>"@),
        is_quiet("</td>"@),
        is_quiet("<th>"@),
        is_quiet("</th>"@),
        is_quiet("<tr>"@),
        is_quiet("</tr>"@),
        is_quiet("<h"@),
        is_quiet(">"@),
        is_quiet("</h"@),
        is_quiet("<span class=\"action-meta\">"@),
        is_quiet("<span class=\"owner\">"@),
        is_quiet("<span class=\"due\">"@),
        is_quiet("<p>"@),
        is_quiet("</p>"@),
        is_quiet("<ul>"@),
        is_quiet("</ul>"@),
        is_quiet("#blocked"@),
        is_quiet(""@),
{
    reveal(is_quiet);
    reveal_strlit("<li>");
    reveal_strlit("</li>");
    reveal_strlit("<td>");
    reveal_strlit("</td>");
    reveal_strlit("<th>");
    reveal_strlit("</th>");
    reveal_strlit("<tr>");
    reveal_strlit("</tr>");
    reveal_strlit("<h");
    reveal_strlit(">");
    reveal_strlit("</h");
    reveal_strlit("<span class=\"action-meta\">");
    reveal_strlit("<span class=\"owner\">");
    reveal_strlit("<span class=\"due\">");
    reveal_strlit("<p>");
    reveal_strlit("</p>");
    reveal_strlit("<ul>");
    reveal_strlit("</ul>");
    reveal_strlit("#blocked");
    reveal_strlit("");
}

proof fn lemma_quiet_in_blocks()
    ensures
        is_quiet("<table><thead><tr>"@),
        is_quiet("</tr></thead><tbody>"@),
        is_quiet("</tbody></table>"@),
        is_quiet("<pre class=\"mermaid\">"@),
        is_quiet("</pre>"@),
        is_quiet("<aside class=\"callout\" data-tone=\""@),
        is_quiet("\"><b>"@),
        is_quiet("</b><p>"@),
        is_quiet("</p></aside>"@),
        is_quiet("<p class=\"action\">"@),
        is_quiet("<blockquote><span class=\"t-time\">"@),
        is_quiet("</span><b>"@),
        is_quiet("</p></blockquote>"@),
        is_quiet("<a href=\""@),
        is_quiet("\" rel=\"noopener noreferrer\">"@),
        is_quiet("<div class=\"blk\" data-kind=\""@),
        is_quiet("\" data-claim=\""@),
        is_quiet("</div>"@),
{
    reveal(is_quiet);
    reveal_strlit("<table><thead><tr>");
    reveal_strlit("</tr></thead><tbody>");
    reveal_strlit("</tbody></table>");
    reveal_strlit("<pre class=\"mermaid\">");
    reveal_strlit("</pre>");
    reveal_strlit("<aside class=\"callout\" data-tone=\"");
    reveal_strlit("\"><b>");
    reveal_strlit("</b><p>");
    reveal_strlit("</p></aside>");
    reveal_strlit("<p class=\"action\">");
    reveal_strlit("<blockquote><span class=\"t-time\">");
    reveal_strlit("</span><b>");
    reveal_strlit("</p></blockquote>");
    reveal_strlit("<a href=\"");
    reveal_strlit("\" rel=\"noopener noreferrer\">");
    reveal_strlit("<div class=\"blk\" data-kind=\"");
    reveal_strlit("\" data-claim=\"");
    reveal_strlit("</div>");
}

proof fn lemma_quiet_words()
    ensures
        is_quiet("heading"@),
        is_quiet("paragraph"@),
        is_quiet("bulletList"@),
        is_quiet("table"@),
        is_quiet("mermaidDiagram"@),
        is_quiet("callout"@),
        is_quiet("decision"@),
        is_quiet("actionItem"@),
        is_quiet("gap"@),
        is_quiet("suggestion"@),
        is_quiet("sourceLink"@),
        is_quiet("transcriptExcerpt"@),
        is_quiet("fact"@),
        is_quiet("inference"@),
{
    reveal(is_quiet);
    reveal_strlit("heading");
    reveal_strlit("paragraph");
    reveal_strlit("bulletList");
    reveal_strlit("table");
    reveal_strlit("mermaidDiagram");
    reveal_strlit("callout");
    reveal_strlit("decision");
    reveal_strlit("actionItem");
    reveal_strlit("gap");
    reveal_strlit("suggestion");
    reveal_strlit("sourceLink");
    reveal_strlit("transcriptExcerpt");
    reveal_strlit("fact");
    reveal_strlit("inference");
}

proof fn lemma_quiet_in_the_page()
    ensures
        is_quiet("<h3>決議</h3>"@),
        is_quiet("<h3>行動項目</h3>"@),
        is_quiet("</section>"@),
        is_quiet("<li"@),
        is_quiet(" class=\"sub\""@),
        is_quiet("><a href=\"#"@),
        is_quiet("</a></li>"@),
        is_quiet("</ul></nav>"@),
        is_quiet("<div class=\"t-row\" id=\"seg-"@),
        is_quiet("\"><span class=\"t-time\">"@),
        is_quiet("</span><span class=\"t-who\" id=\"seg-"@),
        is_quiet("-r"@),
        is_quiet("</span><p>"@),
        is_quiet("</p></div>"@),
        is_quiet("<main>"@),
        is_quiet("</main>"@),
        is_quiet("</body></html>"@),
{
    reveal(is_quiet);
    reveal_strlit("<h3>決議</h3>");
    reveal_strlit("<h3>行動項目</h3>");
    reveal_strlit("</section>");
    reveal_strlit("<li");
    reveal_strlit(" class=\"sub\"");
    reveal_strlit("><a href=\"#");
    reveal_strlit("</a></li>");
    reveal_strlit("</ul></nav>");
    reveal_strlit("<div class=\"t-row\" id=\"seg-");
    reveal_strlit("\"><span class=\"t-time\">");
    reveal_strlit("</span><span class=\"t-who\" id=\"seg-");
    reveal_strlit("-r");
    reveal_strlit("</span><p>");
    reveal_strlit("</p></div>");
    reveal_strlit("<main>");
    reveal_strlit("</main>");
    reveal_strlit("</body></html>");
}

proof fn lemma_quiet_in_the_head()
    ensures
        is_quiet("<!doctype html><html lang=\"zh-Hant\"><head><meta charset=\"utf-8\"><meta name=\"viewport\" content=\"width=device-width,initial-scale=1\"><title>"@),
        is_quiet("</title><style>"@),
        is_quiet("</style></head><body><header><h1>"@),
        is_quiet("</h1><p class=\"meta\">版本 v"@),
        is_quiet("・涵蓋至事件 "@),
        is_quiet("・生成於 "@),
        is_quiet("</p><p class=\"disclaimer\">引用標記代表來源可回溯，不代表該陳述已被驗證為真。</p></header>"@),
{
    reveal(is_quiet);
    reveal_strlit("<!doctype html><html lang=\"zh-Hant\"><head><meta charset=\"utf-8\"><meta name=\"viewport\" content=\"width=device-width,initial-scale=1\"><title>");
    reveal_strlit("</title><style>");
    reveal_strlit("</style></head><body><header><h1>");
    reveal_strlit("</h1><p class=\"meta\">版本 v");
    reveal_strlit("・涵蓋至事件 ");
    reveal_strlit("・生成於 ");
    reveal_strlit("</p><p class=\"disclaimer\">引用標記代表來源可回溯，不代表該陳述已被驗證為真。</p></header>");
}

// ---------------------------------------------------------------------------
// What a part of the page holds
// ---------------------------------------------------------------------------

/// Whether a part of the page ends with a tag, and holds the sections with these names, so many
/// tables of contents, and the places `anchors` of those that one leads to.
spec fn holds(s: Seq<char>, names: Seq<Seq<char>>, navs: nat, anchors: Seq<Seq<char>>) -> bool {
    &&& is_closed(s)
    &&& is_complete(s, section_mark())
    &&& values(s, section_mark()) == names
    &&& times(s, nav_mark()) == navs
    &&& forall|x: Seq<char>|
        is_target(x) ==> #[trigger] times(s, anchor_mark(x)) == count_in(anchors, x)
}

proof fn lemma_marks_are_inside(x: Seq<char>)
    ensures
        is_inside(section_mark()),
        is_inside(nav_mark()),
        is_inside(link_mark()),
        is_target(x) ==> is_inside(anchor_mark(x)),
{
    reveal_strlit("<section id=\"");
    reveal_strlit("<nav class=\"toc\"");
    reveal_strlit("href=\"#");
    reveal_strlit("id=\"");
    reveal_strlit("\"");
    if is_target(x) {
        let p = anchor_mark(x);
        assert forall|i: int| 0 <= i < p.len() implies #[trigger] p[i] != '>' by {
            if 4 <= i < 4 + x.len() {
                assert(p[i] == x[i - 4]);
            }
        }
    }
}

proof fn lemma_join(
    a: Seq<char>,
    m: Seq<Seq<char>>,
    i: nat,
    x: Seq<Seq<char>>,
    b: Seq<char>,
    n: Seq<Seq<char>>,
    j: nat,
    y: Seq<Seq<char>>,
)
    requires
        holds(a, m, i, x),
        holds(b, n, j, y),
    ensures
        holds(a + b, m + n, i + j, x + y),
{
    lemma_marks_are_inside(Seq::empty());
    lemma_values_add(a, b, section_mark());
    lemma_times_add(a, b, nav_mark());
    assert forall|t: Seq<char>| is_target(t) implies #[trigger] times(a + b, anchor_mark(t))
        == count_in(x + y, t) by {
        lemma_marks_are_inside(t);
        lemma_times_add(a, b, anchor_mark(t));
        lemma_count_add(x, y, t);
    }
}

/// A part that holds nothing after one that holds something.
proof fn lemma_join_quiet(
    a: Seq<char>,
    m: Seq<Seq<char>>,
    i: nat,
    x: Seq<Seq<char>>,
    b: Seq<char>,
)
    requires
        holds(a, m, i, x),
        is_quiet(b),
        is_closed(b),
    ensures
        holds(a + b, m, i, x),
{
    let none = Seq::<Seq<char>>::empty();
    lemma_quiet_holds_nothing(b);
    lemma_join(a, m, i, x, b, none, 0, none);
    assert(m + none =~= m);
    assert(x + none =~= x);
}

proof fn lemma_anchor_at(s: Seq<char>, x: Seq<char>, i: int)
    requires
        is_target(x),
        occurs_at(s, anchor_mark(x), i),
    ensures
        0 <= i,
        i + 5 + x.len() <= s.len(),
        s[i] == 'i',
        s[i + 1] == 'd',
        s[i + 2] == '=',
        s[i + 3] == '"',
        forall|k: int| 0 <= k < x.len() ==> s[i + 4 + k] == #[trigger] x[k],
        s[i + 4 + x.len()] == '"',
{
    reveal_strlit("id=\"");
    reveal_strlit("\"");
    let p = anchor_mark(x);
    let w = s.subrange(i, i + p.len());
    assert(w == p);
    assert(w[0] == s[i] && w[1] == s[i + 1] && w[2] == s[i + 2] && w[3] == s[i + 3]);
    assert(w[4 + x.len() as int] == s[i + 4 + x.len()]);
    assert forall|k: int| 0 <= k < x.len() implies s[i + 4 + k] == #[trigger] x[k] by {
        assert(w[4 + k] == s[i + 4 + k]);
        assert(p[4 + k] == x[k]);
    }
}

proof fn lemma_section_at(s: Seq<char>, i: int)
    requires
        occurs_at(s, section_mark(), i),
    ensures
        0 <= i,
        i + 13 <= s.len(),
        s[i] == '<',
        s[i + 1] == 's',
        s[i + 2] == 'e',
{
    reveal_strlit("<section id=\"");
    let w = s.subrange(i, i + 13);
    assert(w[0] == s[i] && w[1] == s[i + 1] && w[2] == s[i + 2]);
}

proof fn lemma_nav_at(s: Seq<char>, i: int)
    requires
        occurs_at(s, nav_mark(), i),
    ensures
        0 <= i,
        i + 16 <= s.len(),
        s[i] == '<',
        s[i + 1] == 'n',
        s[i + 2] == 'a',
{
    reveal_strlit("<nav class=\"toc\"");
    let w = s.subrange(i, i + 16);
    assert(w[0] == s[i] && w[1] == s[i + 1] && w[2] == s[i + 2]);
}

proof fn lemma_quiet_holds_nothing(s: Seq<char>)
    requires
        is_quiet(s),
        is_closed(s),
    ensures
        holds(s, Seq::empty(), 0, Seq::empty()),
{
    reveal(is_quiet);
    assert forall|i: int| !#[trigger] occurs_at(s, section_mark(), i) by {
        if occurs_at(s, section_mark(), i) {
            lemma_section_at(s, i);
        }
    }
    lemma_never(s, section_mark());
    assert forall|i: int| !#[trigger] occurs_at(s, nav_mark(), i) by {
        if occurs_at(s, nav_mark(), i) {
            lemma_nav_at(s, i);
        }
    }
    lemma_never(s, nav_mark());
    assert forall|x: Seq<char>| is_target(x) implies #[trigger] times(s, anchor_mark(x))
        == count_in(Seq::empty(), x) by {
        assert forall|i: int| !#[trigger] occurs_at(s, anchor_mark(x), i) by {
            if occurs_at(s, anchor_mark(x), i) {
                lemma_anchor_at(s, x, i);
                assert(s[i + 3] == '"');
                assert(s[i + 4] == x[0] && s[i + 5] == x[1]);
            }
        }
        lemma_never(s, anchor_mark(x));
    }
}

/// A tag that names a place names no other.
proof fn lemma_anchor_in_tag(
    pre: Seq<char>,
    name: Seq<char>,
    after: Seq<char>,
    x: Seq<char>,
)
    requires
        is_target(name),
        is_target(x),
        forall|i: int| 0 <= i < pre.len() ==> #[trigger] pre[i] != '"',
        after.len() > 0,
        after[0] == '"',
        is_quiet(after),
    ensures
        times(pre + "id=\""@ + name + after, anchor_mark(x)) == count_in(seq![name], x),
{
    reveal(is_quiet);
    reveal_strlit("id=\"");
    reveal_strlit("\"");
    let s = pre + "id=\""@ + name + after;
    let n = pre.len() as int;
    let p = anchor_mark(x);
    let m = n + 4 + name.len();
    assert forall|i: int| #[trigger] occurs_at(s, p, i) implies i == n && x == name by {
        lemma_anchor_at(s, x, i);
        let q = i + 3;
        if q < n {
            assert(s[q] == pre[q]);
        } else if q < n + 4 {
            assert(s[q] == "id=\""@[q - n]);
        } else if q < m {
            assert(s[q] == name[q - n - 4]);
        } else {
            let k = q - m;
            assert(after[k] == '"');
            assert(s[i + 4] == x[0] && s[i + 5] == x[1]);
            assert(k + 1 < after.len() ==> after[k + 1] == s[i + 4]);
            assert(k + 2 < after.len() ==> after[k + 2] == s[i + 5]);
            if k >= 3 {
                assert(after[k - 3] == s[i] && after[k - 2] == s[i + 1] && after[k - 1] == s[i + 2]);
            }
            assert(false);
        }
        assert(i == n);
        assert(s[n + 4 + x.len()] == '"');
        if x.len() < name.len() {
            assert(s[n + 4 + x.len()] == name[x.len() as int]);
        } else if x.len() > name.len() {
            assert(s[m] == after[0]);
            assert(s[n + 4 + name.len()] == x[name.len() as int]);
        }
        assert forall|k: int| 0 <= k < x.len() implies x[k] == name[k] by {
            assert(s[i + 4 + k] == x[k]);
            assert(s[n + 4 + k] == name[k]);
        }
        assert(x =~= name);
    }
    let none = Seq::<Seq<char>>::empty();
    assert(seq![name].drop_last() =~= none);
    assert(seq![name].last() == name);
    assert(count_in(none, x) == 0);
    if x == name {
        assert(s.subrange(n, n + p.len()) =~= p);
        assert(occurs_at(s, p, n));
        lemma_once(s, p, n);
    } else {
        lemma_never(s, p);
    }
}

/// The beginning of a section holds the section and the place that it names.
proof fn lemma_opening(open: Seq<char>, name: Seq<char>, after: Seq<char>)
    requires
        open == "<section "@ + "id=\""@ + name + after,
        is_target(name),
        after.len() > 0,
        after[0] == '"',
        is_quiet(after),
        is_closed(after),
    ensures
        holds(open, seq![name], 0, seq![name]),
{
    reveal_strlit("<section ");
    reveal_strlit("id=\"");
    reveal_strlit("<section id=\"");
    let m = 13 + name.len();
    assert forall|i: int| 0 < i < m implies open[i] != '<' by {
        if i < 9 {
            assert(open[i] == "<section "@[i]);
        } else if i < 13 {
            assert(open[i] == "id=\""@[i - 9]);
        } else {
            assert(open[i] == name[i - 13]);
        }
    }
    assert forall|i: int| #![trigger open[i]]
        m <= i < open.len() && open[i] == '<' implies i + 2 < open.len() ==> !(
    open[i + 1] == 's' && open[i + 2] == 'e') && !(open[i + 1] == 'n' && open[i + 2] == 'a') by {
        reveal(is_quiet);
        assert(open[i] == after[i - m]);
        if i + 2 < open.len() {
            assert(open[i + 1] == after[i + 1 - m]);
            assert(open[i + 2] == after[i + 2 - m]);
        }
    }
    assert forall|i: int| #[trigger] occurs_at(open, section_mark(), i) implies i == 0 by {
        lemma_section_at(open, i);
    }
    assert(open.subrange(0, 13) =~= section_mark());
    assert(occurs_at(open, section_mark(), 0));
    lemma_once(open, section_mark(), 0);
    let rest = open.skip(13);
    assert(rest =~= name + after);
    assert forall|i: int| 0 <= i < name.len() implies rest[i] != '"' by {
        assert(rest[i] == name[i]);
    }
    assert(rest[name.len() as int] == after[0]);
    lemma_first_index(rest, '"', name.len() as int);
    assert(up_to_quote(rest) =~= name);
    assert(values(open, section_mark()) == seq![name]);
    assert(open[m as int] == '"');
    assert(is_complete(open, section_mark()));
    assert forall|i: int| !#[trigger] occurs_at(open, nav_mark(), i) by {
        if occurs_at(open, nav_mark(), i) {
            lemma_nav_at(open, i);
            assert(open[1] == "<section "@[1]);
        }
    }
    lemma_never(open, nav_mark());
    assert forall|x: Seq<char>| is_target(x) implies #[trigger] times(open, anchor_mark(x))
        == count_in(seq![name], x) by {
        lemma_anchor_in_tag("<section "@, name, after, x);
    }
    assert(open.last() == after.last());
}

// ---------------------------------------------------------------------------
// The parts of the page, one by one
// ---------------------------------------------------------------------------

proof fn lemma_cites_quiet(refs: Seq<SourceRefView>, s: Seq<StoredSegmentView>)
    ensures
        is_quiet(cite_list(refs, s)),
        is_quiet(cites_html(refs, s)),
    decreases refs.len(),
{
    broadcast use {lemma_quiet_concat, lemma_quiet_escaped, lemma_quiet_decimal};

    lemma_quiet_empty();
    lemma_quiet_in_citations();
    if refs.len() > 0 {
        let r = refs.last();
        let stale = is_stale(s, r);
        lemma_cites_quiet(refs.drop_last(), s);
        assert(is_quiet(cite_label(r, stale)));
        assert(is_quiet(cite_html(r, stale)));
    }
}

proof fn lemma_wrapped_quiet(items: Seq<Seq<char>>, open: Seq<char>, close: Seq<char>)
    requires
        is_quiet(open),
        is_quiet(close),
    ensures
        is_quiet(wrapped(items, open, close)),
    decreases items.len(),
{
    broadcast use {lemma_quiet_concat, lemma_quiet_escaped};

    lemma_quiet_empty();
    if items.len() > 0 {
        lemma_wrapped_quiet(items.drop_last(), open, close);
    }
}

proof fn lemma_rows_quiet(rows: Seq<Seq<Seq<char>>>)
    ensures
        is_quiet(rows_html(rows)),
    decreases rows.len(),
{
    broadcast use lemma_quiet_concat;

    lemma_quiet_empty();
    lemma_quiet_in_contents();
    if rows.len() > 0 {
        lemma_rows_quiet(rows.drop_last());
        lemma_wrapped_quiet(rows.last(), "<td>"@, "</td>"@);
    }
}

/// A content brings no place that the table of contents leads to, unless it is a heading that
/// gets one.
proof fn lemma_content_quiet(content: ContentView, anchor: Option<nat>)
    requires
        content matches ContentView::Heading { level, .. } ==> level > 2 || anchor is None,
    ensures
        is_quiet(content_html(content, anchor)),
{
    broadcast use {lemma_quiet_concat, lemma_quiet_escaped, lemma_quiet_decimal};

    lemma_quiet_in_contents();
    lemma_quiet_in_blocks();
    lemma_quiet_in_citations();
    match content {
        ContentView::Bullets { items } => {
            lemma_wrapped_quiet(items, "<li>"@, "</li>"@);
        },
        ContentView::Table { headers, rows } => {
            lemma_wrapped_quiet(headers, "<th>"@, "</th>"@);
            lemma_rows_quiet(rows);
        },
        ContentView::ActionItem { owner, due, .. } => {
            assert(is_quiet(optional_span(owner, "<span class=\"owner\">"@)));
            assert(is_quiet(optional_span(due, "<span class=\"due\">"@)));
            assert(is_quiet(action_meta(owner, due)));
        },
        ContentView::Link { target, .. } => {
            assert(is_quiet(href(target)));
        },
        _ => {},
    }
}

proof fn lemma_words_quiet(kind: BlockKind, claim: ClaimKind)
    ensures
        is_quiet(kind.word()),
        is_quiet(claim.word()),
{
    lemma_quiet_words();
}

proof fn lemma_block_quiet(b: BlockView, anchor: Option<nat>, s: Seq<StoredSegmentView>)
    requires
        b.content matches ContentView::Heading { level, .. } ==> level > 2 || anchor is None,
    ensures
        is_quiet(block_html(b, anchor, s)),
        is_closed(block_html(b, anchor, s)),
{
    broadcast use lemma_quiet_concat;

    lemma_quiet_in_blocks();
    lemma_quiet_in_citations();
    lemma_content_quiet(b.content, anchor);
    lemma_cites_quiet(b.source_refs, s);
    lemma_words_quiet(b.kind, b.claim_kind);
    reveal_strlit("</div>");
}

proof fn lemma_listing_quiet(
    rest: Seq<BlockView>,
    listing: Listing,
    s: Seq<StoredSegmentView>,
)
    ensures
        is_quiet(listing_html(rest, listing, s)),
        is_closed(listing_html(rest, listing, s)),
    decreases rest.len(),
{
    broadcast use lemma_quiet_concat;

    lemma_quiet_empty();
    if rest.len() > 0 {
        lemma_listing_quiet(rest.drop_last(), listing, s);
        lemma_block_quiet(rest.last(), None, s);
        lemma_block_is_shown(rest.last(), None, s);
    }
}

proof fn lemma_segments_quiet(
    transcript: Seq<StoredSegmentView>,
    names: Seq<(Seq<char>, Seq<char>)>,
)
    ensures
        is_quiet(segments_html(transcript, names)),
        is_closed(segments_html(transcript, names)),
        segments_html(transcript, names).len() > 0 <==> transcript.len() > 0,
    decreases transcript.len(),
{
    broadcast use {lemma_quiet_concat, lemma_quiet_escaped, lemma_quiet_decimal};

    lemma_quiet_empty();
    if transcript.len() > 0 {
        lemma_segments_quiet(transcript.drop_last(), names);
        lemma_quiet_in_the_page();
        lemma_quiet_in_citations();
        assert(is_quiet(segment_html(transcript.last(), names)));
        reveal_strlit("</p></div>");
    }
}

/// The name of the place of the heading at `k`.
pub open spec fn heading_name(k: nat) -> Seq<char> {
    "h-"@ + decimal(k)
}

/// The names of the places of the headings that the table of contents leads to.
pub open spec fn heading_names(rest: Seq<BlockView>) -> Seq<Seq<char>>
    decreases rest.len(),
{
    if rest.len() == 0 {
        Seq::empty()
    } else {
        let before = heading_names(rest.drop_last());
        if is_anchored(rest.last()) {
            before.push(heading_name((rest.len() - 1) as nat))
        } else {
            before
        }
    }
}

proof fn lemma_heading_name(k: nat)
    ensures
        is_target(heading_name(k)),
{
    reveal_strlit("h-");
    decimal_reads_back(k);
    let x = heading_name(k);
    assert forall|i: int| 0 <= i < x.len() implies #[trigger] x[i] != '"' && x[i] != '<' && x[i]
        != '>' && x[i] != '=' by {
        if i >= 2 {
            assert(x[i] == decimal(k)[i - 2]);
            assert(is_digit(decimal(k)[i - 2]));
        }
    }
}

/// The beginning of a heading that names its place.
spec fn heading_open(level: u8, k: nat) -> Seq<char> {
    "<h"@ + decimal(heading_rank(level)) + " "@ + "id=\""@ + heading_name(k) + "\">"@
}

proof fn lemma_heading_open(level: u8, k: nat)
    ensures
        holds(heading_open(level, k), Seq::empty(), 0, seq![heading_name(k)]),
{
    reveal_strlit("<h");
    reveal_strlit(" ");
    reveal_strlit("id=\"");
    reveal_strlit("\">");
    let rank = decimal(heading_rank(level));
    let name = heading_name(k);
    let pre = "<h"@ + rank + " "@;
    let open = heading_open(level, k);
    decimal_reads_back(heading_rank(level));
    lemma_heading_name(k);
    lemma_quiet_in_citations();
    assert forall|i: int| 0 <= i < pre.len() implies #[trigger] pre[i] != '"' && (i > 0 ==> pre[i]
        != '<') by {
        if 2 <= i < pre.len() - 1 {
            assert(pre[i] == rank[i - 2]);
            assert(is_digit(rank[i - 2]));
        }
    }
    assert forall|i: int| 0 < i < open.len() implies #[trigger] open[i] != '<' by {
        let n = pre.len() as int;
        if i < n {
            assert(open[i] == pre[i]);
        } else if i < n + 4 {
            assert(open[i] == "id=\""@[i - n]);
        } else if i < n + 4 + name.len() {
            assert(open[i] == name[i - n - 4]);
        } else {
            assert(open[i] == "\">"@[i - n - 4 - name.len()]);
        }
    }
    assert(open[1] == "<h"@[1]);
    assert forall|i: int| !#[trigger] occurs_at(open, section_mark(), i) by {
        if occurs_at(open, section_mark(), i) {
            lemma_section_at(open, i);
        }
    }
    lemma_never(open, section_mark());
    assert forall|i: int| !#[trigger] occurs_at(open, nav_mark(), i) by {
        if occurs_at(open, nav_mark(), i) {
            lemma_nav_at(open, i);
        }
    }
    lemma_never(open, nav_mark());
    assert forall|x: Seq<char>| is_target(x) implies #[trigger] times(open, anchor_mark(x))
        == count_in(seq![name], x) by {
        lemma_anchor_in_tag(pre, name, "\">"@, x);
    }
}

proof fn lemma_anchored_block(b: BlockView, k: nat, s: Seq<StoredSegmentView>)
    requires
        is_anchored(b),
    ensures
        holds(block_html(b, Some(k), s), Seq::empty(), 0, seq![heading_name(k)]),
{
    broadcast use {lemma_quiet_concat, lemma_quiet_escaped, lemma_quiet_decimal};

    let none = Seq::<Seq<char>>::empty();
    lemma_quiet_in_blocks();
    lemma_quiet_in_contents();
    lemma_quiet_in_citations();
    lemma_words_quiet(b.kind, b.claim_kind);
    lemma_cites_quiet(b.source_refs, s);
    match b.content {
        ContentView::Heading { level, text } => {
            let rank = decimal(heading_rank(level));
            let first = "<div class=\"blk\" data-kind=\""@ + b.kind.word() + "\" data-claim=\""@
                + b.claim_kind.word() + "\">"@;
            let open = heading_open(level, k);
            let inner = escaped(text) + "</h"@ + rank + ">"@;
            let last = inner + cites_html(b.source_refs, s) + "</div>"@;
            let html = block_html(b, Some(k), s);
            assert(html =~= first + open + last) by {
                reveal_strlit(" id=\"h-");
                reveal_strlit(" ");
                reveal_strlit("id=\"");
                reveal_strlit("h-");
                reveal_strlit("\"");
                reveal_strlit(">");
                reveal_strlit("\">");
                assert(" id=\"h-"@ =~= " "@ + "id=\""@ + "h-"@);
                assert("\">"@ =~= "\""@ + ">"@);
                let tag = "<h"@ + rank + heading_anchor(level, Some(k)) + ">"@;
                assert(tag =~= open);
                assert(content_html(b.content, Some(k)) =~= tag + inner);
            }
            reveal_strlit("\">");
            reveal_strlit("</div>");
            assert(is_quiet(first));
            assert(is_quiet(last));
            lemma_quiet_holds_nothing(first);
            lemma_heading_open(level, k);
            lemma_join(first, none, 0, none, open, none, 0, seq![heading_name(k)]);
            assert(none + none =~= none);
            assert(none + seq![heading_name(k)] =~= seq![heading_name(k)]);
            lemma_join_quiet(first + open, none, 0, seq![heading_name(k)], last);
        },
        _ => {},
    }
}

proof fn lemma_body_holds(rest: Seq<BlockView>, s: Seq<StoredSegmentView>)
    ensures
        holds(body_html(rest, s), Seq::empty(), 0, heading_names(rest)),
    decreases rest.len(),
{
    let none = Seq::<Seq<char>>::empty();
    if rest.len() == 0 {
        lemma_quiet_empty();
        lemma_quiet_holds_nothing(Seq::empty());
    } else {
        let front = rest.drop_last();
        let b = rest.last();
        let k = (rest.len() - 1) as nat;
        lemma_body_holds(front, s);
        if is_anchored(b) {
            lemma_anchored_block(b, k, s);
            lemma_join(
                body_html(front, s),
                none,
                0,
                heading_names(front),
                block_html(b, Some(k), s),
                none,
                0,
                seq![heading_name(k)],
            );
            assert(none + none =~= none);
            assert(heading_names(front) + seq![heading_name(k)] =~= heading_names(rest));
        } else if section(b) is Body {
            lemma_block_quiet(b, Some(k), s);
            lemma_join_quiet(
                body_html(front, s),
                none,
                0,
                heading_names(front),
                block_html(b, Some(k), s),
            );
        }
    }
}

// ---------------------------------------------------------------------------
// Sections
// ---------------------------------------------------------------------------

proof fn lemma_section_holds(
    open: Seq<char>,
    name: Seq<char>,
    after: Seq<char>,
    inner: Seq<char>,
    anchors: Seq<Seq<char>>,
)
    requires
        open == "<section "@ + "id=\""@ + name + after,
        is_target(name),
        after.len() > 0,
        after[0] == '"',
        is_quiet(after),
        is_closed(after),
        holds(inner, Seq::empty(), 0, anchors),
    ensures
        holds(open + inner + "</section>"@, seq![name], 0, seq![name] + anchors),
{
    let none = Seq::<Seq<char>>::empty();
    lemma_opening(open, name, after);
    lemma_join(open, seq![name], 0, seq![name], inner, none, 0, anchors);
    assert(seq![name] + none =~= seq![name]);
    lemma_quiet_in_the_page();
    reveal_strlit("</section>");
    lemma_join_quiet(open + inner, seq![name], 0, seq![name] + anchors, "</section>"@);
}

proof fn lemma_openings()
    ensures
        "<section id=\"s-summary\" class=\"tldr\"><h2>成果摘要</h2><p>"@ == "<section "@ + "id=\""@
            + "s-summary"@ + "\" class=\"tldr\"><h2>成果摘要</h2><p>"@,
        "<section id=\"s-body\">"@ == "<section "@ + "id=\""@ + "s-body"@ + "\">"@,
        "<section id=\"s-decisions\"><h2>決議與行動項目</h2>"@ == "<section "@ + "id=\""@
            + "s-decisions"@ + "\"><h2>決議與行動項目</h2>"@,
        "<section id=\"s-open\" class=\"aside-claims\"><h2>缺口與建議</h2>"@ == "<section "@
            + "id=\""@ + "s-open"@ + "\" class=\"aside-claims\"><h2>缺口與建議</h2>"@,
        "<section id=\"s-transcript\" class=\"transcript\"><h2>逐字稿</h2>"@ == "<section "@
            + "id=\""@ + "s-transcript"@ + "\" class=\"transcript\"><h2>逐字稿</h2>"@,
{
    reveal_strlit("<section ");
    reveal_strlit("id=\"");
    reveal_strlit("<section id=\"s-summary\" class=\"tldr\"><h2>成果摘要</h2><p>");
    reveal_strlit("s-summary");
    reveal_strlit("\" class=\"tldr\"><h2>成果摘要</h2><p>");
    reveal_strlit("<section id=\"s-body\">");
    reveal_strlit("s-body");
    reveal_strlit("\">");
    reveal_strlit("<section id=\"s-decisions\"><h2>決議與行動項目</h2>");
    reveal_strlit("s-decisions");
    reveal_strlit("\"><h2>決議與行動項目</h2>");
    reveal_strlit("<section id=\"s-open\" class=\"aside-claims\"><h2>缺口與建議</h2>");
    reveal_strlit("s-open");
    reveal_strlit("\" class=\"aside-claims\"><h2>缺口與建議</h2>");
    reveal_strlit("<section id=\"s-transcript\" class=\"transcript\"><h2>逐字稿</h2>");
    reveal_strlit("s-transcript");
    reveal_strlit("\" class=\"transcript\"><h2>逐字稿</h2>");
    assert("<section id=\"s-summary\" class=\"tldr\"><h2>成果摘要</h2><p>"@ =~= "<section "@
        + "id=\""@ + "s-summary"@ + "\" class=\"tldr\"><h2>成果摘要</h2><p>"@);
    assert("<section id=\"s-body\">"@ =~= "<section "@ + "id=\""@ + "s-body"@ + "\">"@);
    assert("<section id=\"s-decisions\"><h2>決議與行動項目</h2>"@ =~= "<section "@ + "id=\""@
        + "s-decisions"@ + "\"><h2>決議與行動項目</h2>"@);
    assert("<section id=\"s-open\" class=\"aside-claims\"><h2>缺口與建議</h2>"@ =~= "<section "@
        + "id=\""@ + "s-open"@ + "\" class=\"aside-claims\"><h2>缺口與建議</h2>"@);
    assert("<section id=\"s-transcript\" class=\"transcript\"><h2>逐字稿</h2>"@ =~= "<section "@
        + "id=\""@ + "s-transcript"@ + "\" class=\"transcript\"><h2>逐字稿</h2>"@);
}

proof fn lemma_opening_ends()
    ensures
        is_quiet("\" class=\"tldr\"><h2>成果摘要</h2><p>"@),
        is_quiet("\"><h2>決議與行動項目</h2>"@),
        is_quiet("\" class=\"aside-claims\"><h2>缺口與建議</h2>"@),
        is_quiet("\" class=\"transcript\"><h2>逐字稿</h2>"@),
        is_quiet("\">"@),
        "\" class=\"tldr\"><h2>成果摘要</h2><p>"@[0] == '"',
        "\"><h2>決議與行動項目</h2>"@[0] == '"',
        "\" class=\"aside-claims\"><h2>缺口與建議</h2>"@[0] == '"',
        "\" class=\"transcript\"><h2>逐字稿</h2>"@[0] == '"',
        "\">"@[0] == '"',
        "\" class=\"tldr\"><h2>成果摘要</h2><p>"@.last() == '>',
        "\"><h2>決議與行動項目</h2>"@.last() == '>',
        "\" class=\"aside-claims\"><h2>缺口與建議</h2>"@.last() == '>',
        "\" class=\"transcript\"><h2>逐字稿</h2>"@.last() == '>',
        "\">"@.last() == '>',
        "\" class=\"tldr\"><h2>成果摘要</h2><p>"@.len() > 0,
        "\"><h2>決議與行動項目</h2>"@.len() > 0,
        "\" class=\"aside-claims\"><h2>缺口與建議</h2>"@.len() > 0,
        "\" class=\"transcript\"><h2>逐字稿</h2>"@.len() > 0,
        "\">"@.len() > 0,
{
    reveal(is_quiet);
    reveal_strlit("\" class=\"tldr\"><h2>成果摘要</h2><p>");
    reveal_strlit("\"><h2>決議與行動項目</h2>");
    reveal_strlit("\" class=\"aside-claims\"><h2>缺口與建議</h2>");
    reveal_strlit("\" class=\"transcript\"><h2>逐字稿</h2>");
    reveal_strlit("\">");
}

proof fn lemma_section_names()
    ensures
        is_target("s-summary"@),
        is_target("s-body"@),
        is_target("s-decisions"@),
        is_target("s-open"@),
        is_target("s-transcript"@),
        "s-summary"@.len() == 9 && "s-body"@.len() == 6 && "s-decisions"@.len() == 11
            && "s-open"@.len() == 6 && "s-transcript"@.len() == 12,
        "s-body"@ != "s-open"@,
{
    reveal_strlit("s-summary");
    reveal_strlit("s-body");
    reveal_strlit("s-decisions");
    reveal_strlit("s-open");
    reveal_strlit("s-transcript");
    assert("s-body"@[2] == 'b' && "s-open"@[2] == 'o');
}

/// A name, or none.
pub open spec fn name_if(shown: bool, name: Seq<char>) -> Seq<Seq<char>> {
    if shown {
        seq![name]
    } else {
        Seq::empty()
    }
}

/// Whether one of the blocks belongs to a part of the page.
pub open spec fn has_part(rest: Seq<BlockView>, part: Section) -> bool {
    exists|i: int| 0 <= i < rest.len() && section(#[trigger] rest[i]) == part
}

/// Whether one of the blocks is a summary.
pub open spec fn has_summary(blocks: Seq<BlockView>) -> bool {
    exists|i: int| 0 <= i < blocks.len() && sums_up(#[trigger] blocks[i])
}

/// The names of the sections that a page has, in their order: the summary, the main part,
/// decisions and action items, gaps and suggestions, and the transcript, each where there is
/// something to show in it.
pub open spec fn section_names(
    blocks: Seq<BlockView>,
    transcript: Seq<StoredSegmentView>,
) -> Seq<Seq<char>> {
    let rest = without_summary(blocks);
    name_if(has_summary(blocks), "s-summary"@) + name_if(
        has_part(rest, Section::Body),
        "s-body"@,
    ) + name_if(has_part(rest, Section::Decisions), "s-decisions"@) + name_if(
        has_part(rest, Section::Open),
        "s-open"@,
    ) + name_if(transcript.len() > 0, "s-transcript"@)
}

/// The names of the places that the table of contents leads to: the sections, and in the main
/// part the headings down to the second level.
pub open spec fn link_targets(
    blocks: Seq<BlockView>,
    transcript: Seq<StoredSegmentView>,
) -> Seq<Seq<char>> {
    let rest = without_summary(blocks);
    name_if(has_summary(blocks), "s-summary"@) + (name_if(
        has_part(rest, Section::Body),
        "s-body"@,
    ) + heading_names(rest)) + name_if(
        has_part(rest, Section::Decisions),
        "s-decisions"@,
    ) + name_if(has_part(rest, Section::Open), "s-open"@) + name_if(
        transcript.len() > 0,
        "s-transcript"@,
    )
}

proof fn lemma_headings_are_in_the_body(rest: Seq<BlockView>)
    requires
        !has_part(rest, Section::Body),
    ensures
        heading_names(rest) == Seq::<Seq<char>>::empty(),
    decreases rest.len(),
{
    if rest.len() > 0 {
        let front = rest.drop_last();
        if has_part(front, Section::Body) {
            let i = choose|i: int|
                0 <= i < front.len() && section(#[trigger] front[i])
                    == Section::Body;
            assert(section(rest[i]) == Section::Body);
        }
        lemma_headings_are_in_the_body(front);
        assert(!(section(rest[rest.len() - 1]) is Body));
    }
}

/// What there is of each part of the page, by its blocks.
proof fn lemma_parts(blocks: Seq<BlockView>, s: Seq<StoredSegmentView>)
    ensures
        ({
            let rest = without_summary(blocks);
            &&& summary_html(blocks, s).len() > 0 <==> has_summary(blocks)
            &&& body_html(rest, s).len() > 0 <==> has_part(rest, Section::Body)
            &&& listing_html(rest, Listing::Decisions, s).len() > 0 || listing_html(
                rest,
                Listing::Actions,
                s,
            ).len() > 0 <==> has_part(rest, Section::Decisions)
            &&& listing_html(rest, Listing::Open, s).len() > 0 <==> has_part(
                rest,
                Section::Open,
            )
        }),
{
    let rest = without_summary(blocks);
    parts_appear_with_their_blocks(blocks, s);
    if has_part(rest, Section::Body) {
        let i = choose|i: int|
            0 <= i < rest.len() && section(#[trigger] rest[i]) == Section::Body;
        assert(section(rest[i]) is Body);
    }
    if body_html(rest, s).len() > 0 {
        let i = choose|i: int| 0 <= i < rest.len() && section(#[trigger] rest[i]) is Body;
        assert(section(rest[i]) == Section::Body);
    }
    if has_part(rest, Section::Decisions) {
        let i = choose|i: int|
            0 <= i < rest.len() && section(#[trigger] rest[i]) == Section::Decisions;
        assert(is_listed(rest[i], Listing::Decisions) || is_listed(rest[i], Listing::Actions));
    }
    if listing_html(rest, Listing::Decisions, s).len() > 0 {
        let i = choose|i: int|
            0 <= i < rest.len() && is_listed(#[trigger] rest[i], Listing::Decisions);
        assert(section(rest[i]) == Section::Decisions);
    }
    if listing_html(rest, Listing::Actions, s).len() > 0 {
        let i = choose|i: int|
            0 <= i < rest.len() && is_listed(#[trigger] rest[i], Listing::Actions);
        assert(section(rest[i]) == Section::Decisions);
    }
    if has_part(rest, Section::Open) {
        let i = choose|i: int|
            0 <= i < rest.len() && section(#[trigger] rest[i]) == Section::Open;
        assert(is_listed(rest[i], Listing::Open));
    }
    if listing_html(rest, Listing::Open, s).len() > 0 {
        let i = choose|i: int| 0 <= i < rest.len() && is_listed(#[trigger] rest[i], Listing::Open);
        assert(section(rest[i]) == Section::Open);
    }
}

proof fn lemma_nothing_holds_nothing()
    ensures
        holds(""@, Seq::empty(), 0, Seq::empty()),
        holds(Seq::empty(), Seq::empty(), 0, Seq::empty()),
{
    reveal_strlit("");
    lemma_quiet_empty();
    lemma_quiet_in_contents();
    lemma_quiet_holds_nothing(""@);
    lemma_quiet_holds_nothing(Seq::empty());
}

proof fn lemma_summary_holds(blocks: Seq<BlockView>, s: Seq<StoredSegmentView>)
    ensures
        ({
            let names = name_if(has_summary(blocks), "s-summary"@);
            holds(summary_html(blocks, s), names, 0, names)
        }),
{
    broadcast use {lemma_quiet_concat, lemma_quiet_escaped};

    lemma_nothing_holds_nothing();
    lemma_summary_found(blocks);
    let at = summary_at(blocks);
    if at < blocks.len() {
        assert(sums_up(blocks[at]));
        match blocks[at].content {
            ContentView::Callout { body, .. } => {
                let cites = cites_html(blocks[at].source_refs, s);
                let open = "<section id=\"s-summary\" class=\"tldr\"><h2>成果摘要</h2><p>"@;
                let inner = escaped(body) + "</p>"@ + cites;
                lemma_cites_quiet(blocks[at].source_refs, s);
                lemma_quiet_in_contents();
                lemma_quiet_in_the_page();
                lemma_openings();
                lemma_opening_ends();
                lemma_section_names();
                let name = "s-summary"@;
                let rest = inner + "</section>"@;
                reveal_strlit("</section>");
                lemma_opening(open, name, "\" class=\"tldr\"><h2>成果摘要</h2><p>"@);
                assert(is_quiet(rest));
                lemma_join_quiet(open, seq![name], 0, seq![name], rest);
                assert(summary_html(blocks, s) =~= open + rest);
            },
            _ => {},
        }
    }
}

proof fn lemma_body_section_holds(rest: Seq<BlockView>, s: Seq<StoredSegmentView>)
    requires
        body_html(rest, s).len() > 0 <==> has_part(rest, Section::Body),
    ensures
        ({
            let names = name_if(has_part(rest, Section::Body), "s-body"@);
            holds(
                framed("<section id=\"s-body\">"@, body_html(rest, s), "</section>"@),
                names,
                0,
                names + heading_names(rest),
            )
        }),
{
    lemma_nothing_holds_nothing();
    lemma_body_holds(rest, s);
    lemma_openings();
    lemma_opening_ends();
    lemma_section_names();
    let none = Seq::<Seq<char>>::empty();
    if has_part(rest, Section::Body) {
        lemma_section_holds(
            "<section id=\"s-body\">"@,
            "s-body"@,
            "\">"@,
            body_html(rest, s),
            heading_names(rest),
        );
    } else {
        lemma_headings_are_in_the_body(rest);
        assert(none + heading_names(rest) =~= none);
    }
}

proof fn lemma_quiet_section_holds(
    open: Seq<char>,
    name: Seq<char>,
    after: Seq<char>,
    inner: Seq<char>,
)
    requires
        open == "<section "@ + "id=\""@ + name + after,
        is_target(name),
        after.len() > 0,
        after[0] == '"',
        is_quiet(after),
        is_closed(after),
        is_quiet(inner),
        is_closed(inner),
    ensures
        holds(open + inner + "</section>"@, seq![name], 0, seq![name]),
        holds(
            framed(open, inner, "</section>"@),
            name_if(inner.len() > 0, name),
            0,
            name_if(inner.len() > 0, name),
        ),
{
    lemma_nothing_holds_nothing();
    lemma_quiet_holds_nothing(inner);
    lemma_section_holds(open, name, after, inner, Seq::empty());
    assert(seq![name] + Seq::<Seq<char>>::empty() =~= seq![name]);
}

proof fn lemma_decisions_hold(decisions: Seq<char>, actions: Seq<char>)
    requires
        is_quiet(decisions),
        is_closed(decisions),
        is_quiet(actions),
        is_closed(actions),
    ensures
        ({
            let names = name_if(decisions.len() > 0 || actions.len() > 0, "s-decisions"@);
            holds(decisions_section(decisions, actions), names, 0, names)
        }),
{
    broadcast use lemma_quiet_concat;

    lemma_nothing_holds_nothing();
    lemma_openings();
    lemma_opening_ends();
    lemma_section_names();
    lemma_quiet_in_the_page();
    lemma_quiet_in_contents();
    reveal_strlit("");
    reveal_strlit("<h3>決議</h3>");
    reveal_strlit("<h3>行動項目</h3>");
    let open = "<section id=\"s-decisions\"><h2>決議與行動項目</h2>"@;
    let first = framed("<h3>決議</h3>"@, decisions, ""@);
    let second = framed("<h3>行動項目</h3>"@, actions, ""@);
    assert(is_quiet(first) && is_quiet(second));
    assert(is_closed(first)) by {
        if decisions.len() > 0 {
            assert(first.last() == decisions.last());
        }
    }
    assert(is_closed(second)) by {
        if actions.len() > 0 {
            assert(second.last() == actions.last());
        }
    }
    let inner = first + second;
    assert(is_closed(inner)) by {
        if second.len() > 0 {
            assert(inner.last() == second.last());
        } else if first.len() > 0 {
            assert(inner.last() == first.last());
        }
    }
    lemma_quiet_section_holds(open, "s-decisions"@, "\"><h2>決議與行動項目</h2>"@, inner);
    if decisions.len() > 0 || actions.len() > 0 {
        assert(decisions_section(decisions, actions) =~= open + inner + "</section>"@);
    }
}

proof fn lemma_main_holds(blocks: Seq<BlockView>, s: Seq<StoredSegmentView>)
    ensures
        ({
            let rest = without_summary(blocks);
            let first = name_if(has_summary(blocks), "s-summary"@);
            let second = name_if(has_part(rest, Section::Body), "s-body"@);
            let third = name_if(has_part(rest, Section::Decisions), "s-decisions"@);
            let fourth = name_if(has_part(rest, Section::Open), "s-open"@);
            holds(
                main_html(blocks, s),
                first + second + third + fourth,
                0,
                first + (second + heading_names(rest)) + third + fourth,
            )
        }),
{
    let rest = without_summary(blocks);
    let first = name_if(has_summary(blocks), "s-summary"@);
    let second = name_if(has_part(rest, Section::Body), "s-body"@);
    let third = name_if(has_part(rest, Section::Decisions), "s-decisions"@);
    let fourth = name_if(has_part(rest, Section::Open), "s-open"@);
    lemma_parts(blocks, s);
    let a = summary_html(blocks, s);
    let b = framed("<section id=\"s-body\">"@, body_html(rest, s), "</section>"@);
    let decisions = listing_html(rest, Listing::Decisions, s);
    let actions = listing_html(rest, Listing::Actions, s);
    let c = decisions_section(decisions, actions);
    let open = listing_html(rest, Listing::Open, s);
    let d = framed(
        "<section id=\"s-open\" class=\"aside-claims\"><h2>缺口與建議</h2>"@,
        open,
        "</section>"@,
    );
    lemma_summary_holds(blocks, s);
    lemma_body_section_holds(rest, s);
    lemma_listing_quiet(rest, Listing::Decisions, s);
    lemma_listing_quiet(rest, Listing::Actions, s);
    lemma_listing_quiet(rest, Listing::Open, s);
    lemma_decisions_hold(decisions, actions);
    lemma_openings();
    lemma_opening_ends();
    lemma_section_names();
    lemma_quiet_section_holds(
        "<section id=\"s-open\" class=\"aside-claims\"><h2>缺口與建議</h2>"@,
        "s-open"@,
        "\" class=\"aside-claims\"><h2>缺口與建議</h2>"@,
        open,
    );
    let body = second + heading_names(rest);
    lemma_join(a, first, 0, first, b, second, 0, body);
    lemma_join(a + b, first + second, 0, first + body, c, third, 0, third);
    lemma_join(
        a + b + c,
        first + second + third,
        0,
        first + body + third,
        d,
        fourth,
        0,
        fourth,
    );
}

proof fn lemma_transcript_holds(
    s: Seq<StoredSegmentView>,
    names: Seq<(Seq<char>, Seq<char>)>,
)
    ensures
        ({
            let shown = name_if(s.len() > 0, "s-transcript"@);
            holds(transcript_html(s, names), shown, 0, shown)
        }),
{
    lemma_segments_quiet(s, names);
    lemma_openings();
    lemma_opening_ends();
    lemma_section_names();
    lemma_quiet_section_holds(
        "<section id=\"s-transcript\" class=\"transcript\"><h2>逐字稿</h2>"@,
        "s-transcript"@,
        "\" class=\"transcript\"><h2>逐字稿</h2>"@,
        segments_html(s, names),
    );
}

// ---------------------------------------------------------------------------
// The table of contents
// ---------------------------------------------------------------------------

/// Where the entries of a table of contents lead.
pub open spec fn entry_targets(entries: Seq<TocEntryView>) -> Seq<Seq<char>> {
    Seq::new(entries.len(), |i: int| entries[i].href)
}

spec fn all_targets(names: Seq<Seq<char>>) -> bool {
    forall|i: int| 0 <= i < names.len() ==> is_target(#[trigger] names[i])
}

proof fn lemma_target_quiet(x: Seq<char>)
    requires
        is_target(x),
    ensures
        is_quiet(x),
{
    lemma_quiet_without_marks(x);
}

proof fn lemma_entry(e: TocEntryView)
    requires
        is_target(e.href),
    ensures
        is_quiet(entry_html(e)),
        is_closed(entry_html(e)),
        entry_html(e).len() > 0,
        is_complete(entry_html(e), link_mark()),
        values(entry_html(e), link_mark()) == seq![e.href],
{
    lemma_entry_quiet(e);
    reveal_strlit("<li");
    reveal_strlit(" class=\"sub\"");
    reveal_strlit("");
    reveal_strlit("><a href=\"#");
    reveal_strlit("href=\"#");
    reveal_strlit("\">");
    reveal_strlit("</a></li>");
    let html = entry_html(e);
    let class = if e.sub {
        " class=\"sub\""@
    } else {
        ""@
    };
    let start = "<li"@ + class + "><a href=\"#"@;
    let label = escaped(e.label);
    let end = "\">"@ + label + "</a></li>"@;
    assert(html =~= start + e.href + end);
    let n = start.len() as int;
    let m = n + e.href.len();
    let mark = link_mark();
    assert forall|i: int| #[trigger] occurs_at(html, mark, i) implies i == n - 7 by {
        let w = html.subrange(i, i + 7);
        assert(w == mark);
        assert(w[5] == html[i + 5] && w[6] == html[i + 6]);
        assert(mark[5] == '"' && mark[6] == '#');
        let q = i + 5;
        if q < n {
            assert(html[q] == start[q]);
            if q + 1 < n {
                assert(html[q + 1] == start[q + 1]);
            }
            assert(q == n - 2);
        } else if q < m {
            assert(html[q] == e.href[q - n]);
        } else {
            assert(html[q] == end[q - m]);
            assert(html[q + 1] == end[q + 1 - m]);
            if q - m >= 2 {
                if q - m < 2 + label.len() {
                    assert(end[q - m] == label[q - m - 2]);
                    escaped_text_has_no_marks(e.label, q - m - 2);
                } else {
                    assert(end[q - m] == "</a></li>"@[q - m - 2 - label.len()]);
                }
            }
        }
    }
    assert(html.subrange(n - 7, n) =~= mark) by {
        assert(html.subrange(n - 7, n) =~= start.subrange(n - 7, n));
    }
    assert(occurs_at(html, mark, n - 7));
    lemma_once(html, mark, n - 7);
    let rest = html.skip(n);
    assert(rest =~= e.href + end);
    assert forall|i: int| 0 <= i < e.href.len() implies rest[i] != '"' by {
        assert(rest[i] == e.href[i]);
    }
    lemma_first_index(rest, '"', e.href.len() as int);
    assert(up_to_quote(rest) =~= e.href);
    assert(html[m] == '"');
}

proof fn lemma_entry_quiet(e: TocEntryView)
    requires
        is_target(e.href),
    ensures
        is_quiet(entry_html(e)),
        is_closed(entry_html(e)),
{
    broadcast use {lemma_quiet_concat, lemma_quiet_escaped};

    lemma_quiet_in_the_page();
    lemma_quiet_in_citations();
    lemma_quiet_in_contents();
    lemma_target_quiet(e.href);
    reveal_strlit("</a></li>");
}

proof fn lemma_entries(entries: Seq<TocEntryView>)
    requires
        all_targets(entry_targets(entries)),
    ensures
        is_quiet(entries_html(entries)),
        is_closed(entries_html(entries)),
        is_complete(entries_html(entries), link_mark()),
        values(entries_html(entries), link_mark()) == entry_targets(entries),
    decreases entries.len(),
{
    broadcast use lemma_quiet_concat;

    lemma_quiet_empty();
    lemma_marks_are_inside(Seq::empty());
    if entries.len() == 0 {
        let none = Seq::<char>::empty();
        assert forall|i: int| !#[trigger] occurs_at(none, link_mark(), i) by {
            reveal_strlit("href=\"#");
        }
        lemma_never(none, link_mark());
        assert(entry_targets(entries) =~= Seq::empty());
    } else {
        let front = entries.drop_last();
        let e = entries.last();
        assert(all_targets(entry_targets(front))) by {
            assert forall|i: int| 0 <= i < front.len() implies is_target(
                #[trigger] entry_targets(front)[i],
            ) by {
                assert(is_target(entry_targets(entries)[i]));
            }
        }
        assert(is_target(entry_targets(entries)[entries.len() - 1]));
        lemma_entries(front);
        lemma_entry(e);
        lemma_values_add(entries_html(front), entry_html(e), link_mark());
        assert(entry_targets(entries) =~= entry_targets(front) + seq![e.href]);
    }
}

/// The beginning of the table of contents.
spec fn nav_open() -> Seq<char> {
    "<nav class=\"toc\" aria-label=\"目錄\"><ul>"@
}

proof fn lemma_nav_open()
    ensures
        holds(nav_open(), Seq::empty(), 1, Seq::empty()),
        is_complete(nav_open(), link_mark()),
        values(nav_open(), link_mark()) == Seq::<Seq<char>>::empty(),
{
    reveal_strlit("<nav class=\"toc\" aria-label=\"目錄\"><ul>");
    reveal_strlit("<nav class=\"toc\"");
    reveal_strlit("href=\"#");
    let s = nav_open();
    let none = Seq::<Seq<char>>::empty();
    assert forall|i: int| !#[trigger] occurs_at(s, section_mark(), i) by {
        if occurs_at(s, section_mark(), i) {
            lemma_section_at(s, i);
        }
    }
    lemma_never(s, section_mark());
    assert forall|i: int| #[trigger] occurs_at(s, nav_mark(), i) implies i == 0 by {
        lemma_nav_at(s, i);
    }
    assert(s.subrange(0, 16) =~= nav_mark());
    assert(occurs_at(s, nav_mark(), 0));
    lemma_once(s, nav_mark(), 0);
    assert forall|x: Seq<char>| is_target(x) implies #[trigger] times(s, anchor_mark(x))
        == count_in(none, x) by {
        assert forall|i: int| !#[trigger] occurs_at(s, anchor_mark(x), i) by {
            if occurs_at(s, anchor_mark(x), i) {
                lemma_anchor_at(s, x, i);
            }
        }
        lemma_never(s, anchor_mark(x));
    }
    assert forall|i: int| !#[trigger] occurs_at(s, link_mark(), i) by {
        if occurs_at(s, link_mark(), i) {
            let w = s.subrange(i, i + 7);
            assert(w == link_mark());
            assert(w[5] == s[i + 5] && w[6] == s[i + 6]);
            assert(link_mark()[5] == '"' && link_mark()[6] == '#');
        }
    }
    lemma_never(s, link_mark());
}

proof fn lemma_nav(entries: Seq<TocEntryView>)
    requires
        all_targets(entry_targets(entries)),
    ensures
        holds(
            nav_html(entries),
            Seq::empty(),
            if entries.len() > 1 {
                1
            } else {
                0
            },
            Seq::empty(),
        ),
        entries.len() > 1 ==> values(nav_html(entries), link_mark()) == entry_targets(entries),
{
    let none = Seq::<Seq<char>>::empty();
    lemma_nothing_holds_nothing();
    if entries.len() > 1 {
        let (open, list, close) = (nav_open(), entries_html(entries), "</ul></nav>"@);
        lemma_nav_open();
        lemma_entries(entries);
        lemma_quiet_in_the_page();
        reveal_strlit("</ul></nav>");
        lemma_join_quiet(open, none, 1, none, list);
        lemma_join_quiet(open + list, none, 1, none, close);
        lemma_marks_are_inside(Seq::empty());
        lemma_values_add(open, list, link_mark());
        lemma_values_add(open + list, close, link_mark());
        assert forall|i: int| !#[trigger] occurs_at(close, link_mark(), i) by {
            reveal_strlit("href=\"#");
            if occurs_at(close, link_mark(), i) {
                let w = close.subrange(i, i + 7);
                assert(w == link_mark());
                assert(w[5] == close[i + 5]);
                assert(link_mark()[5] == '"');
            }
        }
        lemma_never(close, link_mark());
        assert(none + entry_targets(entries) + none =~= entry_targets(entries));
    }
}

proof fn lemma_heading_targets(rest: Seq<BlockView>)
    ensures
        entry_targets(heading_entries(rest)) == heading_names(rest),
    decreases rest.len(),
{
    if rest.len() == 0 {
        assert(entry_targets(heading_entries(rest)) =~= heading_names(rest));
    } else {
        lemma_heading_targets(rest.drop_last());
        assert(entry_targets(heading_entries(rest)) =~= heading_names(rest));
    }
}

proof fn lemma_entry_targets_add(a: Seq<TocEntryView>, b: Seq<TocEntryView>)
    ensures
        entry_targets(a + b) == entry_targets(a) + entry_targets(b),
{
    assert(entry_targets(a + b) =~= entry_targets(a) + entry_targets(b));
}

proof fn lemma_entry_if(shown: bool, href: Seq<char>, label: Seq<char>)
    ensures
        entry_targets(entry_if(shown, href, label)) == name_if(shown, href),
{
    assert(entry_targets(entry_if(shown, href, label)) =~= name_if(shown, href));
}

proof fn lemma_toc_targets(blocks: Seq<BlockView>, s: Seq<StoredSegmentView>)
    ensures
        entry_targets(toc_entries(blocks, s)) == link_targets(blocks, s),
{
    let rest = without_summary(blocks);
    lemma_parts(blocks, s);
    let summary = summary_html(blocks, s).len() > 0;
    let has_body = body_html(rest, s).len() > 0;
    let decisions = listing_html(rest, Listing::Decisions, s).len() > 0 || listing_html(
        rest,
        Listing::Actions,
        s,
    ).len() > 0;
    let open = listing_html(rest, Listing::Open, s).len() > 0;
    let e1 = entry_if(summary, "s-summary"@, "成果摘要"@);
    let b = seq![entry("s-body"@, "主文"@, false)];
    let e2 = if has_body {
        b + heading_entries(rest)
    } else {
        Seq::empty()
    };
    let e3 = entry_if(decisions, "s-decisions"@, "決議與行動項目"@);
    let e4 = entry_if(open, "s-open"@, "缺口與建議"@);
    let e5 = entry_if(s.len() > 0, "s-transcript"@, "逐字稿"@);
    lemma_entry_if(summary, "s-summary"@, "成果摘要"@);
    lemma_entry_if(decisions, "s-decisions"@, "決議與行動項目"@);
    lemma_entry_if(open, "s-open"@, "缺口與建議"@);
    lemma_entry_if(s.len() > 0, "s-transcript"@, "逐字稿"@);
    lemma_heading_targets(rest);
    let names = name_if(has_part(rest, Section::Body), "s-body"@) + heading_names(rest);
    if has_body {
        lemma_entry_targets_add(b, heading_entries(rest));
        assert(entry_targets(b) =~= seq!["s-body"@]);
    } else {
        lemma_headings_are_in_the_body(rest);
        assert(names =~= Seq::empty());
        assert(entry_targets(e2) =~= Seq::empty());
    }
    assert(entry_targets(e2) == names);
    lemma_entry_targets_add(e1, e2);
    lemma_entry_targets_add(e1 + e2, e3);
    lemma_entry_targets_add(e1 + e2 + e3, e4);
    lemma_entry_targets_add(e1 + e2 + e3 + e4, e5);
}

proof fn lemma_heading_names(rest: Seq<BlockView>)
    ensures
        forall|i: int|
            0 <= i < heading_names(rest).len() ==> exists|k: nat|
                k < rest.len() && #[trigger] heading_names(rest)[i] == #[trigger] heading_name(k),
        heading_names(rest).no_duplicates(),
        all_targets(heading_names(rest)),
    decreases rest.len(),
{
    let names = heading_names(rest);
    if rest.len() > 0 {
        let front = heading_names(rest.drop_last());
        let n = (rest.len() - 1) as nat;
        lemma_heading_names(rest.drop_last());
        assert forall|i: int| 0 <= i < names.len() implies exists|k: nat|
            k < rest.len() && #[trigger] names[i] == #[trigger] heading_name(k) by {
            if i < front.len() {
                let k = choose|k: nat|
                    k < rest.drop_last().len() && front[i] == #[trigger] heading_name(k);
                assert(names[i] == heading_name(k));
            } else {
                assert(names[i] == heading_name(n));
            }
        }
        lemma_heading_name(n);
        assert forall|i: int| 0 <= i < names.len() implies is_target(#[trigger] names[i]) by {
            if i < front.len() {
                assert(names[i] == front[i]);
            }
        }
        if is_anchored(rest.last()) {
            assert forall|i: int, j: int| 0 <= i < front.len() && 0 <= j < 1 implies front[i]
                != seq![heading_name(n)][j] by {
                let k = choose|k: nat|
                    k < rest.drop_last().len() && front[i] == #[trigger] heading_name(k);
                lemma_heading_names_differ(k, n);
            }
            assert(seq![heading_name(n)].no_duplicates());
            vstd::seq_lib::lemma_no_dup_in_concat(front, seq![heading_name(n)]);
            assert(front + seq![heading_name(n)] =~= names);
        }
    }
}

proof fn lemma_heading_names_differ(j: nat, k: nat)
    requires
        j != k,
    ensures
        heading_name(j) != heading_name(k),
{
    if heading_name(j) == heading_name(k) {
        let n = "h-"@.len() as int;
        assert(heading_name(j).skip(n) =~= decimal(j));
        assert(heading_name(k).skip(n) =~= decimal(k));
        decimal_is_injective(j, k);
    }
}

/// Where a name stands among the others.
spec fn place(x: Seq<char>) -> int {
    if x == "s-summary"@ {
        0
    } else if x == "s-body"@ {
        1
    } else if x == "s-decisions"@ {
        3
    } else if x == "s-open"@ {
        4
    } else if x == "s-transcript"@ {
        5
    } else {
        2
    }
}

proof fn lemma_places()
    ensures
        place("s-summary"@) == 0,
        place("s-body"@) == 1,
        place("s-decisions"@) == 3,
        place("s-open"@) == 4,
        place("s-transcript"@) == 5,
        forall|k: nat| place(#[trigger] heading_name(k)) == 2,
{
    lemma_section_names();
    reveal_strlit("s-summary");
    reveal_strlit("s-body");
    reveal_strlit("s-decisions");
    reveal_strlit("s-open");
    reveal_strlit("s-transcript");
    reveal_strlit("h-");
    assert forall|k: nat| place(#[trigger] heading_name(k)) == 2 by {
        assert(heading_name(k)[0] == 'h');
    }
}

/// Whether the names are different ones, all of them before the place `p`.
spec fn stand_before(names: Seq<Seq<char>>, p: int) -> bool {
    &&& names.no_duplicates()
    &&& all_targets(names)
    &&& forall|i: int| 0 <= i < names.len() ==> place(#[trigger] names[i]) < p
}

proof fn lemma_stand_before(a: Seq<Seq<char>>, b: Seq<Seq<char>>, p: int)
    requires
        stand_before(a, p),
        b.no_duplicates(),
        all_targets(b),
        forall|i: int| 0 <= i < b.len() ==> place(#[trigger] b[i]) == p,
    ensures
        stand_before(a + b, p + 1),
{
    let s = a + b;
    assert forall|i: int, j: int| 0 <= i < a.len() && 0 <= j < b.len() implies a[i] != b[j] by {
        assert(place(a[i]) < p);
        assert(place(b[j]) == p);
    }
    vstd::seq_lib::lemma_no_dup_in_concat(a, b);
    assert forall|i: int| 0 <= i < s.len() implies is_target(#[trigger] s[i]) && place(s[i]) < p
        + 1 by {
        if i < a.len() {
            assert(s[i] == a[i]);
        } else {
            assert(s[i] == b[i - a.len()]);
        }
    }
}

/// A name, or none, after those before its place.
proof fn lemma_name_stands(a: Seq<Seq<char>>, shown: bool, name: Seq<char>, p: int)
    requires
        stand_before(a, p),
        is_target(name),
        place(name) >= p,
    ensures
        stand_before(a + name_if(shown, name), place(name) + 1),
{
    assert forall|i: int| 0 <= i < a.len() implies place(#[trigger] a[i]) < place(name) by {
        assert(place(a[i]) < p);
    }
    lemma_stand_before(a, name_if(shown, name), place(name));
}

proof fn lemma_link_targets(blocks: Seq<BlockView>, s: Seq<StoredSegmentView>)
    ensures
        link_targets(blocks, s).no_duplicates(),
        section_names(blocks, s).no_duplicates(),
        all_targets(link_targets(blocks, s)),
        link_targets(blocks, s).len() == section_names(blocks, s).len() + heading_names(
            without_summary(blocks),
        ).len(),
{
    let rest = without_summary(blocks);
    let none = Seq::<Seq<char>>::empty();
    let (with_body, with_decisions, with_open) = (
        has_part(rest, Section::Body),
        has_part(rest, Section::Decisions),
        has_part(rest, Section::Open),
    );
    let a = name_if(has_summary(blocks), "s-summary"@);
    let b = name_if(with_body, "s-body"@);
    let h = heading_names(rest);
    let c = name_if(with_decisions, "s-decisions"@);
    let d = name_if(with_open, "s-open"@);
    lemma_section_names();
    lemma_places();
    lemma_heading_names(rest);
    assert forall|i: int| 0 <= i < h.len() implies place(#[trigger] h[i]) == 2 by {
        let k = choose|k: nat| k < rest.len() && h[i] == #[trigger] heading_name(k);
        assert(place(heading_name(k)) == 2);
    }
    lemma_name_stands(none, has_summary(blocks), "s-summary"@, 0);
    assert(none + a =~= a);
    lemma_name_stands(a, with_body, "s-body"@, 1);
    lemma_name_stands(a + b, with_decisions, "s-decisions"@, 2);
    lemma_name_stands(a + b + c, with_open, "s-open"@, 4);
    lemma_name_stands(a + b + c + d, s.len() > 0, "s-transcript"@, 5);
    lemma_stand_before(a + b, h, 2);
    assert(a + b + h =~= a + (b + h));
    lemma_name_stands(a + (b + h), with_decisions, "s-decisions"@, 3);
    lemma_name_stands(a + (b + h) + c, with_open, "s-open"@, 4);
    lemma_name_stands(a + (b + h) + c + d, s.len() > 0, "s-transcript"@, 5);
}

// ---------------------------------------------------------------------------
// The page
// ---------------------------------------------------------------------------

/// The page up to the table of contents.
spec fn page_head(ctx: ContextView) -> Seq<char> {
    let title = escaped(ctx.title);
    "<!doctype html><html lang=\"zh-Hant\"><head><meta charset=\"utf-8\"><meta name=\"viewport\" content=\"width=device-width,initial-scale=1\"><title>"@
        + title + "</title><style>"@ + EXPORT_CSS@ + "</style></head><body><header><h1>"@ + title
        + "</h1><p class=\"meta\">版本 v"@ + decimal(ctx.version_no as nat) + "・涵蓋至事件 "@
        + decimal(ctx.through_event_seq as nat) + "・生成於 "@ + escaped(ctx.created_at)
        + "</p><p class=\"disclaimer\">引用標記代表來源可回溯，不代表該陳述已被驗證為真。</p></header>"@
}

proof fn lemma_page_head(ctx: ContextView)
    ensures
        is_quiet(page_head(ctx)),
        is_closed(page_head(ctx)),
{
    broadcast use {lemma_quiet_concat, lemma_quiet_escaped, lemma_quiet_decimal};

    lemma_quiet_in_the_head();
    lemma_style_sheet();
    lemma_quiet_without_marks(EXPORT_CSS@);
    reveal_strlit(
        "</p><p class=\"disclaimer\">引用標記代表來源可回溯，不代表該陳述已被驗證為真。</p></header>",
    );
}

proof fn lemma_page(ctx: ContextView, blocks: Seq<BlockView>)
    ensures
        holds(
            page(ctx, blocks),
            section_names(blocks, ctx.transcript),
            if link_targets(blocks, ctx.transcript).len() > 1 {
                1
            } else {
                0
            },
            link_targets(blocks, ctx.transcript),
        ),
{
    let none = Seq::<Seq<char>>::empty();
    let s = ctx.transcript;
    let rest = without_summary(blocks);
    let names = display_names(ctx.speakers, s);
    let entries = toc_entries(blocks, s);
    let navs: nat = if entries.len() > 1 {
        1
    } else {
        0
    };
    let first = name_if(has_summary(blocks), "s-summary"@);
    let second = name_if(has_part(rest, Section::Body), "s-body"@);
    let third = name_if(has_part(rest, Section::Decisions), "s-decisions"@);
    let fourth = name_if(has_part(rest, Section::Open), "s-open"@);
    let fifth = name_if(s.len() > 0, "s-transcript"@);
    let main_names = first + second + third + fourth;
    let main_targets = first + (second + heading_names(rest)) + third + fourth;
    let (head, nav, main) = (page_head(ctx), nav_html(entries), main_html(blocks, s));
    let transcript = transcript_html(s, names);
    lemma_page_head(ctx);
    lemma_quiet_holds_nothing(head);
    lemma_link_targets(blocks, s);
    lemma_toc_targets(blocks, s);
    assert(entries.len() == entry_targets(entries).len());
    lemma_nav(entries);
    lemma_main_holds(blocks, s);
    lemma_transcript_holds(s, names);
    lemma_quiet_in_the_page();
    reveal_strlit("<main>");
    reveal_strlit("</main>");
    reveal_strlit("</body></html>");
    lemma_join(head, none, 0, none, nav, none, navs, none);
    assert(none + none =~= none);
    lemma_join_quiet(head + nav, none, navs, none, "<main>"@);
    let a = head + nav + "<main>"@;
    lemma_join(a, none, navs, none, main, main_names, 0, main_targets);
    assert(none + main_names =~= main_names);
    assert(none + main_targets =~= main_targets);
    lemma_join_quiet(a + main, main_names, navs, main_targets, "</main>"@);
    let b = a + main + "</main>"@;
    lemma_join(b, main_names, navs, main_targets, transcript, fifth, 0, fifth);
    lemma_join_quiet(
        b + transcript,
        main_names + fifth,
        navs,
        main_targets + fifth,
        "</body></html>"@,
    );
    assert(page(ctx, blocks) == b + transcript + "</body></html>"@);
}

/// Each section stands in the page once or not at all, and in this order: the summary where a
/// block is one, the main part, decisions and action items, gaps and suggestions where one of
/// the other blocks belongs there, and the transcript where there is one. Wherever the mark of a
/// section stands in the page, in whatever text, it is one of these.
pub proof fn each_section_stands_once_and_in_order(ctx: ContextView, blocks: Seq<BlockView>)
    ensures
        values(page(ctx, blocks), section_mark()) == section_names(blocks, ctx.transcript),
        section_names(blocks, ctx.transcript).no_duplicates(),
{
    lemma_page(ctx, blocks);
    lemma_link_targets(blocks, ctx.transcript);
}

/// The table of contents is there exactly where the page has more than one section or heading
/// to lead to. It has one link to each of them and no other, and what a link leads to stands in
/// the page exactly once.
pub proof fn every_link_of_the_table_of_contents_leads_somewhere(
    ctx: ContextView,
    blocks: Seq<BlockView>,
)
    ensures
        ({
            let targets = link_targets(blocks, ctx.transcript);
            let nav = nav_html(toc_entries(blocks, ctx.transcript));
            &&& targets.no_duplicates()
            &&& targets.len() == section_names(blocks, ctx.transcript).len() + heading_names(
                without_summary(blocks),
            ).len()
            &&& times(page(ctx, blocks), nav_mark()) == if targets.len() > 1 {
                1nat
            } else {
                0
            }
            &&& targets.len() > 1 ==> values(nav, link_mark()) == targets
            &&& targets.len() <= 1 ==> nav.len() == 0
            &&& forall|k: int|
                0 <= k < targets.len() ==> times(
                    page(ctx, blocks),
                    anchor_mark(#[trigger] targets[k]),
                ) == 1
        }),
{
    let s = ctx.transcript;
    let targets = link_targets(blocks, s);
    lemma_page(ctx, blocks);
    lemma_link_targets(blocks, s);
    lemma_toc_targets(blocks, s);
    assert(toc_entries(blocks, s).len() == entry_targets(toc_entries(blocks, s)).len());
    lemma_nav(toc_entries(blocks, s));
    reveal_strlit("");
    assert forall|k: int| 0 <= k < targets.len() implies times(
        page(ctx, blocks),
        anchor_mark(#[trigger] targets[k]),
    ) == 1 by {
        lemma_count_one(targets, k);
    }
}

} // verus!
