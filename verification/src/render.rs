//! Documents as HTML.
//!
//! Transcripts, notes and what a model wrote are not trusted: whoever speaks in a
//! meeting can speak markup. Every such text goes through `escape`, and the sections
//! of the page are made here from the kinds and claims of the blocks.

use crate::document::{Block, BlockContent, BlockKind, BlockView, ContentView};
use crate::model::{ClaimKind, Track, UNKNOWN_REMOTE};
use crate::store::{
    SourceRef, SourceRefView, StoredSegment, StoredSegmentView, StoredSpeaker, StoredSpeakerView,
};
use crate::text::{
    ascii_lower, begins_with, decimal, decimal_text, opt_view, padded, padded_text, same,
    starts_with, to_ascii_lower, trim, trimmed, views,
};
use vstd::prelude::*;
use vstd::string::*;

verus! {

// ---------------------------------------------------------------------------
// Text inside markup
// ---------------------------------------------------------------------------

/// What stands for `c` in text and in attribute values.
pub open spec fn escaped_char(c: char) -> Seq<char> {
    if c == '&' {
        "&amp;"@
    } else if c == '<' {
        "&lt;"@
    } else if c == '>' {
        "&gt;"@
    } else if c == '"' {
        "&quot;"@
    } else if c == '\'' {
        "&#39;"@
    } else {
        seq![c]
    }
}

/// `s` as text and as an attribute value.
pub open spec fn escaped(s: Seq<char>) -> Seq<char>
    decreases s.len(),
{
    if s.len() == 0 {
        s
    } else {
        escaped(s.drop_last()) + escaped_char(s.last())
    }
}

/// `s` as text and as an attribute value.
pub fn escape(s: &str) -> (r: String)
    ensures
        r@ == escaped(s@),
{
    let mut out = String::new();
    for c in it: s.chars()
        invariant
            it.seq() == s@,
            out@ == escaped(s@.take(it.index())),
    {
        assert(s@.take(it.index() + 1).drop_last() =~= s@.take(it.index()));
        assert(s@.take(it.index() + 1).last() == c);
        if c == '&' {
            out.append("&amp;");
        } else if c == '<' {
            out.append("&lt;");
        } else if c == '>' {
            out.append("&gt;");
        } else if c == '"' {
            out.append("&quot;");
        } else if c == '\'' {
            out.append("&#39;");
        } else {
            let ghost before = out@;
            out.push(c);
            assert(out@ =~= before + seq![c]);
        }
    }
    assert(s@.take(s@.len() as int) =~= s@);
    out
}

/// Where a link may lead: the web, or a place in the page itself. The list says what
/// is allowed, since what is dangerous can be written in too many ways.
pub open spec fn is_safe_target(t: Seq<char>) -> bool {
    ||| begins_with(ascii_lower(t), "https://"@)
    ||| begins_with(ascii_lower(t), "http://"@)
    ||| begins_with(t, "#"@)
}

/// The `href` of a link to `target`.
pub open spec fn href(target: Seq<char>) -> Seq<char> {
    if is_safe_target(trimmed(target)) {
        escaped(trimmed(target))
    } else {
        "#blocked"@
    }
}

/// The `href` of a link to `target`.
pub fn safe_href(target: &str) -> (r: String)
    ensures
        r@ == href(target@),
{
    let t = trim(target);
    let lower = to_ascii_lower(t.as_str());
    if starts_with(lower.as_str(), "https://") || starts_with(lower.as_str(), "http://")
        || starts_with(t.as_str(), "#") {
        escape(t.as_str())
    } else {
        "#blocked".to_owned()
    }
}

/// A meeting time as minutes and seconds.
pub open spec fn clock_text(ms: nat) -> Seq<char> {
    padded(ms / 1000 / 60, 2) + ":"@ + padded(ms / 1000 % 60, 2)
}

/// A meeting time as minutes and seconds.
pub fn mmss(ms: u64) -> (r: String)
    ensures
        r@ == clock_text(ms as nat),
{
    let s: u64 = ms / 1000;
    let mut out = padded_text(s / 60, 2);
    out.append(":");
    let seconds = padded_text(s % 60, 2);
    out.append(seconds.as_str());
    out
}

// ---------------------------------------------------------------------------
// Speakers
// ---------------------------------------------------------------------------

/// The track on which a speaker is first heard, and the system track for one who is
/// not heard at all.
pub open spec fn track_of(transcript: Seq<StoredSegmentView>, id: Seq<char>) -> Track
    decreases transcript.len(),
{
    if transcript.len() == 0 {
        Track::System
    } else if transcript[0].speaker_id == Some(id) {
        transcript[0].track
    } else {
        track_of(transcript.skip(1), id)
    }
}

/// Whether a speaker is one of the numbered ones: remote, and told apart.
pub open spec fn is_numbered(transcript: Seq<StoredSegmentView>, s: StoredSpeakerView) -> bool {
    s.speaker_id != UNKNOWN_REMOTE@ && track_of(transcript, s.speaker_id) is System
}

/// How many of the speakers are numbered.
pub open spec fn numbered_count(
    transcript: Seq<StoredSegmentView>,
    speakers: Seq<StoredSpeakerView>,
) -> nat
    decreases speakers.len(),
{
    if speakers.len() == 0 {
        0
    } else {
        numbered_count(transcript, speakers.drop_last()) + if is_numbered(
            transcript,
            speakers.last(),
        ) {
            1nat
        } else {
            0nat
        }
    }
}

/// What the last of `speakers` is called: the confirmed name, else the proposed one,
/// else by the track. Who is remote and cannot be told apart has no name at all.
pub open spec fn display_name(
    transcript: Seq<StoredSegmentView>,
    speakers: Seq<StoredSpeakerView>,
) -> Seq<char> {
    let s = speakers.last();
    if s.speaker_id == UNKNOWN_REMOTE@ {
        "遠端"@
    } else if s.confirmed_name is Some {
        s.confirmed_name->0
    } else if s.proposed_name is Some {
        s.proposed_name->0
    } else {
        match track_of(transcript, s.speaker_id) {
            Track::Mic => "我"@,
            Track::System => "語者 "@ + decimal(numbered_count(transcript, speakers)),
        }
    }
}

/// What each of the speakers is called.
pub open spec fn display_names(
    speakers: Seq<StoredSpeakerView>,
    transcript: Seq<StoredSegmentView>,
) -> Seq<(Seq<char>, Seq<char>)> {
    Seq::new(
        speakers.len(),
        |k: int| (speakers[k].speaker_id, display_name(transcript, speakers.take(k + 1))),
    )
}

/// What the speaker `id` is called.
pub open spec fn name_in(names: Seq<(Seq<char>, Seq<char>)>, id: Seq<char>) -> Option<Seq<char>>
    decreases names.len(),
{
    if names.len() == 0 {
        None
    } else if names.last().0 == id {
        Some(names.last().1)
    } else {
        name_in(names.drop_last(), id)
    }
}

/// The texts of a list of pairs.
pub open spec fn pair_views(list: Seq<(String, String)>) -> Seq<(Seq<char>, Seq<char>)> {
    Seq::new(list.len(), |i: int| (list[i].0@, list[i].1@))
}

fn first_track(transcript: &[StoredSegment], id: &str) -> (r: Track)
    ensures
        r == track_of(views(transcript@), id@),
{
    let mut i: usize = 0;
    let ghost all = views(transcript@);
    assert(all.skip(0) =~= all);
    while i < transcript.len()
        invariant
            i <= transcript@.len(),
            all == views(transcript@),
            track_of(all, id@) == track_of(all.skip(i as int), id@),
        decreases transcript.len() - i,
    {
        let s = &transcript[i];
        assert(all.skip(i as int)[0] == s@);
        assert(all.skip(i as int).skip(1) =~= all.skip(i + 1));
        if let Some(speaker) = &s.speaker_id {
            if same(speaker.as_str(), id) {
                return s.track;
            }
        }
        i = i + 1;
    }
    Track::System
}

/// What each of the speakers is called, wherever speakers are shown: the confirmed
/// name, else the proposed one, else "me" for the microphone and a number for the
/// others. Only remote speakers are counted.
pub fn speaker_names(speakers: &[StoredSpeaker], transcript: &[StoredSegment]) -> (r: Vec<
    (String, String),
>)
    ensures
        pair_views(r@) == display_names(views(speakers@), views(transcript@)),
{
    let ghost all = views(speakers@);
    let ghost heard = views(transcript@);
    let mut names: Vec<(String, String)> = Vec::new();
    let mut remote: usize = 0;
    let mut i: usize = 0;
    while i < speakers.len()
        invariant
            i <= speakers@.len(),
            all == views(speakers@),
            heard == views(transcript@),
            remote <= i,
            remote == numbered_count(heard, all.take(i as int)),
            pair_views(names@) == display_names(all, heard).take(i as int),
        decreases speakers.len() - i,
    {
        let s = &speakers[i];
        let ghost before = names@;
        let ghost upto = all.take(i + 1);
        assert(upto.drop_last() =~= all.take(i as int));
        assert(upto.last() == s@);
        let track = first_track(transcript, s.speaker_id.as_str());
        let name: String = if same(s.speaker_id.as_str(), UNKNOWN_REMOTE) {
            "遠端".to_owned()
        } else {
            if track == Track::System {
                remote = remote + 1;
            }
            match (&s.confirmed_name, &s.proposed_name) {
                (Some(name), _) => name.clone(),
                (None, Some(name)) => name.clone(),
                (None, None) => match track {
                    Track::Mic => "我".to_owned(),
                    Track::System => {
                        let mut out = "語者 ".to_owned();
                        let number = decimal_text(remote as u128);
                        out.append(number.as_str());
                        out
                    },
                },
            }
        };
        assert(name@ == display_name(heard, upto));
        names.push((s.speaker_id.clone(), name));
        i = i + 1;
        assert(pair_views(names@) =~= pair_views(before).push((s@.speaker_id, name@)));
        assert(pair_views(names@) =~= display_names(all, heard).take(i as int));
    }
    assert(display_names(all, heard).take(i as int) =~= display_names(all, heard));
    names
}

/// What the speaker `id` is called.
pub fn find_name<'a>(names: &'a Vec<(String, String)>, id: &str) -> (r: Option<&'a String>)
    ensures
        opt_view(r) == name_in(pair_views(names@), id@),
{
    let ghost all = pair_views(names@);
    let mut i: usize = names.len();
    assert(all.take(i as int) =~= all);
    while i > 0
        invariant
            i <= names@.len(),
            all == pair_views(names@),
            name_in(all, id@) == name_in(all.take(i as int), id@),
        decreases i,
    {
        i = i - 1;
        assert(all.take(i + 1).last() == (names@[i as int].0@, names@[i as int].1@));
        assert(all.take(i + 1).drop_last() =~= all.take(i as int));
        if same(names[i].0.as_str(), id) {
            return Some(&names[i].1);
        }
    }
    None
}

// ---------------------------------------------------------------------------
// Citations
// ---------------------------------------------------------------------------

/// The version of segment `id` that the transcript shows.
pub open spec fn shown_revision(transcript: Seq<StoredSegmentView>, id: Seq<char>) -> Option<u32>
    decreases transcript.len(),
{
    if transcript.len() == 0 {
        None
    } else if decimal(transcript.last().segment_id as nat) == id {
        Some(transcript.last().revision)
    } else {
        shown_revision(transcript.drop_last(), id)
    }
}

/// Whether the transcript shows a later version than the one that is cited.
pub open spec fn is_stale(transcript: Seq<StoredSegmentView>, r: SourceRefView) -> bool {
    match shown_revision(transcript, r.source_id) {
        Some(now) => now > r.source_revision,
        None => false,
    }
}

pub open spec fn cite_label(r: SourceRefView, stale: bool) -> Seq<char> {
    escaped(r.source_kind) + " "@ + escaped(r.source_id) + " r"@ + decimal(
        r.source_revision as nat,
    ) + if stale {
        "（已修訂）"@
    } else {
        ""@
    }
}

/// One citation. Only a citation of the transcript has a place in the page to lead
/// to, and it leads to the segment and not to one of its versions, since only one
/// version is shown.
pub open spec fn cite_html(r: SourceRefView, stale: bool) -> Seq<char> {
    if r.source_kind == "transcript_segment"@ {
        "<a class=\"cite\" href=\"#seg-"@ + escaped(r.source_id) + "\" data-stale=\""@ + if stale {
            "1"@
        } else {
            "0"@
        } + "\" title=\""@ + escaped(r.quoted_text) + "\">"@ + cite_label(r, stale) + "</a>"@
    } else {
        "<span class=\"cite\" title=\""@ + escaped(r.quoted_text) + "\">"@ + cite_label(r, stale)
            + "</span>"@
    }
}

pub open spec fn cite_list(
    refs: Seq<SourceRefView>,
    transcript: Seq<StoredSegmentView>,
) -> Seq<char>
    decreases refs.len(),
{
    if refs.len() == 0 {
        Seq::empty()
    } else {
        cite_list(refs.drop_last(), transcript) + cite_html(
            refs.last(),
            is_stale(transcript, refs.last()),
        )
    }
}

/// The citations of a block.
pub open spec fn cites_html(
    refs: Seq<SourceRefView>,
    transcript: Seq<StoredSegmentView>,
) -> Seq<char> {
    if refs.len() == 0 {
        Seq::empty()
    } else {
        "<span class=\"cites\">"@ + cite_list(refs, transcript) + "</span>"@
    }
}

fn find_revision(transcript: &[StoredSegment], id: &str) -> (r: Option<u32>)
    ensures
        r == shown_revision(views(transcript@), id@),
{
    let ghost all = views(transcript@);
    let mut i: usize = transcript.len();
    assert(all.take(i as int) =~= all);
    while i > 0
        invariant
            i <= transcript@.len(),
            all == views(transcript@),
            shown_revision(all, id@) == shown_revision(all.take(i as int), id@),
        decreases i,
    {
        i = i - 1;
        assert(all.take(i + 1).last() == transcript@[i as int]@);
        assert(all.take(i + 1).drop_last() =~= all.take(i as int));
        let shown = decimal_text(transcript[i].segment_id as u128);
        if same(shown.as_str(), id) {
            return Some(transcript[i].revision);
        }
    }
    None
}

fn render_cite(r: &SourceRef, stale: bool) -> (h: String)
    ensures
        h@ == cite_html(r@, stale),
{
    let kind = escape(r.source_kind.as_str());
    let id = escape(r.source_id.as_str());
    let quote = escape(r.quoted_text.as_str());
    let revision = decimal_text(r.source_revision as u128);
    let mut label = kind;
    label.append(" ");
    label.append(id.as_str());
    label.append(" r");
    label.append(revision.as_str());
    label.append(if stale { "（已修訂）" } else { "" });
    if same(r.source_kind.as_str(), "transcript_segment") {
        let mut out = "<a class=\"cite\" href=\"#seg-".to_owned();
        out.append(id.as_str());
        out.append("\" data-stale=\"");
        out.append(if stale { "1" } else { "0" });
        out.append("\" title=\"");
        out.append(quote.as_str());
        out.append("\">");
        out.append(label.as_str());
        out.append("</a>");
        out
    } else {
        let mut out = "<span class=\"cite\" title=\"".to_owned();
        out.append(quote.as_str());
        out.append("\">");
        out.append(label.as_str());
        out.append("</span>");
        out
    }
}

fn render_cites(refs: &Vec<SourceRef>, transcript: &[StoredSegment]) -> (h: String)
    ensures
        h@ == cites_html(views(refs@), views(transcript@)),
{
    if refs.len() == 0 {
        return String::new();
    }
    let ghost all = views(refs@);
    let ghost heard = views(transcript@);
    let mut list = String::new();
    let mut i: usize = 0;
    assert(list@ =~= cite_list(all.take(0), heard));
    while i < refs.len()
        invariant
            i <= refs@.len(),
            all == views(refs@),
            heard == views(transcript@),
            list@ == cite_list(all.take(i as int), heard),
        decreases refs.len() - i,
    {
        let r = &refs[i];
        assert(all.take(i + 1).drop_last() =~= all.take(i as int));
        assert(all.take(i + 1).last() == r@);
        let stale: bool = match find_revision(transcript, r.source_id.as_str()) {
            Some(now) => now > r.source_revision,
            None => false,
        };
        let one = render_cite(r, stale);
        list.append(one.as_str());
        i = i + 1;
    }
    assert(all.take(i as int) =~= all);
    let mut out = "<span class=\"cites\">".to_owned();
    out.append(list.as_str());
    out.append("</span>");
    out
}

// ---------------------------------------------------------------------------
// Blocks
// ---------------------------------------------------------------------------

/// Each text between `open` and `close`, one after another.
pub open spec fn wrapped(items: Seq<Seq<char>>, open: Seq<char>, close: Seq<char>) -> Seq<char>
    decreases items.len(),
{
    if items.len() == 0 {
        Seq::empty()
    } else {
        wrapped(items.drop_last(), open, close) + open + escaped(items.last()) + close
    }
}

pub open spec fn rows_html(rows: Seq<Seq<Seq<char>>>) -> Seq<char>
    decreases rows.len(),
{
    if rows.len() == 0 {
        Seq::empty()
    } else {
        rows_html(rows.drop_last()) + "<tr>"@ + wrapped(rows.last(), "<td>"@, "</td>"@) + "</tr>"@
    }
}

/// The number in the heading element for a heading of this level.
pub open spec fn heading_rank(level: u8) -> nat {
    if level < 1 {
        2
    } else if level > 4 {
        5
    } else {
        (level + 1) as nat
    }
}

/// The anchor of a heading that the table of contents leads to.
pub open spec fn heading_anchor(level: u8, anchor: Option<nat>) -> Seq<char> {
    match anchor {
        Some(i) => if level <= 2 {
            " id=\"h-"@ + decimal(i) + "\""@
        } else {
            ""@
        },
        None => ""@,
    }
}

/// One part of an action item that may be left out.
pub open spec fn optional_span(o: Option<Seq<char>>, open: Seq<char>) -> Seq<char> {
    match o {
        Some(t) => open + escaped(t) + "</span>"@,
        None => ""@,
    }
}

/// Who is to do it and by when, where either was said.
pub open spec fn action_meta(owner: Option<Seq<char>>, due: Option<Seq<char>>) -> Seq<char> {
    if owner is Some || due is Some {
        "<span class=\"action-meta\">"@ + optional_span(owner, "<span class=\"owner\">"@)
            + optional_span(due, "<span class=\"due\">"@) + "</span>"@
    } else {
        ""@
    }
}

/// The content of a block.
pub open spec fn content_html(content: ContentView, anchor: Option<nat>) -> Seq<char> {
    match content {
        ContentView::Heading { level, text } => "<h"@ + decimal(heading_rank(level))
            + heading_anchor(level, anchor) + ">"@ + escaped(text) + "</h"@ + decimal(
            heading_rank(level),
        ) + ">"@,
        ContentView::Text { text } => "<p>"@ + escaped(text) + "</p>"@,
        ContentView::Bullets { items } => "<ul>"@ + wrapped(items, "<li>"@, "</li>"@) + "</ul>"@,
        ContentView::Table { headers, rows } => "<table><thead><tr>"@ + wrapped(
            headers,
            "<th>"@,
            "</th>"@,
        ) + "</tr></thead><tbody>"@ + rows_html(rows) + "</tbody></table>"@,
        ContentView::Mermaid { source } => "<pre class=\"mermaid\">"@ + escaped(source)
            + "</pre>"@,
        ContentView::Callout { tone, title, body } => "<aside class=\"callout\" data-tone=\""@
            + escaped(tone) + "\"><b>"@ + escaped(title) + "</b><p>"@ + escaped(body)
            + "</p></aside>"@,
        ContentView::ActionItem { text, owner, due } => "<p class=\"action\">"@ + escaped(text)
            + action_meta(owner, due) + "</p>"@,
        ContentView::Excerpt { speaker, text, meeting_time_ms } =>
            "<blockquote><span class=\"t-time\">"@ + escaped(clock_text(meeting_time_ms as nat))
            + "</span><b>"@ + escaped(speaker) + "</b><p>"@ + escaped(text) + "</p></blockquote>"@,
        ContentView::Link { label, target } => "<a href=\""@ + href(target)
            + "\" rel=\"noopener noreferrer\">"@ + escaped(label) + "</a>"@,
    }
}

/// A block with its citations.
pub open spec fn block_html(
    b: BlockView,
    anchor: Option<nat>,
    transcript: Seq<StoredSegmentView>,
) -> Seq<char> {
    "<div class=\"blk\" data-kind=\""@ + b.kind.word() + "\" data-claim=\""@ + b.claim_kind.word()
        + "\">"@ + content_html(b.content, anchor) + cites_html(b.source_refs, transcript)
        + "</div>"@
}

fn wrap_all(items: &Vec<String>, open: &str, close: &str) -> (h: String)
    ensures
        h@ == wrapped(views(items@), open@, close@),
{
    let ghost all = views(items@);
    let mut out = String::new();
    let mut i: usize = 0;
    assert(out@ =~= wrapped(all.take(0), open@, close@));
    while i < items.len()
        invariant
            i <= items@.len(),
            all == views(items@),
            out@ == wrapped(all.take(i as int), open@, close@),
        decreases items.len() - i,
    {
        assert(all.take(i + 1).drop_last() =~= all.take(i as int));
        out.append(open);
        let text = escape(items[i].as_str());
        out.append(text.as_str());
        out.append(close);
        i = i + 1;
    }
    assert(all.take(i as int) =~= all);
    out
}

fn render_rows(rows: &Vec<Vec<String>>) -> (h: String)
    ensures
        h@ == rows_html(crate::document::row_views(rows@)),
{
    let ghost all = crate::document::row_views(rows@);
    let mut out = String::new();
    let mut i: usize = 0;
    assert(out@ =~= rows_html(all.take(0)));
    while i < rows.len()
        invariant
            i <= rows@.len(),
            all == crate::document::row_views(rows@),
            out@ == rows_html(all.take(i as int)),
        decreases rows.len() - i,
    {
        assert(all.take(i + 1).drop_last() =~= all.take(i as int));
        out.append("<tr>");
        let cells = wrap_all(&rows[i], "<td>", "</td>");
        out.append(cells.as_str());
        out.append("</tr>");
        i = i + 1;
    }
    assert(all.take(i as int) =~= all);
    out
}

fn render_optional(o: &Option<String>, open: &str) -> (h: String)
    ensures
        h@ == optional_span(opt_view(*o), open@),
{
    match o {
        Some(t) => {
            let mut out = open.to_owned();
            let text = escape(t.as_str());
            out.append(text.as_str());
            out.append("</span>");
            out
        },
        None => "".to_owned(),
    }
}

fn render_heading(level: u8, text: &str, anchor: Option<usize>) -> (h: String)
    ensures
        h@ == content_html(
            ContentView::Heading { level, text: text@ },
            match anchor {
                Some(i) => Some(i as nat),
                None => None,
            },
        ),
{
    let rank: u8 = if level < 1 {
        2
    } else if level > 4 {
        5
    } else {
        level + 1
    };
    let rank_text = decimal_text(rank as u128);
    let mut id = "".to_owned();
    if let Some(i) = anchor {
        if level <= 2 {
            id = " id=\"h-".to_owned();
            let number = decimal_text(i as u128);
            id.append(number.as_str());
            id.append("\"");
        }
    }
    let title = escape(text);
    let mut out = "<h".to_owned();
    out.append(rank_text.as_str());
    out.append(id.as_str());
    out.append(">");
    out.append(title.as_str());
    out.append("</h");
    out.append(rank_text.as_str());
    out.append(">");
    out
}

fn render_content(content: &BlockContent, anchor: Option<usize>) -> (h: String)
    ensures
        h@ == content_html(
            content@,
            match anchor {
                Some(i) => Some(i as nat),
                None => None,
            },
        ),
{
    match content {
        BlockContent::Heading { level, text } => render_heading(*level, text.as_str(), anchor),
        BlockContent::Text { text } => {
            let inner = escape(text.as_str());
            let mut out = "<p>".to_owned();
            out.append(inner.as_str());
            out.append("</p>");
            out
        },
        BlockContent::Bullets { items } => {
            let inner = wrap_all(items, "<li>", "</li>");
            let mut out = "<ul>".to_owned();
            out.append(inner.as_str());
            out.append("</ul>");
            out
        },
        BlockContent::Table { headers, rows } => {
            let head = wrap_all(headers, "<th>", "</th>");
            let body = render_rows(rows);
            let mut out = "<table><thead><tr>".to_owned();
            out.append(head.as_str());
            out.append("</tr></thead><tbody>");
            out.append(body.as_str());
            out.append("</tbody></table>");
            out
        },
        BlockContent::Mermaid { source } => {
            let inner = escape(source.as_str());
            let mut out = "<pre class=\"mermaid\">".to_owned();
            out.append(inner.as_str());
            out.append("</pre>");
            out
        },
        BlockContent::Callout { tone, title, body } => {
            let (tone, title, body) = (
                escape(tone.as_str()),
                escape(title.as_str()),
                escape(body.as_str()),
            );
            let mut out = "<aside class=\"callout\" data-tone=\"".to_owned();
            out.append(tone.as_str());
            out.append("\"><b>");
            out.append(title.as_str());
            out.append("</b><p>");
            out.append(body.as_str());
            out.append("</p></aside>");
            out
        },
        BlockContent::ActionItem { text, owner, due } => {
            let inner = escape(text.as_str());
            let meta: String = if owner.is_some() || due.is_some() {
                let owner_html = render_optional(owner, "<span class=\"owner\">");
                let due_html = render_optional(due, "<span class=\"due\">");
                let mut meta = "<span class=\"action-meta\">".to_owned();
                meta.append(owner_html.as_str());
                meta.append(due_html.as_str());
                meta.append("</span>");
                meta
            } else {
                "".to_owned()
            };
            let mut out = "<p class=\"action\">".to_owned();
            out.append(inner.as_str());
            out.append(meta.as_str());
            out.append("</p>");
            out
        },
        BlockContent::Excerpt { speaker, text, meeting_time_ms } => {
            let time = mmss(*meeting_time_ms);
            let (time, speaker, text) = (
                escape(time.as_str()),
                escape(speaker.as_str()),
                escape(text.as_str()),
            );
            let mut out = "<blockquote><span class=\"t-time\">".to_owned();
            out.append(time.as_str());
            out.append("</span><b>");
            out.append(speaker.as_str());
            out.append("</b><p>");
            out.append(text.as_str());
            out.append("</p></blockquote>");
            out
        },
        BlockContent::Link { label, target } => {
            let link = safe_href(target.as_str());
            let inner = escape(label.as_str());
            let mut out = "<a href=\"".to_owned();
            out.append(link.as_str());
            out.append("\" rel=\"noopener noreferrer\">");
            out.append(inner.as_str());
            out.append("</a>");
            out
        },
    }
}

/// A block with its citations. Only blocks of the main part get an anchor.
pub fn render_block(b: &Block, anchor: Option<usize>, transcript: &[StoredSegment]) -> (h: String)
    ensures
        h@ == block_html(
            b@,
            match anchor {
                Some(i) => Some(i as nat),
                None => None,
            },
            views(transcript@),
        ),
{
    let content = render_content(&b.content, anchor);
    let cites = render_cites(&b.source_refs, transcript);
    let mut out = "<div class=\"blk\" data-kind=\"".to_owned();
    out.append(b.kind.as_str());
    out.append("\" data-claim=\"");
    out.append(b.claim_kind.as_str());
    out.append("\">");
    out.append(content.as_str());
    out.append(cites.as_str());
    out.append("</div>");
    out
}

// ---------------------------------------------------------------------------
// The page
// ---------------------------------------------------------------------------

/// The parts of a page. A block belongs to one of them by its kind and its claim; in
/// which order a model wrote the blocks has no bearing on it.
#[derive(Debug, Clone, Copy, PartialEq, Eq, Structural)]
pub enum Section {
    /// Decisions and action items: what is looked up after a meeting.
    Decisions,
    /// Gaps and suggestions, kept apart from what was said.
    Open,
    Body,
}

/// The part that a block belongs to.
pub open spec fn section(b: BlockView) -> Section {
    if b.kind is Decision || b.kind is ActionItem {
        Section::Decisions
    } else if b.claim_kind is Gap || b.claim_kind is Suggestion {
        Section::Open
    } else {
        Section::Body
    }
}

/// The part that a block belongs to.
pub fn section_of(b: &Block) -> (r: Section)
    ensures
        r == section(b@),
{
    match b.kind {
        BlockKind::Decision | BlockKind::ActionItem => Section::Decisions,
        _ => match b.claim_kind {
            ClaimKind::Gap | ClaimKind::Suggestion => Section::Open,
            ClaimKind::Fact | ClaimKind::Inference => Section::Body,
        },
    }
}

/// Whether a block is the summary: a callout in the tone `summary`.
pub open spec fn sums_up(b: BlockView) -> bool {
    match b.content {
        ContentView::Callout { tone, .. } => tone == "summary"@,
        _ => false,
    }
}

/// Whether a block is the summary. The page makes up none where there is none.
pub fn is_summary(b: &Block) -> (r: bool)
    ensures
        r == sums_up(b@),
{
    match &b.content {
        BlockContent::Callout { tone, .. } => same(tone.as_str(), "summary"),
        _ => false,
    }
}

/// Where the first summary stands, or the number of blocks where there is none.
pub open spec fn summary_at(blocks: Seq<BlockView>) -> int
    decreases blocks.len(),
{
    if blocks.len() == 0 || sums_up(blocks[0]) {
        0
    } else {
        1 + summary_at(blocks.skip(1))
    }
}

/// The blocks but for the first summary.
pub open spec fn without_summary(blocks: Seq<BlockView>) -> Seq<BlockView> {
    let at = summary_at(blocks);
    if at < blocks.len() {
        blocks.take(at) + blocks.skip(at + 1)
    } else {
        blocks
    }
}

/// The summary, which leads the page wherever it stands among the blocks.
pub open spec fn summary_html(
    blocks: Seq<BlockView>,
    transcript: Seq<StoredSegmentView>,
) -> Seq<char> {
    let at = summary_at(blocks);
    if at < blocks.len() {
        match blocks[at].content {
            ContentView::Callout { body, .. } =>
                "<section id=\"s-summary\" class=\"tldr\"><h2>成果摘要</h2><p>"@ + escaped(body)
                + "</p>"@ + cites_html(blocks[at].source_refs, transcript) + "</section>"@,
            _ => ""@,
        }
    } else {
        ""@
    }
}

/// The blocks of the main part, each with its place among `rest` as its anchor.
pub open spec fn body_html(rest: Seq<BlockView>, transcript: Seq<StoredSegmentView>) -> Seq<char>
    decreases rest.len(),
{
    if rest.len() == 0 {
        Seq::empty()
    } else {
        let before = body_html(rest.drop_last(), transcript);
        if section(rest.last()) is Body {
            before + block_html(rest.last(), Some((rest.len() - 1) as nat), transcript)
        } else {
            before
        }
    }
}

/// The lists that the blocks outside the main part are shown in.
#[derive(Debug, Clone, Copy, PartialEq, Eq, Structural)]
pub enum Listing {
    Decisions,
    Actions,
    Open,
}

/// Whether a block is shown in a list.
pub open spec fn is_listed(b: BlockView, listing: Listing) -> bool {
    match listing {
        Listing::Decisions => section(b) is Decisions && b.kind is Decision,
        Listing::Actions => section(b) is Decisions && !(b.kind is Decision),
        Listing::Open => section(b) is Open,
    }
}

/// The blocks of a list, in their order.
pub open spec fn listing_html(
    rest: Seq<BlockView>,
    listing: Listing,
    transcript: Seq<StoredSegmentView>,
) -> Seq<char>
    decreases rest.len(),
{
    if rest.len() == 0 {
        Seq::empty()
    } else {
        let before = listing_html(rest.drop_last(), listing, transcript);
        if is_listed(rest.last(), listing) {
            before + block_html(rest.last(), None, transcript)
        } else {
            before
        }
    }
}

/// `open`, `inner` and `close`, or nothing where `inner` is empty.
pub open spec fn framed(open: Seq<char>, inner: Seq<char>, close: Seq<char>) -> Seq<char> {
    if inner.len() > 0 {
        open + inner + close
    } else {
        ""@
    }
}

pub open spec fn decisions_section(decisions: Seq<char>, actions: Seq<char>) -> Seq<char> {
    if decisions.len() > 0 || actions.len() > 0 {
        "<section id=\"s-decisions\"><h2>決議與行動項目</h2>"@ + framed(
            "<h3>決議</h3>"@,
            decisions,
            ""@,
        ) + framed("<h3>行動項目</h3>"@, actions, ""@) + "</section>"@
    } else {
        ""@
    }
}

/// The sections of the page, those that would be empty left out.
pub open spec fn main_html(
    blocks: Seq<BlockView>,
    transcript: Seq<StoredSegmentView>,
) -> Seq<char> {
    let rest = without_summary(blocks);
    summary_html(blocks, transcript) + framed(
        "<section id=\"s-body\">"@,
        body_html(rest, transcript),
        "</section>"@,
    ) + decisions_section(
        listing_html(rest, Listing::Decisions, transcript),
        listing_html(rest, Listing::Actions, transcript),
    ) + framed(
        "<section id=\"s-open\" class=\"aside-claims\"><h2>缺口與建議</h2>"@,
        listing_html(rest, Listing::Open, transcript),
        "</section>"@,
    )
}

/// An entry of the table of contents.
#[derive(Debug, PartialEq, Eq)]
pub struct TocEntry {
    pub href: String,
    pub label: String,
    pub sub: bool,
}

pub struct TocEntryView {
    pub href: Seq<char>,
    pub label: Seq<char>,
    pub sub: bool,
}

impl View for TocEntry {
    type V = TocEntryView;

    open spec fn view(&self) -> TocEntryView {
        TocEntryView { href: self.href@, label: self.label@, sub: self.sub }
    }
}

pub open spec fn entry(href: Seq<char>, label: Seq<char>, sub: bool) -> TocEntryView {
    TocEntryView { href, label, sub }
}

/// An entry, or none.
pub open spec fn entry_if(shown: bool, href: Seq<char>, label: Seq<char>) -> Seq<TocEntryView> {
    if shown {
        seq![entry(href, label, false)]
    } else {
        Seq::empty()
    }
}

/// The entries for the headings of the main part, down to the second level.
pub open spec fn heading_entries(rest: Seq<BlockView>) -> Seq<TocEntryView>
    decreases rest.len(),
{
    if rest.len() == 0 {
        Seq::empty()
    } else {
        let before = heading_entries(rest.drop_last());
        match rest.last().content {
            ContentView::Heading { level, text } => if section(rest.last()) is Body && level <= 2 {
                before.push(entry("h-"@ + decimal((rest.len() - 1) as nat), text, true))
            } else {
                before
            },
            _ => before,
        }
    }
}

/// The table of contents: the sections that the page has, and no others.
pub open spec fn toc_entries(
    blocks: Seq<BlockView>,
    transcript: Seq<StoredSegmentView>,
) -> Seq<TocEntryView> {
    let rest = without_summary(blocks);
    let has_body = body_html(rest, transcript).len() > 0;
    entry_if(summary_html(blocks, transcript).len() > 0, "s-summary"@, "成果摘要"@) + (
    if has_body {
        seq![entry("s-body"@, "主文"@, false)] + heading_entries(rest)
    } else {
        Seq::empty()
    }) + entry_if(
        listing_html(rest, Listing::Decisions, transcript).len() > 0 || listing_html(
            rest,
            Listing::Actions,
            transcript,
        ).len() > 0,
        "s-decisions"@,
        "決議與行動項目"@,
    ) + entry_if(
        listing_html(rest, Listing::Open, transcript).len() > 0,
        "s-open"@,
        "缺口與建議"@,
    ) + entry_if(transcript.len() > 0, "s-transcript"@, "逐字稿"@)
}

pub open spec fn entry_html(e: TocEntryView) -> Seq<char> {
    "<li"@ + if e.sub {
        " class=\"sub\""@
    } else {
        ""@
    } + "><a href=\"#"@ + e.href + "\">"@ + escaped(e.label) + "</a></li>"@
}

pub open spec fn entries_html(entries: Seq<TocEntryView>) -> Seq<char>
    decreases entries.len(),
{
    if entries.len() == 0 {
        Seq::empty()
    } else {
        entries_html(entries.drop_last()) + entry_html(entries.last())
    }
}

/// The table of contents. One with a single entry would only repeat it.
pub open spec fn nav_html(entries: Seq<TocEntryView>) -> Seq<char> {
    if entries.len() > 1 {
        "<nav class=\"toc\" aria-label=\"目錄\"><ul>"@ + entries_html(entries) + "</ul></nav>"@
    } else {
        ""@
    }
}

/// Who speaks in a segment.
pub open spec fn speaker_label(
    s: StoredSegmentView,
    names: Seq<(Seq<char>, Seq<char>)>,
) -> Seq<char> {
    match s.speaker_id {
        Some(id) => match name_in(names, id) {
            Some(name) => name,
            None => "未指派"@,
        },
        None => "未指派"@,
    }
}

pub open spec fn segment_html(
    s: StoredSegmentView,
    names: Seq<(Seq<char>, Seq<char>)>,
) -> Seq<char> {
    let id = decimal(s.segment_id as nat);
    "<div class=\"t-row\" id=\"seg-"@ + id + "\"><span class=\"t-time\">"@ + escaped(
        clock_text(s.meeting_start_ms as nat),
    ) + "</span><span class=\"t-who\" id=\"seg-"@ + id + "-r"@ + decimal(s.revision as nat)
        + "\">"@ + escaped(speaker_label(s, names)) + "</span><p>"@ + escaped(s.text)
        + "</p></div>"@
}

pub open spec fn segments_html(
    transcript: Seq<StoredSegmentView>,
    names: Seq<(Seq<char>, Seq<char>)>,
) -> Seq<char>
    decreases transcript.len(),
{
    if transcript.len() == 0 {
        Seq::empty()
    } else {
        segments_html(transcript.drop_last(), names) + segment_html(transcript.last(), names)
    }
}

pub open spec fn transcript_html(
    transcript: Seq<StoredSegmentView>,
    names: Seq<(Seq<char>, Seq<char>)>,
) -> Seq<char> {
    framed(
        "<section id=\"s-transcript\" class=\"transcript\"><h2>逐字稿</h2>"@,
        segments_html(transcript, names),
        "</section>"@,
    )
}

/// What a page is made from, besides its blocks.
pub struct RenderContext<'a> {
    pub title: &'a str,
    pub version_no: u32,
    pub through_event_seq: u64,
    pub created_at: &'a str,
    /// The transcript that goes with the document.
    pub transcript: &'a [StoredSegment],
    /// The speakers at the time of the snapshot.
    pub speakers: &'a [StoredSpeaker],
}

pub struct ContextView {
    pub title: Seq<char>,
    pub version_no: u32,
    pub through_event_seq: u64,
    pub created_at: Seq<char>,
    pub transcript: Seq<StoredSegmentView>,
    pub speakers: Seq<StoredSpeakerView>,
}

impl<'a> View for RenderContext<'a> {
    type V = ContextView;

    open spec fn view(&self) -> ContextView {
        ContextView {
            title: self.title@,
            version_no: self.version_no,
            through_event_seq: self.through_event_seq,
            created_at: self.created_at@,
            transcript: views(self.transcript@),
            speakers: views(self.speakers@),
        }
    }
}

/// The page.
pub open spec fn page(ctx: ContextView, blocks: Seq<BlockView>) -> Seq<char> {
    let title = escaped(ctx.title);
    "<!doctype html><html lang=\"zh-Hant\"><head><meta charset=\"utf-8\"><meta name=\"viewport\" content=\"width=device-width,initial-scale=1\"><title>"@
        + title + "</title><style>"@ + EXPORT_CSS@ + "</style></head><body><header><h1>"@ + title
        + "</h1><p class=\"meta\">版本 v"@ + decimal(ctx.version_no as nat) + "・涵蓋至事件 "@
        + decimal(ctx.through_event_seq as nat) + "・生成於 "@ + escaped(ctx.created_at)
        + "</p><p class=\"disclaimer\">引用標記代表來源可回溯，不代表該陳述已被驗證為真。</p></header>"@
        + nav_html(toc_entries(blocks, ctx.transcript)) + "<main>"@ + main_html(
        blocks,
        ctx.transcript,
    ) + "</main>"@ + transcript_html(
        ctx.transcript,
        display_names(ctx.speakers, ctx.transcript),
    ) + "</body></html>"@
}

pub proof fn lemma_summary_at(blocks: Seq<BlockView>, k: int)
    requires
        0 <= k <= blocks.len(),
        forall|i: int| 0 <= i < k ==> !sums_up(#[trigger] blocks[i]),
        k < blocks.len() ==> sums_up(blocks[k]),
    ensures
        summary_at(blocks) == k,
    decreases k,
{
    if k > 0 {
        let rest = blocks.skip(1);
        assert(!sums_up(blocks[0]));
        assert forall|i: int| 0 <= i < k - 1 implies !sums_up(#[trigger] rest[i]) by {
            assert(rest[i] == blocks[i + 1]);
        }
        lemma_summary_at(rest, k - 1);
    }
}

fn find_summary(blocks: &[Block]) -> (r: usize)
    ensures
        r == summary_at(views(blocks@)),
        r <= blocks@.len(),
        r < blocks@.len() ==> sums_up(blocks@[r as int]@),
{
    let mut i: usize = 0;
    while i < blocks.len() && !is_summary(&blocks[i])
        invariant
            i <= blocks@.len(),
            forall|j: int| 0 <= j < i ==> !sums_up(#[trigger] views(blocks@)[j]),
        decreases blocks.len() - i,
    {
        i = i + 1;
    }
    proof {
        lemma_summary_at(views(blocks@), i as int);
    }
    i
}

/// The blocks but for the one at `at`.
fn all_but<'a>(blocks: &'a [Block], at: usize) -> (r: Vec<&'a Block>)
    requires
        at == summary_at(views(blocks@)),
    ensures
        views(r@) == without_summary(views(blocks@)),
{
    let ghost all = views(blocks@);
    let mut out: Vec<&'a Block> = Vec::new();
    let mut i: usize = 0;
    while i < blocks.len()
        invariant
            i <= blocks@.len(),
            all == views(blocks@),
            i <= at ==> views(out@) == all.take(i as int),
            i > at ==> views(out@) == all.take(at as int) + all.subrange(at + 1, i as int),
        decreases blocks.len() - i,
    {
        let ghost before = out@;
        if i != at {
            out.push(&blocks[i]);
            assert(views(out@) =~= views(before).push(all[i as int]));
        }
        i = i + 1;
        if i <= at {
            assert(views(out@) =~= all.take(i as int));
        } else {
            assert(views(out@) =~= all.take(at as int) + all.subrange(at + 1, i as int));
        }
    }
    assert(views(out@) =~= without_summary(all));
    out
}

fn render_summary(blocks: &[Block], at: usize, transcript: &[StoredSegment]) -> (h: String)
    requires
        at == summary_at(views(blocks@)),
    ensures
        h@ == summary_html(views(blocks@), views(transcript@)),
{
    if at < blocks.len() {
        assert(views(blocks@)[at as int] == blocks@[at as int]@);
        match &blocks[at].content {
            BlockContent::Callout { body, .. } => {
                let text = escape(body.as_str());
                let cites = render_cites(&blocks[at].source_refs, transcript);
                let mut out = "<section id=\"s-summary\" class=\"tldr\"><h2>成果摘要</h2><p>".to_owned();
                out.append(text.as_str());
                out.append("</p>");
                out.append(cites.as_str());
                out.append("</section>");
                out
            },
            _ => "".to_owned(),
        }
    } else {
        "".to_owned()
    }
}

fn render_body(rest: &Vec<&Block>, transcript: &[StoredSegment]) -> (h: String)
    ensures
        h@ == body_html(views(rest@), views(transcript@)),
{
    let ghost all = views(rest@);
    let ghost heard = views(transcript@);
    let mut out = String::new();
    let mut i: usize = 0;
    assert(out@ =~= body_html(all.take(0), heard));
    while i < rest.len()
        invariant
            i <= rest@.len(),
            all == views(rest@),
            heard == views(transcript@),
            out@ == body_html(all.take(i as int), heard),
        decreases rest.len() - i,
    {
        let b = rest[i];
        assert(all.take(i + 1).drop_last() =~= all.take(i as int));
        assert(all.take(i + 1).last() == b@);
        if section_of(b) == Section::Body {
            let one = render_block(b, Some(i), transcript);
            out.append(one.as_str());
        }
        i = i + 1;
    }
    assert(all.take(i as int) =~= all);
    out
}

fn listed(b: &Block, listing: Listing) -> (r: bool)
    ensures
        r == is_listed(b@, listing),
{
    match (section_of(b), listing) {
        (Section::Decisions, Listing::Decisions) => b.kind == BlockKind::Decision,
        (Section::Decisions, Listing::Actions) => b.kind != BlockKind::Decision,
        (Section::Open, Listing::Open) => true,
        _ => false,
    }
}

fn render_listing(rest: &Vec<&Block>, listing: Listing, transcript: &[StoredSegment]) -> (h: String)
    ensures
        h@ == listing_html(views(rest@), listing, views(transcript@)),
{
    let ghost all = views(rest@);
    let ghost heard = views(transcript@);
    let mut out = String::new();
    let mut i: usize = 0;
    assert(out@ =~= listing_html(all.take(0), listing, heard));
    while i < rest.len()
        invariant
            i <= rest@.len(),
            all == views(rest@),
            heard == views(transcript@),
            out@ == listing_html(all.take(i as int), listing, heard),
        decreases rest.len() - i,
    {
        let b = rest[i];
        assert(all.take(i + 1).drop_last() =~= all.take(i as int));
        assert(all.take(i + 1).last() == b@);
        if listed(b, listing) {
            let one = render_block(b, None, transcript);
            out.append(one.as_str());
        }
        i = i + 1;
    }
    assert(all.take(i as int) =~= all);
    out
}

fn frame(open: &str, inner: &str, close: &str) -> (h: String)
    ensures
        h@ == framed(open@, inner@, close@),
{
    if inner.is_empty() {
        "".to_owned()
    } else {
        let mut out = open.to_owned();
        out.append(inner);
        out.append(close);
        out
    }
}

fn render_decisions(decisions: &str, actions: &str) -> (h: String)
    ensures
        h@ == decisions_section(decisions@, actions@),
{
    if decisions.is_empty() && actions.is_empty() {
        return "".to_owned();
    }
    let d = frame("<h3>決議</h3>", decisions, "");
    let a = frame("<h3>行動項目</h3>", actions, "");
    let mut out = "<section id=\"s-decisions\"><h2>決議與行動項目</h2>".to_owned();
    out.append(d.as_str());
    out.append(a.as_str());
    out.append("</section>");
    out
}

/// Adds the entries for the headings of the main part.
fn push_headings(entries: &mut Vec<TocEntry>, rest: &Vec<&Block>)
    ensures
        views(final(entries)@) == views(old(entries)@) + heading_entries(views(rest@)),
{
    let ghost all = views(rest@);
    let ghost start = views(entries@);
    let mut i: usize = 0;
    assert(start =~= start + heading_entries(all.take(0)));
    while i < rest.len()
        invariant
            i <= rest@.len(),
            all == views(rest@),
            views(entries@) == start + heading_entries(all.take(i as int)),
        decreases rest.len() - i,
    {
        let b = rest[i];
        let ghost before = entries@;
        assert(all.take(i + 1).drop_last() =~= all.take(i as int));
        assert(all.take(i + 1).last() == b@);
        if section_of(b) == Section::Body {
            if let BlockContent::Heading { level, text } = &b.content {
                if *level <= 2 {
                    let number = decimal_text(i as u128);
                    let mut href = "h-".to_owned();
                    href.append(number.as_str());
                    let e = TocEntry { href, label: text.clone(), sub: true };
                    let ghost v = e@;
                    entries.push(e);
                    assert(views(entries@) =~= views(before).push(v));
                }
            }
        }
        i = i + 1;
        assert(views(entries@) =~= start + heading_entries(all.take(i as int)));
    }
    assert(all.take(i as int) =~= all);
}

fn push_entry(entries: &mut Vec<TocEntry>, shown: bool, href: &str, label: &str)
    ensures
        views(final(entries)@) == views(old(entries)@) + entry_if(shown, href@, label@),
{
    if shown {
        entries.push(TocEntry { href: href.to_owned(), label: label.to_owned(), sub: false });
    }
    assert(views(entries@) =~= views(old(entries)@) + entry_if(shown, href@, label@));
}

fn render_entry(e: &TocEntry) -> (h: String)
    ensures
        h@ == entry_html(e@),
{
    let label = escape(e.label.as_str());
    let mut out = "<li".to_owned();
    out.append(if e.sub { " class=\"sub\"" } else { "" });
    out.append("><a href=\"#");
    out.append(e.href.as_str());
    out.append("\">");
    out.append(label.as_str());
    out.append("</a></li>");
    out
}

fn render_nav(entries: &Vec<TocEntry>) -> (h: String)
    ensures
        h@ == nav_html(views(entries@)),
{
    if entries.len() <= 1 {
        return "".to_owned();
    }
    let ghost all = views(entries@);
    let mut list = String::new();
    let mut i: usize = 0;
    assert(list@ =~= entries_html(all.take(0)));
    while i < entries.len()
        invariant
            i <= entries@.len(),
            all == views(entries@),
            list@ == entries_html(all.take(i as int)),
        decreases entries.len() - i,
    {
        assert(all.take(i + 1).drop_last() =~= all.take(i as int));
        let one = render_entry(&entries[i]);
        list.append(one.as_str());
        i = i + 1;
    }
    assert(all.take(i as int) =~= all);
    let mut out = "<nav class=\"toc\" aria-label=\"目錄\"><ul>".to_owned();
    out.append(list.as_str());
    out.append("</ul></nav>");
    out
}

fn render_segment(s: &StoredSegment, names: &Vec<(String, String)>) -> (h: String)
    ensures
        h@ == segment_html(s@, pair_views(names@)),
{
    let id = decimal_text(s.segment_id as u128);
    let revision = decimal_text(s.revision as u128);
    let start = mmss(s.meeting_start_ms);
    let time = escape(start.as_str());
    let who: String = match &s.speaker_id {
        Some(speaker) => match find_name(names, speaker.as_str()) {
            Some(name) => escape(name.as_str()),
            None => escape("未指派"),
        },
        None => escape("未指派"),
    };
    let text = escape(s.text.as_str());
    let mut out = "<div class=\"t-row\" id=\"seg-".to_owned();
    out.append(id.as_str());
    out.append("\"><span class=\"t-time\">");
    out.append(time.as_str());
    out.append("</span><span class=\"t-who\" id=\"seg-");
    out.append(id.as_str());
    out.append("-r");
    out.append(revision.as_str());
    out.append("\">");
    out.append(who.as_str());
    out.append("</span><p>");
    out.append(text.as_str());
    out.append("</p></div>");
    out
}

fn render_transcript(transcript: &[StoredSegment], names: &Vec<(String, String)>) -> (h: String)
    ensures
        h@ == transcript_html(views(transcript@), pair_views(names@)),
{
    let ghost all = views(transcript@);
    let mut rows = String::new();
    let mut i: usize = 0;
    assert(rows@ =~= segments_html(all.take(0), pair_views(names@)));
    while i < transcript.len()
        invariant
            i <= transcript@.len(),
            all == views(transcript@),
            rows@ == segments_html(all.take(i as int), pair_views(names@)),
        decreases transcript.len() - i,
    {
        assert(all.take(i + 1).drop_last() =~= all.take(i as int));
        assert(all.take(i + 1).last() == transcript@[i as int]@);
        let one = render_segment(&transcript[i], names);
        rows.append(one.as_str());
        i = i + 1;
    }
    assert(all.take(i as int) =~= all);
    frame(
        "<section id=\"s-transcript\" class=\"transcript\"><h2>逐字稿</h2>",
        rows.as_str(),
        "</section>",
    )
}

/// The page for a document: the summary, the main part, decisions and action items,
/// gaps and suggestions, and the transcript, with a table of contents in front.
pub fn render_html(ctx: &RenderContext<'_>, blocks: &[Block]) -> (h: String)
    ensures
        h@ == page(ctx@, views(blocks@)),
{
    let at: usize = find_summary(blocks);
    let rest = all_but(blocks, at);
    let summary = render_summary(blocks, at, ctx.transcript);
    let body = render_body(&rest, ctx.transcript);
    let decisions = render_listing(&rest, Listing::Decisions, ctx.transcript);
    let actions = render_listing(&rest, Listing::Actions, ctx.transcript);
    let open = render_listing(&rest, Listing::Open, ctx.transcript);

    let mut entries: Vec<TocEntry> = Vec::new();
    let has_body = !body.as_str().is_empty();
    push_entry(&mut entries, !summary.as_str().is_empty(), "s-summary", "成果摘要");
    assert(views(entries@) =~= entry_if(summary@.len() > 0, "s-summary"@, "成果摘要"@));
    let ghost first = views(entries@);
    if has_body {
        push_entry(&mut entries, true, "s-body", "主文");
        push_headings(&mut entries, &rest);
    }
    proof {
        let second = if has_body {
            seq![entry("s-body"@, "主文"@, false)] + heading_entries(views(rest@))
        } else {
            Seq::empty()
        };
        assert(views(entries@) =~= first + second);
    }
    push_entry(
        &mut entries,
        !decisions.as_str().is_empty() || !actions.as_str().is_empty(),
        "s-decisions",
        "決議與行動項目",
    );
    push_entry(&mut entries, !open.as_str().is_empty(), "s-open", "缺口與建議");
    push_entry(&mut entries, ctx.transcript.len() > 0, "s-transcript", "逐字稿");
    assert(views(entries@) == toc_entries(views(blocks@), ctx@.transcript));
    let nav = render_nav(&entries);

    let mut main = summary;
    let body_section = frame("<section id=\"s-body\">", body.as_str(), "</section>");
    main.append(body_section.as_str());
    let decisions_html = render_decisions(decisions.as_str(), actions.as_str());
    main.append(decisions_html.as_str());
    let open_section = frame(
        "<section id=\"s-open\" class=\"aside-claims\"><h2>缺口與建議</h2>",
        open.as_str(),
        "</section>",
    );
    main.append(open_section.as_str());

    let names = speaker_names(ctx.speakers, ctx.transcript);
    let transcript = render_transcript(ctx.transcript, &names);
    let title = escape(ctx.title);
    let version = decimal_text(ctx.version_no as u128);
    let through = decimal_text(ctx.through_event_seq as u128);
    let created = escape(ctx.created_at);

    let mut out = "<!doctype html><html lang=\"zh-Hant\"><head><meta charset=\"utf-8\"><meta name=\"viewport\" content=\"width=device-width,initial-scale=1\"><title>".to_owned();
    out.append(title.as_str());
    out.append("</title><style>");
    out.append(EXPORT_CSS);
    out.append("</style></head><body><header><h1>");
    out.append(title.as_str());
    out.append("</h1><p class=\"meta\">版本 v");
    out.append(version.as_str());
    out.append("・涵蓋至事件 ");
    out.append(through.as_str());
    out.append("・生成於 ");
    out.append(created.as_str());
    out.append(
        "</p><p class=\"disclaimer\">引用標記代表來源可回溯，不代表該陳述已被驗證為真。</p></header>",
    );
    out.append(nav.as_str());
    out.append("<main>");
    out.append(main.as_str());
    out.append("</main>");
    out.append(transcript.as_str());
    out.append("</body></html>");
    out
}

/// The style sheet of the page.
pub const EXPORT_CSS: &'static str = "\
:root{color-scheme:light dark;--ink:#16181d;--muted:#6b7280;--line:#e3e5ea;--bg:#fff;--soft:#f6f7f9}\
@media(prefers-color-scheme:dark){:root{--ink:#e6e8ee;--muted:#9aa1ad;--line:#2a2d35;--bg:#14161a;--soft:#1b1e24}}\
*{box-sizing:border-box}body{margin:0 auto;padding:40px 24px;max-width:56rem;background:var(--bg);color:var(--ink);\
font:15px/1.7 system-ui,'Noto Sans TC',sans-serif}\
h1{font-size:26px;margin:0 0 6px}h2{font-size:18px;margin:28px 0 10px}h3{font-size:16px}\
.meta,.disclaimer{color:var(--muted);font-size:13px;margin:2px 0}\
.toc{margin:24px 0;padding:12px 16px;background:var(--soft);border-radius:8px}\
.toc ul{margin:0;padding:0;list-style:none}\
.toc li{margin:2px 0}.toc li.sub{padding-left:16px;font-size:13px}\
.toc a{color:inherit;text-decoration:none}.toc a:hover{text-decoration:underline}\
.tldr{margin:24px 0;padding:16px 18px;border-left:3px solid var(--violet,#6b5bd2);background:var(--soft);border-radius:0 8px 8px 0}\
.tldr h2{margin:0 0 6px;font-size:15px;color:var(--muted);letter-spacing:.04em}\
.tldr p{margin:0;font-size:16px}\
#s-decisions h3{margin:18px 0 6px;font-size:14px;color:var(--muted)}\
.action{display:flex;flex-wrap:wrap;align-items:baseline;gap:8px;margin:0}\
.action-meta{display:inline-flex;gap:6px}\
.owner,.due{font-size:12px;border:1px solid var(--line);border-radius:999px;padding:1px 8px;color:var(--muted)}\
.blk{margin:14px 0}\
.blk[data-claim='inference']{border-left:3px solid var(--line);padding-left:12px}\
.blk[data-claim='inference']::before{content:'推論';font-size:11px;color:var(--muted);display:block}\
.blk[data-claim='gap']::before{content:'缺口';font-size:11px;color:var(--muted);display:block}\
.blk[data-claim='suggestion']::before{content:'建議';font-size:11px;color:var(--muted);display:block}\
.aside-claims{margin-top:32px;padding-top:16px;border-top:1px solid var(--line)}\
table{border-collapse:collapse;width:100%}th,td{border:1px solid var(--line);padding:6px 9px;text-align:left}\
.callout{background:var(--soft);padding:12px 14px;border-radius:8px}\
blockquote{margin:0;padding:10px 14px;background:var(--soft);border-radius:8px}\
.cites{display:inline-flex;gap:6px;flex-wrap:wrap;margin-left:6px}\
.cite{font-size:11px;color:var(--muted);text-decoration:none;border:1px solid var(--line);\
border-radius:999px;padding:1px 7px}\
.cite[data-stale='1']{border-style:dashed;border-color:var(--muted)}\
.transcript{margin-top:40px;border-top:1px solid var(--line);padding-top:16px}\
.t-row{display:grid;grid-template-columns:56px 96px 1fr;gap:10px;padding:4px 0}\
.t-time,.t-who{color:var(--muted);font-size:12px}\
.t-row p{margin:0}\
@media print{body{max-width:none}.cite{border:0}}";

/// The style sheet holds no tag and no value in quotation marks.
pub proof fn lemma_style_sheet()
    ensures
        forall|i: int|
            0 <= i < EXPORT_CSS@.len() ==> #[trigger] EXPORT_CSS@[i] != '<' && EXPORT_CSS@[i]
                != '"',
{
    reveal_strlit("\
:root{color-scheme:light dark;--ink:#16181d;--muted:#6b7280;--line:#e3e5ea;--bg:#fff;--soft:#f6f7f9}\
@media(prefers-color-scheme:dark){:root{--ink:#e6e8ee;--muted:#9aa1ad;--line:#2a2d35;--bg:#14161a;--soft:#1b1e24}}\
*{box-sizing:border-box}body{margin:0 auto;padding:40px 24px;max-width:56rem;background:var(--bg);color:var(--ink);\
font:15px/1.7 system-ui,'Noto Sans TC',sans-serif}\
h1{font-size:26px;margin:0 0 6px}h2{font-size:18px;margin:28px 0 10px}h3{font-size:16px}\
.meta,.disclaimer{color:var(--muted);font-size:13px;margin:2px 0}\
.toc{margin:24px 0;padding:12px 16px;background:var(--soft);border-radius:8px}\
.toc ul{margin:0;padding:0;list-style:none}\
.toc li{margin:2px 0}.toc li.sub{padding-left:16px;font-size:13px}\
.toc a{color:inherit;text-decoration:none}.toc a:hover{text-decoration:underline}\
.tldr{margin:24px 0;padding:16px 18px;border-left:3px solid var(--violet,#6b5bd2);background:var(--soft);border-radius:0 8px 8px 0}\
.tldr h2{margin:0 0 6px;font-size:15px;color:var(--muted);letter-spacing:.04em}\
.tldr p{margin:0;font-size:16px}\
#s-decisions h3{margin:18px 0 6px;font-size:14px;color:var(--muted)}\
.action{display:flex;flex-wrap:wrap;align-items:baseline;gap:8px;margin:0}\
.action-meta{display:inline-flex;gap:6px}\
.owner,.due{font-size:12px;border:1px solid var(--line);border-radius:999px;padding:1px 8px;color:var(--muted)}\
.blk{margin:14px 0}\
.blk[data-claim='inference']{border-left:3px solid var(--line);padding-left:12px}\
.blk[data-claim='inference']::before{content:'推論';font-size:11px;color:var(--muted);display:block}\
.blk[data-claim='gap']::before{content:'缺口';font-size:11px;color:var(--muted);display:block}\
.blk[data-claim='suggestion']::before{content:'建議';font-size:11px;color:var(--muted);display:block}\
.aside-claims{margin-top:32px;padding-top:16px;border-top:1px solid var(--line)}\
table{border-collapse:collapse;width:100%}th,td{border:1px solid var(--line);padding:6px 9px;text-align:left}\
.callout{background:var(--soft);padding:12px 14px;border-radius:8px}\
blockquote{margin:0;padding:10px 14px;background:var(--soft);border-radius:8px}\
.cites{display:inline-flex;gap:6px;flex-wrap:wrap;margin-left:6px}\
.cite{font-size:11px;color:var(--muted);text-decoration:none;border:1px solid var(--line);\
border-radius:999px;padding:1px 7px}\
.cite[data-stale='1']{border-style:dashed;border-color:var(--muted)}\
.transcript{margin-top:40px;border-top:1px solid var(--line);padding-top:16px}\
.t-row{display:grid;grid-template-columns:56px 96px 1fr;gap:10px;padding:4px 0}\
.t-time,.t-who{color:var(--muted);font-size:12px}\
.t-row p{margin:0}\
@media print{body{max-width:none}.cite{border:0}}");
}

} // verus!
