//! The blocks that a document is made of, and the rules that one of them must meet.
//!
//! What a block claims has no default: a block without it is not valid. Rendering
//! and storing take these structured blocks and never markup.

use crate::model::ClaimKind;
use crate::store::{copy_refs, DocumentBlock, DocumentBlockView, SourceRef, SourceRefView};
use crate::text::{blank, copy_list, copy_opt, is_blank, join, joined, opt_view, same, views};
use vstd::prelude::*;
use vstd::string::*;

verus! {

/// The kinds of block that a document knows.
#[derive(Debug, Clone, Copy, PartialEq, Eq, Structural)]
pub enum BlockKind {
    Heading,
    Paragraph,
    BulletList,
    Table,
    MermaidDiagram,
    Callout,
    Decision,
    ActionItem,
    Gap,
    Suggestion,
    SourceLink,
    TranscriptExcerpt,
}

/// Every kind of block.
pub const ALL_BLOCK_KINDS: [BlockKind; 12] = [
    BlockKind::Heading,
    BlockKind::Paragraph,
    BlockKind::BulletList,
    BlockKind::Table,
    BlockKind::MermaidDiagram,
    BlockKind::Callout,
    BlockKind::Decision,
    BlockKind::ActionItem,
    BlockKind::Gap,
    BlockKind::Suggestion,
    BlockKind::SourceLink,
    BlockKind::TranscriptExcerpt,
];

impl BlockKind {
    /// The word that stands for this value in stored form.
    pub open spec fn word(self) -> Seq<char> {
        match self {
            BlockKind::Heading => "heading"@,
            BlockKind::Paragraph => "paragraph"@,
            BlockKind::BulletList => "bulletList"@,
            BlockKind::Table => "table"@,
            BlockKind::MermaidDiagram => "mermaidDiagram"@,
            BlockKind::Callout => "callout"@,
            BlockKind::Decision => "decision"@,
            BlockKind::ActionItem => "actionItem"@,
            BlockKind::Gap => "gap"@,
            BlockKind::Suggestion => "suggestion"@,
            BlockKind::SourceLink => "sourceLink"@,
            BlockKind::TranscriptExcerpt => "transcriptExcerpt"@,
        }
    }

    /// The value that the word `s` stands for.
    pub open spec fn from_word(s: Seq<char>) -> Option<Self> {
        if s == "heading"@ {
            Some(BlockKind::Heading)
        } else if s == "paragraph"@ {
            Some(BlockKind::Paragraph)
        } else if s == "bulletList"@ {
            Some(BlockKind::BulletList)
        } else if s == "table"@ {
            Some(BlockKind::Table)
        } else if s == "mermaidDiagram"@ {
            Some(BlockKind::MermaidDiagram)
        } else if s == "callout"@ {
            Some(BlockKind::Callout)
        } else if s == "decision"@ {
            Some(BlockKind::Decision)
        } else if s == "actionItem"@ {
            Some(BlockKind::ActionItem)
        } else if s == "gap"@ {
            Some(BlockKind::Gap)
        } else if s == "suggestion"@ {
            Some(BlockKind::Suggestion)
        } else if s == "sourceLink"@ {
            Some(BlockKind::SourceLink)
        } else if s == "transcriptExcerpt"@ {
            Some(BlockKind::TranscriptExcerpt)
        } else {
            None
        }
    }

    pub fn as_str(self) -> (r: &'static str)
        ensures
            r@ == self.word(),
    {
        match self {
            BlockKind::Heading => "heading",
            BlockKind::Paragraph => "paragraph",
            BlockKind::BulletList => "bulletList",
            BlockKind::Table => "table",
            BlockKind::MermaidDiagram => "mermaidDiagram",
            BlockKind::Callout => "callout",
            BlockKind::Decision => "decision",
            BlockKind::ActionItem => "actionItem",
            BlockKind::Gap => "gap",
            BlockKind::Suggestion => "suggestion",
            BlockKind::SourceLink => "sourceLink",
            BlockKind::TranscriptExcerpt => "transcriptExcerpt",
        }
    }

    pub fn parse(s: &str) -> (r: Option<Self>)
        ensures
            r == Self::from_word(s@),
    {
        if same(s, "heading") {
            Some(BlockKind::Heading)
        } else if same(s, "paragraph") {
            Some(BlockKind::Paragraph)
        } else if same(s, "bulletList") {
            Some(BlockKind::BulletList)
        } else if same(s, "table") {
            Some(BlockKind::Table)
        } else if same(s, "mermaidDiagram") {
            Some(BlockKind::MermaidDiagram)
        } else if same(s, "callout") {
            Some(BlockKind::Callout)
        } else if same(s, "decision") {
            Some(BlockKind::Decision)
        } else if same(s, "actionItem") {
            Some(BlockKind::ActionItem)
        } else if same(s, "gap") {
            Some(BlockKind::Gap)
        } else if same(s, "suggestion") {
            Some(BlockKind::Suggestion)
        } else if same(s, "sourceLink") {
            Some(BlockKind::SourceLink)
        } else if same(s, "transcriptExcerpt") {
            Some(BlockKind::TranscriptExcerpt)
        } else {
            None
        }
    }

    /// The one claim that a block of this kind can make, where there is only one.
    ///
    /// A decision, an action item and an excerpt say that something happened in the
    /// meeting, so they are facts. Gaps and suggestions are what they are called.
    pub open spec fn fixed_claim(self) -> Option<ClaimKind> {
        match self {
            BlockKind::Decision | BlockKind::ActionItem | BlockKind::TranscriptExcerpt => Some(
                ClaimKind::Fact,
            ),
            BlockKind::Gap => Some(ClaimKind::Gap),
            BlockKind::Suggestion => Some(ClaimKind::Suggestion),
            _ => None,
        }
    }

    /// The one claim that a block of this kind can make, where there is only one.
    pub fn required_claim_kind(self) -> (r: Option<ClaimKind>)
        ensures
            r == self.fixed_claim(),
    {
        match self {
            BlockKind::Decision | BlockKind::ActionItem | BlockKind::TranscriptExcerpt => Some(
                ClaimKind::Fact,
            ),
            BlockKind::Gap => Some(ClaimKind::Gap),
            BlockKind::Suggestion => Some(ClaimKind::Suggestion),
            _ => None,
        }
    }

    /// Whether a block with this claim may become a plain paragraph when its
    /// structure is not valid. A fact may not: its text would then stand in the
    /// document without the citation that it owes.
    pub fn may_degrade(claim: ClaimKind) -> (r: bool)
        ensures
            r == !(claim is Fact),
    {
        claim != ClaimKind::Fact
    }
}

/// Every `BlockKind` is read back from the word that is written for it, and no other word
/// is read as it.
pub proof fn block_kind_words_round_trip(x: BlockKind, s: Seq<char>)
    ensures
        BlockKind::from_word(x.word()) == Some(x),
        BlockKind::from_word(s) == Some(x) ==> s == x.word(),
{
    reveal_strlit("heading");
    reveal_strlit("paragraph");
    reveal_strlit("bulletList");
    reveal_strlit("table");
    reveal_strlit("mermaidDiagram");
    reveal_strlit("callout");
    reveal_strlit("decision");
    reveal_strlit("actionItem");
    reveal_strlit("gap");
    reveal_strlit("suggestion");
    reveal_strlit("sourceLink");
    reveal_strlit("transcriptExcerpt");
    assert("heading"@.len() == 7);
    assert("paragraph"@.len() == 9);
    assert("bulletList"@.len() == 10);
    assert("table"@.len() == 5);
    assert("mermaidDiagram"@.len() == 14);
    assert("callout"@.len() == 7);
    assert("decision"@.len() == 8);
    assert("actionItem"@.len() == 10);
    assert("gap"@.len() == 3);
    assert("suggestion"@.len() == 10);
    assert("sourceLink"@.len() == 10);
    assert("transcriptExcerpt"@.len() == 17);
    assert("heading"@[0] == 'h');
    assert("callout"@[0] == 'c');
    assert("bulletList"@[0] == 'b');
    assert("actionItem"@[0] == 'a');
    assert("suggestion"@[0] == 's');
    assert("sourceLink"@[0] == 's');
    assert("suggestion"@[1] == 'u');
    assert("sourceLink"@[1] == 'o');
}

/// What a block holds, by its structure.
#[derive(Debug, PartialEq, Eq)]
pub enum BlockContent {
    Heading { level: u8, text: String },
    Text { text: String },
    Bullets { items: Vec<String> },
    Table { headers: Vec<String>, rows: Vec<Vec<String>> },
    Mermaid { source: String },
    Callout { tone: String, title: String, body: String },
    ActionItem { text: String, owner: Option<String>, due: Option<String> },
    Excerpt { speaker: String, text: String, meeting_time_ms: u64 },
    Link { label: String, target: String },
}

pub enum ContentView {
    Heading { level: u8, text: Seq<char> },
    Text { text: Seq<char> },
    Bullets { items: Seq<Seq<char>> },
    Table { headers: Seq<Seq<char>>, rows: Seq<Seq<Seq<char>>> },
    Mermaid { source: Seq<char> },
    Callout { tone: Seq<char>, title: Seq<char>, body: Seq<char> },
    ActionItem { text: Seq<char>, owner: Option<Seq<char>>, due: Option<Seq<char>> },
    Excerpt { speaker: Seq<char>, text: Seq<char>, meeting_time_ms: u64 },
    Link { label: Seq<char>, target: Seq<char> },
}

/// The texts of the cells of a table, row by row.
pub open spec fn row_views(rows: Seq<Vec<String>>) -> Seq<Seq<Seq<char>>> {
    Seq::new(rows.len(), |i: int| views(rows[i]@))
}

impl View for BlockContent {
    type V = ContentView;

    open spec fn view(&self) -> ContentView {
        match *self {
            BlockContent::Heading { level, text } => ContentView::Heading { level, text: text@ },
            BlockContent::Text { text } => ContentView::Text { text: text@ },
            BlockContent::Bullets { items } => ContentView::Bullets { items: views(items@) },
            BlockContent::Table { headers, rows } => ContentView::Table {
                headers: views(headers@),
                rows: row_views(rows@),
            },
            BlockContent::Mermaid { source } => ContentView::Mermaid { source: source@ },
            BlockContent::Callout { tone, title, body } => ContentView::Callout {
                tone: tone@,
                title: title@,
                body: body@,
            },
            BlockContent::ActionItem { text, owner, due } => ContentView::ActionItem {
                text: text@,
                owner: opt_view(owner),
                due: opt_view(due),
            },
            BlockContent::Excerpt { speaker, text, meeting_time_ms } => ContentView::Excerpt {
                speaker: speaker@,
                text: text@,
                meeting_time_ms,
            },
            BlockContent::Link { label, target } => ContentView::Link {
                label: label@,
                target: target@,
            },
        }
    }
}

fn copy_rows(rows: &Vec<Vec<String>>) -> (r: Vec<Vec<String>>)
    ensures
        row_views(r@) == row_views(rows@),
{
    let mut out: Vec<Vec<String>> = Vec::new();
    let mut i: usize = 0;
    while i < rows.len()
        invariant
            i <= rows@.len(),
            row_views(out@) == row_views(rows@).take(i as int),
        decreases rows.len() - i,
    {
        let ghost before = out@;
        out.push(copy_list(&rows[i]));
        assert(row_views(out@) =~= row_views(before).push(row_views(rows@)[i as int]));
        i = i + 1;
        assert(row_views(out@) =~= row_views(rows@).take(i as int));
    }
    assert(row_views(rows@).take(i as int) =~= row_views(rows@));
    out
}

impl Clone for BlockContent {
    fn clone(&self) -> (r: Self)
        ensures
            r@ == self@,
    {
        match self {
            BlockContent::Heading { level, text } => BlockContent::Heading {
                level: *level,
                text: text.clone(),
            },
            BlockContent::Text { text } => BlockContent::Text { text: text.clone() },
            BlockContent::Bullets { items } => BlockContent::Bullets { items: copy_list(items) },
            BlockContent::Table { headers, rows } => BlockContent::Table {
                headers: copy_list(headers),
                rows: copy_rows(rows),
            },
            BlockContent::Mermaid { source } => BlockContent::Mermaid { source: source.clone() },
            BlockContent::Callout { tone, title, body } => BlockContent::Callout {
                tone: tone.clone(),
                title: title.clone(),
                body: body.clone(),
            },
            BlockContent::ActionItem { text, owner, due } => BlockContent::ActionItem {
                text: text.clone(),
                owner: copy_opt(owner),
                due: copy_opt(due),
            },
            BlockContent::Excerpt { speaker, text, meeting_time_ms } => BlockContent::Excerpt {
                speaker: speaker.clone(),
                text: text.clone(),
                meeting_time_ms: *meeting_time_ms,
            },
            BlockContent::Link { label, target } => BlockContent::Link {
                label: label.clone(),
                target: target.clone(),
            },
        }
    }
}

/// The rows of a table as text, each after a separator.
pub open spec fn rows_text(rows: Seq<Seq<Seq<char>>>) -> Seq<char>
    decreases rows.len(),
{
    if rows.len() == 0 {
        Seq::empty()
    } else {
        rows_text(rows.drop_last()).push('；') + joined(rows.last(), "、"@)
    }
}

impl ContentView {
    /// The readable text of the content, without its structure.
    pub open spec fn plain(self) -> Seq<char> {
        match self {
            ContentView::Heading { text, .. } => text,
            ContentView::Text { text } => text,
            ContentView::ActionItem { text, .. } => text,
            ContentView::Excerpt { text, .. } => text,
            ContentView::Bullets { items } => joined(items, "；"@),
            ContentView::Table { headers, rows } => joined(headers, "、"@) + rows_text(rows),
            ContentView::Mermaid { source } => source,
            ContentView::Callout { title, body, .. } => title + "："@ + body,
            ContentView::Link { label, target } => label + "（"@ + target + "）"@,
        }
    }
}

impl BlockContent {
    /// The readable text of the content, for a block that gives up its structure.
    pub fn plain_text(&self) -> (r: String)
        ensures
            r@ == self@.plain(),
    {
        match self {
            BlockContent::Heading { text, .. } => text.clone(),
            BlockContent::Text { text } => text.clone(),
            BlockContent::ActionItem { text, .. } => text.clone(),
            BlockContent::Excerpt { text, .. } => text.clone(),
            BlockContent::Bullets { items } => join(items, "；"),
            BlockContent::Table { headers, rows } => {
                let mut out = join(headers, "、");
                let ghost head = out@;
                let ghost all = row_views(rows@);
                assert(head =~= head + rows_text(all.take(0)));
                let mut i: usize = 0;
                while i < rows.len()
                    invariant
                        i <= rows@.len(),
                        all == row_views(rows@),
                        out@ == head + rows_text(all.take(i as int)),
                    decreases rows.len() - i,
                {
                    out.push('；');
                    let cells = join(&rows[i], "、");
                    out.append(cells.as_str());
                    i = i + 1;
                    assert(all.take(i as int).drop_last() =~= all.take(i - 1));
                    assert(out@ =~= head + rows_text(all.take(i as int)));
                }
                assert(all.take(i as int) =~= all);
                out
            },
            BlockContent::Mermaid { source } => source.clone(),
            BlockContent::Callout { title, body, .. } => {
                let mut out = title.clone();
                out.append("：");
                out.append(body.as_str());
                out
            },
            BlockContent::Link { label, target } => {
                let mut out = label.clone();
                out.append("（");
                out.append(target.as_str());
                out.append("）");
                out
            },
        }
    }
}

/// One block of a document.
#[derive(Debug, PartialEq, Eq)]
pub struct Block {
    pub kind: BlockKind,
    pub claim_kind: ClaimKind,
    pub content: BlockContent,
    pub source_refs: Vec<SourceRef>,
}

pub struct BlockView {
    pub kind: BlockKind,
    pub claim_kind: ClaimKind,
    pub content: ContentView,
    pub source_refs: Seq<SourceRefView>,
}

impl View for Block {
    type V = BlockView;

    open spec fn view(&self) -> BlockView {
        BlockView {
            kind: self.kind,
            claim_kind: self.claim_kind,
            content: self.content@,
            source_refs: views(self.source_refs@),
        }
    }
}

impl Clone for Block {
    fn clone(&self) -> (r: Self)
        ensures
            r@ == self@,
            r.source_refs@ == self.source_refs@,
    {
        Block {
            kind: self.kind,
            claim_kind: self.claim_kind,
            content: self.content.clone(),
            source_refs: copy_refs(&self.source_refs),
        }
    }
}

/// Why a block is not valid.
#[derive(Debug, Clone, PartialEq, Eq)]
pub enum SchemaError {
    /// The content does not have the structure that the kind asks for.
    ContentShapeMismatch,
    /// The kind allows one claim only, and the block makes another.
    ClaimKindNotAllowed { required: ClaimKind },
    Empty(&'static str),
    OutOfRange(&'static str),
}

impl SchemaError {
    /// The reason in words.
    pub open spec fn words(self) -> Seq<char> {
        match self {
            SchemaError::ContentShapeMismatch => "區塊內容與種類不符"@,
            SchemaError::ClaimKindNotAllowed { required } => "這種區塊的 claim_kind 必須是 "@
                + required.word(),
            SchemaError::Empty(what) => what@ + " 不得為空"@,
            SchemaError::OutOfRange(what) => what@ + " 超出允許範圍"@,
        }
    }

    /// The reason in words.
    pub fn message(&self) -> (r: String)
        ensures
            r@ == self.words(),
    {
        match self {
            SchemaError::ContentShapeMismatch => "區塊內容與種類不符".to_owned(),
            SchemaError::ClaimKindNotAllowed { required } => {
                let mut out = "這種區塊的 claim_kind 必須是 ".to_owned();
                out.append((*required).as_str());
                out
            },
            SchemaError::Empty(what) => {
                let mut out = (*what).to_owned();
                out.append(" 不得為空");
                out
            },
            SchemaError::OutOfRange(what) => {
                let mut out = (*what).to_owned();
                out.append(" 超出允許範圍");
                out
            },
        }
    }
}

/// A text that must not be blank, named for the reader by `what`.
pub open spec fn filled(s: Seq<char>, what: &'static str) -> Result<(), SchemaError> {
    if blank(s) {
        Err(SchemaError::Empty(what))
    } else {
        Ok(())
    }
}

/// Both texts must not be blank. The first one is named where both are.
pub open spec fn both_filled(
    s: Seq<char>,
    what: &'static str,
    t: Seq<char>,
    other: &'static str,
) -> Result<(), SchemaError> {
    if blank(s) {
        Err(SchemaError::Empty(what))
    } else {
        filled(t, other)
    }
}

/// Whether some row has another number of cells than the header.
pub open spec fn is_ragged(headers: Seq<Seq<char>>, rows: Seq<Seq<Seq<char>>>) -> bool {
    exists|i: int| 0 <= i < rows.len() && (#[trigger] rows[i]).len() != headers.len()
}

/// What the rules say of content of the structure that `kind` asks for.
pub open spec fn content_check(kind: BlockKind, content: ContentView) -> Result<(), SchemaError> {
    match (kind, content) {
        (BlockKind::Heading, ContentView::Heading { level, text }) => if 1 <= level <= 4 {
            filled(text, "標題文字")
        } else {
            Err(SchemaError::OutOfRange("標題層級"))
        },
        (BlockKind::Paragraph, ContentView::Text { text }) => filled(text, "內文"),
        (BlockKind::Decision, ContentView::Text { text }) => filled(text, "內文"),
        (BlockKind::Gap, ContentView::Text { text }) => filled(text, "內文"),
        (BlockKind::Suggestion, ContentView::Text { text }) => filled(text, "內文"),
        (BlockKind::BulletList, ContentView::Bullets { items }) => if items.len() == 0 {
            Err(SchemaError::Empty("項目清單"))
        } else if exists|i: int| 0 <= i < items.len() && blank(#[trigger] items[i]) {
            Err(SchemaError::Empty("清單項目"))
        } else {
            Ok(())
        },
        (BlockKind::Table, ContentView::Table { headers, rows }) => if headers.len() == 0 {
            Err(SchemaError::Empty("表頭"))
        } else if is_ragged(headers, rows) {
            Err(SchemaError::OutOfRange("表格欄數"))
        } else {
            Ok(())
        },
        (BlockKind::MermaidDiagram, ContentView::Mermaid { source }) => filled(
            source,
            "圖表原始碼",
        ),
        (BlockKind::Callout, ContentView::Callout { title, body, .. }) => both_filled(
            title,
            "提示標題",
            body,
            "提示內容",
        ),
        (BlockKind::ActionItem, ContentView::ActionItem { text, .. }) => filled(
            text,
            "行動項目",
        ),
        (BlockKind::TranscriptExcerpt, ContentView::Excerpt { text, .. }) => filled(
            text,
            "逐字稿摘錄",
        ),
        (BlockKind::SourceLink, ContentView::Link { label, target }) => both_filled(
            label,
            "連結文字",
            target,
            "連結目標",
        ),
        _ => Err(SchemaError::ContentShapeMismatch),
    }
}

impl BlockView {
    /// What the rules say of the block.
    pub open spec fn check(self) -> Result<(), SchemaError> {
        match self.kind.fixed_claim() {
            Some(required) => if self.claim_kind != required {
                Err(SchemaError::ClaimKindNotAllowed { required })
            } else {
                content_check(self.kind, self.content)
            },
            None => content_check(self.kind, self.content),
        }
    }
}

/// A text that must not be blank, named for the reader by `what`.
pub fn non_empty(s: &str, what: &'static str) -> (r: Result<(), SchemaError>)
    ensures
        r == filled(s@, what),
{
    if is_blank(s) {
        Err(SchemaError::Empty(what))
    } else {
        Ok(())
    }
}

/// Both texts must not be blank. The first one is named where both are.
fn both_non_empty(s: &str, what: &'static str, t: &str, other: &'static str) -> (r: Result<
    (),
    SchemaError,
>)
    ensures
        r == both_filled(s@, what, t@, other),
{
    match non_empty(s, what) {
        Ok(()) => non_empty(t, other),
        Err(e) => Err(e),
    }
}

fn check_items(items: &Vec<String>) -> (r: Result<(), SchemaError>)
    ensures
        r == content_check(BlockKind::BulletList, ContentView::Bullets { items: views(items@) }),
{
    if items.len() == 0 {
        return Err(SchemaError::Empty("項目清單"));
    }
    let mut i: usize = 0;
    while i < items.len()
        invariant
            i <= items@.len(),
            forall|j: int| 0 <= j < i ==> !blank(#[trigger] views(items@)[j]),
        decreases items.len() - i,
    {
        if is_blank(items[i].as_str()) {
            assert(blank(views(items@)[i as int]));
            return Err(SchemaError::Empty("清單項目"));
        }
        i = i + 1;
    }
    Ok(())
}

fn check_table(headers: &Vec<String>, rows: &Vec<Vec<String>>) -> (r: Result<(), SchemaError>)
    ensures
        r == content_check(
            BlockKind::Table,
            ContentView::Table { headers: views(headers@), rows: row_views(rows@) },
        ),
{
    if headers.len() == 0 {
        return Err(SchemaError::Empty("表頭"));
    }
    let mut i: usize = 0;
    while i < rows.len()
        invariant
            i <= rows@.len(),
            headers@.len() > 0,
            forall|j: int| 0 <= j < i ==> (#[trigger] row_views(rows@)[j]).len() == views(
                headers@,
            ).len(),
        decreases rows.len() - i,
    {
        if rows[i].len() != headers.len() {
            assert(row_views(rows@)[i as int].len() == rows@[i as int]@.len());
            assert(is_ragged(views(headers@), row_views(rows@)));
            return Err(SchemaError::OutOfRange("表格欄數"));
        }
        i = i + 1;
    }
    Ok(())
}

impl Block {
    /// Holds the block to the rules.
    pub fn validate(&self) -> (r: Result<(), SchemaError>)
        ensures
            r == self@.check(),
    {
        if let Some(required) = self.kind.required_claim_kind() {
            if self.claim_kind != required {
                return Err(SchemaError::ClaimKindNotAllowed { required });
            }
        }
        match (self.kind, &self.content) {
            (BlockKind::Heading, BlockContent::Heading { level, text }) => {
                if *level < 1 || *level > 4 {
                    Err(SchemaError::OutOfRange("標題層級"))
                } else {
                    non_empty(text.as_str(), "標題文字")
                }
            },
            (BlockKind::Paragraph, BlockContent::Text { text }) => non_empty(text.as_str(), "內文"),
            (BlockKind::Decision, BlockContent::Text { text }) => non_empty(text.as_str(), "內文"),
            (BlockKind::Gap, BlockContent::Text { text }) => non_empty(text.as_str(), "內文"),
            (BlockKind::Suggestion, BlockContent::Text { text }) => non_empty(
                text.as_str(),
                "內文",
            ),
            (BlockKind::BulletList, BlockContent::Bullets { items }) => check_items(items),
            (BlockKind::Table, BlockContent::Table { headers, rows }) => check_table(
                headers,
                rows,
            ),
            (BlockKind::MermaidDiagram, BlockContent::Mermaid { source }) => non_empty(
                source.as_str(),
                "圖表原始碼",
            ),
            (BlockKind::Callout, BlockContent::Callout { title, body, .. }) => both_non_empty(
                title.as_str(),
                "提示標題",
                body.as_str(),
                "提示內容",
            ),
            (BlockKind::ActionItem, BlockContent::ActionItem { text, .. }) => non_empty(
                text.as_str(),
                "行動項目",
            ),
            (BlockKind::TranscriptExcerpt, BlockContent::Excerpt { text, .. }) => non_empty(
                text.as_str(),
                "逐字稿摘錄",
            ),
            (BlockKind::SourceLink, BlockContent::Link { label, target }) => both_non_empty(
                label.as_str(),
                "連結文字",
                target.as_str(),
                "連結目標",
            ),
            _ => Err(SchemaError::ContentShapeMismatch),
        }
    }

    /// The row for this block at `position`. `content_json` is the content as JSON, or
    /// nothing where it could not be written.
    pub fn to_stored(&self, position: u32, content_json: Option<String>) -> (r: DocumentBlock)
        ensures
            r@ == self@.stored(position, opt_view(content_json)),
    {
        DocumentBlock {
            position,
            kind: self.kind.as_str().to_owned(),
            claim_kind: self.claim_kind,
            content: match content_json {
                Some(json) => json,
                None => "{}".to_owned(),
            },
            source_refs: copy_refs(&self.source_refs),
        }
    }

    /// The block of a row. `content` is what the row's JSON holds, or nothing where it
    /// is damaged. A damaged row gives no block at all rather than an empty one.
    pub fn from_stored(b: &DocumentBlock, content: Option<BlockContent>) -> (r: Option<Self>)
        ensures
            opt_view(r) == restored(b@, opt_view(content)),
    {
        match (BlockKind::parse(b.kind.as_str()), content) {
            (Some(kind), Some(content)) => Some(
                Block {
                    kind,
                    claim_kind: b.claim_kind,
                    content,
                    source_refs: copy_refs(&b.source_refs),
                },
            ),
            _ => None,
        }
    }
}

impl BlockView {
    /// The row for the block at `position`, where its content reads `content_json`.
    pub open spec fn stored(self, position: u32, content_json: Option<Seq<char>>) -> DocumentBlockView {
        DocumentBlockView {
            position,
            kind: self.kind.word(),
            claim_kind: self.claim_kind,
            content: match content_json {
                Some(json) => json,
                None => "{}"@,
            },
            source_refs: self.source_refs,
        }
    }
}

/// The block of a row whose JSON holds `content`.
pub open spec fn restored(b: DocumentBlockView, content: Option<ContentView>) -> Option<BlockView> {
    match (BlockKind::from_word(b.kind), content) {
        (Some(kind), Some(content)) => Some(
            BlockView { kind, claim_kind: b.claim_kind, content, source_refs: b.source_refs },
        ),
        _ => None,
    }
}

/// A block that went into a row comes out of it again, if its JSON reads back as the
/// content that was written.
pub proof fn stored_blocks_read_back(b: BlockView, position: u32, json: Option<Seq<char>>)
    ensures
        restored(b.stored(position, json), Some(b.content)) == Some(b),
        restored(b.stored(position, json), None) is None,
{
    block_kind_words_round_trip(b.kind, Seq::empty());
}

/// A valid block whose kind speaks of what happened claims a fact.
pub proof fn valid_blocks_claim_what_their_kind_allows(b: BlockView)
    requires
        b.check() is Ok,
    ensures
        b.kind is Decision || b.kind is ActionItem || b.kind is TranscriptExcerpt ==> b.claim_kind
            is Fact,
        b.kind is Gap ==> b.claim_kind is Gap,
        b.kind is Suggestion ==> b.claim_kind is Suggestion,
{
}

} // verus!
