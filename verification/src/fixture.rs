//! A planner that calls no provider.
//!
//! What a model writes differs from run to run, and nothing can be tested against it.
//! This planner quotes the evidence word for word, so its drafts go the same way
//! through the check as any other.

use crate::agent::{
    may_answer, DraftRequest, Planner, Turn,
};
use crate::citation::{
    is_quotable, located, normalized, quotable, quote_stands, sha256_hex, text_digest, verdict,
    CharSpan,
};
use crate::document::{Block, BlockContent, BlockKind, BlockView, ContentView};
use crate::evidence::{AgentError, AgentErrorView};
use crate::model::ClaimKind;
use crate::store::{
    lookup, EvidenceTextView, SourceRef, SourceRefView, StoredSegment, StoredSegmentView,
};
use crate::text::{
    chars_of, decimal, decimal_reads_back, decimal_text, is_digit, is_white_space, occurs_at,
    parsed_usize, string_of, trim, trimmed, views, without_plus,
};
use vstd::prelude::*;
use vstd::string::*;

verus! {

pub struct FixturePlanner;

/// The first `n` characters.
pub open spec fn at_most(s: Seq<char>, n: int) -> Seq<char> {
    if s.len() > n {
        s.take(n)
    } else {
        s
    }
}

fn first_chars(s: &str, n: usize) -> (r: String)
    ensures
        r@ == at_most(s@, n as int),
{
    let chars = chars_of(s);
    if chars.len() > n {
        assert(chars@.subrange(0, n as int) =~= s@.take(n as int));
        string_of(&chars, 0, n)
    } else {
        s.to_owned()
    }
}

/// The block that leads the draft. It says what this planner is, and makes up no summary.
pub open spec fn fixture_summary() -> BlockView {
    BlockView {
        kind: BlockKind::Callout,
        claim_kind: ClaimKind::Inference,
        content: ContentView::Callout {
            tone: "summary"@,
            title: "成果摘要"@,
            body: "這一版由內建測試規劃器產生，沒有呼叫任何模型。以下內容是逐字稿的直接摘錄，不是摘要。"@,
        },
        source_refs: Seq::empty(),
    }
}

/// The heading of the draft: the prompt, cut short, where there is one.
pub open spec fn fixture_heading(prompt: Seq<char>) -> BlockView {
    BlockView {
        kind: BlockKind::Heading,
        claim_kind: ClaimKind::Inference,
        content: ContentView::Heading {
            level: 1,
            text: if trimmed(prompt).len() == 0 {
                "會議摘要"@
            } else {
                at_most(trimmed(prompt), 40)
            },
        },
        source_refs: Seq::empty(),
    }
}

/// The part of a segment that is quoted: its beginning.
pub open spec fn fixture_quote(s: StoredSegmentView) -> Seq<char> {
    at_most(s.text, 12)
}

/// The citation of the beginning of a segment.
pub open spec fn fixture_ref(s: StoredSegmentView) -> SourceRefView {
    SourceRefView {
        source_kind: "transcript_segment"@,
        source_id: decimal(s.segment_id as nat),
        source_revision: s.revision,
        locator: "0-"@ + decimal(fixture_quote(s).len()),
        quoted_text: fixture_quote(s),
        quoted_text_sha256: text_digest(fixture_quote(s)),
        validation_status: "unverified"@,
    }
}

/// A segment stated as a fact, with its citation.
pub open spec fn fixture_fact(s: StoredSegmentView) -> BlockView {
    BlockView {
        kind: BlockKind::Paragraph,
        claim_kind: ClaimKind::Fact,
        content: ContentView::Text { text: s.text },
        source_refs: seq![fixture_ref(s)],
    }
}

/// The facts for some segments, without those that have nothing to quote.
pub open spec fn fixture_facts(segments: Seq<StoredSegmentView>) -> Seq<BlockView>
    decreases segments.len(),
{
    if segments.len() == 0 {
        Seq::empty()
    } else {
        let before = fixture_facts(segments.drop_last());
        if quotable(fixture_quote(segments.last())) {
            before.push(fixture_fact(segments.last()))
        } else {
            before
        }
    }
}

/// The draft for a prompt and some evidence.
pub open spec fn fixture_draft(
    prompt: Seq<char>,
    segments: Seq<StoredSegmentView>,
) -> Seq<BlockView> {
    seq![fixture_summary(), fixture_heading(prompt)] + fixture_facts(
        if segments.len() > 6 {
            segments.take(6)
        } else {
            segments
        },
    )
}

fn plain_block(kind: BlockKind, content: BlockContent) -> (r: Block)
    ensures
        r@ == (BlockView {
            kind,
            claim_kind: ClaimKind::Inference,
            content: content@,
            source_refs: Seq::empty(),
        }),
{
    let refs: Vec<SourceRef> = Vec::new();
    assert(views(refs@) =~= Seq::empty());
    Block { kind, claim_kind: ClaimKind::Inference, content, source_refs: refs }
}

fn fact_block(s: &StoredSegment, quote: String) -> (r: Block)
    requires
        quote@ == fixture_quote(s@),
    ensures
        r@ == fixture_fact(s@),
{
    let size: usize = quote.as_str().unicode_len();
    let end = decimal_text(size as u128);
    let mut locator = "0-".to_owned();
    locator.append(end.as_str());
    let digest = sha256_hex(quote.as_str().as_bytes());
    let one = SourceRef {
        source_kind: "transcript_segment".to_owned(),
        source_id: decimal_text(s.segment_id as u128),
        source_revision: s.revision,
        locator,
        quoted_text: quote,
        quoted_text_sha256: digest,
        validation_status: "unverified".to_owned(),
    };
    let mut refs: Vec<SourceRef> = Vec::new();
    refs.push(one);
    assert(views(refs@) =~= seq![fixture_ref(s@)]);
    Block {
        kind: BlockKind::Paragraph,
        claim_kind: ClaimKind::Fact,
        content: BlockContent::Text { text: s.text.clone() },
        source_refs: refs,
    }
}

impl Planner for FixturePlanner {
    fn draft(&mut self, req: &DraftRequest<'_>) -> (r: Result<Vec<Block>, AgentError>)
        ensures
            r is Ok,
            views(r->Ok_0@) == fixture_draft(req.prompt@, views(req.evidence.segments@)),
    {
        let mut blocks: Vec<Block> = Vec::new();
        blocks.push(
            plain_block(
                BlockKind::Callout,
                BlockContent::Callout {
                    tone: "summary".to_owned(),
                    title: "成果摘要".to_owned(),
                    body: "這一版由內建測試規劃器產生，沒有呼叫任何模型。以下內容是逐字稿的直接摘錄，不是摘要。".to_owned(),
                },
            ),
        );
        let asked = trim(req.prompt);
        let title: String = if asked.as_str().is_empty() {
            "會議摘要".to_owned()
        } else {
            first_chars(asked.as_str(), 40)
        };
        blocks.push(plain_block(BlockKind::Heading, BlockContent::Heading { level: 1, text: title }));
        let ghost head = seq![fixture_summary(), fixture_heading(req.prompt@)];
        assert(views(blocks@) =~= head);
        let ghost all = views(req.evidence.segments@);
        let n: usize = if req.evidence.segments.len() > 6 { 6 } else { req.evidence.segments.len() };
        let mut i: usize = 0;
        assert(views(blocks@) =~= head + fixture_facts(all.take(0)));
        while i < n
            invariant
                i <= n <= req.evidence.segments@.len(),
                all == views(req.evidence.segments@),
                views(blocks@) == head + fixture_facts(all.take(i as int)),
            decreases n - i,
        {
            let s = &req.evidence.segments[i];
            let ghost before = blocks@;
            assert(all.take(i + 1).drop_last() =~= all.take(i as int));
            assert(all.take(i + 1).last() == s@);
            let quote = first_chars(s.text.as_str(), 12);
            if is_quotable(quote.as_str()) {
                let b = fact_block(s, quote);
                let ghost v = b@;
                blocks.push(b);
                assert(views(blocks@) =~= views(before).push(v));
                assert(views(before).push(v) =~= head + fixture_facts(all.take(i as int)).push(v));
            }
            i = i + 1;
        }
        assert(all.len() <= 6 ==> all.take(i as int) =~= all);
        Ok(blocks)
    }
}

/// This planner always gives the draft for the prompt and the evidence, and writes no block
/// anew.
pub proof fn fixture_answers_are_fixed(p: &mut FixturePlanner, turn: Turn)
    requires
        may_answer::<FixturePlanner>(p, turn),
    ensures
        match turn {
            Turn::Draft { req, answer } => answer == Ok::<Seq<BlockView>, AgentErrorView>(
                fixture_draft(req.prompt, req.evidence.segments),
            ),
            Turn::Redraft { answer, .. } => answer == Ok::<Option<BlockView>, AgentErrorView>(None),
        },
{
}

proof fn lemma_no_space_no_trim(s: Seq<char>)
    requires
        forall|i: int| 0 <= i < s.len() ==> !is_white_space(#[trigger] s[i]),
    ensures
        trimmed(s) == s,
{
    if s.len() > 0 {
        assert(!is_white_space(s[0]));
        assert(!is_white_space(s[s.len() - 1]));
    }
}

proof fn lemma_parse_decimal(n: nat)
    requires
        n <= usize::MAX,
    ensures
        parsed_usize(trimmed(decimal(n))) == Some(n as usize),
{
    decimal_reads_back(n);
    let s = decimal(n);
    assert forall|i: int| 0 <= i < s.len() implies !is_white_space(#[trigger] s[i]) by {
        assert(is_digit(s[i]));
    }
    lemma_no_space_no_trim(s);
    assert(is_digit(s[0]));
    assert(without_plus(s) == s);
}

/// A locator written as `0-n` is read as the first `n` characters.
pub proof fn written_locators_read_back(n: nat)
    requires
        0 < n <= usize::MAX,
    ensures
        located("0-"@ + decimal(n)) == Some(CharSpan { start: 0, end: n as usize }),
{
    reveal_strlit("0-");
    let s = "0-"@ + decimal(n);
    decimal_reads_back(n);
    assert forall|i: int| 0 <= i < s.len() implies s[i] != '/' by {
        if i >= 2 {
            assert(is_digit(decimal(n)[i - 2]));
        }
    }
    crate::citation::lemma_after_last(s, 0);
    assert(s.skip(0) =~= s);
    crate::citation::lemma_first_index(s, '-', 1);
    assert(s.take(1) =~= decimal(0));
    assert(s.skip(2) =~= decimal(n));
    lemma_parse_decimal(0);
    lemma_parse_decimal(n);
}

/// The facts of this planner pass the check, where the evidence holds the segment as it
/// was sent: what is quoted word for word is found again.
pub proof fn fixture_citations_are_valid(
    evidence: Seq<EvidenceTextView>,
    through: u64,
    s: StoredSegmentView,
)
    requires
        quotable(fixture_quote(s)),
        lookup(evidence, "transcript_segment"@, decimal(s.segment_id as nat), s.revision) matches Some(
            ev,
        ) && ev.text == s.text && ev.created_event_seq <= through,
        s.text.len() <= usize::MAX,
    ensures
        verdict(evidence, through, fixture_ref(s)) is Valid,
{
    let quote = fixture_quote(s);
    if quote.len() == 0 {
        crate::citation::empty_quotes_are_no_citations(quote);
    }
    written_locators_read_back(quote.len());
    let span = CharSpan { start: 0, end: quote.len() as usize };
    assert(s.text.subrange(0, quote.len() as int) =~= quote);
    let n = normalized(quote);
    assert(n.subrange(0, n.len() as int) =~= n);
    assert(occurs_at(n, n, 0));
    assert(quote_stands(s.text, fixture_ref(s), span));
}

} // verus!
