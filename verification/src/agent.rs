//! The generation loop.
//!
//! Only what is certain is here: the loop, its limits, and what becomes of a draft.
//! The model stands behind `Planner`, as the one step whose output nobody can
//! promise. Every draft is checked here before any of it reaches the document.

use crate::citation::{normalize_for_match, normalized};
use crate::document::{Block, BlockContent, BlockKind, BlockView, ContentView};
use crate::evidence::{AgentError, AgentErrorView, EvidencePack, EvidencePackView};
use crate::model::ClaimKind;
use crate::store::SourceRef;
use crate::text::{begins_with, decimal, decimal_text, opt_view, same, starts_with, views};
use vstd::prelude::*;
use vstd::string::*;

verus! {

// ---------------------------------------------------------------------------
// Planners
// ---------------------------------------------------------------------------

/// What a draft is made from.
pub struct DraftRequest<'a> {
    /// What the user asks for in this version. It may be empty.
    pub prompt: &'a str,
    pub evidence: &'a EvidencePack,
    /// Why blocks of the round before were refused. Empty in the first round.
    pub rejections: &'a [String],
    pub round: u32,
    /// The version that is to be revised, and nothing where this is no revision.
    pub previous: &'a [Block],
}

/// What a draft is made from.
pub struct DraftRequestView {
    pub prompt: Seq<char>,
    pub evidence: EvidencePackView,
    pub rejections: Seq<Seq<char>>,
    pub round: u32,
    pub previous: Seq<BlockView>,
}

impl View for DraftRequest<'_> {
    type V = DraftRequestView;

    open spec fn view(&self) -> DraftRequestView {
        DraftRequestView {
            prompt: self.prompt@,
            evidence: self.evidence@,
            rejections: views(self.rejections@),
            round: self.round,
            previous: views(self.previous@),
        }
    }
}

/// What a planner answers to a request for a draft.
pub type DraftAnswer = Result<Seq<BlockView>, AgentErrorView>;

/// What a planner answers to a request for one block.
pub type RedraftAnswer = Result<Option<BlockView>, AgentErrorView>;

pub open spec fn draft_answer(r: Result<Vec<Block>, AgentError>) -> DraftAnswer {
    match r {
        Ok(blocks) => Ok(views(blocks@)),
        Err(e) => Err(e@),
    }
}

pub open spec fn redraft_answer(r: Result<Option<Block>, AgentError>) -> RedraftAnswer {
    match r {
        Ok(block) => Ok(opt_view(block)),
        Err(e) => Err(e@),
    }
}

/// The step that writes a draft. Planning, checking and stopping stand outside, so
/// another provider changes none of the rules.
pub trait Planner: Send {
    fn draft(&mut self, req: &DraftRequest<'_>) -> Result<Vec<Block>, AgentError>;

    /// Writes one block anew that did not meet the rules. A planner that cannot do so
    /// gives none.
    fn redraft(&mut self, req: &DraftRequest<'_>, block: &Block, reason: &str) -> (r: Result<
        Option<Block>,
        AgentError,
    >)
        default_ensures
            r matches Ok(None),
    {
        Ok(None)
    }
}

// ---------------------------------------------------------------------------
// What a planner is asked
// ---------------------------------------------------------------------------

/// One thing that a planner is asked, and what it answers.
pub enum Turn {
    /// It is asked for a draft.
    Draft { req: DraftRequestView, answer: DraftAnswer },
    /// It is asked for one block anew, which did not meet the rules for the reason given.
    Redraft {
        req: DraftRequestView,
        block: BlockView,
        reason: Seq<char>,
        answer: RedraftAnswer,
    },
}

/// Whether the planner `p`, called with what it is asked, may answer so.
pub open spec fn may_answer<P: Planner>(p: &mut P, turn: Turn) -> bool {
    match turn {
        Turn::Draft { req, answer } => exists|
            q: &DraftRequest<'_>,
            r: Result<Vec<Block>, AgentError>,
        |
            q@ == req && draft_answer(r) == answer && #[trigger] call_ensures(P::draft, (p, q), r),
        Turn::Redraft { req, block, reason, answer } => exists|
            q: &DraftRequest<'_>,
            b: &Block,
            why: &str,
            r: Result<Option<Block>, AgentError>,
        |
            q@ == req && b@ == block && why@ == reason && redraft_answer(r) == answer
                && #[trigger] call_ensures(P::redraft, (p, q, b, why), r),
    }
}

/// Whether a planner that stands at `start` is called once for each of these turns and no more,
/// and stands at `end` then. `calls` are the planner at each of the calls: the first one finds it
/// at `start`, and each of the others where the call before left it. Where a call leaves it is
/// its final value; contracts say beside this that `left` holds those.
pub open spec fn in_turn<P: Planner>(
    start: P,
    turns: Seq<Turn>,
    calls: Seq<&mut P>,
    left: Seq<P>,
    end: P,
) -> bool {
    &&& calls.len() == turns.len()
    &&& left.len() == turns.len()
    &&& forall|i: int| 0 <= i < turns.len() ==> may_answer::<P>(calls[i], #[trigger] turns[i])
    &&& forall|i: int|
        0 <= i < turns.len() ==> *#[trigger] calls[i] == if i == 0 {
            start
        } else {
            left[i - 1]
        }
    &&& end == if turns.len() == 0 {
        start
    } else {
        left.last()
    }
}

/// A planner that is not called stays where it is.
pub proof fn lemma_no_turn<P: Planner>(start: P)
    ensures
        in_turn::<P>(start, Seq::empty(), Seq::empty(), Seq::empty(), start),
{
}

/// Some turns and then some more are turns one after another.
pub proof fn lemma_more_turns<P: Planner>(
    start: P,
    turns: Seq<Turn>,
    mid: P,
    more: Seq<Turn>,
    end: P,
)
    requires
        exists|calls: Seq<&mut P>, left: Seq<P>|
            {
                &&& #[trigger] in_turn::<P>(start, turns, calls, left, mid)
                &&& forall|i: int| 0 <= i < calls.len() ==> *final(#[trigger] calls[i]) == left[i]
            },
        exists|calls: Seq<&mut P>, left: Seq<P>|
            {
                &&& #[trigger] in_turn::<P>(mid, more, calls, left, end)
                &&& forall|i: int| 0 <= i < calls.len() ==> *final(#[trigger] calls[i]) == left[i]
            },
    ensures
        exists|calls: Seq<&mut P>, left: Seq<P>|
            {
                &&& #[trigger] in_turn::<P>(start, turns + more, calls, left, end)
                &&& forall|i: int| 0 <= i < calls.len() ==> *final(#[trigger] calls[i]) == left[i]
            },
{
    let (first_calls, first_left) = choose|calls: Seq<&mut P>, left: Seq<P>|
        {
            &&& #[trigger] in_turn::<P>(start, turns, calls, left, mid)
            &&& forall|i: int| 0 <= i < calls.len() ==> *final(#[trigger] calls[i]) == left[i]
        };
    let (more_calls, more_left) = choose|calls: Seq<&mut P>, left: Seq<P>|
        {
            &&& #[trigger] in_turn::<P>(mid, more, calls, left, end)
            &&& forall|i: int| 0 <= i < calls.len() ==> *final(#[trigger] calls[i]) == left[i]
        };
    let n = turns.len() as int;
    let (t, c, l) = (turns + more, first_calls + more_calls, first_left + more_left);
    assert forall|i: int| 0 <= i < t.len() implies may_answer::<P>(c[i], #[trigger] t[i]) by {
        if i < n {
            assert(c[i] == first_calls[i] && t[i] == turns[i]);
        } else {
            assert(c[i] == more_calls[i - n] && t[i] == more[i - n]);
        }
    }
    assert forall|i: int| 0 <= i < t.len() implies *#[trigger] c[i] == if i == 0 {
        start
    } else {
        l[i - 1]
    } by {
        if i < n {
            assert(c[i] == first_calls[i]);
        } else {
            assert(c[i] == more_calls[i - n]);
        }
    }
    assert forall|i: int| 0 <= i < c.len() implies *final(#[trigger] c[i]) == l[i] by {
        if i < n {
            assert(c[i] == first_calls[i]);
        } else {
            assert(c[i] == more_calls[i - n]);
        }
    }
    assert(in_turn::<P>(start, t, c, l, end));
}

proof fn lemma_one_turn<P: Planner>(start: P, turn: Turn, p: &mut P, end: P)
    requires
        *p == start,
        *final(p) == end,
        may_answer::<P>(p, turn),
    ensures
        exists|calls: Seq<&mut P>, left: Seq<P>|
            {
                &&& #[trigger] in_turn::<P>(start, seq![turn], calls, left, end)
                &&& forall|i: int| 0 <= i < calls.len() ==> *final(#[trigger] calls[i]) == left[i]
            },
{
    let (c, l) = (seq![p], seq![end]);
    assert(seq![turn][0] == turn);
    assert(in_turn::<P>(start, seq![turn], c, l, end));
    assert forall|i: int| 0 <= i < c.len() implies *final(#[trigger] c[i]) == l[i] by {}
}

/// Asks for a draft: one call, and one turn.
pub fn ask_draft<P: Planner>(planner: &mut P, req: &DraftRequest<'_>) -> (r: Result<
    Vec<Block>,
    AgentError,
>)
    ensures
        exists|calls: Seq<&mut P>, left: Seq<P>|
            {
                &&& #[trigger] in_turn::<P>(
                    *old(planner),
                    seq![Turn::Draft { req: req@, answer: draft_answer(r) }],
                    calls,
                    left,
                    *final(planner),
                )
                &&& forall|i: int| 0 <= i < calls.len() ==> *final(#[trigger] calls[i]) == left[i]
            },
{
    let ghost before = *planner;
    let r = planner.draft(req);
    let ghost after = *planner;
    proof {
        let (p, q) = choose|p: &mut P, q: &DraftRequest<'_>|
            *p == before && *final(p) == after && q@ == req@ && #[trigger] call_ensures(
                P::draft,
                (p, q),
                r,
            );
        let turn = Turn::Draft { req: req@, answer: draft_answer(r) };
        assert(may_answer::<P>(p, turn));
        lemma_one_turn::<P>(before, turn, p, after);
    }
    r
}

/// Asks for one block anew: one call, and one turn.
pub fn ask_redraft<P: Planner>(
    planner: &mut P,
    req: &DraftRequest<'_>,
    block: &Block,
    reason: &str,
) -> (r: Result<Option<Block>, AgentError>)
    ensures
        exists|calls: Seq<&mut P>, left: Seq<P>|
            {
                &&& #[trigger] in_turn::<P>(*old(planner), seq![
                    Turn::Redraft {
                        req: req@,
                        block: block@,
                        reason: reason@,
                        answer: redraft_answer(r),
                    },
                ], calls, left, *final(planner))
                &&& forall|i: int| 0 <= i < calls.len() ==> *final(#[trigger] calls[i]) == left[i]
            },
{
    let ghost before = *planner;
    let r = planner.redraft(req, block, reason);
    let ghost after = *planner;
    proof {
        let (p, q, b, why) = choose|
            p: &mut P,
            q: &DraftRequest<'_>,
            b: &Block,
            why: &str,
        |
            *p == before && *final(p) == after && q@ == req@ && b@ == block@ && why@ == reason@
                && #[trigger] call_ensures(P::redraft, (p, q, b, why), r);
        let turn = Turn::Redraft {
            req: req@,
            block: block@,
            reason: reason@,
            answer: redraft_answer(r),
        };
        assert(may_answer::<P>(p, turn));
        lemma_one_turn::<P>(before, turn, p, after);
    }
    r
}

// ---------------------------------------------------------------------------
// Blocks that do not meet the rules
// ---------------------------------------------------------------------------

/// How often one block is asked for again.
pub const BLOCK_RETRY_LIMIT: u32 = 2;

/// A block that gave up its structure, with its kind and the reason.
#[derive(Debug, PartialEq, Eq)]
pub struct Degraded {
    pub position: u32,
    pub original_kind: String,
    pub reason: String,
}

pub struct DegradedView {
    pub position: u32,
    pub original_kind: Seq<char>,
    pub reason: Seq<char>,
}

impl View for Degraded {
    type V = DegradedView;

    open spec fn view(&self) -> DegradedView {
        DegradedView {
            position: self.position,
            original_kind: self.original_kind@,
            reason: self.reason@,
        }
    }
}

/// The block as a plain paragraph, with the claim and the citations that it had.
pub open spec fn as_paragraph(b: BlockView) -> BlockView {
    BlockView {
        kind: BlockKind::Paragraph,
        claim_kind: b.claim_kind,
        content: ContentView::Text { text: b.content.plain() },
        source_refs: b.source_refs,
    }
}

/// What becomes of a block.
#[derive(Debug, PartialEq, Eq)]
pub enum Settled {
    Kept(Block),
    Degraded(Block, Degraded),
    Removed,
}

pub enum SettledView {
    Kept(BlockView),
    Degraded(BlockView, DegradedView),
    Removed,
}

impl View for Settled {
    type V = SettledView;

    open spec fn view(&self) -> SettledView {
        match *self {
            Settled::Kept(b) => SettledView::Kept(b@),
            Settled::Degraded(b, d) => SettledView::Degraded(b@, d@),
            Settled::Removed => SettledView::Removed,
        }
    }
}

/// What becomes of the block at `position` that was first of kind `original` and in its
/// last form is `last`: it stays if it meets the rules. If not, a fact is removed, and
/// anything else becomes a paragraph.
pub open spec fn outcome(position: u32, original: BlockKind, last: BlockView) -> SettledView {
    match last.check() {
        Ok(()) => SettledView::Kept(last),
        Err(e) => if last.claim_kind is Fact {
            SettledView::Removed
        } else {
            SettledView::Degraded(
                as_paragraph(last),
                DegradedView { position, original_kind: original.word(), reason: e.words() },
            )
        },
    }
}

/// What becomes of a block, once nothing more can be asked for.
pub fn settle_block(position: u32, original: BlockKind, last: Block) -> (r: Settled)
    ensures
        r@ == outcome(position, original, last@),
{
    match last.validate() {
        Ok(()) => Settled::Kept(last),
        Err(e) => {
            if BlockKind::may_degrade(last.claim_kind) {
                Settled::Degraded(
                    Block {
                        kind: BlockKind::Paragraph,
                        claim_kind: last.claim_kind,
                        content: BlockContent::Text { text: last.content.plain_text() },
                        source_refs: last.source_refs,
                    },
                    Degraded {
                        position,
                        original_kind: original.as_str().to_owned(),
                        reason: e.message(),
                    },
                )
            } else {
                Settled::Removed
            }
        },
    }
}

/// A block that is asked for anew as long as it does not meet the rules.
#[derive(Debug, PartialEq, Eq)]
pub struct Retry {
    /// The last form of the block.
    pub block: Block,
    /// How often it may still be asked for.
    pub left: u32,
}

pub struct RetryView {
    pub block: BlockView,
    pub left: nat,
}

impl View for Retry {
    type V = RetryView;

    open spec fn view(&self) -> RetryView {
        RetryView { block: self.block@, left: self.left as nat }
    }
}

impl RetryView {
    /// Why the block is to be asked for anew, if it is.
    pub open spec fn reason(self) -> Option<Seq<char>> {
        match self.block.check() {
            Ok(_) => None,
            Err(e) => if self.left == 0 {
                None
            } else {
                Some(e.words())
            },
        }
    }

    /// What a reply makes of it: a new form takes the place of the last one, whether or not it
    /// meets the rules. After no form, nothing more is asked for.
    pub open spec fn after(self, reply: Option<BlockView>) -> RetryView {
        match reply {
            Some(next) => RetryView { block: next, left: (self.left - 1) as nat },
            None => RetryView { left: 0, ..self },
        }
    }
}

impl Retry {
    /// A block as it was drafted, which is asked for `BLOCK_RETRY_LIMIT` times at most.
    pub fn start(block: Block) -> (r: Self)
        ensures
            r@ == unretried(block@),
    {
        Retry { block, left: BLOCK_RETRY_LIMIT }
    }

    /// Why the block is to be asked for anew, if it is.
    pub fn wanted(&self) -> (r: Option<String>)
        ensures
            opt_view(r) == self@.reason(),
    {
        match self.block.validate() {
            Ok(()) => None,
            Err(e) => {
                if self.left == 0 {
                    None
                } else {
                    Some(e.message())
                }
            },
        }
    }

    /// Takes in what was answered, where the block was asked for.
    pub fn take(self, reply: Option<Block>) -> (r: Self)
        requires
            self.left > 0,
        ensures
            r@ == self@.after(opt_view(reply)),
    {
        match reply {
            Some(next) => Retry { block: next, left: self.left - 1 },
            None => Retry { block: self.block, left: 0 },
        }
    }
}

/// Where the retries of a block stand, after `replies` one after another.
pub open spec fn retry_after(t: RetryView, replies: Seq<Option<BlockView>>) -> RetryView
    decreases replies.len(),
{
    if replies.len() == 0 {
        t
    } else {
        retry_after(t.after(replies[0]), replies.skip(1))
    }
}

/// The last form of a block, where a planner that is asked for it anew answers with
/// `replies` one after another.
pub open spec fn retried(t: RetryView, replies: Seq<Option<BlockView>>) -> BlockView {
    retry_after(t, replies).block
}

/// Whether the block was to be asked for anew before each of these replies.
pub open spec fn were_wanted(t: RetryView, replies: Seq<Option<BlockView>>) -> bool
    decreases replies.len(),
{
    replies.len() > 0 ==> t.reason() is Some && were_wanted(t.after(replies[0]), replies.skip(1))
}

/// Whether these are all the replies that a block takes: it was to be asked for before each of
/// them, and is not after the last.
pub open spec fn are_all_wanted(t: RetryView, replies: Seq<Option<BlockView>>) -> bool {
    were_wanted(t, replies) && retry_after(t, replies).reason() is None
}

/// What is asked where a block is wanted anew: the last form of the block goes to the planner,
/// with the reason why that does not do.
pub open spec fn redraft_turn(req: DraftRequestView, t: RetryView, answer: RedraftAnswer) -> Turn {
    Turn::Redraft { req, block: t.block, reason: t.reason()->0, answer }
}

/// What is asked where a block is wanted anew, one turn for each of the replies.
pub open spec fn redraft_turns(
    req: DraftRequestView,
    t: RetryView,
    replies: Seq<Option<BlockView>>,
) -> Seq<Turn>
    decreases replies.len(),
{
    if replies.len() == 0 {
        Seq::empty()
    } else {
        seq![redraft_turn(req, t, Ok(replies[0]))] + redraft_turns(
            req,
            t.after(replies[0]),
            replies.skip(1),
        )
    }
}

/// Whether a block that is asked for anew comes to `r`, with these turns: its last form, where
/// the planner gave all the replies that it takes, or the failure of a call while the block was
/// still to be asked for.
pub open spec fn retry_comes_to(
    req: DraftRequestView,
    t: RetryView,
    turns: Seq<Turn>,
    r: Result<BlockView, AgentErrorView>,
) -> bool {
    match r {
        Ok(last) => exists|replies: Seq<Option<BlockView>>|
            {
                &&& #[trigger] are_all_wanted(t, replies)
                &&& last == retried(t, replies)
                &&& turns == redraft_turns(req, t, replies)
            },
        Err(e) => exists|replies: Seq<Option<BlockView>>|
            {
                &&& #[trigger] were_wanted(t, replies)
                &&& retry_after(t, replies).reason() is Some
                &&& turns == redraft_turns(req, t, replies).push(
                    redraft_turn(req, retry_after(t, replies), Err(e)),
                )
            },
    }
}

pub open spec fn block_answer(r: Result<Block, AgentError>) -> Result<BlockView, AgentErrorView> {
    match r {
        Ok(b) => Ok(b@),
        Err(e) => Err(e@),
    }
}

/// The block as it was drafted.
pub open spec fn unretried(b: BlockView) -> RetryView {
    RetryView { block: b, left: BLOCK_RETRY_LIMIT as nat }
}

/// A draft whose blocks have been settled.
#[derive(Debug, PartialEq, Eq)]
pub struct SettledDraft {
    pub blocks: Vec<Block>,
    pub degraded: Vec<Degraded>,
    pub removed: usize,
}

pub struct SettledDraftView {
    pub blocks: Seq<BlockView>,
    pub degraded: Seq<DegradedView>,
    pub removed: usize,
}

impl View for SettledDraft {
    type V = SettledDraftView;

    open spec fn view(&self) -> SettledDraftView {
        SettledDraftView {
            blocks: views(self.blocks@),
            degraded: views(self.degraded@),
            removed: self.removed,
        }
    }
}

/// A draft with one more block settled.
pub open spec fn settled_more(d: SettledDraftView, s: SettledView) -> SettledDraftView {
    match s {
        SettledView::Kept(b) => SettledDraftView { blocks: d.blocks.push(b), ..d },
        SettledView::Degraded(b, note) => SettledDraftView {
            blocks: d.blocks.push(b),
            degraded: d.degraded.push(note),
            ..d
        },
        SettledView::Removed => SettledDraftView { removed: (d.removed + 1) as usize, ..d },
    }
}

/// A draft whose blocks have been settled, where a planner that is asked for the block
/// at `i` anew answers with `replies[i]`.
pub open spec fn settled(
    drafted: Seq<BlockView>,
    replies: Seq<Seq<Option<BlockView>>>,
) -> SettledDraftView
    decreases drafted.len(),
{
    if drafted.len() == 0 {
        SettledDraftView { blocks: Seq::empty(), degraded: Seq::empty(), removed: 0 }
    } else {
        let i = (drafted.len() - 1) as int;
        settled_more(
            settled(drafted.drop_last(), replies),
            outcome(
                i as u32,
                drafted[i].kind,
                retried(unretried(drafted[i]), replies[i]),
            ),
        )
    }
}

/// One reply, and what the others come to after it.
proof fn lemma_retry_goes_on(
    req: DraftRequestView,
    t: RetryView,
    reply: Option<BlockView>,
    turns: Seq<Turn>,
    r: Result<BlockView, AgentErrorView>,
)
    requires
        t.reason() is Some,
        retry_comes_to(req, t.after(reply), turns, r),
    ensures
        retry_comes_to(req, t, seq![redraft_turn(req, t, Ok(reply))] + turns, r),
{
    let next = t.after(reply);
    let turn = redraft_turn(req, t, Ok(reply));
    match r {
        Ok(last) => {
            let more = choose|more: Seq<Option<BlockView>>|
                {
                    &&& #[trigger] are_all_wanted(next, more)
                    &&& last == retried(next, more)
                    &&& turns == redraft_turns(req, next, more)
                };
            let replies = seq![reply] + more;
            assert(replies.skip(1) =~= more);
            assert(are_all_wanted(t, replies));
        },
        Err(e) => {
            let more = choose|more: Seq<Option<BlockView>>|
                {
                    &&& #[trigger] were_wanted(next, more)
                    &&& retry_after(next, more).reason() is Some
                    &&& turns == redraft_turns(req, next, more).push(
                        redraft_turn(req, retry_after(next, more), Err(e)),
                    )
                };
            let replies = seq![reply] + more;
            assert(replies.skip(1) =~= more);
            assert(were_wanted(t, replies));
            assert(seq![turn] + turns =~= redraft_turns(req, t, replies).push(
                redraft_turn(req, retry_after(t, replies), Err(e)),
            ));
        },
    }
}

proof fn lemma_retried<P: Planner>(
    req: DraftRequestView,
    t: RetryView,
    reply: Option<BlockView>,
    r: Result<BlockView, AgentErrorView>,
    start: P,
    mid: P,
    end: P,
)
    requires
        t.reason() is Some,
        exists|calls: Seq<&mut P>, left: Seq<P>|
            {
                &&& #[trigger] in_turn::<P>(start, seq![redraft_turn(req, t, Ok(reply))], calls, left, mid)
                &&& forall|i: int| 0 <= i < calls.len() ==> *final(#[trigger] calls[i]) == left[i]
            },
        exists|turns: Seq<Turn>, calls: Seq<&mut P>, left: Seq<P>|
            {
                &&& #[trigger] retry_comes_to(req, t.after(reply), turns, r)
                &&& #[trigger] in_turn::<P>(mid, turns, calls, left, end)
                &&& forall|i: int| 0 <= i < calls.len() ==> *final(#[trigger] calls[i]) == left[i]
            },
    ensures
        exists|turns: Seq<Turn>, calls: Seq<&mut P>, left: Seq<P>|
            {
                &&& #[trigger] retry_comes_to(req, t, turns, r)
                &&& #[trigger] in_turn::<P>(start, turns, calls, left, end)
                &&& forall|i: int| 0 <= i < calls.len() ==> *final(#[trigger] calls[i]) == left[i]
            },
{
    let first = seq![redraft_turn(req, t, Ok(reply))];
    let (turns, calls, left) = choose|turns: Seq<Turn>, calls: Seq<&mut P>, left: Seq<P>|
        {
            &&& #[trigger] retry_comes_to(req, t.after(reply), turns, r)
            &&& #[trigger] in_turn::<P>(mid, turns, calls, left, end)
            &&& forall|i: int| 0 <= i < calls.len() ==> *final(#[trigger] calls[i]) == left[i]
        };
    lemma_more_turns::<P>(start, first, mid, turns, end);
    lemma_retry_goes_on(req, t, reply, turns, r);
    assert(retry_comes_to(req, t, first + turns, r));
}

/// Asks for a block anew as long as it is to be asked for, and gives its last form. The planner
/// is called once for each reply.
fn retry_block<P: Planner>(planner: &mut P, req: &DraftRequest<'_>, t: Retry) -> (r: Result<
    Block,
    AgentError,
>)
    ensures
        exists|turns: Seq<Turn>, calls: Seq<&mut P>, left: Seq<P>|
            {
                &&& #[trigger] retry_comes_to(req@, t@, turns, block_answer(r))
                &&& #[trigger] in_turn::<P>(*old(planner), turns, calls, left, *final(planner))
                &&& forall|i: int| 0 <= i < calls.len() ==> *final(#[trigger] calls[i]) == left[i]
            },
    decreases t.left,
{
    let ghost none = Seq::<Option<BlockView>>::empty();
    let ghost start = t@;
    let ghost before = *planner;
    let reason: String = match t.wanted() {
        None => {
            proof {
                lemma_no_turn::<P>(before);
                assert(are_all_wanted(start, none));
                assert(retry_comes_to(req@, start, Seq::empty(), Ok(start.block)));
            }
            return Ok(t.block);
        },
        Some(reason) => reason,
    };
    let r = ask_redraft(planner, req, &t.block, reason.as_str());
    let ghost between = *planner;
    match r {
        Err(e) => {
            proof {
                let turn = redraft_turn(req@, start, Err(e@));
                assert(were_wanted(start, none));
                assert(seq![turn] =~= redraft_turns(req@, start, none).push(turn));
                assert(retry_comes_to(req@, start, seq![turn], Err(e@)));
            }
            Err(e)
        },
        Ok(reply) => {
            let ghost first = opt_view(reply);
            let last = retry_block(planner, req, t.take(reply));
            proof {
                lemma_retried::<P>(
                    req@,
                    start,
                    first,
                    block_answer(last),
                    before,
                    between,
                    *planner,
                );
            }
            last
        },
    }
}

proof fn lemma_settled_prefix(
    drafted: Seq<BlockView>,
    a: Seq<Seq<Option<BlockView>>>,
    b: Seq<Seq<Option<BlockView>>>,
)
    requires
        forall|i: int| 0 <= i < drafted.len() ==> #[trigger] a[i] == b[i],
    ensures
        settled(drafted, a) == settled(drafted, b),
    decreases drafted.len(),
{
    if drafted.len() > 0 {
        lemma_settled_prefix(drafted.drop_last(), a, b);
        assert(a[drafted.len() - 1] == b[drafted.len() - 1]);
    }
}

proof fn lemma_settled_counts(drafted: Seq<BlockView>, replies: Seq<Seq<Option<BlockView>>>)
    requires
        drafted.len() <= usize::MAX,
    ensures
        settled(drafted, replies).blocks.len() + settled(drafted, replies).removed
            == drafted.len(),
    decreases drafted.len(),
{
    if drafted.len() > 0 {
        lemma_settled_counts(drafted.drop_last(), replies);
    }
}

/// Whether `replies[i]` are all the replies that the block at `i` takes.
pub open spec fn all_are_wanted(
    drafted: Seq<BlockView>,
    replies: Seq<Seq<Option<BlockView>>>,
) -> bool {
    forall|i: int|
        0 <= i < drafted.len() ==> are_all_wanted(unretried(drafted[i]), #[trigger] replies[i])
}

/// What is asked where the blocks of a draft are settled, block after block, where the planner
/// answers with `replies[i]` for the block at `i`.
pub open spec fn settling_turns(
    req: DraftRequestView,
    drafted: Seq<BlockView>,
    replies: Seq<Seq<Option<BlockView>>>,
) -> Seq<Turn>
    decreases drafted.len(),
{
    if drafted.len() == 0 {
        Seq::empty()
    } else {
        settling_turns(req, drafted.drop_last(), replies) + redraft_turns(
            req,
            unretried(drafted.last()),
            replies[drafted.len() - 1],
        )
    }
}

/// Whether settling the blocks of a draft comes to `r`, with these turns: the draft that the
/// replies come to, or the failure where one of the blocks was asked for anew, after those before
/// it were settled.
pub open spec fn settles_to(
    req: DraftRequestView,
    drafted: Seq<BlockView>,
    turns: Seq<Turn>,
    r: Result<SettledDraftView, AgentErrorView>,
) -> bool {
    match r {
        Ok(d) => exists|replies: Seq<Seq<Option<BlockView>>>|
            {
                &&& #[trigger] all_are_wanted(drafted, replies)
                &&& d == settled(drafted, replies)
                &&& turns == settling_turns(req, drafted, replies)
            },
        Err(e) => exists|i: int, replies: Seq<Seq<Option<BlockView>>>, failing: Seq<Turn>|
            {
                &&& 0 <= i < drafted.len()
                &&& #[trigger] all_are_wanted(drafted.take(i), replies)
                &&& #[trigger] retry_comes_to(req, unretried(drafted[i]), failing, Err(e))
                &&& turns == settling_turns(req, drafted.take(i), replies) + failing
            },
    }
}

pub open spec fn settled_answer(r: Result<SettledDraft, AgentError>) -> Result<
    SettledDraftView,
    AgentErrorView,
> {
    match r {
        Ok(d) => Ok(d@),
        Err(e) => Err(e@),
    }
}

proof fn lemma_turns_prefix(
    req: DraftRequestView,
    drafted: Seq<BlockView>,
    a: Seq<Seq<Option<BlockView>>>,
    b: Seq<Seq<Option<BlockView>>>,
)
    requires
        forall|i: int| 0 <= i < drafted.len() ==> #[trigger] a[i] == b[i],
    ensures
        settling_turns(req, drafted, a) == settling_turns(req, drafted, b),
    decreases drafted.len(),
{
    if drafted.len() > 0 {
        lemma_turns_prefix(req, drafted.drop_last(), a, b);
        assert(a[drafted.len() - 1] == b[drafted.len() - 1]);
    }
}

/// One more block of a draft is settled, or fails, after those before it.
proof fn lemma_one_more_settled(
    req: DraftRequestView,
    all: Seq<BlockView>,
    i: int,
    before: SettledDraftView,
    turns: Seq<Turn>,
    more: Seq<Turn>,
    r: Result<BlockView, AgentErrorView>,
)
    requires
        0 <= i < all.len(),
        settles_to(req, all.take(i), turns, Ok(before)),
        retry_comes_to(req, unretried(all[i]), more, r),
    ensures
        match r {
            Ok(last) => settles_to(
                req,
                all.take(i + 1),
                turns + more,
                Ok(settled_more(before, outcome(i as u32, all[i].kind, last))),
            ),
            Err(e) => settles_to(req, all, turns + more, Err(e)),
        },
        all[i].check() is Ok ==> r == Ok::<BlockView, AgentErrorView>(all[i]) && more.len() == 0,
{
    let t = unretried(all[i]);
    let earlier = choose|replies: Seq<Seq<Option<BlockView>>>|
        {
            &&& #[trigger] all_are_wanted(all.take(i), replies)
            &&& before == settled(all.take(i), replies)
            &&& turns == settling_turns(req, all.take(i), replies)
        };
    match r {
        Ok(last) => {
            let replies = choose|replies: Seq<Option<BlockView>>|
                {
                    &&& #[trigger] are_all_wanted(t, replies)
                    &&& last == retried(t, replies)
                    &&& more == redraft_turns(req, t, replies)
                };
            let whole = Seq::new(
                (i + 1) as nat,
                |k: int|
                    if k < i {
                        earlier[k]
                    } else {
                        replies
                    },
            );
            let now = all.take(i + 1);
            lemma_settled_prefix(all.take(i), earlier, whole);
            lemma_turns_prefix(req, all.take(i), earlier, whole);
            assert(now.drop_last() =~= all.take(i));
            assert(now.last() == all[i]);
            assert(whole[i] == replies);
            assert forall|j: int| 0 <= j < now.len() implies are_all_wanted(
                unretried(now[j]),
                #[trigger] whole[j],
            ) by {
                if j < i {
                    assert(whole[j] == earlier[j]);
                    assert(now[j] == all.take(i)[j]);
                }
            }
            assert(all_are_wanted(now, whole));
            if all[i].check() is Ok {
                assert(t.reason() is None);
                assert(replies.len() == 0);
            }
        },
        Err(e) => {
            assert(all_are_wanted(all.take(i), earlier));
            assert(retry_comes_to(req, unretried(all[i]), more, Err(e)));
            if all[i].check() is Ok {
                let replies = choose|replies: Seq<Option<BlockView>>|
                    {
                        &&& #[trigger] were_wanted(t, replies)
                        &&& retry_after(t, replies).reason() is Some
                    };
                assert(t.reason() is None);
                assert(replies.len() == 0);
            }
        },
    }
}

proof fn lemma_settled_on<P: Planner>(
    req: DraftRequestView,
    all: Seq<BlockView>,
    i: int,
    before: SettledDraftView,
    r: Result<BlockView, AgentErrorView>,
    start: P,
    mid: P,
    end: P,
)
    requires
        0 <= i < all.len(),
        exists|turns: Seq<Turn>, calls: Seq<&mut P>, left: Seq<P>|
            {
                &&& #[trigger] settles_to(req, all.take(i), turns, Ok(before))
                &&& #[trigger] in_turn::<P>(start, turns, calls, left, mid)
                &&& forall|i: int| 0 <= i < calls.len() ==> *final(#[trigger] calls[i]) == left[i]
            },
        exists|turns: Seq<Turn>, calls: Seq<&mut P>, left: Seq<P>|
            {
                &&& #[trigger] retry_comes_to(req, unretried(all[i]), turns, r)
                &&& #[trigger] in_turn::<P>(mid, turns, calls, left, end)
                &&& forall|i: int| 0 <= i < calls.len() ==> *final(#[trigger] calls[i]) == left[i]
            },
    ensures
        match r {
            Ok(last) => exists|turns: Seq<Turn>, calls: Seq<&mut P>, left: Seq<P>|
                {
                    &&& #[trigger] settles_to(
                        req,
                        all.take(i + 1),
                        turns,
                        Ok(settled_more(before, outcome(i as u32, all[i].kind, last))),
                    )
                    &&& #[trigger] in_turn::<P>(start, turns, calls, left, end)
                    &&& forall|i: int| 0 <= i < calls.len() ==> *final(#[trigger] calls[i]) == left[i]
                },
            Err(e) => exists|turns: Seq<Turn>, calls: Seq<&mut P>, left: Seq<P>|
                {
                    &&& #[trigger] settles_to(req, all, turns, Err(e))
                    &&& #[trigger] in_turn::<P>(start, turns, calls, left, end)
                    &&& forall|i: int| 0 <= i < calls.len() ==> *final(#[trigger] calls[i]) == left[i]
                },
        },
        all[i].check() is Ok ==> r == Ok::<BlockView, AgentErrorView>(all[i]) && end == mid,
{
    let (first, first_calls, first_left) = choose|turns: Seq<Turn>, calls: Seq<&mut P>, left: Seq<P>|
        {
            &&& #[trigger] settles_to(req, all.take(i), turns, Ok(before))
            &&& #[trigger] in_turn::<P>(start, turns, calls, left, mid)
            &&& forall|i: int| 0 <= i < calls.len() ==> *final(#[trigger] calls[i]) == left[i]
        };
    let (more, more_calls, more_left) = choose|turns: Seq<Turn>, calls: Seq<&mut P>, left: Seq<P>|
        {
            &&& #[trigger] retry_comes_to(req, unretried(all[i]), turns, r)
            &&& #[trigger] in_turn::<P>(mid, turns, calls, left, end)
            &&& forall|i: int| 0 <= i < calls.len() ==> *final(#[trigger] calls[i]) == left[i]
        };
    lemma_more_turns::<P>(start, first, mid, more, end);
    lemma_one_more_settled(req, all, i, before, first, more, r);
    match r {
        Ok(last) => {
            assert(settles_to(
                req,
                all.take(i + 1),
                first + more,
                Ok(settled_more(before, outcome(i as u32, all[i].kind, last))),
            ));
        },
        Err(e) => {
            assert(settles_to(req, all, first + more, Err(e)));
        },
    }
}

/// Settles the blocks of a draft: one that does not meet the rules is asked for again,
/// and if it still does not, it is removed or becomes a paragraph. The planner is called once
/// for each reply and not otherwise, so not at all where every block meets the rules.
pub fn settle_schema<P: Planner>(
    planner: &mut P,
    req: &DraftRequest<'_>,
    drafted: Vec<Block>,
) -> (r: Result<SettledDraft, AgentError>)
    ensures
        exists|turns: Seq<Turn>, calls: Seq<&mut P>, left: Seq<P>|
            {
                &&& #[trigger] settles_to(req@, views(drafted@), turns, settled_answer(r))
                &&& #[trigger] in_turn::<P>(*old(planner), turns, calls, left, *final(planner))
                &&& forall|i: int| 0 <= i < calls.len() ==> *final(#[trigger] calls[i]) == left[i]
            },
        (forall|i: int| 0 <= i < drafted@.len() ==> (#[trigger] drafted@[i])@.check() is Ok)
            ==> r is Ok && views(r->Ok_0.blocks@) == views(drafted@) && r->Ok_0.removed == 0
            && *final(planner) == *old(planner),
{
    let ghost all = views(drafted@);
    let ghost original = drafted@;
    let total: usize = drafted.len();
    let mut out = SettledDraft { blocks: Vec::new(), degraded: Vec::new(), removed: 0 };
    let mut i: usize = 0;
    let ghost mut good: bool = true;
    proof {
        let none = Seq::<Seq<Option<BlockView>>>::empty();
        assert(out@.blocks =~= Seq::empty());
        assert(out@.degraded =~= Seq::empty());
        assert(views(out.blocks@) =~= all.take(0));
        lemma_no_turn::<P>(*planner);
        assert(all_are_wanted(all.take(0), none));
        assert(settles_to(req@, all.take(0), Seq::empty(), Ok(out@)));
    }
    for block in it: drafted
        invariant
            it.seq() == original,
            all == views(original),
            original.len() == total,
            i == it.index(),
            out@.blocks.len() + out@.removed == i,
            exists|turns: Seq<Turn>, calls: Seq<&mut P>, left: Seq<P>|
                {
                    &&& #[trigger] settles_to(req@, all.take(i as int), turns, Ok(out@))
                    &&& #[trigger] in_turn::<P>(*old(planner), turns, calls, left, *planner)
                    &&& forall|i: int| 0 <= i < calls.len() ==> *final(#[trigger] calls[i]) == left[i]
                },
            good == (forall|j: int| 0 <= j < i ==> (#[trigger] original[j])@.check() is Ok),
            good ==> views(out.blocks@) == all.take(i as int) && out.removed == 0 && *planner
                == *old(planner),
    {
        assert(block == original[i as int]);
        let ghost b = block@;
        let kind = block.kind;
        let ghost before = out@;
        let ghost between = *planner;
        assert(all[i as int] == b);
        let last = retry_block(planner, req, Retry::start(block));
        proof {
            lemma_settled_on::<P>(
                req@,
                all,
                i as int,
                before,
                block_answer(last),
                *old(planner),
                between,
                *planner,
            );
            assert(original[i as int]@ == b);
        }
        match last {
            Err(e) => {
                return Err(e);
            },
            Ok(last) => {
                let ghost lv = last@;
                proof {
                    good = good && b.check() is Ok;
                }
                match settle_block(i as u32, kind, last) {
                    Settled::Kept(b) => {
                        out.blocks.push(b);
                        assert(out@.blocks =~= before.blocks.push(b@));
                    },
                    Settled::Degraded(b, note) => {
                        out.blocks.push(b);
                        out.degraded.push(note);
                        assert(out@.blocks =~= before.blocks.push(b@));
                        assert(out@.degraded =~= before.degraded.push(note@));
                    },
                    Settled::Removed => {
                        out.removed = out.removed + 1;
                    },
                }
                proof {
                    assert(out@ == settled_more(before, outcome(i as u32, kind, lv)));
                    if good {
                        assert(views(out.blocks@) =~= all.take(i + 1));
                    }
                }
            },
        }
        i = i + 1;
    }
    assert(all.take(i as int) =~= all);
    Ok(out)
}

/// A block that meets the rules is not asked for anew and stays as it is; any other is asked for
/// once at least, and as often as the limit allows at most: exactly so often where the planner
/// gives a new form each time and none meets the rules. There is one call for each reply.
pub proof fn blocks_are_asked_for_within_the_limit(
    req: DraftRequestView,
    b: BlockView,
    replies: Seq<Option<BlockView>>,
)
    requires
        are_all_wanted(unretried(b), replies),
    ensures
        redraft_turns(req, unretried(b), replies).len() == replies.len(),
        b.check() is Ok ==> replies.len() == 0 && retried(unretried(b), replies) == b,
        b.check() is Err ==> 1 <= replies.len() <= BLOCK_RETRY_LIMIT,
        b.check() is Err && (forall|i: int|
            0 <= i < replies.len() ==> #[trigger] replies[i] is Some && replies[i]->0.check() is Err)
            ==> replies.len() == BLOCK_RETRY_LIMIT,
{
    lemma_replies_within_limit(unretried(b), replies);
    lemma_one_turn_for_each_reply(req, unretried(b), replies);
}

proof fn lemma_one_turn_for_each_reply(
    req: DraftRequestView,
    t: RetryView,
    replies: Seq<Option<BlockView>>,
)
    ensures
        redraft_turns(req, t, replies).len() == replies.len(),
    decreases replies.len(),
{
    if replies.len() > 0 {
        lemma_one_turn_for_each_reply(req, t.after(replies[0]), replies.skip(1));
    }
}

proof fn lemma_replies_within_limit(t: RetryView, replies: Seq<Option<BlockView>>)
    requires
        are_all_wanted(t, replies),
    ensures
        replies.len() <= t.left,
        t.block.check() is Err && (forall|i: int|
            0 <= i < replies.len() ==> #[trigger] replies[i] is Some && replies[i]->0.check() is Err)
            ==> replies.len() == t.left,
    decreases replies.len(),
{
    if replies.len() > 0 {
        let rest = replies.skip(1);
        let next = t.after(replies[0]);
        assert(are_all_wanted(next, rest));
        lemma_replies_within_limit(next, rest);
        if forall|i: int|
            0 <= i < replies.len() ==> #[trigger] replies[i] is Some && replies[i]->0.check() is Err {
            assert forall|i: int| 0 <= i < rest.len() implies #[trigger] rest[i] is Some
                && rest[i]->0.check() is Err by {
                assert(replies[i + 1] is Some && replies[i + 1]->0.check() is Err);
            }
            assert(replies[0] is Some && replies[0]->0.check() is Err);
        }
    }
}

/// How many of the blocks do not meet the rules.
pub open spec fn broken_count(drafted: Seq<BlockView>) -> nat
    decreases drafted.len(),
{
    if drafted.len() == 0 {
        0
    } else {
        broken_count(drafted.drop_last()) + if drafted.last().check() is Ok {
            0nat
        } else {
            1nat
        }
    }
}

proof fn lemma_settling_calls(
    req: DraftRequestView,
    drafted: Seq<BlockView>,
    replies: Seq<Seq<Option<BlockView>>>,
)
    requires
        all_are_wanted(drafted, replies),
    ensures
        broken_count(drafted) <= settling_turns(req, drafted, replies).len()
            <= BLOCK_RETRY_LIMIT * broken_count(drafted),
    decreases drafted.len(),
{
    if drafted.len() > 0 {
        let n = drafted.len() - 1;
        let front = drafted.drop_last();
        assert forall|i: int| 0 <= i < front.len() implies are_all_wanted(
            unretried(front[i]),
            #[trigger] replies[i],
        ) by {
            assert(front[i] == drafted[i]);
        }
        lemma_settling_calls(req, front, replies);
        assert(are_all_wanted(unretried(drafted[n]), replies[n]));
        blocks_are_asked_for_within_the_limit(req, drafted[n], replies[n]);
    }
}

/// Where a draft is settled, the planner is called at least once and at most as often as the
/// limit says for each block that does not meet the rules, and for no other. Every block is kept,
/// in its own form or as a paragraph, or counted as removed.
pub proof fn settling_asks_for_broken_blocks_only(
    req: DraftRequestView,
    drafted: Seq<BlockView>,
    turns: Seq<Turn>,
    d: SettledDraftView,
)
    requires
        settles_to(req, drafted, turns, Ok(d)),
        drafted.len() <= usize::MAX,
    ensures
        broken_count(drafted) <= turns.len() <= BLOCK_RETRY_LIMIT * broken_count(drafted),
        d.blocks.len() + d.removed == drafted.len(),
{
    let replies = choose|replies: Seq<Seq<Option<BlockView>>>|
        {
            &&& #[trigger] all_are_wanted(drafted, replies)
            &&& d == settled(drafted, replies)
            &&& turns == settling_turns(req, drafted, replies)
        };
    lemma_settling_calls(req, drafted, replies);
    lemma_settled_counts(drafted, replies);
}

/// The first new form that meets the rules takes the place of a block that does not, and is
/// kept. If none of them does, the last one is removed where it states a fact, and becomes a
/// paragraph where it does not.
pub proof fn the_first_valid_redraft_is_kept(
    position: u32,
    b: BlockView,
    replies: Seq<Option<BlockView>>,
    k: int,
)
    requires
        are_all_wanted(unretried(b), replies),
        0 <= k < replies.len(),
        forall|j: int| 0 <= j <= k ==> #[trigger] replies[j] is Some,
        forall|j: int| 0 <= j < k ==> (#[trigger] replies[j])->0.check() is Err,
    ensures
        replies[k]->0.check() is Ok ==> replies.len() == k + 1 && outcome(
            position,
            b.kind,
            retried(unretried(b), replies),
        ) == SettledView::Kept(replies[k]->0),
        replies[k]->0.check() is Err && k == replies.len() - 1 ==> match outcome(
            position,
            b.kind,
            retried(unretried(b), replies),
        ) {
            SettledView::Kept(_) => false,
            SettledView::Removed => replies[k]->0.claim_kind is Fact,
            SettledView::Degraded(p, note) => {
                &&& !(replies[k]->0.claim_kind is Fact)
                &&& p == as_paragraph(replies[k]->0)
                &&& note.position == position
                &&& note.original_kind == b.kind.word()
            },
        },
{
    lemma_last_form(unretried(b), replies, k);
}

proof fn lemma_last_form(t: RetryView, replies: Seq<Option<BlockView>>, k: int)
    requires
        are_all_wanted(t, replies),
        0 <= k < replies.len(),
        forall|j: int| 0 <= j <= k ==> #[trigger] replies[j] is Some,
        forall|j: int| 0 <= j < k ==> (#[trigger] replies[j])->0.check() is Err,
    ensures
        replies[k]->0.check() is Ok || k == replies.len() - 1 ==> replies.len() == k + 1
            && retried(t, replies) == replies[k]->0,
    decreases replies.len(),
{
    let next = t.after(replies[0]);
    let rest = replies.skip(1);
    assert(are_all_wanted(next, rest));
    if k > 0 {
        assert forall|j: int| 0 <= j <= k - 1 implies #[trigger] rest[j] is Some by {
            assert(replies[j + 1] is Some);
        }
        assert forall|j: int| 0 <= j < k - 1 implies (#[trigger] rest[j])->0.check() is Err by {
            assert(replies[j + 1]->0.check() is Err);
        }
        lemma_last_form(next, rest, k - 1);
        assert(rest[k - 1] == replies[k]);
    } else {
        assert(replies[0] is Some);
        assert(rest.len() == 0 ==> retry_after(next, rest) == next);
    }
}

/// Settling never lets a fact through that does not meet the rules: every settled block
/// meets them, or is a paragraph that claims no fact. A paragraph of that sort keeps
/// the claim and the citations of the block that it was made from.
pub proof fn settling_never_degrades_a_fact(
    drafted: Seq<BlockView>,
    replies: Seq<Seq<Option<BlockView>>>,
    k: int,
)
    requires
        0 <= k < settled(drafted, replies).blocks.len(),
    ensures
        ({
            let b = settled(drafted, replies).blocks[k];
            b.check() is Ok || (b.kind is Paragraph && !(b.claim_kind is Fact))
        }),
    decreases drafted.len(),
{
    if drafted.len() > 0 {
        let before = settled(drafted.drop_last(), replies);
        if k < before.blocks.len() {
            settling_never_degrades_a_fact(drafted.drop_last(), replies, k);
        }
    }
}

// ---------------------------------------------------------------------------
// Gaps that the system itself reports
// ---------------------------------------------------------------------------

/// A gap with the given words.
pub open spec fn gap(words: Seq<char>) -> BlockView {
    BlockView {
        kind: BlockKind::Gap,
        claim_kind: ClaimKind::Gap,
        content: ContentView::Text { text: words },
        source_refs: Seq::empty(),
    }
}

/// The words on segments that were left out of the evidence.
pub open spec fn omitted_words(count: nat) -> Seq<char> {
    "本輪有 "@ + decimal(count)
        + " 段逐字稿因額度限制未以原文納入證據，這些區間的內容未被涵蓋。"@
}

/// The words on what was recorded after the snapshot.
pub open spec fn uncovered_words(count: nat) -> Seq<char> {
    "快照建立之後又記錄了 "@ + decimal(count) + " 筆逐字稿或筆記，那些內容不在本輪成果裡。"@
}

/// The gaps in what the generation could see.
pub open spec fn coverage(omitted: usize) -> Seq<BlockView> {
    if omitted > 0 {
        seq![gap(omitted_words(omitted as nat))]
    } else {
        Seq::empty()
    }
}

/// A gap with the given words.
pub fn system_gap(text: String) -> (r: Block)
    ensures
        r@ == gap(text@),
{
    let refs: Vec<SourceRef> = Vec::new();
    assert(views(refs@) =~= Seq::empty());
    Block {
        kind: BlockKind::Gap,
        claim_kind: ClaimKind::Gap,
        content: BlockContent::Text { text },
        source_refs: refs,
    }
}

/// The gaps in what the generation could see. The model does not know them, so it is
/// not left to the model to report them.
pub fn coverage_gaps(segments_omitted: usize) -> (r: Vec<Block>)
    ensures
        views(r@) == coverage(segments_omitted),
{
    let mut out: Vec<Block> = Vec::new();
    if segments_omitted > 0 {
        let count = decimal_text(segments_omitted as u128);
        let mut words = "本輪有 ".to_owned();
        words.append(count.as_str());
        words.append(" 段逐字稿因額度限制未以原文納入證據，這些區間的內容未被涵蓋。");
        out.push(system_gap(words));
    }
    assert(views(out@) =~= coverage(segments_omitted));
    out
}

/// The gap for what was recorded after the snapshot, where there is any. It is counted
/// when the document is done, since recording goes on meanwhile.
pub fn uncovered_content_gap(count: u64) -> (r: Option<Block>)
    ensures
        crate::text::opt_view(r) == if count > 0 {
            Some(gap(uncovered_words(count as nat)))
        } else {
            None
        },
{
    if count > 0 {
        let number = decimal_text(count as u128);
        let mut words = "快照建立之後又記錄了 ".to_owned();
        words.append(number.as_str());
        words.append(" 筆逐字稿或筆記，那些內容不在本輪成果裡。");
        Some(system_gap(words))
    } else {
        None
    }
}

/// Whether a block is one of the gaps that the system reports.
pub open spec fn reported_by_system(b: BlockView) -> bool {
    &&& b.claim_kind is Gap
    &&& b.source_refs.len() == 0
    &&& begins_with(b.content.plain(), "本輪有"@) || begins_with(
        b.content.plain(),
        "快照建立之後"@,
    )
}

/// Whether a block is one of the gaps that the system reports. A revision leaves them
/// out of the version it starts from, since they speak of an earlier cursor.
pub fn is_system_gap(b: &Block) -> (r: bool)
    ensures
        r == reported_by_system(b@),
{
    if b.claim_kind != ClaimKind::Gap || b.source_refs.len() > 0 {
        return false;
    }
    let text = b.content.plain_text();
    starts_with(text.as_str(), "本輪有") || starts_with(text.as_str(), "快照建立之後")
}

/// The gaps that the system writes are the ones it knows again.
pub proof fn system_gaps_are_known_again(count: nat)
    ensures
        reported_by_system(gap(omitted_words(count))),
        reported_by_system(gap(uncovered_words(count))),
{
    reveal_strlit("本輪有");
    reveal_strlit("本輪有 ");
    reveal_strlit("快照建立之後");
    reveal_strlit("快照建立之後又記錄了 ");
    assert(omitted_words(count).take("本輪有"@.len() as int) =~= "本輪有"@);
    assert(uncovered_words(count).take("快照建立之後"@.len() as int) =~= "快照建立之後"@);
}

// ---------------------------------------------------------------------------
// Repeated content
// ---------------------------------------------------------------------------

/// How much structure a kind carries. The same sentence as a decision says more than
/// as a paragraph: decisions and action items have their own place in the document.
pub open spec fn weight(kind: BlockKind) -> int {
    match kind {
        BlockKind::Decision | BlockKind::ActionItem => 3,
        BlockKind::Gap | BlockKind::Suggestion => 2,
        BlockKind::Paragraph => 0,
        _ => 1,
    }
}

/// What two blocks are compared by: their text, in the form for comparison.
pub open spec fn key(b: BlockView) -> Seq<char> {
    normalized(b.content.plain())
}

/// Whether the block at `j` takes the place of the block at `i`: it says the same, and
/// carries more structure, or as much and comes first.
pub open spec fn replaces(blocks: Seq<BlockView>, j: int, i: int) -> bool {
    &&& key(blocks[j]) == key(blocks[i])
    &&& weight(blocks[j].kind) > weight(blocks[i].kind) || (weight(blocks[j].kind) == weight(
        blocks[i].kind,
    ) && j < i)
}

/// Whether the block at `i` stays. A block without text is no repetition of another.
pub open spec fn stays(blocks: Seq<BlockView>, i: int) -> bool {
    key(blocks[i]).len() == 0 || forall|j: int|
        0 <= j < blocks.len() ==> !#[trigger] replaces(blocks, j, i)
}

/// Those of the first `n` blocks that stay, in their order.
pub open spec fn staying(blocks: Seq<BlockView>, n: int) -> Seq<BlockView>
    decreases n,
{
    if n <= 0 {
        Seq::empty()
    } else if stays(blocks, n - 1) {
        staying(blocks, n - 1).push(blocks[n - 1])
    } else {
        staying(blocks, n - 1)
    }
}

/// The blocks without repetitions.
pub open spec fn deduplicated(blocks: Seq<BlockView>) -> Seq<BlockView> {
    staying(blocks, blocks.len() as int)
}

fn weight_of(kind: BlockKind) -> (r: u8)
    ensures
        r == weight(kind),
{
    match kind {
        BlockKind::Decision | BlockKind::ActionItem => 3,
        BlockKind::Gap | BlockKind::Suggestion => 2,
        BlockKind::Paragraph => 0,
        _ => 1,
    }
}

/// Whether the block at `i` stays, where `keys` are what the blocks are compared by.
fn keeps_its_place(blocks: &Vec<Block>, keys: &Vec<String>, i: usize) -> (r: bool)
    requires
        i < blocks@.len(),
        keys@.len() == blocks@.len(),
        forall|j: int| 0 <= j < keys@.len() ==> (#[trigger] keys@[j])@ == key(blocks@[j]@),
    ensures
        r == stays(views(blocks@), i as int),
{
    let ghost all = views(blocks@);
    assert(keys@[i as int]@ == key(all[i as int]));
    if keys[i].as_str().is_empty() {
        return true;
    }
    let mut j: usize = 0;
    while j < blocks.len()
        invariant
            j <= blocks@.len(),
            i < blocks@.len(),
            all == views(blocks@),
            keys@.len() == blocks@.len(),
            keys@[i as int]@.len() > 0,
            forall|m: int| 0 <= m < keys@.len() ==> (#[trigger] keys@[m])@ == key(blocks@[m]@),
            forall|m: int| 0 <= m < j ==> !#[trigger] replaces(all, m, i as int),
        decreases blocks.len() - j,
    {
        let (a, b) = (weight_of(blocks[j].kind), weight_of(blocks[i].kind));
        assert(keys@[j as int]@ == key(all[j as int]));
        assert(keys@[i as int]@ == key(all[i as int]));
        if (a > b || (a == b && j < i)) && same(keys[j].as_str(), keys[i].as_str()) {
            assert(replaces(all, j as int, i as int));
            return false;
        }
        assert(!replaces(all, j as int, i as int));
        j = j + 1;
    }
    true
}

proof fn lemma_staying_count(blocks: Seq<BlockView>, n: int)
    requires
        0 <= n <= blocks.len(),
    ensures
        staying(blocks, n).len() <= n,
    decreases n,
{
    if n > 0 {
        lemma_staying_count(blocks, n - 1);
    }
}

/// Leaves out what is said twice, and keeps of each sentence the block that carries
/// most structure. Gives the rest in its order, and how many were left out.
pub fn drop_duplicates(blocks: Vec<Block>) -> (r: (Vec<Block>, usize))
    ensures
        views(r.0@) == deduplicated(views(blocks@)),
        r.1 == blocks@.len() - r.0@.len(),
{
    let ghost all = views(blocks@);
    let mut keys: Vec<String> = Vec::new();
    let mut i: usize = 0;
    while i < blocks.len()
        invariant
            i <= blocks@.len(),
            keys@.len() == i,
            forall|j: int| 0 <= j < i ==> (#[trigger] keys@[j])@ == key(blocks@[j]@),
        decreases blocks.len() - i,
    {
        let text = blocks[i].content.plain_text();
        keys.push(normalize_for_match(text.as_str()));
        i = i + 1;
    }
    let mut kept: Vec<Block> = Vec::new();
    let mut k: usize = 0;
    assert(views(kept@) =~= staying(all, 0));
    while k < blocks.len()
        invariant
            k <= blocks@.len(),
            all == views(blocks@),
            keys@.len() == blocks@.len(),
            forall|j: int| 0 <= j < keys@.len() ==> (#[trigger] keys@[j])@ == key(blocks@[j]@),
            views(kept@) == staying(all, k as int),
        decreases blocks.len() - k,
    {
        let ghost before = kept@;
        if keeps_its_place(&blocks, &keys, k) {
            let b = blocks[k].clone();
            let ghost v = b@;
            kept.push(b);
            assert(views(kept@) =~= views(before).push(v));
        }
        k = k + 1;
    }
    proof {
        lemma_staying_count(all, all.len() as int);
    }
    let removed: usize = blocks.len() - kept.len();
    (kept, removed)
}

proof fn lemma_staying_member(blocks: Seq<BlockView>, n: int, k: int)
    requires
        0 <= n <= blocks.len(),
        0 <= k < staying(blocks, n).len(),
    ensures
        exists|i: int|
            0 <= i < n && staying(blocks, n)[k] == #[trigger] blocks[i] && stays(blocks, i),
    decreases n,
{
    if n > 0 {
        let before = staying(blocks, n - 1);
        if k < before.len() {
            lemma_staying_member(blocks, n - 1, k);
            let i = choose|i: int|
                0 <= i < n - 1 && before[k] == #[trigger] blocks[i] && stays(blocks, i);
            assert(blocks[i] == staying(blocks, n)[k]);
        } else {
            assert(blocks[n - 1] == staying(blocks, n)[k]);
        }
    }
}

proof fn lemma_staying_order(blocks: Seq<BlockView>, n: int, k: int, m: int)
    requires
        0 <= n <= blocks.len(),
        0 <= k < m < staying(blocks, n).len(),
    ensures
        exists|i: int, j: int|
            0 <= i < j < n && staying(blocks, n)[k] == #[trigger] blocks[i] && staying(blocks, n)[m]
                == #[trigger] blocks[j] && stays(blocks, i) && stays(blocks, j),
    decreases n,
{
    if n > 0 {
        let before = staying(blocks, n - 1);
        if m < before.len() {
            lemma_staying_order(blocks, n - 1, k, m);
            let (i, j) = choose|i: int, j: int|
                0 <= i < j < n - 1 && before[k] == #[trigger] blocks[i] && before[m]
                    == #[trigger] blocks[j] && stays(blocks, i) && stays(blocks, j);
            assert(blocks[i] == staying(blocks, n)[k] && blocks[j] == staying(blocks, n)[m]);
        } else {
            lemma_staying_member(blocks, n - 1, k);
            let i = choose|i: int|
                0 <= i < n - 1 && before[k] == #[trigger] blocks[i] && stays(blocks, i);
            assert(blocks[i] == staying(blocks, n)[k] && blocks[n - 1] == staying(blocks, n)[m]);
        }
    }
}

/// After repetitions are left out, no two blocks say the same.
pub proof fn no_sentence_stands_twice(blocks: Seq<BlockView>, k: int, m: int)
    requires
        0 <= k < m < deduplicated(blocks).len(),
    ensures
        key(deduplicated(blocks)[k]) != key(deduplicated(blocks)[m]) || key(
            deduplicated(blocks)[k],
        ).len() == 0,
{
    let n = blocks.len() as int;
    lemma_staying_order(blocks, n, k, m);
    let (i, j) = choose|i: int, j: int|
        0 <= i < j < n && staying(blocks, n)[k] == #[trigger] blocks[i] && staying(blocks, n)[m]
            == #[trigger] blocks[j] && stays(blocks, i) && stays(blocks, j);
    if key(blocks[i]) == key(blocks[j]) && key(blocks[i]).len() > 0 {
        assert(!replaces(blocks, i, j));
        assert(!replaces(blocks, j, i));
    }
}

proof fn lemma_stays_is_kept(blocks: Seq<BlockView>, n: int, i: int)
    requires
        0 <= i < n <= blocks.len(),
        stays(blocks, i),
    ensures
        exists|k: int| 0 <= k < staying(blocks, n).len() && #[trigger] staying(blocks, n)[k]
            == blocks[i],
    decreases n,
{
    let before = staying(blocks, n - 1);
    if i == n - 1 {
        assert(staying(blocks, n)[before.len() as int] == blocks[i]);
    } else {
        lemma_stays_is_kept(blocks, n - 1, i);
        let k = choose|k: int| 0 <= k < before.len() && #[trigger] before[k] == blocks[i];
        assert(staying(blocks, n)[k] == blocks[i]);
    }
}

proof fn lemma_strongest(blocks: Seq<BlockView>, i: int)
    requires
        0 <= i < blocks.len(),
        key(blocks[i]).len() > 0,
    ensures
        exists|j: int|
            0 <= j < blocks.len() && #[trigger] stays(blocks, j) && key(blocks[j]) == key(blocks[i])
                && weight(blocks[j].kind) >= weight(blocks[i].kind),
    decreases 3 - weight(blocks[i].kind), i,
{
    if !stays(blocks, i) {
        let j = choose|j: int| 0 <= j < blocks.len() && #[trigger] replaces(blocks, j, i);
        lemma_strongest(blocks, j);
        let m = choose|m: int|
            0 <= m < blocks.len() && #[trigger] stays(blocks, m) && key(blocks[m]) == key(blocks[j])
                && weight(blocks[m].kind) >= weight(blocks[j].kind);
        assert(stays(blocks, m));
    }
}

/// Whatever a block says is still said after repetitions are left out, by a block that
/// carries at least as much structure: a decision survives a paragraph with the same
/// words, in whatever order the two come.
pub proof fn every_sentence_survives(blocks: Seq<BlockView>, i: int)
    requires
        0 <= i < blocks.len(),
        key(blocks[i]).len() > 0,
    ensures
        exists|k: int|
            0 <= k < deduplicated(blocks).len() && key(#[trigger] deduplicated(blocks)[k]) == key(
                blocks[i],
            ) && weight(deduplicated(blocks)[k].kind) >= weight(blocks[i].kind),
{
    lemma_strongest(blocks, i);
    let j = choose|j: int|
        0 <= j < blocks.len() && #[trigger] stays(blocks, j) && key(blocks[j]) == key(blocks[i])
            && weight(blocks[j].kind) >= weight(blocks[i].kind);
    lemma_stays_is_kept(blocks, blocks.len() as int, j);
    let k = choose|k: int|
        0 <= k < deduplicated(blocks).len() && #[trigger] staying(blocks, blocks.len() as int)[k]
            == blocks[j];
    assert(key(deduplicated(blocks)[k]) == key(blocks[i]));
}

/// Leaving out repetitions makes no block up.
pub proof fn deduplicating_only_removes(blocks: Seq<BlockView>, k: int)
    requires
        0 <= k < deduplicated(blocks).len(),
    ensures
        deduplicated(blocks).len() <= blocks.len(),
        exists|i: int| 0 <= i < blocks.len() && deduplicated(blocks)[k] == #[trigger] blocks[i],
{
    lemma_staying_count(blocks, blocks.len() as int);
    lemma_staying_member(blocks, blocks.len() as int, k);
    let n = blocks.len() as int;
    let i = choose|i: int|
        0 <= i < n && staying(blocks, n)[k] == #[trigger] blocks[i] && stays(blocks, i);
    assert(deduplicated(blocks)[k] == blocks[i]);
}

/// Something is left wherever there was something.
pub proof fn lemma_dedup_not_empty(blocks: Seq<BlockView>)
    requires
        blocks.len() > 0,
    ensures
        deduplicated(blocks).len() > 0,
{
    if key(blocks[0]).len() > 0 {
        every_sentence_survives(blocks, 0);
    } else {
        assert(stays(blocks, 0));
        lemma_stays_is_kept(blocks, blocks.len() as int, 0);
    }
}

proof fn lemma_tight_keeps_solid_end(s: Seq<char>)
    requires
        s.len() > 0,
        !crate::text::is_white_space(s.last()),
    ensures
        crate::citation::tightened(s).len() > 0,
{
}

/// The words on segments that were left out are something to compare by.
pub proof fn lemma_omitted_words_have_text(count: nat)
    ensures
        key(gap(omitted_words(count))).len() > 0,
{
    let words = omitted_words(count);
    reveal_strlit(" 段逐字稿因額度限制未以原文納入證據，這些區間的內容未被涵蓋。");
    assert(words.last() == '。');
    let n = crate::citation::narrowed(words);
    assert(n.last() == '。');
    lemma_tight_keeps_solid_end(n);
}

} // verus!
