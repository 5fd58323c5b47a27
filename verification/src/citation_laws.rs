//! What a valid citation shows: the quoted words stand in the cited source, whole and in one
//! place, in a version from before the cursor.

use crate::citation::{
    admitted_blocks, block_verdict, block_verdicts, first_fault, hex, lemma_after_last,
    lemma_first_fault, lemma_first_index, located, meaning, narrow, narrowed, normalized,
    only_faulty_blocks_are_left_out, quotable, quotes_go_by_their_letters_and_numbers, text_digest,
    tightened, verdict, verdicts_on, CharSpan, RefVerdict,
};
use crate::document::BlockView;
use crate::store::{lookup, EvidenceTextView, SourceRefView};
use crate::text::{
    carries_meaning, decimal, decimal_reads_back, is_ascii_letter_or_digit, is_digit,
    is_white_space, occurs_at, parsed_usize, trimmed, without_plus,
};
use vstd::prelude::*;

verus! {

proof fn lemma_lookup(
    evidence: Seq<EvidenceTextView>,
    kind: Seq<char>,
    id: Seq<char>,
    revision: u32,
)
    ensures
        match lookup(evidence, kind, id, revision) {
            Some(ev) => exists|i: int|
                {
                    &&& 0 <= i < evidence.len()
                    &&& #[trigger] evidence[i] == ev
                    &&& ev.source_kind == kind && ev.source_id == id && ev.source_revision
                        == revision
                    &&& forall|j: int|
                        0 <= j < i ==> !((#[trigger] evidence[j]).source_kind == kind
                            && evidence[j].source_id == id && evidence[j].source_revision
                            == revision)
                },
            None => forall|j: int|
                0 <= j < evidence.len() ==> !((#[trigger] evidence[j]).source_kind == kind
                    && evidence[j].source_id == id && evidence[j].source_revision == revision),
        },
    decreases evidence.len(),
{
    if evidence.len() > 0 {
        let e = evidence[0];
        if e.source_kind == kind && e.source_id == id && e.source_revision == revision {
            assert(evidence[0] == e);
        } else {
            let rest = evidence.skip(1);
            lemma_lookup(rest, kind, id, revision);
            match lookup(rest, kind, id, revision) {
                Some(ev) => {
                    let i = choose|i: int|
                        {
                            &&& 0 <= i < rest.len()
                            &&& #[trigger] rest[i] == ev
                            &&& ev.source_kind == kind && ev.source_id == id && ev.source_revision
                                == revision
                            &&& forall|j: int|
                                0 <= j < i ==> !((#[trigger] rest[j]).source_kind == kind
                                    && rest[j].source_id == id && rest[j].source_revision
                                    == revision)
                        };
                    assert(evidence[i + 1] == ev);
                    assert forall|j: int| 0 <= j < i + 1 implies !((#[trigger] evidence[j]).source_kind
                        == kind && evidence[j].source_id == id && evidence[j].source_revision
                        == revision) by {
                        if j > 0 {
                            assert(rest[j - 1] == evidence[j]);
                        }
                    }
                },
                None => {
                    assert forall|j: int| 0 <= j < evidence.len() implies !((
                    #[trigger] evidence[j]).source_kind == kind && evidence[j].source_id == id
                        && evidence[j].source_revision == revision) by {
                        if j > 0 {
                            assert(rest[j - 1] == evidence[j]);
                        }
                    }
                },
            }
        }
    }
}

/// A citation is found valid only where the quoted words stand in what it cites: there is a
/// source of that kind, name and version, recorded up to the cursor, and the quote, in the form
/// for comparison, is one unbroken part of the text in the cited range. So it is never longer
/// than that text, and nothing can be added to it that was not said. The quote has two letters
/// or numbers at least, and the digest that is recorded for it.
pub proof fn valid_quotes_were_said(
    evidence: Seq<EvidenceTextView>,
    through: u64,
    r: SourceRefView,
)
    requires
        verdict(evidence, through, r) is Valid,
    ensures
        exists|i: int, start: int, end: int, at: int|
            {
                &&& 0 <= i < evidence.len()
                &&& (#[trigger] evidence[i]).source_kind == r.source_kind
                &&& evidence[i].source_id == r.source_id
                &&& evidence[i].source_revision == r.source_revision
                &&& evidence[i].created_event_seq <= through
                &&& 0 <= start < end <= evidence[i].text.len()
                &&& located(r.locator) == Some(CharSpan { start: start as usize, end: end as usize })
                &&& 0 <= at
                &&& at + normalized(r.quoted_text).len() <= normalized(
                    evidence[i].text.subrange(start, end),
                ).len()
                &&& normalized(r.quoted_text) == #[trigger] normalized(
                    evidence[i].text.subrange(start, end),
                ).subrange(at, at + normalized(r.quoted_text).len())
            },
        meaning(r.quoted_text) >= 2,
        r.quoted_text_sha256 == text_digest(r.quoted_text),
{
    quotes_go_by_their_letters_and_numbers(r.quoted_text);
    lemma_lookup(evidence, r.source_kind, r.source_id, r.source_revision);
    let ev = lookup(evidence, r.source_kind, r.source_id, r.source_revision)->0;
    let i = choose|i: int| 0 <= i < evidence.len() && #[trigger] evidence[i] == ev;
    let span = located(r.locator)->0;
    let (start, end) = (span.start as int, span.end as int);
    let hay = normalized(ev.text.subrange(start, end));
    let needle = normalized(r.quoted_text);
    let at = choose|at: int| occurs_at(hay, needle, at);
    assert(hay.subrange(at, at + needle.len()) == needle);
    assert(evidence[i].text == ev.text);
}

/// The locator `start-end`, written out.
proof fn lemma_locator(start: nat, end: nat)
    requires
        start < end <= usize::MAX,
    ensures
        located(decimal(start) + "-"@ + decimal(end)) == Some(
            CharSpan { start: start as usize, end: end as usize },
        ),
{
    reveal_strlit("-");
    decimal_reads_back(start);
    decimal_reads_back(end);
    let (a, b) = (decimal(start), decimal(end));
    let s = a + "-"@ + b;
    let n = a.len() as int;
    assert forall|i: int| 0 <= i < s.len() implies s[i] != '/' && (i < n ==> s[i] != '-') by {
        if i < n {
            assert(s[i] == a[i]);
            assert(is_digit(a[i]));
        } else if i > n {
            assert(s[i] == b[i - n - 1]);
            assert(is_digit(b[i - n - 1]));
        }
    }
    lemma_after_last(s, 0);
    assert(s.skip(0) =~= s);
    assert(s[n] == '-');
    lemma_first_index(s, '-', n);
    assert(s.take(n) =~= a);
    assert(s.skip(n + 1) =~= b);
    lemma_number(start);
    lemma_number(end);
}

proof fn lemma_number(n: nat)
    requires
        n <= usize::MAX,
    ensures
        parsed_usize(trimmed(decimal(n))) == Some(n as usize),
{
    decimal_reads_back(n);
    let s = decimal(n);
    assert(is_digit(s[0]) && is_digit(s[s.len() - 1]));
    assert(!is_white_space(s[0]) && !is_white_space(s[s.len() - 1]));
    assert(trimmed(s) == s);
    assert(without_plus(s) == s);
}

/// A page before the range makes no difference to it.
pub proof fn locators_name_their_range(page: Seq<char>, start: nat, end: nat)
    requires
        start < end <= usize::MAX,
    ensures
        located(decimal(start) + "-"@ + decimal(end)) == Some(
            CharSpan { start: start as usize, end: end as usize },
        ),
        located(page + "/"@ + decimal(start) + "-"@ + decimal(end)) == Some(
            CharSpan { start: start as usize, end: end as usize },
        ),
{
    lemma_locator(start, end);
    reveal_strlit("/");
    reveal_strlit("-");
    decimal_reads_back(start);
    decimal_reads_back(end);
    let (a, b) = (decimal(start), decimal(end));
    let t = a + "-"@ + b;
    let s = page + "/"@ + a + "-"@ + b;
    let k = page.len() + 1;
    assert(s.skip(k as int) =~= t);
    assert forall|i: int| k <= i < s.len() implies s[i] != '/' by {
        assert(s[i] == t[i - k]);
        if i - k < a.len() {
            assert(t[i - k] == a[i - k]);
            assert(is_digit(a[i - k]));
        } else if i - k > a.len() {
            assert(t[i - k] == b[i - k - a.len() - 1]);
            assert(is_digit(b[i - k - a.len() - 1]));
        }
    }
    assert(s[k - 1] == '/');
    lemma_after_last(s, k as int);
    assert forall|i: int| 0 <= i < t.len() implies t[i] != '/' by {
        assert(t[i] == s[i + k]);
    }
    lemma_after_last(t, 0);
    assert(t.skip(0) =~= t);
}

/// A range that ends where it begins, or before, names nothing.
pub proof fn empty_ranges_name_nothing(start: nat, end: nat)
    requires
        end <= start <= usize::MAX,
    ensures
        located(decimal(start) + "-"@ + decimal(end)) is None,
{
    reveal_strlit("-");
    decimal_reads_back(start);
    decimal_reads_back(end);
    let (a, b) = (decimal(start), decimal(end));
    let s = a + "-"@ + b;
    let n = a.len() as int;
    assert forall|i: int| 0 <= i < s.len() implies s[i] != '/' && (i < n ==> s[i] != '-') by {
        if i < n {
            assert(s[i] == a[i]);
            assert(is_digit(a[i]));
        } else if i > n {
            assert(s[i] == b[i - n - 1]);
            assert(is_digit(b[i - n - 1]));
        }
    }
    lemma_after_last(s, 0);
    assert(s.skip(0) =~= s);
    assert(s[n] == '-');
    lemma_first_index(s, '-', n);
    assert(s.take(n) =~= a);
    assert(s.skip(n + 1) =~= b);
    lemma_number(start);
    lemma_number(end);
}

/// A citation of words that stand where it says is found valid: the first source of that kind,
/// name and version is looked into, in the range that the locator writes out.
pub proof fn words_that_stand_there_are_valid(
    evidence: Seq<EvidenceTextView>,
    through: u64,
    r: SourceRefView,
    i: int,
    start: int,
    end: int,
    at: int,
)
    requires
        0 <= i < evidence.len(),
        evidence[i].source_kind == r.source_kind,
        evidence[i].source_id == r.source_id,
        evidence[i].source_revision == r.source_revision,
        forall|j: int|
            0 <= j < i ==> !((#[trigger] evidence[j]).source_kind == r.source_kind
                && evidence[j].source_id == r.source_id && evidence[j].source_revision
                == r.source_revision),
        evidence[i].created_event_seq <= through,
        0 <= start < end <= evidence[i].text.len(),
        end <= usize::MAX,
        r.locator == decimal(start as nat) + "-"@ + decimal(end as nat),
        0 <= at,
        at + normalized(r.quoted_text).len() <= normalized(
            evidence[i].text.subrange(start, end),
        ).len(),
        normalized(r.quoted_text) == normalized(evidence[i].text.subrange(start, end)).subrange(
            at,
            at + normalized(r.quoted_text).len(),
        ),
        meaning(r.quoted_text) >= 2,
        r.quoted_text_sha256 == text_digest(r.quoted_text),
    ensures
        verdict(evidence, through, r) is Valid,
{
    quotes_go_by_their_letters_and_numbers(r.quoted_text);
    lemma_lookup(evidence, r.source_kind, r.source_id, r.source_revision);
    lemma_locator(start as nat, end as nat);
    match lookup(evidence, r.source_kind, r.source_id, r.source_revision) {
        Some(ev) => {
            let k = choose|k: int|
                {
                    &&& 0 <= k < evidence.len()
                    &&& #[trigger] evidence[k] == ev
                    &&& ev.source_kind == r.source_kind && ev.source_id == r.source_id
                        && ev.source_revision == r.source_revision
                    &&& forall|j: int|
                        0 <= j < k ==> !((#[trigger] evidence[j]).source_kind == r.source_kind
                            && evidence[j].source_id == r.source_id && evidence[j].source_revision
                            == r.source_revision)
                };
            if k < i {
                assert(evidence[k] == ev);
            } else if i < k {
                assert(evidence[i].source_kind == r.source_kind);
            }
            assert(k == i);
            let hay = normalized(ev.text.subrange(start, end));
            assert(occurs_at(hay, normalized(r.quoted_text), at));
        },
        None => {
            assert(evidence[i].source_kind == r.source_kind);
        },
    }
}

/// What is wrong with a citation is told by the first thing that is: too little in the quote,
/// another digest, no such source, a source from after the cursor.
pub proof fn faults_are_told_in_order(
    evidence: Seq<EvidenceTextView>,
    through: u64,
    r: SourceRefView,
)
    ensures
        meaning(r.quoted_text) < 2 ==> verdict(evidence, through, r) is QuoteNotFound,
        meaning(r.quoted_text) >= 2 && r.quoted_text_sha256 != text_digest(r.quoted_text)
            ==> verdict(evidence, through, r) is HashMismatch,
        meaning(r.quoted_text) >= 2 && r.quoted_text_sha256 == text_digest(r.quoted_text) && (
        forall|j: int|
            0 <= j < evidence.len() ==> !((#[trigger] evidence[j]).source_kind == r.source_kind
                && evidence[j].source_id == r.source_id && evidence[j].source_revision
                == r.source_revision)) ==> verdict(evidence, through, r) is UnknownSource,
        meaning(r.quoted_text) >= 2 && r.quoted_text_sha256 == text_digest(r.quoted_text) && (
        exists|j: int|
            0 <= j < evidence.len() && (#[trigger] evidence[j]).source_kind == r.source_kind
                && evidence[j].source_id == r.source_id && evidence[j].source_revision
                == r.source_revision) && (forall|j: int|
            0 <= j < evidence.len() && (#[trigger] evidence[j]).source_kind == r.source_kind
                && evidence[j].source_id == r.source_id && evidence[j].source_revision
                == r.source_revision ==> evidence[j].created_event_seq > through) ==> verdict(
            evidence,
            through,
            r,
        ) is OutsideSnapshot,
{
    quotes_go_by_their_letters_and_numbers(r.quoted_text);
    lemma_lookup(evidence, r.source_kind, r.source_id, r.source_revision);
}

/// A citation that leads past the end of the text leads nowhere.
pub proof fn ranges_beyond_the_text_are_refused(
    evidence: Seq<EvidenceTextView>,
    through: u64,
    r: SourceRefView,
)
    requires
        match located(r.locator) {
            None => true,
            Some(span) => forall|j: int|
                0 <= j < evidence.len() ==> (#[trigger] evidence[j]).text.len() < span.end,
        },
    ensures
        !(verdict(evidence, through, r) is Valid),
{
    if verdict(evidence, through, r) is Valid {
        valid_quotes_were_said(evidence, through, r);
    }
}

// ---------------------------------------------------------------------------
// Blocks
// ---------------------------------------------------------------------------

/// Blocks are checked one by one: what is kept of two lists, one after the other, is what is
/// kept of each.
pub proof fn blocks_are_checked_one_by_one(
    evidence: Seq<EvidenceTextView>,
    through: u64,
    a: Seq<BlockView>,
    b: Seq<BlockView>,
)
    ensures
        admitted_blocks(evidence, through, a + b) == admitted_blocks(evidence, through, a)
            + admitted_blocks(evidence, through, b),
    decreases b.len(),
{
    if b.len() == 0 {
        assert(a + b =~= a);
        assert(admitted_blocks(evidence, through, a) + admitted_blocks(evidence, through, b)
            =~= admitted_blocks(evidence, through, a));
    } else {
        blocks_are_checked_one_by_one(evidence, through, a, b.drop_last());
        assert((a + b).drop_last() =~= a + b.drop_last());
        assert((a + b).last() == b.last());
        assert(admitted_blocks(evidence, through, a + b) =~= admitted_blocks(evidence, through, a)
            + admitted_blocks(evidence, through, b));
    }
}

/// A block that meets the rules, cites something where it states a fact, and cites nothing that
/// is not valid is kept with all that it says; of its citations only the status is changed.
/// Any other is left out.
pub proof fn a_block_is_kept_whole_or_not_at_all(
    evidence: Seq<EvidenceTextView>,
    through: u64,
    b: BlockView,
)
    ensures
        ({
            let kept = admitted_blocks(evidence, through, seq![b]);
            let sound = b.check() is Ok && (b.claim_kind is Fact ==> b.source_refs.len() > 0)
                && forall|i: int|
                0 <= i < b.source_refs.len() ==> verdict(
                    evidence,
                    through,
                    #[trigger] b.source_refs[i],
                ) is Valid;
            &&& !sound ==> kept.len() == 0
            &&& sound ==> {
                &&& kept.len() == 1
                &&& kept[0].kind == b.kind
                &&& kept[0].claim_kind == b.claim_kind
                &&& kept[0].content == b.content
                &&& kept[0].source_refs.len() == b.source_refs.len()
                &&& forall|i: int|
                    0 <= i < b.source_refs.len() ==> #[trigger] kept[0].source_refs[i] == (
                    SourceRefView { validation_status: "valid"@, ..b.source_refs[i] })
            }
        }),
{
    only_faulty_blocks_are_left_out(evidence, through, 0, b);
    let one = seq![b];
    assert(one.drop_last() =~= Seq::empty());
    assert(one.last() == b);
    assert(admitted_blocks(evidence, through, one.drop_last()) == Seq::<BlockView>::empty());
}

/// Every block gets a verdict of its own, under its own number, with a verdict on each of its
/// citations. It is kept exactly where there is nothing to say against it.
pub proof fn every_block_gets_its_verdict(
    evidence: Seq<EvidenceTextView>,
    through: u64,
    blocks: Seq<BlockView>,
    i: int,
)
    requires
        0 <= i < blocks.len() <= u32::MAX,
    ensures
        ({
            let v = block_verdicts(evidence, through, blocks)[i];
            let b = blocks[i];
            &&& block_verdicts(evidence, through, blocks).len() == blocks.len()
            &&& v.position == i
            &&& v.admitted <==> v.reason is None
            &&& v.admitted <==> b.check() is Ok && (b.claim_kind is Fact ==> b.source_refs.len()
                > 0) && forall|k: int|
                0 <= k < b.source_refs.len() ==> verdict(
                    evidence,
                    through,
                    #[trigger] b.source_refs[k],
                ) is Valid
            &&& b.check() is Ok && b.source_refs.len() > 0 ==> v.refs.len() == b.source_refs.len()
            &&& forall|k: int|
                b.check() is Ok && 0 <= k < b.source_refs.len() ==> #[trigger] v.refs[k] == verdict(
                    evidence,
                    through,
                    b.source_refs[k],
                )
        }),
{
    only_faulty_blocks_are_left_out(evidence, through, i as u32, blocks[i]);
}

/// Of several citations at fault the first one is told.
pub proof fn the_first_fault_is_told(
    evidence: Seq<EvidenceTextView>,
    through: u64,
    position: u32,
    b: BlockView,
    k: int,
)
    requires
        b.check() is Ok,
        0 <= k < b.source_refs.len(),
        !(verdict(evidence, through, b.source_refs[k]) is Valid),
        forall|j: int|
            0 <= j < k ==> verdict(evidence, through, #[trigger] b.source_refs[j]) is Valid,
    ensures
        block_verdict(evidence, through, position, b).reason == Some(
            verdict(evidence, through, b.source_refs[k]).words(),
        ),
{
    let refs = verdicts_on(evidence, through, b.source_refs);
    assert forall|j: int| 0 <= j < k implies (#[trigger] refs[j]) is Valid by {
        assert(verdict(evidence, through, b.source_refs[j]) is Valid);
    }
    lemma_first_fault(refs, k);
}

// ---------------------------------------------------------------------------
// The form for comparison
// ---------------------------------------------------------------------------

proof fn lemma_tight_solid(s: Seq<char>)
    requires
        forall|i: int| 0 <= i < s.len() ==> !is_white_space(#[trigger] s[i]),
    ensures
        tightened(s) == s,
    decreases s.len(),
{
    if s.len() > 0 {
        let rest = s.drop_last();
        assert forall|i: int| 0 <= i < rest.len() implies !is_white_space(#[trigger] rest[i]) by {
            assert(rest[i] == s[i]);
        }
        lemma_tight_solid(rest);
        assert(!is_white_space(s[s.len() - 1]));
        if rest.len() > 0 {
            assert(!is_white_space(rest[rest.len() - 1]));
        }
        assert(rest.push(s.last()) =~= s);
    }
}

/// Text without white space is compared letter by letter: a full-width form counts as the ASCII
/// character, and everything else as itself. Nothing is left out or folded together.
pub proof fn solid_text_is_compared_letter_by_letter(s: Seq<char>)
    requires
        forall|i: int| 0 <= i < s.len() ==> !is_white_space(#[trigger] s[i]),
    ensures
        normalized(s).len() == s.len(),
        forall|i: int|
            0 <= i < s.len() ==> #[trigger] normalized(s)[i] == if 0xFF01 <= s[i] as int <= 0xFF5E {
                (s[i] as int - 0xFEE0) as char
            } else {
                s[i]
            },
{
    let n = narrowed(s);
    assert forall|i: int| 0 <= i < n.len() implies !is_white_space(#[trigger] n[i]) by {
        assert(!is_white_space(s[i]));
    }
    lemma_tight_solid(n);
}

proof fn lemma_tight_leading(w: char, s: Seq<char>)
    requires
        is_white_space(w),
    ensures
        tightened(seq![w] + s) == tightened(s),
    decreases s.len(),
{
    let all = seq![w] + s;
    if s.len() == 0 {
        assert(all.drop_last() =~= Seq::empty());
        assert(all.last() == w);
        assert(tightened(all) == tightened(all.drop_last()));
        assert(s =~= all.drop_last());
    } else {
        let rest = s.drop_last();
        lemma_tight_leading(w, rest);
        assert(all.drop_last() =~= seq![w] + rest);
        assert(all.last() == s.last());
        if rest.len() > 0 {
            assert((seq![w] + rest).last() == rest.last());
        } else {
            assert(tightened(rest).len() == 0);
        }
    }
}

/// White space at either end of a text makes no difference.
pub proof fn white_space_at_the_ends_is_ignored(w: char, s: Seq<char>)
    requires
        is_white_space(w),
    ensures
        normalized(seq![w] + s) == normalized(s),
        normalized(s + seq![w]) == normalized(s),
{
    let n = narrowed(s);
    let v = narrow(w);
    assert(is_white_space(v));
    assert(narrowed(seq![w] + s) =~= seq![v] + n);
    lemma_tight_leading(v, n);
    assert(narrowed(s + seq![w]) =~= n + seq![v]);
    assert((n + seq![v]).drop_last() =~= n);
    assert((n + seq![v]).last() == v);
}

proof fn lemma_tight_words(a: Seq<char>, w: char, b: Seq<char>)
    requires
        a.len() > 0,
        b.len() > 0,
        is_white_space(w),
        is_ascii_letter_or_digit(a.last()),
        is_ascii_letter_or_digit(b[0]),
        forall|i: int| 0 <= i < a.len() ==> !is_white_space(#[trigger] a[i]),
        forall|i: int| 0 <= i < b.len() ==> !is_white_space(#[trigger] b[i]),
    ensures
        tightened(a + seq![w] + b) == a + seq![' '] + b,
    decreases b.len(),
{
    let s = a + seq![w] + b;
    let rest = b.drop_last();
    assert(s.drop_last() =~= a + seq![w] + rest);
    assert(s.last() == b.last());
    assert(!is_white_space(b[b.len() - 1]));
    if rest.len() == 0 {
        let front = a + seq![w];
        assert(a + seq![w] + rest =~= front);
        assert(front.drop_last() =~= a);
        assert(front.last() == w);
        lemma_tight_solid(a);
        assert(tightened(front) == a);
        assert(b.last() == b[0]);
        assert(tightened(s) == a.push(' ').push(b[0]));
        assert(a.push(' ').push(b[0]) =~= a + seq![' '] + b);
    } else {
        assert forall|i: int| 0 <= i < rest.len() implies !is_white_space(#[trigger] rest[i]) by {
            assert(rest[i] == b[i]);
        }
        lemma_tight_words(a, w, rest);
        assert((a + seq![w] + rest).last() == rest[rest.len() - 1]);
        assert(tightened(s) == (a + seq![' '] + rest).push(b.last()));
        assert((a + seq![' '] + rest).push(b.last()) =~= a + seq![' '] + b);
    }
}

/// Between two Latin words white space is kept, as one space: running them together is not the
/// same text.
pub proof fn words_stay_apart(a: Seq<char>, w: char, b: Seq<char>)
    requires
        a.len() > 0,
        b.len() > 0,
        is_white_space(w),
        is_ascii_letter_or_digit(a.last()),
        is_ascii_letter_or_digit(b[0]),
        forall|i: int| 0 <= i < a.len() ==> !is_white_space(#[trigger] a[i]),
        forall|i: int| 0 <= i < b.len() ==> !is_white_space(#[trigger] b[i]),
    ensures
        normalized(a + seq![w] + b) == normalized(a) + seq![' '] + normalized(b),
        normalized(a + seq![w] + b) != normalized(a + b),
{
    let (x, v, y) = (narrowed(a), narrow(w), narrowed(b));
    assert(is_white_space(v));
    assert forall|i: int| 0 <= i < x.len() implies !is_white_space(#[trigger] x[i]) by {
        assert(!is_white_space(a[i]));
    }
    assert forall|i: int| 0 <= i < y.len() implies !is_white_space(#[trigger] y[i]) by {
        assert(!is_white_space(b[i]));
    }
    assert(narrowed(a + seq![w] + b) =~= x + seq![v] + y);
    lemma_tight_words(x, v, y);
    lemma_tight_solid(x);
    lemma_tight_solid(y);
    let z = a + b;
    assert forall|i: int| 0 <= i < z.len() implies !is_white_space(#[trigger] z[i]) by {
        if i < a.len() {
            assert(z[i] == a[i]);
        } else {
            assert(z[i] == b[i - a.len()]);
        }
    }
    solid_text_is_compared_letter_by_letter(z);
}

proof fn lemma_no_fault(refs: Seq<RefVerdict>)
    ensures
        first_fault(refs) is None <==> forall|i: int|
            0 <= i < refs.len() ==> (#[trigger] refs[i]) is Valid,
    decreases refs.len(),
{
    if refs.len() > 0 && refs[0] is Valid {
        let rest = refs.skip(1);
        lemma_no_fault(rest);
        assert forall|i: int| 0 < i < refs.len() implies #[trigger] refs[i] == rest[i - 1] by {}
        assert forall|i: int| 0 <= i < rest.len() implies #[trigger] rest[i] == refs[i + 1] by {}
    }
}

/// A block is admitted exactly where it meets the rules, cites something if it states a fact, and
/// every citation that it has is valid. Nothing but a fact has to cite.
pub proof fn facts_have_to_cite(
    evidence: Seq<EvidenceTextView>,
    through: u64,
    position: u32,
    b: BlockView,
)
    ensures
        block_verdict(evidence, through, position, b).admitted <==> {
            &&& b.check() is Ok
            &&& b.claim_kind is Fact ==> b.source_refs.len() > 0
            &&& forall|i: int|
                0 <= i < b.source_refs.len() ==> verdict(
                    evidence,
                    through,
                    #[trigger] b.source_refs[i],
                ) is Valid
        },
{
    let refs = verdicts_on(evidence, through, b.source_refs);
    lemma_no_fault(refs);
    assert forall|i: int| 0 <= i < b.source_refs.len() implies #[trigger] refs[i] == verdict(
        evidence,
        through,
        b.source_refs[i],
    ) by {}
    if block_verdict(evidence, through, position, b).admitted {
        assert forall|i: int| 0 <= i < b.source_refs.len() implies verdict(
            evidence,
            through,
            #[trigger] b.source_refs[i],
        ) is Valid by {
            assert(refs[i] is Valid);
        }
    }
}

proof fn lemma_tight_blank(s: Seq<char>)
    requires
        tightened(s).len() == 0,
    ensures
        forall|i: int| 0 <= i < s.len() ==> is_white_space(#[trigger] s[i]),
    decreases s.len(),
{
    if s.len() > 0 {
        let r = s.drop_last();
        lemma_tight_blank(r);
        assert forall|i: int| 0 <= i < s.len() implies is_white_space(#[trigger] s[i]) by {
            if i < r.len() {
                assert(r[i] == s[i]);
            }
        }
    }
}

/// What parts the normal forms of two texts that stand side by side: one space where there is
/// white space between two Latin letters or digits, else nothing.
spec fn parting(a: Seq<char>, b: Seq<char>, x: Seq<char>, y: Seq<char>) -> Seq<char> {
    if ((a.len() > 0 && is_white_space(a.last())) || (b.len() > 0 && is_white_space(b[0])))
        && x.len() > 0 && y.len() > 0 && is_ascii_letter_or_digit(x.last())
        && is_ascii_letter_or_digit(y[0]) {
        seq![' ']
    } else {
        Seq::empty()
    }
}

proof fn lemma_tight_pieces(a: Seq<char>, b: Seq<char>)
    ensures
        tightened(a + b) == tightened(a) + parting(a, b, tightened(a), tightened(b)) + tightened(b),
    decreases b.len(),
{
    let x = tightened(a);
    if b.len() == 0 {
        assert(a + b =~= a);
        assert(x + parting(a, b, x, tightened(b)) + tightened(b) =~= x);
    } else {
        let r = b.drop_last();
        let c = b.last();
        let y = tightened(r);
        lemma_tight_pieces(a, r);
        assert((a + b).drop_last() =~= a + r);
        assert((a + b).last() == c);
        if r.len() == 0 {
            assert(a + r =~= a);
        } else {
            assert((a + r).last() == r.last());
            assert(b[0] == r[0]);
        }
        if y.len() == 0 {
            lemma_tight_blank(r);
        } else {
            assert((x + parting(a, r, x, y) + y).last() == y.last());
        }
        assert(tightened(a + b) =~= x + parting(a, b, x, tightened(b)) + tightened(b));
    }
}

/// Texts are compared piece by piece. Where two pieces meet, white space counts only between two
/// Latin letters or digits, and there as one space.
pub proof fn texts_are_compared_piece_by_piece(a: Seq<char>, b: Seq<char>)
    ensures
        ({
            let (x, y) = (normalized(a), normalized(b));
            let apart = (a.len() > 0 && is_white_space(a.last())) || (b.len() > 0
                && is_white_space(b[0]));
            let words = x.len() > 0 && y.len() > 0 && is_ascii_letter_or_digit(x.last())
                && is_ascii_letter_or_digit(y[0]);
            &&& apart && words ==> normalized(a + b) == x + seq![' '] + y
            &&& !(apart && words) ==> normalized(a + b) == x + y
        }),
{
    let (n, m) = (narrowed(a), narrowed(b));
    assert(narrowed(a + b) =~= n + m);
    lemma_tight_pieces(n, m);
    if a.len() > 0 {
        assert(n.last() == narrow(a.last()));
    }
    if b.len() > 0 {
        assert(m[0] == narrow(b[0]));
    }
    let (x, y) = (normalized(a), normalized(b));
    assert(x + Seq::empty() + y =~= x + y);
}

/// The letters and numbers of two texts are counted together, each once, and a quote needs two.
pub proof fn quotes_need_two_letters(a: Seq<char>, b: Seq<char>, c: char)
    ensures
        meaning(a + b) == meaning(a) + meaning(b),
        meaning(seq![c]) == if carries_meaning(c) {
            1nat
        } else {
            0nat
        },
        'a' <= c <= 'z' || 'A' <= c <= 'Z' || '0' <= c <= '9' ==> carries_meaning(c),
        is_white_space(c) ==> !carries_meaning(c),
        quotable(a) <==> meaning(normalized(a)) >= 2,
    decreases b.len(),
{
    let one = seq![c];
    assert(one.drop_last() =~= Seq::empty());
    assert(meaning(one.drop_last()) == 0);
    if b.len() == 0 {
        assert(a + b =~= a);
    } else {
        quotes_need_two_letters(a, b.drop_last(), c);
        assert((a + b).drop_last() =~= a + b.drop_last());
        assert((a + b).last() == b.last());
    }
}

/// A digest in base sixteen gives its bytes back: two digits for each byte, the greater first.
pub proof fn digests_read_back(bytes: Seq<u8>, i: int)
    requires
        0 <= i < bytes.len(),
    ensures
        hex(bytes).len() == 2 * bytes.len(),
        ({
            let digit = |c: char|
                if '0' <= c <= '9' {
                    c as int - '0' as int
                } else if 'a' <= c <= 'f' {
                    c as int - 'a' as int + 10
                } else {
                    -1
                };
            &&& 0 <= digit(hex(bytes)[2 * i]) < 16
            &&& 0 <= digit(hex(bytes)[2 * i + 1]) < 16
            &&& 16 * digit(hex(bytes)[2 * i]) + digit(hex(bytes)[2 * i + 1]) == bytes[i]
        }),
{
}

} // verus!
