//! Citations: whether a quote really stands where a block says it does.
//!
//! A model that says it has checked its sources has only produced more text. So the
//! check is made here. It shows that the quote stands in the evidence; it does not
//! show that what the block says follows from the quote.

use crate::document::{Block, BlockView};
use crate::store::{find_evidence, lookup, EvidenceText, EvidenceTextView, SourceRef, SourceRefView};
use crate::text::{
    carries_meaning, chars_of, contains, contains_text, is_ascii_letter_or_digit,
    is_white_space, opt_view, parse_usize, parsed_usize, same, string_of, trim_range, trimmed,
    views,
};
use sha2::{Digest, Sha256};
use vstd::prelude::*;
use vstd::string::*;
use vstd::utf8::encode_utf8;

verus! {

// ---------------------------------------------------------------------------
// Digests
// ---------------------------------------------------------------------------

/// The SHA-256 digest of some bytes.
pub uninterp spec fn sha256(bytes: Seq<u8>) -> Seq<u8>;

/// `sha2::Sha256::digest`: 32 bytes that depend on the input alone.
#[verifier::external_body]
fn sha256_digest(bytes: &[u8]) -> (r: Vec<u8>)
    ensures
        r@ == sha256(bytes@),
        r@.len() == 32,
{
    Sha256::digest(bytes).to_vec()
}

pub open spec fn hex_digit(n: int) -> char {
    if n < 10 {
        (48 + n) as char
    } else {
        (87 + n) as char
    }
}

/// The bytes in base sixteen, two small digits for each.
pub open spec fn hex(bytes: Seq<u8>) -> Seq<char> {
    Seq::new(
        2 * bytes.len(),
        |i: int|
            if i % 2 == 0 {
                hex_digit(bytes[i / 2] as int / 16)
            } else {
                hex_digit(bytes[i / 2] as int % 16)
            },
    )
}

fn hex_char(n: u8) -> (c: char)
    requires
        n < 16,
    ensures
        c == hex_digit(n as int),
{
    if n < 10 {
        (48u8 + n) as char
    } else {
        (87u8 + n) as char
    }
}

/// The bytes in base sixteen, two small digits for each.
pub fn hex_text(bytes: &[u8]) -> (r: String)
    ensures
        r@ == hex(bytes@),
{
    let mut out = String::new();
    let mut i: usize = 0;
    while i < bytes.len()
        invariant
            i <= bytes@.len(),
            out@ == hex(bytes@.take(i as int)),
        decreases bytes.len() - i,
    {
        let b: u8 = bytes[i];
        let ghost before = out@;
        out.push(hex_char(b / 16));
        out.push(hex_char(b % 16));
        i = i + 1;
        assert forall|k: int| 0 <= k < 2 * i implies out@[k] == hex(bytes@.take(i as int))[k] by {
            if k < 2 * i - 2 {
                assert(before[k] == hex(bytes@.take(i - 1))[k]);
                assert(bytes@.take(i - 1)[k / 2] == bytes@.take(i as int)[k / 2]);
            } else {
                assert(k / 2 == i - 1);
            }
        }
        assert(out@ =~= hex(bytes@.take(i as int)));
    }
    assert(bytes@.take(i as int) =~= bytes@);
    out
}

/// The SHA-256 digest of a text, in base sixteen.
pub open spec fn text_digest(s: Seq<char>) -> Seq<char> {
    hex(sha256(encode_utf8(s)))
}

/// The SHA-256 digest of some bytes, in base sixteen.
pub fn sha256_hex(bytes: &[u8]) -> (r: String)
    ensures
        r@ == hex(sha256(bytes@)),
        r@.len() == 64,
{
    let digest = sha256_digest(bytes);
    hex_text(digest.as_slice())
}

// ---------------------------------------------------------------------------
// Comparing quotes
// ---------------------------------------------------------------------------

/// The full-width forms of ASCII characters and the full-width space, made narrow.
pub open spec fn narrow(c: char) -> char {
    let n = c as int;
    if 0xFF01 <= n <= 0xFF5E {
        (n - 0xFEE0) as char
    } else if n == 0x3000 {
        ' '
    } else {
        c
    }
}

/// `s` with every character made narrow.
pub open spec fn narrowed(s: Seq<char>) -> Seq<char> {
    Seq::new(s.len(), |i: int| narrow(s[i]))
}

/// `s` without its white space, but for one space wherever white space parts two
/// ASCII letters or digits: there it is the boundary of a word.
pub open spec fn tightened(s: Seq<char>) -> Seq<char>
    decreases s.len(),
{
    if s.len() == 0 {
        s
    } else {
        let rest = s.drop_last();
        let c = s.last();
        if is_white_space(c) {
            tightened(rest)
        } else if is_word_boundary(tightened(rest), rest, c) {
            tightened(rest).push(' ').push(c)
        } else {
            tightened(rest).push(c)
        }
    }
}

/// Whether white space at the end of `rest` parts `kept`, what is kept of `rest`, from
/// `c`, and both sides are ASCII letters or digits.
pub open spec fn is_word_boundary(kept: Seq<char>, rest: Seq<char>, c: char) -> bool {
    &&& rest.len() > 0
    &&& is_white_space(rest.last())
    &&& kept.len() > 0
    &&& is_ascii_letter_or_digit(kept.last())
    &&& is_ascii_letter_or_digit(c)
}

/// The form in which quotes are compared: width and white space are evened out, and
/// nothing else is.
pub open spec fn normalized(s: Seq<char>) -> Seq<char> {
    tightened(narrowed(s))
}

fn is_word_char(c: char) -> (r: bool)
    ensures
        r == is_ascii_letter_or_digit(c),
{
    (c >= '0' && c <= '9') || (c >= 'a' && c <= 'z') || (c >= 'A' && c <= 'Z')
}

fn narrow_char(c: char) -> (r: char)
    ensures
        r == narrow(c),
{
    let n: u32 = c as u32;
    if 0xFF01 <= n && n <= 0xFF5E {
        ((n - 0xFEE0) as u8) as char
    } else if n == 0x3000 {
        ' '
    } else {
        c
    }
}

/// The form in which quotes are compared.
///
/// Full-width ASCII is made narrow, since input methods mix the two. White space
/// between Chinese, Japanese or Korean characters means nothing and goes; between
/// Latin words it parts them and stays, as one space.
pub fn normalize_for_match(text: &str) -> (r: String)
    ensures
        r@ == normalized(text@),
{
    let mut out = String::new();
    let mut last: char = ' ';
    let mut pending_space: bool = false;
    for ch in it: text.chars()
        invariant
            it.seq() == text@,
            out@ == tightened(narrowed(text@).take(it.index())),
            out@.len() > 0 ==> last == out@.last(),
            out@.len() == 0 ==> !is_ascii_letter_or_digit(last),
            it.index() == 0 ==> !pending_space,
            it.index() > 0 ==> pending_space == is_white_space(narrowed(text@)[it.index() - 1]),
    {
        let ghost k = it.index();
        let c = narrow_char(ch);
        assert(c == narrowed(text@)[k]);
        let ghost all = narrowed(text@).take(k + 1);
        assert(all.drop_last() =~= narrowed(text@).take(k));
        assert(all.last() == c);
        if c.is_whitespace() {
            pending_space = true;
        } else {
            if pending_space && is_word_char(last) && is_word_char(c) {
                out.push(' ');
            }
            out.push(c);
            last = c;
            pending_space = false;
        }
    }
    assert(narrowed(text@).take(text@.len() as int) =~= narrowed(text@));
    out
}

proof fn lemma_tight_shape(s: Seq<char>)
    ensures
        tightened(s).len() > 0 ==> !is_white_space(tightened(s).last()) && !is_white_space(
            tightened(s)[0],
        ),
        forall|i: int|
            0 <= i < tightened(s).len() && is_white_space(#[trigger] tightened(s)[i])
                ==> tightened(s)[i] == ' ' && 0 < i < tightened(s).len() - 1
                && is_ascii_letter_or_digit(tightened(s)[i - 1]) && is_ascii_letter_or_digit(
                tightened(s)[i + 1],
            ),
    decreases s.len(),
{
    if s.len() > 0 {
        let rest = s.drop_last();
        let c = s.last();
        lemma_tight_shape(rest);
        let t = tightened(s);
        let u = tightened(rest);
        if !is_white_space(c) {
            assert forall|i: int| 0 <= i < t.len() && is_white_space(#[trigger] t[i]) implies t[i]
                == ' ' && 0 < i < t.len() - 1 && is_ascii_letter_or_digit(t[i - 1])
                && is_ascii_letter_or_digit(t[i + 1]) by {
                if i < u.len() {
                    assert(t[i] == u[i]);
                    assert(i < u.len() - 1);
                    assert(t[i + 1] == u[i + 1]);
                    assert(t[i - 1] == u[i - 1]);
                } else if is_word_boundary(tightened(rest), rest, c) {
                    assert(t[i - 1] == u.last());
                }
            }
            if u.len() > 0 {
                assert(t[0] == u[0]);
            }
        }
    }
}

/// What is left in the form for comparison has no white space but single spaces that
/// part two ASCII letters or digits.
pub proof fn normalized_text_has_only_word_spaces(s: Seq<char>, i: int)
    requires
        0 <= i < normalized(s).len(),
        is_white_space(normalized(s)[i]),
    ensures
        normalized(s)[i] == ' ',
        0 < i < normalized(s).len() - 1,
        is_ascii_letter_or_digit(normalized(s)[i - 1]),
        is_ascii_letter_or_digit(normalized(s)[i + 1]),
{
    lemma_tight_shape(narrowed(s));
}

proof fn lemma_tight_is_stable(t: Seq<char>)
    requires
        forall|i: int|
            0 <= i < t.len() && is_white_space(#[trigger] t[i]) ==> t[i] == ' ' && 0 < i
                && is_ascii_letter_or_digit(t[i - 1]) && (i + 1 < t.len()
                ==> is_ascii_letter_or_digit(t[i + 1])),
    ensures
        t.len() == 0 || !is_white_space(t.last()) ==> tightened(t) == t,
        t.len() > 0 && is_white_space(t.last()) ==> tightened(t) == t.drop_last(),
    decreases t.len(),
{
    if t.len() > 0 {
        let rest = t.drop_last();
        let c = t.last();
        assert forall|i: int| 0 <= i < rest.len() && is_white_space(#[trigger] rest[i]) implies
            rest[i] == ' ' && 0 < i && is_ascii_letter_or_digit(rest[i - 1]) && (i + 1
            < rest.len() ==> is_ascii_letter_or_digit(rest[i + 1])) by {
            assert(rest[i] == t[i]);
        }
        lemma_tight_is_stable(rest);
        if is_white_space(c) {
            assert(t[t.len() - 1] == c);
            assert(is_ascii_letter_or_digit(rest.last()));
        } else if rest.len() > 0 && is_white_space(rest.last()) {
            assert(t[t.len() - 2] == rest.last());
            assert(is_ascii_letter_or_digit(c));
            assert(tightened(rest) == rest.drop_last());
            assert(is_ascii_letter_or_digit(t[t.len() - 3]));
            assert(rest.drop_last().last() == t[t.len() - 3]);
            assert(is_word_boundary(tightened(rest), rest, c));
            assert(tightened(t) =~= t);
        } else {
            assert(tightened(t) =~= t);
        }
    }
}

proof fn lemma_tight_keeps_narrow(s: Seq<char>)
    requires
        forall|i: int| 0 <= i < s.len() ==> narrow(#[trigger] s[i]) == s[i],
    ensures
        forall|i: int|
            0 <= i < tightened(s).len() ==> narrow(#[trigger] tightened(s)[i]) == tightened(s)[i],
    decreases s.len(),
{
    if s.len() > 0 {
        let rest = s.drop_last();
        assert forall|i: int| 0 <= i < rest.len() implies narrow(#[trigger] rest[i]) == rest[i] by {
            assert(rest[i] == s[i]);
        }
        lemma_tight_keeps_narrow(rest);
        let t = tightened(s);
        assert forall|i: int| 0 <= i < t.len() implies narrow(#[trigger] t[i]) == t[i] by {
            if i < tightened(rest).len() {
                assert(t[i] == tightened(rest)[i]);
            } else if t[i] != ' ' {
                assert(t[i] == s[s.len() - 1]);
            }
        }
    }
}

/// Bringing a text into the form for comparison twice changes nothing more.
pub proof fn normalizing_twice_changes_nothing(s: Seq<char>)
    ensures
        normalized(normalized(s)) == normalized(s),
{
    let n = narrowed(s);
    assert forall|i: int| 0 <= i < n.len() implies narrow(#[trigger] n[i]) == n[i] by {
        assert(n[i] == narrow(s[i]));
    }
    lemma_tight_keeps_narrow(n);
    lemma_tight_shape(n);
    let t = normalized(s);
    assert(narrowed(t) =~= t);
    lemma_tight_is_stable(t);
}

proof fn lemma_tight_append(a: Seq<char>, b: Seq<char>, x: Seq<char>)
    requires
        tightened(a) == tightened(b),
        a.len() > 0 && b.len() > 0,
        is_white_space(a.last()) == is_white_space(b.last()),
    ensures
        tightened(a + x) == tightened(b + x),
    decreases x.len(),
{
    if x.len() == 0 {
        assert(a + x =~= a);
        assert(b + x =~= b);
    } else {
        let y = x.drop_last();
        lemma_tight_append(a, b, y);
        assert((a + x).drop_last() =~= a + y);
        assert((b + x).drop_last() =~= b + y);
        if y.len() > 0 {
            assert((a + y).last() == y.last());
            assert((b + y).last() == y.last());
        } else {
            assert(a + y =~= a);
            assert(b + y =~= b);
        }
    }
}

/// A run of white space compares like one space, whatever its length and width.
pub proof fn runs_of_white_space_compare_alike(a: Seq<char>, w: char, v: char, b: Seq<char>)
    requires
        is_white_space(narrow(w)),
        is_white_space(narrow(v)),
    ensures
        normalized(a + seq![w, v] + b) == normalized(a + seq![' '] + b),
{
    let p = narrowed(a);
    let x = p + seq![narrow(w), narrow(v)];
    let y = p + seq![' '];
    assert(narrowed(a + seq![w, v] + b) =~= x + narrowed(b));
    assert(narrowed(a + seq![' '] + b) =~= y + narrowed(b));
    assert(x.drop_last().drop_last() =~= p);
    assert(x.drop_last().last() == narrow(w));
    assert(tightened(x.drop_last()) == tightened(p));
    assert(tightened(x) == tightened(p));
    assert(y.drop_last() =~= p);
    assert(tightened(y) == tightened(p));
    lemma_tight_append(x, y, narrowed(b));
}

/// White space next to a character that is no ASCII letter or digit is ignored.
pub proof fn white_space_beside_other_scripts_is_ignored(
    a: Seq<char>,
    c: char,
    w: char,
    d: char,
    b: Seq<char>,
)
    requires
        is_white_space(narrow(w)),
        !is_white_space(narrow(c)),
        !is_white_space(narrow(d)),
        !is_ascii_letter_or_digit(narrow(c)) || !is_ascii_letter_or_digit(narrow(d)),
    ensures
        normalized(a + seq![c, w, d] + b) == normalized(a + seq![c, d] + b),
{
    let p = narrowed(a);
    let (nc, nw, nd) = (narrow(c), narrow(w), narrow(d));
    let x = p + seq![nc, nw, nd];
    let y = p + seq![nc, nd];
    assert(narrowed(a + seq![c, w, d] + b) =~= x + narrowed(b));
    assert(narrowed(a + seq![c, d] + b) =~= y + narrowed(b));
    let pc = p.push(nc);
    assert(pc.drop_last() =~= p);
    assert(tightened(pc).last() == nc);
    assert(x.drop_last().drop_last() =~= pc);
    assert(x.drop_last().last() == nw);
    assert(tightened(x.drop_last()) == tightened(pc));
    assert(y.drop_last() =~= pc);
    assert(tightened(x) == tightened(pc).push(nd));
    assert(tightened(y) == tightened(pc).push(nd));
    lemma_tight_append(x, y, narrowed(b));
}

/// How many characters a quote must have that carry meaning.
///
/// Punctuation and white space do not count: a full stop stands in every transcript,
/// and shows only that the text has punctuation.
pub const MIN_QUOTE_CHARS: usize = 2;

/// How many letters and numbers are in `s`.
pub open spec fn meaning(s: Seq<char>) -> nat
    decreases s.len(),
{
    if s.len() == 0 {
        0
    } else {
        meaning(s.drop_last()) + if carries_meaning(s.last()) {
            1nat
        } else {
            0nat
        }
    }
}

/// Whether there is enough in `quote` to be a citation.
pub open spec fn quotable(quote: Seq<char>) -> bool {
    meaning(normalized(quote)) >= MIN_QUOTE_CHARS
}

/// Whether there is enough in `quote` to be a citation.
pub fn is_quotable(quote: &str) -> (r: bool)
    ensures
        r == quotable(quote@),
{
    let n = normalize_for_match(quote);
    let chars = chars_of(n.as_str());
    let mut count: usize = 0;
    let mut i: usize = 0;
    while i < chars.len()
        invariant
            i <= chars@.len(),
            count <= i,
            count == meaning(chars@.take(i as int)),
        decreases chars.len() - i,
    {
        if chars[i].is_alphanumeric() {
            count = count + 1;
        }
        i = i + 1;
        assert(chars@.take(i as int).drop_last() =~= chars@.take(i - 1));
    }
    assert(chars@.take(i as int) =~= chars@);
    count >= MIN_QUOTE_CHARS
}

proof fn lemma_meaning_narrowed(s: Seq<char>)
    ensures
        meaning(narrowed(s)) == meaning(s),
    decreases s.len(),
{
    if s.len() > 0 {
        lemma_meaning_narrowed(s.drop_last());
        assert(narrowed(s).drop_last() =~= narrowed(s.drop_last()));
        assert(narrowed(s).last() == narrow(s.last()));
        assert(carries_meaning(narrow(s.last())) == carries_meaning(s.last()));
    }
}

proof fn lemma_meaning_push(s: Seq<char>, c: char)
    ensures
        meaning(s.push(c)) == meaning(s) + if carries_meaning(c) {
            1nat
        } else {
            0nat
        },
{
    assert(s.push(c).drop_last() =~= s);
}

proof fn lemma_meaning_tightened(s: Seq<char>)
    ensures
        meaning(tightened(s)) == meaning(s),
    decreases s.len(),
{
    if s.len() > 0 {
        let kept = tightened(s.drop_last());
        lemma_meaning_tightened(s.drop_last());
        lemma_meaning_push(kept, ' ');
        lemma_meaning_push(kept.push(' '), s.last());
        lemma_meaning_push(kept, s.last());
    }
}

/// Whether there is enough in a quote goes by its letters and numbers, as it was written:
/// neither width nor white space changes their count. The empty quote, a blank one, one of
/// punctuation alone and a single letter are no citations.
pub proof fn quotes_go_by_their_letters_and_numbers(quote: Seq<char>)
    ensures
        quotable(quote) <==> meaning(quote) >= 2,
        meaning(quote) == meaning(normalized(quote)),
{
    lemma_meaning_narrowed(quote);
    lemma_meaning_tightened(narrowed(quote));
}

proof fn lemma_meaning_concat(a: Seq<char>, b: Seq<char>)
    ensures
        meaning(a + b) == meaning(a) + meaning(b),
    decreases b.len(),
{
    if b.len() == 0 {
        assert(a + b =~= a);
    } else {
        lemma_meaning_concat(a, b.drop_last());
        assert((a + b).drop_last() =~= a + b.drop_last());
        assert((a + b).last() == b.last());
    }
}

proof fn lemma_no_meaning(s: Seq<char>)
    requires
        forall|i: int| 0 <= i < s.len() ==> !carries_meaning(#[trigger] s[i]),
    ensures
        meaning(s) == 0,
    decreases s.len(),
{
    if s.len() > 0 {
        let rest = s.drop_last();
        assert forall|i: int| 0 <= i < rest.len() implies !carries_meaning(#[trigger] rest[i]) by {
            assert(rest[i] == s[i]);
        }
        lemma_no_meaning(rest);
        assert(!carries_meaning(s[s.len() - 1]));
    }
}

/// White space and punctuation, wherever they are put into a quote, do not change whether there
/// is enough in it.
pub proof fn other_characters_do_not_count(a: Seq<char>, x: Seq<char>, b: Seq<char>)
    requires
        forall|i: int| 0 <= i < x.len() ==> !carries_meaning(#[trigger] x[i]),
    ensures
        quotable(a + x + b) == quotable(a + b),
{
    lemma_no_meaning(x);
    lemma_meaning_concat(a, x);
    lemma_meaning_concat(a + x, b);
    lemma_meaning_concat(a, b);
    quotes_go_by_their_letters_and_numbers(a + x + b);
    quotes_go_by_their_letters_and_numbers(a + b);
}

/// White space and ASCII punctuation are no letters and no numbers, and the full-width form of
/// an ASCII character is what that character is.
pub proof fn width_does_not_make_a_letter(c: char)
    ensures
        is_white_space(c) ==> !carries_meaning(c),
        (c as int) < 128 ==> carries_meaning(c) == is_ascii_letter_or_digit(c),
        carries_meaning(narrow(c)) == carries_meaning(c),
{
}

/// A text without letters and numbers is no citation, the empty one above all.
pub proof fn empty_quotes_are_no_citations(s: Seq<char>)
    requires
        forall|i: int|
            0 <= i < s.len() ==> is_white_space(#[trigger] s[i]) || is_white_space(narrow(s[i])),
    ensures
        !quotable(s),
{
    let n = narrowed(s);
    assert forall|i: int| 0 <= i < n.len() implies is_white_space(#[trigger] n[i]) by {
        assert(n[i] == narrow(s[i]));
    }
    lemma_tight_of_blank(n);
}

proof fn lemma_tight_of_blank(s: Seq<char>)
    requires
        forall|i: int| 0 <= i < s.len() ==> is_white_space(#[trigger] s[i]),
    ensures
        tightened(s).len() == 0,
    decreases s.len(),
{
    if s.len() > 0 {
        let rest = s.drop_last();
        assert forall|i: int| 0 <= i < rest.len() implies is_white_space(#[trigger] rest[i]) by {
            assert(rest[i] == s[i]);
        }
        lemma_tight_of_blank(rest);
    }
}

// ---------------------------------------------------------------------------
// Positions
// ---------------------------------------------------------------------------

/// A range of characters.
#[derive(Debug, Clone, Copy, PartialEq, Eq, Structural)]
pub struct CharSpan {
    pub start: usize,
    pub end: usize,
}

/// What follows the last `c` in `s`, or all of `s` where there is none.
pub open spec fn after_last(s: Seq<char>, c: char) -> Seq<char>
    decreases s.len(),
{
    if s.len() == 0 {
        s
    } else if s.last() == c {
        Seq::empty()
    } else {
        after_last(s.drop_last(), c).push(s.last())
    }
}

/// Where the first `c` in `s` stands, or the length of `s` where there is none.
pub open spec fn first_index(s: Seq<char>, c: char) -> int
    decreases s.len(),
{
    if s.len() == 0 || s[0] == c {
        0
    } else {
        1 + first_index(s.skip(1), c)
    }
}

/// The range that `start-end` names. A range without a character in it is none.
pub open spec fn span_of(s: Seq<char>) -> Option<CharSpan> {
    let k = first_index(s, '-');
    if k >= s.len() {
        None
    } else {
        match (parsed_usize(trimmed(s.take(k))), parsed_usize(trimmed(s.skip(k + 1)))) {
            (Some(start), Some(end)) => if start < end {
                Some(CharSpan { start, end })
            } else {
                None
            },
            _ => None,
        }
    }
}

/// The range that a locator names: `12-48`, or `p3/12-48` with a page before it.
pub open spec fn located(locator: Seq<char>) -> Option<CharSpan> {
    span_of(after_last(locator, '/'))
}

pub proof fn lemma_after_last(s: Seq<char>, k: int)
    requires
        0 <= k <= s.len(),
        k > 0 ==> s[k - 1] == '/',
        forall|i: int| k <= i < s.len() ==> s[i] != '/',
    ensures
        after_last(s, '/') == s.skip(k),
    decreases s.len(),
{
    if s.len() == 0 {
        assert(s.skip(0) =~= s);
    } else if k == s.len() {
        assert(s.skip(k) =~= Seq::empty());
    } else {
        let rest = s.drop_last();
        assert forall|i: int| k <= i < rest.len() implies rest[i] != '/' by {
            assert(rest[i] == s[i]);
        }
        lemma_after_last(rest, k);
        assert(s[s.len() - 1] != '/');
        assert(s.skip(k) =~= rest.skip(k).push(s.last()));
    }
}

pub proof fn lemma_first_index(s: Seq<char>, c: char, k: int)
    requires
        0 <= k <= s.len(),
        k < s.len() ==> s[k] == c,
        forall|i: int| 0 <= i < k ==> s[i] != c,
    ensures
        first_index(s, c) == k,
    decreases k,
{
    if k > 0 {
        let rest = s.skip(1);
        assert(s[0] != c);
        assert forall|i: int| 0 <= i < k - 1 implies rest[i] != c by {
            assert(rest[i] == s[i + 1]);
        }
        lemma_first_index(rest, c, k - 1);
    }
}

/// Reads a locator. One that cannot be read names no range.
pub fn parse_locator(locator: &str) -> (r: Option<CharSpan>)
    ensures
        r == located(locator@),
{
    let chars = chars_of(locator);
    let n: usize = chars.len();
    let mut from: usize = n;
    while from > 0 && chars[from - 1] != '/'
        invariant
            from <= n == chars@.len(),
            forall|i: int| from <= i < n ==> chars@[i] != '/',
        decreases from,
    {
        from = from - 1;
    }
    proof {
        lemma_after_last(chars@, from as int);
    }
    let ghost span = chars@.skip(from as int);
    let mut dash: usize = from;
    while dash < n && chars[dash] != '-'
        invariant
            from <= dash <= n == chars@.len(),
            span == chars@.skip(from as int),
            forall|i: int| 0 <= i < dash - from ==> span[i] != '-',
        decreases n - dash,
    {
        assert(span[dash - from] == chars@[dash as int]);
        dash = dash + 1;
    }
    proof {
        lemma_first_index(span, '-', dash - from);
    }
    if dash == n {
        return None;
    }
    let (a, b) = trim_range(&chars, from, dash);
    let (c, d) = trim_range(&chars, dash + 1, n);
    assert(span.take(dash - from) =~= chars@.subrange(from as int, dash as int));
    assert(span.skip(dash - from + 1) =~= chars@.subrange(dash + 1, n as int));
    match (parse_usize(&chars, a, b), parse_usize(&chars, c, d)) {
        (Some(start), Some(end)) => {
            if start < end {
                Some(CharSpan { start, end })
            } else {
                None
            }
        },
        _ => None,
    }
}

/// A locator that is read names at least one character.
pub proof fn located_spans_are_not_empty(locator: Seq<char>)
    ensures
        located(locator) matches Some(s) ==> s.start < s.end,
{
}

// ---------------------------------------------------------------------------
// Verdicts
// ---------------------------------------------------------------------------

/// What the check says of one citation.
#[derive(Debug, Clone, Copy, PartialEq, Eq, Structural)]
pub enum RefVerdict {
    Valid,
    /// There is no such source, or not in this version.
    UnknownSource,
    /// The version exists, but came after the snapshot.
    OutsideSnapshot,
    /// The locator lies outside the text of the version.
    LocatorOutOfRange,
    /// The quote does not stand where the locator points.
    QuoteNotFound,
    /// The quote does not have the digest that was recorded for it.
    HashMismatch,
}

impl RefVerdict {
    pub fn is_valid(self) -> (r: bool)
        ensures
            r == (self is Valid),
    {
        self == RefVerdict::Valid
    }

    /// The status that is recorded for a citation with this verdict.
    pub open spec fn status(self) -> Seq<char> {
        if self is Valid {
            "valid"@
        } else {
            "invalid"@
        }
    }

    pub fn as_status(self) -> (r: &'static str)
        ensures
            r@ == self.status(),
    {
        match self {
            RefVerdict::Valid => "valid",
            _ => "invalid",
        }
    }

    /// The verdict in words.
    pub open spec fn words(self) -> Seq<char> {
        match self {
            RefVerdict::Valid => "來源可回溯"@,
            RefVerdict::UnknownSource => "找不到這個來源或版本"@,
            RefVerdict::OutsideSnapshot => "這個版本不在本輪快照的涵蓋範圍內"@,
            RefVerdict::LocatorOutOfRange => "位置是空區間或超出該版本的內容長度"@,
            RefVerdict::QuoteNotFound => "引文沒有實質內容，或不在位置指到的那一段裡"@,
            RefVerdict::HashMismatch => "引文與其雜湊不符"@,
        }
    }

    pub fn reason(self) -> (r: &'static str)
        ensures
            r@ == self.words(),
    {
        match self {
            RefVerdict::Valid => "來源可回溯",
            RefVerdict::UnknownSource => "找不到這個來源或版本",
            RefVerdict::OutsideSnapshot => "這個版本不在本輪快照的涵蓋範圍內",
            RefVerdict::LocatorOutOfRange => "位置是空區間或超出該版本的內容長度",
            RefVerdict::QuoteNotFound => "引文沒有實質內容，或不在位置指到的那一段裡",
            RefVerdict::HashMismatch => "引文與其雜湊不符",
        }
    }
}

/// Whether the quote of `r` stands in the part of `text` that its locator names.
pub open spec fn quote_stands(text: Seq<char>, r: SourceRefView, span: CharSpan) -> bool {
    contains_text(
        normalized(text.subrange(span.start as int, span.end as int)),
        normalized(r.quoted_text),
    )
}

/// The verdict on a citation whose quote has the digest `digest`, and of which it is
/// known whether its quote has enough in it.
pub open spec fn judged(
    enough: bool,
    digest: Seq<char>,
    evidence: Seq<EvidenceTextView>,
    through: u64,
    r: SourceRefView,
) -> RefVerdict {
    if !enough {
        RefVerdict::QuoteNotFound
    } else if digest != r.quoted_text_sha256 {
        RefVerdict::HashMismatch
    } else {
        match lookup(evidence, r.source_kind, r.source_id, r.source_revision) {
            None => RefVerdict::UnknownSource,
            Some(ev) => if ev.created_event_seq > through {
                RefVerdict::OutsideSnapshot
            } else {
                match located(r.locator) {
                    None => RefVerdict::LocatorOutOfRange,
                    Some(span) => if span.end > ev.text.len() {
                        RefVerdict::LocatorOutOfRange
                    } else if quote_stands(ev.text, r, span) {
                        RefVerdict::Valid
                    } else {
                        RefVerdict::QuoteNotFound
                    },
                }
            },
        }
    }
}

/// The verdict on a citation, against the evidence of a meeting and the cursor of a
/// snapshot.
pub open spec fn verdict(
    evidence: Seq<EvidenceTextView>,
    through: u64,
    r: SourceRefView,
) -> RefVerdict {
    judged(quotable(r.quoted_text), text_digest(r.quoted_text), evidence, through, r)
}

/// The verdict on a citation, once the digest of its quote has been computed and its
/// letters and numbers have been counted.
pub fn judge_ref(
    enough: bool,
    digest: &str,
    evidence: &[EvidenceText],
    through_event_seq: u64,
    r: &SourceRef,
) -> (v: RefVerdict)
    ensures
        v == judged(enough, digest@, views(evidence@), through_event_seq, r@),
{
    if !enough {
        return RefVerdict::QuoteNotFound;
    }
    if !same(digest, r.quoted_text_sha256.as_str()) {
        return RefVerdict::HashMismatch;
    }
    match find_evidence(
        evidence,
        r.source_kind.as_str(),
        r.source_id.as_str(),
        r.source_revision,
    ) {
        None => RefVerdict::UnknownSource,
        Some(ev) => {
            if ev.created_event_seq > through_event_seq {
                return RefVerdict::OutsideSnapshot;
            }
            let chars = chars_of(ev.text.as_str());
            match parse_locator(r.locator.as_str()) {
                None => RefVerdict::LocatorOutOfRange,
                Some(span) => {
                    proof {
                        located_spans_are_not_empty(r.locator@);
                    }
                    if span.end > chars.len() {
                        return RefVerdict::LocatorOutOfRange;
                    }
                    let cited = string_of(&chars, span.start, span.end);
                    let hay = normalize_for_match(cited.as_str());
                    let needle = normalize_for_match(r.quoted_text.as_str());
                    if contains(hay.as_str(), needle.as_str()) {
                        RefVerdict::Valid
                    } else {
                        RefVerdict::QuoteNotFound
                    }
                },
            }
        },
    }
}

/// Checks one citation: the quote has enough in it and the digest that was recorded,
/// the version exists and is part of the snapshot, and the quote stands where the
/// locator points.
pub fn verify_ref(evidence: &[EvidenceText], through_event_seq: u64, r: &SourceRef) -> (v:
    RefVerdict)
    ensures
        v == verdict(views(evidence@), through_event_seq, r@),
{
    let enough = is_quotable(r.quoted_text.as_str());
    let digest = sha256_hex(r.quoted_text.as_str().as_bytes());
    judge_ref(enough, digest.as_str(), evidence, through_event_seq, r)
}

/// Whether a citation leads to what it quotes: the quote has something in it and the recorded
/// digest, its version is part of the snapshot, and it stands in the range that the locator
/// names.
pub open spec fn is_traceable(
    evidence: Seq<EvidenceTextView>,
    through: u64,
    r: SourceRefView,
) -> bool {
    &&& quotable(r.quoted_text)
    &&& text_digest(r.quoted_text) == r.quoted_text_sha256
    &&& lookup(evidence, r.source_kind, r.source_id, r.source_revision) matches Some(ev)
    &&& located(r.locator) matches Some(span)
    &&& ev.created_event_seq <= through
    &&& span.start < span.end <= ev.text.len()
    &&& quote_stands(ev.text, r, span)
}

/// A citation that is found valid leads to what it quotes, and to something that is there.
pub proof fn valid_citations_are_traceable(
    evidence: Seq<EvidenceTextView>,
    through: u64,
    r: SourceRefView,
)
    requires
        verdict(evidence, through, r) is Valid,
    ensures
        is_traceable(evidence, through, r),
        exists|i: int|
            0 <= i < evidence.len() && crate::store::is_source(
                #[trigger] evidence[i],
                r.source_kind,
                r.source_id,
                r.source_revision,
            ),
{
    lemma_lookup_is_there(evidence, r.source_kind, r.source_id, r.source_revision);
}

proof fn lemma_lookup_is_there(
    evidence: Seq<EvidenceTextView>,
    kind: Seq<char>,
    id: Seq<char>,
    revision: u32,
)
    ensures
        lookup(evidence, kind, id, revision) matches Some(ev) ==> exists|i: int|
            0 <= i < evidence.len() && #[trigger] evidence[i] == ev && crate::store::is_source(
                evidence[i],
                kind,
                id,
                revision,
            ),
    decreases evidence.len(),
{
    if evidence.len() > 0 && !crate::store::is_source(evidence[0], kind, id, revision) {
        let rest = evidence.skip(1);
        lemma_lookup_is_there(rest, kind, id, revision);
        if let Some(ev) = lookup(rest, kind, id, revision) {
            let i = choose|i: int|
                0 <= i < rest.len() && #[trigger] rest[i] == ev && crate::store::is_source(
                    rest[i],
                    kind,
                    id,
                    revision,
                );
            assert(evidence[i + 1] == ev);
        }
    }
}

/// A later cursor never makes a valid citation invalid.
pub proof fn a_later_cursor_keeps_citations_valid(
    evidence: Seq<EvidenceTextView>,
    earlier: u64,
    later: u64,
    r: SourceRefView,
)
    requires
        earlier <= later,
        verdict(evidence, earlier, r) is Valid,
    ensures
        verdict(evidence, later, r) is Valid,
{
}

// ---------------------------------------------------------------------------
// Blocks
// ---------------------------------------------------------------------------

/// What the check says of one block.
#[derive(Debug, PartialEq, Eq)]
pub struct BlockVerdict {
    pub position: u32,
    /// Whether the block may stand in the document.
    pub admitted: bool,
    pub reason: Option<String>,
    pub refs: Vec<RefVerdict>,
}

pub struct BlockVerdictView {
    pub position: u32,
    pub admitted: bool,
    pub reason: Option<Seq<char>>,
    pub refs: Seq<RefVerdict>,
}

impl View for BlockVerdict {
    type V = BlockVerdictView;

    open spec fn view(&self) -> BlockVerdictView {
        BlockVerdictView {
            position: self.position,
            admitted: self.admitted,
            reason: opt_view(self.reason),
            refs: self.refs@,
        }
    }
}

/// The verdicts on a list of citations.
pub open spec fn verdicts_on(
    evidence: Seq<EvidenceTextView>,
    through: u64,
    refs: Seq<SourceRefView>,
) -> Seq<RefVerdict> {
    Seq::new(refs.len(), |i: int| verdict(evidence, through, refs[i]))
}

/// The first verdict that is not `Valid`.
pub open spec fn first_fault(refs: Seq<RefVerdict>) -> Option<RefVerdict>
    decreases refs.len(),
{
    if refs.len() == 0 {
        None
    } else if !(refs[0] is Valid) {
        Some(refs[0])
    } else {
        first_fault(refs.skip(1))
    }
}

/// The verdict on a block: it must meet the rules for blocks, cite something where it
/// states a fact, and have no citation that is not valid.
pub open spec fn block_verdict(
    evidence: Seq<EvidenceTextView>,
    through: u64,
    position: u32,
    b: BlockView,
) -> BlockVerdictView {
    match b.check() {
        Err(e) => BlockVerdictView {
            position,
            admitted: false,
            reason: Some(e.words()),
            refs: Seq::empty(),
        },
        Ok(()) => if b.claim_kind is Fact && b.source_refs.len() == 0 {
            BlockVerdictView {
                position,
                admitted: false,
                reason: Some(b.claim_kind.word() + " 區塊必須帶至少一筆引用"@),
                refs: Seq::empty(),
            }
        } else {
            let refs = verdicts_on(evidence, through, b.source_refs);
            match first_fault(refs) {
                Some(v) => BlockVerdictView {
                    position,
                    admitted: false,
                    reason: Some(v.words()),
                    refs,
                },
                None => BlockVerdictView { position, admitted: true, reason: None, refs },
            }
        },
    }
}

/// A citation that has been found valid, marked as such.
pub open spec fn marked_ref(r: SourceRefView) -> SourceRefView {
    SourceRefView { validation_status: "valid"@, ..r }
}

/// A block whose citations have all been found valid, marked as such.
pub open spec fn marked(b: BlockView) -> BlockView {
    BlockView {
        source_refs: Seq::new(b.source_refs.len(), |i: int| marked_ref(b.source_refs[i])),
        ..b
    }
}

/// The blocks that may stand in the document, in their order.
pub open spec fn admitted_blocks(
    evidence: Seq<EvidenceTextView>,
    through: u64,
    blocks: Seq<BlockView>,
) -> Seq<BlockView>
    decreases blocks.len(),
{
    if blocks.len() == 0 {
        Seq::empty()
    } else {
        let before = admitted_blocks(evidence, through, blocks.drop_last());
        if block_verdict(evidence, through, 0, blocks.last()).admitted {
            before.push(marked(blocks.last()))
        } else {
            before
        }
    }
}

/// The verdicts on a list of blocks.
pub open spec fn block_verdicts(
    evidence: Seq<EvidenceTextView>,
    through: u64,
    blocks: Seq<BlockView>,
) -> Seq<BlockVerdictView> {
    Seq::new(blocks.len(), |i: int| block_verdict(evidence, through, i as u32, blocks[i]))
}

pub proof fn lemma_first_fault(refs: Seq<RefVerdict>, k: int)
    requires
        0 <= k <= refs.len(),
        forall|i: int| 0 <= i < k ==> (#[trigger] refs[i]) is Valid,
        k < refs.len() ==> !(refs[k] is Valid),
    ensures
        first_fault(refs) == if k < refs.len() {
            Some(refs[k])
        } else {
            None
        },
    decreases k,
{
    if k > 0 {
        let rest = refs.skip(1);
        assert(refs[0] is Valid);
        assert forall|i: int| 0 <= i < k - 1 implies (#[trigger] rest[i]) is Valid by {
            assert(rest[i] == refs[i + 1]);
        }
        lemma_first_fault(rest, k - 1);
    }
}

proof fn lemma_no_fault(refs: Seq<RefVerdict>, i: int)
    requires
        first_fault(refs) is None,
        0 <= i < refs.len(),
    ensures
        refs[i] is Valid,
    decreases refs.len(),
{
    if i > 0 {
        lemma_no_fault(refs.skip(1), i - 1);
    }
}

/// Checks one block.
pub fn verify_block(
    evidence: &[EvidenceText],
    through_event_seq: u64,
    position: u32,
    b: &Block,
) -> (v: BlockVerdict)
    ensures
        v@ == block_verdict(views(evidence@), through_event_seq, position, b@),
{
    if let Err(e) = b.validate() {
        let v = BlockVerdict {
            position,
            admitted: false,
            reason: Some(e.message()),
            refs: Vec::new(),
        };
        assert(v.refs@ =~= Seq::empty());
        return v;
    }
    if b.claim_kind.requires_citation() && b.source_refs.len() == 0 {
        let mut reason = b.claim_kind.as_str().to_owned();
        reason.append(" 區塊必須帶至少一筆引用");
        return BlockVerdict { position, admitted: false, reason: Some(reason), refs: Vec::new() };
    }
    let ghost all = verdicts_on(views(evidence@), through_event_seq, b@.source_refs);
    let mut refs: Vec<RefVerdict> = Vec::new();
    let mut fault: Option<RefVerdict> = None;
    let mut i: usize = 0;
    let ghost mut at: int = 0;
    while i < b.source_refs.len()
        invariant
            i <= b.source_refs@.len(),
            all == verdicts_on(views(evidence@), through_event_seq, b@.source_refs),
            refs@ == all.take(i as int),
            fault is None ==> at == i && forall|j: int| 0 <= j < i ==> (#[trigger] all[j]) is Valid,
            fault is Some ==> 0 <= at < i && !(all[at] is Valid) && fault == Some(all[at])
                && forall|j: int| 0 <= j < at ==> (#[trigger] all[j]) is Valid,
        decreases b.source_refs.len() - i,
    {
        let v = verify_ref(evidence, through_event_seq, &b.source_refs[i]);
        assert(v == all[i as int]);
        if fault.is_none() {
            if v.is_valid() {
                proof {
                    at = at + 1;
                }
            } else {
                fault = Some(v);
            }
        }
        refs.push(v);
        i = i + 1;
        assert(refs@ =~= all.take(i as int));
    }
    assert(all.take(i as int) =~= all);
    proof {
        lemma_first_fault(all, at);
    }
    match fault {
        Some(v) => BlockVerdict {
            position,
            admitted: false,
            reason: Some(v.reason().to_owned()),
            refs,
        },
        None => BlockVerdict { position, admitted: true, reason: None, refs },
    }
}

/// The block with all its citations marked as valid.
fn mark(b: &Block) -> (r: Block)
    ensures
        r@ == marked(b@),
{
    let mut refs: Vec<SourceRef> = Vec::new();
    let mut i: usize = 0;
    while i < b.source_refs.len()
        invariant
            i <= b.source_refs@.len(),
            views(refs@) == marked(b@).source_refs.take(i as int),
        decreases b.source_refs.len() - i,
    {
        let mut r = b.source_refs[i].clone();
        r.validation_status = RefVerdict::Valid.as_status().to_owned();
        let ghost before = refs@;
        refs.push(r);
        i = i + 1;
        assert(views(refs@) =~= views(before).push(r@));
        assert(views(refs@) =~= marked(b@).source_refs.take(i as int));
    }
    assert(marked(b@).source_refs.take(i as int) =~= marked(b@).source_refs);
    Block {
        kind: b.kind,
        claim_kind: b.claim_kind,
        content: b.content.clone(),
        source_refs: refs,
    }
}

/// Checks a list of blocks: those that may stand in the document, in their order and
/// with their citations marked, and the verdict on each block.
pub fn verify_blocks(evidence: &[EvidenceText], through_event_seq: u64, blocks: &[Block]) -> (r: (
    Vec<Block>,
    Vec<BlockVerdict>,
))
    ensures
        views(r.0@) == admitted_blocks(views(evidence@), through_event_seq, views(blocks@)),
        views(r.1@) == block_verdicts(views(evidence@), through_event_seq, views(blocks@)),
{
    let ghost ev = views(evidence@);
    let ghost all = views(blocks@);
    let mut admitted: Vec<Block> = Vec::new();
    let mut verdicts: Vec<BlockVerdict> = Vec::new();
    assert(views(admitted@) =~= admitted_blocks(ev, through_event_seq, all.take(0)));
    let mut i: usize = 0;
    while i < blocks.len()
        invariant
            i <= blocks@.len(),
            ev == views(evidence@),
            all == views(blocks@),
            views(admitted@) == admitted_blocks(ev, through_event_seq, all.take(i as int)),
            views(verdicts@) == block_verdicts(ev, through_event_seq, all).take(i as int),
        decreases blocks.len() - i,
    {
        let b = &blocks[i];
        let ghost (before, verdicts_before) = (admitted@, verdicts@);
        assert(all.take(i + 1).drop_last() =~= all.take(i as int));
        assert(all.take(i + 1).last() == b@);
        let v = verify_block(evidence, through_event_seq, i as u32, b);
        assert(v@ == block_verdicts(ev, through_event_seq, all)[i as int]);
        if v.admitted {
            let kept = mark(b);
            admitted.push(kept);
            assert(views(admitted@) =~= views(before).push(kept@));
        }
        verdicts.push(v);
        i = i + 1;
        assert(views(verdicts@) =~= views(verdicts_before).push(v@));
        assert(views(verdicts@) =~= block_verdicts(ev, through_event_seq, all).take(i as int));
    }
    assert(all.take(i as int) =~= all);
    assert(block_verdicts(ev, through_event_seq, all).take(i as int) =~= block_verdicts(
        ev,
        through_event_seq,
        all,
    ));
    (admitted, verdicts)
}

/// Whether a block has earned its place in a document: it meets the rules for blocks,
/// a fact among them cites something, and all its citations were found valid.
pub open spec fn is_verified(
    evidence: Seq<EvidenceTextView>,
    through: u64,
    b: BlockView,
) -> bool {
    &&& b.check() is Ok
    &&& b.claim_kind is Fact ==> b.source_refs.len() > 0
    &&& forall|i: int|
        0 <= i < b.source_refs.len() ==> verdict(evidence, through, #[trigger] b.source_refs[i])
            is Valid && b.source_refs[i].validation_status == "valid"@
}

proof fn lemma_marked_is_verified(evidence: Seq<EvidenceTextView>, through: u64, b: BlockView)
    requires
        block_verdict(evidence, through, 0, b).admitted,
    ensures
        is_verified(evidence, through, marked(b)),
{
    let refs = verdicts_on(evidence, through, b.source_refs);
    let m = marked(b);
    assert forall|i: int| 0 <= i < m.source_refs.len() implies verdict(
        evidence,
        through,
        #[trigger] m.source_refs[i],
    ) is Valid && m.source_refs[i].validation_status == "valid"@ by {
        lemma_no_fault(refs, i);
        assert(m.source_refs[i] == marked_ref(b.source_refs[i]));
        assert(refs[i] == verdict(evidence, through, b.source_refs[i]));
    }
}

/// Nothing reaches the document unverified: no fact without a citation, and no block
/// with a citation that is not valid, whatever the model claimed of it.
pub proof fn admitted_blocks_are_verified(
    evidence: Seq<EvidenceTextView>,
    through: u64,
    blocks: Seq<BlockView>,
    k: int,
)
    requires
        0 <= k < admitted_blocks(evidence, through, blocks).len(),
    ensures
        is_verified(evidence, through, admitted_blocks(evidence, through, blocks)[k]),
        exists|i: int|
            0 <= i < blocks.len() && admitted_blocks(evidence, through, blocks)[k] == marked(
                #[trigger] blocks[i],
            ),
    decreases blocks.len(),
{
    let rest = blocks.drop_last();
    let before = admitted_blocks(evidence, through, rest);
    if k < before.len() {
        admitted_blocks_are_verified(evidence, through, rest, k);
        let i = choose|i: int| 0 <= i < rest.len() && before[k] == marked(#[trigger] rest[i]);
        assert(blocks[i] == rest[i]);
    } else {
        lemma_marked_is_verified(evidence, through, blocks.last());
        assert(blocks[blocks.len() - 1] == blocks.last());
    }
}

/// A block is left out only where it breaks a rule for blocks, states a fact without
/// a citation, or has a citation that is not valid.
pub proof fn only_faulty_blocks_are_left_out(
    evidence: Seq<EvidenceTextView>,
    through: u64,
    position: u32,
    b: BlockView,
)
    ensures
        block_verdict(evidence, through, position, b).admitted <==> {
            &&& b.check() is Ok
            &&& b.claim_kind is Fact ==> b.source_refs.len() > 0
            &&& forall|i: int|
                0 <= i < b.source_refs.len() ==> verdict(
                    evidence,
                    through,
                    #[trigger] b.source_refs[i],
                ) is Valid
        },
        block_verdict(evidence, through, position, b).admitted <==> block_verdict(
            evidence,
            through,
            position,
            b,
        ).reason is None,
{
    let refs = verdicts_on(evidence, through, b.source_refs);
    if first_fault(refs) is None {
        assert forall|i: int| 0 <= i < b.source_refs.len() implies verdict(
            evidence,
            through,
            #[trigger] b.source_refs[i],
        ) is Valid by {
            lemma_no_fault(refs, i);
            assert(refs[i] == verdict(evidence, through, b.source_refs[i]));
        }
    } else if forall|i: int|
        0 <= i < b.source_refs.len() ==> verdict(evidence, through, #[trigger] b.source_refs[i])
            is Valid {
        assert forall|i: int| 0 <= i < refs.len() implies (#[trigger] refs[i]) is Valid by {
            assert(refs[i] == verdict(evidence, through, b.source_refs[i]));
        }
        lemma_first_fault(refs, refs.len() as int);
    }
}

} // verus!
