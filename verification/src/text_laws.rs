//! What the operations on text do, in terms of the characters alone.

use crate::citation::first_index;
use crate::cli_planner::{inside_fence, json_in, last_index, last_reason, tells_why};
use crate::loopback::{is_loopback, split_on};
use crate::parts::{lemma_stands, stands_in};
use crate::render::clock_text;
use crate::text::{
    ascii_lower, begins_with, blank, contains_text, decimal, decimal_reads_back, digit_char,
    find_from, is_digit, is_white_space, occurs_at, padded, parsed_usize, signed_decimal, trim_end,
    trim_start, trimmed, without_plus,
};
use vstd::prelude::*;

verus! {

// ---------------------------------------------------------------------------
// White space at the ends
// ---------------------------------------------------------------------------

proof fn lemma_trim_start(s: Seq<char>) -> (k: int)
    ensures
        0 <= k <= s.len(),
        trim_start(s) == s.skip(k),
        forall|i: int| 0 <= i < k ==> is_white_space(#[trigger] s[i]),
        k < s.len() ==> !is_white_space(s[k]),
    decreases s.len(),
{
    if s.len() > 0 && is_white_space(s[0]) {
        let rest = s.skip(1);
        let j = lemma_trim_start(rest);
        assert(rest.skip(j) =~= s.skip(j + 1));
        assert forall|i: int| 0 <= i < j + 1 implies is_white_space(#[trigger] s[i]) by {
            if i > 0 {
                assert(rest[i - 1] == s[i]);
            }
        }
        j + 1
    } else {
        assert(s.skip(0) =~= s);
        0
    }
}

proof fn lemma_trim_end(s: Seq<char>) -> (k: int)
    ensures
        0 <= k <= s.len(),
        trim_end(s) == s.take(k),
        forall|i: int| k <= i < s.len() ==> is_white_space(#[trigger] s[i]),
        k > 0 ==> !is_white_space(s[k - 1]),
    decreases s.len(),
{
    if s.len() > 0 && is_white_space(s.last()) {
        let rest = s.drop_last();
        let j = lemma_trim_end(rest);
        assert(rest.take(j) =~= s.take(j));
        assert forall|i: int| j <= i < s.len() implies is_white_space(#[trigger] s[i]) by {
            if i < rest.len() {
                assert(rest[i] == s[i]);
            }
        }
        j
    } else {
        assert(s.take(s.len() as int) =~= s);
        s.len() as int
    }
}

/// Where the part of a text lies that is left without the white space at either end.
proof fn lemma_trimmed(s: Seq<char>) -> (r: (int, int))
    ensures
        0 <= r.0 <= r.1 <= s.len(),
        trimmed(s) == s.subrange(r.0, r.1),
        forall|i: int| 0 <= i < r.0 ==> is_white_space(#[trigger] s[i]),
        forall|i: int| r.1 <= i < s.len() ==> is_white_space(#[trigger] s[i]),
        r.0 < r.1 ==> !is_white_space(s[r.0]) && !is_white_space(s[r.1 - 1]),
{
    let a = lemma_trim_start(s);
    let t = s.skip(a);
    let b = lemma_trim_end(t);
    assert(t.take(b) =~= s.subrange(a, a + b));
    assert forall|i: int| a + b <= i < s.len() implies is_white_space(#[trigger] s[i]) by {
        assert(t[i - a] == s[i]);
    }
    if b > 0 {
        assert(t[b - 1] == s[a + b - 1]);
        if is_white_space(s[a]) {
            assert(a == s.len());
        }
    }
    (a, a + b)
}

/// What is left of a text is the text without white space at either end: nothing but white space
/// is taken away, and all of it is.
pub proof fn trimming_takes_only_white_space(s: Seq<char>)
    ensures
        exists|a: Seq<char>, b: Seq<char>|
            s == #[trigger] (a + trimmed(s) + b) && blank(a) && blank(b),
        trimmed(s).len() > 0 ==> !is_white_space(trimmed(s)[0]) && !is_white_space(
            trimmed(s).last(),
        ),
{
    let (from, to) = lemma_trimmed(s);
    let (a, b) = (s.take(from), s.skip(to));
    assert(s =~= a + trimmed(s) + b);
}

// ---------------------------------------------------------------------------
// Looking for text
// ---------------------------------------------------------------------------

/// A text is found in another exactly where it stands in it, whole and unbroken.
pub proof fn text_is_found_where_it_stands(hay: Seq<char>, needle: Seq<char>)
    ensures
        contains_text(hay, needle) <==> stands_in(needle, hay),
{
    if contains_text(hay, needle) {
        let at = choose|at: int| occurs_at(hay, needle, at);
        let (a, b) = (hay.take(at), hay.skip(at + needle.len()));
        assert(hay =~= a + needle + b);
        lemma_stands(a, needle, b);
    }
    if stands_in(needle, hay) {
        let (a, b) = choose|a: Seq<char>, b: Seq<char>| hay == #[trigger] (a + needle + b);
        assert(hay.subrange(a.len() as int, (a.len() + needle.len()) as int) =~= needle);
        assert(occurs_at(hay, needle, a.len() as int));
    }
}

/// A text begins with another exactly where it is that and something more.
pub proof fn beginnings_are_whole(s: Seq<char>, prefix: Seq<char>, rest: Seq<char>)
    ensures
        begins_with(prefix + rest, prefix),
        begins_with(s, prefix) ==> s == prefix + s.skip(prefix.len() as int),
{
    assert((prefix + rest).take(prefix.len() as int) =~= prefix);
    if begins_with(s, prefix) {
        assert(s =~= s.take(prefix.len() as int) + s.skip(prefix.len() as int));
    }
}

/// Capital letters of ASCII are made small, and nothing else is changed.
pub proof fn only_capitals_are_made_small(s: Seq<char>, i: int)
    requires
        0 <= i < s.len(),
    ensures
        ascii_lower(s).len() == s.len(),
        'A' <= s[i] <= 'Z' ==> ascii_lower(s)[i] as int == s[i] as int + 32,
        !('A' <= s[i] <= 'Z') ==> ascii_lower(s)[i] == s[i],
{
}

// ---------------------------------------------------------------------------
// Numbers
// ---------------------------------------------------------------------------

/// Numbers are written in base ten, the greater digits first and without leading zeros.
pub proof fn numbers_are_written_in_base_ten(n: nat, d: nat)
    requires
        d < 10,
    ensures
        decimal(d) == seq![('0' as int + d) as char],
        n > 0 ==> decimal(n * 10 + d) == decimal(n).push(('0' as int + d) as char),
{
    if n > 0 {
        let m = n * 10 + d;
        assert(m / 10 == n && m % 10 == d);
    }
}

/// A negative number is written with a sign before its digits.
pub proof fn negative_numbers_have_a_sign(i: int)
    ensures
        i >= 0 ==> signed_decimal(i) == decimal(i as nat),
        i < 0 ==> signed_decimal(i) == "-"@ + decimal((-i) as nat),
{
}

/// A number that is filled up has its digits at the end and zeros before them, and is as wide as
/// is asked, unless its digits alone are wider.
pub proof fn numbers_are_filled_up_with_zeros(n: nat, width: nat)
    ensures
        ({
            let p = padded(n, width as int);
            let d = decimal(n);
            &&& d.len() <= width ==> p.len() == width
            &&& d.len() > width ==> p == d
            &&& d.len() <= p.len() && p.subrange(p.len() - d.len(), p.len() as int) == d
            &&& forall|i: int| 0 <= i < p.len() - d.len() ==> #[trigger] p[i] == '0'
        }),
{
    let p = padded(n, width as int);
    let d = decimal(n);
    assert(p.subrange(p.len() - d.len(), p.len() as int) =~= d);
    if d.len() > width {
        assert(p =~= d);
    }
}

/// A number that is written in base ten is read as that number, with or without a plus sign;
/// text with anything but digits in it is read as none.
pub proof fn numbers_read_back(n: nat, s: Seq<char>)
    ensures
        n <= usize::MAX ==> parsed_usize(decimal(n)) == Some(n as usize),
        n <= usize::MAX ==> parsed_usize(seq!['+'] + decimal(n)) == Some(n as usize),
        n > usize::MAX ==> parsed_usize(decimal(n)) is None,
        (exists|i: int| 0 < i < s.len() && !('0' <= #[trigger] s[i] <= '9')) ==> parsed_usize(s)
            is None,
        s.len() == 0 ==> parsed_usize(s) is None,
{
    decimal_reads_back(n);
    let d = decimal(n);
    assert(is_digit(d[0]));
    assert(without_plus(d) == d);
    let p = seq!['+'] + d;
    assert(p.skip(1) =~= d);
    assert(without_plus(p) == d);
    if exists|i: int| 0 < i < s.len() && !('0' <= #[trigger] s[i] <= '9') {
        let i = choose|i: int| 0 < i < s.len() && !('0' <= #[trigger] s[i] <= '9');
        let digits = without_plus(s);
        if s[0] == '+' {
            assert(digits[i - 1] == s[i]);
        }
        if crate::text::all_digits(digits) {
            assert(is_digit(s[i]));
        }
    }
}

/// A moment of a meeting is shown as minutes and seconds, with two digits for each.
pub proof fn moments_are_minutes_and_seconds(minutes: nat, seconds: nat, ms: nat)
    requires
        minutes < 100,
        seconds < 60,
        ms < 1000,
    ensures
        clock_text((minutes * 60 + seconds) * 1000 + ms) == seq![
            ('0' as int + minutes / 10) as char,
            ('0' as int + minutes % 10) as char,
            ':',
            ('0' as int + seconds / 10) as char,
            ('0' as int + seconds % 10) as char,
        ],
{
    let all = (minutes * 60 + seconds) * 1000 + ms;
    assert(all / 1000 == minutes * 60 + seconds);
    assert((minutes * 60 + seconds) / 60 == minutes);
    assert((minutes * 60 + seconds) % 60 == seconds);
    lemma_two_digits(minutes);
    lemma_two_digits(seconds);
    reveal_strlit(":");
    assert(clock_text(all) =~= seq![
        ('0' as int + minutes / 10) as char,
        ('0' as int + minutes % 10) as char,
        ':',
        ('0' as int + seconds / 10) as char,
        ('0' as int + seconds % 10) as char,
    ]);
}

proof fn lemma_two_digits(n: nat)
    requires
        n < 100,
    ensures
        padded(n, 2) == seq![('0' as int + n / 10) as char, ('0' as int + n % 10) as char],
{
    if n < 10 {
        assert(decimal(n) == seq![digit_char(n as int)]);
        assert(padded(n, 2) =~= seq!['0', digit_char(n as int)]);
        assert(n / 10 == 0 && n % 10 == n);
        assert(('0' as int + 0) as char == '0');
        assert(padded(n, 2) =~= seq![('0' as int + n / 10) as char, ('0' as int + n % 10) as char]);
    } else {
        assert(decimal(n / 10) == seq![digit_char((n / 10) as int)]);
        assert(decimal(n) =~= seq![digit_char((n / 10) as int), digit_char((n % 10) as int)]);
        assert(padded(n, 2) =~= seq![('0' as int + n / 10) as char, ('0' as int + n % 10) as char]);
    }
}

// ---------------------------------------------------------------------------
// Parts between separators
// ---------------------------------------------------------------------------

proof fn lemma_first_index_found(s: Seq<char>, c: char)
    ensures
        0 <= first_index(s, c) <= s.len(),
        first_index(s, c) < s.len() ==> s[first_index(s, c)] == c,
        forall|i: int| 0 <= i < first_index(s, c) ==> #[trigger] s[i] != c,
    decreases s.len(),
{
    if s.len() > 0 && s[0] != c {
        let rest = s.skip(1);
        lemma_first_index_found(rest, c);
        assert forall|i: int| 0 <= i < first_index(s, c) implies #[trigger] s[i] != c by {
            if i > 0 {
                assert(rest[i - 1] == s[i]);
            }
        }
    }
}

/// A text is parted at its separators and nowhere else: no part holds one, and one part is what
/// comes before the first of them.
pub proof fn texts_are_parted_at_separators(a: Seq<char>, c: char, b: Seq<char>)
    requires
        forall|i: int| 0 <= i < a.len() ==> #[trigger] a[i] != c,
    ensures
        split_on(a, c) == seq![a],
        split_on(a.push(c) + b, c) == seq![a] + split_on(b, c),
{
    crate::citation::lemma_first_index(a, c, a.len() as int);
    let s = a.push(c) + b;
    let n = a.len() as int;
    assert forall|i: int| 0 <= i < n implies s[i] != c by {
        assert(s[i] == a[i]);
    }
    assert(s[n] == c);
    crate::citation::lemma_first_index(s, c, n);
    assert(s.take(n) =~= a);
    assert(s.skip(n + 1) =~= b);
}

proof fn lemma_octet(n: nat)
    requires
        n <= 255,
    ensures
        crate::loopback::is_octet(decimal(n)),
        forall|i: int| 0 <= i < decimal(n).len() ==> #[trigger] decimal(n)[i] != '.' && decimal(n)[i]
            != ':',
        decimal(n).len() > 0,
{
    decimal_reads_back(n);
    let d = decimal(n);
    assert forall|i: int| 0 <= i < d.len() implies #[trigger] d[i] != '.' && d[i] != ':' by {
        assert(is_digit(d[i]));
    }
    if n < 10 {
        assert(d.len() == 1);
    } else if n < 100 {
        assert(decimal(n / 10) == seq![digit_char((n / 10) as int)]);
        assert(d[0] == digit_char((n / 10) as int));
    } else {
        assert(decimal(n / 10 / 10) == seq![digit_char((n / 10 / 10) as int)]);
        assert(decimal(n / 10).len() == 2);
        assert(d[0] == decimal(n / 10)[0]);
        assert(d[0] == digit_char((n / 10 / 10) as int));
    }
}

/// Of the addresses that are written with four numbers, those that begin with 127 are the
/// machine itself, and no other is.
pub proof fn local_addresses_begin_with_127(a: nat, b: nat, c: nat, d: nat)
    requires
        a <= 255,
        b <= 255,
        c <= 255,
        d <= 255,
    ensures
        is_loopback(
            decimal(a).push('.') + (decimal(b).push('.') + (decimal(c).push('.') + decimal(d))),
        ) <==> a == 127,
{
    lemma_octet(a);
    lemma_octet(b);
    lemma_octet(c);
    lemma_octet(d);
    decimal_reads_back(a);
    decimal_reads_back(b);
    decimal_reads_back(c);
    decimal_reads_back(d);
    let t3 = decimal(c).push('.') + decimal(d);
    let t2 = decimal(b).push('.') + t3;
    let s = decimal(a).push('.') + t2;
    texts_are_parted_at_separators(decimal(a), '.', t2);
    texts_are_parted_at_separators(decimal(b), '.', t3);
    texts_are_parted_at_separators(decimal(c), '.', decimal(d));
    texts_are_parted_at_separators(decimal(d), '.', Seq::empty());
    let p = split_on(s, '.');
    assert(p =~= seq![decimal(a), decimal(b), decimal(c), decimal(d)]);
    assert(crate::loopback::dotted(s) == Some((a, b, c, d)));
    assert forall|i: int| 0 <= i < s.len() implies #[trigger] s[i] != ':' by {
        let n = decimal(a).len() as int;
        let m = n + 1 + decimal(b).len();
        let k = m + 1 + decimal(c).len();
        if i < n {
            assert(s[i] == decimal(a)[i]);
        } else if n < i < m {
            assert(s[i] == decimal(b)[i - n - 1]);
        } else if m < i < k {
            assert(s[i] == decimal(c)[i - m - 1]);
        } else if i > k {
            assert(s[i] == decimal(d)[i - k - 1]);
        }
    }
    texts_are_parted_at_separators(s, ':', Seq::empty());
    lemma_no_double_colon(s, 0);
    assert(split_on(s, ':') =~= seq![s]);
    assert(crate::loopback::groups(s, true)->0.len() == 2);
}

proof fn lemma_no_double_colon(s: Seq<char>, at: int)
    requires
        0 <= at,
        forall|i: int| 0 <= i < s.len() ==> #[trigger] s[i] != ':',
    ensures
        find_from(s, "::"@, at) is None,
    decreases s.len() + 1 - at,
{
    reveal_strlit("::");
    if at <= s.len() {
        if occurs_at(s, "::"@, at) {
            assert(s.subrange(at, at + 2)[0] == s[at]);
        }
        lemma_no_double_colon(s, at + 1);
    }
}

// ---------------------------------------------------------------------------
// Answers and complaints
// ---------------------------------------------------------------------------

proof fn lemma_no_ticks(s: Seq<char>, at: int)
    requires
        0 <= at,
        forall|i: int| 0 <= i < s.len() ==> #[trigger] s[i] != '`',
    ensures
        find_from(s, "```"@, at) is None,
    decreases s.len() + 1 - at,
{
    reveal_strlit("```");
    if at <= s.len() {
        if occurs_at(s, "```"@, at) {
            assert(s.subrange(at, at + 3)[0] == s[at]);
        }
        lemma_no_ticks(s, at + 1);
    }
}

proof fn lemma_last_index(s: Seq<char>, c: char, k: int)
    requires
        0 <= k < s.len(),
        s[k] == c,
        forall|i: int| k < i < s.len() ==> s[i] != c,
    ensures
        last_index(s, c) == Some(k),
    decreases s.len(),
{
    if k < s.len() - 1 {
        let rest = s.drop_last();
        assert(s[s.len() - 1] != c);
        assert forall|i: int| k < i < rest.len() implies rest[i] != c by {
            assert(rest[i] == s[i]);
        }
        lemma_last_index(rest, c, k);
    }
}

proof fn lemma_first_fence(s: Seq<char>, at: int, n: int)
    requires
        0 <= at <= n <= s.len(),
        forall|i: int| 0 <= i < n ==> #[trigger] s[i] != '`',
        occurs_at(s, "```"@, n),
    ensures
        find_from(s, "```"@, at) == Some(n),
    decreases n - at,
{
    reveal_strlit("```");
    if at < n {
        if occurs_at(s, "```"@, at) {
            assert(s.subrange(at, at + 3)[0] == s[at]);
        }
        lemma_first_fence(s, at + 1, n);
    }
}

/// Where an answer has a fence, only what stands inside the first one is read, with or without
/// the name of the language, and without the white space around it.
pub proof fn only_the_fence_is_read(pre: Seq<char>, body: Seq<char>, post: Seq<char>)
    requires
        forall|i: int| 0 <= i < pre.len() ==> #[trigger] pre[i] != '`',
        forall|i: int| 0 <= i < body.len() ==> #[trigger] body[i] != '`',
    ensures
        inside_fence(pre + "```"@ + ("json"@ + body + "```"@ + post)) == trimmed(body),
        !begins_with(body, "json"@) ==> inside_fence(pre + "```"@ + (body + "```"@ + post))
            == trimmed(body),
{
    reveal_strlit("```");
    reveal_strlit("json");
    let n = pre.len() as int;
    let after = body + "```"@ + post;
    let m = body.len() as int;
    assert forall|i: int| 0 <= i < m implies #[trigger] after[i] != '`' by {
        assert(after[i] == body[i]);
    }
    assert(after.subrange(m, m + 3) =~= "```"@);
    lemma_first_fence(after, 0, m);
    assert(after.take(m) =~= body);
    let named = "json"@ + body + "```"@ + post;
    lemma_fence_begins(pre, named);
    assert(named.take(4) =~= "json"@);
    assert(named.skip(4) =~= after);
    lemma_fence_begins(pre, after);
    if begins_with(after, "json"@) {
        assert forall|i: int| 0 <= i < 4 implies #[trigger] after[i] == "json"@[i] by {
            assert(after.take(4)[i] == after[i]);
        }
        if m < 4 {
            assert(after[m] == '`');
        }
        assert(body.take(4) =~= "json"@);
    }
}

proof fn lemma_fence_begins(pre: Seq<char>, rest: Seq<char>)
    requires
        forall|i: int| 0 <= i < pre.len() ==> #[trigger] pre[i] != '`',
    ensures
        find_from(pre + "```"@ + rest, "```"@, 0) == Some(pre.len() as int),
        (pre + "```"@ + rest).skip(pre.len() as int + 3) == rest,
{
    reveal_strlit("```");
    let s = pre + "```"@ + rest;
    let n = pre.len() as int;
    assert forall|i: int| 0 <= i < n implies #[trigger] s[i] != '`' by {
        assert(s[i] == pre[i]);
    }
    assert(s.subrange(n, n + 3) =~= "```"@);
    lemma_first_fence(s, 0, n);
    assert(s.skip(n + 3) =~= rest);
}

/// Whatever a model writes around its list, the list is taken out whole: from the bracket that
/// opens it, before which there is no other, to the last one that closes it.
pub proof fn lists_are_taken_out_whole(pre: Seq<char>, j: Seq<char>, post: Seq<char>)
    requires
        j.len() >= 2,
        j[0] == '[',
        j.last() == ']',
        forall|i: int| 0 <= i < pre.len() ==> #[trigger] pre[i] != '[' && pre[i] != '{',
        forall|i: int| 0 <= i < post.len() ==> #[trigger] post[i] != ']',
        forall|i: int| 0 <= i < (pre + j + post).len() ==> #[trigger] (pre + j + post)[i] != '`',
    ensures
        json_in(pre + j + post) == Some(j),
{
    lemma_taken_out(pre, j, post, '[', ']');
}

/// The same holds of a single block.
pub proof fn objects_are_taken_out_whole(pre: Seq<char>, j: Seq<char>, post: Seq<char>)
    requires
        j.len() >= 2,
        j[0] == '{',
        j.last() == '}',
        forall|i: int| 0 <= i < pre.len() ==> #[trigger] pre[i] != '[' && pre[i] != '{',
        forall|i: int| 0 <= i < post.len() ==> #[trigger] post[i] != '}',
        forall|i: int| 0 <= i < (pre + j + post).len() ==> #[trigger] (pre + j + post)[i] != '`',
    ensures
        json_in(pre + j + post) == Some(j),
{
    lemma_taken_out(pre, j, post, '{', '}');
}

proof fn lemma_taken_out(pre: Seq<char>, j: Seq<char>, post: Seq<char>, open: char, close: char)
    requires
        (open == '[' && close == ']') || (open == '{' && close == '}'),
        j.len() >= 2,
        j[0] == open,
        j.last() == close,
        forall|i: int| 0 <= i < pre.len() ==> #[trigger] pre[i] != '[' && pre[i] != '{',
        forall|i: int| 0 <= i < post.len() ==> #[trigger] post[i] != close,
        forall|i: int| 0 <= i < (pre + j + post).len() ==> #[trigger] (pre + j + post)[i] != '`',
    ensures
        json_in(pre + j + post) == Some(j),
{
    let s = pre + j + post;
    let (from, to) = lemma_trimmed(s);
    let n = pre.len() as int;
    let m = n + j.len();
    assert(s[n] == open && s[m - 1] == close);
    assert(from <= n) by {
        if from > n {
            assert(is_white_space(s[n]));
        }
    }
    assert(m <= to) by {
        if to < m {
            assert(is_white_space(s[m - 1]));
        }
    }
    let t = trimmed(s);
    assert forall|i: int| 0 <= i < t.len() implies #[trigger] t[i] != '`' by {
        assert(t[i] == s[i + from]);
    }
    lemma_no_ticks(t, 0);
    assert(inside_fence(t) == t);
    let a = n - from;
    let b = m - 1 - from;
    assert forall|i: int| 0 <= i < a implies t[i] != '[' && t[i] != '{' by {
        assert(t[i] == s[i + from]);
        assert(s[i + from] == pre[i + from]);
    }
    assert(t[a] == s[n]);
    assert(t[b] == s[m - 1]);
    crate::citation::lemma_first_index(t, open, a);
    let other = if open == '[' {
        '{'
    } else {
        '['
    };
    lemma_first_index_found(t, other);
    assert(first_index(t, other) > a) by {
        if first_index(t, other) <= a {
            let f = first_index(t, other);
            assert(t[f] == other);
        }
    }
    assert forall|i: int| b < i < t.len() implies t[i] != close by {
        assert(t[i] == s[i + from]);
        assert(s[i + from] == post[i + from - m]);
    }
    lemma_last_index(t, close, b);
    assert(t.subrange(a, b + 1) =~= j);
}

/// The last line that says something is the reason that is told: lines after it that are blank
/// or warnings are passed over.
pub proof fn the_last_complaint_is_told(before: Seq<char>, line: Seq<char>, after: Seq<char>)
    requires
        before.len() > 0 ==> before.last() == '\n',
        forall|i: int| 0 <= i < line.len() ==> #[trigger] line[i] != '\n',
        forall|i: int| 0 <= i < after.len() ==> #[trigger] after[i] != '\n',
        tells_why(line),
        !tells_why(after),
    ensures
        last_reason(before + line) == Some(trimmed(line)),
        last_reason(before + line.push('\n') + after) == Some(trimmed(line)),
        tells_why(line) <==> !blank(line) && !(exists|rest: Seq<char>|
            trimmed(line) == #[trigger] ("WARNING"@ + rest)),
{
    let s = before + line;
    let k = before.len() as int;
    assert forall|i: int| k <= i < s.len() implies s[i] != '\n' by {
        assert(s[i] == line[i - k]);
    }
    if k > 0 {
        assert(s[k - 1] == before[k - 1]);
    }
    crate::cli_planner::lemma_last_line_start(s, k);
    assert(s.skip(k) =~= line);
    let whole = before + line.push('\n') + after;
    let m = k + line.len() + 1;
    assert forall|i: int| m <= i < whole.len() implies whole[i] != '\n' by {
        assert(whole[i] == after[i - m]);
    }
    assert(whole[m - 1] == '\n');
    crate::cli_planner::lemma_last_line_start(whole, m as int);
    assert(whole.skip(m as int) =~= after);
    assert(whole.take(m - 1) =~= s);
    crate::text::trimmed_is_empty_iff_blank(line);
    let t = trimmed(line);
    if begins_with(t, "WARNING"@) {
        beginnings_are_whole(t, "WARNING"@, Seq::empty());
        assert(t == "WARNING"@ + t.skip("WARNING"@.len() as int));
    }
    if exists|rest: Seq<char>| t == #[trigger] ("WARNING"@ + rest) {
        let rest = choose|rest: Seq<char>| t == #[trigger] ("WARNING"@ + rest);
        beginnings_are_whole(t, "WARNING"@, rest);
    }
}

} // verus!
