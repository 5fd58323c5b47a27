//! Addresses of the machine itself, by their text.

use crate::citation::{first_index, lemma_first_index};
use crate::text::{all_digits, chars_of, digits_value, find_from, find_text, is_digit};
use vstd::prelude::*;

verus! {

/// The parts of `s` between the separators.
pub open spec fn split_on(s: Seq<char>, c: char) -> Seq<Seq<char>>
    decreases s.len(),
{
    let k = first_index(s, c);
    if k < 0 || k >= s.len() {
        seq![s]
    } else {
        seq![s.take(k)] + split_on(s.skip(k + 1), c)
    }
}

/// The parts of `s` between the separators.
pub open spec fn parts_view(parts: Seq<Vec<char>>) -> Seq<Seq<char>> {
    Seq::new(parts.len(), |i: int| parts[i]@)
}

fn copy_range(chars: &Vec<char>, from: usize, to: usize) -> (r: Vec<char>)
    requires
        from <= to <= chars@.len(),
    ensures
        r@ == chars@.subrange(from as int, to as int),
{
    let mut out: Vec<char> = Vec::new();
    let mut i: usize = from;
    while i < to
        invariant
            from <= i <= to <= chars@.len(),
            out@ == chars@.subrange(from as int, i as int),
        decreases to - i,
    {
        out.push(chars[i]);
        i = i + 1;
        assert(out@ =~= chars@.subrange(from as int, i as int));
    }
    out
}

/// The parts of some characters between the separators.
pub fn split(chars: &Vec<char>, c: char) -> (r: Vec<Vec<char>>)
    ensures
        parts_view(r@) == split_on(chars@, c),
        r@.len() > 0,
{
    let n: usize = chars.len();
    let mut out: Vec<Vec<char>> = Vec::new();
    let mut from: usize = 0;
    assert(chars@.skip(0) =~= chars@);
    assert(split_on(chars@, c) =~= parts_view(out@) + split_on(chars@.skip(0), c));
    loop
        invariant
            n == chars@.len(),
            from <= n,
            split_on(chars@, c) == parts_view(out@) + split_on(chars@.skip(from as int), c),
        decreases n - from,
    {
        let ghost rest = chars@.skip(from as int);
        let mut at: usize = from;
        while at < n && chars[at] != c
            invariant
                from <= at <= n == chars@.len(),
                rest == chars@.skip(from as int),
                forall|i: int| 0 <= i < at - from ==> rest[i] != c,
            decreases n - at,
        {
            assert(rest[at - from] == chars@[at as int]);
            at = at + 1;
        }
        proof {
            lemma_first_index(rest, c, at - from);
        }
        let ghost before = out@;
        let part = copy_range(chars, from, at);
        let ghost v = part@;
        out.push(part);
        assert(parts_view(out@) =~= parts_view(before).push(v));
        if at == n {
            assert(v =~= rest);
            assert(parts_view(before) + seq![rest] =~= parts_view(out@));
            return out;
        }
        assert(v =~= rest.take(at - from));
        assert(rest.skip(at - from + 1) =~= chars@.skip(at + 1));
        assert(parts_view(before) + (seq![v] + split_on(chars@.skip(at + 1), c)) =~= parts_view(
            out@,
        ) + split_on(chars@.skip(at + 1), c));
        from = at + 1;
    }
}

// ---------------------------------------------------------------------------
// Four numbers and dots
// ---------------------------------------------------------------------------

/// Whether `s` writes a byte in base ten, without leading zeros.
pub open spec fn is_octet(s: Seq<char>) -> bool {
    1 <= s.len() <= 3 && all_digits(s) && (s.len() > 1 ==> s[0] != '0') && digits_value(s) <= 255
}

/// The four bytes of an address written with dots.
pub open spec fn dotted(s: Seq<char>) -> Option<(nat, nat, nat, nat)> {
    let p = split_on(s, '.');
    if p.len() == 4 && is_octet(p[0]) && is_octet(p[1]) && is_octet(p[2]) && is_octet(p[3]) {
        Some((digits_value(p[0]), digits_value(p[1]), digits_value(p[2]), digits_value(p[3])))
    } else {
        None
    }
}

fn read_octet(s: &Vec<char>) -> (r: Option<u16>)
    ensures
        r is Some <==> is_octet(s@),
        r matches Some(v) ==> v == digits_value(s@) && v <= 255,
{
    if s.len() < 1 || s.len() > 3 {
        return None;
    }
    let mut value: u16 = 0;
    let mut i: usize = 0;
    while i < s.len()
        invariant
            i <= s@.len() <= 3,
            all_digits(s@.take(i as int)),
            value == digits_value(s@.take(i as int)),
            i == 0 ==> value == 0,
            i == 1 ==> value <= 9,
            i == 2 ==> value <= 99,
            i == 3 ==> value <= 999,
        decreases s.len() - i,
    {
        let c = s[i];
        if !(c >= '0' && c <= '9') {
            assert(!is_digit(s@[i as int]));
            return None;
        }
        let d: u16 = (c as u32 - 48) as u16;
        assert(s@.take(i + 1).drop_last() =~= s@.take(i as int));
        assert(s@.take(i + 1).last() == c);
        value = value * 10 + d;
        i = i + 1;
        assert forall|j: int| 0 <= j < i implies is_digit(#[trigger] s@.take(i as int)[j]) by {
            if j < i - 1 {
                assert(s@.take(i - 1)[j] == s@[j]);
                assert(is_digit(s@.take(i - 1)[j]));
            }
        }
    }
    assert(s@.take(i as int) =~= s@);
    if (s.len() > 1 && s[0] == '0') || value > 255 {
        None
    } else {
        Some(value)
    }
}

fn read_dotted(s: &Vec<char>) -> (r: Option<(u16, u16, u16, u16)>)
    ensures
        match r {
            Some((a, b, c, d)) => dotted(s@) == Some((a as nat, b as nat, c as nat, d as nat)) && a
                <= 255 && b <= 255 && c <= 255 && d <= 255,
            None => dotted(s@) is None,
        },
{
    let parts = split(s, '.');
    let ghost p = split_on(s@, '.');
    assert(p.len() == parts@.len());
    if parts.len() != 4 {
        return None;
    }
    assert(p[0] == parts@[0]@ && p[1] == parts@[1]@ && p[2] == parts@[2]@ && p[3] == parts@[3]@);
    match (
        read_octet(&parts[0]),
        read_octet(&parts[1]),
        read_octet(&parts[2]),
        read_octet(&parts[3]),
    ) {
        (Some(a), Some(b), Some(c), Some(d)) => Some((a, b, c, d)),
        _ => None,
    }
}

// ---------------------------------------------------------------------------
// Eight groups and colons
// ---------------------------------------------------------------------------

pub open spec fn is_hex_digit(c: char) -> bool {
    is_digit(c) || 'a' <= c <= 'f' || 'A' <= c <= 'F'
}

pub open spec fn hex_digit_value(c: char) -> nat {
    if is_digit(c) {
        (c as int - 48) as nat
    } else if 'a' <= c <= 'f' {
        (c as int - 87) as nat
    } else {
        (c as int - 55) as nat
    }
}

pub open spec fn hex_value(s: Seq<char>) -> nat
    decreases s.len(),
{
    if s.len() == 0 {
        0
    } else {
        hex_value(s.drop_last()) * 16 + hex_digit_value(s.last())
    }
}

/// Whether `s` writes a group: one to four digits of base sixteen.
pub open spec fn is_group(s: Seq<char>) -> bool {
    1 <= s.len() <= 4 && forall|i: int| 0 <= i < s.len() ==> is_hex_digit(#[trigger] s[i])
}

/// The groups that the first `n` parts write.
pub open spec fn group_values(parts: Seq<Seq<char>>, n: int) -> Option<Seq<nat>>
    decreases n,
{
    if n <= 0 {
        Some(Seq::empty())
    } else {
        match group_values(parts, n - 1) {
            Some(before) => if is_group(parts[n - 1]) {
                Some(before.push(hex_value(parts[n - 1])))
            } else {
                None
            },
            None => None,
        }
    }
}

/// The groups of `s`. The last two may be written as four bytes with dots, where
/// `dots` allows it.
pub open spec fn groups(s: Seq<char>, dots: bool) -> Option<Seq<nat>> {
    if s.len() == 0 {
        Some(Seq::empty())
    } else {
        let p = split_on(s, ':');
        let n = p.len() as int;
        match (dotted(p.last()), dots) {
            (Some((a, b, c, d)), true) => match group_values(p, n - 1) {
                Some(before) => Some(before.push(a * 256 + b).push(c * 256 + d)),
                None => None,
            },
            _ => group_values(p, n),
        }
    }
}

pub open spec fn zero_groups(n: int) -> Seq<nat> {
    Seq::new(n as nat, |i: int| 0nat)
}

/// The eight groups of an address written with colons. Two colons stand for one or more
/// groups of zero, once.
pub open spec fn eight_groups(s: Seq<char>) -> Option<Seq<nat>> {
    match find_from(s, "::"@, 0) {
        Some(k) => match (groups(s.take(k), false), groups(s.skip(k + 2), true)) {
            (Some(head), Some(tail)) => if head.len() + tail.len() <= 7 {
                Some(head + zero_groups(8 - head.len() - tail.len()) + tail)
            } else {
                None
            },
            _ => None,
        },
        None => match groups(s, true) {
            Some(all) => if all.len() == 8 {
                Some(all)
            } else {
                None
            },
            None => None,
        },
    }
}

/// Whether `s` is the text of an address of the machine itself: one of four bytes that
/// begins with 127, or the one of eight groups that is one.
pub open spec fn is_loopback(s: Seq<char>) -> bool {
    ||| (dotted(s) matches Some((a, _, _, _)) && a == 127)
    ||| eight_groups(s) == Some(zero_groups(7).push(1))
}

fn read_group(s: &Vec<char>) -> (r: Option<u32>)
    ensures
        r is Some <==> is_group(s@),
        r matches Some(v) ==> v == hex_value(s@) && v <= 0xFFFF,
{
    if s.len() < 1 || s.len() > 4 {
        return None;
    }
    let mut value: u32 = 0;
    let mut i: usize = 0;
    while i < s.len()
        invariant
            i <= s@.len() <= 4,
            forall|j: int| 0 <= j < i ==> is_hex_digit(#[trigger] s@[j]),
            value == hex_value(s@.take(i as int)),
            i == 0 ==> value == 0,
            i == 1 ==> value <= 0xF,
            i == 2 ==> value <= 0xFF,
            i == 3 ==> value <= 0xFFF,
            i == 4 ==> value <= 0xFFFF,
        decreases s.len() - i,
    {
        let c = s[i];
        let d: u32 = if c >= '0' && c <= '9' {
            c as u32 - 48
        } else if c >= 'a' && c <= 'f' {
            c as u32 - 87
        } else if c >= 'A' && c <= 'F' {
            c as u32 - 55
        } else {
            assert(!is_hex_digit(s@[i as int]));
            return None;
        };
        assert(s@.take(i + 1).drop_last() =~= s@.take(i as int));
        assert(s@.take(i + 1).last() == c);
        value = value * 16 + d;
        i = i + 1;
    }
    assert(s@.take(i as int) =~= s@);
    Some(value)
}

/// The numbers in a list.
spec fn numbers(list: Seq<u32>) -> Seq<nat> {
    Seq::new(list.len(), |i: int| list[i] as nat)
}

fn read_groups(s: &Vec<char>, dots: bool) -> (r: Option<Vec<u32>>)
    ensures
        match r {
            Some(v) => groups(s@, dots) == Some(numbers(v@)),
            None => groups(s@, dots) is None,
        },
{
    let mut out: Vec<u32> = Vec::new();
    if s.len() == 0 {
        assert(numbers(out@) =~= Seq::empty());
        return Some(out);
    }
    let parts = split(s, ':');
    let ghost p = split_on(s@, ':');
    let n: usize = parts.len();
    assert(p.len() == n);
    assert(p.last() == parts@[n - 1]@);
    let tail = read_dotted(&parts[n - 1]);
    let m: usize = if dots && tail.is_some() { n - 1 } else { n };
    let mut i: usize = 0;
    assert(numbers(out@) =~= Seq::empty());
    while i < m
        invariant
            i <= m <= n == parts@.len(),
            parts_view(parts@) == p,
            p == split_on(s@, ':'),
            s@.len() > 0,
            p.last() == parts@[n - 1]@,
            m == if dots && dotted(p.last()) is Some {
                n - 1
            } else {
                n as int
            },
            out@.len() == i,
            group_values(p, i as int) == Some(numbers(out@)),
        decreases m - i,
    {
        assert(p[i as int] == parts@[i as int]@);
        match read_group(&parts[i]) {
            Some(v) => {
                let ghost before = out@;
                out.push(v);
                assert(numbers(out@) =~= numbers(before).push(v as nat));
            },
            None => {
                proof {
                    lemma_no_group(p, i as int, m as int);
                }
                return None;
            },
        }
        i = i + 1;
    }
    if m < n {
        if let Some((a, b, c, d)) = tail {
            let ghost before = out@;
            let (x, y): (u32, u32) = (
                a as u32 * 256 + b as u32,
                c as u32 * 256 + d as u32,
            );
            out.push(x);
            out.push(y);
            assert(numbers(out@) =~= numbers(before).push(x as nat).push(y as nat));
        }
    }
    Some(out)
}

proof fn lemma_no_group(parts: Seq<Seq<char>>, i: int, n: int)
    requires
        0 <= i < n,
        !is_group(parts[i]),
    ensures
        group_values(parts, n) is None,
    decreases n,
{
    if i < n - 1 {
        lemma_no_group(parts, i, n - 1);
    }
}

/// The list with the numbers of `head`, zeros, and the numbers of `tail`, eight in all.
fn is_one(head: &Vec<u32>, tail: &Vec<u32>) -> (r: bool)
    requires
        head@.len() + tail@.len() <= 8,
    ensures
        r == (numbers(head@) + zero_groups(8 - head@.len() - tail@.len()) + numbers(tail@)
            == zero_groups(7).push(1)),
{
    let ghost whole = numbers(head@) + zero_groups(8 - head@.len() - tail@.len()) + numbers(tail@);
    let ghost want = zero_groups(7).push(1nat);
    let mut i: usize = 0;
    while i < 8
        invariant
            i <= 8,
            head@.len() + tail@.len() <= 8,
            whole == numbers(head@) + zero_groups(8 - head@.len() - tail@.len()) + numbers(tail@),
            want == zero_groups(7).push(1nat),
            whole.len() == 8,
            forall|j: int| 0 <= j < i ==> whole[j] == want[j],
        decreases 8 - i,
    {
        let start: usize = 8 - tail.len();
        let v: u32 = if i < head.len() {
            head[i]
        } else if i >= start {
            tail[i - start]
        } else {
            0
        };
        assert(v as nat == whole[i as int]);
        let w: u32 = if i == 7 { 1 } else { 0 };
        assert(w as nat == want[i as int]);
        if v != w {
            return false;
        }
        i = i + 1;
    }
    assert(whole =~= want);
    true
}

/// Whether `s` is the text of an address of the machine itself.
pub fn is_loopback_address(s: &str) -> (r: bool)
    ensures
        r == is_loopback(s@),
{
    let chars = chars_of(s);
    if let Some((a, _, _, _)) = read_dotted(&chars) {
        if a == 127 {
            return true;
        }
    }
    let colons = chars_of("::");
    proof {
        reveal_strlit("::");
    }
    let n: usize = chars.len();
    match find_text(&chars, &colons) {
        Some(k) => {
            let head_text = copy_range(&chars, 0, k);
            let tail_text = copy_range(&chars, k + 2, n);
            assert(head_text@ =~= s@.take(k as int));
            assert(tail_text@ =~= s@.skip(k + 2));
            match (read_groups(&head_text, false), read_groups(&tail_text, true)) {
                (Some(head), Some(tail)) => {
                    if head.len() <= 7 && tail.len() <= 7 - head.len() {
                        is_one(&head, &tail)
                    } else {
                        false
                    }
                },
                _ => false,
            }
        },
        None => match read_groups(&chars, true) {
            Some(all) => {
                if all.len() == 8 {
                    let none: Vec<u32> = Vec::new();
                    assert(numbers(all@) + zero_groups(0) + numbers(none@) =~= numbers(all@));
                    is_one(&all, &none)
                } else {
                    false
                }
            },
            None => false,
        },
    }
}

} // verus!
