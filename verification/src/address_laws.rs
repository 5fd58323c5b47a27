//! Which texts are addresses of the machine itself.

use crate::citation::first_index;
use crate::loopback::{
    dotted, eight_groups, group_values, groups, hex_value, is_group, is_loopback, is_octet,
    split_on, zero_groups,
};
use crate::text::{all_digits, digits_value, find_from, occurs_at, zeros};
use crate::text_laws::texts_are_parted_at_separators;
use vstd::prelude::*;

verus! {

/// Whether `s` is made of zeros, colons and dots.
pub open spec fn is_nought(s: Seq<char>) -> bool {
    forall|i: int| 0 <= i < s.len() ==> #[trigger] s[i] == '0' || s[i] == ':' || s[i] == '.'
}

/// Whether `s` is made of zeros, colons and dots but for a one at its end.
pub open spec fn is_unit(s: Seq<char>) -> bool {
    s.len() > 0 && s.last() == '1' && is_nought(s.drop_last())
}

proof fn lemma_first_is_there(s: Seq<char>, c: char)
    ensures
        0 <= first_index(s, c) <= s.len(),
        first_index(s, c) < s.len() ==> s[first_index(s, c)] == c,
    decreases s.len(),
{
    if s.len() > 0 && s[0] != c {
        lemma_first_is_there(s.skip(1), c);
    }
}

proof fn lemma_parts_of(s: Seq<char>, c: char) -> (k: int)
    ensures
        0 <= k <= s.len(),
        k == s.len() ==> split_on(s, c) == seq![s],
        k < s.len() ==> s[k] == c && split_on(s, c) == seq![s.take(k)] + split_on(s.skip(k + 1), c),
        split_on(s, c).len() > 0,
{
    lemma_first_is_there(s, c);
    first_index(s, c)
}

proof fn lemma_nought_parts(s: Seq<char>, c: char)
    requires
        c == ':' || c == '.',
        forall|j: int| 0 <= j < split_on(s, c).len() ==> is_nought(#[trigger] split_on(s, c)[j]),
    ensures
        is_nought(s),
    decreases s.len(),
{
    let p = split_on(s, c);
    let k = lemma_parts_of(s, c);
    if k == s.len() {
        assert(p[0] == s);
    } else {
        let rest = s.skip(k + 1);
        let q = split_on(rest, c);
        assert forall|j: int| 0 <= j < q.len() implies is_nought(#[trigger] q[j]) by {
            assert(p[j + 1] == q[j]);
        }
        lemma_nought_parts(rest, c);
        assert(p[0] == s.take(k));
        assert forall|i: int| 0 <= i < s.len() implies #[trigger] s[i] == '0' || s[i] == ':' || s[i]
            == '.' by {
            if i < k {
                assert(s.take(k)[i] == s[i]);
            } else if i > k {
                assert(rest[i - k - 1] == s[i]);
            }
        }
    }
}

proof fn lemma_unit_parts(s: Seq<char>, c: char)
    requires
        c == ':' || c == '.',
        forall|j: int|
            0 <= j < split_on(s, c).len() - 1 ==> is_nought(#[trigger] split_on(s, c)[j]),
        is_unit(split_on(s, c).last()),
    ensures
        is_unit(s),
    decreases s.len(),
{
    let p = split_on(s, c);
    let k = lemma_parts_of(s, c);
    if k == s.len() {
        assert(p.last() == s);
    } else {
        let rest = s.skip(k + 1);
        let q = split_on(rest, c);
        let _ = lemma_parts_of(rest, c);
        assert(p.last() == q.last());
        assert forall|j: int| 0 <= j < q.len() - 1 implies is_nought(#[trigger] q[j]) by {
            assert(p[j + 1] == q[j]);
        }
        lemma_unit_parts(rest, c);
        assert(p[0] == s.take(k));
        assert(s.last() == rest.last());
        let all = s.drop_last();
        assert forall|i: int| 0 <= i < all.len() implies #[trigger] all[i] == '0' || all[i] == ':'
            || all[i] == '.' by {
            if i < k {
                assert(s.take(k)[i] == s[i]);
            } else if i > k {
                assert(rest.drop_last()[i - k - 1] == s[i]);
            }
        }
    }
}

proof fn lemma_hex_small(s: Seq<char>)
    requires
        forall|i: int| 0 <= i < s.len() ==> crate::loopback::is_hex_digit(#[trigger] s[i]),
    ensures
        hex_value(s) == 0 ==> is_nought(s),
        hex_value(s) == 1 ==> is_unit(s),
    decreases s.len(),
{
    if s.len() > 0 {
        let r = s.drop_last();
        assert forall|i: int| 0 <= i < r.len() implies crate::loopback::is_hex_digit(
            #[trigger] r[i],
        ) by {
            assert(r[i] == s[i]);
        }
        lemma_hex_small(r);
        assert(crate::loopback::is_hex_digit(s[s.len() - 1]));
        if hex_value(s) == 0 {
            assert(hex_value(r) == 0);
            assert forall|i: int| 0 <= i < s.len() implies #[trigger] s[i] == '0' || s[i] == ':'
                || s[i] == '.' by {
                if i < r.len() {
                    assert(r[i] == s[i]);
                }
            }
        }
    }
}

proof fn lemma_digits_small(s: Seq<char>)
    requires
        all_digits(s),
    ensures
        digits_value(s) == 0 ==> is_nought(s),
        digits_value(s) == 1 ==> is_unit(s),
    decreases s.len(),
{
    if s.len() > 0 {
        let r = s.drop_last();
        assert forall|i: int| 0 <= i < r.len() implies crate::text::is_digit(#[trigger] r[i]) by {
            assert(r[i] == s[i]);
        }
        lemma_digits_small(r);
        assert(crate::text::is_digit(s[s.len() - 1]));
        if digits_value(s) == 0 {
            assert(digits_value(r) == 0);
            assert forall|i: int| 0 <= i < s.len() implies #[trigger] s[i] == '0' || s[i] == ':'
                || s[i] == '.' by {
                if i < r.len() {
                    assert(r[i] == s[i]);
                }
            }
        }
    }
}

proof fn lemma_dotted_small(s: Seq<char>)
    ensures
        dotted(s) == Some((0nat, 0nat, 0nat, 0nat)) ==> is_nought(s),
        dotted(s) == Some((0nat, 0nat, 0nat, 1nat)) ==> is_unit(s),
{
    let p = split_on(s, '.');
    if dotted(s) is Some {
        lemma_digits_small(p[0]);
        lemma_digits_small(p[1]);
        lemma_digits_small(p[2]);
        lemma_digits_small(p[3]);
        if dotted(s) == Some((0nat, 0nat, 0nat, 0nat)) {
            lemma_nought_parts(s, '.');
        }
        if dotted(s) == Some((0nat, 0nat, 0nat, 1nat)) {
            lemma_unit_parts(s, '.');
        }
    }
}

proof fn lemma_group_values(p: Seq<Seq<char>>, n: int)
    requires
        0 <= n <= p.len(),
    ensures
        group_values(p, n) matches Some(g) ==> g.len() == n && forall|j: int|
            0 <= j < n ==> is_group(#[trigger] p[j]) && g[j] == hex_value(p[j]),
    decreases n,
{
    if n > 0 {
        lemma_group_values(p, n - 1);
    }
}

/// What groups that are all zero, or all but the last which is one, are written with.
proof fn lemma_groups_small(s: Seq<char>, dots: bool)
    ensures
        groups(s, dots) matches Some(g) ==> {
            &&& (forall|j: int| 0 <= j < g.len() ==> #[trigger] g[j] == 0) ==> is_nought(s)
            &&& g.len() > 0 && g.last() == 1 && (forall|j: int|
                0 <= j < g.len() - 1 ==> #[trigger] g[j] == 0) ==> is_unit(s)
        },
{
    if let Some(g) = groups(s, dots) {
        if s.len() > 0 {
            let p = split_on(s, ':');
            let n = p.len() as int;
            let _ = lemma_parts_of(s, ':');
            if dotted(p.last()) is Some && dots {
                let (a, b, c, d) = dotted(p.last())->0;
                lemma_group_values(p, n - 1);
                lemma_dotted_small(p.last());
                let q = split_on(p.last(), '.');
                assert(a <= 255 && b <= 255 && c <= 255 && d <= 255);
                assert(g.len() == n + 1);
                assert(g[n - 1] == a * 256 + b);
                assert(g[n] == c * 256 + d);
                assert forall|j: int| 0 <= j < n - 1 && g[j] == 0 implies is_nought(
                    #[trigger] p[j],
                ) by {
                    lemma_hex_small(p[j]);
                }
            } else {
                lemma_group_values(p, n);
                assert forall|j: int| 0 <= j < n && g[j] == 0 implies is_nought(#[trigger] p[j]) by {
                    lemma_hex_small(p[j]);
                }
                assert(p[n - 1] == p.last());
                lemma_hex_small(p.last());
            }
            if forall|j: int| 0 <= j < g.len() ==> #[trigger] g[j] == 0 {
                assert forall|j: int| 0 <= j < n implies is_nought(#[trigger] p[j]) by {
                    assert(g[j] == 0);
                }
                lemma_nought_parts(s, ':');
            }
            if g.len() > 0 && g.last() == 1 && forall|j: int|
                0 <= j < g.len() - 1 ==> #[trigger] g[j] == 0 {
                assert forall|j: int| 0 <= j < n - 1 implies is_nought(#[trigger] p[j]) by {
                    assert(g[j] == 0);
                }
                lemma_unit_parts(s, ':');
            }
        }
    }
}

proof fn lemma_found(s: Seq<char>, needle: Seq<char>, at: int)
    requires
        0 <= at,
    ensures
        find_from(s, needle, at) matches Some(k) ==> occurs_at(s, needle, k),
    decreases s.len() + 1 - at,
{
    if at <= s.len() && !occurs_at(s, needle, at) {
        lemma_found(s, needle, at + 1);
    }
}

proof fn lemma_no_colon_in_dotted(s: Seq<char>, i: int)
    requires
        dotted(s) is Some,
        0 <= i < s.len(),
    ensures
        s[i] != ':',
{
    let p = split_on(s, '.');
    assert forall|j: int, m: int| 0 <= j < p.len() && 0 <= m < p[j].len() implies (#[trigger] p[j][m])
        != ':' by {
        assert(is_octet(p[j]));
        assert(crate::text::is_digit(p[j][m]));
    }
    lemma_no_colon(s, '.', i);
}

proof fn lemma_no_colon(s: Seq<char>, c: char, i: int)
    requires
        c != ':',
        0 <= i < s.len(),
        forall|j: int, m: int|
            0 <= j < split_on(s, c).len() && 0 <= m < split_on(s, c)[j].len() ==> (
            #[trigger] split_on(s, c)[j][m]) != ':',
    ensures
        s[i] != ':',
    decreases s.len(),
{
    let p = split_on(s, c);
    let k = lemma_parts_of(s, c);
    if k == s.len() {
        assert(p[0][i] == s[i]);
    } else if i < k {
        assert(p[0][i] == s[i]);
    } else if i > k {
        let rest = s.skip(k + 1);
        let q = split_on(rest, c);
        assert forall|j: int, m: int| 0 <= j < q.len() && 0 <= m < q[j].len() implies (
        #[trigger] q[j][m]) != ':' by {
            assert(p[j + 1][m] == q[j][m]);
        }
        lemma_no_colon(rest, c, i - k - 1);
        assert(rest[i - k - 1] == s[i]);
    }
}

/// Of the addresses that are written with colons, the one that is the machine itself is one:
/// all that stands before the last character is zeros and what parts them, and that character
/// is a one.
pub proof fn only_one_is_local_among_those_with_colons(s: Seq<char>, at: int)
    requires
        is_loopback(s),
        0 <= at < s.len(),
        s[at] == ':',
    ensures
        s.last() == '1',
        forall|i: int|
            0 <= i < s.len() - 1 ==> #[trigger] s[i] == '0' || s[i] == ':' || s[i] == '.',
{
    if dotted(s) is Some {
        lemma_no_colon_in_dotted(s, at);
    }
    let want = zero_groups(7).push(1);
    assert(eight_groups(s) == Some(want));
    reveal_strlit("::");
    lemma_found(s, "::"@, 0);
    match find_from(s, "::"@, 0) {
        Some(k) => {
            let (a, b) = (s.take(k), s.skip(k + 2));
            let (head, tail) = (groups(a, false)->0, groups(b, true)->0);
            let noughts = zero_groups(8 - head.len() - tail.len());
            let all = head + noughts + tail;
            assert(all == want);
            assert forall|j: int| 0 <= j < head.len() implies #[trigger] head[j] == 0 by {
                assert(all[j] == head[j]);
                assert(want[j] == 0);
            }
            assert(want[7] == 1);
            if tail.len() == 0 {
                assert(all[7] == noughts[7 - head.len()]);
            }
            let t = head.len() + noughts.len();
            assert forall|j: int| 0 <= j < tail.len() implies #[trigger] tail[j] == want[t + j] by {
                assert(all[t + j] == tail[j]);
            }
            assert(tail.last() == 1);
            lemma_groups_small(a, false);
            lemma_groups_small(b, true);
            assert(s.last() == b.last());
            assert(s.subrange(k, k + 2) == "::"@);
            assert forall|i: int| 0 <= i < s.len() - 1 implies #[trigger] s[i] == '0' || s[i] == ':'
                || s[i] == '.' by {
                if i < k {
                    assert(a[i] == s[i]);
                } else if i < k + 2 {
                    assert(s.subrange(k, k + 2)[i - k] == s[i]);
                } else {
                    assert(b.drop_last()[i - k - 2] == s[i]);
                }
            }
        },
        None => {
            lemma_groups_small(s, true);
            assert(want.last() == 1);
            assert forall|j: int| 0 <= j < want.len() - 1 implies #[trigger] want[j] == 0 by {}
            assert forall|i: int| 0 <= i < s.len() - 1 implies #[trigger] s[i] == '0' || s[i] == ':'
                || s[i] == '.' by {
                assert(s.drop_last()[i] == s[i]);
            }
        },
    }
}

/// One is the machine itself, however many zeros stand before it in its group.
pub proof fn one_is_local(k: int)
    requires
        0 <= k <= 3,
    ensures
        is_loopback("::"@ + (zeros(k).push('1'))),
{
    reveal_strlit("::");
    let t = zeros(k).push('1');
    let s = "::"@ + t;
    assert(s.subrange(0, 2) =~= "::"@);
    assert(occurs_at(s, "::"@, 0));
    assert(s.take(0) =~= Seq::empty());
    assert(s.skip(2) =~= t);
    texts_are_parted_at_separators(t, ':', Seq::empty());
    texts_are_parted_at_separators(t, '.', Seq::empty());
    let p = split_on(t, ':');
    assert(p =~= seq![t]);
    assert(split_on(t, '.') =~= seq![t]);
    lemma_hex_zeros(k);
    assert(t.drop_last() =~= zeros(k));
    assert(is_group(t));
    assert(hex_value(t) == 1);
    assert(group_values(p, 0) == Some(Seq::<nat>::empty()));
    assert(group_values(p, 1) == Some(Seq::<nat>::empty().push(1)));
    assert(eight_groups(s)->0 =~= zero_groups(7).push(1));
}

proof fn lemma_hex_zeros(k: int)
    requires
        0 <= k,
    ensures
        hex_value(zeros(k)) == 0,
    decreases k,
{
    if k > 0 {
        lemma_hex_zeros(k - 1);
        assert(zeros(k).drop_last() =~= zeros(k - 1));
    }
}

} // verus!
