//! What can be read off a text: how often some words stand in it, and what follows a mark.

use crate::citation::{first_index, lemma_first_index};
use crate::text::{begins_with, occurs_at};
use vstd::prelude::*;

verus! {

/// How often `p` stands in `s`.
pub open spec fn times(s: Seq<char>, p: Seq<char>) -> nat
    decreases s.len(),
{
    if s.len() == 0 {
        0
    } else if begins_with(s, p) {
        1 + times(s.skip(1), p)
    } else {
        times(s.skip(1), p)
    }
}

/// `s` up to the first quotation mark.
pub open spec fn up_to_quote(s: Seq<char>) -> Seq<char> {
    s.take(first_index(s, '"'))
}

/// What follows `mark` wherever it stands in `s`, up to the next quotation mark: for the
/// beginning of an attribute, its values in the order in which they stand.
pub open spec fn values(s: Seq<char>, mark: Seq<char>) -> Seq<Seq<char>>
    decreases s.len(),
{
    if s.len() == 0 {
        Seq::empty()
    } else if begins_with(s, mark) {
        seq![up_to_quote(s.skip(mark.len() as int))] + values(s.skip(1), mark)
    } else {
        values(s.skip(1), mark)
    }
}

/// How often `x` stands in a list.
pub open spec fn count_in(list: Seq<Seq<char>>, x: Seq<char>) -> nat
    decreases list.len(),
{
    if list.len() == 0 {
        0
    } else if list.last() == x {
        count_in(list.drop_last(), x) + 1
    } else {
        count_in(list.drop_last(), x)
    }
}

/// Whether a text ends with a tag, or is empty.
pub open spec fn is_closed(s: Seq<char>) -> bool {
    s.len() == 0 || s.last() == '>'
}

/// Whether every value after `mark` ends within the text.
pub open spec fn is_complete(s: Seq<char>, mark: Seq<char>) -> bool {
    forall|i: int| #[trigger]
        occurs_at(s, mark, i) ==> exists|j: int| i + mark.len() <= j < s.len() && s[j] == '"'
}

/// Whether a text is free of what ends a tag.
pub open spec fn is_inside(p: Seq<char>) -> bool {
    p.len() > 0 && forall|i: int| 0 <= i < p.len() ==> #[trigger] p[i] != '>'
}

proof fn lemma_begins(s: Seq<char>, p: Seq<char>)
    ensures
        begins_with(s, p) <==> occurs_at(s, p, 0),
{
    if p.len() <= s.len() {
        assert(s.subrange(0, p.len() as int) =~= s.take(p.len() as int));
    }
}

proof fn lemma_occurs_later(s: Seq<char>, p: Seq<char>, i: int)
    requires
        s.len() > 0,
        i >= 0,
    ensures
        occurs_at(s.skip(1), p, i) <==> occurs_at(s, p, i + 1),
{
    if i + 1 + p.len() <= s.len() {
        assert(s.skip(1).subrange(i, i + p.len()) =~= s.subrange(i + 1, i + 1 + p.len()));
    }
}

pub proof fn lemma_never(s: Seq<char>, p: Seq<char>)
    requires
        forall|i: int| !#[trigger] occurs_at(s, p, i),
    ensures
        times(s, p) == 0,
        values(s, p) == Seq::<Seq<char>>::empty(),
        is_complete(s, p),
    decreases s.len(),
{
    if s.len() > 0 {
        lemma_begins(s, p);
        assert forall|i: int| !#[trigger] occurs_at(s.skip(1), p, i) by {
            if i >= 0 {
                lemma_occurs_later(s, p, i);
            }
        }
        lemma_never(s.skip(1), p);
    }
}

/// What stands in one place only is counted once, and read once.
pub proof fn lemma_once(s: Seq<char>, p: Seq<char>, k: int)
    requires
        p.len() > 0,
        occurs_at(s, p, k),
        forall|i: int| #[trigger] occurs_at(s, p, i) ==> i == k,
    ensures
        times(s, p) == 1,
        values(s, p) == seq![up_to_quote(s.skip(k + p.len()))],
    decreases s.len(),
{
    lemma_begins(s, p);
    if k == 0 {
        assert forall|i: int| !#[trigger] occurs_at(s.skip(1), p, i) by {
            if i >= 0 {
                lemma_occurs_later(s, p, i);
            }
        }
        lemma_never(s.skip(1), p);
        assert(values(s, p) =~= seq![up_to_quote(s.skip(k + p.len()))]);
    } else {
        assert(!occurs_at(s, p, 0));
        lemma_occurs_later(s, p, k - 1);
        assert forall|i: int| #[trigger] occurs_at(s.skip(1), p, i) implies i == k - 1 by {
            lemma_occurs_later(s, p, i);
        }
        lemma_once(s.skip(1), p, k - 1);
        assert(s.skip(1).skip(k - 1 + p.len()) =~= s.skip(k + p.len()));
    }
}

proof fn lemma_begins_closed(a: Seq<char>, b: Seq<char>, p: Seq<char>)
    requires
        a.len() > 0,
        is_closed(a),
        is_inside(p),
    ensures
        begins_with(a + b, p) <==> begins_with(a, p),
{
    if p.len() <= a.len() {
        assert((a + b).take(p.len() as int) =~= a.take(p.len() as int));
    } else if begins_with(a + b, p) {
        let n = a.len() - 1;
        assert((a + b).take(p.len() as int)[n] == a[n]);
        assert(p[n] != '>');
    }
}

pub proof fn lemma_times_add(a: Seq<char>, b: Seq<char>, p: Seq<char>)
    requires
        is_closed(a),
        is_inside(p),
    ensures
        times(a + b, p) == times(a, p) + times(b, p),
    decreases a.len(),
{
    if a.len() == 0 {
        assert(a + b =~= b);
    } else {
        lemma_times_add(a.skip(1), b, p);
        lemma_begins_closed(a, b, p);
        assert((a + b).skip(1) =~= a.skip(1) + b);
    }
}

proof fn lemma_up_to_quote(a: Seq<char>, b: Seq<char>, k: int)
    requires
        0 <= k < a.len(),
        a[k] == '"',
    ensures
        up_to_quote(a + b) == up_to_quote(a),
{
    let i = first_quote(a, k);
    assert forall|j: int| 0 <= j < i implies (a + b)[j] != '"' by {
        assert((a + b)[j] == a[j]);
    }
    lemma_first_index(a, '"', i);
    lemma_first_index(a + b, '"', i);
    assert((a + b).take(i) =~= a.take(i));
}

proof fn first_quote(a: Seq<char>, k: int) -> (i: int)
    requires
        0 <= k < a.len(),
        a[k] == '"',
    ensures
        0 <= i <= k,
        a[i] == '"',
        forall|j: int| 0 <= j < i ==> a[j] != '"',
    decreases k,
{
    if exists|j: int| 0 <= j < k && a[j] == '"' {
        let j = choose|j: int| 0 <= j < k && a[j] == '"';
        first_quote(a, j)
    } else {
        k
    }
}

proof fn lemma_complete_later(a: Seq<char>, mark: Seq<char>)
    requires
        a.len() > 0,
        is_complete(a, mark),
    ensures
        is_complete(a.skip(1), mark),
{
    let rest = a.skip(1);
    assert forall|i: int| #[trigger] occurs_at(rest, mark, i) implies exists|j: int|
        i + mark.len() <= j < rest.len() && rest[j] == '"' by {
        lemma_occurs_later(a, mark, i);
        let j = choose|j: int| i + 1 + mark.len() <= j < a.len() && a[j] == '"';
        assert(rest[j - 1] == '"');
    }
}

pub proof fn lemma_values_add(a: Seq<char>, b: Seq<char>, mark: Seq<char>)
    requires
        is_closed(a),
        is_inside(mark),
        is_complete(a, mark),
    ensures
        values(a + b, mark) == values(a, mark) + values(b, mark),
        is_complete(b, mark) ==> is_complete(a + b, mark),
    decreases a.len(),
{
    if a.len() == 0 {
        assert(a + b =~= b);
        assert(values(a, mark) + values(b, mark) =~= values(b, mark));
    } else {
        lemma_complete_later(a, mark);
        lemma_values_add(a.skip(1), b, mark);
        lemma_begins_closed(a, b, mark);
        lemma_begins(a, mark);
        lemma_begins(a + b, mark);
        assert((a + b).skip(1) =~= a.skip(1) + b);
        if begins_with(a, mark) {
            assert(occurs_at(a, mark, 0));
            let j = choose|j: int| mark.len() <= j < a.len() && a[j] == '"';
            let rest = a.skip(mark.len() as int);
            assert(rest[j - mark.len()] == '"');
            lemma_up_to_quote(rest, b, j - mark.len());
            assert((a + b).skip(mark.len() as int) =~= rest + b);
        }
        assert(values(a + b, mark) =~= values(a, mark) + values(b, mark));
        if is_complete(b, mark) {
            let s = a + b;
            assert forall|i: int| #[trigger] occurs_at(s, mark, i) implies exists|j: int|
                i + mark.len() <= j < s.len() && s[j] == '"' by {
                if i == 0 {
                    assert(occurs_at(a, mark, 0));
                    let j = choose|j: int| mark.len() <= j < a.len() && a[j] == '"';
                    assert(s[j] == '"');
                } else {
                    lemma_occurs_later(s, mark, i - 1);
                    assert(occurs_at(a.skip(1) + b, mark, i - 1));
                    let j = choose|j: int|
                        i - 1 + mark.len() <= j < (a.skip(1) + b).len() && (a.skip(1) + b)[j]
                            == '"';
                    assert(s[j + 1] == '"');
                }
            }
        }
    }
}

pub proof fn lemma_count_add(a: Seq<Seq<char>>, b: Seq<Seq<char>>, x: Seq<char>)
    ensures
        count_in(a + b, x) == count_in(a, x) + count_in(b, x),
    decreases b.len(),
{
    if b.len() == 0 {
        assert(a + b =~= a);
    } else {
        lemma_count_add(a, b.drop_last(), x);
        assert((a + b).drop_last() =~= a + b.drop_last());
        assert((a + b).last() == b.last());
    }
}

/// What stands in a list without repetitions stands there once.
pub proof fn lemma_count_one(list: Seq<Seq<char>>, k: int)
    requires
        list.no_duplicates(),
        0 <= k < list.len(),
    ensures
        count_in(list, list[k]) == 1,
    decreases list.len(),
{
    let n = list.len() - 1;
    let front = list.drop_last();
    assert(front.no_duplicates());
    if k < n {
        lemma_count_one(front, k);
        assert(front[k] == list[k]);
        assert(list[n] != list[k]);
    } else {
        assert forall|i: int| 0 <= i < front.len() implies #[trigger] front[i] != list[k] by {
            assert(list[i] != list[n]);
        }
        lemma_count_none(front, list[k]);
    }
}

proof fn lemma_count_none(list: Seq<Seq<char>>, x: Seq<char>)
    requires
        forall|i: int| 0 <= i < list.len() ==> #[trigger] list[i] != x,
    ensures
        count_in(list, x) == 0,
    decreases list.len(),
{
    if list.len() > 0 {
        let front = list.drop_last();
        assert forall|i: int| 0 <= i < front.len() implies #[trigger] front[i] != x by {
            assert(list[i] != x);
        }
        lemma_count_none(front, x);
        assert(list[list.len() - 1] != x);
    }
}

} // verus!
