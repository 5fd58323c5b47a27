//! Texts made of parts: what stands in a text, and texts one after another.

use vstd::prelude::*;

verus! {

/// Whether `part` stands in `whole`, unbroken.
pub open spec fn stands_in(part: Seq<char>, whole: Seq<char>) -> bool {
    exists|pre: Seq<char>, post: Seq<char>| whole == #[trigger] (pre + part + post)
}

/// Whether the parts stand in `whole` one after another, with nothing between them.
pub open spec fn stand_in_a_row(parts: Seq<Seq<char>>, whole: Seq<char>) -> bool {
    stands_in(parts.flatten(), whole)
}

pub proof fn lemma_stands(pre: Seq<char>, part: Seq<char>, post: Seq<char>)
    ensures
        stands_in(part, pre + part + post),
{
}

pub proof fn lemma_stands_in_itself(part: Seq<char>)
    ensures
        stands_in(part, part),
{
    let none = Seq::<char>::empty();
    assert(none + part + none =~= part);
    lemma_stands(none, part, none);
}

pub proof fn lemma_stands_within(part: Seq<char>, mid: Seq<char>, whole: Seq<char>)
    requires
        stands_in(part, mid),
        stands_in(mid, whole),
    ensures
        stands_in(part, whole),
{
    let (a, b) = choose|a: Seq<char>, b: Seq<char>| mid == #[trigger] (a + part + b);
    let (c, d) = choose|c: Seq<char>, d: Seq<char>| whole == #[trigger] (c + mid + d);
    assert(whole =~= (c + a) + part + (b + d));
}

/// What stands in a text still stands there where something is written before and after it.
pub broadcast proof fn lemma_stands_before(part: Seq<char>, whole: Seq<char>, more: Seq<char>)
    requires
        stands_in(part, whole),
    ensures
        #[trigger] stands_in(part, whole + more),
{
    let (a, b) = choose|a: Seq<char>, b: Seq<char>| whole == #[trigger] (a + part + b);
    assert(whole + more =~= a + part + (b + more));
}

/// What has just been written stands in the text.
pub broadcast proof fn lemma_stands_last(part: Seq<char>, before: Seq<char>)
    ensures
        #[trigger] stands_in(part, before + part),
{
    let none = Seq::<char>::empty();
    assert(before + part =~= before + part + none);
    lemma_stands(before, part, none);
}

/// One more part at the end.
pub proof fn lemma_flat_last<A>(parts: Seq<Seq<A>>)
    requires
        parts.len() > 0,
    ensures
        parts.flatten() == parts.drop_last().flatten() + parts.last(),
{
    parts.lemma_flatten_and_flatten_alt_are_equivalent();
    parts.drop_last().lemma_flatten_and_flatten_alt_are_equivalent();
}

/// A part in a row stands there, after those before it and before those after it.
pub proof fn lemma_flat_part(parts: Seq<Seq<char>>, i: int)
    requires
        0 <= i < parts.len(),
    ensures
        parts.flatten() == parts.take(i).flatten() + parts[i] + parts.skip(i + 1).flatten(),
        stands_in(parts[i], parts.flatten()),
{
    let (a, b, c) = (parts.take(i), seq![parts[i]], parts.skip(i + 1));
    assert(parts =~= a + b + c);
    vstd::seq_lib::lemma_flatten_concat(a + b, c);
    vstd::seq_lib::lemma_flatten_concat(a, b);
    b.lemma_flatten_one_element();
    assert(b.first() == parts[i]);
    lemma_stands(a.flatten(), parts[i], c.flatten());
}

} // verus!
