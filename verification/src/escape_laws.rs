//! What holds of text inside markup: it can be read back, part by part.

use crate::render::{escaped, escaped_char};
use crate::text::begins_with;
use vstd::prelude::*;

verus! {

/// `s` with `r` in place of every `p`, read from the left.
pub open spec fn replaced(s: Seq<char>, p: Seq<char>, r: char) -> Seq<char>
    decreases s.len(),
{
    if s.len() == 0 {
        Seq::empty()
    } else if p.len() > 0 && begins_with(s, p) {
        seq![r] + replaced(s.skip(p.len() as int), p, r)
    } else {
        seq![s[0]] + replaced(s.skip(1), p, r)
    }
}

/// What stands for a special character, and the character, in the order in which they are read
/// back: the ampersand comes last, since all of them begin with one.
pub open spec fn stand_in(k: int) -> (Seq<char>, char) {
    if k == 0 {
        ("&lt;"@, '<')
    } else if k == 1 {
        ("&gt;"@, '>')
    } else if k == 2 {
        ("&quot;"@, '"')
    } else if k == 3 {
        ("&#39;"@, '\'')
    } else {
        ("&amp;"@, '&')
    }
}

/// `s` with the first `k` sorts of stand-ins read back.
pub open spec fn read_back(s: Seq<char>, k: int) -> Seq<char>
    decreases k,
{
    if k <= 0 {
        s
    } else {
        replaced(read_back(s, k - 1), stand_in(k - 1).0, stand_in(k - 1).1)
    }
}

/// The text that an escaped text stands for.
pub open spec fn unescaped(s: Seq<char>) -> Seq<char> {
    read_back(s, 5)
}

/// What stands for `c` once the first `k` sorts of stand-ins have been read back.
spec fn at_stage(c: char, k: int) -> Seq<char> {
    if exists|j: int| 0 <= j < k && #[trigger] stand_in(j).1 == c {
        seq![c]
    } else {
        escaped_char(c)
    }
}

/// `s` at a stage of being read back.
spec fn all_at_stage(s: Seq<char>, k: int) -> Seq<char>
    decreases s.len(),
{
    if s.len() == 0 {
        Seq::empty()
    } else {
        at_stage(s[0], k) + all_at_stage(s.skip(1), k)
    }
}

proof fn lemma_replaced_passes(u: Seq<char>, t: Seq<char>, p: Seq<char>, r: char)
    requires
        p.len() > 0,
        p[0] == '&',
        forall|i: int| 0 <= i < u.len() ==> #[trigger] u[i] != '&',
    ensures
        replaced(u + t, p, r) == u + replaced(t, p, r),
    decreases u.len(),
{
    if u.len() == 0 {
        assert(u + t =~= t);
        assert(u + replaced(t, p, r) =~= replaced(t, p, r));
    } else {
        let rest = u.skip(1);
        assert forall|i: int| 0 <= i < rest.len() implies #[trigger] rest[i] != '&' by {
            assert(rest[i] == u[i + 1]);
        }
        lemma_replaced_passes(rest, t, p, r);
        assert((u + t)[0] == u[0]);
        assert((u + t).skip(1) =~= rest + t);
        if begins_with(u + t, p) {
            assert((u + t).take(p.len() as int)[0] == p[0]);
        }
        assert(seq![u[0]] + (rest + replaced(t, p, r)) =~= u + replaced(t, p, r));
    }
}

proof fn lemma_stage(c: char, k: int, t: Seq<char>)
    requires
        0 <= k < 5,
    ensures
        replaced(at_stage(c, k) + t, stand_in(k).0, stand_in(k).1) == at_stage(c, k + 1) + replaced(
            t,
            stand_in(k).0,
            stand_in(k).1,
        ),
{
    reveal_strlit("&amp;");
    reveal_strlit("&lt;");
    reveal_strlit("&gt;");
    reveal_strlit("&quot;");
    reveal_strlit("&#39;");
    let (p, r) = stand_in(k);
    let now = at_stage(c, k);
    let s = now + t;
    assert(stand_in(0).1 == '<' && stand_in(1).1 == '>' && stand_in(2).1 == '"' && stand_in(3).1
        == '\'' && stand_in(4).1 == '&');
    if c == r {
        assert(now == p) by {
            if exists|j: int| 0 <= j < k && #[trigger] stand_in(j).1 == c {
                let j = choose|j: int| 0 <= j < k && #[trigger] stand_in(j).1 == c;
                assert(false);
            }
        }
        assert(s.take(p.len() as int) =~= p);
        assert(s.skip(p.len() as int) =~= t);
        assert(stand_in(k).1 == c);
        assert(at_stage(c, k + 1) == seq![c]);
    } else {
        assert(at_stage(c, k + 1) == now) by {
            if exists|j: int| 0 <= j < k + 1 && #[trigger] stand_in(j).1 == c {
                let j = choose|j: int| 0 <= j < k + 1 && #[trigger] stand_in(j).1 == c;
                assert(j < k);
            }
        }
        if now[0] != '&' {
            assert(now.len() == 1);
            lemma_replaced_passes(now, t, p, r);
        } else {
            assert(now.len() > 1) by {
                if now.len() == 1 {
                    assert(c == '&');
                    let j = choose|j: int| 0 <= j < k && #[trigger] stand_in(j).1 == c;
                    assert(false);
                }
            }
            let rest = now.skip(1);
            assert forall|i: int| 0 <= i < rest.len() implies #[trigger] rest[i] != '&' by {
                assert(rest[i] == now[i + 1]);
            }
            lemma_replaced_passes(rest, t, p, r);
            assert(s[0] == '&');
            assert(s.skip(1) =~= rest + t);
            if begins_with(s, p) {
                let front = s.take(p.len() as int);
                assert(front[1] == s[1] && front[2] == s[2] && s[1] == now[1] && s[2] == now[2]);
                assert(false);
            }
            assert(seq![now[0]] + (rest + replaced(t, p, r)) =~= now + replaced(t, p, r));
        }
    }
}

proof fn lemma_next_stage(s: Seq<char>, k: int)
    requires
        0 <= k < 5,
    ensures
        replaced(all_at_stage(s, k), stand_in(k).0, stand_in(k).1) == all_at_stage(s, k + 1),
    decreases s.len(),
{
    if s.len() > 0 {
        lemma_next_stage(s.skip(1), k);
        lemma_stage(s[0], k, all_at_stage(s.skip(1), k));
    }
}

proof fn lemma_first_stage(s: Seq<char>)
    ensures
        all_at_stage(s, 0) == escaped(s),
    decreases s.len(),
{
    if s.len() > 0 {
        lemma_first_stage(s.skip(1));
        assert(at_stage(s[0], 0) == escaped_char(s[0]));
        let one = seq![s[0]];
        assert(one + s.skip(1) =~= s);
        escaping_goes_part_by_part(one, s.skip(1));
        assert(one.drop_last() =~= Seq::empty());
        assert(escaped(one) =~= escaped_char(s[0])) by {
            assert(escaped(one.drop_last()) =~= Seq::empty());
        }
    }
}

proof fn lemma_last_stage(s: Seq<char>)
    ensures
        all_at_stage(s, 5) == s,
    decreases s.len(),
{
    if s.len() > 0 {
        lemma_last_stage(s.skip(1));
        let c = s[0];
        assert(stand_in(0).1 == '<' && stand_in(1).1 == '>' && stand_in(2).1 == '"' && stand_in(
            3,
        ).1 == '\'' && stand_in(4).1 == '&');
        assert(at_stage(c, 5) == seq![c]);
        assert(seq![c] + s.skip(1) =~= s);
    } else {
        assert(s =~= Seq::empty());
    }
}

/// Escaped text can be read back: with the characters in place of what stands for them, and the
/// ampersand last, it is the text that it was.
pub proof fn escaping_can_be_undone(s: Seq<char>)
    ensures
        unescaped(escaped(s)) == s,
{
    lemma_first_stage(s);
    lemma_last_stage(s);
    let e = escaped(s);
    assert(read_back(e, 0) == all_at_stage(s, 0));
    lemma_next_stage(s, 0);
    assert(read_back(e, 1) == all_at_stage(s, 1));
    lemma_next_stage(s, 1);
    assert(read_back(e, 2) == all_at_stage(s, 2));
    lemma_next_stage(s, 2);
    assert(read_back(e, 3) == all_at_stage(s, 3));
    lemma_next_stage(s, 3);
    assert(read_back(e, 4) == all_at_stage(s, 4));
    lemma_next_stage(s, 4);
}

/// Different texts stay different when they are escaped.
pub proof fn escaping_keeps_texts_apart(s: Seq<char>, t: Seq<char>)
    requires
        escaped(s) == escaped(t),
    ensures
        s == t,
{
    escaping_can_be_undone(s);
    escaping_can_be_undone(t);
}

/// Text can be escaped part by part.
pub proof fn escaping_goes_part_by_part(s: Seq<char>, t: Seq<char>)
    ensures
        escaped(s + t) == escaped(s) + escaped(t),
    decreases t.len(),
{
    if t.len() == 0 {
        assert(s + t =~= s);
        assert(escaped(s) + escaped(t) =~= escaped(s));
    } else {
        escaping_goes_part_by_part(s, t.drop_last());
        assert((s + t).drop_last() =~= s + t.drop_last());
        assert((s + t).last() == t.last());
        assert(escaped(s + t) =~= escaped(s) + escaped(t));
    }
}

/// The characters that do not stand for themselves in markup.
pub open spec fn is_special(c: char) -> bool {
    c == '&' || c == '<' || c == '>' || c == '"' || c == '\''
}

proof fn lemma_escaping_lengthens(s: Seq<char>)
    ensures
        escaped(s).len() >= s.len(),
        (exists|i: int| 0 <= i < s.len() && is_special(#[trigger] s[i])) ==> escaped(s).len()
            > s.len(),
        (forall|i: int| 0 <= i < s.len() ==> !is_special(#[trigger] s[i])) ==> escaped(s) == s,
    decreases s.len(),
{
    reveal_strlit("&amp;");
    reveal_strlit("&lt;");
    reveal_strlit("&gt;");
    reveal_strlit("&quot;");
    reveal_strlit("&#39;");
    if s.len() > 0 {
        let rest = s.drop_last();
        lemma_escaping_lengthens(rest);
        if exists|i: int| 0 <= i < s.len() && is_special(#[trigger] s[i]) {
            let i = choose|i: int| 0 <= i < s.len() && is_special(#[trigger] s[i]);
            if i < rest.len() {
                assert(is_special(rest[i]));
            }
        } else {
            assert forall|i: int| 0 <= i < rest.len() implies !is_special(#[trigger] rest[i]) by {
                assert(rest[i] == s[i]);
            }
            assert(!is_special(s[s.len() - 1]));
            assert(rest + seq![s.last()] =~= s);
        }
    }
}

/// Text is left as it is exactly where it holds no special character.
pub proof fn only_special_characters_are_escaped(s: Seq<char>)
    ensures
        escaped(s) == s <==> forall|i: int| 0 <= i < s.len() ==> !is_special(#[trigger] s[i]),
{
    lemma_escaping_lengthens(s);
}

} // verus!
