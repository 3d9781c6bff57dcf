//! The order of words: byte strings compared place by place.

use vstd::prelude::*;

verus! {

/// Whether `a` comes strictly before `b`: at the first place where they
/// differ `a` has the smaller byte, or `a` ends there and `b` does not.
pub open spec fn lex_lt(a: Seq<u8>, b: Seq<u8>) -> bool
    decreases a.len(),
{
    if b.len() == 0 {
        false
    } else if a.len() == 0 {
        true
    } else if a[0] != b[0] {
        a[0] < b[0]
    } else {
        lex_lt(a.skip(1), b.skip(1))
    }
}

/// Whether `a` does not come after `b`.
pub open spec fn lex_le(a: Seq<u8>, b: Seq<u8>) -> bool {
    !lex_lt(b, a)
}

/// Nothing comes before itself.
pub proof fn lemma_lex_irreflexive(a: Seq<u8>)
    ensures
        !lex_lt(a, a),
    decreases a.len(),
{
    if a.len() > 0 {
        lemma_lex_irreflexive(a.skip(1));
    }
}

/// Of two words that differ one comes before the other, never both.
pub proof fn lemma_lex_asymmetric(a: Seq<u8>, b: Seq<u8>)
    requires
        lex_lt(a, b),
    ensures
        !lex_lt(b, a),
    decreases a.len(),
{
    if a.len() > 0 && b.len() > 0 && a[0] == b[0] {
        lemma_lex_asymmetric(a.skip(1), b.skip(1));
    }
}

/// From `a <= b` and `b < c` follows `a < c`.
pub proof fn lemma_lex_le_lt(a: Seq<u8>, b: Seq<u8>, c: Seq<u8>)
    requires
        lex_le(a, b),
        lex_lt(b, c),
    ensures
        lex_lt(a, c),
    decreases a.len(),
{
    if a.len() > 0 && b.len() > 0 && c.len() > 0 {
        if a[0] == b[0] && b[0] == c[0] {
            lemma_lex_le_lt(a.skip(1), b.skip(1), c.skip(1));
        }
    }
}

/// From `a < b` and `b <= c` follows `a < c`.
pub proof fn lemma_lex_lt_le(a: Seq<u8>, b: Seq<u8>, c: Seq<u8>)
    requires
        lex_lt(a, b),
        lex_le(b, c),
    ensures
        lex_lt(a, c),
    decreases a.len(),
{
    if a.len() > 0 && b.len() > 0 && c.len() > 0 {
        if a[0] == b[0] && b[0] == c[0] {
            lemma_lex_lt_le(a.skip(1), b.skip(1), c.skip(1));
        }
    }
}

/// From `a <= b` and `b <= c` follows `a <= c`.
pub proof fn lemma_lex_le_le(a: Seq<u8>, b: Seq<u8>, c: Seq<u8>)
    requires
        lex_le(a, b),
        lex_le(b, c),
    ensures
        lex_le(a, c),
{
    if lex_lt(c, a) {
        lemma_lex_lt_le(c, a, b);
    }
}

/// A word does not come before any of its prefixes.
pub proof fn lemma_prefix_le(p: Seq<u8>, x: Seq<u8>)
    requires
        p.is_prefix_of(x),
    ensures
        lex_le(p, x),
    decreases p.len(),
{
    if p.len() > 0 {
        assert(p[0] == x.subrange(0, p.len() as int)[0]);
        assert(p.skip(1) =~= x.skip(1).subrange(0, p.len() - 1));
        lemma_prefix_le(p.skip(1), x.skip(1));
    }
}

/// A word that lies between `p` and a word that begins with `p` begins with
/// `p` itself: the words that begin with `p` stand together in the order.
pub proof fn lemma_prefix_between(p: Seq<u8>, x: Seq<u8>, y: Seq<u8>)
    requires
        lex_le(p, x),
        lex_le(x, y),
        p.is_prefix_of(y),
    ensures
        p.is_prefix_of(x),
    decreases p.len(),
{
    if p.len() == 0 {
        assert(p =~= x.subrange(0, 0));
    } else {
        assert(p[0] == y.subrange(0, p.len() as int)[0]);
        assert(x.len() > 0);
        assert(x[0] == p[0]);
        assert(p.skip(1) =~= y.skip(1).subrange(0, p.len() - 1));
        lemma_prefix_between(p.skip(1), x.skip(1), y.skip(1));
        assert(p.skip(1) =~= x.skip(1).subrange(0, p.len() - 1));
        assert forall|i: int| 0 <= i < p.len() implies p[i] == x[i] by {
            if i > 0 {
                assert(p.skip(1)[i - 1] == x.skip(1).subrange(0, p.len() - 1)[i - 1]);
            }
        }
        assert(p =~= x.subrange(0, p.len() as int));
    }
}

} // verus!
