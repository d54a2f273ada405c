//! Lexicographic byte order, the order in which the engine keeps its keys,
//! and byte-level range bounds.

use vstd::prelude::*;

verus! {

/// Strict lexicographic order on byte strings: a proper prefix comes first,
/// otherwise the first differing byte decides.
pub open spec fn lex_lt(a: Seq<u8>, b: Seq<u8>) -> bool
    decreases a.len(),
{
    if b.len() == 0 {
        false
    } else if a.len() == 0 {
        true
    } else if a[0] < b[0] {
        true
    } else if a[0] > b[0] {
        false
    } else {
        lex_lt(a.drop_first(), b.drop_first())
    }
}

/// Reflexive lexicographic order on byte strings.
pub open spec fn lex_le(a: Seq<u8>, b: Seq<u8>) -> bool {
    lex_lt(a, b) || a == b
}

/// `p` is a prefix of `b`.
pub open spec fn has_prefix(p: Seq<u8>, b: Seq<u8>) -> bool {
    p.len() <= b.len() && b.subrange(0, p.len() as int) == p
}

/// Lexicographic order is a strict total order: any two byte strings compare
/// one way, the other way, or are equal, and never two of these at once.
pub proof fn lemma_lex_total(a: Seq<u8>, b: Seq<u8>)
    ensures
        lex_lt(a, b) || lex_lt(b, a) || a == b,
        !(lex_lt(a, b) && lex_lt(b, a)),
        lex_lt(a, b) ==> a != b,
    decreases a.len(),
{
    if a.len() == 0 && b.len() == 0 {
        assert(a =~= b);
    } else if a.len() > 0 && b.len() > 0 && a[0] == b[0] {
        lemma_lex_total(a.drop_first(), b.drop_first());
        if a.drop_first() == b.drop_first() {
            assert forall|i: int| 0 <= i < a.len() implies a[i] == b[i] by {
                if i > 0 {
                    assert(a.drop_first()[i - 1] == b.drop_first()[i - 1]);
                }
            }
            assert(a =~= b);
        }
        if a == b {
            assert(a.drop_first() =~= b.drop_first());
        }
    } else {
        if a == b {
            assert(a.len() == b.len());
            if a.len() > 0 {
                assert(a[0] == b[0]);
            }
        }
    }
}

/// A byte string never precedes its own prefix, and anything up from a
/// nonempty string starts at least as high as that string's first byte.
pub proof fn lemma_lex_first_byte(a: Seq<u8>, b: Seq<u8>)
    requires
        lex_le(a, b),
        a.len() > 0,
    ensures
        b.len() > 0,
        a[0] <= b[0],
{
}

/// Prepending one equal byte to both sides does not change the comparison.
pub proof fn lemma_lex_cons(x: u8, y: u8, a: Seq<u8>, b: Seq<u8>)
    ensures
        lex_lt(seq![x] + a, seq![y] + b) == (x < y || (x == y && lex_lt(a, b))),
{
    let sa = seq![x] + a;
    let sb = seq![y] + b;
    assert(sa[0] == x);
    assert(sb[0] == y);
    assert(sa.drop_first() =~= a);
    assert(sb.drop_first() =~= b);
}

/// One end of a key range: the engine iterates byte keys between a lower and
/// an upper `KeyBound`.
pub enum KeyBound<T> {
    Unbounded,
    Included(T),
    Excluded(T),
}

/// The byte string `b` satisfies the lower bound `lo`.
pub open spec fn above_lower(b: Seq<u8>, lo: KeyBound<Vec<u8>>) -> bool {
    match lo {
        KeyBound::Unbounded => true,
        KeyBound::Included(l) => lex_le(l@, b),
        KeyBound::Excluded(l) => lex_lt(l@, b),
    }
}

/// The byte string `b` satisfies the upper bound `hi`.
pub open spec fn below_upper(b: Seq<u8>, hi: KeyBound<Vec<u8>>) -> bool {
    match hi {
        KeyBound::Unbounded => true,
        KeyBound::Included(h) => lex_le(b, h@),
        KeyBound::Excluded(h) => lex_lt(b, h@),
    }
}

/// The byte string `b` lies in the byte range `[lo, hi]`.
pub open spec fn byte_in_range(b: Seq<u8>, lo: KeyBound<Vec<u8>>, hi: KeyBound<Vec<u8>>) -> bool {
    above_lower(b, lo) && below_upper(b, hi)
}

} // verus!
