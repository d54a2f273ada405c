//! A fixed-width big-endian integer codec with a leading namespace tag.
//!
//! Big-endian fixed-width encoding preserves the numeric order under
//! lexicographic byte order, which is what makes range and last-entry
//! operations on a shared tree correct.

use vstd::prelude::*;

use vstd::arithmetic::div_mod::lemma_fundamental_div_mod;
use vstd::arithmetic::power::pow;

use crate::errors::MetaStorageError;
use crate::order::KeyBound;
use crate::order::byte_in_range;
use crate::order::lemma_lex_first_byte;
use crate::order::lemma_lex_total;
use crate::order::lex_le;
use crate::order::lex_lt;
use vstd::slice::slice_index_get;

verus! {

/// The big-endian bytes of `x`, `n` bytes wide: high bytes first, the last
/// byte is `x % 256`.
pub open spec fn be_bytes(n: nat, x: nat) -> Seq<u8>
    decreases n,
{
    if n == 0 {
        Seq::empty()
    } else {
        be_bytes((n - 1) as nat, x / 256).push((x % 256) as u8)
    }
}

/// The number a big-endian byte string denotes.
pub open spec fn be_val(s: Seq<u8>) -> nat
    decreases s.len(),
{
    if s.len() == 0 {
        0
    } else {
        be_val(s.drop_last()) * 256 + s.last() as nat
    }
}

/// The encoding is `n` bytes wide.
pub proof fn lemma_be_len(n: nat, x: nat)
    ensures
        be_bytes(n, x).len() == n,
    decreases n,
{
    if n > 0 {
        lemma_be_len((n - 1) as nat, x / 256);
    }
}

/// Appending one byte to each of two equally long strings compares first by
/// the strings, then by the appended bytes.
pub proof fn lemma_lex_push(s: Seq<u8>, t: Seq<u8>, a: u8, b: u8)
    requires
        s.len() == t.len(),
    ensures
        lex_lt(s, t) ==> lex_lt(s.push(a), t.push(b)),
        s == t ==> (lex_lt(s.push(a), t.push(b)) <==> a < b),
    decreases s.len(),
{
    let sa = s.push(a);
    let tb = t.push(b);
    if s.len() == 0 {
        assert(s =~= t);
        assert(sa[0] == a);
        assert(tb[0] == b);
        assert(sa.drop_first() =~= Seq::<u8>::empty());
        assert(tb.drop_first() =~= Seq::<u8>::empty());
        assert(!lex_lt(sa.drop_first(), tb.drop_first()));
    } else {
        assert(sa[0] == s[0]);
        assert(tb[0] == t[0]);
        assert(sa.drop_first() =~= s.drop_first().push(a));
        assert(tb.drop_first() =~= t.drop_first().push(b));
        lemma_lex_push(s.drop_first(), t.drop_first(), a, b);
        if s == t {
            assert(s.drop_first() =~= t.drop_first());
            assert(s[0] == t[0]);
        }
    }
}

/// Big-endian encoding of a fixed width preserves the numeric order under
/// lexicographic byte order.
pub proof fn lemma_be_order(n: nat, x: nat, y: nat)
    requires
        x < y,
        y < pow(256, n),
    ensures
        lex_lt(be_bytes(n, x), be_bytes(n, y)),
    decreases n,
{
    reveal(pow);
    if n == 0 {
        assert(pow(256, 0) == 1);
        assert(false);
    }
    assert(pow(256, n) == 256 * pow(256, (n - 1) as nat));
    let p = pow(256, (n - 1) as nat);
    assert(p > 0) by {
        vstd::arithmetic::power::lemma_pow_positive(256, (n - 1) as nat);
    }
    assert(x / 256 <= y / 256 && y / 256 < p) by (nonlinear_arith)
        requires
            x < y,
            y < 256 * p,
            p > 0,
    ;
    lemma_be_len((n - 1) as nat, x / 256);
    lemma_be_len((n - 1) as nat, y / 256);
    lemma_lex_push(
        be_bytes((n - 1) as nat, x / 256),
        be_bytes((n - 1) as nat, y / 256),
        (x % 256) as u8,
        (y % 256) as u8,
    );
    if x / 256 == y / 256 {
        assert(x % 256 < y % 256) by (nonlinear_arith)
            requires
                x < y,
                x / 256 == y / 256,
        ;
    } else {
        lemma_be_order((n - 1) as nat, x / 256, y / 256);
    }
}

/// Decoding inverts encoding.
pub proof fn lemma_be_roundtrip(n: nat, x: nat)
    requires
        x < pow(256, n),
    ensures
        be_val(be_bytes(n, x)) == x,
    decreases n,
{
    reveal(pow);
    if n == 0 {
        assert(pow(256, 0) == 1);
    } else {
        let p = pow(256, (n - 1) as nat);
        assert(pow(256, n) == 256 * p);
        assert(p > 0) by {
            vstd::arithmetic::power::lemma_pow_positive(256, (n - 1) as nat);
        }
        assert(x / 256 < p) by (nonlinear_arith)
            requires
                x < 256 * p,
                p > 0,
        ;
        lemma_be_roundtrip((n - 1) as nat, x / 256);
        lemma_be_len((n - 1) as nat, x / 256);
        assert(be_bytes(n, x).drop_last() =~= be_bytes((n - 1) as nat, x / 256));
        lemma_fundamental_div_mod(x as int, 256);
    }
}

/// Encoding inverts decoding, for strings of the right width.
pub proof fn lemma_val_be(s: Seq<u8>)
    ensures
        be_bytes(s.len(), be_val(s)) == s,
        be_val(s) < pow(256, s.len()),
    decreases s.len(),
{
    reveal(pow);
    if s.len() == 0 {
        assert(pow(256, 0) == 1);
        assert(be_bytes(0, 0) =~= s);
    } else {
        let dl = s.drop_last();
        lemma_val_be(dl);
        let v = be_val(s);
        let p = pow(256, dl.len());
        assert(pow(256, s.len()) == 256 * p);
        assert(v == be_val(dl) * 256 + s.last());
        assert(v / 256 == be_val(dl) && v % 256 == s.last() && v < 256 * p) by (nonlinear_arith)
            requires
                v == be_val(dl) * 256 + s.last(),
                be_val(dl) < p,
                0 <= s.last() < 256,
        ;
        assert(be_bytes(s.len(), v) =~= dl.push((v % 256) as u8));
        assert(dl.push(s.last()) =~= s);
    }
}

/// The width bound of eight big-endian bytes.
pub proof fn lemma_pow256_8()
    ensures
        pow(256, 8) == 0x1_0000_0000_0000_0000,
{
    reveal_with_fuel(pow, 9);
}

/// The serialized form of key `k` in the key space tagged `tag`: the tag
/// byte, then eight big-endian bytes.
pub open spec fn tagged_key(tag: u8, k: u64) -> Seq<u8> {
    seq![tag] + be_bytes(8, k as nat)
}

/// Every tagged key is nine bytes, starts with its tag, and the encoding is
/// an order isomorphism onto its namespace.
pub proof fn lemma_tagged_order(tag: u8, a: u64, b: u64)
    ensures
        tagged_key(tag, a).len() == 9 && tagged_key(tag, a)[0] == tag,
        (a <= b) <==> lex_le(tagged_key(tag, a), tagged_key(tag, b)),
        (a < b) <==> lex_lt(tagged_key(tag, a), tagged_key(tag, b)),
        tagged_key(tag, a) == tagged_key(tag, b) ==> a == b,
{
    lemma_be_len(8, a as nat);
    lemma_be_len(8, b as nat);
    let ta = tagged_key(tag, a);
    let tb = tagged_key(tag, b);
    assert(ta.len() == 9);
    assert(ta[0] == seq![tag][0]);
    assert(tb[0] == seq![tag][0]);
    lemma_pow256_8();
    if a != b {
        if a < b {
            lemma_be_order(8, a as nat, b as nat);
        } else {
            lemma_be_order(8, b as nat, a as nat);
        }
    } else {
        assert(ta =~= tb);
    }
    crate::order::lemma_lex_cons(tag, tag, be_bytes(8, a as nat), be_bytes(8, b as nat));
    crate::order::lemma_lex_cons(tag, tag, be_bytes(8, b as nat), be_bytes(8, a as nat));
    assert(seq![tag] + be_bytes(8, a as nat) =~= ta);
    assert(seq![tag] + be_bytes(8, b as nat) =~= tb);
    lemma_lex_total(ta, tb);
    if ta == tb {
        assert(ta.drop_first() =~= be_bytes(8, a as nat));
        assert(tb.drop_first() =~= be_bytes(8, b as nat));
        lemma_be_roundtrip(8, a as nat);
        lemma_be_roundtrip(8, b as nat);
    }
}

/// Serialize a key for the key space tagged `tag`.
pub fn tagged_serialize(tag: u8, k: u64) -> (r: Vec<u8>)
    ensures
        r@ == tagged_key(tag, k),
{
    let mut r: Vec<u8> = Vec::new();
    r.push(tag);
    let mut rest = be_rec(8, k);
    r.append(&mut rest);
    proof {
        assert(r@ =~= tagged_key(tag, k));
    }
    r
}

/// The big-endian bytes of `x`, `n` bytes wide.
fn be_rec(n: u64, x: u64) -> (r: Vec<u8>)
    requires
        n <= 8,
    ensures
        r@ == be_bytes(n as nat, x as nat),
    decreases n,
{
    if n == 0 {
        Vec::new()
    } else {
        let mut r = be_rec(n - 1, x / 256);
        r.push((x % 256) as u8);
        r
    }
}

/// Deserialize a key of the key space tagged `tag`: the exact inverse of
/// [`tagged_serialize`] on its image, and an error on every other byte
/// string.
pub fn tagged_deserialize(tag: u8, b: &[u8]) -> (r: Result<u64, MetaStorageError>)
    ensures
        r is Ok ==> b@ == tagged_key(tag, r->Ok_0),
        (exists|k: u64| b@ == tagged_key(tag, k)) ==> r is Ok,
        r is Err ==> r->Err_0 is BytesError,
{
    proof {
        if exists|k: u64| b@ == tagged_key(tag, k) {
            let k = choose|k: u64| b@ == tagged_key(tag, k);
            lemma_tagged_order(tag, k, k);
        }
    }
    if b.len() != 9 || *slice_index_get(b, 0) != tag {
        return Err(MetaStorageError::BytesError(String::new()));
    }
    let mut acc: u64 = 0;
    let mut i: usize = 1;
    proof {
        assert(b@.subrange(1, 1) =~= Seq::<u8>::empty());
        lemma_val_be(b@.subrange(1, 1));
    }
    while i < 9
        invariant
            1 <= i <= 9,
            b@.len() == 9,
            acc as nat == be_val(b@.subrange(1, i as int)),
            (acc as nat) < pow(256, (i - 1) as nat),
        decreases 9 - i,
    {
        proof {
            reveal(pow);
            lemma_val_be(b@.subrange(1, i as int));
            lemma_pow256_8();
            assert(pow(256, i as nat) == 256 * pow(256, (i - 1) as nat));
            assert(pow(256, i as nat) <= pow(256, 8)) by {
                vstd::arithmetic::power::lemma_pow_increases(256, i as nat, 8);
            }
            assert(b@.subrange(1, i + 1).drop_last() =~= b@.subrange(1, i as int));
        }
        acc = acc * 256 + (*slice_index_get(b, i)) as u64;
        i = i + 1;
    }
    proof {
        let tail = b@.subrange(1, 9);
        lemma_val_be(tail);
        assert(tagged_key(tag, acc) =~= b@);
    }
    Ok(acc)
}

/// Translate a key range of the space tagged `tag` into a byte range that
/// selects exactly the serialized keys inside it and stays inside the tag's
/// namespace.
pub fn tagged_bounds(tag: u8, lo: &KeyBound<u64>, hi: &KeyBound<u64>) -> (r: (
    KeyBound<Vec<u8>>,
    KeyBound<Vec<u8>>,
))
    ensures
        forall|b: Seq<u8>| #[trigger] byte_in_range(b, r.0, r.1) ==> (b.len() >= 1 && b[0] == tag),
        forall|k: u64|
            ((match *lo {
                KeyBound::Unbounded => true,
                KeyBound::Included(l) => l <= k,
                KeyBound::Excluded(l) => l < k,
            }) && (match *hi {
                KeyBound::Unbounded => true,
                KeyBound::Included(h) => k <= h,
                KeyBound::Excluded(h) => k < h,
            })) <==> #[trigger] byte_in_range(tagged_key(tag, k), r.0, r.1),
{
    let lo_b = match lo {
        KeyBound::Unbounded => KeyBound::Included(tagged_serialize(tag, 0)),
        KeyBound::Included(l) => KeyBound::Included(tagged_serialize(tag, *l)),
        KeyBound::Excluded(l) => KeyBound::Excluded(tagged_serialize(tag, *l)),
    };
    let hi_b = match hi {
        KeyBound::Unbounded => KeyBound::Included(tagged_serialize(tag, 0xFFFF_FFFF_FFFF_FFFF)),
        KeyBound::Included(h) => KeyBound::Included(tagged_serialize(tag, *h)),
        KeyBound::Excluded(h) => KeyBound::Excluded(tagged_serialize(tag, *h)),
    };
    proof {
        let glo = match *lo {
            KeyBound::Unbounded => 0u64,
            KeyBound::Included(l) => l,
            KeyBound::Excluded(l) => l,
        };
        let ghi = match *hi {
            KeyBound::Unbounded => 0xFFFF_FFFF_FFFF_FFFFu64,
            KeyBound::Included(h) => h,
            KeyBound::Excluded(h) => h,
        };
        lemma_tagged_order(tag, glo, ghi);
        assert forall|b: Seq<u8>| byte_in_range(b, lo_b, hi_b) implies (b.len() >= 1 && b[0]
            == tag) by {
            lemma_lex_first_byte(tagged_key(tag, glo), b);
            if b.len() > 0 {
                lemma_lex_first_byte(b, tagged_key(tag, ghi));
            }
        }
        assert forall|k: u64|
            ((match *lo {
                KeyBound::Unbounded => true,
                KeyBound::Included(l) => l <= k,
                KeyBound::Excluded(l) => l < k,
            }) && (match *hi {
                KeyBound::Unbounded => true,
                KeyBound::Included(h) => k <= h,
                KeyBound::Excluded(h) => k < h,
            })) == #[trigger] byte_in_range(tagged_key(tag, k), lo_b, hi_b) by {
            lemma_tagged_order(tag, glo, k);
            lemma_tagged_order(tag, k, ghi);
            lemma_tagged_order(tag, k, k);
        }
    }
    (lo_b, hi_b)
}

} // verus!
