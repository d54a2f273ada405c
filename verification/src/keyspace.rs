//! Key-space descriptors: the schema that multiplexes typed key-value pairs
//! into one physical tree.

use vstd::prelude::*;

use crate::errors::MetaStorageError;
use crate::order::KeyBound;
use crate::order::byte_in_range;
use crate::order::lex_le;

verus! {

/// A key-space descriptor: a key type, a value type, serializers for both,
/// and the laws that make range and last-entry lookups meaningful.
///
/// The serialized keys of one descriptor must keep the keys' logical order
/// under lexicographic byte order, and must stay inside a byte namespace
/// (`in_domain`) of the descriptor's own, disjoint from every other
/// descriptor sharing the tree.
pub trait SledKeySpace: Sized {
    type K;

    type V;

    /// The serialized form of an admissible key.
    spec fn spec_key(k: Self::K) -> Seq<u8>;

    /// The serialized form of an admissible value.
    spec fn spec_value(v: Self::V) -> Seq<u8>;

    /// Which keys this descriptor can serialize.
    spec fn key_ok(k: Self::K) -> bool;

    /// Which values this descriptor can serialize.
    spec fn value_ok(v: Self::V) -> bool;

    /// What a reader can observe of a value. For an integer value this is the
    /// integer itself; for a text value it is the character sequence, since
    /// that is all the verifier knows of an owned string.
    type VView;

    /// The observable content of a value.
    spec fn value_view(v: Self::V) -> Self::VView;

    /// The logical order on keys.
    spec fn key_le(a: Self::K, b: Self::K) -> bool;

    /// The byte namespace this descriptor's keys live in. Distinct
    /// descriptors sharing one tree must have disjoint namespaces.
    spec fn in_domain(b: Seq<u8>) -> bool;

    /// The byte strings that are the serialization of some admissible key.
    open spec fn in_space(b: Seq<u8>) -> bool {
        exists|k: Self::K| Self::key_ok(k) && #[trigger] Self::spec_key(k) == b
    }

    /// The byte strings that are the serialization of some admissible value.
    open spec fn value_encodable(b: Seq<u8>) -> bool {
        exists|v: Self::V| Self::value_ok(v) && #[trigger] Self::spec_value(v) == b
    }

    /// The value serialization is injective up to the observable content:
    /// two admissible values with the same serialized bytes are observably
    /// equal. With this, reading back an inserted pair yields the inserted
    /// value.
    proof fn lemma_value_laws(a: Self::V, b: Self::V)
        ensures
            Self::value_ok(a) && Self::value_ok(b) && Self::spec_value(a) == Self::spec_value(b)
                ==> Self::value_view(a) == Self::value_view(b),
    ;

    /// The descriptor's laws: serialized keys stay in the namespace, the
    /// serialization preserves the key order, and it is injective.
    proof fn lemma_key_laws(a: Self::K, b: Self::K)
        ensures
            Self::key_ok(a) ==> Self::in_domain(Self::spec_key(a)),
            Self::key_ok(a) && Self::key_ok(b) ==> (Self::key_le(a, b) <==> lex_le(
                Self::spec_key(a),
                Self::spec_key(b),
            )),
            Self::key_ok(a) && Self::key_ok(b) && Self::spec_key(a) == Self::spec_key(b) ==> a
                == b,
    ;

    /// A short identifier used in diagnostics.
    fn name() -> &'static str;

    fn serialize_key(k: &Self::K) -> (r: Result<Vec<u8>, MetaStorageError>)
        ensures
            r is Ok <==> Self::key_ok(*k),
            r is Ok ==> r->Ok_0@ == Self::spec_key(*k),
            r is Err ==> r->Err_0 is BytesError,
    ;

    fn deserialize_key(b: &[u8]) -> (r: Result<Self::K, MetaStorageError>)
        ensures
            r is Ok ==> Self::key_ok(r->Ok_0) && Self::spec_key(r->Ok_0) == b@,
            Self::in_space(b@) ==> r is Ok,
            r is Err ==> r->Err_0 is BytesError,
    ;

    fn serialize_value(v: &Self::V) -> (r: Result<Vec<u8>, MetaStorageError>)
        ensures
            r is Ok <==> Self::value_ok(*v),
            r is Ok ==> r->Ok_0@ == Self::spec_value(*v),
            r is Err ==> r->Err_0 is BytesError,
    ;

    fn deserialize_value(b: &[u8]) -> (r: Result<Self::V, MetaStorageError>)
        ensures
            r is Ok ==> Self::value_ok(r->Ok_0) && Self::spec_value(r->Ok_0) == b@,
            Self::value_encodable(b@) ==> r is Ok,
            r is Err ==> r->Err_0 is BytesError,
    ;

    /// Translate a range over keys into a range over serialized bytes that
    /// selects exactly the serialized admissible keys inside the key range,
    /// and nothing outside this descriptor's namespace.
    fn serialize_bounds(lo: &KeyBound<Self::K>, hi: &KeyBound<Self::K>) -> (r: Result<
        (KeyBound<Vec<u8>>, KeyBound<Vec<u8>>),
        MetaStorageError,
    >)
        ensures
            r is Ok <==> ((match *lo {
                KeyBound::Unbounded => true,
                KeyBound::Included(l) => Self::key_ok(l),
                KeyBound::Excluded(l) => Self::key_ok(l),
            }) && (match *hi {
                KeyBound::Unbounded => true,
                KeyBound::Included(h) => Self::key_ok(h),
                KeyBound::Excluded(h) => Self::key_ok(h),
            })),
            r is Ok ==> (forall|b: Seq<u8>|
                byte_in_range(b, (r->Ok_0).0, (r->Ok_0).1) ==> Self::in_domain(b)),
            r is Ok ==> (forall|k: Self::K|
                #[trigger] Self::key_ok(k) ==> (((match *lo {
                    KeyBound::Unbounded => true,
                    KeyBound::Included(l) => Self::key_le(l, k),
                    KeyBound::Excluded(l) => Self::key_le(l, k) && l != k,
                }) && (match *hi {
                    KeyBound::Unbounded => true,
                    KeyBound::Included(h) => Self::key_le(k, h),
                    KeyBound::Excluded(h) => Self::key_le(k, h) && k != h,
                })) <==> byte_in_range(Self::spec_key(k), (r->Ok_0).0, (r->Ok_0).1))),
            r is Err ==> r->Err_0 is BytesError,
    ;
}

/// A bound is usable when the key it names is admissible.
pub open spec fn bound_ok<KS: SledKeySpace>(b: KeyBound<KS::K>) -> bool {
    match b {
        KeyBound::Unbounded => true,
        KeyBound::Included(k) => KS::key_ok(k),
        KeyBound::Excluded(k) => KS::key_ok(k),
    }
}

/// The key `k` lies in the key range `[lo, hi]` under the descriptor's
/// logical order.
pub open spec fn key_in_range<KS: SledKeySpace>(
    k: KS::K,
    lo: KeyBound<KS::K>,
    hi: KeyBound<KS::K>,
) -> bool {
    (match lo {
        KeyBound::Unbounded => true,
        KeyBound::Included(l) => KS::key_le(l, k),
        KeyBound::Excluded(l) => KS::key_le(l, k) && l != k,
    }) && (match hi {
        KeyBound::Unbounded => true,
        KeyBound::Included(h) => KS::key_le(k, h),
        KeyBound::Excluded(h) => KS::key_le(k, h) && k != h,
    })
}

/// A value type that embeds its own key, so that a batch of values alone can
/// be appended.
pub trait SledValueToKey<K> {
    /// The key embedded in this value.
    spec fn spec_to_key(&self) -> K;

    /// Extract the embedded key.
    fn to_key(&self) -> (r: K)
        ensures
            r == self.spec_to_key(),
    ;
}

} // verus!
