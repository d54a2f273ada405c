//! Concrete key-space descriptors.
//!
//! Each space takes a distinct tag byte, so the spaces' byte namespaces are
//! disjoint and many of them can share one physical tree.

use vstd::prelude::*;

use vstd::string::StringSliceAdditionalSpecFns;
use vstd::utf8::encode_utf8;
use vstd::utf8::encode_utf8_valid_utf8;
use vstd::utf8::valid_utf8;

use crate::codec::lemma_tagged_order;
use crate::codec::tagged_bounds;
use crate::codec::tagged_deserialize;
use crate::codec::tagged_key;
use crate::codec::tagged_serialize;
use crate::errors::MetaStorageError;
use crate::keyspace::SledKeySpace;
use crate::keyspace::SledValueToKey;
use crate::order::KeyBound;
use crate::order::byte_in_range;

verus! {

/// Relies on `String::from_utf8`: it succeeds exactly on valid UTF-8 and the
/// returned string's bytes are the input bytes.
#[verifier::external_body]
fn string_from_utf8(b: &[u8]) -> (r: Option<String>)
    ensures
        r is Some <==> valid_utf8(b@),
        r is Some ==> encode_utf8(r->0@) == b@,
{
    match String::from_utf8(b.to_vec()) {
        Ok(s) => Some(s),
        Err(_) => None,
    }
}

/// Serialize a string value as its UTF-8 bytes.
fn string_ser(v: &String) -> (r: Vec<u8>)
    ensures
        r@ == encode_utf8(v@),
{
    vstd::slice::slice_to_vec(v.as_str().as_bytes())
}

/// Deserialize a string value from UTF-8 bytes.
fn string_de(b: &[u8]) -> (r: Result<String, MetaStorageError>)
    ensures
        r is Ok ==> encode_utf8(r->Ok_0@) == b@,
        (exists|v: String| encode_utf8(#[trigger] v@) == b@) ==> r is Ok,
        r is Err ==> r->Err_0 is BytesError,
{
    proof {
        if exists|v: String| encode_utf8(#[trigger] v@) == b@ {
            let v = choose|v: String| encode_utf8(#[trigger] v@) == b@;
            encode_utf8_valid_utf8(v@);
        }
    }
    match string_from_utf8(b) {
        Some(s) => Ok(s),
        None => Err(MetaStorageError::BytesError(String::new())),
    }
}

/// A key space of integer keys and text values, tagged `1`.
pub struct SpaceA;

/// A key space of integer keys and text values, tagged `2`; it can share a
/// tree with [`SpaceA`] because the tags differ.
pub struct SpaceB;

/// A key space whose values embed their own key, tagged `3`.
pub struct SeqValues;

impl SledKeySpace for SpaceA {
    type K = u64;

    type V = String;

    open spec fn spec_key(k: u64) -> Seq<u8> {
        tagged_key(1, k)
    }

    open spec fn spec_value(v: String) -> Seq<u8> {
        encode_utf8(v@)
    }

    open spec fn key_ok(k: u64) -> bool {
        true
    }

    open spec fn value_ok(v: String) -> bool {
        true
    }

    type VView = Seq<char>;

    open spec fn value_view(v: String) -> Seq<char> {
        v@
    }

    proof fn lemma_value_laws(a: String, b: String) {
        if encode_utf8(a@) == encode_utf8(b@) {
            vstd::utf8::encode_utf8_decode_utf8(a@);
            vstd::utf8::encode_utf8_decode_utf8(b@);
        }
    }

    open spec fn key_le(a: u64, b: u64) -> bool {
        a <= b
    }

    open spec fn in_domain(b: Seq<u8>) -> bool {
        b.len() >= 1 && b[0] == 1
    }

    proof fn lemma_key_laws(a: u64, b: u64) {
        lemma_tagged_order(1, a, b);
        lemma_tagged_order(1, b, a);
    }

    fn name() -> &'static str {
        "space-a"
    }

    fn serialize_key(k: &u64) -> (r: Result<Vec<u8>, MetaStorageError>) {
        Ok(tagged_serialize(1, *k))
    }

    fn deserialize_key(b: &[u8]) -> (r: Result<u64, MetaStorageError>) {
        proof {
            if Self::in_space(b@) {
                let k = choose|k: u64| Self::key_ok(k) && #[trigger] Self::spec_key(k) == b@;
                assert(b@ == tagged_key(1, k));
            }
        }
        tagged_deserialize(1, b)
    }

    fn serialize_value(v: &String) -> (r: Result<Vec<u8>, MetaStorageError>) {
        Ok(string_ser(v))
    }

    fn deserialize_value(b: &[u8]) -> (r: Result<String, MetaStorageError>) {
        proof {
            if Self::value_encodable(b@) {
                let v = choose|v: String|
                    Self::value_ok(v) && #[trigger] Self::spec_value(v) == b@;
                assert(encode_utf8(v@) == b@);
            }
        }
        string_de(b)
    }

    fn serialize_bounds(lo: &KeyBound<u64>, hi: &KeyBound<u64>) -> (r: Result<
        (KeyBound<Vec<u8>>, KeyBound<Vec<u8>>),
        MetaStorageError,
    >) {
        let bounds = tagged_bounds(1, lo, hi);
        proof {
            assert forall|b: Seq<u8>|
                byte_in_range(b, bounds.0, bounds.1) implies Self::in_domain(b) by {}
            assert forall|k: u64| #[trigger] Self::key_ok(k) implies (((match *lo {
                KeyBound::Unbounded => true,
                KeyBound::Included(l) => Self::key_le(l, k),
                KeyBound::Excluded(l) => Self::key_le(l, k) && l != k,
            }) && (match *hi {
                KeyBound::Unbounded => true,
                KeyBound::Included(h) => Self::key_le(k, h),
                KeyBound::Excluded(h) => Self::key_le(k, h) && k != h,
            })) <==> byte_in_range(Self::spec_key(k), bounds.0, bounds.1)) by {
                assert(byte_in_range(tagged_key(1, k), bounds.0, bounds.1) == ((match *lo {
                    KeyBound::Unbounded => true,
                    KeyBound::Included(l) => l <= k,
                    KeyBound::Excluded(l) => l < k,
                }) && (match *hi {
                    KeyBound::Unbounded => true,
                    KeyBound::Included(h) => k <= h,
                    KeyBound::Excluded(h) => k < h,
                })));
            }
        }
        Ok(bounds)
    }
}

impl SledKeySpace for SpaceB {
    type K = u64;

    type V = String;

    open spec fn spec_key(k: u64) -> Seq<u8> {
        tagged_key(2, k)
    }

    open spec fn spec_value(v: String) -> Seq<u8> {
        encode_utf8(v@)
    }

    open spec fn key_ok(k: u64) -> bool {
        true
    }

    open spec fn value_ok(v: String) -> bool {
        true
    }

    type VView = Seq<char>;

    open spec fn value_view(v: String) -> Seq<char> {
        v@
    }

    proof fn lemma_value_laws(a: String, b: String) {
        if encode_utf8(a@) == encode_utf8(b@) {
            vstd::utf8::encode_utf8_decode_utf8(a@);
            vstd::utf8::encode_utf8_decode_utf8(b@);
        }
    }

    open spec fn key_le(a: u64, b: u64) -> bool {
        a <= b
    }

    open spec fn in_domain(b: Seq<u8>) -> bool {
        b.len() >= 1 && b[0] == 2
    }

    proof fn lemma_key_laws(a: u64, b: u64) {
        lemma_tagged_order(2, a, b);
        lemma_tagged_order(2, b, a);
    }

    fn name() -> &'static str {
        "space-b"
    }

    fn serialize_key(k: &u64) -> (r: Result<Vec<u8>, MetaStorageError>) {
        Ok(tagged_serialize(2, *k))
    }

    fn deserialize_key(b: &[u8]) -> (r: Result<u64, MetaStorageError>) {
        proof {
            if Self::in_space(b@) {
                let k = choose|k: u64| Self::key_ok(k) && #[trigger] Self::spec_key(k) == b@;
                assert(b@ == tagged_key(2, k));
            }
        }
        tagged_deserialize(2, b)
    }

    fn serialize_value(v: &String) -> (r: Result<Vec<u8>, MetaStorageError>) {
        Ok(string_ser(v))
    }

    fn deserialize_value(b: &[u8]) -> (r: Result<String, MetaStorageError>) {
        proof {
            if Self::value_encodable(b@) {
                let v = choose|v: String|
                    Self::value_ok(v) && #[trigger] Self::spec_value(v) == b@;
                assert(encode_utf8(v@) == b@);
            }
        }
        string_de(b)
    }

    fn serialize_bounds(lo: &KeyBound<u64>, hi: &KeyBound<u64>) -> (r: Result<
        (KeyBound<Vec<u8>>, KeyBound<Vec<u8>>),
        MetaStorageError,
    >) {
        let bounds = tagged_bounds(2, lo, hi);
        proof {
            assert forall|b: Seq<u8>|
                byte_in_range(b, bounds.0, bounds.1) implies Self::in_domain(b) by {}
            assert forall|k: u64| #[trigger] Self::key_ok(k) implies (((match *lo {
                KeyBound::Unbounded => true,
                KeyBound::Included(l) => Self::key_le(l, k),
                KeyBound::Excluded(l) => Self::key_le(l, k) && l != k,
            }) && (match *hi {
                KeyBound::Unbounded => true,
                KeyBound::Included(h) => Self::key_le(k, h),
                KeyBound::Excluded(h) => Self::key_le(k, h) && k != h,
            })) <==> byte_in_range(Self::spec_key(k), bounds.0, bounds.1)) by {
                assert(byte_in_range(tagged_key(2, k), bounds.0, bounds.1) == ((match *lo {
                    KeyBound::Unbounded => true,
                    KeyBound::Included(l) => l <= k,
                    KeyBound::Excluded(l) => l < k,
                }) && (match *hi {
                    KeyBound::Unbounded => true,
                    KeyBound::Included(h) => k <= h,
                    KeyBound::Excluded(h) => k < h,
                })));
            }
        }
        Ok(bounds)
    }
}

impl SledKeySpace for SeqValues {
    type K = u64;

    type V = u64;

    open spec fn spec_key(k: u64) -> Seq<u8> {
        tagged_key(3, k)
    }

    open spec fn spec_value(v: u64) -> Seq<u8> {
        tagged_key(3, v)
    }

    open spec fn key_ok(k: u64) -> bool {
        true
    }

    open spec fn value_ok(v: u64) -> bool {
        true
    }

    type VView = u64;

    open spec fn value_view(v: u64) -> u64 {
        v
    }

    proof fn lemma_value_laws(a: u64, b: u64) {
        lemma_tagged_order(3, a, b);
    }

    open spec fn key_le(a: u64, b: u64) -> bool {
        a <= b
    }

    open spec fn in_domain(b: Seq<u8>) -> bool {
        b.len() >= 1 && b[0] == 3
    }

    proof fn lemma_key_laws(a: u64, b: u64) {
        lemma_tagged_order(3, a, b);
        lemma_tagged_order(3, b, a);
    }

    fn name() -> &'static str {
        "seq-values"
    }

    fn serialize_key(k: &u64) -> (r: Result<Vec<u8>, MetaStorageError>) {
        Ok(tagged_serialize(3, *k))
    }

    fn deserialize_key(b: &[u8]) -> (r: Result<u64, MetaStorageError>) {
        proof {
            if Self::in_space(b@) {
                let k = choose|k: u64| Self::key_ok(k) && #[trigger] Self::spec_key(k) == b@;
                assert(b@ == tagged_key(3, k));
            }
        }
        tagged_deserialize(3, b)
    }

    fn serialize_value(v: &u64) -> (r: Result<Vec<u8>, MetaStorageError>) {
        Ok(tagged_serialize(3, *v))
    }

    fn deserialize_value(b: &[u8]) -> (r: Result<u64, MetaStorageError>) {
        proof {
            if Self::value_encodable(b@) {
                let v = choose|v: u64| Self::value_ok(v) && #[trigger] Self::spec_value(v) == b@;
                assert(b@ == tagged_key(3, v));
            }
        }
        tagged_deserialize(3, b)
    }

    fn serialize_bounds(lo: &KeyBound<u64>, hi: &KeyBound<u64>) -> (r: Result<
        (KeyBound<Vec<u8>>, KeyBound<Vec<u8>>),
        MetaStorageError,
    >) {
        let bounds = tagged_bounds(3, lo, hi);
        proof {
            assert forall|b: Seq<u8>|
                byte_in_range(b, bounds.0, bounds.1) implies Self::in_domain(b) by {}
            assert forall|k: u64| #[trigger] Self::key_ok(k) implies (((match *lo {
                KeyBound::Unbounded => true,
                KeyBound::Included(l) => Self::key_le(l, k),
                KeyBound::Excluded(l) => Self::key_le(l, k) && l != k,
            }) && (match *hi {
                KeyBound::Unbounded => true,
                KeyBound::Included(h) => Self::key_le(k, h),
                KeyBound::Excluded(h) => Self::key_le(k, h) && k != h,
            })) <==> byte_in_range(Self::spec_key(k), bounds.0, bounds.1)) by {
                assert(byte_in_range(tagged_key(3, k), bounds.0, bounds.1) == ((match *lo {
                    KeyBound::Unbounded => true,
                    KeyBound::Included(l) => l <= k,
                    KeyBound::Excluded(l) => l < k,
                }) && (match *hi {
                    KeyBound::Unbounded => true,
                    KeyBound::Included(h) => k <= h,
                    KeyBound::Excluded(h) => k < h,
                })));
            }
        }
        Ok(bounds)
    }
}

/// A sequence-numbered value is its own key.
impl SledValueToKey<u64> for u64 {
    open spec fn spec_to_key(&self) -> u64 {
        *self
    }

    fn to_key(&self) -> (r: u64) {
        *self
    }
}

} // verus!
