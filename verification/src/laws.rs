//! The layer's laws, proved over the same models its contracts use.

use vstd::map::*;
use vstd::prelude::*;

use crate::keyspace::SledKeySpace;
use crate::tree::typed_inserts;
use crate::txn::update_fetch_post;

verus! {

/// Round-trip: after a pair of a key space is inserted, a read of its key
/// sees exactly the value that was written. The contents
/// [`crate::tree::SledTree::insert`] leaves behind hold the serialized value
/// under the serialized key, and any value [`crate::tree::SledTree::get`]
/// returns from them — `got` below, with the serialization `get`'s contract
/// gives it — is observably the inserted value.
pub proof fn lemma_insert_get_round_trip<KS: SledKeySpace>(
    m: Map<Seq<u8>, Seq<u8>>,
    k: KS::K,
    v: KS::V,
    got: KS::V,
)
    requires
        KS::value_ok(v),
        KS::value_ok(got),
        KS::spec_value(got) == m.insert(KS::spec_key(k), KS::spec_value(v))[KS::spec_key(k)],
    ensures
        m.insert(KS::spec_key(k), KS::spec_value(v)).contains_key(KS::spec_key(k)),
        m.insert(KS::spec_key(k), KS::spec_value(v))[KS::spec_key(k)] == KS::spec_value(v),
        KS::value_view(got) == KS::value_view(v),
{
    KS::lemma_value_laws(got, v);
}

/// Namespace disjointness: when two key spaces sharing one tree have
/// disjoint byte namespaces, a write through one never changes what the
/// other's reads, ranges, prefix scans or last-entry lookups observe.
pub proof fn lemma_namespace_disjointness<A: SledKeySpace, B: SledKeySpace>(
    m: Map<Seq<u8>, Seq<u8>>,
    ka: A::K,
    kb: B::K,
    vb: B::V,
)
    requires
        forall|b: Seq<u8>| !(#[trigger] A::in_domain(b) && #[trigger] B::in_domain(b)),
        A::key_ok(ka),
        B::key_ok(kb),
    ensures
        A::spec_key(ka) != B::spec_key(kb),
        m.insert(B::spec_key(kb), B::spec_value(vb)).contains_key(A::spec_key(ka))
            == m.contains_key(A::spec_key(ka)),
        m.contains_key(A::spec_key(ka)) ==> m.insert(
            B::spec_key(kb),
            B::spec_value(vb),
        )[A::spec_key(ka)] == m[A::spec_key(ka)],
        m.remove(B::spec_key(kb)).contains_key(A::spec_key(ka)) == m.contains_key(
            A::spec_key(ka),
        ),
{
    A::lemma_key_laws(ka, ka);
    B::lemma_key_laws(kb, kb);
}

/// Batch visibility: after a batch of pairs with pairwise distinct keys is
/// applied, every pair of the batch is visible with the value it carried.
/// [`crate::tree::SledTree::append`] leaves exactly these contents behind.
pub proof fn lemma_append_all_visible<KS: SledKeySpace>(
    m: Map<Seq<u8>, Seq<u8>>,
    kvs: Seq<(KS::K, KS::V)>,
)
    requires
        forall|i: int, j: int|
            0 <= i < j < kvs.len() ==> KS::spec_key((#[trigger] kvs[i]).0) != KS::spec_key(
                (#[trigger] kvs[j]).0,
            ),
    ensures
        forall|i: int|
            0 <= i < kvs.len() ==> typed_inserts::<KS>(m, kvs).contains_key(
                KS::spec_key((#[trigger] kvs[i]).0),
            ) && typed_inserts::<KS>(m, kvs)[KS::spec_key(kvs[i].0)] == KS::spec_value(kvs[i].1),
    decreases kvs.len(),
{
    if kvs.len() > 0 {
        let short = kvs.drop_last();
        assert forall|i: int, j: int| 0 <= i < j < short.len() implies KS::spec_key(
            (#[trigger] short[i]).0,
        ) != KS::spec_key((#[trigger] short[j]).0) by {
            assert(short[i] == kvs[i]);
            assert(short[j] == kvs[j]);
        }
        lemma_append_all_visible::<KS>(m, short);
        assert forall|i: int|
            0 <= i < kvs.len() implies typed_inserts::<KS>(m, kvs).contains_key(
            KS::spec_key((#[trigger] kvs[i]).0),
        ) && typed_inserts::<KS>(m, kvs)[KS::spec_key(kvs[i].0)] == KS::spec_value(
            kvs[i].1,
        ) by {
            if i < kvs.len() - 1 {
                assert(short[i] == kvs[i]);
                assert(KS::spec_key(kvs[i].0) != KS::spec_key(kvs[kvs.len() - 1].0));
            } else {
                assert(kvs[i] == kvs.last());
            }
        }
    }
}

/// Idempotent removal: once a key is removed, it is gone, so a second
/// removal finds nothing and a read returns nothing.
/// [`crate::tree::SledTree::remove`] reports the value present before each
/// call, so the first call reports the stored value and the second reports
/// absence.
pub proof fn lemma_remove_idempotent<KS: SledKeySpace>(m: Map<Seq<u8>, Seq<u8>>, k: KS::K)
    ensures
        !m.remove(KS::spec_key(k)).contains_key(KS::spec_key(k)),
        m.remove(KS::spec_key(k)).remove(KS::spec_key(k)) == m.remove(KS::spec_key(k)),
{
    assert(m.remove(KS::spec_key(k)).remove(KS::spec_key(k)) =~= m.remove(KS::spec_key(k)));
}

/// Update-and-fetch fixpoint: when the update function returns its argument
/// unchanged, the read-modify-write leaves the contents exactly as they
/// were, and its result is the value currently stored.
pub proof fn lemma_update_fetch_identity<KS: SledKeySpace, F: Fn(Option<KS::V>) -> Option<KS::V>>(
    f: F,
    pre: Map<Seq<u8>, Seq<u8>>,
    post: Map<Seq<u8>, Seq<u8>>,
    key: KS::K,
    res: Option<KS::V>,
)
    requires
        update_fetch_post::<KS, F>(f, pre, post, key, res),
        forall|cur: Option<KS::V>, out: Option<KS::V>|
            #[trigger] f.ensures((cur,), out) ==> out == cur,
    ensures
        post == pre,
        res is Some <==> pre.contains_key(KS::spec_key(key)),
        res matches Some(v) ==> KS::spec_value(v) == pre[KS::spec_key(key)],
{
    let cur = choose|cur: Option<KS::V>|
        {
            &&& #[trigger] f.ensures((cur,), res)
            &&& (cur is Some <==> pre.contains_key(KS::spec_key(key)))
            &&& (cur matches Some(cv) ==> KS::value_ok(cv) && KS::spec_value(cv)
                == pre[KS::spec_key(key)])
            &&& (match res {
                Some(nv) => KS::value_ok(nv) && post == pre.insert(
                    KS::spec_key(key),
                    KS::spec_value(nv),
                ),
                None => post == pre.remove(KS::spec_key(key)),
            })
        };
    assert(res == cur);
    match res {
        Some(nv) => {
            assert(pre.insert(KS::spec_key(key), KS::spec_value(nv)) =~= pre);
        },
        None => {
            assert(pre.remove(KS::spec_key(key)) =~= pre);
        },
    }
}

} // verus!
