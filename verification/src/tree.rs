//! The tree handle: one physical `sled` tree, a durability policy, and typed
//! operations parameterized by a key-space descriptor.

use vstd::prelude::*;

use crate::engine;
use crate::engine::tree_contents;
use crate::errors::MetaStorageError;
use crate::keyspace::SledKeySpace;
use crate::keyspace::SledValueToKey;
use crate::keyspace::bound_ok;
use crate::keyspace::key_in_range;
use crate::order::lemma_lex_total;
use crate::order::lex_lt;
use crate::order::has_prefix;
use crate::order::KeyBound;
use crate::order::byte_in_range;
use crate::order::lex_le;

verus! {

/// The exported pair list `s` holds the byte key `b` at some position.
pub open spec fn holds_byte_key(s: Seq<Vec<Vec<u8>>>, b: Seq<u8>) -> bool {
    exists|i: int| 0 <= i < s.len() && (#[trigger] s[i])@[0]@ == b
}

/// The typed sequence `s` holds the key `k` at some position.
pub open spec fn holds_key<KS: SledKeySpace>(s: Seq<(KS::K, KS::V)>, k: KS::K) -> bool {
    exists|i: int| 0 <= i < s.len() && (#[trigger] s[i]).0 == k
}

/// The key sequence `ks` pairs each value of `vs` with its stored key: the
/// keys are strictly ascending, each is admissible, in range and stored with
/// the value at the same position, and every stored in-range key appears.
pub open spec fn keys_pair_values<KS: SledKeySpace>(
    ks: Seq<KS::K>,
    vs: Seq<KS::V>,
    m: Map<Seq<u8>, Seq<u8>>,
    lo: KeyBound<KS::K>,
    hi: KeyBound<KS::K>,
) -> bool {
    &&& ks.len() == vs.len()
    &&& (forall|i: int, j: int|
        0 <= i < j < ks.len() ==> KS::key_le(#[trigger] ks[i], #[trigger] ks[j]) && ks[i] != ks[j])
    &&& (forall|i: int|
        0 <= i < ks.len() ==> KS::key_ok(#[trigger] ks[i]) && key_in_range::<KS>(ks[i], lo, hi)
            && m.contains_key(KS::spec_key(ks[i])) && KS::value_ok(vs[i]) && KS::spec_value(vs[i])
            == m[KS::spec_key(ks[i])])
    &&& (forall|k: KS::K|
        #[trigger] KS::key_ok(k) && key_in_range::<KS>(k, lo, hi) && m.contains_key(
            KS::spec_key(k),
        ) ==> holds_key_of::<KS>(ks, k))
}

/// The values `vs` are exactly the values of this key space's stored keys in
/// the range, in ascending key order.
pub open spec fn values_of_range<KS: SledKeySpace>(
    vs: Seq<KS::V>,
    m: Map<Seq<u8>, Seq<u8>>,
    lo: KeyBound<KS::K>,
    hi: KeyBound<KS::K>,
) -> bool {
    exists|ks: Seq<KS::K>| #[trigger] keys_pair_values::<KS>(ks, vs, m, lo, hi)
}

/// The key sequence `s` holds the key `k` at some position.
pub open spec fn holds_key_of<KS: SledKeySpace>(s: Seq<KS::K>, k: KS::K) -> bool {
    exists|i: int| 0 <= i < s.len() && s[i] == k
}

/// The typed pairs that a value-only batch stands for: each value under the
/// key it embeds.
pub open spec fn pairs_of_values<KS: SledKeySpace>(vs: Seq<KS::V>) -> Seq<(KS::K, KS::V)> where
    KS::V: SledValueToKey<KS::K>
 {
    vs.map_values(|v: KS::V| (v.spec_to_key(), v))
}

/// The contents after every typed pair is inserted in order; a later pair
/// with the same key wins.
pub open spec fn typed_inserts<KS: SledKeySpace>(
    m: Map<Seq<u8>, Seq<u8>>,
    kvs: Seq<(KS::K, KS::V)>,
) -> Map<Seq<u8>, Seq<u8>>
    decreases kvs.len(),
{
    if kvs.len() == 0 {
        m
    } else {
        typed_inserts::<KS>(m, kvs.drop_last()).insert(
            KS::spec_key(kvs.last().0),
            KS::spec_value(kvs.last().1),
        )
    }
}

/// A byte-level write sequence that serializes a typed pair sequence applies
/// to the same contents.
proof fn lemma_writes_match_typed<KS: SledKeySpace>(
    m: Map<Seq<u8>, Seq<u8>>,
    ops: Seq<(Vec<u8>, Option<Vec<u8>>)>,
    kvs: Seq<(KS::K, KS::V)>,
)
    requires
        ops.len() == kvs.len(),
        forall|t: int|
            0 <= t < ops.len() ==> (#[trigger] ops[t]).0@ == KS::spec_key(kvs[t].0) && ops[t].1
                is Some && ops[t].1->0@ == KS::spec_value(kvs[t].1),
    ensures
        engine::apply_writes(m, ops) == typed_inserts::<KS>(m, kvs),
    decreases ops.len(),
{
    if ops.len() > 0 {
        assert forall|t: int| 0 <= t < ops.drop_last().len() implies (#[trigger] ops.drop_last()[
            t
        ]).0@ == KS::spec_key(kvs.drop_last()[t].0) && ops.drop_last()[t].1 is Some
            && ops.drop_last()[t].1->0@ == KS::spec_value(kvs.drop_last()[t].1) by {
            assert(ops.drop_last()[t] == ops[t]);
            assert(kvs.drop_last()[t] == kvs[t]);
        }
        lemma_writes_match_typed::<KS>(m, ops.drop_last(), kvs.drop_last());
        assert(ops[ops.len() - 1] == ops.last());
        assert(kvs[kvs.len() - 1] == kvs.last());
    }
}

/// A handle to one physical tree of the engine.
///
/// `sync` is the durability policy: when it is false, every flush request is
/// suppressed, so tests run fast; when it is true, flush requests are honored.
/// The flag never suppresses errors, only flushes.
pub struct SledTree {
    pub name: String,
    pub sync: bool,
    pub tree: sled::Tree,
}

impl SledTree {
    /// The committed contents of the physical tree, as a map from byte keys
    /// to byte values.
    pub open spec fn kvs(self) -> Map<Seq<u8>, Seq<u8>> {
        tree_contents(self.tree)
    }

    /// The durability policy this handle was opened with.
    pub open spec fn spec_sync(self) -> bool {
        self.sync
    }

    /// Open the named tree of the engine database.
    pub fn open(db: &sled::Db, tree_name: &str, sync: bool) -> (r: Result<
        SledTree,
        MetaStorageError,
    >)
        ensures
            r is Ok ==> (r->Ok_0).name@ == tree_name@ && (r->Ok_0).spec_sync() == sync,
            r is Err ==> r->Err_0 is SledError,
    {
        let t = engine::open_tree_raw(db, tree_name)?;
        Ok(SledTree { name: tree_name.to_owned(), sync, tree: t })
    }

    /// Request a flush when the caller asked for one and the policy honors
    /// it.
    fn flush_sync(&self, flush: bool) -> (r: Result<(), MetaStorageError>)
        ensures
            r is Err ==> r->Err_0 is SledError,
    {
        if flush && self.sync {
            engine::flush_raw(&self.tree, self.name.as_str(), "flush sled-tree")
        } else {
            Ok(())
        }
    }

    /// Retrieve the value of a key.
    pub fn get<KS: SledKeySpace>(&self, key: &KS::K) -> (r: Result<
        Option<KS::V>,
        MetaStorageError,
    >)
        ensures
            r is Ok ==> (r->Ok_0 is Some <==> self.kvs().contains_key(KS::spec_key(*key))),
            r is Ok ==> (r->Ok_0 matches Some(v) ==> KS::value_ok(v) && KS::spec_value(v)
                == self.kvs()[KS::spec_key(*key)]),
            !KS::key_ok(*key) ==> r is Err && r->Err_0 is BytesError,
            r is Err ==> (r->Err_0 is BytesError || r->Err_0 is SledError),
    {
        let k = KS::serialize_key(key)?;
        let got = engine::get_raw(&self.tree, &k, self.name.as_str(), KS::name(), "get")?;
        match got {
            None => Ok(None),
            Some(bytes) => Ok(Some(KS::deserialize_value(bytes.as_slice())?)),
        }
    }

    /// Insert a single pair, returning the value previously under the key.
    /// Flushes if the policy honors it.
    pub fn insert<KS: SledKeySpace>(&mut self, key: &KS::K, value: &KS::V) -> (r: Result<
        Option<KS::V>,
        MetaStorageError,
    >)
        ensures
            r is Ok ==> final(self).kvs() == old(self).kvs().insert(
                KS::spec_key(*key),
                KS::spec_value(*value),
            ),
            r is Ok ==> (r->Ok_0 is Some <==> old(self).kvs().contains_key(KS::spec_key(*key))),
            r is Ok ==> (r->Ok_0 matches Some(pv) ==> KS::value_ok(pv) && KS::spec_value(pv)
                == old(self).kvs()[KS::spec_key(*key)]),
            !(KS::key_ok(*key) && KS::value_ok(*value)) ==> r is Err && r->Err_0 is BytesError
                && final(self).kvs() == old(self).kvs(),
            r is Err ==> (r->Err_0 is BytesError || r->Err_0 is SledError),
            r is Err ==> (final(self).kvs() == old(self).kvs() || final(self).kvs() == old(self).kvs().insert(KS::spec_key(*key), KS::spec_value(*value))),
            final(self).name == old(self).name && final(self).spec_sync() == old(self).spec_sync(),
    {
        let k = KS::serialize_key(key)?;
        let v = KS::serialize_value(value)?;
        let prev = engine::insert_raw(&mut self.tree, &k, &v, self.name.as_str(), KS::name(), "insert_value")?;
        let res = match prev {
            None => None,
            Some(p) => Some(KS::deserialize_value(p.as_slice())?),
        };
        self.flush_sync(true)?;
        Ok(res)
    }

    /// Remove a key, returning the value it held. Flushes if asked to and the
    /// policy honors it.
    pub fn remove<KS: SledKeySpace>(&mut self, key: &KS::K, flush: bool) -> (r: Result<
        Option<KS::V>,
        MetaStorageError,
    >)
        ensures
            r is Ok ==> final(self).kvs() == old(self).kvs().remove(KS::spec_key(*key)),
            r is Ok ==> (r->Ok_0 is Some <==> old(self).kvs().contains_key(KS::spec_key(*key))),
            r is Ok ==> (r->Ok_0 matches Some(pv) ==> KS::value_ok(pv) && KS::spec_value(pv)
                == old(self).kvs()[KS::spec_key(*key)]),
            !KS::key_ok(*key) ==> r is Err && r->Err_0 is BytesError && final(self).kvs() == old(self).kvs(),
            r is Err ==> (r->Err_0 is BytesError || r->Err_0 is SledError),
            r is Err ==> (final(self).kvs() == old(self).kvs() || final(self).kvs() == old(self).kvs().remove(KS::spec_key(*key))),
            final(self).name == old(self).name && final(self).spec_sync() == old(self).spec_sync(),
    {
        let k = KS::serialize_key(key)?;
        let prev = engine::remove_raw(&mut self.tree, &k, self.name.as_str(), KS::name(), "remove")?;
        let res = match prev {
            None => None,
            Some(p) => Some(KS::deserialize_value(p.as_slice())?),
        };
        self.flush_sync(flush)?;
        Ok(res)
    }

    /// Retrieve every pair of this key space whose key lies in the range, in
    /// ascending key order.
    #[verifier::loop_isolation(false)]
    pub fn range_kvs<KS: SledKeySpace>(&self, lo: &KeyBound<KS::K>, hi: &KeyBound<KS::K>) -> (r:
        Result<Vec<(KS::K, KS::V)>, MetaStorageError>)
        ensures
            r is Ok ==> (forall|i: int, j: int|
                0 <= i < j < r->Ok_0@.len() ==> KS::key_le(
                    (#[trigger] r->Ok_0@[i]).0,
                    (#[trigger] r->Ok_0@[j]).0,
                ) && r->Ok_0@[i].0 != r->Ok_0@[j].0),
            r is Ok ==> (forall|i: int|
                0 <= i < r->Ok_0@.len() ==> KS::key_ok((#[trigger] r->Ok_0@[i]).0)
                    && key_in_range::<KS>(r->Ok_0@[i].0, *lo, *hi) && self.kvs().contains_key(
                    KS::spec_key(r->Ok_0@[i].0),
                ) && KS::value_ok(r->Ok_0@[i].1) && KS::spec_value(r->Ok_0@[i].1)
                    == self.kvs()[KS::spec_key(r->Ok_0@[i].0)]),
            r is Ok ==> (forall|k: KS::K|
                #[trigger] KS::key_ok(k) && key_in_range::<KS>(k, *lo, *hi)
                    && self.kvs().contains_key(KS::spec_key(k)) ==> holds_key::<KS>(
                    r->Ok_0@,
                    k,
                )),
            !(bound_ok::<KS>(*lo) && bound_ok::<KS>(*hi)) ==> r is Err && r->Err_0 is BytesError,
            r is Err ==> (r->Err_0 is BytesError || r->Err_0 is SledError),
    {
        let (blo, bhi) = KS::serialize_bounds(lo, hi)?;
        let pairs = engine::range_pairs_raw(&self.tree, &blo, &bhi, self.name.as_str(), KS::name(), "range_get")?;
        let mut res: Vec<(KS::K, KS::V)> = Vec::new();
        let mut idx: usize = 0;
        while idx < pairs.len()
            invariant
                idx <= pairs@.len(),
                res@.len() == idx as int,
                forall|t: int|
                    0 <= t < idx ==> KS::key_ok((#[trigger] res@[t]).0) && KS::spec_key(res@[t].0)
                        == pairs@[t].0@ && KS::value_ok(res@[t].1) && KS::spec_value(res@[t].1)
                        == pairs@[t].1@,
            decreases pairs@.len() - idx,
        {
            let k = KS::deserialize_key(pairs[idx].0.as_slice())?;
            let v = KS::deserialize_value(pairs[idx].1.as_slice())?;
            res.push((k, v));
            idx = idx + 1;
        }
        proof {
            assert forall|i: int, j: int| 0 <= i < j < res@.len() implies KS::key_le(
                (#[trigger] res@[i]).0,
                (#[trigger] res@[j]).0,
            ) && res@[i].0 != res@[j].0 by {
                lemma_lex_total(pairs@[i].0@, pairs@[j].0@);
                KS::lemma_key_laws(res@[i].0, res@[j].0);
            }
            assert forall|i: int| 0 <= i < res@.len() implies KS::key_ok((#[trigger] res@[i]).0)
                && key_in_range::<KS>(res@[i].0, *lo, *hi) && self.kvs().contains_key(
                KS::spec_key(res@[i].0),
            ) && KS::value_ok(res@[i].1) && KS::spec_value(res@[i].1) == self.kvs()[KS::spec_key(
                res@[i].0,
            )] by {
                assert(byte_in_range(pairs@[i].0@, blo, bhi));
            }
            assert forall|k: KS::K|
                #[trigger] KS::key_ok(k) && key_in_range::<KS>(k, *lo, *hi)
                    && self.kvs().contains_key(KS::spec_key(k)) implies holds_key::<KS>(
                res@,
                k,
            ) by {
                assert(byte_in_range(KS::spec_key(k), blo, bhi));
                let i = choose|i: int|
                    0 <= i < pairs@.len() && #[trigger] pairs@[i].0@ == KS::spec_key(k);
                KS::lemma_key_laws(res@[i].0, k);
                assert(res@[i].0 == k);
            }
        }
        Ok(res)
    }

    /// Retrieve every key of this key space in the range, in ascending key
    /// order.
    #[verifier::loop_isolation(false)]
    pub fn range_keys<KS: SledKeySpace>(&self, lo: &KeyBound<KS::K>, hi: &KeyBound<KS::K>) -> (r:
        Result<Vec<KS::K>, MetaStorageError>)
        ensures
            r is Ok ==> (forall|i: int, j: int|
                0 <= i < j < r->Ok_0@.len() ==> KS::key_le(
                    #[trigger] r->Ok_0@[i],
                    #[trigger] r->Ok_0@[j],
                ) && r->Ok_0@[i] != r->Ok_0@[j]),
            r is Ok ==> (forall|i: int|
                0 <= i < r->Ok_0@.len() ==> KS::key_ok(#[trigger] r->Ok_0@[i]) && key_in_range::<
                    KS,
                >(r->Ok_0@[i], *lo, *hi) && self.kvs().contains_key(KS::spec_key(r->Ok_0@[i]))),
            r is Ok ==> (forall|k: KS::K|
                #[trigger] KS::key_ok(k) && key_in_range::<KS>(k, *lo, *hi)
                    && self.kvs().contains_key(KS::spec_key(k)) ==> holds_key_of::<KS>(
                    r->Ok_0@,
                    k,
                )),
            !(bound_ok::<KS>(*lo) && bound_ok::<KS>(*hi)) ==> r is Err && r->Err_0 is BytesError,
            r is Err ==> (r->Err_0 is BytesError || r->Err_0 is SledError),
    {
        let (blo, bhi) = KS::serialize_bounds(lo, hi)?;
        let pairs = engine::range_pairs_raw(&self.tree, &blo, &bhi, self.name.as_str(), KS::name(), "range_get")?;
        let mut res: Vec<KS::K> = Vec::new();
        let mut idx: usize = 0;
        while idx < pairs.len()
            invariant
                idx <= pairs@.len(),
                res@.len() == idx as int,
                forall|t: int|
                    0 <= t < idx ==> KS::key_ok(#[trigger] res@[t]) && KS::spec_key(res@[t])
                        == pairs@[t].0@,
            decreases pairs@.len() - idx,
        {
            let k = KS::deserialize_key(pairs[idx].0.as_slice())?;
            res.push(k);
            idx = idx + 1;
        }
        proof {
            assert forall|i: int, j: int| 0 <= i < j < res@.len() implies KS::key_le(
                #[trigger] res@[i],
                #[trigger] res@[j],
            ) && res@[i] != res@[j] by {
                lemma_lex_total(pairs@[i].0@, pairs@[j].0@);
                KS::lemma_key_laws(res@[i], res@[j]);
            }
            assert forall|i: int| 0 <= i < res@.len() implies KS::key_ok(#[trigger] res@[i])
                && key_in_range::<KS>(res@[i], *lo, *hi) && self.kvs().contains_key(
                KS::spec_key(res@[i]),
            ) by {
                assert(byte_in_range(pairs@[i].0@, blo, bhi));
            }
            assert forall|k: KS::K|
                #[trigger] KS::key_ok(k) && key_in_range::<KS>(k, *lo, *hi)
                    && self.kvs().contains_key(KS::spec_key(k)) implies holds_key_of::<KS>(
                res@,
                k,
            ) by {
                assert(byte_in_range(KS::spec_key(k), blo, bhi));
                let i = choose|i: int|
                    0 <= i < pairs@.len() && #[trigger] pairs@[i].0@ == KS::spec_key(k);
                KS::lemma_key_laws(res@[i], k);
                assert(res@[i] == k);
            }
        }
        Ok(res)
    }

    /// Retrieve every value of this key space whose key lies in the range,
    /// in ascending key order: exactly the values of `range_kvs`, in the same
    /// order.
    #[verifier::loop_isolation(false)]
    pub fn range_values<KS: SledKeySpace>(&self, lo: &KeyBound<KS::K>, hi: &KeyBound<KS::K>) -> (r:
        Result<Vec<KS::V>, MetaStorageError>)
        ensures
            r is Ok ==> values_of_range::<KS>(r->Ok_0@, self.kvs(), *lo, *hi),
            !(bound_ok::<KS>(*lo) && bound_ok::<KS>(*hi)) ==> r is Err && r->Err_0 is BytesError,
            r is Err ==> (r->Err_0 is BytesError || r->Err_0 is SledError),
    {
        let (blo, bhi) = KS::serialize_bounds(lo, hi)?;
        let pairs = engine::range_pairs_raw(
            &self.tree,
            &blo,
            &bhi,
            self.name.as_str(),
            KS::name(),
            "range_get",
        )?;
        let mut res: Vec<KS::V> = Vec::new();
        let ghost mut gkeys: Seq<KS::K> = Seq::empty();
        let mut idx: usize = 0;
        while idx < pairs.len()
            invariant
                idx <= pairs@.len(),
                res@.len() == idx as int,
                gkeys.len() == idx as int,
                forall|t: int|
                    0 <= t < idx ==> KS::key_ok(#[trigger] gkeys[t]) && KS::spec_key(gkeys[t])
                        == pairs@[t].0@ && KS::value_ok(res@[t]) && KS::spec_value(res@[t])
                        == pairs@[t].1@,
            decreases pairs@.len() - idx,
        {
            let k = KS::deserialize_key(pairs[idx].0.as_slice())?;
            let v = KS::deserialize_value(pairs[idx].1.as_slice())?;
            let ghost gv = v;
            res.push(v);
            proof {
                gkeys = gkeys.push(k);
                assert(gkeys[idx as int] == k);
                assert(res@[idx as int] == gv);
                assert(KS::key_ok(gkeys[idx as int]));
                assert(KS::spec_key(gkeys[idx as int]) == pairs@[idx as int].0@);
                assert(KS::value_ok(res@[idx as int]));
                assert(KS::spec_value(res@[idx as int]) == pairs@[idx as int].1@);
                assert forall|t: int| 0 <= t < idx + 1 implies KS::key_ok(#[trigger] gkeys[t])
                    && KS::spec_key(gkeys[t]) == pairs@[t].0@ && KS::value_ok(res@[t])
                    && KS::spec_value(res@[t]) == pairs@[t].1@ by {
                    if t < idx {
                        assert(gkeys[t] == gkeys.drop_last()[t]);
                    }
                }
            }
            idx = idx + 1;
        }
        proof {
            assert forall|i: int, j: int| 0 <= i < j < gkeys.len() implies KS::key_le(
                #[trigger] gkeys[i],
                #[trigger] gkeys[j],
            ) && gkeys[i] != gkeys[j] by {
                lemma_lex_total(pairs@[i].0@, pairs@[j].0@);
                KS::lemma_key_laws(gkeys[i], gkeys[j]);
            }
            assert forall|i: int| 0 <= i < gkeys.len() implies KS::key_ok(#[trigger] gkeys[i])
                && key_in_range::<KS>(gkeys[i], *lo, *hi) && self.kvs().contains_key(
                KS::spec_key(gkeys[i]),
            ) && KS::value_ok(res@[i]) && KS::spec_value(res@[i]) == self.kvs()[KS::spec_key(
                gkeys[i],
            )] by {
                assert(byte_in_range(pairs@[i].0@, blo, bhi));
            }
            assert forall|k: KS::K|
                #[trigger] KS::key_ok(k) && key_in_range::<KS>(k, *lo, *hi)
                    && self.kvs().contains_key(KS::spec_key(k)) implies holds_key_of::<KS>(
                gkeys,
                k,
            ) by {
                assert(byte_in_range(KS::spec_key(k), blo, bhi));
                let i = choose|i: int|
                    0 <= i < pairs@.len() && #[trigger] pairs@[i].0@ == KS::spec_key(k);
                KS::lemma_key_laws(gkeys[i], k);
                assert(gkeys[i] == k);
            }
            assert(keys_pair_values::<KS>(gkeys, res@, self.kvs(), *lo, *hi));
        }
        Ok(res)
    }

    /// Retrieve the pairs of this key space in the range, in ascending key
    /// order, as one finite sequence; it can be walked in either direction.
    pub fn range<KS: SledKeySpace>(&self, lo: &KeyBound<KS::K>, hi: &KeyBound<KS::K>) -> (r:
        Result<Vec<(KS::K, KS::V)>, MetaStorageError>)
        ensures
            r is Ok ==> (forall|i: int, j: int|
                0 <= i < j < r->Ok_0@.len() ==> KS::key_le(
                    (#[trigger] r->Ok_0@[i]).0,
                    (#[trigger] r->Ok_0@[j]).0,
                ) && r->Ok_0@[i].0 != r->Ok_0@[j].0),
            r is Ok ==> (forall|i: int|
                0 <= i < r->Ok_0@.len() ==> KS::key_ok((#[trigger] r->Ok_0@[i]).0)
                    && key_in_range::<KS>(r->Ok_0@[i].0, *lo, *hi) && self.kvs().contains_key(
                    KS::spec_key(r->Ok_0@[i].0),
                ) && KS::value_ok(r->Ok_0@[i].1) && KS::spec_value(r->Ok_0@[i].1)
                    == self.kvs()[KS::spec_key(r->Ok_0@[i].0)]),
            r is Ok ==> (forall|k: KS::K|
                #[trigger] KS::key_ok(k) && key_in_range::<KS>(k, *lo, *hi)
                    && self.kvs().contains_key(KS::spec_key(k)) ==> holds_key::<KS>(
                    r->Ok_0@,
                    k,
                )),
            !(bound_ok::<KS>(*lo) && bound_ok::<KS>(*hi)) ==> r is Err && r->Err_0 is BytesError,
            r is Err ==> (r->Err_0 is BytesError || r->Err_0 is SledError),
    {
        self.range_kvs::<KS>(lo, hi)
    }

    /// Retrieve every pair of this key space whose serialized key starts with
    /// the serialized prefix key, in ascending key order.
    #[verifier::loop_isolation(false)]
    pub fn scan_prefix<KS: SledKeySpace>(&self, prefix: &KS::K) -> (r: Result<
        Vec<(KS::K, KS::V)>,
        MetaStorageError,
    >)
        ensures
            r is Ok ==> (forall|i: int, j: int|
                0 <= i < j < r->Ok_0@.len() ==> KS::key_le(
                    (#[trigger] r->Ok_0@[i]).0,
                    (#[trigger] r->Ok_0@[j]).0,
                ) && r->Ok_0@[i].0 != r->Ok_0@[j].0),
            r is Ok ==> (forall|i: int|
                0 <= i < r->Ok_0@.len() ==> KS::key_ok((#[trigger] r->Ok_0@[i]).0) && has_prefix(
                    KS::spec_key(*prefix),
                    KS::spec_key(r->Ok_0@[i].0),
                ) && self.kvs().contains_key(KS::spec_key(r->Ok_0@[i].0)) && KS::value_ok(
                    r->Ok_0@[i].1,
                ) && KS::spec_value(r->Ok_0@[i].1) == self.kvs()[KS::spec_key(r->Ok_0@[i].0)]),
            r is Ok ==> (forall|k: KS::K|
                #[trigger] KS::key_ok(k) && has_prefix(KS::spec_key(*prefix), KS::spec_key(k))
                    && self.kvs().contains_key(KS::spec_key(k)) ==> holds_key::<KS>(
                    r->Ok_0@,
                    k,
                )),
            !KS::key_ok(*prefix) ==> r is Err && r->Err_0 is BytesError,
            r is Err ==> (r->Err_0 is BytesError || r->Err_0 is SledError),
    {
        let p = KS::serialize_key(prefix)?;
        let pairs = engine::scan_prefix_raw(&self.tree, &p, self.name.as_str(), KS::name(), "scan_prefix")?;
        let mut res: Vec<(KS::K, KS::V)> = Vec::new();
        let mut idx: usize = 0;
        while idx < pairs.len()
            invariant
                idx <= pairs@.len(),
                res@.len() == idx as int,
                forall|t: int|
                    0 <= t < idx ==> KS::key_ok((#[trigger] res@[t]).0) && KS::spec_key(res@[t].0)
                        == pairs@[t].0@ && KS::value_ok(res@[t].1) && KS::spec_value(res@[t].1)
                        == pairs@[t].1@,
            decreases pairs@.len() - idx,
        {
            let k = KS::deserialize_key(pairs[idx].0.as_slice())?;
            let v = KS::deserialize_value(pairs[idx].1.as_slice())?;
            res.push((k, v));
            idx = idx + 1;
        }
        proof {
            assert forall|i: int, j: int| 0 <= i < j < res@.len() implies KS::key_le(
                (#[trigger] res@[i]).0,
                (#[trigger] res@[j]).0,
            ) && res@[i].0 != res@[j].0 by {
                lemma_lex_total(pairs@[i].0@, pairs@[j].0@);
                KS::lemma_key_laws(res@[i].0, res@[j].0);
            }
            assert forall|k: KS::K|
                #[trigger] KS::key_ok(k) && has_prefix(KS::spec_key(*prefix), KS::spec_key(k))
                    && self.kvs().contains_key(KS::spec_key(k)) implies holds_key::<KS>(
                res@,
                k,
            ) by {
                let i = choose|i: int|
                    0 <= i < pairs@.len() && #[trigger] pairs@[i].0@ == KS::spec_key(k);
                KS::lemma_key_laws(res@[i].0, k);
                assert(res@[i].0 == k);
            }
        }
        Ok(res)
    }

    /// Remove every pair of this key space whose key lies in the range, as
    /// one atomic batch. Flushes if asked to and the policy honors it.
    #[verifier::loop_isolation(false)]
    pub fn range_remove<KS: SledKeySpace>(
        &mut self,
        lo: &KeyBound<KS::K>,
        hi: &KeyBound<KS::K>,
        flush: bool,
    ) -> (r: Result<(), MetaStorageError>)
        ensures
            r is Ok ==> (forall|k: KS::K|
                #[trigger] KS::key_ok(k) && key_in_range::<KS>(k, *lo, *hi) ==> !final(self).kvs().contains_key(KS::spec_key(k))),
            r is Ok ==> (forall|k: KS::K|
                #[trigger] KS::key_ok(k) && !key_in_range::<KS>(k, *lo, *hi) ==> (final(self).kvs().contains_key(KS::spec_key(k)) == old(self).kvs().contains_key(
                    KS::spec_key(k),
                ) && (old(self).kvs().contains_key(KS::spec_key(k)) ==> final(self).kvs()[KS::spec_key(k)] == old(self).kvs()[KS::spec_key(k)]))),
            r is Ok ==> (forall|b: Seq<u8>|
                !KS::in_domain(b) ==> (final(self).kvs().contains_key(b) == old(self).kvs().contains_key(b) && (old(self).kvs().contains_key(b) ==> final(self).kvs()[b] == old(self).kvs()[b]))),
            !(bound_ok::<KS>(*lo) && bound_ok::<KS>(*hi)) ==> r is Err && r->Err_0 is BytesError
                && final(self).kvs() == old(self).kvs(),
            r is Err ==> (r->Err_0 is BytesError || r->Err_0 is SledError),
            final(self).name == old(self).name && final(self).spec_sync() == old(self).spec_sync(),
    {
        let (blo, bhi) = KS::serialize_bounds(lo, hi)?;
        let mut pairs = engine::range_pairs_raw(&self.tree, &blo, &bhi, self.name.as_str(), KS::name(), "range_remove")?;
        let ghost pairs0 = pairs@;
        let mut ops: Vec<(Vec<u8>, Option<Vec<u8>>)> = Vec::new();
        while pairs.len() > 0
            invariant
                ops@.len() + pairs@.len() == pairs0.len(),
                pairs@ == pairs0.take(pairs@.len() as int),
                forall|t: int|
                    0 <= t < ops@.len() ==> (#[trigger] ops@[t]).0@ == pairs0[pairs0.len() - 1
                        - t].0@ && ops@[t].1 is None,
            decreases pairs@.len(),
        {
            let (k, _v) = pairs.pop().unwrap();
            proof {
                assert(pairs0.take((pairs@.len() + 1) as int).last() == pairs0[pairs@.len() as int]);
                assert(pairs0.take((pairs@.len() + 1) as int).drop_last() =~= pairs0.take(
                    pairs@.len() as int,
                ));
            }
            ops.push((k, None));
        }
        engine::apply_writes_raw(&mut self.tree, &ops, self.name.as_str(), KS::name(), "batch remove")?;
        proof {
            let m0 = old(self).kvs();
            let m1 = self.kvs();
            assert forall|k: KS::K|
                #[trigger] KS::key_ok(k) && key_in_range::<KS>(k, *lo, *hi) implies !m1.contains_key(
                KS::spec_key(k),
            ) by {
                engine::lemma_apply_writes_none(m0, ops@, KS::spec_key(k));
                assert(byte_in_range(KS::spec_key(k), blo, bhi));
                if m0.contains_key(KS::spec_key(k)) {
                    let i = choose|i: int|
                        0 <= i < pairs0.len() && #[trigger] pairs0[i].0@ == KS::spec_key(k);
                    assert(0 <= pairs0.len() - 1 - i < ops@.len());
                    assert(ops@[pairs0.len() - 1 - i].0@ == KS::spec_key(k));
                }
            }
            assert forall|k: KS::K|
                #[trigger] KS::key_ok(k) && !key_in_range::<KS>(k, *lo, *hi) implies (m1.contains_key(
                KS::spec_key(k),
            ) == m0.contains_key(KS::spec_key(k)) && (m0.contains_key(KS::spec_key(k))
                ==> m1[KS::spec_key(k)] == m0[KS::spec_key(k)])) by {
                engine::lemma_apply_writes_none(m0, ops@, KS::spec_key(k));
                assert(!byte_in_range(KS::spec_key(k), blo, bhi));
                if exists|i: int|
                    0 <= i < ops@.len() && (#[trigger] ops@[i]).0@ == KS::spec_key(k) {
                    let i = choose|i: int|
                        0 <= i < ops@.len() && (#[trigger] ops@[i]).0@ == KS::spec_key(k);
                    assert(pairs0[pairs0.len() - 1 - i].0@ == KS::spec_key(k));
                    assert(byte_in_range(pairs0[pairs0.len() - 1 - i].0@, blo, bhi));
                }
            }
            assert forall|b: Seq<u8>| !KS::in_domain(b) implies (m1.contains_key(b)
                == m0.contains_key(b) && (m0.contains_key(b) ==> m1[b] == m0[b])) by {
                engine::lemma_apply_writes_none(m0, ops@, b);
                if exists|i: int| 0 <= i < ops@.len() && (#[trigger] ops@[i]).0@ == b {
                    let i = choose|i: int| 0 <= i < ops@.len() && (#[trigger] ops@[i]).0@ == b;
                    assert(pairs0[pairs0.len() - 1 - i].0@ == b);
                    assert(byte_in_range(b, blo, bhi));
                }
            }
        }
        self.flush_sync(flush)?;
        Ok(())
    }

    /// Insert many pairs of this key space as one atomic batch, then flush if
    /// the policy honors it. Either every pair is applied or none is.
    #[verifier::loop_isolation(false)]
    pub fn append<KS: SledKeySpace>(&mut self, kvs: &Vec<(KS::K, KS::V)>) -> (r: Result<
        (),
        MetaStorageError,
    >)
        ensures
            r is Ok ==> final(self).kvs() == typed_inserts::<KS>(old(self).kvs(), kvs@),
            (exists|i: int|
                0 <= i < kvs@.len() && !(KS::key_ok((#[trigger] kvs@[i]).0) && KS::value_ok(
                    kvs@[i].1,
                ))) ==> r is Err && r->Err_0 is BytesError && final(self).kvs() == old(self).kvs(),
            r is Err ==> (r->Err_0 is BytesError || r->Err_0 is SledError),
            final(self).name == old(self).name && final(self).spec_sync() == old(self).spec_sync(),
    {
        let mut ops: Vec<(Vec<u8>, Option<Vec<u8>>)> = Vec::new();
        let mut idx: usize = 0;
        while idx < kvs.len()
            invariant
                idx <= kvs@.len(),
                ops@.len() == idx as int,
                forall|t: int|
                    0 <= t < idx ==> (#[trigger] ops@[t]).0@ == KS::spec_key(kvs@[t].0) && ops@[
                        t
                    ].1 is Some && ops@[t].1->0@ == KS::spec_value(kvs@[t].1),
                forall|t: int|
                    0 <= t < idx ==> KS::key_ok((#[trigger] kvs@[t]).0) && KS::value_ok(
                        kvs@[t].1,
                    ),
            decreases kvs@.len() - idx,
        {
            let (key, value) = &kvs[idx];
            let k = KS::serialize_key(key)?;
            let v = KS::serialize_value(value)?;
            ops.push((k, Some(v)));
            idx = idx + 1;
        }
        engine::apply_writes_raw(&mut self.tree, &ops, self.name.as_str(), KS::name(), "batch append")?;
        proof {
            lemma_writes_match_typed::<KS>(old(self).kvs(), ops@, kvs@);
            assert(self.kvs() == engine::apply_writes(old(self).kvs(), ops@));
            assert(self.kvs() == typed_inserts::<KS>(old(self).kvs(), kvs@));
        }
        self.flush_sync(true)?;
        Ok(())
    }

    /// Insert many values of this key space as one atomic batch, each under
    /// the key it embeds, then flush if the policy honors it.
    #[verifier::loop_isolation(false)]
    pub fn append_values<KS: SledKeySpace>(&mut self, values: &Vec<KS::V>) -> (r: Result<
        (),
        MetaStorageError,
    >) where KS::V: SledValueToKey<KS::K>
        ensures
            r is Ok ==> final(self).kvs() == typed_inserts::<KS>(
                old(self).kvs(),
                pairs_of_values::<KS>(values@),
            ),
            (exists|i: int|
                0 <= i < values@.len() && !(KS::key_ok((#[trigger] values@[i]).spec_to_key())
                    && KS::value_ok(values@[i]))) ==> r is Err && r->Err_0 is BytesError && final(self).kvs() == old(self).kvs(),
            r is Err ==> (r->Err_0 is BytesError || r->Err_0 is SledError),
            final(self).name == old(self).name && final(self).spec_sync() == old(self).spec_sync(),
    {
        let mut ops: Vec<(Vec<u8>, Option<Vec<u8>>)> = Vec::new();
        let mut idx: usize = 0;
        while idx < values.len()
            invariant
                idx <= values@.len(),
                ops@.len() == idx as int,
                forall|t: int|
                    0 <= t < idx ==> (#[trigger] ops@[t]).0@ == KS::spec_key(
                        pairs_of_values::<KS>(values@)[t].0,
                    ) && ops@[t].1 is Some && ops@[t].1->0@ == KS::spec_value(
                        pairs_of_values::<KS>(values@)[t].1,
                    ),
                forall|t: int|
                    0 <= t < idx ==> KS::key_ok((#[trigger] values@[t]).spec_to_key())
                        && KS::value_ok(values@[t]),
            decreases values@.len() - idx,
        {
            let value = &values[idx];
            let key: KS::K = value.to_key();
            let k = KS::serialize_key(&key)?;
            let v = KS::serialize_value(value)?;
            ops.push((k, Some(v)));
            idx = idx + 1;
        }
        engine::apply_writes_raw(&mut self.tree, &ops, self.name.as_str(), KS::name(), "batch append_values")?;
        proof {
            lemma_writes_match_typed::<KS>(old(self).kvs(), ops@, pairs_of_values::<KS>(values@));
        }
        self.flush_sync(true)?;
        Ok(())
    }

    /// The raw byte pairs of the entire physical tree, every key space
    /// included, in ascending byte-key order; each pair is a two-element
    /// vector. Used for snapshots.
    #[verifier::loop_isolation(false)]
    pub fn export(&self) -> (r: Result<Vec<Vec<Vec<u8>>>, MetaStorageError>)
        ensures
            r is Ok ==> (forall|i: int, j: int|
                0 <= i < j < r->Ok_0@.len() ==> lex_lt(
                    (#[trigger] r->Ok_0@[i])@[0]@,
                    (#[trigger] r->Ok_0@[j])@[0]@,
                )),
            r is Ok ==> (forall|i: int|
                0 <= i < r->Ok_0@.len() ==> (#[trigger] r->Ok_0@[i])@.len() == 2
                    && self.kvs().contains_key(r->Ok_0@[i]@[0]@) && self.kvs()[r->Ok_0@[i]@[0]@]
                    == r->Ok_0@[i]@[1]@),
            r is Ok ==> (forall|b: Seq<u8>|
                #[trigger] self.kvs().contains_key(b) ==> holds_byte_key(r->Ok_0@, b)),
            r is Err ==> r->Err_0 is SledError,
    {
        let mut pairs = engine::range_pairs_raw(
            &self.tree,
            &KeyBound::Unbounded,
            &KeyBound::Unbounded,
            self.name.as_str(),
            "",
            "export",
        )?;
        let ghost pairs0 = pairs@;
        let mut kvs: Vec<Vec<Vec<u8>>> = Vec::new();
        let mut idx: usize = 0;
        while idx < pairs.len()
            invariant
                idx <= pairs@.len(),
                pairs@ == pairs0,
                kvs@.len() == idx as int,
                forall|t: int|
                    0 <= t < idx ==> (#[trigger] kvs@[t])@.len() == 2 && kvs@[t]@[0]@ == pairs0[
                        t
                    ].0@ && kvs@[t]@[1]@ == pairs0[t].1@,
            decreases pairs@.len() - idx,
        {
            let k = pairs[idx].0.clone();
            let v = pairs[idx].1.clone();
            proof {
                assert(k@ =~= pairs0[idx as int].0@);
                assert(v@ =~= pairs0[idx as int].1@);
            }
            let mut pair: Vec<Vec<u8>> = Vec::new();
            pair.push(k);
            pair.push(v);
            kvs.push(pair);
            idx = idx + 1;
        }
        proof {
            assert forall|b: Seq<u8>| #[trigger] self.kvs().contains_key(b) implies holds_byte_key(
                kvs@,
                b,
            ) by {
                assert(byte_in_range(b, KeyBound::Unbounded, KeyBound::Unbounded));
                let i = choose|i: int| 0 <= i < pairs0.len() && #[trigger] pairs0[i].0@ == b;
                assert(kvs@[i]@[0]@ == b);
            }
        }
        Ok(kvs)
    }

    /// Retrieve the pair with the greatest key of this key space, if the
    /// space holds any. Entries of other key spaces sharing the tree are
    /// never returned.
    pub fn last<KS: SledKeySpace>(&self) -> (r: Result<
        Option<(KS::K, KS::V)>,
        MetaStorageError,
    >)
        ensures
            r is Ok ==> (r->Ok_0 matches Some(kv) ==> KS::key_ok(kv.0) && KS::value_ok(kv.1)
                && self.kvs().contains_key(KS::spec_key(kv.0)) && KS::spec_value(kv.1)
                == self.kvs()[KS::spec_key(kv.0)] && (forall|k2: KS::K|
                #[trigger] KS::key_ok(k2) && self.kvs().contains_key(KS::spec_key(k2))
                    ==> KS::key_le(k2, kv.0))),
            r is Ok && r->Ok_0 is None ==> (forall|k2: KS::K|
                #[trigger] KS::key_ok(k2) ==> !self.kvs().contains_key(KS::spec_key(k2))),
            r is Err ==> (r->Err_0 is BytesError || r->Err_0 is SledError),
    {
        let (lo, hi) = KS::serialize_bounds(&KeyBound::Unbounded, &KeyBound::Unbounded)?;
        let got = engine::last_in_range_raw(&self.tree, &lo, &hi, self.name.as_str(), KS::name(), "last")?;
        match got {
            None => {
                proof {
                    assert forall|k2: KS::K|
                        #[trigger] KS::key_ok(k2) implies !self.kvs().contains_key(
                        KS::spec_key(k2),
                    ) by {
                        assert(key_in_range::<KS>(k2, KeyBound::Unbounded, KeyBound::Unbounded));
                        assert(byte_in_range(KS::spec_key(k2), lo, hi));
                    }
                }
                Ok(None)
            },
            Some((kb, vb)) => {
                let k = KS::deserialize_key(kb.as_slice())?;
                let v = KS::deserialize_value(vb.as_slice())?;
                proof {
                    assert forall|k2: KS::K|
                        #[trigger] KS::key_ok(k2) && self.kvs().contains_key(
                            KS::spec_key(k2),
                        ) implies KS::key_le(k2, k) by {
                        assert(key_in_range::<KS>(k2, KeyBound::Unbounded, KeyBound::Unbounded));
                        assert(byte_in_range(KS::spec_key(k2), lo, hi));
                        assert(lex_le(KS::spec_key(k2), kb@));
                        KS::lemma_key_laws(k2, k);
                    }
                }
                Ok(Some((k, v)))
            },
        }
    }
}

} // verus!
