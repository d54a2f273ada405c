//! Typed key-space views: a tree handle (or transactional tree handle)
//! pinned to one key-space descriptor, so callers never see serialized bytes.

use vstd::prelude::*;

use core::marker::PhantomData;

use crate::engine;
use crate::errors::MetaStorageError;
use crate::keyspace::SledKeySpace;
use crate::keyspace::SledValueToKey;
use crate::keyspace::bound_ok;
use crate::keyspace::key_in_range;
use crate::order::KeyBound;
use crate::order::has_prefix;
use crate::tree::SledTree;
use crate::tree::holds_key;
use crate::tree::holds_key_of;
use crate::tree::values_of_range;
use crate::tree::pairs_of_values;
use crate::tree::typed_inserts;
use crate::txn::TransactionSledTree;
use crate::txn::update_fetch_post;

verus! {

/// A tree handle pinned to the key space `KS`.
pub struct AsKeySpace<KS: SledKeySpace> {
    pub inner: SledTree,
    pub space: PhantomData<KS>,
}

impl SledTree {
    /// Pin this handle to the key space `KS`. The handle comes back out with
    /// [`AsKeySpace::into_inner`].
    pub fn key_space<KS: SledKeySpace>(self) -> (r: AsKeySpace<KS>)
        ensures
            r.inner == self,
    {
        AsKeySpace { inner: self, space: PhantomData }
    }
}

impl<KS: SledKeySpace> AsKeySpace<KS> {
    /// Release the underlying tree handle.
    pub fn into_inner(self) -> (r: SledTree)
        ensures
            r == self.inner,
    {
        self.inner
    }

    /// Retrieve the value of a key; see [`SledTree::get`].
    pub fn get(&self, key: &KS::K) -> (r: Result<Option<KS::V>, MetaStorageError>)
        ensures
            r is Ok ==> (r->Ok_0 is Some <==> self.inner.kvs().contains_key(KS::spec_key(*key))),
            r is Ok ==> (r->Ok_0 matches Some(v) ==> KS::value_ok(v) && KS::spec_value(v)
                == self.inner.kvs()[KS::spec_key(*key)]),
            !KS::key_ok(*key) ==> r is Err && r->Err_0 is BytesError,
            r is Err ==> (r->Err_0 is BytesError || r->Err_0 is SledError),
    {
        self.inner.get::<KS>(key)
    }

    /// Retrieve the greatest pair of this key space; see [`SledTree::last`].
    pub fn last(&self) -> (r: Result<Option<(KS::K, KS::V)>, MetaStorageError>)
        ensures
            r is Ok ==> (r->Ok_0 matches Some(kv) ==> KS::key_ok(kv.0) && KS::value_ok(kv.1)
                && self.inner.kvs().contains_key(KS::spec_key(kv.0)) && KS::spec_value(kv.1)
                == self.inner.kvs()[KS::spec_key(kv.0)] && (forall|k2: KS::K|
                #[trigger] KS::key_ok(k2) && self.inner.kvs().contains_key(KS::spec_key(k2))
                    ==> KS::key_le(k2, kv.0))),
            r is Ok && r->Ok_0 is None ==> (forall|k2: KS::K|
                #[trigger] KS::key_ok(k2) ==> !self.inner.kvs().contains_key(KS::spec_key(k2))),
            r is Err ==> (r->Err_0 is BytesError || r->Err_0 is SledError),
    {
        self.inner.last::<KS>()
    }

    /// Insert one pair; see [`SledTree::insert`].
    pub fn insert(&mut self, key: &KS::K, value: &KS::V) -> (r: Result<
        Option<KS::V>,
        MetaStorageError,
    >)
        ensures
            r is Ok ==> final(self).inner.kvs() == old(self).inner.kvs().insert(
                KS::spec_key(*key),
                KS::spec_value(*value),
            ),
            r is Ok ==> (r->Ok_0 is Some <==> old(self).inner.kvs().contains_key(
                KS::spec_key(*key),
            )),
            r is Ok ==> (r->Ok_0 matches Some(pv) ==> KS::value_ok(pv) && KS::spec_value(pv)
                == old(self).inner.kvs()[KS::spec_key(*key)]),
            !(KS::key_ok(*key) && KS::value_ok(*value)) ==> r is Err && r->Err_0 is BytesError
                && final(self).inner.kvs() == old(self).inner.kvs(),
            r is Err ==> (r->Err_0 is BytesError || r->Err_0 is SledError),
    {
        self.inner.insert::<KS>(key, value)
    }

    /// Remove one key; see [`SledTree::remove`].
    pub fn remove(&mut self, key: &KS::K, flush: bool) -> (r: Result<
        Option<KS::V>,
        MetaStorageError,
    >)
        ensures
            r is Ok ==> final(self).inner.kvs() == old(self).inner.kvs().remove(
                KS::spec_key(*key),
            ),
            r is Ok ==> (r->Ok_0 is Some <==> old(self).inner.kvs().contains_key(
                KS::spec_key(*key),
            )),
            r is Ok ==> (r->Ok_0 matches Some(pv) ==> KS::value_ok(pv) && KS::spec_value(pv)
                == old(self).inner.kvs()[KS::spec_key(*key)]),
            !KS::key_ok(*key) ==> r is Err && r->Err_0 is BytesError && final(self).inner.kvs()
                == old(self).inner.kvs(),
            r is Err ==> (r->Err_0 is BytesError || r->Err_0 is SledError),
    {
        self.inner.remove::<KS>(key, flush)
    }

    /// Remove every pair in the range; see [`SledTree::range_remove`].
    pub fn range_remove(&mut self, lo: &KeyBound<KS::K>, hi: &KeyBound<KS::K>, flush: bool) -> (r:
        Result<(), MetaStorageError>)
        ensures
            r is Ok ==> (forall|k: KS::K|
                #[trigger] KS::key_ok(k) && key_in_range::<KS>(k, *lo, *hi) ==> !final(self).inner.kvs().contains_key(KS::spec_key(k))),
            r is Ok ==> (forall|k: KS::K|
                #[trigger] KS::key_ok(k) && !key_in_range::<KS>(k, *lo, *hi) ==> (final(self).inner.kvs().contains_key(KS::spec_key(k)) == old(self).inner.kvs().contains_key(
                    KS::spec_key(k),
                ) && (old(self).inner.kvs().contains_key(KS::spec_key(k)) ==> final(self).inner.kvs()[KS::spec_key(k)] == old(self).inner.kvs()[KS::spec_key(k)]))),
            !(bound_ok::<KS>(*lo) && bound_ok::<KS>(*hi)) ==> r is Err && r->Err_0 is BytesError
                && final(self).inner.kvs() == old(self).inner.kvs(),
            r is Err ==> (r->Err_0 is BytesError || r->Err_0 is SledError),
    {
        self.inner.range_remove::<KS>(lo, hi, flush)
    }

    /// Remove every pair of the whole physical tree, every key space
    /// included.
    pub fn clear(&mut self) -> (r: Result<(), MetaStorageError>)
        ensures
            r is Ok ==> final(self).inner.kvs() == engine::empty_contents(),
            r is Err ==> r->Err_0 is SledError,
    {
        engine::clear_raw(&mut self.inner.tree, self.inner.name.as_str(), "clear")
    }

    /// Keys in the range, ascending; see [`SledTree::range_keys`].
    pub fn range_keys(&self, lo: &KeyBound<KS::K>, hi: &KeyBound<KS::K>) -> (r: Result<
        Vec<KS::K>,
        MetaStorageError,
    >)
        ensures
            r is Ok ==> (forall|i: int, j: int|
                0 <= i < j < r->Ok_0@.len() ==> KS::key_le(
                    #[trigger] r->Ok_0@[i],
                    #[trigger] r->Ok_0@[j],
                ) && r->Ok_0@[i] != r->Ok_0@[j]),
            r is Ok ==> (forall|i: int|
                0 <= i < r->Ok_0@.len() ==> KS::key_ok(#[trigger] r->Ok_0@[i]) && key_in_range::<
                    KS,
                >(r->Ok_0@[i], *lo, *hi) && self.inner.kvs().contains_key(
                    KS::spec_key(r->Ok_0@[i]),
                )),
            r is Ok ==> (forall|k: KS::K|
                #[trigger] KS::key_ok(k) && key_in_range::<KS>(k, *lo, *hi)
                    && self.inner.kvs().contains_key(KS::spec_key(k)) ==> holds_key_of::<KS>(
                    r->Ok_0@,
                    k,
                )),
            !(bound_ok::<KS>(*lo) && bound_ok::<KS>(*hi)) ==> r is Err && r->Err_0 is BytesError,
            r is Err ==> (r->Err_0 is BytesError || r->Err_0 is SledError),
    {
        self.inner.range_keys::<KS>(lo, hi)
    }

    /// Pairs in the range, ascending; see [`SledTree::range_kvs`].
    pub fn range_kvs(&self, lo: &KeyBound<KS::K>, hi: &KeyBound<KS::K>) -> (r: Result<
        Vec<(KS::K, KS::V)>,
        MetaStorageError,
    >)
        ensures
            r is Ok ==> (forall|i: int, j: int|
                0 <= i < j < r->Ok_0@.len() ==> KS::key_le(
                    (#[trigger] r->Ok_0@[i]).0,
                    (#[trigger] r->Ok_0@[j]).0,
                ) && r->Ok_0@[i].0 != r->Ok_0@[j].0),
            r is Ok ==> (forall|i: int|
                0 <= i < r->Ok_0@.len() ==> KS::key_ok((#[trigger] r->Ok_0@[i]).0)
                    && key_in_range::<KS>(r->Ok_0@[i].0, *lo, *hi)
                    && self.inner.kvs().contains_key(KS::spec_key(r->Ok_0@[i].0)) && KS::value_ok(
                    r->Ok_0@[i].1,
                ) && KS::spec_value(r->Ok_0@[i].1) == self.inner.kvs()[KS::spec_key(
                    r->Ok_0@[i].0,
                )]),
            r is Ok ==> (forall|k: KS::K|
                #[trigger] KS::key_ok(k) && key_in_range::<KS>(k, *lo, *hi)
                    && self.inner.kvs().contains_key(KS::spec_key(k)) ==> holds_key::<KS>(
                    r->Ok_0@,
                    k,
                )),
            !(bound_ok::<KS>(*lo) && bound_ok::<KS>(*hi)) ==> r is Err && r->Err_0 is BytesError,
            r is Err ==> (r->Err_0 is BytesError || r->Err_0 is SledError),
    {
        self.inner.range_kvs::<KS>(lo, hi)
    }

    /// Pairs in the range as one finite sequence; see [`SledTree::range`].
    pub fn range(&self, lo: &KeyBound<KS::K>, hi: &KeyBound<KS::K>) -> (r: Result<
        Vec<(KS::K, KS::V)>,
        MetaStorageError,
    >)
        ensures
            r is Ok ==> (forall|i: int, j: int|
                0 <= i < j < r->Ok_0@.len() ==> KS::key_le(
                    (#[trigger] r->Ok_0@[i]).0,
                    (#[trigger] r->Ok_0@[j]).0,
                ) && r->Ok_0@[i].0 != r->Ok_0@[j].0),
            r is Ok ==> (forall|i: int|
                0 <= i < r->Ok_0@.len() ==> KS::key_ok((#[trigger] r->Ok_0@[i]).0)
                    && key_in_range::<KS>(r->Ok_0@[i].0, *lo, *hi)
                    && self.inner.kvs().contains_key(KS::spec_key(r->Ok_0@[i].0)) && KS::value_ok(
                    r->Ok_0@[i].1,
                ) && KS::spec_value(r->Ok_0@[i].1) == self.inner.kvs()[KS::spec_key(
                    r->Ok_0@[i].0,
                )]),
            r is Ok ==> (forall|k: KS::K|
                #[trigger] KS::key_ok(k) && key_in_range::<KS>(k, *lo, *hi)
                    && self.inner.kvs().contains_key(KS::spec_key(k)) ==> holds_key::<KS>(
                    r->Ok_0@,
                    k,
                )),
            !(bound_ok::<KS>(*lo) && bound_ok::<KS>(*hi)) ==> r is Err && r->Err_0 is BytesError,
            r is Err ==> (r->Err_0 is BytesError || r->Err_0 is SledError),
    {
        self.inner.range::<KS>(lo, hi)
    }

    /// Values in the range, in ascending key order; see
    /// [`SledTree::range_values`].
    pub fn range_values(&self, lo: &KeyBound<KS::K>, hi: &KeyBound<KS::K>) -> (r: Result<
        Vec<KS::V>,
        MetaStorageError,
    >)
        ensures
            r is Ok ==> values_of_range::<KS>(r->Ok_0@, self.inner.kvs(), *lo, *hi),
            !(bound_ok::<KS>(*lo) && bound_ok::<KS>(*hi)) ==> r is Err && r->Err_0 is BytesError,
            r is Err ==> (r->Err_0 is BytesError || r->Err_0 is SledError),
    {
        self.inner.range_values::<KS>(lo, hi)
    }

    /// Pairs whose serialized key starts with the serialized prefix; see
    /// [`SledTree::scan_prefix`].
    pub fn scan_prefix(&self, prefix: &KS::K) -> (r: Result<
        Vec<(KS::K, KS::V)>,
        MetaStorageError,
    >)
        ensures
            r is Ok ==> (forall|i: int|
                0 <= i < r->Ok_0@.len() ==> KS::key_ok((#[trigger] r->Ok_0@[i]).0) && has_prefix(
                    KS::spec_key(*prefix),
                    KS::spec_key(r->Ok_0@[i].0),
                ) && self.inner.kvs().contains_key(KS::spec_key(r->Ok_0@[i].0)) && KS::value_ok(
                    r->Ok_0@[i].1,
                ) && KS::spec_value(r->Ok_0@[i].1) == self.inner.kvs()[KS::spec_key(
                    r->Ok_0@[i].0,
                )]),
            r is Ok ==> (forall|k: KS::K|
                #[trigger] KS::key_ok(k) && has_prefix(KS::spec_key(*prefix), KS::spec_key(k))
                    && self.inner.kvs().contains_key(KS::spec_key(k)) ==> holds_key::<KS>(
                    r->Ok_0@,
                    k,
                )),
            !KS::key_ok(*prefix) ==> r is Err && r->Err_0 is BytesError,
            r is Err ==> (r->Err_0 is BytesError || r->Err_0 is SledError),
    {
        self.inner.scan_prefix::<KS>(prefix)
    }

    /// Insert many pairs atomically; see [`SledTree::append`].
    pub fn append(&mut self, kvs: &Vec<(KS::K, KS::V)>) -> (r: Result<(), MetaStorageError>)
        ensures
            r is Ok ==> final(self).inner.kvs() == typed_inserts::<KS>(
                old(self).inner.kvs(),
                kvs@,
            ),
            (exists|i: int|
                0 <= i < kvs@.len() && !(KS::key_ok((#[trigger] kvs@[i]).0) && KS::value_ok(
                    kvs@[i].1,
                ))) ==> r is Err && r->Err_0 is BytesError && final(self).inner.kvs() == old(
                self,
            ).inner.kvs(),
            r is Err ==> (r->Err_0 is BytesError || r->Err_0 is SledError),
    {
        self.inner.append::<KS>(kvs)
    }

    /// Insert many values atomically, each under its embedded key; see
    /// [`SledTree::append_values`].
    pub fn append_values(&mut self, values: &Vec<KS::V>) -> (r: Result<(), MetaStorageError>) where
        KS::V: SledValueToKey<KS::K>

        ensures
            r is Ok ==> final(self).inner.kvs() == typed_inserts::<KS>(
                old(self).inner.kvs(),
                pairs_of_values::<KS>(values@),
            ),
            (exists|i: int|
                0 <= i < values@.len() && !(KS::key_ok((#[trigger] values@[i]).spec_to_key())
                    && KS::value_ok(values@[i]))) ==> r is Err && r->Err_0 is BytesError && final(self).inner.kvs() == old(self).inner.kvs(),
            r is Err ==> (r->Err_0 is BytesError || r->Err_0 is SledError),
    {
        self.inner.append_values::<KS>(values)
    }
}

/// A transactional tree handle pinned to the key space `KS`.
pub struct AsTxnKeySpace<'a, KS: SledKeySpace> {
    pub inner: TransactionSledTree<'a>,
    pub space: PhantomData<KS>,
}

impl<'a> TransactionSledTree<'a> {
    /// Pin this transactional handle to the key space `KS`. The handle comes
    /// back out with [`AsTxnKeySpace::into_inner`].
    pub fn key_space<KS: SledKeySpace>(self) -> (r: AsTxnKeySpace<'a, KS>)
        ensures
            r.inner == self,
    {
        AsTxnKeySpace { inner: self, space: PhantomData }
    }
}

impl<'a, KS: SledKeySpace> AsTxnKeySpace<'a, KS> {
    /// Release the underlying transactional handle.
    pub fn into_inner(self) -> (r: TransactionSledTree<'a>)
        ensures
            r == self.inner,
    {
        self.inner
    }

    /// Retrieve the value of a key as this transaction sees it; see
    /// [`TransactionSledTree::get`].
    pub fn get(&self, key: &KS::K) -> (r: Result<Option<KS::V>, MetaStorageError>)
        ensures
            r is Ok ==> (r->Ok_0 is Some <==> self.inner.kvs().contains_key(KS::spec_key(*key))),
            r is Ok ==> (r->Ok_0 matches Some(v) ==> KS::value_ok(v) && KS::spec_value(v)
                == self.inner.kvs()[KS::spec_key(*key)]),
            r is Err ==> (r->Err_0 is BytesError || r->Err_0 is SledError || r->Err_0
                is TransactionConflict),
    {
        self.inner.get::<KS>(key)
    }

    /// Insert a pair into this transaction; see
    /// [`TransactionSledTree::insert`].
    pub fn insert(&mut self, key: &KS::K, value: &KS::V) -> (r: Result<
        Option<KS::V>,
        MetaStorageError,
    >)
        ensures
            r is Ok ==> final(self).inner.kvs() == old(self).inner.kvs().insert(
                KS::spec_key(*key),
                KS::spec_value(*value),
            ),
            r is Ok ==> (r->Ok_0 is Some <==> old(self).inner.kvs().contains_key(
                KS::spec_key(*key),
            )),
            r is Ok ==> (r->Ok_0 matches Some(pv) ==> KS::value_ok(pv) && KS::spec_value(pv)
                == old(self).inner.kvs()[KS::spec_key(*key)]),
            r is Err ==> (r->Err_0 is BytesError || r->Err_0 is SledError || r->Err_0
                is TransactionConflict),
    {
        self.inner.insert::<KS>(key, value)
    }

    /// Remove a key from this transaction; see
    /// [`TransactionSledTree::remove`].
    pub fn remove(&mut self, key: &KS::K) -> (r: Result<Option<KS::V>, MetaStorageError>)
        ensures
            r is Ok ==> final(self).inner.kvs() == old(self).inner.kvs().remove(
                KS::spec_key(*key),
            ),
            r is Ok ==> (r->Ok_0 is Some <==> old(self).inner.kvs().contains_key(
                KS::spec_key(*key),
            )),
            r is Ok ==> (r->Ok_0 matches Some(pv) ==> KS::value_ok(pv) && KS::spec_value(pv)
                == old(self).inner.kvs()[KS::spec_key(*key)]),
            r is Err ==> (r->Err_0 is BytesError || r->Err_0 is SledError || r->Err_0
                is TransactionConflict),
    {
        self.inner.remove::<KS>(key)
    }

    /// Read, transform, write back; see
    /// [`TransactionSledTree::update_and_fetch`].
    pub fn update_and_fetch<F: Fn(Option<KS::V>) -> Option<KS::V>>(
        &mut self,
        key: &KS::K,
        f: F,
    ) -> (r: Result<Option<KS::V>, MetaStorageError>)
        requires
            forall|cur: Option<KS::V>| #[trigger] f.requires((cur,)),
        ensures
            r is Ok ==> update_fetch_post::<KS, F>(
                f,
                old(self).inner.kvs(),
                final(self).inner.kvs(),
                *key,
                r->Ok_0,
            ),
            !KS::key_ok(*key) ==> r is Err && r->Err_0 is BytesError,
            r is Err ==> (r->Err_0 is BytesError || r->Err_0 is SledError || r->Err_0
                is TransactionConflict),
            r is Err ==> (final(self).inner.kvs() == old(self).inner.kvs() || final(self).inner.kvs() == old(self).inner.kvs().remove(KS::spec_key(*key))),
    {
        self.inner.update_and_fetch::<KS, F>(key, f)
    }
}

} // verus!
