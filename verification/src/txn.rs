//! The transaction driver and the transaction-scoped tree handle.

use vstd::prelude::*;

use crate::engine::tree_contents;
use crate::errors::MetaStorageError;
use crate::keyspace::SledKeySpace;
use crate::tree::SledTree;

verus! {

/// A handle to the transactional context the engine hands to one attempt of
/// a transaction. It lives only inside that attempt.
pub struct TransactionSledTree<'a> {
    pub txn_tree: &'a sled::transaction::TransactionalTree,
}

/// The contents this transaction attempt sees: the committed state overlaid
/// with the attempt's own pending writes.
pub uninterp spec fn txn_contents(t: TransactionSledTree) -> Map<Seq<u8>, Seq<u8>>;

impl<'a> TransactionSledTree<'a> {
    /// The contents this transaction attempt sees.
    pub open spec fn kvs(self) -> Map<Seq<u8>, Seq<u8>> {
        txn_contents(self)
    }

    /// Relies on `sled::transaction::TransactionalTree::get`: reads through
    /// the attempt's pending writes, then the committed state.
    #[verifier::external_body]
    fn raw_get(&self, k: &Vec<u8>) -> (r: Result<Option<Vec<u8>>, MetaStorageError>)
        ensures
            r is Ok ==> (r->Ok_0 is Some <==> txn_contents(*self).contains_key(k@)),
            r is Ok && r->Ok_0 is Some ==> r->Ok_0->0@ == txn_contents(*self)[k@],
            r is Err ==> (r->Err_0 is SledError || r->Err_0 is TransactionConflict),
    {
        match self.txn_tree.get(k) {
            Ok(got) => Ok(got.map(|v| v.to_vec())),
            Err(sled::transaction::UnabortableTransactionError::Conflict) => Err(
                MetaStorageError::TransactionConflict,
            ),
            Err(sled::transaction::UnabortableTransactionError::Storage(e)) => Err(
                MetaStorageError::SledError(format!("txn get: {}", e)),
            ),
        }
    }

    /// Relies on `sled::transaction::TransactionalTree::insert`: records the
    /// write in the attempt and returns the value previously visible. On an
    /// error nothing was recorded.
    #[verifier::external_body]
    fn raw_insert(&mut self, k: &Vec<u8>, v: &Vec<u8>) -> (r: Result<
        Option<Vec<u8>>,
        MetaStorageError,
    >)
        ensures
            r is Ok ==> txn_contents(*final(self)) == txn_contents(*old(self)).insert(k@, v@),
            r is Ok ==> (r->Ok_0 is Some <==> txn_contents(*old(self)).contains_key(k@)),
            r is Ok && r->Ok_0 is Some ==> r->Ok_0->0@ == txn_contents(*old(self))[k@],
            r is Err ==> (r->Err_0 is SledError || r->Err_0 is TransactionConflict)
                && txn_contents(*final(self)) == txn_contents(*old(self)),
    {
        match self.txn_tree.insert(k.clone(), v.clone()) {
            Ok(prev) => Ok(prev.map(|p| p.to_vec())),
            Err(sled::transaction::UnabortableTransactionError::Conflict) => Err(
                MetaStorageError::TransactionConflict,
            ),
            Err(sled::transaction::UnabortableTransactionError::Storage(e)) => Err(
                MetaStorageError::SledError(format!("txn insert: {}", e)),
            ),
        }
    }

    /// Relies on `sled::transaction::TransactionalTree::remove`: records the
    /// removal in the attempt and returns the value previously visible. The
    /// removal is staged before the embedded read's result is inspected, so
    /// on an error it may already be recorded.
    #[verifier::external_body]
    fn raw_remove(&mut self, k: &Vec<u8>) -> (r: Result<Option<Vec<u8>>, MetaStorageError>)
        ensures
            r is Ok ==> txn_contents(*final(self)) == txn_contents(*old(self)).remove(k@),
            r is Ok ==> (r->Ok_0 is Some <==> txn_contents(*old(self)).contains_key(k@)),
            r is Ok && r->Ok_0 is Some ==> r->Ok_0->0@ == txn_contents(*old(self))[k@],
            r is Err ==> (r->Err_0 is SledError || r->Err_0 is TransactionConflict)
                && (txn_contents(*final(self)) == txn_contents(*old(self)) || txn_contents(
                *final(self),
            ) == txn_contents(*old(self)).remove(k@)),
    {
        match self.txn_tree.remove(k.clone()) {
            Ok(prev) => Ok(prev.map(|p| p.to_vec())),
            Err(sled::transaction::UnabortableTransactionError::Conflict) => Err(
                MetaStorageError::TransactionConflict,
            ),
            Err(sled::transaction::UnabortableTransactionError::Storage(e)) => Err(
                MetaStorageError::SledError(format!("txn remove: {}", e)),
            ),
        }
    }

    /// Retrieve the value of a key as this transaction sees it.
    pub fn get<KS: SledKeySpace>(&self, key: &KS::K) -> (r: Result<
        Option<KS::V>,
        MetaStorageError,
    >)
        ensures
            r is Ok ==> (r->Ok_0 is Some <==> self.kvs().contains_key(KS::spec_key(*key))),
            r is Ok ==> (r->Ok_0 matches Some(v) ==> KS::value_ok(v) && KS::spec_value(v)
                == self.kvs()[KS::spec_key(*key)]),
            !KS::key_ok(*key) ==> r is Err && r->Err_0 is BytesError,
            r is Err ==> (r->Err_0 is BytesError || r->Err_0 is SledError || r->Err_0
                is TransactionConflict),
    {
        let k = KS::serialize_key(key)?;
        match self.raw_get(&k)? {
            None => Ok(None),
            Some(bytes) => Ok(Some(KS::deserialize_value(bytes.as_slice())?)),
        }
    }

    /// Insert a pair into this transaction, returning the value previously
    /// visible under the key.
    pub fn insert<KS: SledKeySpace>(&mut self, key: &KS::K, value: &KS::V) -> (r: Result<
        Option<KS::V>,
        MetaStorageError,
    >)
        ensures
            r is Ok ==> final(self).kvs() == old(self).kvs().insert(
                KS::spec_key(*key),
                KS::spec_value(*value),
            ),
            r is Ok ==> (r->Ok_0 is Some <==> old(self).kvs().contains_key(KS::spec_key(*key))),
            r is Ok ==> (r->Ok_0 matches Some(pv) ==> KS::value_ok(pv) && KS::spec_value(pv)
                == old(self).kvs()[KS::spec_key(*key)]),
            !(KS::key_ok(*key) && KS::value_ok(*value)) ==> r is Err && r->Err_0 is BytesError,
            r is Err ==> (r->Err_0 is BytesError || r->Err_0 is SledError || r->Err_0
                is TransactionConflict),
            r is Err ==> (final(self).kvs() == old(self).kvs() || final(self).kvs() == old(
                self,
            ).kvs().insert(KS::spec_key(*key), KS::spec_value(*value))),
    {
        let k = KS::serialize_key(key)?;
        let v = KS::serialize_value(value)?;
        let prev = self.raw_insert(&k, &v)?;
        match prev {
            None => Ok(None),
            Some(p) => Ok(Some(KS::deserialize_value(p.as_slice())?)),
        }
    }

    /// Remove a key from this transaction, returning the value previously
    /// visible under it.
    pub fn remove<KS: SledKeySpace>(&mut self, key: &KS::K) -> (r: Result<
        Option<KS::V>,
        MetaStorageError,
    >)
        ensures
            r is Ok ==> final(self).kvs() == old(self).kvs().remove(KS::spec_key(*key)),
            r is Ok ==> (r->Ok_0 is Some <==> old(self).kvs().contains_key(KS::spec_key(*key))),
            r is Ok ==> (r->Ok_0 matches Some(pv) ==> KS::value_ok(pv) && KS::spec_value(pv)
                == old(self).kvs()[KS::spec_key(*key)]),
            !KS::key_ok(*key) ==> r is Err && r->Err_0 is BytesError,
            r is Err ==> (r->Err_0 is BytesError || r->Err_0 is SledError || r->Err_0
                is TransactionConflict),
            r is Err ==> (final(self).kvs() == old(self).kvs() || final(self).kvs() == old(
                self,
            ).kvs().remove(KS::spec_key(*key))),
    {
        let k = KS::serialize_key(key)?;
        let prev = self.raw_remove(&k)?;
        match prev {
            None => Ok(None),
            Some(p) => Ok(Some(KS::deserialize_value(p.as_slice())?)),
        }
    }

    /// Read the current value, apply `f`, and write the outcome back: the
    /// result of `f` is inserted if it is a value and the key is removed if
    /// it is not. Returns what was written. `f` may run again on a retry of
    /// the whole transaction, so it must be deterministic and free of side
    /// effects.
    pub fn update_and_fetch<KS: SledKeySpace, F: Fn(Option<KS::V>) -> Option<KS::V>>(
        &mut self,
        key: &KS::K,
        f: F,
    ) -> (r: Result<Option<KS::V>, MetaStorageError>)
        requires
            forall|cur: Option<KS::V>| #[trigger] f.requires((cur,)),
        ensures
            r is Ok ==> update_fetch_post::<KS, F>(
                f,
                old(self).kvs(),
                final(self).kvs(),
                *key,
                r->Ok_0,
            ),
            !KS::key_ok(*key) ==> r is Err && r->Err_0 is BytesError,
            r is Err ==> (r->Err_0 is BytesError || r->Err_0 is SledError || r->Err_0
                is TransactionConflict),
            r is Err ==> (final(self).kvs() == old(self).kvs() || final(self).kvs() == old(
                self,
            ).kvs().remove(KS::spec_key(*key))),
    {
        let key_b = KS::serialize_key(key)?;
        let got = self.raw_get(&key_b)?;
        let cur = match got {
            Some(b) => Some(KS::deserialize_value(b.as_slice())?),
            None => None,
        };
        let ghost cur_g = cur;
        let new_val = f(cur);
        match &new_val {
            Some(v) => {
                let vb = KS::serialize_value(v)?;
                self.raw_insert(&key_b, &vb)?;
            },
            None => {
                self.raw_remove(&key_b)?;
            },
        }
        proof {
            assert(f.ensures((cur_g,), new_val));
            assert(update_fetch_post::<KS, F>(
                f,
                old(self).kvs(),
                self.kvs(),
                *key,
                new_val,
            ));
        }
        Ok(new_val)
    }
}

/// What [`TransactionSledTree::update_and_fetch`] guarantees on success:
/// some current value was read, `f` turned it into the result, and the result
/// was written back (inserted when present, removed when absent).
pub open spec fn update_fetch_post<KS: SledKeySpace, F: Fn(Option<KS::V>) -> Option<KS::V>>(
    f: F,
    pre: Map<Seq<u8>, Seq<u8>>,
    post: Map<Seq<u8>, Seq<u8>>,
    key: KS::K,
    res: Option<KS::V>,
) -> bool {
    exists|cur: Option<KS::V>|
        {
            &&& #[trigger] f.ensures((cur,), res)
            &&& (cur is Some <==> pre.contains_key(KS::spec_key(key)))
            &&& (cur matches Some(cv) ==> KS::value_ok(cv) && KS::spec_value(cv)
                == pre[KS::spec_key(key)])
            &&& (match res {
                Some(nv) => KS::value_ok(nv) && post == pre.insert(
                    KS::spec_key(key),
                    KS::spec_value(nv),
                ),
                None => post == pre.remove(KS::spec_key(key)),
            })
        }
}

/// The body of one transaction: the engine may run it several times, and the
/// driver commits the attempt whose result it returns.
pub trait SledTxnFn<T>: Sized {
    /// What one successful attempt guarantees, over the contents it saw at
    /// its start and the contents it left behind.
    spec fn post(
        &self,
        pre: Map<Seq<u8>, Seq<u8>>,
        post: Map<Seq<u8>, Seq<u8>>,
        r: Result<T, MetaStorageError>,
    ) -> bool;

    fn txn_fn(&self, tree: &mut TransactionSledTree) -> (r: Result<T, MetaStorageError>)
        ensures
            self.post(txn_contents(*old(tree)), txn_contents(*final(tree)), r),
    ;
}

/// Relies on `sled::Tree::transaction`: runs the body inside the engine's
/// retry loop. A body error that is the conflict signal makes the engine
/// retry; any other body error aborts and is returned verbatim; an engine
/// failure outside the body is reported as an engine error, so the conflict
/// signal itself never surfaces. On success the committed contents are what
/// the one committed attempt left behind, and that attempt started from the
/// committed contents, since this handle is the tree's only writer; an
/// aborted attempt's staged writes are discarded, so a non-engine failure
/// leaves the tree unchanged. Progress under repeated conflicts is the
/// engine's retry policy.
#[verifier::external_body]
fn txn_run<T, F: SledTxnFn<T>>(t: &mut sled::Tree, sync: bool, f: &F) -> (r: Result<
    T,
    MetaStorageError,
>)
    ensures
        r is Ok ==> f.post(tree_contents(*old(t)), tree_contents(*final(t)), r),
        r is Err ==> !(r->Err_0 is TransactionConflict),
        r is Err && !(r->Err_0 is SledError) ==> tree_contents(*final(t)) == tree_contents(
            *old(t),
        ),
        r is Err ==> (r->Err_0 is SledError || (exists|
            m1: Map<Seq<u8>, Seq<u8>>,
            m2: Map<Seq<u8>, Seq<u8>>,
        | f.post(m1, m2, r))),
{
    let r: sled::transaction::TransactionResult<T, MetaStorageError> = t.transaction(|txt| {
        match f.txn_fn(&mut TransactionSledTree { txn_tree: txt }) {
            Ok(x) => {
                if sync { txt.flush(); }
                Ok(x)
            },
            Err(e) if e.is_conflict() => Err(sled::transaction::ConflictableTransactionError::Conflict),
            Err(e) => Err(sled::transaction::ConflictableTransactionError::Abort(e)),
        }
    });
    match r {
        Ok(x) => Ok(x),
        Err(sled::transaction::TransactionError::Abort(e)) => Err(e),
        Err(sled::transaction::TransactionError::Storage(e)) => Err(MetaStorageError::SledError(format!("transaction: {}", e))),
    }
}

impl SledTree {
    /// Run `f` as one transaction. The effective durability of the commit is
    /// the conjunction of the caller's wish and this handle's policy. The
    /// conflict signal is never swallowed and never surfaces: it drives the
    /// engine's retry; any other error of the body aborts the transaction,
    /// its staged writes are discarded, and the error is returned verbatim.
    pub fn txn<T, F: SledTxnFn<T>>(&mut self, sync: bool, f: &F) -> (r: Result<
        T,
        MetaStorageError,
    >)
        ensures
            r is Ok ==> f.post(old(self).kvs(), final(self).kvs(), r),
            r is Err ==> !(r->Err_0 is TransactionConflict),
            r is Err && !(r->Err_0 is SledError) ==> final(self).kvs() == old(self).kvs(),
            r is Err ==> (r->Err_0 is SledError || (exists|
                m1: Map<Seq<u8>, Seq<u8>>,
                m2: Map<Seq<u8>, Seq<u8>>,
            | f.post(m1, m2, r))),
            final(self).name == old(self).name && final(self).spec_sync() == old(
                self,
            ).spec_sync(),
    {
        let effective = sync && self.sync;
        txn_run(&mut self.tree, effective, f)
    }
}

/// A transaction body that increments a counter of the [`crate::spaces::SeqValues`]
/// space: it reads the counter, adds one (saturating at the largest value),
/// writes it back, and returns the new value. A missing counter counts as
/// zero.
pub struct IncrementTxn {
    pub key: u64,
}

impl SledTxnFn<u64> for IncrementTxn {
    open spec fn post(
        &self,
        pre: Map<Seq<u8>, Seq<u8>>,
        post: Map<Seq<u8>, Seq<u8>>,
        r: Result<u64, MetaStorageError>,
    ) -> bool {
        r matches Ok(n) ==> {
            let sk = crate::spaces::SeqValues::spec_key(self.key);
            &&& post == pre.insert(sk, crate::spaces::SeqValues::spec_value(n))
            &&& (!pre.contains_key(sk) ==> n == 1)
            &&& (pre.contains_key(sk) ==> (exists|c: u64|
                crate::spaces::SeqValues::spec_value(c) == pre[sk] && n == (if c
                    == 0xFFFF_FFFF_FFFF_FFFFu64 {
                    c
                } else {
                    (c + 1) as u64
                })))
        }
    }

    fn txn_fn(&self, tree: &mut TransactionSledTree) -> (r: Result<u64, MetaStorageError>) {
        let f = |cur: Option<u64>| -> (out: Option<u64>)
            ensures
                out matches Some(n) && (match cur {
                    None => n == 1,
                    Some(c) => n == (if c == 0xFFFF_FFFF_FFFF_FFFFu64 {
                        c
                    } else {
                        (c + 1) as u64
                    }),
                }),
            {
                match cur {
                    None => Some(1),
                    Some(c) => if c == 0xFFFF_FFFF_FFFF_FFFF {
                        Some(c)
                    } else {
                        Some(c + 1)
                    },
                }
            };
        let got = tree.update_and_fetch::<crate::spaces::SeqValues, _>(&self.key, f)?;
        match got {
            Some(n) => Ok(n),
            None => Err(MetaStorageError::SledError(String::new())),
        }
    }
}

/// A transaction body that reads a counter of the
/// [`crate::spaces::SeqValues`] space and writes it back unchanged: storage
/// is left exactly as it was and the current value comes back.
pub struct IdentityTxn {
    pub key: u64,
}

impl SledTxnFn<Option<u64>> for IdentityTxn {
    open spec fn post(
        &self,
        pre: Map<Seq<u8>, Seq<u8>>,
        post: Map<Seq<u8>, Seq<u8>>,
        r: Result<Option<u64>, MetaStorageError>,
    ) -> bool {
        r matches Ok(res) ==> {
            let sk = crate::spaces::SeqValues::spec_key(self.key);
            &&& post == pre
            &&& (res is Some <==> pre.contains_key(sk))
            &&& (res matches Some(v) ==> crate::spaces::SeqValues::spec_value(v) == pre[sk])
        }
    }

    fn txn_fn(&self, tree: &mut TransactionSledTree) -> (r: Result<
        Option<u64>,
        MetaStorageError,
    >) {
        let f = |cur: Option<u64>| -> (out: Option<u64>)
            ensures
                out == cur,
            { cur };
        let got = tree.update_and_fetch::<crate::spaces::SeqValues, _>(&self.key, f);
        match got {
            Ok(res) => {
                proof {
                    crate::laws::lemma_update_fetch_identity::<crate::spaces::SeqValues, _>(
                        f,
                        txn_contents(*old(tree)),
                        txn_contents(*tree),
                        self.key,
                        res,
                    );
                }
                Ok(res)
            },
            Err(e) => Err(e),
        }
    }
}

/// A transaction body that moves the counter stored under one key of the
/// [`crate::spaces::SeqValues`] space to another key, atomically: both the
/// removal and the insert commit, or neither does. Returns the moved value,
/// or nothing when the source key is empty.
pub struct MoveValueTxn {
    pub from: u64,
    pub to: u64,
}

impl SledTxnFn<Option<u64>> for MoveValueTxn {
    open spec fn post(
        &self,
        pre: Map<Seq<u8>, Seq<u8>>,
        post: Map<Seq<u8>, Seq<u8>>,
        r: Result<Option<u64>, MetaStorageError>,
    ) -> bool {
        r matches Ok(res) ==> {
            let skf = crate::spaces::SeqValues::spec_key(self.from);
            let skt = crate::spaces::SeqValues::spec_key(self.to);
            &&& (res is Some <==> pre.contains_key(skf))
            &&& (match res {
                Some(v) => crate::spaces::SeqValues::spec_value(v) == pre[skf] && post
                    == pre.insert(skt, pre[skf]).remove(skf),
                None => post == pre,
            })
        }
    }

    fn txn_fn(&self, tree: &mut TransactionSledTree) -> (r: Result<
        Option<u64>,
        MetaStorageError,
    >) {
        let got = tree.get::<crate::spaces::SeqValues>(&self.from)?;
        match got {
            None => Ok(None),
            Some(v) => {
                tree.insert::<crate::spaces::SeqValues>(&self.to, &v)?;
                tree.remove::<crate::spaces::SeqValues>(&self.from)?;
                Ok(Some(v))
            },
        }
    }
}

} // verus!
