//! The trusted boundary to the `sled` engine.
//!
//! A physical tree is modelled as a map from byte keys to byte values,
//! [`tree_contents`]. Every wrapper below relies on one `sled` operation and
//! states over that map what the operation's source shows: `sled` keeps keys
//! in lexicographic byte order, iterates ranges in ascending order, and
//! applies a batch atomically with the last write per key winning.
//!
//! The model reads the contents as a function of the handle value, so it is
//! sound only while each physical tree is reached through one handle:
//! `sled::Tree` handles alias when the same tree name is opened twice, and
//! two handles to one tree would let verified code derive contradictions.
//! Nothing in this crate opens a tree twice, and callers must not either.

use vstd::prelude::*;

use crate::errors::MetaStorageError;
use crate::order::KeyBound;
use crate::order::byte_in_range;
use crate::order::has_prefix;
use crate::order::lex_le;
use crate::order::lex_lt;

verus! {

#[verifier::external_type_specification]
#[verifier::external_body]
pub struct ExDb(sled::Db);

#[verifier::external_type_specification]
#[verifier::external_body]
pub struct ExTree(sled::Tree);

#[verifier::external_type_specification]
#[verifier::external_body]
pub struct ExTransactionalTree(sled::transaction::TransactionalTree);

/// The committed contents of one physical tree: a map from byte keys to byte
/// values.
pub uninterp spec fn tree_contents(t: sled::Tree) -> Map<Seq<u8>, Seq<u8>>;

/// The contents after a sequence of writes is applied in order: a pair with a
/// value is an insert, a pair without one is a removal, and a later write to
/// the same key wins.
pub open spec fn apply_writes(
    m: Map<Seq<u8>, Seq<u8>>,
    ops: Seq<(Vec<u8>, Option<Vec<u8>>)>,
) -> Map<Seq<u8>, Seq<u8>>
    decreases ops.len(),
{
    if ops.len() == 0 {
        m
    } else {
        let rest = apply_writes(m, ops.drop_last());
        match ops.last().1 {
            Some(v) => rest.insert(ops.last().0@, v@),
            None => rest.remove(ops.last().0@),
        }
    }
}

/// A sequence of removals (writes without a value) takes out exactly its
/// keys and touches nothing else.
pub proof fn lemma_apply_writes_none(
    m: Map<Seq<u8>, Seq<u8>>,
    ops: Seq<(Vec<u8>, Option<Vec<u8>>)>,
    b: Seq<u8>,
)
    requires
        forall|i: int| 0 <= i < ops.len() ==> (#[trigger] ops[i]).1 is None,
    ensures
        apply_writes(m, ops).contains_key(b) <==> (m.contains_key(b) && !(exists|i: int|
            0 <= i < ops.len() && (#[trigger] ops[i]).0@ == b)),
        apply_writes(m, ops).contains_key(b) ==> apply_writes(m, ops)[b] == m[b],
    decreases ops.len(),
{
    if ops.len() > 0 {
        lemma_apply_writes_none(m, ops.drop_last(), b);
        let short = ops.drop_last();
        assert forall|i: int| 0 <= i < short.len() implies (#[trigger] short[i]).1 is None by {
            assert(short[i] == ops[i]);
        }
        if ops.last().0@ == b {
            assert(ops[ops.len() - 1].0@ == b);
        } else {
            assert forall|i: int|
                0 <= i < short.len() && (#[trigger] short[i]).0@ == b implies (0 <= i < ops.len()
                && ops[i].0@ == b) by {}
            assert forall|i: int|
                0 <= i < ops.len() && (#[trigger] ops[i]).0@ == b implies (0 <= i < short.len()
                && short[i].0@ == b) by {
                assert(i != ops.len() - 1);
            }
        }
    }
}

/// Relies on `sled::Db::open_tree`: opens (or creates) the named tree.
/// Nothing is known of the opened tree's contents; they are whatever the
/// engine recovered.
#[verifier::external_body]
pub(crate) fn open_tree_raw(db: &sled::Db, name: &str) -> (r: Result<sled::Tree, MetaStorageError>)
    ensures
        r is Err ==> r->Err_0 is SledError,
{
    match db.open_tree(name) {
        Ok(t) => Ok(t),
        Err(e) => Err(MetaStorageError::SledError(format!("open tree: {}: {}", name, e))),
    }
}

/// Relies on `sled::Tree::get`: returns the value stored under the key, if
/// any.
#[verifier::external_body]
pub(crate) fn get_raw(t: &sled::Tree, k: &Vec<u8>, name: &str, space: &str, op: &str) -> (r: Result<
    Option<Vec<u8>>,
    MetaStorageError,
>)
    ensures
        r is Ok ==> (r->Ok_0 is Some <==> tree_contents(*t).contains_key(k@)),
        r is Ok && r->Ok_0 is Some ==> r->Ok_0->0@ == tree_contents(*t)[k@],
        r is Err ==> r->Err_0 is SledError,
{
    match t.get(k) {
        Ok(got) => Ok(got.map(|v| v.to_vec())),
        Err(e) => Err(MetaStorageError::SledError(format!("{}:{}/{}: {}", name, space, op, e))),
    }
}

/// Relies on `sled::Tree::insert`: stores the value under the key and returns
/// the previous value, if any. On failure the write may or may not have
/// become visible: the in-memory update can succeed before a later step of
/// the same call reports an I/O error.
#[verifier::external_body]
pub(crate) fn insert_raw(t: &mut sled::Tree, k: &Vec<u8>, v: &Vec<u8>, name: &str, space: &str, op: &str) -> (r: Result<
    Option<Vec<u8>>,
    MetaStorageError,
>)
    ensures
        r is Ok ==> tree_contents(*final(t)) == tree_contents(*old(t)).insert(k@, v@),
        r is Ok ==> (r->Ok_0 is Some <==> tree_contents(*old(t)).contains_key(k@)),
        r is Ok && r->Ok_0 is Some ==> r->Ok_0->0@ == tree_contents(*old(t))[k@],
        r is Err ==> r->Err_0 is SledError && (tree_contents(*final(t)) == tree_contents(*old(t))
            || tree_contents(*final(t)) == tree_contents(*old(t)).insert(k@, v@)),
{
    match t.insert(k.clone(), v.clone()) {
        Ok(prev) => Ok(prev.map(|p| p.to_vec())),
        Err(e) => Err(MetaStorageError::SledError(format!("{}:{}/{}: {}", name, space, op, e))),
    }
}

/// Relies on `sled::Tree::remove`: removes the key and returns the value it
/// held, if any. On failure the removal may or may not have become visible,
/// as for an insert.
#[verifier::external_body]
pub(crate) fn remove_raw(t: &mut sled::Tree, k: &Vec<u8>, name: &str, space: &str, op: &str) -> (r: Result<
    Option<Vec<u8>>,
    MetaStorageError,
>)
    ensures
        r is Ok ==> tree_contents(*final(t)) == tree_contents(*old(t)).remove(k@),
        r is Ok ==> (r->Ok_0 is Some <==> tree_contents(*old(t)).contains_key(k@)),
        r is Ok && r->Ok_0 is Some ==> r->Ok_0->0@ == tree_contents(*old(t))[k@],
        r is Err ==> r->Err_0 is SledError && (tree_contents(*final(t)) == tree_contents(*old(t))
            || tree_contents(*final(t)) == tree_contents(*old(t)).remove(k@)),
{
    match t.remove(k.clone()) {
        Ok(prev) => Ok(prev.map(|p| p.to_vec())),
        Err(e) => Err(MetaStorageError::SledError(format!("{}:{}/{}: {}", name, space, op, e))),
    }
}

/// Relies on `sled::Tree::range`: yields every pair whose key lies in the
/// byte range, in ascending lexicographic key order.
#[verifier::external_body]
pub(crate) fn range_pairs_raw(
    t: &sled::Tree,
    lo: &KeyBound<Vec<u8>>,
    hi: &KeyBound<Vec<u8>>,
    name: &str,
    space: &str,
    op: &str,
) -> (r: Result<Vec<(Vec<u8>, Vec<u8>)>, MetaStorageError>)
    ensures
        r is Ok ==> (forall|i: int, j: int|
            0 <= i < j < r->Ok_0@.len() ==> lex_lt(r->Ok_0@[i].0@, r->Ok_0@[j].0@)),
        r is Ok ==> (forall|i: int|
            0 <= i < r->Ok_0@.len() ==> byte_in_range(#[trigger] r->Ok_0@[i].0@, *lo, *hi)
                && tree_contents(*t).contains_key(r->Ok_0@[i].0@) && tree_contents(*t)[r->Ok_0@[i].0@]
                == r->Ok_0@[i].1@),
        r is Ok ==> (forall|b: Seq<u8>|
            #[trigger] tree_contents(*t).contains_key(b) && byte_in_range(b, *lo, *hi)
                ==> exists|i: int| 0 <= i < r->Ok_0@.len() && #[trigger] r->Ok_0@[i].0@ == b),
        r is Err ==> r->Err_0 is SledError,
{
    let to_bound = |b: &KeyBound<Vec<u8>>| match b {
        KeyBound::Unbounded => std::ops::Bound::Unbounded,
        KeyBound::Included(x) => std::ops::Bound::Included(x.clone()),
        KeyBound::Excluded(x) => std::ops::Bound::Excluded(x.clone()),
    };
    let mut res = Vec::new();
    for item in t.range((to_bound(lo), to_bound(hi))) {
        match item {
            Ok((k, v)) => res.push((k.to_vec(), v.to_vec())),
            Err(e) => return Err(MetaStorageError::SledError(format!("{}:{}/{}: {}", name, space, op, e))),
        }
    }
    Ok(res)
}

/// Relies on `sled::Tree::range` taken from its back end: returns the pair
/// with the greatest key in the byte range, if the range holds any.
#[verifier::external_body]
pub(crate) fn last_in_range_raw(
    t: &sled::Tree,
    lo: &KeyBound<Vec<u8>>,
    hi: &KeyBound<Vec<u8>>,
    name: &str,
    space: &str,
    op: &str,
) -> (r: Result<Option<(Vec<u8>, Vec<u8>)>, MetaStorageError>)
    ensures
        r is Ok ==> (r->Ok_0 matches Some(kv) ==> tree_contents(*t).contains_key(kv.0@)
            && tree_contents(*t)[kv.0@] == kv.1@ && byte_in_range(kv.0@, *lo, *hi)),
        r is Ok ==> (r->Ok_0 matches Some(kv) ==> (forall|b: Seq<u8>|
            #[trigger] tree_contents(*t).contains_key(b) && byte_in_range(b, *lo, *hi) ==> lex_le(
                b,
                kv.0@,
            ))),
        r is Ok && r->Ok_0 is None ==> (forall|b: Seq<u8>|
            #[trigger] tree_contents(*t).contains_key(b) ==> !byte_in_range(b, *lo, *hi)),
        r is Err ==> r->Err_0 is SledError,
{
    let to_bound = |b: &KeyBound<Vec<u8>>| match b {
        KeyBound::Unbounded => std::ops::Bound::Unbounded,
        KeyBound::Included(x) => std::ops::Bound::Included(x.clone()),
        KeyBound::Excluded(x) => std::ops::Bound::Excluded(x.clone()),
    };
    match t.range((to_bound(lo), to_bound(hi))).next_back() {
        None => Ok(None),
        Some(Ok((k, v))) => Ok(Some((k.to_vec(), v.to_vec()))),
        Some(Err(e)) => Err(MetaStorageError::SledError(format!("{}:{}/{}: {}", name, space, op, e))),
    }
}

/// Relies on `sled::Tree::scan_prefix`: yields every pair whose key starts
/// with the given bytes, in ascending lexicographic key order.
#[verifier::external_body]
pub(crate) fn scan_prefix_raw(t: &sled::Tree, p: &Vec<u8>, name: &str, space: &str, op: &str) -> (r: Result<
    Vec<(Vec<u8>, Vec<u8>)>,
    MetaStorageError,
>)
    ensures
        r is Ok ==> (forall|i: int, j: int|
            0 <= i < j < r->Ok_0@.len() ==> lex_lt(r->Ok_0@[i].0@, r->Ok_0@[j].0@)),
        r is Ok ==> (forall|i: int|
            0 <= i < r->Ok_0@.len() ==> has_prefix(p@, #[trigger] r->Ok_0@[i].0@)
                && tree_contents(*t).contains_key(r->Ok_0@[i].0@) && tree_contents(*t)[r->Ok_0@[i].0@]
                == r->Ok_0@[i].1@),
        r is Ok ==> (forall|b: Seq<u8>|
            #[trigger] tree_contents(*t).contains_key(b) && has_prefix(p@, b)
                ==> exists|i: int| 0 <= i < r->Ok_0@.len() && #[trigger] r->Ok_0@[i].0@ == b),
        r is Err ==> r->Err_0 is SledError,
{
    let mut res = Vec::new();
    for item in t.scan_prefix(p) {
        match item {
            Ok((k, v)) => res.push((k.to_vec(), v.to_vec())),
            Err(e) => return Err(MetaStorageError::SledError(format!("{}:{}/{}: {}", name, space, op, e))),
        }
    }
    Ok(res)
}

/// Relies on `sled::Batch` and `sled::Tree::apply_batch`: the writes are
/// applied as one atomic batch; a batch is a map keyed by byte key, so the
/// last write to a key wins.
#[verifier::external_body]
pub(crate) fn apply_writes_raw(
    t: &mut sled::Tree,
    ops: &Vec<(Vec<u8>, Option<Vec<u8>>)>,
    name: &str,
    space: &str,
    op: &str,
) -> (r: Result<(), MetaStorageError>)
    ensures
        r is Ok ==> tree_contents(*final(t)) == apply_writes(tree_contents(*old(t)), ops@),
        r is Err ==> r->Err_0 is SledError,
{
    let mut batch = sled::Batch::default();
    for (k, w) in ops.iter() {
        match w {
            Some(v) => batch.insert(k.clone(), v.clone()),
            None => batch.remove(k.clone()),
        }
    }
    match t.apply_batch(batch) {
        Ok(()) => Ok(()),
        Err(e) => Err(MetaStorageError::SledError(format!("{}:{}/{}: {}", name, space, op, e))),
    }
}

/// A tree with nothing in it.
pub open spec fn empty_contents() -> Map<Seq<u8>, Seq<u8>> {
    Map::empty()
}

/// Relies on `sled::Tree::clear`: removes every pair of the physical tree.
#[verifier::external_body]
pub(crate) fn clear_raw(t: &mut sled::Tree, name: &str, op: &str) -> (r: Result<(), MetaStorageError>)
    ensures
        r is Ok ==> tree_contents(*final(t)) == empty_contents(),
        r is Err ==> r->Err_0 is SledError,
{
    match t.clear() {
        Ok(()) => Ok(()),
        Err(e) => Err(MetaStorageError::SledError(format!("{}/{}: {}", name, op, e))),
    }
}

/// Relies on `sled::Tree::flush`: blocks until prior writes are durable. The
/// tree's contents are untouched.
#[verifier::external_body]
pub(crate) fn flush_raw(t: &sled::Tree, name: &str, op: &str) -> (r: Result<(), MetaStorageError>)
    ensures
        r is Err ==> r->Err_0 is SledError,
{
    match t.flush() {
        Ok(_) => Ok(()),
        Err(e) => Err(MetaStorageError::SledError(format!("{}/{}: {}", name, op, e))),
    }
}

} // verus!
