use sled_store::errors::MetaStorageError;
use sled_store::order::KeyBound;
use sled_store::spaces::SeqValues;
use sled_store::spaces::SpaceA;
use sled_store::spaces::SpaceB;
use sled_store::tree::SledTree;
use sled_store::txn::IdentityTxn;
use sled_store::txn::IncrementTxn;

fn temp_tree(sync: bool) -> (sled::Db, SledTree) {
    let db = sled::Config::new().temporary(true).open().unwrap();
    let tree = SledTree::open(&db, "main", sync).unwrap();
    (db, tree)
}

fn s(text: &str) -> String {
    String::from(text)
}

#[test]
fn point_lifecycle() {
    let (_db, mut tree) = temp_tree(false);
    assert_eq!(tree.insert::<SpaceA>(&1, &s("a")).unwrap(), None);
    assert_eq!(tree.insert::<SpaceA>(&2, &s("b")).unwrap(), None);
    assert_eq!(tree.get::<SpaceA>(&1).unwrap(), Some(s("a")));
    assert_eq!(tree.get::<SpaceA>(&3).unwrap(), None);
    assert_eq!(tree.last::<SpaceA>().unwrap(), Some((2, s("b"))));
    assert_eq!(tree.remove::<SpaceA>(&2, false).unwrap(), Some(s("b")));
    assert_eq!(tree.last::<SpaceA>().unwrap(), Some((1, s("a"))));
}

#[test]
fn insert_returns_previous_value() {
    let (_db, mut tree) = temp_tree(false);
    assert_eq!(tree.insert::<SpaceA>(&7, &s("old")).unwrap(), None);
    assert_eq!(tree.insert::<SpaceA>(&7, &s("new")).unwrap(), Some(s("old")));
    assert_eq!(tree.get::<SpaceA>(&7).unwrap(), Some(s("new")));
}

#[test]
fn range_read() {
    let (_db, mut tree) = temp_tree(false);
    for (k, v) in [(1, "a"), (2, "b"), (3, "c"), (4, "d")] {
        tree.insert::<SpaceA>(&k, &s(v)).unwrap();
    }
    let keys = tree
        .range_keys::<SpaceA>(&KeyBound::Included(2), &KeyBound::Included(3))
        .unwrap();
    assert_eq!(keys, vec![2, 3]);

    let all = tree
        .range::<SpaceA>(&KeyBound::Unbounded, &KeyBound::Unbounded)
        .unwrap();
    let reversed: Vec<(u64, String)> = all.into_iter().rev().collect();
    assert_eq!(
        reversed,
        vec![(4, s("d")), (3, s("c")), (2, s("b")), (1, s("a"))]
    );
}

#[test]
fn range_half_open_and_values() {
    let (_db, mut tree) = temp_tree(false);
    for (k, v) in [(1, "a"), (2, "b"), (3, "c"), (4, "d")] {
        tree.insert::<SpaceA>(&k, &s(v)).unwrap();
    }
    let keys = tree
        .range_keys::<SpaceA>(&KeyBound::Included(2), &KeyBound::Excluded(4))
        .unwrap();
    assert_eq!(keys, vec![2, 3]);
    let values = tree
        .range_values::<SpaceA>(&KeyBound::Excluded(1), &KeyBound::Unbounded)
        .unwrap();
    assert_eq!(values, vec![s("b"), s("c"), s("d")]);
}

#[test]
fn range_remove_leaves_ends() {
    let (_db, mut tree) = temp_tree(false);
    for (k, v) in [(1, "a"), (2, "b"), (3, "c"), (4, "d")] {
        tree.insert::<SpaceA>(&k, &s(v)).unwrap();
    }
    tree.range_remove::<SpaceA>(&KeyBound::Included(2), &KeyBound::Excluded(4), true)
        .unwrap();
    let kvs = tree
        .range_kvs::<SpaceA>(&KeyBound::Unbounded, &KeyBound::Unbounded)
        .unwrap();
    assert_eq!(kvs, vec![(1, s("a")), (4, s("d"))]);
}

#[test]
fn prefix_scan_under_multiple_spaces() {
    let (_db, mut tree) = temp_tree(false);
    tree.insert::<SpaceA>(&1, &s("x")).unwrap();
    tree.insert::<SpaceB>(&1, &s("y")).unwrap();
    assert_eq!(tree.get::<SpaceA>(&1).unwrap(), Some(s("x")));
    assert_eq!(tree.get::<SpaceB>(&1).unwrap(), Some(s("y")));
    let a = tree
        .range_kvs::<SpaceA>(&KeyBound::Unbounded, &KeyBound::Unbounded)
        .unwrap();
    let b = tree
        .range_kvs::<SpaceB>(&KeyBound::Unbounded, &KeyBound::Unbounded)
        .unwrap();
    assert_eq!(a, vec![(1, s("x"))]);
    assert_eq!(b, vec![(1, s("y"))]);
    let scanned = tree.scan_prefix::<SpaceA>(&1).unwrap();
    assert_eq!(scanned, vec![(1, s("x"))]);
}

#[test]
fn last_ignores_other_spaces() {
    let (_db, mut tree) = temp_tree(false);
    tree.insert::<SpaceA>(&5, &s("a5")).unwrap();
    tree.insert::<SpaceB>(&9, &s("b9")).unwrap();
    assert_eq!(tree.last::<SpaceA>().unwrap(), Some((5, s("a5"))));
    assert_eq!(tree.last::<SpaceB>().unwrap(), Some((9, s("b9"))));
}

#[test]
fn append_batch_all_visible() {
    let (_db, mut tree) = temp_tree(false);
    let kvs = vec![(10, s("ten")), (20, s("twenty")), (30, s("thirty"))];
    tree.append::<SpaceA>(&kvs).unwrap();
    assert_eq!(tree.get::<SpaceA>(&10).unwrap(), Some(s("ten")));
    assert_eq!(tree.get::<SpaceA>(&20).unwrap(), Some(s("twenty")));
    assert_eq!(tree.get::<SpaceA>(&30).unwrap(), Some(s("thirty")));
    assert_eq!(
        tree.range_keys::<SpaceA>(&KeyBound::Unbounded, &KeyBound::Unbounded)
            .unwrap(),
        vec![10, 20, 30]
    );
}

#[test]
fn append_values_uses_embedded_keys() {
    let (_db, mut tree) = temp_tree(false);
    tree.append_values::<SeqValues>(&vec![3, 1, 2]).unwrap();
    assert_eq!(
        tree.range_keys::<SeqValues>(&KeyBound::Unbounded, &KeyBound::Unbounded)
            .unwrap(),
        vec![1, 2, 3]
    );
    assert_eq!(tree.get::<SeqValues>(&2).unwrap(), Some(2));
}

#[test]
fn idempotent_remove() {
    let (_db, mut tree) = temp_tree(false);
    tree.insert::<SpaceA>(&1, &s("v")).unwrap();
    assert_eq!(tree.remove::<SpaceA>(&1, true).unwrap(), Some(s("v")));
    assert_eq!(tree.remove::<SpaceA>(&1, true).unwrap(), None);
    assert_eq!(tree.get::<SpaceA>(&1).unwrap(), None);
}

#[test]
fn order_preserved_for_any_insertion_order() {
    let (_db, mut tree) = temp_tree(false);
    for k in [5u64, 1, 9, 3, 7, 2, 8, 4, 6] {
        tree.insert::<SpaceA>(&k, &s("v")).unwrap();
    }
    let keys = tree
        .range_keys::<SpaceA>(&KeyBound::Unbounded, &KeyBound::Unbounded)
        .unwrap();
    assert_eq!(keys, vec![1, 2, 3, 4, 5, 6, 7, 8, 9]);
}

#[test]
fn export_enumerates_everything_in_byte_order() {
    let (_db, mut tree) = temp_tree(false);
    tree.insert::<SpaceB>(&1, &s("b1")).unwrap();
    tree.insert::<SpaceA>(&2, &s("a2")).unwrap();
    tree.insert::<SpaceA>(&1, &s("a1")).unwrap();
    let exported = tree.export().unwrap();
    assert_eq!(exported.len(), 3);
    for pair in &exported {
        assert_eq!(pair.len(), 2);
    }
    // Ascending by raw bytes: the tag byte dominates, so both entries of the
    // first space come before the entry of the second.
    assert!(exported[0][0] < exported[1][0]);
    assert!(exported[1][0] < exported[2][0]);
    assert_eq!(exported[0][1], s("a1").into_bytes());
    assert_eq!(exported[1][1], s("a2").into_bytes());
    assert_eq!(exported[2][1], s("b1").into_bytes());
}

#[test]
fn transactional_increment_reaches_total() {
    let (_db, mut tree) = temp_tree(false);
    for _ in 0..100 {
        tree.txn(true, &IncrementTxn { key: 42 }).unwrap();
    }
    assert_eq!(tree.get::<SeqValues>(&42).unwrap(), Some(100));
}

#[test]
fn transactions_with_disjoint_writes_both_commit() {
    let (_db, mut tree) = temp_tree(false);
    let first = tree.txn(true, &IncrementTxn { key: 1 }).unwrap();
    let second = tree.txn(true, &IncrementTxn { key: 2 }).unwrap();
    assert_eq!(first, 1);
    assert_eq!(second, 1);
    assert_eq!(tree.get::<SeqValues>(&1).unwrap(), Some(1));
    assert_eq!(tree.get::<SeqValues>(&2).unwrap(), Some(1));
}

#[test]
fn update_and_fetch_identity_leaves_storage_unchanged() {
    let (_db, mut tree) = temp_tree(false);
    tree.insert::<SeqValues>(&7, &7).unwrap();
    let before = tree.export().unwrap();
    let got = tree.txn(true, &IdentityTxn { key: 7 }).unwrap();
    assert_eq!(got, Some(7));
    let after = tree.export().unwrap();
    assert_eq!(before, after);
}

#[test]
fn sync_flag_insert_returns_and_is_visible() {
    let (_db, mut fast) = temp_tree(false);
    assert_eq!(fast.insert::<SpaceA>(&1, &s("a")).unwrap(), None);
    assert_eq!(fast.get::<SpaceA>(&1).unwrap(), Some(s("a")));
    let (_db2, mut durable) = temp_tree(true);
    assert_eq!(durable.insert::<SpaceA>(&1, &s("a")).unwrap(), None);
    assert_eq!(durable.get::<SpaceA>(&1).unwrap(), Some(s("a")));
}

#[test]
fn errors_carry_their_kind() {
    let e = MetaStorageError::TransactionConflict;
    assert!(e.is_conflict());
    let b = MetaStorageError::BytesError(String::new());
    assert!(!b.is_conflict());
}

#[test]
fn key_space_view_round_trip() {
    let (_db, tree) = temp_tree(false);
    let mut view = tree.key_space::<SpaceA>();
    assert_eq!(view.insert(&1, &s("one")).unwrap(), None);
    assert_eq!(view.get(&1).unwrap(), Some(s("one")));
    assert_eq!(view.last().unwrap(), Some((1, s("one"))));
    let mut tree = view.into_inner();
    assert_eq!(tree.get::<SpaceA>(&1).unwrap(), Some(s("one")));
    let mut view = tree.key_space::<SpaceA>();
    view.clear().unwrap();
    assert_eq!(view.get(&1).unwrap(), None);
}

#[test]
fn serialized_keys_preserve_order_as_bytes() {
    // The codec itself: a bigger key must serialize to lexicographically
    // bigger bytes, and a wrapper handing back its argument unchanged would
    // fail the round trip below.
    let (_db, mut tree) = temp_tree(false);
    for k in [0u64, 1, 255, 256, 65535, 65536, u64::MAX] {
        tree.insert::<SpaceA>(&k, &s("v")).unwrap();
    }
    let keys = tree
        .range_keys::<SpaceA>(&KeyBound::Unbounded, &KeyBound::Unbounded)
        .unwrap();
    assert_eq!(keys, vec![0, 1, 255, 256, 65535, 65536, u64::MAX]);
    assert_eq!(tree.last::<SpaceA>().unwrap(), Some((u64::MAX, s("v"))));
}

#[test]
fn transactional_move_is_atomic_on_success() {
    let (_db, mut tree) = temp_tree(false);
    tree.insert::<SeqValues>(&1, &77).unwrap();
    let moved = tree
        .txn(true, &sled_store::txn::MoveValueTxn { from: 1, to: 2 })
        .unwrap();
    assert_eq!(moved, Some(77));
    assert_eq!(tree.get::<SeqValues>(&1).unwrap(), None);
    assert_eq!(tree.get::<SeqValues>(&2).unwrap(), Some(77));
    let empty = tree
        .txn(true, &sled_store::txn::MoveValueTxn { from: 9, to: 3 })
        .unwrap();
    assert_eq!(empty, None);
    assert_eq!(tree.get::<SeqValues>(&3).unwrap(), None);
}
