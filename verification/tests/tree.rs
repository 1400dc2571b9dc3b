//! The tree: insertion, removal, walks, and what its self-check catches.

use clob::bytes::Plain;
use clob::tree::{Handle, Invariant, Node, RedBlackTree, BLACK, NIL, RED};

type Tree = RedBlackTree<u64, u64, 64>;
type SmallTree = RedBlackTree<u64, u64, 16>;

fn ascending_keys(tree: &Tree) -> Vec<u64> {
    let mut keys = Vec::new();
    let mut entries = tree.iter();
    while let Some(entry) = entries.next() {
        keys.push(entry.key);
    }
    keys
}

fn descending_keys(tree: &Tree) -> Vec<u64> {
    let mut keys = Vec::new();
    let mut entries = tree.iter_rev();
    while let Some(entry) = entries.next() {
        keys.push(entry.key);
    }
    keys
}

/// The tree's bytes with the length field raised by one, read back.
fn with_stale_length(tree: &SmallTree) -> Box<SmallTree> {
    let mut bytes = Vec::new();
    tree.put(&mut bytes);
    bytes[12] += 1;
    SmallTree::take(&bytes, 0)
}



fn height(tree: &Tree, handle: Handle) -> u32 {
    if handle == NIL {
        return 0;
    }
    1 + height(tree, tree.node(handle).left).max(height(tree, tree.node(handle).right))
}

#[test]
fn ascending_insertion_stays_balanced() {
    // The pathological case for an unbalanced BST.
    let mut tree = Tree::new_boxed();
    for key in 0..64u64 {
        assert!(tree.insert(key, key).is_some());
        assert_eq!(tree.check(), Ok(()));
    }

    assert_eq!(tree.len(), 64);
    // A balanced tree of 64 nodes has height at most 2*log2(65) ~= 12.
    assert!(height(&tree, tree.root()) <= 12);
}

#[test]
fn duplicate_keys_overwrite_without_growing() {
    let mut tree = Tree::new_boxed();
    tree.insert(7, 1);
    tree.insert(7, 2);

    assert_eq!(tree.len(), 1);
    assert_eq!(tree.get(&7), Some(&2));
    assert_eq!(tree.check(), Ok(()));
}

#[test]
fn a_full_tree_rejects_new_keys_but_still_overwrites() {
    let mut tree = Tree::new_boxed();
    for key in 0..64u64 {
        tree.insert(key, key);
    }

    assert!(tree.is_full());
    assert_eq!(tree.insert(999, 999), None);
    assert!(tree.insert(0, 111).is_some());
    assert_eq!(tree.get(&0), Some(&111));
    assert_eq!(tree.len(), 64);
}



#[test]
fn a_healthy_tree_passes() {
    let mut tree = SmallTree::new_boxed();
    for key in 0..16u64 {
        tree.insert(key, key);
    }
    assert_eq!(tree.check(), Ok(()));
}

#[test]
fn detects_a_corrupted_root_colour() {
    let mut tree = SmallTree::new_boxed();
    tree.insert(1, 1);

    let root = tree.root();
    tree.node_mut(root).color = RED;

    assert_eq!(tree.check(), Err(Invariant::RootNotBlack));
}

#[test]
fn detects_a_broken_ordering() {
    let mut tree = SmallTree::new_boxed();
    for key in 0..8u64 {
        tree.insert(key, key);
    }

    // Rewrite a key in place, breaking the BST property without touching links.
    let handle = tree.find(&0);
    tree.node_mut(handle).key = 999;

    assert_eq!(tree.check(), Err(Invariant::BstOrderViolation));
}

#[test]
fn detects_a_stale_length() {
    let mut tree = SmallTree::new_boxed();
    tree.insert(1, 1);
    let tree = with_stale_length(&tree);

    assert_eq!(tree.check(), Err(Invariant::LenMismatch));
}



fn seeded() -> Box<Tree> {
    let mut tree = Tree::new_boxed();
    for key in [8u64, 3, 15, 1, 6, 9, 20, 4] {
        tree.insert(key, key * 10);
    }
    tree
}

#[test]
fn ascending_and_descending_are_mirror_images() {
    let tree = seeded();
    let ascending: Vec<u64> = ascending_keys(&tree);
    let mut descending: Vec<u64> = descending_keys(&tree);
    descending.reverse();

    assert_eq!(ascending, vec![1, 3, 4, 6, 8, 9, 15, 20]);
    assert_eq!(ascending, descending);
}

#[test]
fn length_is_known_up_front() {
    let tree = seeded();
    assert_eq!(tree.iter().len(), 8);
    assert_eq!(tree.iter_rev().len(), 8);
}

#[test]
fn handles_resolve_back_to_their_entries() {
    let tree = seeded();
    let mut entries = tree.iter();
    while let Some(entry) = entries.next() {
        assert_eq!(tree.get_by_handle(entry.handle), Some(&entry.value));
        assert_eq!(tree.find(&entry.key), entry.handle);
    }
}

#[test]
fn an_empty_tree_yields_nothing() {
    let tree = Tree::new_boxed();
    assert_eq!(ascending_keys(&tree).len(), 0);
    assert_eq!(descending_keys(&tree).len(), 0);
}



/// Removal in several orders exercises the leaf, one-child, and two-child splice
/// paths, and both mirror images of the fixup.
#[test]
fn every_removal_order_preserves_the_invariants() {
    let keys: Vec<u64> = (0..40).collect();
    let ascending: Vec<u64> = keys.clone();
    let descending: Vec<u64> = keys.iter().rev().copied().collect();
    let evens_then_odds: Vec<u64> = keys
        .iter()
        .filter(|k| *k % 2 == 0)
        .chain(keys.iter().filter(|k| *k % 2 == 1))
        .copied()
        .collect();
    let rotated: Vec<u64> = keys.iter().skip(13).chain(keys.iter().take(13)).copied().collect();

    for order in [ascending, descending, evens_then_odds, rotated] {
        let mut tree = Tree::new_boxed();
        for key in &keys {
            tree.insert(*key, *key);
        }

        for (removed, key) in order.iter().enumerate() {
            assert_eq!(tree.remove(key), Some(*key));
            assert_eq!(tree.check(), Ok(()), "after removing {key}");
            assert_eq!(tree.len(), keys.len() - removed - 1);
        }

        assert!(tree.is_empty());
        assert_eq!(tree.root(), NIL);
    }
}

#[test]
fn freed_slots_are_reused() {
    let mut tree = Tree::new_boxed();
    for key in 0..64u64 {
        tree.insert(key, key);
    }
    assert_eq!(tree.insert(999, 0), None);

    tree.remove(&30);

    assert!(tree.insert(999, 999).is_some());
    assert_eq!(tree.len(), 64);
    assert_eq!(tree.check(), Ok(()));
}

#[test]
fn removing_by_handle_matches_removing_by_key() {
    let mut tree = Tree::new_boxed();
    for key in 0..20u64 {
        tree.insert(key, key * 2);
    }

    let handle = tree.find(&7);
    assert_ne!(handle, NIL);
    assert_eq!(tree.remove_handle(handle), 14);
    assert_eq!(tree.find(&7), NIL);
    assert_eq!(tree.check(), Ok(()));
}

#[test]
fn removing_an_absent_key_is_a_no_op() {
    let mut tree = Tree::new_boxed();
    tree.insert(1, 1);

    assert_eq!(tree.remove(&2), None);
    assert_eq!(tree.len(), 1);
    assert_eq!(tree.check(), Ok(()));
}

#[test]
fn the_first_violation_is_named() {
    assert_eq!(Invariant::RootNotBlack.message(), "RootNotBlack");
    assert_eq!(Invariant::FreeListCorrupt.message(), "FreeListCorrupt");
}

#[test]
fn a_walk_follows_the_links_whatever_they_join() {
    let mut tree = SmallTree::new_boxed();
    for key in 0..8u64 {
        tree.insert(key, key + 10);
    }
    let keys = |tree: &SmallTree, ascending: bool| -> Option<Vec<u64>> {
        tree.walk(ascending).map(|found| found.iter().map(|e| e.key).collect())
    };
    assert_eq!(keys(&tree, true), Some(vec![0, 1, 2, 3, 4, 5, 6, 7]));
    assert_eq!(keys(&tree, false), Some(vec![7, 6, 5, 4, 3, 2, 1, 0]));

    // Colours and order do not matter to it.
    let root = tree.root();
    tree.node_mut(root).color = RED;
    let handle = tree.find(&7);
    tree.node_mut(handle).key = 2;
    assert_eq!(keys(&tree, true), Some(vec![0, 1, 2, 3, 4, 5, 6, 2]));

    // Links that go round in a circle never end.
    let first = tree.find(&0);
    tree.node_mut(first).left = root;
    assert_eq!(keys(&tree, true), None);
}

#[test]
fn every_kind_of_damage_is_told_apart() {
    let seeded = || {
        let mut tree = SmallTree::new_boxed();
        for key in 0..8u64 {
            tree.insert(key, key);
        }
        tree
    };

    let mut tree = seeded();
    let root = tree.root();
    tree.node_mut(root).parent = 3;
    assert_eq!(tree.check(), Err(Invariant::RootParentNotNil));

    let mut tree = seeded();
    let handle = tree.find(&0);
    tree.node_mut(handle).parent = handle;
    assert_eq!(tree.check(), Err(Invariant::ParentPointerMismatch));

    // A link out of the arena, and a circle: errors, not panics.
    let mut tree = seeded();
    let handle = tree.find(&0);
    tree.node_mut(handle).left = 99;
    assert_eq!(tree.check(), Err(Invariant::ParentPointerMismatch));
    assert!(tree.walk(true).is_none());
    assert!(tree.walk(false).is_none());
    let mut tree = seeded();
    let handle = tree.find(&0);
    tree.node_mut(handle).left = tree.root();
    assert_eq!(tree.check(), Err(Invariant::ParentPointerMismatch));

    // Recolouring a deep leaf breaks one of the two colour rules.
    let mut tree = seeded();
    let leaf = tree.find(&7);
    let was = tree.node(leaf).color;
    tree.node_mut(leaf).color = if was == RED { BLACK } else { RED };
    assert!(matches!(
        tree.check(),
        Err(Invariant::BlackHeightMismatch) | Err(Invariant::RedRedViolation)
    ));

    // A slot that was handed out and is neither live nor free.
    let mut tree = seeded();
    tree.remove(&3);
    let mut bytes = Vec::new();
    tree.put(&mut bytes);
    bytes[4..8].copy_from_slice(&0u32.to_le_bytes());
    assert_eq!(SmallTree::take(&bytes, 0).check(), Err(Invariant::FreeListCorrupt));
}

#[test]
fn a_tree_and_its_bytes_determine_each_other() {
    let mut tree = SmallTree::new_boxed();
    for key in [5u64, 1, 9, 3] {
        tree.insert(key, key * 7);
    }
    tree.remove(&9);
    let mut bytes = vec![0xaau8; 3];
    tree.put(&mut bytes);
    assert_eq!(bytes.len(), 3 + SmallTree::size_in_bytes());
    assert_eq!(SmallTree::size_in_bytes(), 16 + 16 * Node::<u64, u64>::size_in_bytes());

    let again = SmallTree::take(&bytes, 3);
    assert_eq!(again.check(), Ok(()));
    assert_eq!(again.get(&5), Some(&35));
    assert_eq!(again.get(&9), None);
    assert_eq!(again.len(), 3);
    let mut second = Vec::new();
    again.put(&mut second);
    assert_eq!(second, bytes[3..].to_vec());
}

#[test]
fn zeroed_bytes_are_an_empty_tree() {
    let bytes = vec![0u8; SmallTree::size_in_bytes()];
    let mut tree = SmallTree::take(&bytes, 0);
    assert!(tree.is_empty());
    assert_eq!(tree.check(), Ok(()));
    assert!(tree.insert(4, 4).is_some());
}

#[test]
fn integers_are_little_endian() {
    let mut bytes = Vec::new();
    0x0102_0304_0506_0708u64.put(&mut bytes);
    assert_eq!(bytes, vec![8, 7, 6, 5, 4, 3, 2, 1]);
    assert_eq!(u64::take(&bytes, 0), 0x0102_0304_0506_0708);
    clob::bytes::put_u32(&mut bytes, 0xdead_beef);
    assert_eq!(bytes[8..], [0xef, 0xbe, 0xad, 0xde]);
    assert_eq!(clob::bytes::take_u32(&bytes, 8), 0xdead_beef);
}
