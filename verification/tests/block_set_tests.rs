use incremental_esdf::block_set::{comes_before, BlockSet};
use incremental_esdf::index::BlockIndex;

fn b(x: i32, y: i32, z: i32) -> BlockIndex<8> {
    BlockIndex::new(x, y, z)
}

#[test]
fn block_hash_values() {
    assert_eq!(b(0, 0, 0).deco_hash(), 0);
    assert_eq!(b(1, 0, 0).deco_hash(), 1);
    assert_eq!(b(0, 1, 0).deco_hash(), 17191);
    assert_eq!(b(0, 0, 1).deco_hash(), 295530481);
    assert_eq!(b(1, 2, 3).deco_hash(), 886625826);
    assert_eq!(b(-1, 0, 0).deco_hash(), u64::MAX);
    assert_eq!(b(0, -1, 0).deco_hash(), 0u64.wrapping_sub(17191));
    assert_eq!(
        b(-3, -2, -1).deco_hash(),
        (-3i64 as u64)
            .wrapping_add((-2i64 as u64).wrapping_mul(17191))
            .wrapping_add((-1i64 as u64).wrapping_mul(17191 * 17191))
    );
    assert_eq!(
        b(i32::MAX, i32::MIN, i32::MAX).deco_hash(),
        (i32::MAX as i64 as u64)
            .wrapping_add((i32::MIN as i64 as u64).wrapping_mul(17191))
            .wrapping_add((i32::MAX as i64 as u64).wrapping_mul(17191 * 17191))
    );
}

#[test]
fn blocks_are_walked_by_hash_then_coordinates() {
    assert!(comes_before(&b(0, 0, 0), &b(1, 0, 0)));
    assert!(comes_before(&b(5, 0, 0), &b(0, 1, 0)));
    assert!(!comes_before(&b(0, 1, 0), &b(5, 0, 0)));
    assert!(comes_before(&b(0, 0, 0), &b(-1, 0, 0)));
    assert!(!comes_before(&b(2, 2, 2), &b(2, 2, 2)));
    // two blocks with the same hash: the coordinates decide
    assert_eq!(b(17191, 0, 0).deco_hash(), b(0, 1, 0).deco_hash());
    assert!(comes_before(&b(0, 1, 0), &b(17191, 0, 0)));
    assert!(!comes_before(&b(17191, 0, 0), &b(0, 1, 0)));
    assert!(b(0, 1, 0) < b(17191, 0, 0));
    assert!(b(17191, 0, 0) > b(0, 1, 0));
    assert!(b(1, 0, 0) < b(0, 1, 0));
    assert!(b(1, 1, 1) <= b(1, 1, 1));
    assert_eq!(b(1, 1, 1).partial_cmp(&b(1, 1, 1)), Some(std::cmp::Ordering::Equal));
}

#[test]
fn set_keeps_walking_order_and_no_duplicates() {
    let mut set: BlockSet<8> = BlockSet::new();
    assert!(set.is_empty());
    assert!(set.insert(b(0, 1, 0)));
    assert!(set.insert(b(3, 0, 0)));
    assert!(set.insert(b(-1, 0, 0)));
    assert!(set.insert(b(0, 0, 0)));
    assert!(!set.insert(b(3, 0, 0)));
    assert!(set.insert(b(17191, 0, 0)));
    assert_eq!(set.len(), 5);
    assert_eq!(set.as_slice(), &[b(0, 0, 0), b(3, 0, 0), b(0, 1, 0), b(17191, 0, 0), b(-1, 0, 0)]);
    assert!(set.contains(&b(0, 1, 0)));
    assert!(set.contains(&b(17191, 0, 0)));
    assert!(!set.contains(&b(0, 0, 1)));
    assert_eq!(set.position(&b(0, 1, 0)), Some(2));
    assert_eq!(set.position(&b(-1, 0, 0)), Some(4));
    assert_eq!(set.position(&b(9, 9, 9)), None);
    let copy = set.clone();
    assert_eq!(set.pop_first(), Some(b(0, 0, 0)));
    assert_eq!(set.pop_first(), Some(b(3, 0, 0)));
    assert_eq!(set.len(), 3);
    assert_eq!(copy.len(), 5);
    assert_eq!(set.pop_first(), Some(b(0, 1, 0)));
    assert_eq!(set.pop_first(), Some(b(17191, 0, 0)));
    assert_eq!(set.pop_first(), Some(b(-1, 0, 0)));
    assert_eq!(set.pop_first(), None);
    assert!(set.is_empty());
}
