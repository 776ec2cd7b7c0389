use memtrack::cache::StackCache;
use memtrack::stacks::{StackTable, MAX_STACK_DEPTH, NO_STACK};

#[test]
fn capture_then_read_then_remove() {
    let mut t = StackTable::new(4);
    let id = t.capture(vec![10, 20, 30]);
    assert!(id >= 1 && id <= 4);
    assert_eq!(t.len(), 1);
    assert_eq!(t.read(id), Some(vec![10, 20, 30]));
    assert_eq!(t.read(id), Some(vec![10, 20, 30]));
    assert!(t.remove(id));
    assert_eq!(t.read(id), None);
    assert!(!t.remove(id));
    assert_eq!(t.len(), 0);
}

#[test]
fn read_of_ids_outside_the_table_finds_nothing() {
    let mut t = StackTable::new(2);
    t.capture(vec![1]);
    t.capture(vec![2]);
    for id in [0, -1, 3, i32::MAX, i32::MIN] {
        assert_eq!(t.read(id), None);
        assert!(!t.remove(id));
    }
    assert_eq!(t.len(), 2);
}

#[test]
fn captures_take_distinct_ids_while_room_is_left() {
    let mut t = StackTable::new(3);
    let a = t.capture(vec![1]);
    let b = t.capture(vec![2]);
    let c = t.capture(vec![3]);
    assert!(a != b && b != c && a != c);
    assert_eq!(t.read(a), Some(vec![1]));
    assert_eq!(t.read(b), Some(vec![2]));
    assert_eq!(t.read(c), Some(vec![3]));
}

#[test]
fn full_table_recycles_the_oldest_id() {
    let mut t = StackTable::new(2);
    let a = t.capture(vec![1]);
    let b = t.capture(vec![2]);
    let c = t.capture(vec![3]);
    assert_eq!(c, a);
    assert_eq!(t.read(a), Some(vec![3]));
    assert_eq!(t.read(b), Some(vec![2]));
    let d = t.capture(vec![4]);
    assert_eq!(d, b);
    let e = t.capture(vec![5]);
    assert_eq!(e, a);
    assert_eq!(t.read(a), Some(vec![5]));
    assert_eq!(t.len(), 2);
}

#[test]
fn removed_slot_is_reused_before_anything_is_evicted() {
    let mut t = StackTable::new(3);
    let a = t.capture(vec![1]);
    let b = t.capture(vec![2]);
    let c = t.capture(vec![3]);
    assert!(t.remove(b));
    let d = t.capture(vec![4]);
    assert_eq!(d, b);
    assert_eq!(t.read(a), Some(vec![1]));
    assert_eq!(t.read(c), Some(vec![3]));
    let e = t.capture(vec![5]);
    assert_eq!(e, a);
    let f = t.capture(vec![6]);
    assert_eq!(f, c);
    let g = t.capture(vec![7]);
    assert_eq!(g, b);
}

#[test]
fn deep_stacks_are_cut_to_the_maximum_depth() {
    assert_eq!(MAX_STACK_DEPTH, 127);
    let mut t = StackTable::new(1);
    let deep: Vec<u64> = (0..200u64).collect();
    let id = t.capture(deep.clone());
    assert_eq!(t.read(id), Some(deep[..127].to_vec()));
    let exact: Vec<u64> = (0..127u64).collect();
    let id = t.capture(exact.clone());
    assert_eq!(t.read(id), Some(exact));
}

#[test]
fn table_without_capacity_captures_nothing() {
    let mut t = StackTable::new(0);
    assert_eq!(NO_STACK, -1);
    assert_eq!(t.capture(vec![1]), NO_STACK);
    assert_eq!(t.len(), 0);
    assert_eq!(t.read(1), None);
}

#[test]
fn live_stack_is_cached_and_released() {
    let mut c = StackCache::new();
    let r = c.resolve(5, Some(vec![1, 2]));
    assert_eq!(r.stack, Some(vec![1, 2]));
    assert!(r.release);
    assert!(c.contains(5));
    assert_eq!(c.get(5), Some(vec![1, 2]));
}

#[test]
fn resolving_twice_gives_the_same_frames() {
    let mut c = StackCache::new();
    let first = c.resolve(5, Some(vec![1, 2])).stack;
    let second = c.resolve(5, None);
    assert_eq!(second.stack, first);
    assert!(!second.release);
    let third = c.resolve(5, Some(vec![1, 2]));
    assert_eq!(third.stack, first);
    assert_eq!(c.get(5), first);
}

#[test]
fn cached_stack_survives_eviction_and_unread_one_is_unknown() {
    let mut t = StackTable::new(1);
    let mut seen = StackCache::new();
    let mut unseen = StackCache::new();
    let id = t.capture(vec![0xA, 0xB]);
    let live = t.read(id);
    let r = seen.resolve(id, live);
    assert_eq!(r.stack, Some(vec![0xA, 0xB]));
    // the consumer that read the stack does not free the slot here, so the
    // next capture has to take it over
    let again = t.capture(vec![0xC]);
    assert_eq!(again, id);
    assert!(t.remove(id));
    assert_eq!(t.read(id), None);
    assert_eq!(seen.resolve(id, t.read(id)).stack, Some(vec![0xA, 0xB]));
    let miss = unseen.resolve(id, t.read(id));
    assert_eq!(miss.stack, None);
    assert!(!miss.release);
    assert!(!unseen.contains(id));
}

#[test]
fn later_live_read_replaces_the_cached_copy() {
    let mut c = StackCache::new();
    c.resolve(5, Some(vec![1]));
    let r = c.resolve(5, Some(vec![2, 3]));
    assert_eq!(r.stack, Some(vec![2, 3]));
    assert_eq!(c.resolve(5, None).stack, Some(vec![2, 3]));
    assert_eq!(c.resolve(6, None).stack, None);
}

#[test]
fn insert_files_a_copy_under_its_id() {
    let mut c = StackCache::new();
    assert_eq!(c.get(1), None);
    c.insert(1, vec![4]);
    c.insert(2, vec![5]);
    c.insert(1, vec![6]);
    assert_eq!(c.get(1), Some(vec![6]));
    assert_eq!(c.get(2), Some(vec![5]));
}

#[test]
fn table_is_full_when_every_id_is_live() {
    let mut t = StackTable::new(2);
    assert!(!t.is_full());
    let a = t.capture(vec![1]);
    assert!(!t.is_full());
    t.capture(vec![2]);
    assert!(t.is_full());
    t.capture(vec![3]);
    assert!(t.is_full());
    t.remove(a);
    assert!(!t.is_full());
    assert!(StackTable::new(0).is_full());
}

#[test]
fn fresh_table_hands_out_ids_from_one() {
    let mut t = StackTable::new(3);
    assert_eq!(t.capture(vec![1]), 1);
    assert_eq!(t.capture(vec![2]), 2);
    assert_eq!(t.capture(vec![3]), 3);
    assert_eq!(t.capture(vec![4]), 1);
    assert!(t.remove(3));
    assert_eq!(t.capture(vec![5]), 3);
    assert_eq!(t.capture(vec![6]), 2);
}
