use helix_render::handle::{CameraHandle, Handle, MeshHandle, MeshObjectHandle, TransformNodeHandle};
use helix_render::storage::ObjectStorage;

#[test]
fn insert_then_resolve() {
    let mut s: ObjectStorage<u32> = ObjectStorage::new();
    let h = s.insert(7);
    assert_eq!(h, Handle::new(0, 0));
    assert_eq!(s.resolve(&h), Some(&7));
}

#[test]
fn new_store_resolves_nothing() {
    let s: ObjectStorage<u32> = ObjectStorage::new();
    assert_eq!(s.slot_count(), 0);
    assert_eq!(s.resolve(&Handle::new(0, 0)), None);
    assert_eq!(s.handle_at(0), None);
}

#[test]
fn inserts_without_free_slot_append() {
    let mut s: ObjectStorage<&str> = ObjectStorage::new();
    assert_eq!(s.insert("a"), Handle::new(0, 0));
    assert_eq!(s.insert("b"), Handle::new(1, 0));
    assert_eq!(s.insert("c"), Handle::new(2, 0));
    assert_eq!(s.slot_count(), 3);
}

#[test]
fn slot_reuse_bumps_generation_by_one() {
    let mut s: ObjectStorage<u32> = ObjectStorage::new();
    let first = s.insert(1);
    assert_eq!(s.remove(first), Some(1));
    let second = s.insert(2);
    assert_eq!(second.index, first.index);
    assert_eq!(second.generation, first.generation + 1);
    assert_eq!(s.resolve(&first), None);
    assert_eq!(s.resolve(&second), Some(&2));
    assert_eq!(s.slot_count(), 1);
}

#[test]
fn free_list_is_a_stack() {
    let mut s: ObjectStorage<u32> = ObjectStorage::new();
    let a = s.insert(10);
    let b = s.insert(20);
    let c = s.insert(30);
    assert_eq!(s.remove(a), Some(10));
    assert_eq!(s.remove(c), Some(30));
    let d = s.insert(40);
    assert_eq!(d, Handle::new(2, 1));
    let e = s.insert(50);
    assert_eq!(e, Handle::new(0, 1));
    let f = s.insert(60);
    assert_eq!(f, Handle::new(3, 0));
    assert_eq!(s.resolve(&b), Some(&20));
}

#[test]
fn handle_resolves_until_first_removal() {
    let mut s: ObjectStorage<u32> = ObjectStorage::new();
    let h = s.insert(5);
    let alias = h;
    let other = s.insert(6);
    assert_eq!(s.resolve(&h), Some(&5));
    assert_eq!(s.remove(other), Some(6));
    assert_eq!(s.resolve(&h), Some(&5));
    let third = s.insert(7);
    assert_eq!(s.resolve(&h), Some(&5));
    assert_eq!(s.remove(alias), Some(5));
    assert_eq!(s.resolve(&h), None);
    assert_eq!(s.resolve(&alias), None);
    let reused = s.insert(8);
    assert_eq!(reused.index, h.index);
    assert_eq!(s.resolve(&h), None);
    assert_eq!(s.remove(reused), Some(8));
    assert_eq!(s.resolve(&h), None);
    assert_eq!(s.resolve(&third), Some(&7));
}

#[test]
fn removing_twice_is_a_no_op() {
    let mut s: ObjectStorage<u32> = ObjectStorage::new();
    let h = s.insert(5);
    assert_eq!(s.remove(h), Some(5));
    assert_eq!(s.remove(h), None);
    let again = s.insert(9);
    assert_eq!(again, Handle::new(0, 1));
    assert_eq!(s.slot_count(), 1);
}

#[test]
fn remove_rejects_wrong_generation_and_range() {
    let mut s: ObjectStorage<u32> = ObjectStorage::new();
    let h = s.insert(5);
    assert_eq!(s.remove(Handle::new(0, 1)), None);
    assert_eq!(s.remove(Handle::new(4, 0)), None);
    assert_eq!(s.resolve(&h), Some(&5));
    assert_eq!(s.resolve(&Handle::new(0, 1)), None);
    assert_eq!(s.resolve(&Handle::new(1, 0)), None);
}

#[test]
fn resolve_mut_writes_through() {
    let mut s: ObjectStorage<u32> = ObjectStorage::new();
    let a = s.insert(1);
    let b = s.insert(2);
    match s.resolve_mut(&a) {
        Some(v) => *v = 11,
        None => panic!("handle must resolve"),
    }
    assert_eq!(s.resolve(&a), Some(&11));
    assert_eq!(s.resolve(&b), Some(&2));
    assert!(s.resolve_mut(&Handle::new(0, 3)).is_none());
    assert!(s.resolve_mut(&Handle::new(9, 0)).is_none());
}

#[test]
fn get_and_get_mut_reach_the_value() {
    let mut s: ObjectStorage<u32> = ObjectStorage::new();
    let a = s.insert(1);
    *s.get_mut(&a) = 3;
    assert_eq!(*s.get(&a), 3);
}

#[test]
fn handle_at_names_occupied_slots() {
    let mut s: ObjectStorage<u32> = ObjectStorage::new();
    let a = s.insert(1);
    let b = s.insert(2);
    assert_eq!(s.remove(a), Some(1));
    assert_eq!(s.handle_at(0), None);
    assert_eq!(s.handle_at(1), Some(b));
    assert_eq!(s.handle_at(2), None);
}

#[test]
fn handles_compare_by_index_and_generation() {
    assert_eq!(Handle::new(1, 2), Handle::new(1, 2));
    assert_ne!(Handle::new(1, 2), Handle::new(1, 3));
    assert_ne!(Handle::new(1, 2), Handle::new(2, 2));
}

#[test]
fn typed_handles_convert() {
    assert_eq!(TransformNodeHandle::new(3, 4).handle(), Handle::new(3, 4));
    assert_eq!(MeshObjectHandle::new(5, 6).handle(), Handle::new(5, 6));
    assert_eq!(CameraHandle::new(7, 8).handle(), Handle::new(7, 8));
    assert_eq!(MeshHandle::new(9, 1).handle(), Handle::new(9, 1));
    assert_eq!(TransformNodeHandle::of(Handle::new(3, 4)), TransformNodeHandle::new(3, 4));
    assert_eq!(MeshObjectHandle::of(Handle::new(5, 6)), MeshObjectHandle::new(5, 6));
    assert_eq!(CameraHandle::of(Handle::new(7, 8)), CameraHandle::new(7, 8));
    assert_eq!(MeshHandle::of(Handle::new(9, 1)), MeshHandle::new(9, 1));
}

#[test]
fn removed_handle_stays_dead_over_many_calls() {
    let mut s: ObjectStorage<u32> = ObjectStorage::new();
    let keep = s.insert(100);
    let h = s.insert(1);
    assert_eq!(s.remove(h), Some(1));
    let mut round: u32 = 0;
    while round < 50 {
        let fresh = s.insert(round);
        assert_eq!(fresh.index, h.index);
        assert_eq!(fresh.generation, h.generation + 1 + round);
        assert_eq!(s.resolve(&h), None);
        assert_eq!(s.remove(h), None);
        assert_eq!(s.resolve(&fresh), Some(&round));
        assert_eq!(s.resolve(&keep), Some(&100));
        assert_eq!(s.remove(fresh), Some(round));
        assert_eq!(s.resolve(&h), None);
        round += 1;
    }
    assert_eq!(s.resolve(&keep), Some(&100));
    assert_eq!(s.slot_count(), 2);
}
