use flexer::arena::OptVec;

#[test]
fn arena_reuses_freed_slots() {
    let mut v: OptVec<u32> = OptVec::new();
    let a = v.insert(10);
    let b = v.insert(20);
    let c = v.insert(30);
    assert_eq!((a, b, c), (0, 1, 2));
    assert_eq!(v.remove(b), Some(20));
    assert_eq!(v.get(b), None);
    let d = v.insert(40);
    assert_eq!(d, 1);
    assert_eq!(v.get(d), Some(&40));
    assert_eq!(v.get(a), Some(&10));
    assert_eq!(v.get(c), Some(&30));
    assert_eq!(v.len(), 3);
}

#[test]
fn arena_lookup_of_removed_index_fails() {
    let mut v: OptVec<u32> = OptVec::new();
    let a = v.insert(1);
    assert_eq!(v.remove(a), Some(1));
    assert_eq!(v.get(a), None);
    assert_eq!(v.remove(a), None);
    assert_eq!(v.remove(99), None);
    assert_eq!(v.get(99), None);
}
