use runelib::registry::ContextRegistry;

#[test]
fn handles_are_nonzero_and_distinct() {
    let mut r = ContextRegistry::new();
    let a = r.insert("a");
    let b = r.insert("b");
    assert_ne!(a, 0);
    assert_ne!(b, 0);
    assert_ne!(a, b);
}

#[test]
fn remove_hands_back_the_value_once() {
    let mut r = ContextRegistry::new();
    let a = r.insert(10);
    let b = r.insert(20);
    assert_eq!(r.remove(a), Some(10));
    assert_eq!(r.remove(a), None);
    assert_eq!(r.remove(b), Some(20));
}

#[test]
fn unknown_handles_name_nothing() {
    let mut r: ContextRegistry<u8> = ContextRegistry::new();
    assert_eq!(r.remove(0), None);
    assert_eq!(r.remove(1), None);
    let a = r.insert(1);
    assert_eq!(r.remove(a + 1), None);
}

#[test]
fn freed_slots_are_reused() {
    let mut r = ContextRegistry::new();
    let a = r.insert('a');
    let _b = r.insert('b');
    r.remove(a);
    assert_eq!(r.insert('c'), a);
}

#[test]
fn restore_only_into_an_empty_known_slot() {
    let mut r = ContextRegistry::new();
    let a = r.insert(1);
    assert_eq!(r.restore(a, 2), Err(2));
    let v = r.remove(a).unwrap();
    assert_eq!(r.restore(a, v + 5), Ok(()));
    assert_eq!(r.remove(a), Some(6));
    assert_eq!(r.restore(0, 3), Err(3));
    assert_eq!(r.restore(99, 3), Err(3));
}
