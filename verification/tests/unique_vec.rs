use decomp::cfg::Name;
use decomp::util::unique_vec::UniqueVec;

fn ident(s: &str) -> Name {
    Name::Ident(s.to_string())
}

#[test]
fn insert_keeps_first_insertion_order() {
    let mut v: UniqueVec<Name> = UniqueVec::new();
    assert!(v.insert(ident("a")));
    assert!(v.insert(ident("b")));
    assert!(v.insert(ident("c")));
    assert!(!v.insert(ident("b")));
    assert_eq!(v.len(), 3);
    let items = v.iter();
    assert_eq!(items[0], ident("a"));
    assert_eq!(items[1], ident("b"));
    assert_eq!(items[2], ident("c"));
}

#[test]
fn contains_sees_equal_values() {
    let mut v: UniqueVec<Name> = UniqueVec::new();
    v.insert(ident("x"));
    assert!(v.contains(&ident("x")));
    assert!(!v.contains(&ident("y")));
    assert!(!v.contains(&Name::Number(7)));
    v.insert(Name::Number(7));
    assert!(v.contains(&Name::Number(7)));
}

#[test]
fn remove_preserves_order_of_rest() {
    let mut v: UniqueVec<Name> = UniqueVec::new();
    v.insert(ident("a"));
    v.insert(ident("b"));
    v.insert(ident("c"));
    assert!(v.remove(&ident("b")));
    assert!(!v.remove(&ident("b")));
    assert_eq!(v.len(), 2);
    let items = v.iter();
    assert_eq!(items[0], ident("a"));
    assert_eq!(items[1], ident("c"));
}

#[test]
fn take_hands_the_element_back() {
    let mut v: UniqueVec<Name> = UniqueVec::new();
    v.insert(ident("a"));
    assert_eq!(v.take(&ident("a")), Some(ident("a")));
    assert_eq!(v.take(&ident("a")), None);
    assert!(v.is_empty());
}

#[test]
fn replace_swaps_without_growing() {
    let mut v: UniqueVec<Name> = UniqueVec::new();
    v.insert(ident("a"));
    assert_eq!(v.replace(ident("a")), Some(ident("a")));
    assert_eq!(v.len(), 1);
    assert_eq!(v.replace(ident("z")), None);
    assert_eq!(v.len(), 1);
}

#[test]
fn get_and_clear() {
    let mut v: UniqueVec<Name> = UniqueVec::with_capacity(4);
    v.insert(ident("a"));
    v.insert(ident("b"));
    assert_eq!(v.get(1), Some(&ident("b")));
    assert_eq!(v.get(2), None);
    v.clear();
    assert!(v.is_empty());
    assert_eq!(v.get(0), None);
}

#[test]
fn clone_copies_contents() {
    let mut v: UniqueVec<Name> = UniqueVec::new();
    v.insert(ident("a"));
    v.insert(ident("b"));
    let w = v.clone();
    assert_eq!(w.len(), 2);
    assert!(w.contains(&ident("a")));
    assert!(w.contains(&ident("b")));
}

#[test]
fn drain_takes_a_range_and_closes_the_gap() {
    let mut v: UniqueVec<Name> = UniqueVec::new();
    v.insert(ident("a"));
    v.insert(ident("b"));
    v.insert(ident("c"));
    v.insert(ident("d"));
    let removed = v.drain(1, 3);
    assert_eq!(removed, vec![ident("b"), ident("c")]);
    assert_eq!(v.len(), 2);
    let items = v.iter();
    assert_eq!(items[0], ident("a"));
    assert_eq!(items[1], ident("d"));
}

#[test]
fn retain_keeps_accepted_elements_in_order() {
    let mut v: UniqueVec<Name> = UniqueVec::new();
    v.insert(ident("a"));
    v.insert(ident("bb"));
    v.insert(ident("c"));
    v.insert(ident("dd"));
    v.retain(|n: &Name| match n {
        Name::Ident(s) => s.len() == 1,
        Name::Number(_) => false,
    });
    assert_eq!(v.len(), 2);
    let items = v.iter();
    assert_eq!(items[0], ident("a"));
    assert_eq!(items[1], ident("c"));
}
