use powergraph::atom::AtomKind;
use powergraph::type_multiset::{contains, type_set, TypeMultiset};

#[test]
fn type_multiset_works() {
    let empty = TypeMultiset::new();
    let mut one = TypeMultiset::new();
    one.insert(AtomKind::Entity, 1);
    let mut two = TypeMultiset::new();
    two.insert(AtomKind::Entity, 2);

    assert_eq!(true, contains(&empty, &empty));

    assert_eq!(true, contains(&one, &empty));
    assert_eq!(false, contains(&empty, &one));

    assert_eq!(true, contains(&two, &one));
    assert_eq!(false, contains(&one, &two));
}

#[test]
fn contains_itself_and_nothing() {
    let mut s = TypeMultiset::new();
    s.insert(AtomKind::Entity, 3);
    s.insert(AtomKind::Usize, 1);
    let empty = TypeMultiset::new();
    assert!(contains(&s, &s));
    assert!(contains(&s, &empty));
}

#[test]
fn contains_compares_every_kind() {
    let mut h = TypeMultiset::new();
    h.insert(AtomKind::Entity, 2);
    let mut n = TypeMultiset::new();
    n.insert(AtomKind::Entity, 1);
    n.insert(AtomKind::Usize, 1);
    assert!(!contains(&h, &n));
    h.insert(AtomKind::Usize, 1);
    assert!(contains(&h, &n));
}

#[test]
fn insert_replaces_count() {
    let mut s = TypeMultiset::new();
    s.insert(AtomKind::Usize, 4);
    s.insert(AtomKind::Usize, 1);
    assert_eq!(1, s.get(AtomKind::Usize));
    assert_eq!(0, s.get(AtomKind::Entity));
}

#[test]
fn type_set_counts_occurrences() {
    let s = type_set(vec![AtomKind::Usize, AtomKind::Entity, AtomKind::Usize]);
    assert_eq!(2, s.get(AtomKind::Usize));
    assert_eq!(1, s.get(AtomKind::Entity));
    let e = type_set(vec![]);
    assert_eq!(0, e.get(AtomKind::Usize));
    assert!(e.is_balanced());
}

#[test]
fn exchange_consumes_and_produces() {
    let avail = type_set(vec![AtomKind::Usize, AtomKind::Usize]);
    let needs = type_set(vec![AtomKind::Usize]);
    let gives = type_set(vec![AtomKind::Entity]);
    let next = avail.exchange(&needs, &gives);
    assert_eq!(1, next.get(AtomKind::Usize));
    assert_eq!(1, next.get(AtomKind::Entity));
    assert!(!next.is_balanced());
    let done = next.exchange(&type_set(vec![AtomKind::Usize, AtomKind::Entity]), &TypeMultiset::new());
    assert_eq!(0, done.get(AtomKind::Usize));
    assert!(done.is_balanced());
}

#[test]
fn zero_counts_are_balanced() {
    let mut s = TypeMultiset::new();
    s.insert(AtomKind::Entity, 0);
    assert!(s.is_balanced());
    s.insert(AtomKind::Usize, 2);
    assert!(!s.is_balanced());
}
