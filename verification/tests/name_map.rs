use spnhub::name_map::NameMap;

#[test]
fn names_keep_their_order_and_occur_once() {
    let mut map: NameMap<u32> = NameMap::new();
    assert_eq!(map.len(), 0);
    map.insert("b".to_string(), 1);
    map.insert("a".to_string(), 2);
    map.insert("b".to_string(), 3);
    assert_eq!(map.len(), 2);
    assert_eq!(map.name_at(0), "b");
    assert_eq!(*map.value_at(0), 3);
    assert_eq!(map.name_at(1), "a");
    assert_eq!(map.get("a"), Some(&2));
    assert_eq!(map.get("c"), None);
}

#[test]
fn removed_names_are_gone() {
    let mut map: NameMap<u32> = NameMap::new();
    map.insert("a".to_string(), 1);
    map.insert("b".to_string(), 2);
    assert_eq!(map.remove("a"), Some(1));
    assert_eq!(map.remove("a"), None);
    assert_eq!(map.get("a"), None);
    assert_eq!(map.get("b"), Some(&2));
    assert_eq!(map.len(), 1);
}

#[test]
fn copies_are_the_same_whatever_the_order() {
    let mut a = NameMap::new();
    a.insert("x".to_string(), "1".to_string());
    a.insert("y".to_string(), "2".to_string());
    let copy = a.duplicate();
    assert!(a.same_as(&copy));
    assert_eq!(copy.name_at(0), "x");
    let mut b = NameMap::new();
    b.insert("y".to_string(), "2".to_string());
    assert!(!a.same_as(&b));
    assert!(!b.same_as(&a));
    b.insert("x".to_string(), "1".to_string());
    assert!(a.same_as(&b));
    b.insert("x".to_string(), "3".to_string());
    assert!(!a.same_as(&b));
}

#[test]
fn the_other_names_keep_their_order() {
    let mut map: NameMap<u32> = NameMap::new();
    for (i, name) in ["d", "a", "c", "b"].iter().enumerate() {
        map.insert(name.to_string(), i as u32);
    }
    assert_eq!(map.remove("a"), Some(1));
    let names: Vec<&str> = (0..map.len()).map(|i| map.name_at(i)).collect();
    assert_eq!(names, vec!["d", "c", "b"]);
}
