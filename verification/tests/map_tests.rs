use persistent::map::{Entry, TreeMap};
use persistent::set::TreeSet;

#[test]
fn map_macro() {
    assert!(true);
}

#[test]
fn map_new_is_empty() {
    let m: TreeMap<i32, String> = TreeMap::new();
    assert!(m.get(1).is_none());
    let mut it = m.into_iter();
    assert!(it.next().is_none());
}

#[test]
fn map_put_then_get() {
    let m = TreeMap::new().put(2, "two").put(1, "one").put(3, "three");
    let e = m.get(1).unwrap();
    assert_eq!(e.key, 1);
    assert_eq!(e.val, "one");
    assert_eq!(m.get(3).unwrap().val, "three");
    assert!(m.get(4).is_none());
}

#[test]
fn map_put_existing_key_keeps_old_value() {
    let m = TreeMap::new().put(1, "first").put(1, "second");
    assert_eq!(m.get(1).unwrap().val, "first");
    let mut it = m.into_iter();
    assert_eq!(it.next().unwrap().val, "first");
    assert!(it.next().is_none());
}

#[test]
fn map_iterates_in_key_order() {
    let m = TreeMap::new().put(3, 'c').put(1, 'a').put(2, 'b');
    let mut it = m.into_iter();
    let mut keys = Vec::new();
    let mut vals = Vec::new();
    while let Some(e) = it.next() {
        keys.push(e.key);
        vals.push(e.val);
    }
    assert_eq!(keys, vec![1, 2, 3]);
    assert_eq!(vals, vec!['a', 'b', 'c']);
}

#[test]
fn map_from_iter_keeps_first_of_equal_keys() {
    let m = TreeMap::from_iter(vec![Entry::new(2, "b"), Entry::new(1, "a"), Entry::new(2, "z")]);
    assert_eq!(m.get(2).unwrap().val, "b");
    assert_eq!(m.get(1).unwrap().val, "a");
}

#[test]
fn entry_compares_by_key_only() {
    let a = Entry::new(1, "x");
    let b = Entry::new(1, "y");
    let c = Entry::new(2, "x");
    assert!(a == b);
    assert!(a != c);
    assert!(a < c);
    assert!(c > b);
    assert!(a <= b && a >= b);
    assert!(a == 1);
    assert!(a < 2);
    assert!(c > 1);
    assert_eq!(a.partial_cmp(&c), Some(std::cmp::Ordering::Less));
    assert_eq!(c.partial_cmp(&1), Some(std::cmp::Ordering::Greater));
}

#[test]
fn entry_clone_keeps_key_and_value() {
    let a = Entry::new(1, String::from("x"));
    let b = a.clone();
    assert_eq!(b.key, 1);
    assert_eq!(b.val, "x");
}

#[test]
fn set_put_and_get() {
    let s = TreeSet::new().put(3).put(1).put(2).put(3);
    assert_eq!(s.get(2), Some(2));
    assert_eq!(s.get(5), None);
    let mut it = s.into_iter();
    let mut out = Vec::new();
    while let Some(x) = it.next() {
        out.push(x);
    }
    assert_eq!(out, vec![1, 2, 3]);
}

#[test]
fn set_new_is_empty() {
    let s: TreeSet<i32> = TreeSet::new();
    assert_eq!(s.get(1), None);
    assert!(s.into_iter().next().is_none());
}
