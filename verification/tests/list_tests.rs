use persistent::list::List;
use std::rc::Rc;

/// The list with the given elements from head to tail.
fn list_of<E: Clone>(items: Vec<E>) -> List<E> {
    let mut lst = List::empty();
    for x in items.into_iter().rev() {
        lst = List::cons(x, lst);
    }
    lst
}

fn collect<E: Clone>(lst: &List<E>) -> Vec<E> {
    let mut out = Vec::new();
    let mut it = lst.into_iter();
    while let Some(x) = it.next() {
        out.push(x);
    }
    out
}

#[test]
fn list_macro() {
    let lst: List<i32> = list_of(vec![1, 2, 3]);
    assert_eq!(lst, List::cons(1, List::cons(2, List::cons(3, List::empty()))));
}

#[test]
fn list_iterator() {
    let lst: List<i32> = List::cons(3, List::cons(4, List::empty()));
    let lst2: List<String> = List::from_iter(
        collect(&lst.clone()).into_iter().filter(|&x| x != 3).map(|x| x.to_string()).collect(),
    );

    assert_eq!(lst2, list_of(vec![String::from("4")]));
}

#[test]
fn list_head() {
    let a: List<i32> = list_of(vec![1]);
    let b: List<i32> = list_of(vec![1, 2]);
    assert_eq!(a.head(), b.head());

    let a: List<i32> = list_of(vec![1]);
    let b: List<i32> = list_of(vec![2, 1]);
    assert!(a.head() != b.head());
}

#[test]
fn list_tail() {
    let a: List<i32> = list_of(vec![1, 2, 3]);
    assert_eq!(a.tail(), Rc::new(list_of(vec![2, 3])));

    let a: List<i32> = list_of(vec![1, 2]);
    let b: List<i32> = list_of(vec![1, 2, 3]);
    assert!(a.tail() != b.tail());
}

#[test]
fn list_append() {
    let a: List<i32> = list_of(vec![1]);
    assert_eq!(a.append(list_of(vec![2, 3])), list_of(vec![1, 2, 3]));
}

#[test]
fn list_of_three() {
    let lst = list_of(vec![1, 2, 3]);
    assert_eq!(lst.head(), 1);
    assert_eq!(*lst.tail(), list_of(vec![2, 3]));
    assert_eq!(lst.length(), 3);
    assert_eq!(lst.append(list_of(vec![4, 5])), list_of(vec![1, 2, 3, 4, 5]));
    assert!(!lst.is_empty());
}

#[test]
fn list_empty_is_empty() {
    let lst: List<i32> = List::empty();
    assert!(lst.is_empty());
    assert_eq!(lst.length(), 0);
    assert_eq!(lst.safe_head(), None);
    assert_eq!(lst.safe_tail(), None);
    assert_eq!(collect(&lst), Vec::<i32>::new());
}

#[test]
fn list_safe_accessors_on_cons() {
    let lst = list_of(vec![7, 8]);
    assert_eq!(lst.safe_head(), Some(7));
    assert_eq!(lst.safe_tail(), Some(Rc::new(list_of(vec![8]))));
}

#[test]
fn list_append_to_empty_and_of_empty() {
    let empty: List<i32> = List::empty();
    let lst = list_of(vec![1, 2]);
    assert_eq!(empty.append(list_of(vec![1, 2])), lst);
    assert_eq!(lst.append(List::empty()), lst);
}

#[test]
fn list_append_leaves_receiver() {
    let a = list_of(vec![1, 2]);
    let b = a.append(list_of(vec![3]));
    assert_eq!(a, list_of(vec![1, 2]));
    assert_eq!(b.length(), 3);
}

#[test]
fn list_from_iter_reverses() {
    let lst = List::from_iter(vec![1, 2, 3]);
    assert_eq!(lst, list_of(vec![3, 2, 1]));
    assert_eq!(lst.head(), 3);
}

#[test]
fn list_iteration_is_head_to_tail_and_restartable() {
    let lst = list_of(vec![5, 6, 7]);
    assert_eq!(collect(&lst), vec![5, 6, 7]);
    assert_eq!(collect(&lst), vec![5, 6, 7]);
    let mut it = lst.into_iter();
    assert_eq!(it.next(), Some(5));
    let mut other = lst.into_iter();
    assert_eq!(other.next(), Some(5));
    assert_eq!(it.next(), Some(6));
    assert_eq!(it.next(), Some(7));
    assert_eq!(it.next(), None);
    assert_eq!(it.next(), None);
}

#[test]
fn list_equality_compares_elements_and_length() {
    assert_eq!(list_of(vec![1, 2]), list_of(vec![1, 2]));
    assert_ne!(list_of(vec![1, 2]), list_of(vec![1, 3]));
    assert_ne!(list_of(vec![1, 2]), list_of(vec![1]));
    assert_ne!(list_of(vec![1]), List::empty());
}

#[test]
fn list_clone_shares_tail() {
    let lst = list_of(vec![1, 2, 3]);
    let copy = lst.clone();
    assert_eq!(copy, lst);
    assert!(Rc::ptr_eq(&lst.tail(), &copy.tail()));
}

#[test]
fn list_tail_is_shared_not_copied() {
    let lst = list_of(vec![1, 2, 3]);
    assert!(Rc::ptr_eq(&lst.tail(), &lst.tail()));
}
