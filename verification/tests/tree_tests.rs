use persistent::list::List;
use persistent::tree::binary_tree::{BinaryTree, Color};
use std::rc::Rc;

/// The tree that holds the given elements, inserted in this order.
fn tree_of(items: Vec<i32>) -> BinaryTree<i32> {
    let mut t = BinaryTree::empty();
    for x in items {
        t = t.insert(x);
    }
    t
}

fn list_of<E: Clone>(items: Vec<E>) -> List<E> {
    let mut lst = List::empty();
    for x in items.into_iter().rev() {
        lst = List::cons(x, lst);
    }
    lst
}

fn elements(tree: &BinaryTree<i32>) -> Vec<i32> {
    let mut out = Vec::new();
    let mut it = tree.clone().into_iter();
    while let Some(x) = it.next() {
        out.push(x);
    }
    out
}

fn is_red(t: &BinaryTree<i32>) -> bool {
    !t.is_empty() && t.color() == Color::Red
}

/// The number of black nodes on every path down, or `None` where the colour
/// invariant is broken below `t`.
fn black_height(t: &BinaryTree<i32>) -> Option<usize> {
    if t.is_empty() {
        return Some(0);
    }
    let c = t.color();
    if c != Color::Red && c != Color::Black {
        return None;
    }
    if c == Color::Red && (is_red(&t.left()) || is_red(&t.right())) {
        return None;
    }
    let l = black_height(&t.left())?;
    let r = black_height(&t.right())?;
    if l != r {
        return None;
    }
    Some(l + if c == Color::Black { 1 } else { 0 })
}

fn is_red_black(t: &BinaryTree<i32>) -> bool {
    !is_red(t) && black_height(t).is_some()
}

fn leaf(c: Color, v: i32) -> BinaryTree<i32> {
    BinaryTree::node(c, v, BinaryTree::empty(), BinaryTree::empty())
}

/// The all-black tree with 4 at the root over 2 and 6, over 1, 3, 5 and 7.
fn full_seven() -> BinaryTree<i32> {
    BinaryTree::node(
        Color::Black,
        4,
        BinaryTree::node(Color::Black, 2, leaf(Color::Black, 1), leaf(Color::Black, 3)),
        BinaryTree::node(Color::Black, 6, leaf(Color::Black, 5), leaf(Color::Black, 7)),
    )
}

#[test]
fn tree_macro() {
    let tree: BinaryTree<i32> =
        BinaryTree::empty().insert(1).insert(2).insert(3).insert(4).insert(5).insert(6);

    assert_eq!(tree_of(vec![1, 2, 3, 4, 5, 6]), tree);
}

#[test]
fn test_height() {
    let tree: BinaryTree<i32> = BinaryTree::from_iter((0..100000).collect());
    println!("{:?}", tree.height());
    assert_eq!(tree.length(), 100000);
    assert!(tree.height() <= 34);
    assert!(is_red_black(&tree));
}

#[test]
fn tree_balance() {
    let tree_list: List<BinaryTree<i32>> = list_of(vec![
        tree_of(vec![1, 2, 3]),
        tree_of(vec![1, 3, 2]),
        tree_of(vec![2, 1, 3]),
        tree_of(vec![2, 3, 1]),
        tree_of(vec![3, 1, 2]),
        tree_of(vec![3, 2, 1]),
    ]);

    let mut outer = tree_list.clone().into_iter();
    let mut pairs = 0;
    while let Some(a) = outer.next() {
        let mut inner = tree_list.clone().into_iter();
        while let Some(b) = inner.next() {
            assert_eq!(a, b);
            pairs += 1;
        }
    }
    assert_eq!(pairs, 36);
}

#[test]
fn tree_iter() {
    let tree = tree_of(vec![1, 5, 3, 4, 2]);
    let mut doubled = Vec::new();
    let mut it = tree.into_iter();
    while let Some(x) = it.next() {
        doubled.push(x * 2);
    }
    let list: BinaryTree<i32> = BinaryTree::from_iter(doubled);

    assert_eq!(list, tree_of(vec![8, 10, 4, 2, 6]))
}

#[test]
fn tree_insert_scenario() {
    let tree = tree_of(vec![3, 1, 4, 1, 5, 9, 2, 6]);
    assert_eq!(elements(&tree), vec![1, 2, 3, 4, 5, 6, 9]);
    assert_eq!(tree.get(4), Some(4));
    assert_eq!(tree.get(7), None);
    assert_eq!(tree.length(), 7);
    assert!(tree.height() <= 4);
    assert!(is_red_black(&tree));
}

#[test]
fn tree_empty() {
    let t: BinaryTree<i32> = BinaryTree::empty();
    assert!(t.is_empty());
    assert!(!t.is_leaf());
    assert_eq!(t.length(), 0);
    assert_eq!(t.height(), 0);
    assert_eq!(t.get(1), None);
    assert_eq!(elements(&t), Vec::<i32>::new());
    assert_eq!(t.delete(&1), BinaryTree::empty());
    assert!(!t.doubled_left());
    assert!(!t.doubled_right());
}

#[test]
fn tree_single_insert_is_black_leaf() {
    let t = BinaryTree::empty().insert(5);
    assert!(t.is_leaf());
    assert_eq!(t.color(), Color::Black);
    assert_eq!(t.value(), 5);
    assert!(t.left().is_empty());
    assert!(t.right().is_empty());
    assert_eq!(t.height(), 1);
    assert_eq!(t.length(), 1);
}

#[test]
fn tree_iteration_is_ascending() {
    let t = tree_of(vec![50, 20, 80, 10, 30, 70, 90, 60, 40, 0]);
    assert_eq!(elements(&t), vec![0, 10, 20, 30, 40, 50, 60, 70, 80, 90]);
    let mut it = t.into_iter();
    assert_eq!(it.next(), Some(0));
    assert_eq!(it.next(), Some(10));
}

#[test]
fn tree_iterator_ends_and_stays_ended() {
    let mut it = tree_of(vec![2, 1]).into_iter();
    assert_eq!(it.next(), Some(1));
    assert_eq!(it.next(), Some(2));
    assert_eq!(it.next(), None);
    assert_eq!(it.next(), None);
}

#[test]
fn tree_colour_invariant_after_each_insert() {
    let mut t = BinaryTree::empty();
    for x in [13, 8, 17, 1, 11, 15, 25, 6, 22, 27, 5, 4, 3, 2, 30, 29, 28] {
        t = t.insert(x);
        assert!(is_red_black(&t));
        assert_eq!(t.color(), Color::Black);
    }
    assert_eq!(t.length(), 17);
}

#[test]
fn tree_membership() {
    let t = tree_of(vec![4, 2, 6]);
    for v in [1, 2, 3, 4, 5, 6, 7] {
        assert_eq!(t.insert(v).get(v), Some(v));
    }
    for v in [1, 3, 5, 7] {
        assert_eq!(t.get(v), None);
    }
    assert_eq!(t.unsafe_get(6), 6);
}

#[test]
fn tree_insert_is_idempotent() {
    let t = tree_of(vec![5, 3, 8, 1, 4]);
    for v in [1, 4, 5, 9, 0] {
        let once = t.insert(v);
        let twice = once.insert(v);
        assert_eq!(once, twice);
        assert_eq!(elements(&once), elements(&twice));
        assert_eq!(once.color(), twice.color());
    }
}

#[test]
fn tree_insert_present_keeps_tree() {
    let t = tree_of(vec![5, 3, 8]);
    let same = t.insert(3);
    assert_eq!(same, t);
    assert_eq!(same.length(), 3);
}

#[test]
fn tree_persistence() {
    let t1 = tree_of(vec![2, 1, 3]);
    let before = elements(&t1);
    let t2 = t1.insert(7);
    assert_eq!(t1.get(7), None);
    assert_eq!(elements(&t1), before);
    assert_eq!(t2.get(7), Some(7));
    let t3 = t2.delete(&2);
    assert_eq!(elements(&t2), vec![1, 2, 3, 7]);
    assert_eq!(elements(&t3), vec![1, 3, 7]);
}

#[test]
fn tree_insert_shares_untouched_subtree() {
    let t1 = full_seven();
    let t2 = t1.insert(8);
    assert_eq!(elements(&t2), vec![1, 2, 3, 4, 5, 6, 7, 8]);
    assert!(Rc::ptr_eq(&t1.left().left(), &t2.left().left()));
    assert!(Rc::ptr_eq(&t1.left().right(), &t2.left().right()));
    assert!(Rc::ptr_eq(&t1.right().left().left(), &t2.right().left().left()));
}

#[test]
fn tree_round_trip() {
    let t = tree_of(vec![3, 1, 2]);
    let again = BinaryTree::from_iter(elements(&t));
    assert_eq!(again, t);
    let big = tree_of(vec![9, 4, 7, 1, 8, 2, 6, 3, 5]);
    let again = BinaryTree::from_iter(elements(&big));
    assert_eq!(elements(&again), elements(&big));
}

#[test]
fn tree_round_trip_may_change_shape() {
    let t = tree_of(vec![4, 3, 2, 1]);
    let again = BinaryTree::from_iter(elements(&t));
    assert_eq!(elements(&again), vec![1, 2, 3, 4]);
    assert_eq!(t.value(), 3);
    assert_eq!(again.value(), 2);
    assert_ne!(again, t);
}

#[test]
fn tree_equality_ignores_colour() {
    assert_eq!(leaf(Color::Red, 1), leaf(Color::Black, 1));
    assert_ne!(leaf(Color::Red, 1), leaf(Color::Red, 2));
    assert_ne!(leaf(Color::Black, 1), BinaryTree::empty());
    let a = BinaryTree::node(Color::Black, 2, leaf(Color::Red, 1), BinaryTree::empty());
    let b = BinaryTree::node(Color::Black, 1, BinaryTree::empty(), leaf(Color::Red, 2));
    assert_ne!(a, b);
}

#[test]
fn tree_rotation_left_left() {
    let t = BinaryTree::empty().insert(3).insert(2).insert(1);
    assert_eq!(t.value(), 2);
    assert_eq!(t.color(), Color::Black);
    assert_eq!(t.left().value(), 1);
    assert_eq!(t.left().color(), Color::Black);
    assert_eq!(t.right().value(), 3);
    assert_eq!(t.right().color(), Color::Black);
}

#[test]
fn tree_rotation_left_right() {
    let t = BinaryTree::empty().insert(3).insert(1).insert(2);
    assert_eq!(t.value(), 2);
    assert_eq!(t.left().value(), 1);
    assert_eq!(t.right().value(), 3);
    assert_eq!(t.left().color(), Color::Black);
    assert_eq!(t.right().color(), Color::Black);
}

#[test]
fn tree_rotation_right_left() {
    let t = BinaryTree::empty().insert(1).insert(3).insert(2);
    assert_eq!(t.value(), 2);
    assert_eq!(t.left().value(), 1);
    assert_eq!(t.right().value(), 3);
}

#[test]
fn tree_rotation_right_right() {
    let t = BinaryTree::empty().insert(1).insert(2).insert(3);
    assert_eq!(t.value(), 2);
    assert_eq!(t.left().value(), 1);
    assert_eq!(t.right().value(), 3);
}

#[test]
fn tree_red_child_without_rotation() {
    let t = BinaryTree::empty().insert(2).insert(1);
    assert_eq!(t.value(), 2);
    assert_eq!(t.left().color(), Color::Red);
    assert_eq!(t.left().value(), 1);
    assert!(t.right().is_empty());
    assert_eq!(t.height(), 2);
}

#[test]
fn tree_doubled() {
    let red_red_left = BinaryTree::node(Color::Red, 2, leaf(Color::Red, 1), BinaryTree::empty());
    assert!(red_red_left.doubled_left());
    assert!(!red_red_left.doubled_right());
    let red_red_right = BinaryTree::node(Color::Red, 2, BinaryTree::empty(), leaf(Color::Red, 3));
    assert!(red_red_right.doubled_right());
    assert!(!red_red_right.doubled_left());
    let black_red = BinaryTree::node(Color::Black, 2, leaf(Color::Red, 1), leaf(Color::Red, 3));
    assert!(!black_red.doubled_left());
    assert!(!black_red.doubled_right());
    let red_black = BinaryTree::node(Color::Red, 2, leaf(Color::Black, 1), leaf(Color::Black, 3));
    assert!(!red_black.doubled_left());
    assert!(!red_black.doubled_right());
}

#[test]
fn tree_paint_changes_colour_only() {
    let t = tree_of(vec![2, 1, 3]);
    let red = t.paint(Color::Red);
    assert_eq!(red.color(), Color::Red);
    assert_eq!(red.value(), 2);
    assert!(Rc::ptr_eq(&red.left(), &t.left()));
    assert!(Rc::ptr_eq(&red.right(), &t.right()));
    assert_eq!(t.color(), Color::Black);
}

#[test]
fn tree_length_and_height() {
    let t = BinaryTree::node(
        Color::Black,
        4,
        BinaryTree::node(Color::Black, 2, leaf(Color::Red, 1), BinaryTree::empty()),
        leaf(Color::Black, 5),
    );
    assert_eq!(t.length(), 4);
    assert_eq!(t.height(), 3);
    assert!(!t.is_leaf());
    assert!(t.right().is_leaf());
}

#[test]
fn tree_delete_leaf() {
    let t = tree_of(vec![2, 1, 3]);
    let d = t.delete(&1);
    assert_eq!(elements(&d), vec![2, 3]);
    assert!(d.left().is_empty());
    assert_eq!(d.value(), 2);
}

#[test]
fn tree_delete_node_with_one_child() {
    let only_left = BinaryTree::node(Color::Black, 4, leaf(Color::Red, 3), BinaryTree::empty());
    let t = BinaryTree::node(Color::Black, 2, leaf(Color::Black, 1), only_left);
    let d = t.delete(&4);
    assert_eq!(elements(&d), vec![1, 2, 3]);
    assert_eq!(d.right().value(), 3);
    assert_eq!(d.right().color(), Color::Red);
    let only_right = BinaryTree::node(Color::Black, 3, BinaryTree::empty(), leaf(Color::Red, 4));
    let t = BinaryTree::node(Color::Black, 2, leaf(Color::Black, 1), only_right);
    let d = t.delete(&3);
    assert_eq!(elements(&d), vec![1, 2, 4]);
    assert_eq!(d.right().value(), 4);
    assert!(d.right().is_leaf());
}

#[test]
fn tree_delete_node_with_two_children() {
    let t = full_seven();
    let d = t.delete(&4);
    assert_eq!(elements(&d), vec![1, 2, 3, 5, 6, 7]);
    assert_eq!(d.value(), 5);
    assert_eq!(d.left().value(), 2);
    assert_eq!(d.right().value(), 6);
    assert!(d.right().left().is_empty());
    let d = t.delete(&2);
    assert_eq!(elements(&d), vec![1, 3, 4, 5, 6, 7]);
    assert_eq!(d.left().value(), 3);
}

#[test]
fn tree_delete_absent_keeps_elements() {
    let t = tree_of(vec![2, 1, 3]);
    let d = t.delete(&9);
    assert_eq!(d, t);
}

#[test]
fn tree_delete_everything() {
    let mut t = tree_of(vec![5, 2, 8, 1, 9, 3, 7, 4, 6]);
    let mut left = vec![1, 2, 3, 4, 5, 6, 7, 8, 9];
    for v in [5, 1, 9, 3, 7, 2, 8, 4, 6] {
        t = t.delete(&v);
        left.retain(|x| *x != v);
        assert_eq!(elements(&t), left);
        assert_eq!(t.get(v), None);
    }
    assert!(t.is_empty());
}

#[test]
fn tree_insert_after_delete() {
    let t = tree_of(vec![4, 2, 6, 1, 3, 5, 7]).delete(&4).delete(&1);
    let t = t.insert(0).insert(4);
    assert_eq!(elements(&t), vec![0, 2, 3, 4, 5, 6, 7]);
}

#[test]
fn tree_del_removes_root() {
    let t = tree_of(vec![2, 1, 3]);
    let d = t.del();
    assert_eq!(elements(&d), vec![1, 3]);
    assert_eq!(d.value(), 3);
    assert_eq!(leaf(Color::Black, 1).del(), BinaryTree::empty());
    let only_left = BinaryTree::node(Color::Black, 2, leaf(Color::Red, 1), BinaryTree::empty());
    assert_eq!(only_left.del(), leaf(Color::Red, 1));
    let only_right = BinaryTree::node(Color::Black, 2, BinaryTree::empty(), leaf(Color::Red, 3));
    assert_eq!(only_right.del(), leaf(Color::Red, 3));
}

#[test]
fn tree_minimum_and_successor() {
    let t = full_seven();
    assert_eq!(t.minimum().value(), 1);
    assert!(t.minimum().left().is_empty());
    assert_eq!(t.inorder_successor().value(), 5);
    assert_eq!(t.left().inorder_successor().value(), 3);
    assert!(leaf(Color::Black, 1).inorder_successor().is_empty());
    assert_eq!(leaf(Color::Black, 1).minimum(), leaf(Color::Black, 1));
}

#[test]
fn tree_from_iter_ignores_duplicates() {
    let t = BinaryTree::from_iter(vec![2, 2, 1, 1, 3, 3]);
    assert_eq!(elements(&t), vec![1, 2, 3]);
    assert_eq!(t, tree_of(vec![2, 1, 3]));
}

#[test]
fn tree_clone_copies_root_and_shares_children() {
    let t = tree_of(vec![2, 1, 3]);
    let c = t.clone();
    assert_eq!(c, t);
    assert_eq!(c.color(), t.color());
    assert!(Rc::ptr_eq(&c.left(), &t.left()));
}

#[test]
fn tree_get_with_strings() {
    let mut t: BinaryTree<String> = BinaryTree::empty();
    for w in ["pear", "apple", "fig"] {
        t = t.insert(String::from(w));
    }
    assert_eq!(t.get(String::from("fig")), Some(String::from("fig")));
    assert_eq!(t.get(String::from("kiwi")), None);
    let mut it = t.into_iter();
    assert_eq!(it.next(), Some(String::from("apple")));
}
