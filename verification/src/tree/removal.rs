//! Why removal keeps the search order.

use crate::laws::{equivalent, lemma_less_cut, lemma_less_transitive, lemma_order_basics, less, total_order};
use crate::tree::binary_tree::{BinaryTree, Color};
use crate::tree::search_order::{
    lemma_all_greater_view,
    lemma_all_less_raise,
    lemma_all_less_view,
    lemma_bst_ascending,
    lemma_view_parts,
};
use crate::tree::sorted::{
    lemma_ordered_remove_after,
    lemma_ordered_remove_before,
    lemma_ordered_remove_keeps,
    ordered_remove,
};
use vstd::prelude::*;

verus! {

/// The leftmost node of a tree is a node without a left subtree, and holds the
/// first element of the view.
pub proof fn lemma_leftmost<E>(t: BinaryTree<E>)
    requires
        !(t is Empty),
    ensures
        !(t.leftmost() is Empty),
        t.leftmost().spec_left() is Empty,
        t@.len() > 0,
        t.leftmost().spec_value() == t@[0],
        t.two_colored() ==> t.leftmost().two_colored(),
    decreases t,
{
    lemma_view_parts(t);
    if !(t.spec_left() is Empty) {
        lemma_leftmost(t.spec_left());
    }
}

/// A node of a search tree, rebuilt over its left subtree without the elements
/// equivalent to `val`, is a search tree that holds what the view is left with.
pub proof fn lemma_removed_left<E: PartialOrd>(t: BinaryTree<E>, val: E, rest: BinaryTree<E>)
    requires
        total_order::<E>(),
        t.is_bst(),
        !(t is Empty),
        less(val, t.spec_value()),
        rest.is_bst(),
        rest@ == ordered_remove(t.spec_left()@, val),
    ensures
        BinaryTree::spec_node(t.spec_color(), t.spec_value(), rest, t.spec_right()).is_bst(),
        BinaryTree::spec_node(t.spec_color(), t.spec_value(), rest, t.spec_right())@
            == ordered_remove(t@, val),
{
    let value = t.spec_value();
    let left = t.spec_left();
    let right = t.spec_right();
    let back = seq![value] + right@;
    lemma_view_parts(t);
    lemma_all_less_view(left, value);
    lemma_all_greater_view(right, value);
    lemma_ordered_remove_keeps(left@, val, |e: E| less(e, value));
    lemma_all_less_view(rest, value);
    assert forall|i: int| 0 <= i < back.len() implies !equivalent(
        #[trigger] back[i],
        val,
    ) by {
        if i > 0 {
            lemma_less_transitive(val, value, right@[i - 1]);
        }
    }
    lemma_ordered_remove_before(left@, back, val);
    assert(t@ =~= left@ + back);
    assert(BinaryTree::spec_node(t.spec_color(), value, rest, right)@ =~= rest@ + back);
}

/// A node of a search tree, rebuilt over its right subtree without the elements
/// equivalent to `val`, is a search tree that holds what the view is left with.
pub proof fn lemma_removed_right<E: PartialOrd>(t: BinaryTree<E>, val: E, rest: BinaryTree<E>)
    requires
        total_order::<E>(),
        t.is_bst(),
        !(t is Empty),
        less(t.spec_value(), val),
        rest.is_bst(),
        rest@ == ordered_remove(t.spec_right()@, val),
    ensures
        BinaryTree::spec_node(t.spec_color(), t.spec_value(), t.spec_left(), rest).is_bst(),
        BinaryTree::spec_node(t.spec_color(), t.spec_value(), t.spec_left(), rest)@
            == ordered_remove(t@, val),
{
    let value = t.spec_value();
    let left = t.spec_left();
    let right = t.spec_right();
    let front = left@ + seq![value];
    lemma_view_parts(t);
    lemma_all_less_view(left, value);
    lemma_all_greater_view(right, value);
    lemma_ordered_remove_keeps(right@, val, |e: E| less(value, e));
    lemma_all_greater_view(rest, value);
    assert forall|i: int| 0 <= i < front.len() implies !equivalent(
        #[trigger] front[i],
        val,
    ) by {
        if i < left@.len() {
            lemma_less_transitive(left@[i], value, val);
        }
    }
    lemma_ordered_remove_after(front, right@, val);
    assert(t@ =~= front + right@);
    assert(BinaryTree::spec_node(t.spec_color(), value, left, rest)@ =~= front + rest@);
}

/// The view of a search tree without the root's element is what removal of an
/// element equivalent to the root's leaves.
pub proof fn lemma_removed_root<E: PartialOrd>(t: BinaryTree<E>, val: E)
    requires
        total_order::<E>(),
        t.is_bst(),
        !(t is Empty),
        !less(val, t.spec_value()),
        !less(t.spec_value(), val),
    ensures
        ordered_remove(t@, val) == t.spec_left()@ + t.spec_right()@,
{
    let value = t.spec_value();
    let left = t.spec_left();
    let right = t.spec_right();
    let back = seq![value] + right@;
    lemma_view_parts(t);
    lemma_all_less_view(left, value);
    assert forall|i: int| 0 <= i < left@.len() implies !equivalent(
        #[trigger] left@[i],
        val,
    ) by {
        lemma_less_cut(left@[i], value, val);
    }
    lemma_ordered_remove_after(left@, back, val);
    assert(t@ =~= left@ + back);
    assert(back.skip(1) =~= right@);
}

/// A search tree with two subtrees, rebuilt with the first element of the right
/// subtree at the root and the right subtree without it, is a search tree with
/// the elements of the two subtrees.
pub proof fn lemma_spliced<E: PartialOrd>(t: BinaryTree<E>, c: Color, rest: BinaryTree<E>)
    requires
        total_order::<E>(),
        t.is_bst(),
        !(t is Empty),
        !(t.spec_right() is Empty),
        rest.is_bst(),
        rest@ == ordered_remove(t.spec_right()@, t.spec_right()@[0]),
    ensures
        BinaryTree::spec_node(c, t.spec_right()@[0], t.spec_left(), rest).is_bst(),
        BinaryTree::spec_node(c, t.spec_right()@[0], t.spec_left(), rest)@ == t.spec_left()@
            + t.spec_right()@,
{
    let value = t.spec_value();
    let left = t.spec_left();
    let right = t.spec_right();
    lemma_view_parts(right);
    let next = right@[0];
    lemma_order_basics(next, next);
    assert(rest@ == right@.skip(1));
    lemma_all_greater_view(right, value);
    lemma_all_less_raise(left, value, next);
    lemma_bst_ascending(right);
    assert forall|i: int| 0 <= i < rest@.len() implies less(next, #[trigger] rest@[i]) by {
        assert(rest@[i] == right@[i + 1]);
    }
    lemma_all_greater_view(rest, next);
    assert(BinaryTree::spec_node(c, next, left, rest)@ =~= left@ + right@);
}

/// Taking the root out of a search tree leaves a search tree with the elements of
/// the two subtrees.
pub proof fn lemma_without_root<E: PartialOrd>(t: BinaryTree<E>)
    requires
        total_order::<E>(),
        t.is_bst(),
        !(t is Empty),
    ensures
        t.without_root().is_bst(),
        t.without_root()@ == t.spec_left()@ + t.spec_right()@,
    decreases t, 0nat,
{
    let left = t.spec_left();
    let right = t.spec_right();
    if left is Empty {
        assert(left@ + right@ =~= right@);
    } else if right is Empty {
        assert(left@ + right@ =~= left@);
    } else {
        let next = right.leftmost();
        lemma_leftmost(right);
        lemma_removed(right, next.spec_value());
        lemma_spliced(t, next.spec_color(), right.removed(next.spec_value()));
    }
}

/// Removal keeps the search order, and takes out of the view the element
/// equivalent to `val`.
pub proof fn lemma_removed<E: PartialOrd>(t: BinaryTree<E>, val: E)
    requires
        total_order::<E>(),
        t.is_bst(),
    ensures
        t.removed(val).is_bst(),
        t.removed(val)@ == ordered_remove(t@, val),
    decreases t, 1nat,
{
    if !(t is Empty) {
        let value = t.spec_value();
        if less(val, value) {
            lemma_removed(t.spec_left(), val);
            lemma_removed_left(t, val, t.spec_left().removed(val));
        } else if less(value, val) {
            lemma_removed(t.spec_right(), val);
            lemma_removed_right(t, val, t.spec_right().removed(val));
        } else {
            lemma_without_root(t);
            lemma_removed_root(t, val);
        }
    }
}

} // verus!
