//! Why insertion keeps the search order and the colour invariant.

use crate::laws::{equivalent, lemma_less_cut, lemma_less_transitive, lemma_order_basics, less, total_order};
use crate::tree::binary_tree::{BinaryTree, Color};
use crate::tree::search_order::{
    lemma_all_greater_lower,
    lemma_all_greater_view,
    lemma_all_less_raise,
    lemma_all_less_view,
    lemma_view_parts,
};
use crate::tree::sorted::{
    has_equivalent,
    lemma_ordered_insert_after,
    lemma_ordered_insert_before,
    lemma_ordered_insert_keeps,
    ordered_insert,
};
use vstd::prelude::*;

verus! {

/// A colour changes neither what a tree holds nor its order.
pub proof fn lemma_painted<E: PartialOrd>(t: BinaryTree<E>, c: Color)
    ensures
        t.painted(c)@ == t@,
        t.painted(c).is_bst() == t.is_bst(),
{
}

/// The view of a node that is built from its parts.
pub proof fn lemma_node_view<E>(c: Color, val: E, left: BinaryTree<E>, right: BinaryTree<E>)
    ensures
        BinaryTree::spec_node(c, val, left, right)@ == left@ + seq![val] + right@,
{
}

/// A rotation keeps the elements in their places from left to right.
pub proof fn lemma_balanced_view<E>(c: Color, val: E, left: BinaryTree<E>, right: BinaryTree<E>)
    ensures
        BinaryTree::balanced(c, val, left, right)@ == left@ + seq![val] + right@,
{
    let res = BinaryTree::balanced(c, val, left, right);
    let black = Color::Black;
    if !(c is Black) {
    } else if left.spec_doubled_left() {
        let (a, x, b) = (left.spec_left(), left.spec_value(), left.spec_right());
        lemma_view_parts(left);
        lemma_node_view(black, val, b, right);
        lemma_node_view(Color::Red, x, a.painted(black), BinaryTree::spec_node(black, val, b, right));
        assert(a.painted(black)@ == a@);
        assert(res@ =~= left@ + seq![val] + right@);
    } else if left.spec_doubled_right() {
        let (a, x, mid) = (left.spec_left(), left.spec_value(), left.spec_right());
        let (b, y, d) = (mid.spec_left(), mid.spec_value(), mid.spec_right());
        lemma_view_parts(left);
        lemma_view_parts(mid);
        lemma_node_view(black, x, a, b);
        lemma_node_view(black, val, d, right);
        lemma_node_view(
            Color::Red,
            y,
            BinaryTree::spec_node(black, x, a, b),
            BinaryTree::spec_node(black, val, d, right),
        );
        assert(res@ =~= left@ + seq![val] + right@);
    } else if right.spec_doubled_left() {
        let (mid, z, d) = (right.spec_left(), right.spec_value(), right.spec_right());
        let (b, y, k) = (mid.spec_left(), mid.spec_value(), mid.spec_right());
        lemma_view_parts(right);
        lemma_view_parts(mid);
        lemma_node_view(black, val, left, b);
        lemma_node_view(black, z, k, d);
        lemma_node_view(
            Color::Red,
            y,
            BinaryTree::spec_node(black, val, left, b),
            BinaryTree::spec_node(black, z, k, d),
        );
        assert(res@ =~= left@ + seq![val] + right@);
    } else if right.spec_doubled_right() {
        let (b, z, d) = (right.spec_left(), right.spec_value(), right.spec_right());
        lemma_view_parts(right);
        lemma_node_view(black, val, left, b);
        lemma_node_view(Color::Red, z, BinaryTree::spec_node(black, val, left, b), d.painted(black));
        assert(d.painted(black)@ == d@);
        assert(res@ =~= left@ + seq![val] + right@);
    }
}

/// A rotation keeps the search order.
pub proof fn lemma_balanced_bst<E: PartialOrd>(
    c: Color,
    val: E,
    left: BinaryTree<E>,
    right: BinaryTree<E>,
)
    requires
        total_order::<E>(),
        left.is_bst(),
        right.is_bst(),
        left.all_less(val),
        right.all_greater(val),
    ensures
        BinaryTree::balanced(c, val, left, right).is_bst(),
{
    reveal_with_fuel(BinaryTree::is_bst, 3);
    reveal_with_fuel(BinaryTree::all_less, 3);
    reveal_with_fuel(BinaryTree::all_greater, 3);
    if !(c is Black) {
    } else if left.spec_doubled_left() {
        lemma_all_greater_lower(right, val, left.spec_value());
    } else if left.spec_doubled_right() {
        let mid = left.spec_right();
        lemma_all_greater_lower(right, val, mid.spec_value());
        lemma_all_less_raise(left.spec_left(), left.spec_value(), mid.spec_value());
    } else if right.spec_doubled_left() {
        let mid = right.spec_left();
        lemma_all_less_raise(left, val, mid.spec_value());
        lemma_all_greater_lower(right.spec_right(), right.spec_value(), mid.spec_value());
    } else if right.spec_doubled_right() {
        lemma_all_less_raise(left, val, right.spec_value());
    }
}

/// The descent of an insertion keeps the search order, and puts the new element
/// where it belongs in the view.
pub proof fn lemma_grown<E: PartialOrd>(t: BinaryTree<E>, val: E)
    requires
        total_order::<E>(),
        t.is_bst(),
    ensures
        t.grown(val).is_bst(),
        t.grown(val)@ == ordered_insert(t@, val),
    decreases t,
{
    if t is Empty {
        reveal_with_fuel(BinaryTree::is_bst, 2);
        reveal_with_fuel(BinaryTree::all_less, 2);
        reveal_with_fuel(BinaryTree::all_greater, 2);
        reveal_with_fuel(BinaryTree::to_seq, 2);
        assert(t.grown(val)@ =~= seq![val]);
    } else {
        let color = t.spec_color();
        let value = t.spec_value();
        let left = t.spec_left();
        let right = t.spec_right();
        lemma_all_less_view(left, value);
        lemma_all_greater_view(right, value);
        lemma_order_basics(value, val);
        if less(value, val) {
            let r = right.grown(val);
            lemma_grown(right, val);
            lemma_ordered_insert_keeps(right@, val, |e: E| less(value, e));
            lemma_all_greater_view(r, value);
            lemma_balanced_bst(color, value, left, r);
            lemma_balanced_view(color, value, left, r);
            let front = left@ + seq![value];
            assert forall|i: int| 0 <= i < front.len() implies less(#[trigger] front[i], val) by {
                if i < left@.len() {
                    lemma_less_transitive(left@[i], value, val);
                }
            }
            lemma_ordered_insert_after(front, right@, val);
            assert(t@ =~= front + right@);
            assert(t.grown(val)@ =~= front + ordered_insert(right@, val));
        } else if less(val, value) {
            let l = left.grown(val);
            lemma_grown(left, val);
            lemma_ordered_insert_keeps(left@, val, |e: E| less(e, value));
            lemma_all_less_view(l, value);
            lemma_balanced_bst(color, value, l, right);
            lemma_balanced_view(color, value, l, right);
            let back = seq![value] + right@;
            lemma_ordered_insert_before(left@, back, val);
            assert(t@ =~= left@ + back);
            assert(t.grown(val)@ =~= ordered_insert(left@, val) + back);
        } else {
            let back = seq![value] + right@;
            assert forall|i: int| 0 <= i < left@.len() implies less(#[trigger] left@[i], val) by {
                lemma_less_cut(left@[i], value, val);
            }
            lemma_ordered_insert_after(left@, back, val);
            assert(t@ =~= left@ + back);
            assert(ordered_insert(back, val) == back);
        }
    }
}

/// Insertion keeps the search order, and puts the new element where it belongs in
/// the view.
pub proof fn lemma_inserted<E: PartialOrd>(t: BinaryTree<E>, val: E)
    requires
        total_order::<E>(),
        t.is_bst(),
    ensures
        t.inserted(val).is_bst(),
        t.inserted(val)@ == ordered_insert(t@, val),
{
    lemma_grown(t, val);
    lemma_painted(t.grown(val), Color::Black);
}

/// A subtree of a red-black tree: black and red nodes only, no red node with a red
/// child, and the same number of black nodes on every path down.
pub open spec fn well_colored<E>(t: BinaryTree<E>) -> bool {
    t.two_colored() && t.no_red_red() && t.black_balanced()
}

/// Like [`well_colored`], but the root may be a red node with a red child.
pub open spec fn nearly_well_colored<E>(t: BinaryTree<E>) -> bool {
    &&& t.two_colored()
    &&& t.black_balanced()
    &&& !(t is Empty) ==> t.spec_left().no_red_red() && t.spec_right().no_red_red()
}

/// Under a black node, a rotation repairs the one red node with a red child that
/// an insertion may have left at the root of a subtree.
pub proof fn lemma_balanced_colors<E>(
    c: Color,
    val: E,
    left: BinaryTree<E>,
    right: BinaryTree<E>,
)
    requires
        c is Black,
        left.black_height() == right.black_height(),
        (nearly_well_colored(left) && well_colored(right)) || (well_colored(left)
            && nearly_well_colored(right)),
    ensures
        well_colored(BinaryTree::balanced(c, val, left, right)),
        BinaryTree::balanced(c, val, left, right).black_height() == left.black_height() + 1,
{
    reveal_with_fuel(BinaryTree::two_colored, 3);
    reveal_with_fuel(BinaryTree::no_red_red, 3);
    reveal_with_fuel(BinaryTree::black_balanced, 3);
    reveal_with_fuel(BinaryTree::black_height, 3);
}

/// The descent of an insertion keeps the number of black nodes on every path, and
/// leaves at most one red node with a red child: the root of what it returns, and
/// only where the root was red before.
pub proof fn lemma_grown_colors<E: PartialOrd>(t: BinaryTree<E>, val: E)
    requires
        well_colored(t),
    ensures
        nearly_well_colored(t.grown(val)),
        !(t.grown(val) is Empty),
        t.grown(val).black_height() == t.black_height(),
        !t.is_red() ==> well_colored(t.grown(val)),
    decreases t,
{
    reveal_with_fuel(BinaryTree::two_colored, 2);
    reveal_with_fuel(BinaryTree::no_red_red, 2);
    reveal_with_fuel(BinaryTree::black_balanced, 2);
    reveal_with_fuel(BinaryTree::black_height, 2);
    if !(t is Empty) {
        let color = t.spec_color();
        let value = t.spec_value();
        let left = t.spec_left();
        let right = t.spec_right();
        if less(value, val) {
            lemma_grown_colors(right, val);
            if color is Black {
                lemma_balanced_colors(color, value, left, right.grown(val));
            }
        } else if less(val, value) {
            lemma_grown_colors(left, val);
            if color is Black {
                lemma_balanced_colors(color, value, left.grown(val), right);
            }
        }
    }
}

/// Insertion keeps the colour invariant.
pub proof fn lemma_inserted_colors<E: PartialOrd>(t: BinaryTree<E>, val: E)
    requires
        t.is_red_black(),
    ensures
        t.inserted(val).is_red_black(),
{
    lemma_grown_colors(t, val);
}

/// Inserting what a red-black search tree already holds returns the same tree.
pub proof fn lemma_inserted_present<E: PartialOrd>(t: BinaryTree<E>, val: E)
    requires
        total_order::<E>(),
        t.is_bst(),
        t.is_red_black(),
        has_equivalent(t@, val),
    ensures
        t.inserted(val) == t,
{
    lemma_grown_present(t, val);
}

proof fn lemma_grown_present<E: PartialOrd>(t: BinaryTree<E>, val: E)
    requires
        total_order::<E>(),
        t.is_bst(),
        t.no_red_red(),
        has_equivalent(t@, val),
    ensures
        t.grown(val) == t,
    decreases t,
{
    let i = choose|i: int| 0 <= i < t@.len() && equivalent(#[trigger] t@[i], val);
    let color = t.spec_color();
    let value = t.spec_value();
    let left = t.spec_left();
    let right = t.spec_right();
    let n = left@.len() as int;
    reveal_with_fuel(BinaryTree::no_red_red, 2);
    lemma_view_parts(t);
    lemma_all_less_view(left, value);
    lemma_all_greater_view(right, value);
    lemma_order_basics(value, val);
    assert(t@[n] == value);
    assert(t == BinaryTree::spec_node(color, value, left, right));
    if less(value, val) {
        if i < n {
            assert(t@[i] == left@[i]);
            lemma_less_transitive(left@[i], value, val);
        }
        assert(t@[i] == right@[i - n - 1]);
        lemma_grown_present(right, val);
    } else if less(val, value) {
        if i > n {
            assert(t@[i] == right@[i - n - 1]);
            lemma_less_transitive(val, value, right@[i - n - 1]);
        }
        assert(t@[i] == left@[i]);
        lemma_grown_present(left, val);
    }
}

} // verus!
