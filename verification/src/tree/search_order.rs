//! How the search order of a tree shows in its view.

use crate::laws::{lemma_less_transitive, less, total_order};
use crate::tree::binary_tree::BinaryTree;
use crate::tree::sorted::ascending;
use vstd::prelude::*;

verus! {

/// The view of a node is made of three parts.
pub proof fn lemma_view_parts<E>(t: BinaryTree<E>)
    requires
        !(t is Empty),
    ensures
        t@ == t.spec_left()@ + seq![t.spec_value()] + t.spec_right()@,
        t@.len() == t.spec_left()@.len() + 1 + t.spec_right()@.len(),
        t@[t.spec_left()@.len() as int] == t.spec_value(),
        forall|i: int| 0 <= i < t.spec_left()@.len() ==> t@[i] == t.spec_left()@[i],
        forall|i: int|
            0 <= i < t.spec_right()@.len() ==> t@[t.spec_left()@.len() + 1 + i]
                == t.spec_right()@[i],
{
}

/// A tree lies below a bound where each element of its view does.
pub proof fn lemma_all_less_view<E: PartialOrd>(t: BinaryTree<E>, bound: E)
    ensures
        t.all_less(bound) <==> forall|i: int| 0 <= i < t@.len() ==> less(#[trigger] t@[i], bound),
    decreases t,
{
    if !(t is Empty) {
        let value = t.spec_value();
        let left = t.spec_left();
        let right = t.spec_right();
        lemma_all_less_view(left, bound);
        lemma_all_less_view(right, bound);
        lemma_view_parts(t);
        let n = left@.len() as int;
        if t.all_less(bound) {
            assert forall|i: int| 0 <= i < t@.len() implies less(#[trigger] t@[i], bound) by {
                if i < n {
                    assert(t@[i] == left@[i]);
                } else if i > n {
                    assert(t@[i] == right@[i - n - 1]);
                }
            }
        }
        if forall|i: int| 0 <= i < t@.len() ==> less(#[trigger] t@[i], bound) {
            assert(less(t@[n], bound));
            assert forall|i: int| 0 <= i < left@.len() implies less(
                #[trigger] left@[i],
                bound,
            ) by {
                assert(t@[i] == left@[i]);
            }
            assert forall|i: int| 0 <= i < right@.len() implies less(
                #[trigger] right@[i],
                bound,
            ) by {
                assert(t@[n + 1 + i] == right@[i]);
            }
        }
    }
}

/// A tree lies above a bound where each element of its view does.
pub proof fn lemma_all_greater_view<E: PartialOrd>(t: BinaryTree<E>, bound: E)
    ensures
        t.all_greater(bound) <==> forall|i: int|
            0 <= i < t@.len() ==> less(bound, #[trigger] t@[i]),
    decreases t,
{
    if !(t is Empty) {
        let value = t.spec_value();
        let left = t.spec_left();
        let right = t.spec_right();
        lemma_all_greater_view(left, bound);
        lemma_all_greater_view(right, bound);
        lemma_view_parts(t);
        let n = left@.len() as int;
        if t.all_greater(bound) {
            assert forall|i: int| 0 <= i < t@.len() implies less(bound, #[trigger] t@[i]) by {
                if i < n {
                    assert(t@[i] == left@[i]);
                } else if i > n {
                    assert(t@[i] == right@[i - n - 1]);
                }
            }
        }
        if forall|i: int| 0 <= i < t@.len() ==> less(bound, #[trigger] t@[i]) {
            assert(less(bound, t@[n]));
            assert forall|i: int| 0 <= i < left@.len() implies less(
                bound,
                #[trigger] left@[i],
            ) by {
                assert(t@[i] == left@[i]);
            }
            assert forall|i: int| 0 <= i < right@.len() implies less(
                bound,
                #[trigger] right@[i],
            ) by {
                assert(t@[n + 1 + i] == right@[i]);
            }
        }
    }
}

/// What lies below a bound lies below every greater one.
pub proof fn lemma_all_less_raise<E: PartialOrd>(t: BinaryTree<E>, bound: E, higher: E)
    requires
        total_order::<E>(),
        t.all_less(bound),
        less(bound, higher),
    ensures
        t.all_less(higher),
    decreases t,
{
    if !(t is Empty) {
        let value = t.spec_value();
        let left = t.spec_left();
        let right = t.spec_right();
        lemma_less_transitive(value, bound, higher);
        lemma_all_less_raise(left, bound, higher);
        lemma_all_less_raise(right, bound, higher);
    }
}

/// What lies above a bound lies above every smaller one.
pub proof fn lemma_all_greater_lower<E: PartialOrd>(t: BinaryTree<E>, bound: E, lower: E)
    requires
        total_order::<E>(),
        t.all_greater(bound),
        less(lower, bound),
    ensures
        t.all_greater(lower),
    decreases t,
{
    if !(t is Empty) {
        let value = t.spec_value();
        let left = t.spec_left();
        let right = t.spec_right();
        lemma_less_transitive(lower, bound, value);
        lemma_all_greater_lower(left, bound, lower);
        lemma_all_greater_lower(right, bound, lower);
    }
}

/// Read from left to right, a search tree is strictly ascending.
pub proof fn lemma_bst_ascending<E: PartialOrd>(t: BinaryTree<E>)
    requires
        total_order::<E>(),
        t.is_bst(),
    ensures
        ascending(t@),
    decreases t,
{
    if !(t is Empty) {
        let value = t.spec_value();
        let left = t.spec_left();
        let right = t.spec_right();
        lemma_bst_ascending(left);
        lemma_bst_ascending(right);
        lemma_all_less_view(left, value);
        lemma_all_greater_view(right, value);
        lemma_view_parts(t);
        let n = left@.len() as int;
        assert forall|i: int, j: int| 0 <= i < j < t@.len() implies less(
            #[trigger] t@[i],
            #[trigger] t@[j],
        ) by {
            if j < n {
                assert(t@[i] == left@[i] && t@[j] == left@[j]);
            } else if i > n {
                assert(t@[i] == right@[i - n - 1] && t@[j] == right@[j - n - 1]);
            } else if i < n && j > n {
                assert(t@[i] == left@[i] && t@[j] == right@[j - n - 1]);
                lemma_less_transitive(t@[i], value, t@[j]);
            } else if i < n {
                assert(t@[i] == left@[i]);
            } else {
                assert(t@[j] == right@[j - n - 1]);
            }
        }
    }
}

} // verus!
