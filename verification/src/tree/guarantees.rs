//! What holds of every tree that insertion builds.

use crate::laws::{equivalent, total_order};
use crate::tree::binary_tree::BinaryTree;
use crate::tree::insertion::{
    lemma_inserted,
    lemma_inserted_colors,
    lemma_inserted_present,
    well_colored,
};
use crate::tree::search_order::{lemma_bst_ascending, lemma_view_parts};
use crate::tree::sorted::{
    ascending,
    has_equivalent,
    inserted_all,
    lemma_inserted_all_of_ascending,
    lemma_lookup_absent,
    lemma_lookup_inserted,
    lookup,
    ordered_insert,
};
use vstd::prelude::*;

verus! {

/// Two to the power of `n`.
pub open spec fn pow2(n: nat) -> nat
    decreases n,
{
    if n == 0 {
        1
    } else {
        2 * pow2((n - 1) as nat)
    }
}

/// A tree built by inserting the elements of any sequence one after the other is a
/// search tree: read from left to right it is strictly ascending, and it holds
/// what the insertions into a sequence give.
pub proof fn lemma_built_ascending<E: PartialOrd>(items: Seq<E>)
    requires
        total_order::<E>(),
    ensures
        BinaryTree::built_from(items).is_bst(),
        BinaryTree::built_from(items)@ == inserted_all(items),
        ascending(BinaryTree::built_from(items)@),
    decreases items.len(),
{
    if items.len() > 0 {
        lemma_built_ascending(items.drop_last());
        lemma_inserted(BinaryTree::built_from(items.drop_last()), items.last());
    }
    lemma_bst_ascending(BinaryTree::built_from(items));
}

/// A tree built by inserting the elements of any sequence one after the other
/// keeps the colour invariant: its root is not red, no red node has a red child,
/// and every path from the root to an empty position passes the same number of
/// black nodes.
pub proof fn lemma_built_red_black<E: PartialOrd>(items: Seq<E>)
    ensures
        BinaryTree::built_from(items).is_red_black(),
    decreases items.len(),
{
    if items.len() > 0 {
        lemma_built_red_black(items.drop_last());
        lemma_inserted_colors(BinaryTree::built_from(items.drop_last()), items.last());
    }
}

/// After the insertion of `val`, a search for `val` finds an element equivalent
/// to it. It finds `val` itself where the tree held nothing equivalent before.
pub proof fn lemma_insert_then_get<E: PartialOrd>(t: BinaryTree<E>, val: E)
    requires
        total_order::<E>(),
        t.is_bst(),
    ensures
        lookup(t.inserted(val)@, val) is Some,
        equivalent(lookup(t.inserted(val)@, val)->0, val),
        !has_equivalent(t@, val) ==> lookup(t.inserted(val)@, val) == Some(val),
{
    lemma_inserted(t, val);
    lemma_lookup_inserted(t@, val);
}

/// A search for a value finds nothing in a tree that holds nothing equivalent to
/// it.
pub proof fn lemma_get_absent<E: PartialOrd>(t: BinaryTree<E>, val: E)
    requires
        total_order::<E>(),
        !has_equivalent(t@, val),
    ensures
        lookup(t@, val) is None,
{
    lemma_lookup_absent(t@, val);
}

/// To insert the same element a second time returns the same tree, node for node.
pub proof fn lemma_insert_twice<E: PartialOrd>(t: BinaryTree<E>, val: E)
    requires
        total_order::<E>(),
        t.is_bst(),
        t.is_red_black(),
    ensures
        t.inserted(val).inserted(val) == t.inserted(val),
{
    lemma_inserted(t, val);
    lemma_inserted_colors(t, val);
    lemma_lookup_inserted(t@, val);
    lemma_inserted_present(t.inserted(val), val);
}

/// The elements of a search tree, read from left to right and inserted one after
/// the other into the empty tree, give a tree with the same elements in the same
/// order.
pub proof fn lemma_round_trip<E: PartialOrd>(t: BinaryTree<E>)
    requires
        total_order::<E>(),
        t.is_bst(),
    ensures
        BinaryTree::built_from(t@)@ == t@,
{
    lemma_bst_ascending(t);
    lemma_built_ascending(t@);
    lemma_inserted_all_of_ascending(t@);
}

/// The colour invariant bounds the height: a subtree with `b` black nodes on
/// every path holds at least `2^b - 1` elements and is at most `2 * b` nodes
/// high, or one more where its root is red.
pub proof fn lemma_well_colored_height<E>(t: BinaryTree<E>)
    requires
        well_colored(t),
    ensures
        pow2(t.black_height()) <= t@.len() + 1,
        t.spec_height() <= 2 * t.black_height() + if t.is_red() {
            1nat
        } else {
            0nat
        },
    decreases t,
{
    if !(t is Empty) {
        lemma_well_colored_height(t.spec_left());
        lemma_well_colored_height(t.spec_right());
        lemma_view_parts(t);
    }
}

/// A red-black tree is at most twice as high as the number of black nodes on its
/// paths, and two to the power of that number is at most the number of its
/// elements plus one: its height is logarithmic in its size.
pub proof fn lemma_red_black_height<E>(t: BinaryTree<E>)
    requires
        t.is_red_black(),
    ensures
        t.spec_height() <= 2 * t.black_height(),
        pow2(t.black_height()) <= t@.len() + 1,
{
    lemma_well_colored_height(t);
}

} // verus!
