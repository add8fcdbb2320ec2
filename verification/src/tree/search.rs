//! Why a descent from the root finds what a search through the view finds.

use crate::tree::binary_tree::BinaryTree;
use crate::tree::search_order::{lemma_all_greater_view, lemma_all_less_view, lemma_view_parts};
use crate::tree::sorted::{
    after_key,
    before_key,
    lemma_lookup_concat,
    lemma_lookup_finds,
    lemma_search_step,
    lookup,
    matches_key,
    searchable_by,
};
use vstd::prelude::*;

verus! {

/// At a node of a search tree the key decides where its match lies: in the left
/// subtree where the node's element ranks after the key, in the right subtree
/// where it ranks before the key, and at the node itself otherwise.
pub proof fn lemma_lookup_node<E: PartialOrd + PartialOrd<K>, K>(t: BinaryTree<E>, k: K)
    requires
        searchable_by::<E, K>(),
        t.is_bst(),
        !(t is Empty),
    ensures
        lookup(t@, k) == if after_key(t.spec_value(), k) {
            lookup(t.spec_left()@, k)
        } else if before_key(t.spec_value(), k) {
            lookup(t.spec_right()@, k)
        } else {
            Some(t.spec_value())
        },
{
    let value = t.spec_value();
    let left = t.spec_left();
    let right = t.spec_right();
    let back = seq![value] + right@;
    lemma_view_parts(t);
    lemma_all_less_view(left, value);
    lemma_all_greater_view(right, value);
    assert(t@ =~= left@ + back);
    lemma_lookup_concat(left@, back, k);
    lemma_lookup_finds(left@, k);
    lemma_lookup_finds(right@, k);
    assert(back.skip(1) =~= right@);
    if after_key(value, k) {
        assert forall|i: int| 0 <= i < right@.len() implies !matches_key(#[trigger] right@[i], k) by {
            lemma_search_step(value, right@[i], k);
        }
    } else {
        assert forall|i: int| 0 <= i < left@.len() implies !matches_key(#[trigger] left@[i], k) by {
            lemma_search_step(left@[i], value, k);
        }
    }
}

} // verus!
