//! An ordered set kept in a red-black tree.

use crate::laws::lawful;
use crate::tree::binary_tree::{BinaryTree, Iter};
use crate::tree::search_order::lemma_bst_ascending;
use crate::tree::sorted::{ascending, lemma_searchable_by_itself, lookup, ordered_insert};
use vstd::prelude::*;

verus! {

/// A persistent set of elements, ordered by their comparison.
pub struct TreeSet<E: Eq + Ord + Clone> {
    tree: BinaryTree<E>,
}

impl<E: Eq + Ord + Clone> View for TreeSet<E> {
    type V = Seq<E>;

    /// The elements in ascending order.
    closed spec fn view(&self) -> Seq<E> {
        self.tree@
    }
}

impl<E: Eq + Ord + Clone> TreeSet<E> {
    #[verifier::type_invariant]
    spec fn well_formed(self) -> bool {
        &&& self.tree.two_colored()
        &&& lawful::<E>() ==> self.tree.is_bst() && self.tree.is_red_black()
    }

    /// The set without elements.
    pub fn new() -> (res: Self)
        ensures
            res@ == Seq::<E>::empty(),
    {
        TreeSet { tree: BinaryTree::empty() }
    }

    /// The element of the set that is equivalent to `key`, or `None` where the set
    /// holds none.
    pub fn get(&self, key: E) -> (res: Option<E>)
        ensures
            lawful::<E>() ==> res == lookup(self@, key),
    {
        proof {
            use_type_invariant(self);
            if lawful::<E>() {
                lemma_searchable_by_itself::<E>();
            }
        }
        self.tree.get(key)
    }

    /// The set with `elem` in it. Where the set already holds an element
    /// equivalent to `elem`, that element stays and the set is as before.
    pub fn put(self, elem: E) -> (res: Self)
        ensures
            lawful::<E>() ==> res@ == ordered_insert(self@, elem),
            lawful::<E>() ==> ascending(res@),
    {
        proof {
            use_type_invariant(&self);
        }
        let tree = self.tree.insert(elem);
        proof {
            if lawful::<E>() {
                lemma_bst_ascending(tree);
            }
        }
        TreeSet { tree }
    }

    /// A cursor over the elements in ascending order.
    pub fn into_iter(self) -> (res: Iter<E>)
        ensures
            res@ == self@,
            lawful::<E>() ==> ascending(res@),
    {
        proof {
            use_type_invariant(&self);
            if lawful::<E>() {
                lemma_bst_ascending(self.tree);
            }
        }
        self.tree.into_iter()
    }
}

} // verus!
