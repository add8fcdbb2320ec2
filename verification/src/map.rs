//! An ordered map kept in a red-black tree of entries that are ranked by their
//! key alone.

use crate::laws::{
    exact_clone,
    greater,
    lawful,
    lemma_less_cut,
    lemma_order_basics,
    less,
    total_order,
};
use crate::tree::binary_tree::{BinaryTree, Iter};
use crate::tree::search_order::lemma_bst_ascending;
use crate::tree::sorted::{
    after_key,
    ascending,
    before_key,
    inserted_all,
    lookup,
    ordered_insert,
    searchable_by,
};
use std::cmp::Ordering;
use vstd::prelude::*;
use vstd::std_specs::cmp::PartialEqSpec;
use vstd::std_specs::cmp::PartialEqSpecImpl;
use vstd::std_specs::cmp::PartialOrdSpec;
use vstd::std_specs::cmp::PartialOrdSpecImpl;

verus! {

/// A key with its value. Entries are compared by their keys: two entries with
/// the same key are equal whatever their values.
#[derive(Debug)]
pub struct Entry<K: Eq + Ord, V> {
    pub key: K,
    pub val: V,
}

impl<K: Eq + Ord + Clone, V: Clone> Clone for Entry<K, V> {
    fn clone(&self) -> (res: Self)
        ensures
            cloned::<K>(self.key, res.key),
            cloned::<V>(self.val, res.val),
    {
        Entry { key: self.key.clone(), val: self.val.clone() }
    }
}

impl<K: Ord + Eq, V> PartialEq for Entry<K, V> {
    fn eq(&self, other: &Self) -> (res: bool) {
        self.key == other.key
    }
}

impl<K: Ord + Eq, V> PartialEqSpecImpl for Entry<K, V> {
    open spec fn obeys_eq_spec() -> bool {
        K::obeys_eq_spec()
    }

    open spec fn eq_spec(&self, other: &Self) -> bool {
        self.key.eq_spec(&other.key)
    }
}

impl<K: Ord + Eq, V> PartialEq<K> for Entry<K, V> {
    fn eq(&self, other: &K) -> (res: bool) {
        self.key == *other
    }
}

impl<K: Ord + Eq, V> PartialEqSpecImpl<K> for Entry<K, V> {
    open spec fn obeys_eq_spec() -> bool {
        K::obeys_eq_spec()
    }

    open spec fn eq_spec(&self, other: &K) -> bool {
        self.key.eq_spec(other)
    }
}

impl<K: Ord + Eq, V> Eq for Entry<K, V> {

}

impl<K: Ord + Eq, V> PartialOrd for Entry<K, V> {
    fn partial_cmp(&self, other: &Self) -> (res: Option<Ordering>) {
        self.key.partial_cmp(&other.key)
    }
}

impl<K: Ord + Eq, V> PartialOrdSpecImpl for Entry<K, V> {
    open spec fn obeys_partial_cmp_spec() -> bool {
        K::obeys_partial_cmp_spec()
    }

    open spec fn partial_cmp_spec(&self, other: &Self) -> Option<Ordering> {
        self.key.partial_cmp_spec(&other.key)
    }
}

impl<K: Ord + Eq, V> PartialOrd<K> for Entry<K, V> {
    fn partial_cmp(&self, other: &K) -> (res: Option<Ordering>) {
        self.key.partial_cmp(other)
    }
}

impl<K: Ord + Eq, V> PartialOrdSpecImpl<K> for Entry<K, V> {
    open spec fn obeys_partial_cmp_spec() -> bool {
        K::obeys_partial_cmp_spec()
    }

    open spec fn partial_cmp_spec(&self, other: &K) -> Option<Ordering> {
        self.key.partial_cmp_spec(other)
    }
}

impl<K: Eq + Ord, V> Entry<K, V> {
    pub fn new(key: K, val: V) -> (res: Self)
        ensures
            res == (Entry { key, val }),
    {
        Entry { key: key, val: val }
    }
}

/// What a map asks of its keys and values: keys with exact clones and a total
/// order, values with exact clones.
pub open spec fn map_laws<K: Clone + Ord + Eq, V: Clone>() -> bool {
    lawful::<K>() && exact_clone::<V>()
}

/// Entries inherit the laws of their keys and values, and can be searched by key.
pub proof fn lemma_entry_laws<K: Clone + Ord + Eq, V: Clone>()
    requires
        map_laws::<K, V>(),
    ensures
        lawful::<Entry<K, V>>(),
        searchable_by::<Entry<K, V>, K>(),
{
    assert(exact_clone::<Entry<K, V>>());
    assert(total_order::<Entry<K, V>>() && searchable_by::<Entry<K, V>, K>()) by {
        reveal(total_order);
        reveal(searchable_by);
        assert forall|a: Entry<K, V>, b: Entry<K, V>| #[trigger]
            greater(a, b) <==> less(b, a) by {
            lemma_order_basics(a.key, b.key);
        }
        assert forall|a: Entry<K, V>, b: Entry<K, V>, c: Entry<K, V>| #[trigger]
            less(a, b) implies #[trigger] less(a, c) || less(
            c,
            b,
        ) by {
            lemma_less_cut(a.key, b.key, c.key);
        }
        assert forall|a: Entry<K, V>, b: Entry<K, V>, k: K| #[trigger]
            less(a, b) implies #[trigger] before_key(a, k)
            || after_key(b, k) by {
            lemma_less_cut(a.key, b.key, k);
            lemma_order_basics(b.key, k);
        }
    }
}

/// A persistent map from keys to values, ordered by key.
pub struct TreeMap<K: Clone + Ord + Eq, V: Clone> {
    tree: BinaryTree<Entry<K, V>>,
}

impl<K: Clone + Ord + Eq, V: Clone> View for TreeMap<K, V> {
    type V = Seq<Entry<K, V>>;

    /// The entries in the order of their keys.
    closed spec fn view(&self) -> Seq<Entry<K, V>> {
        self.tree@
    }
}

impl<K: Clone + Ord + Eq, V: Clone> TreeMap<K, V> {
    #[verifier::type_invariant]
    spec fn well_formed(self) -> bool {
        &&& self.tree.two_colored()
        &&& lawful::<Entry<K, V>>() ==> self.tree.is_bst() && self.tree.is_red_black()
    }

    /// The map without entries.
    pub fn new() -> (res: Self)
        ensures
            res@ == Seq::<Entry<K, V>>::empty(),
    {
        TreeMap { tree: BinaryTree::empty() }
    }

    /// The entry with the given key, or `None` where the map holds none.
    pub fn get(&self, key: K) -> (res: Option<Entry<K, V>>)
        ensures
            map_laws::<K, V>() ==> res == lookup(self@, key),
    {
        proof {
            use_type_invariant(self);
            if map_laws::<K, V>() {
                lemma_entry_laws::<K, V>();
            }
        }
        self.tree.get(key)
    }

    /// The map with an entry for `key`. Where the map already holds an entry with
    /// that key, that entry stays, with its value, and the map is as before.
    pub fn put(self, key: K, val: V) -> (res: Self)
        ensures
            map_laws::<K, V>() ==> res@ == ordered_insert(self@, Entry { key, val }),
            map_laws::<K, V>() ==> ascending(res@),
    {
        proof {
            use_type_invariant(&self);
            if map_laws::<K, V>() {
                lemma_entry_laws::<K, V>();
            }
        }
        let tree = self.tree.insert(Entry::new(key, val));
        proof {
            if map_laws::<K, V>() {
                lemma_bst_ascending(tree);
            }
        }
        TreeMap { tree }
    }

    /// A cursor over the entries in the order of their keys.
    pub fn into_iter(self) -> (res: Iter<Entry<K, V>>)
        ensures
            res@ == self@,
            map_laws::<K, V>() ==> ascending(res@),
    {
        proof {
            use_type_invariant(&self);
            if map_laws::<K, V>() {
                lemma_entry_laws::<K, V>();
                lemma_bst_ascending(self.tree);
            }
        }
        self.tree.into_iter()
    }

    /// The map that holds the entries of `items`, put one after the other into the
    /// empty map: of two entries with the same key the earlier one stays.
    pub fn from_iter(items: Vec<Entry<K, V>>) -> (res: Self)
        ensures
            map_laws::<K, V>() ==> res@ == inserted_all(items@),
            map_laws::<K, V>() ==> ascending(res@),
    {
        let ghost all = items@;
        let mut map: TreeMap<K, V> = TreeMap::new();
        for entry in it: items
            invariant
                it.seq() == all,
                map_laws::<K, V>() ==> map@ == inserted_all(all.take(it.index() as int)),
                map_laws::<K, V>() ==> ascending(map@),
        {
            proof {
                let n = it.index() as int;
                assert(all.take(n + 1).drop_last() =~= all.take(n));
            }
            let Entry { key, val } = entry;
            map = map.put(key, val);
        }
        proof {
            assert(all.take(all.len() as int) =~= all);
        }
        map
    }
}

} // verus!
