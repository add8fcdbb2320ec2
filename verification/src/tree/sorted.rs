//! Ascending sequences: what a search tree holds, read from left to right.
//!
//! The operations of the tree are stated over these functions. Each of them walks
//! the sequence from the front and uses nothing but the comparison of the elements,
//! so they make sense for every sequence; on an ascending one they insert, find
//! and remove at the one position where the element belongs.

use crate::laws::{
    equivalent,
    lemma_less_cut,
    lemma_less_transitive,
    lemma_order_basics,
    less,
    total_order,
};
use std::cmp::Ordering;
use vstd::prelude::*;
use vstd::std_specs::cmp::PartialOrdSpec;

verus! {

/// Each element ranks strictly before every later one.
pub open spec fn ascending<E: PartialOrd>(s: Seq<E>) -> bool {
    forall|i: int, j: int| 0 <= i < j < s.len() ==> less(#[trigger] s[i], #[trigger] s[j])
}

/// Some element of `s` is equivalent to `v`.
pub open spec fn has_equivalent<E: PartialOrd>(s: Seq<E>, v: E) -> bool {
    exists|i: int| 0 <= i < s.len() && equivalent(#[trigger] s[i], v)
}

/// `v` put in front of the first element that it ranks before, after all that rank
/// before it; `s` as it is where it holds an element equivalent to `v` at that
/// place.
pub open spec fn ordered_insert<E: PartialOrd>(s: Seq<E>, v: E) -> Seq<E>
    decreases s.len(),
{
    if s.len() == 0 {
        seq![v]
    } else if less(s[0], v) {
        seq![s[0]] + ordered_insert(s.skip(1), v)
    } else if less(v, s[0]) {
        seq![v] + s
    } else {
        s
    }
}

/// `s` without its first element that is equivalent to `v`.
pub open spec fn ordered_remove<E: PartialOrd>(s: Seq<E>, v: E) -> Seq<E>
    decreases s.len(),
{
    if s.len() == 0 {
        s
    } else if equivalent(s[0], v) {
        s.skip(1)
    } else {
        seq![s[0]] + ordered_remove(s.skip(1), v)
    }
}

/// The elements of `items` inserted one after the other, starting from nothing.
pub open spec fn inserted_all<E: PartialOrd>(items: Seq<E>) -> Seq<E>
    decreases items.len(),
{
    if items.len() == 0 {
        Seq::empty()
    } else {
        ordered_insert(inserted_all(items.drop_last()), items.last())
    }
}

/// `e` ranks strictly before the key `k`.
pub open spec fn before_key<E: PartialOrd<K>, K>(e: E, k: K) -> bool {
    e.partial_cmp_spec(&k) == Some(Ordering::Less)
}

/// `e` ranks strictly after the key `k`.
pub open spec fn after_key<E: PartialOrd<K>, K>(e: E, k: K) -> bool {
    e.partial_cmp_spec(&k) == Some(Ordering::Greater)
}

/// `e` is what a search for the key `k` looks for: it ranks neither before nor
/// after `k`.
pub open spec fn matches_key<E: PartialOrd<K>, K>(e: E, k: K) -> bool {
    !before_key(e, k) && !after_key(e, k)
}

/// The operators that compare an element with a key compute `partial_cmp_spec`.
pub open spec fn key_comparison_obeys<E: PartialOrd<K>, K>() -> bool {
    E::obeys_partial_cmp_spec()
}

/// Keys of type `K` can steer a search among elements of type `E`: the operators
/// compute `partial_cmp_spec`, and of two elements the first of which ranks before
/// the second, the first ranks before the key or the second after it.
#[verifier::opaque]
pub open spec fn searchable_by<E: PartialOrd + PartialOrd<K>, K>() -> bool {
    &&& key_comparison_obeys::<E, K>()
    &&& forall|a: E, b: E, k: K| #[trigger]
        less(a, b) ==> #[trigger] before_key(a, k) || after_key(b, k)
}

/// The first element of `s` that matches the key `k`.
pub open spec fn lookup<E: PartialOrd<K>, K>(s: Seq<E>, k: K) -> Option<E>
    decreases s.len(),
{
    if s.len() == 0 {
        None
    } else if matches_key(s[0], k) {
        Some(s[0])
    } else {
        lookup(s.skip(1), k)
    }
}

/// An element type with a total order can be searched by its own values.
pub proof fn lemma_searchable_by_itself<E: PartialOrd>()
    requires
        total_order::<E>(),
    ensures
        searchable_by::<E, E>(),
{
    reveal(searchable_by);
    reveal(total_order);
    assert forall|a: E, b: E, k: E| #[trigger] less(a, b) implies #[trigger] before_key(a, k)
        || after_key(b, k) by {
        lemma_less_cut(a, b, k);
        lemma_order_basics(b, k);
    }
}

/// Among elements with a total order, to match a key of their own type is to be
/// equivalent to it.
pub proof fn lemma_matches_own_key<E: PartialOrd>(e: E, k: E)
    requires
        total_order::<E>(),
    ensures
        matches_key(e, k) <==> equivalent(e, k),
{
    lemma_order_basics(e, k);
}

/// One step of a search: of two elements in order, the first ranks before the key
/// or the second after it.
pub proof fn lemma_search_step<E: PartialOrd + PartialOrd<K>, K>(a: E, b: E, k: K)
    requires
        searchable_by::<E, K>(),
        less(a, b),
    ensures
        before_key(a, k) || after_key(b, k),
{
    reveal(searchable_by);
    assert(less(a, b) ==> before_key(a, k) || after_key(b, k));
}

/// A property of `v` and of every element of `s` holds of every element of
/// `ordered_insert(s, v)`.
pub proof fn lemma_ordered_insert_keeps<E: PartialOrd>(s: Seq<E>, v: E, p: spec_fn(E) -> bool)
    requires
        p(v),
        forall|i: int| 0 <= i < s.len() ==> p(#[trigger] s[i]),
    ensures
        forall|i: int| 0 <= i < ordered_insert(s, v).len() ==> p(#[trigger] ordered_insert(s, v)[i]),
    decreases s.len(),
{
    let res = ordered_insert(s, v);
    if s.len() > 0 && less(s[0], v) {
        let rest = s.skip(1);
        assert forall|i: int| 0 <= i < rest.len() implies p(#[trigger] rest[i]) by {
            assert(rest[i] == s[i + 1]);
        }
        lemma_ordered_insert_keeps(rest, v, p);
        assert forall|i: int| 0 <= i < res.len() implies p(#[trigger] res[i]) by {
            if i > 0 {
                assert(res[i] == ordered_insert(rest, v)[i - 1]);
            }
        }
    } else if s.len() > 0 && less(v, s[0]) {
        assert forall|i: int| 0 <= i < res.len() implies p(#[trigger] res[i]) by {
            if i > 0 {
                assert(res[i] == s[i - 1]);
            }
        }
    }
}

/// A property of every element of `s` holds of every element of
/// `ordered_remove(s, v)`.
pub proof fn lemma_ordered_remove_keeps<E: PartialOrd>(s: Seq<E>, v: E, p: spec_fn(E) -> bool)
    requires
        forall|i: int| 0 <= i < s.len() ==> p(#[trigger] s[i]),
    ensures
        forall|i: int| 0 <= i < ordered_remove(s, v).len() ==> p(#[trigger] ordered_remove(s, v)[i]),
    decreases s.len(),
{
    let res = ordered_remove(s, v);
    if s.len() > 0 {
        let rest = s.skip(1);
        assert forall|i: int| 0 <= i < rest.len() implies p(#[trigger] rest[i]) by {
            assert(rest[i] == s[i + 1]);
        }
        if !equivalent(s[0], v) {
            lemma_ordered_remove_keeps(rest, v, p);
            assert forall|i: int| 0 <= i < res.len() implies p(#[trigger] res[i]) by {
                if i > 0 {
                    assert(res[i] == ordered_remove(rest, v)[i - 1]);
                }
            }
        }
    }
}

/// Insertion passes over a front part whose elements all rank before `v`.
pub proof fn lemma_ordered_insert_after<E: PartialOrd>(a: Seq<E>, b: Seq<E>, v: E)
    requires
        forall|i: int| 0 <= i < a.len() ==> less(#[trigger] a[i], v),
    ensures
        ordered_insert(a + b, v) == a + ordered_insert(b, v),
    decreases a.len(),
{
    if a.len() == 0 {
        assert(a + b =~= b);
        assert(a + ordered_insert(b, v) =~= ordered_insert(b, v));
    } else {
        let rest = a.skip(1);
        assert((a + b)[0] == a[0]);
        assert((a + b).skip(1) =~= rest + b);
        assert forall|i: int| 0 <= i < rest.len() implies less(#[trigger] rest[i], v) by {
            assert(rest[i] == a[i + 1]);
        }
        lemma_ordered_insert_after(rest, b, v);
        assert(seq![a[0]] + (rest + ordered_insert(b, v)) =~= a + ordered_insert(b, v));
    }
}

/// Insertion does not reach a back part that begins with an element that `v`
/// ranks before.
pub proof fn lemma_ordered_insert_before<E: PartialOrd>(a: Seq<E>, b: Seq<E>, v: E)
    requires
        total_order::<E>(),
        b.len() > 0,
        less(v, b[0]),
    ensures
        ordered_insert(a + b, v) == ordered_insert(a, v) + b,
    decreases a.len(),
{
    if a.len() == 0 {
        assert(a + b =~= b);
        assert(ordered_insert(a, v) + b =~= seq![v] + b);
        lemma_order_basics(v, b[0]);
    } else {
        let rest = a.skip(1);
        assert((a + b)[0] == a[0]);
        assert((a + b).skip(1) =~= rest + b);
        if less(a[0], v) {
            lemma_ordered_insert_before(rest, b, v);
            assert(seq![a[0]] + (ordered_insert(rest, v) + b) =~= ordered_insert(a, v) + b);
        } else if less(v, a[0]) {
            assert(seq![v] + (a + b) =~= (seq![v] + a) + b);
        }
    }
}

/// A search looks through a front part first, and through the rest where the
/// front part holds no match.
pub proof fn lemma_lookup_concat<E: PartialOrd<K>, K>(a: Seq<E>, b: Seq<E>, k: K)
    ensures
        lookup(a + b, k) == if lookup(a, k) is Some {
            lookup(a, k)
        } else {
            lookup(b, k)
        },
    decreases a.len(),
{
    if a.len() == 0 {
        assert(a + b =~= b);
    } else {
        assert((a + b)[0] == a[0]);
        assert((a + b).skip(1) =~= a.skip(1) + b);
        lemma_lookup_concat(a.skip(1), b, k);
    }
}

/// A search finds an element that matches the key, and finds nothing only where
/// no element matches.
pub proof fn lemma_lookup_finds<E: PartialOrd<K>, K>(s: Seq<E>, k: K)
    ensures
        lookup(s, k) matches Some(e) ==> matches_key(e, k) && s.contains(e),
        lookup(s, k) is None <==> forall|i: int| 0 <= i < s.len() ==> !matches_key(#[trigger] s[i], k),
    decreases s.len(),
{
    if s.len() > 0 {
        let rest = s.skip(1);
        lemma_lookup_finds(rest, k);
        if !matches_key(s[0], k) {
            if lookup(s, k) is Some {
                let e = lookup(s, k)->0;
                let j = choose|j: int| 0 <= j < rest.len() && rest[j] == e;
                assert(s[j + 1] == e);
            }
            if lookup(s, k) is None {
                assert forall|i: int| 0 <= i < s.len() implies !matches_key(#[trigger] s[i], k) by {
                    if i > 0 {
                        assert(rest[i - 1] == s[i]);
                    }
                }
            }
            if forall|i: int| 0 <= i < s.len() ==> !matches_key(#[trigger] s[i], k) {
                assert forall|i: int| 0 <= i < rest.len() implies !matches_key(
                    #[trigger] rest[i],
                    k,
                ) by {
                    assert(rest[i] == s[i + 1]);
                }
            }
        } else {
            assert(s[0] == s[0]);
        }
    }
}

/// Removal passes over a front part that holds nothing equivalent to `v`.
pub proof fn lemma_ordered_remove_after<E: PartialOrd>(a: Seq<E>, b: Seq<E>, v: E)
    requires
        forall|i: int| 0 <= i < a.len() ==> !equivalent(#[trigger] a[i], v),
    ensures
        ordered_remove(a + b, v) == a + ordered_remove(b, v),
    decreases a.len(),
{
    if a.len() == 0 {
        assert(a + b =~= b);
        assert(a + ordered_remove(b, v) =~= ordered_remove(b, v));
    } else {
        let rest = a.skip(1);
        assert((a + b)[0] == a[0]);
        assert((a + b).skip(1) =~= rest + b);
        assert forall|i: int| 0 <= i < rest.len() implies !equivalent(#[trigger] rest[i], v) by {
            assert(rest[i] == a[i + 1]);
        }
        lemma_ordered_remove_after(rest, b, v);
        assert(seq![a[0]] + (rest + ordered_remove(b, v)) =~= a + ordered_remove(b, v));
    }
}

/// Removal leaves alone a back part that holds nothing equivalent to `v`.
pub proof fn lemma_ordered_remove_before<E: PartialOrd>(a: Seq<E>, b: Seq<E>, v: E)
    requires
        forall|i: int| 0 <= i < b.len() ==> !equivalent(#[trigger] b[i], v),
    ensures
        ordered_remove(a + b, v) == ordered_remove(a, v) + b,
    decreases a.len(),
{
    if a.len() == 0 {
        lemma_ordered_remove_after(b, a, v);
        assert(a + b =~= b);
        assert(b + a =~= b);
        assert(ordered_remove(a, v) + b =~= b);
    } else {
        let rest = a.skip(1);
        assert((a + b)[0] == a[0]);
        assert((a + b).skip(1) =~= rest + b);
        if equivalent(a[0], v) {
        } else {
            lemma_ordered_remove_before(rest, b, v);
            assert(seq![a[0]] + (ordered_remove(rest, v) + b) =~= ordered_remove(a, v) + b);
        }
    }
}

/// Insertion into an ascending sequence gives an ascending sequence.
pub proof fn lemma_ordered_insert_ascending<E: PartialOrd>(s: Seq<E>, v: E)
    requires
        total_order::<E>(),
        ascending(s),
    ensures
        ascending(ordered_insert(s, v)),
    decreases s.len(),
{
    let res = ordered_insert(s, v);
    if s.len() == 0 {
    } else if less(s[0], v) {
        let rest = s.skip(1);
        assert forall|i: int, j: int| 0 <= i < j < rest.len() implies less(
            #[trigger] rest[i],
            #[trigger] rest[j],
        ) by {
            assert(rest[i] == s[i + 1] && rest[j] == s[j + 1]);
        }
        lemma_ordered_insert_ascending(rest, v);
        assert forall|i: int| 0 <= i < rest.len() implies less(s[0], #[trigger] rest[i]) by {
            assert(rest[i] == s[i + 1]);
        }
        lemma_ordered_insert_keeps(rest, v, |e: E| less(s[0], e));
        let tail = ordered_insert(rest, v);
        assert forall|i: int, j: int| 0 <= i < j < res.len() implies less(
            #[trigger] res[i],
            #[trigger] res[j],
        ) by {
            assert(res[j] == tail[j - 1]);
            if i > 0 {
                assert(res[i] == tail[i - 1]);
            }
        }
    } else if less(v, s[0]) {
        assert forall|i: int, j: int| 0 <= i < j < res.len() implies less(
            #[trigger] res[i],
            #[trigger] res[j],
        ) by {
            assert(res[j] == s[j - 1]);
            if i > 0 {
                assert(res[i] == s[i - 1]);
            } else if j > 1 {
                lemma_less_transitive(v, s[0], s[j - 1]);
            }
        }
    }
}

/// Whatever is inserted one after the other, the result ascends.
pub proof fn lemma_inserted_all_ascending<E: PartialOrd>(items: Seq<E>)
    requires
        total_order::<E>(),
    ensures
        ascending(inserted_all(items)),
    decreases items.len(),
{
    if items.len() > 0 {
        lemma_inserted_all_ascending(items.drop_last());
        lemma_ordered_insert_ascending(inserted_all(items.drop_last()), items.last());
    }
}

/// After the insertion of `v`, a search for `v` finds an element equivalent to
/// it: `v` itself, unless the sequence held an equivalent element before.
pub proof fn lemma_lookup_inserted<E: PartialOrd>(s: Seq<E>, v: E)
    requires
        total_order::<E>(),
    ensures
        has_equivalent(ordered_insert(s, v), v),
        lookup(ordered_insert(s, v), v) is Some,
        equivalent(lookup(ordered_insert(s, v), v)->0, v),
        !has_equivalent(s, v) ==> lookup(ordered_insert(s, v), v) == Some(v),
    decreases s.len(),
{
    let res = ordered_insert(s, v);
    lemma_order_basics(v, v);
    if s.len() == 0 {
        assert(equivalent(res[0], v));
    } else {
        lemma_order_basics(s[0], v);
        if less(s[0], v) {
            let rest = s.skip(1);
            let tail = ordered_insert(rest, v);
            lemma_lookup_inserted(rest, v);
            let j = choose|j: int| 0 <= j < tail.len() && equivalent(#[trigger] tail[j], v);
            assert(res[j + 1] == tail[j]);
            assert(res.skip(1) =~= tail);
            if has_equivalent(s, v) {
                let k = choose|k: int| 0 <= k < s.len() && equivalent(#[trigger] s[k], v);
                assert(rest[k - 1] == s[k]);
            }
        } else if less(v, s[0]) {
            assert(equivalent(res[0], v));
        } else {
            assert(equivalent(s[0], v));
            assert(s[0] == s[0]);
        }
    }
}

/// A search for `v` finds nothing where nothing is equivalent to `v`.
pub proof fn lemma_lookup_absent<E: PartialOrd>(s: Seq<E>, v: E)
    requires
        total_order::<E>(),
        !has_equivalent(s, v),
    ensures
        lookup(s, v) is None,
{
    lemma_lookup_finds(s, v);
    assert forall|i: int| 0 <= i < s.len() implies !matches_key(#[trigger] s[i], v) by {
        lemma_matches_own_key(s[i], v);
    }
}

/// Insertion leaves an ascending sequence as it is where it holds an element
/// equivalent to `v`.
pub proof fn lemma_ordered_insert_present<E: PartialOrd>(s: Seq<E>, v: E)
    requires
        total_order::<E>(),
        ascending(s),
        has_equivalent(s, v),
    ensures
        ordered_insert(s, v) == s,
    decreases s.len(),
{
    let k = choose|k: int| 0 <= k < s.len() && equivalent(#[trigger] s[k], v);
    lemma_order_basics(s[0], v);
    if less(s[0], v) {
        let rest = s.skip(1);
        assert forall|i: int, j: int| 0 <= i < j < rest.len() implies less(
            #[trigger] rest[i],
            #[trigger] rest[j],
        ) by {
            assert(rest[i] == s[i + 1] && rest[j] == s[j + 1]);
        }
        assert(rest[k - 1] == s[k]);
        lemma_ordered_insert_present(rest, v);
        assert(seq![s[0]] + rest =~= s);
    } else if less(v, s[0]) {
        if k > 0 {
            lemma_less_transitive(v, s[0], s[k]);
        }
    }
}

/// To insert the same element a second time changes nothing.
pub proof fn lemma_ordered_insert_twice<E: PartialOrd>(s: Seq<E>, v: E)
    requires
        total_order::<E>(),
    ensures
        ordered_insert(ordered_insert(s, v), v) == ordered_insert(s, v),
    decreases s.len(),
{
    let res = ordered_insert(s, v);
    lemma_order_basics(v, v);
    if s.len() > 0 {
        lemma_order_basics(s[0], v);
        if less(s[0], v) {
            lemma_ordered_insert_twice(s.skip(1), v);
            assert(res.skip(1) =~= ordered_insert(s.skip(1), v));
        }
    }
}

/// An ascending sequence, inserted element by element from the front, comes out
/// as it went in.
pub proof fn lemma_inserted_all_of_ascending<E: PartialOrd>(s: Seq<E>)
    requires
        total_order::<E>(),
        ascending(s),
    ensures
        inserted_all(s) == s,
    decreases s.len(),
{
    if s.len() > 0 {
        let front = s.drop_last();
        let v = s.last();
        lemma_inserted_all_of_ascending(front);
        assert forall|i: int| 0 <= i < front.len() implies less(#[trigger] front[i], v) by {
            assert(front[i] == s[i]);
        }
        lemma_ordered_insert_after(front, Seq::<E>::empty(), v);
        assert(front + Seq::<E>::empty() =~= front);
        assert(front + seq![v] =~= s);
    }
}

} // verus!
