//! What the collections assume of their element type, and the one place where a
//! reference-counted handle is duplicated.
//!
//! The containers never look inside an element: they duplicate it with `Clone` and
//! rank it with `PartialOrd`. Their contracts are stated for element types whose
//! `clone` returns an equal value ([`exact_clone`]) and whose comparison ranks all
//! values consistently ([`total_order`]).

use std::cmp::Ordering;
use std::rc::Rc;
use vstd::prelude::*;
use vstd::std_specs::cmp::PartialOrdSpec;

verus! {

/// `Rc::clone`: a second handle to the same allocation. Nothing is copied, so the
/// value behind the new handle is the value behind `rc`.
#[verifier::external_body]
pub(crate) fn share<T>(rc: &Rc<T>) -> (res: Rc<T>)
    ensures
        res == *rc,
{
    Rc::clone(rc)
}

/// Every clone of a value of `E` equals that value.
pub open spec fn exact_clone<E: Clone>() -> bool {
    forall|a: E, b: E| #[trigger] cloned::<E>(a, b) ==> a == b
}

/// Duplicates an element.
pub(crate) fn duplicate<E: Clone>(e: &E) -> (res: E)
    ensures
        cloned::<E>(*e, res),
        exact_clone::<E>() ==> res == *e,
{
    let res = e.clone();
    assert(cloned::<E>(*e, res));
    res
}

/// `a` ranks strictly before `b`.
pub open spec fn less<E: PartialOrd>(a: E, b: E) -> bool {
    a.partial_cmp_spec(&b) == Some(Ordering::Less)
}

/// `a` ranks strictly after `b`, as `a > b` reports it.
pub open spec fn greater<E: PartialOrd>(a: E, b: E) -> bool {
    a.partial_cmp_spec(&b) == Some(Ordering::Greater)
}

/// Neither of `a` and `b` ranks before the other: a collection that holds one of
/// them treats the other as already present.
pub open spec fn equivalent<E: PartialOrd>(a: E, b: E) -> bool {
    !less(a, b) && !less(b, a)
}

/// The comparison of `E` is a total order up to [`equivalent`]: the operators
/// compute `partial_cmp_spec`, `a > b` is `b < a`, and of a strict pair every
/// third value ranks after the first or before the second.
#[verifier::opaque]
pub open spec fn total_order<E: PartialOrd>() -> bool {
    &&& E::obeys_partial_cmp_spec()
    &&& forall|a: E, b: E| #[trigger] greater(a, b) <==> less(b, a)
    &&& forall|a: E, b: E, c: E| #[trigger] less(a, b) ==> #[trigger] less(a, c) || less(c, b)
}

/// The element type behaves: clones are exact and the comparison is a total order.
pub open spec fn lawful<E: Clone + PartialOrd>() -> bool {
    exact_clone::<E>() && total_order::<E>()
}

/// Under a total order `a > b` is `b < a`, nothing ranks before itself or on both
/// sides of another value, and to be equivalent is reflexive and symmetric.
pub proof fn lemma_order_basics<E: PartialOrd>(a: E, b: E)
    requires
        total_order::<E>(),
    ensures
        E::obeys_partial_cmp_spec(),
        greater(a, b) <==> less(b, a),
        !(less(a, b) && less(b, a)),
        !less(a, a),
        equivalent(a, a),
        equivalent(a, b) <==> equivalent(b, a),
{
    reveal(total_order);
    assert(greater(a, b) <==> less(b, a));
    assert(greater(b, a) <==> less(a, b));
    assert(greater(a, a) <==> less(a, a));
}

/// What ranks before a value ranks before everything that the value ranks before.
pub proof fn lemma_less_transitive<E: PartialOrd>(a: E, b: E, c: E)
    requires
        total_order::<E>(),
        less(a, b),
        less(b, c),
    ensures
        less(a, c),
{
    reveal(total_order);
    assert(less(a, b) ==> less(a, c) || less(c, b));
    lemma_order_basics(b, c);
}

/// Of a strict pair, every third value ranks after the first or before the second.
pub proof fn lemma_less_cut<E: PartialOrd>(a: E, b: E, c: E)
    requires
        total_order::<E>(),
        less(a, b),
    ensures
        less(a, c) || less(c, b),
{
    reveal(total_order);
    assert(less(a, b) ==> less(a, c) || less(c, b));
}

} // verus!
