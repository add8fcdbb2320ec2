//! A persistent singly-linked list: an immutable chain of cells whose tails are
//! shared between every list built on them.
//!
//! A list is read through its view, the sequence of its elements from head to
//! tail. Elements are handed out as clones; where a contract says which value
//! comes out, it says so for element types whose clones are exact.

use crate::laws::{duplicate, exact_clone, share};
use std::rc::Rc;
use vstd::prelude::*;
use vstd::std_specs::cmp::PartialEqSpec;
use vstd::std_specs::cmp::PartialEqSpecImpl;

verus! {

/// An immutable list: empty, or a head element in front of a shared tail.
#[derive(Debug)]
pub enum List<E> {
    Empty,
    Cons(E, Rc<List<E>>),
}

/// A cursor over a list that hands out its elements from head to tail.
pub struct Iter<E: Clone> {
    node: Rc<List<E>>,
}

impl<E> List<E> {
    /// The elements from head to tail.
    pub open spec fn to_seq(&self) -> Seq<E>
        decreases self,
    {
        match self {
            List::Empty => Seq::empty(),
            List::Cons(head, tail) => seq![*head] + tail.to_seq(),
        }
    }

    /// The view has one element per cell, the head first.
    pub proof fn lemma_view_of_cons(&self)
        ensures
            self is Empty <==> self@.len() == 0,
            self matches List::Cons(head, tail) ==> self@.len() == tail@.len() + 1 && self@[0]
                == head && self@.skip(1) == tail@,
    {
        match self {
            List::Empty => {},
            List::Cons(head, tail) => {
                assert(self@.skip(1) =~= tail@);
            },
        }
    }
}

impl<E> View for List<E> {
    type V = Seq<E>;

    open spec fn view(&self) -> Seq<E> {
        self.to_seq()
    }
}

impl<E: Clone> Clone for List<E> {
    /// Copies the first cell and shares the tail.
    fn clone(&self) -> (res: Self)
        ensures
            res@.len() == self@.len(),
            exact_clone::<E>() ==> res == *self,
    {
        match self {
            List::Empty => List::Empty,
            List::Cons(head, tail) => List::Cons(duplicate(head), share(tail)),
        }
    }
}

/// Two sequences have the same length, and `==` of `E` holds between the elements
/// at each position.
pub open spec fn same_elements<E: PartialEq>(a: Seq<E>, b: Seq<E>) -> bool {
    &&& a.len() == b.len()
    &&& forall|i: int| 0 <= i < a.len() ==> (#[trigger] a[i]).eq_spec(&b[i])
}

impl<E: PartialEq> PartialEq for List<E> {
    fn eq(&self, other: &Self) -> (res: bool) {
        self.equals(other)
    }
}

impl<E: PartialEq> PartialEqSpecImpl for List<E> {
    open spec fn obeys_eq_spec() -> bool {
        E::obeys_eq_spec()
    }

    open spec fn eq_spec(&self, other: &Self) -> bool {
        same_elements(self@, other@)
    }
}

impl<E: Eq> Eq for List<E> {

}

impl<E: PartialEq> List<E> {
    /// Compares two lists cell by cell.
    fn equals(&self, other: &Self) -> (res: bool)
        ensures
            E::obeys_eq_spec() ==> res == same_elements(self@, other@),
        decreases self,
    {
        proof {
            self.lemma_view_of_cons();
            other.lemma_view_of_cons();
        }
        match (self, other) {
            (List::Empty, List::Empty) => true,
            (List::Cons(a, ta), List::Cons(b, tb)) => {
                let res = a == b && ta.equals(&**tb);
                proof {
                    if same_elements(self@, other@) {
                        assert(self@[0].eq_spec(&other@[0]));
                        assert forall|i: int| 0 <= i < ta@.len() implies (#[trigger] ta@[i]).eq_spec(
                            &tb@[i],
                        ) by {
                            assert(self@[i + 1].eq_spec(&other@[i + 1]));
                        }
                    }
                    if a.eq_spec(b) && same_elements(ta@, tb@) {
                        assert forall|i: int| 0 <= i < self@.len() implies (
                        #[trigger] self@[i]).eq_spec(&other@[i]) by {
                            if i > 0 {
                                assert(ta@[i - 1].eq_spec(&tb@[i - 1]));
                            }
                        }
                    }
                }
                res
            },
            _ => false,
        }
    }
}

impl<E: Clone> List<E> {
    /// The list without elements.
    pub fn empty() -> (res: List<E>)
        ensures
            res is Empty,
            res@ == Seq::<E>::empty(),
    {
        List::Empty
    }

    /// The list that has `head` in front of `tail`.
    pub fn cons(head: E, tail: List<E>) -> (res: List<E>)
        ensures
            res == List::Cons(head, Rc::new(tail)),
            res@ == seq![head] + tail@,
    {
        List::Cons(head, Rc::new(tail))
    }

    pub fn is_empty(&self) -> (res: bool)
        ensures
            res == (self is Empty),
            res == (self@.len() == 0),
    {
        proof {
            self.lemma_view_of_cons();
        }
        match self {
            List::Empty => true,
            List::Cons(_, _) => false,
        }
    }

    /// The first element. The list must not be empty.
    pub fn head(&self) -> (res: E)
        requires
            self@.len() > 0,
        ensures
            cloned::<E>(self@[0], res),
            exact_clone::<E>() ==> res == self@[0],
    {
        proof {
            self.lemma_view_of_cons();
        }
        match self {
            List::Empty => unreached(),
            List::Cons(head, _) => duplicate(head),
        }
    }

    /// The list after the first element, shared with `self`. The list must not be
    /// empty.
    pub fn tail(&self) -> (res: Rc<List<E>>)
        requires
            self@.len() > 0,
        ensures
            self matches List::Cons(_, rest) && res == rest,
            res@ == self@.skip(1),
    {
        proof {
            self.lemma_view_of_cons();
        }
        match self {
            List::Empty => unreached(),
            List::Cons(_, tail) => share(tail),
        }
    }

    /// The number of elements.
    pub fn length(&self) -> (res: usize)
        requires
            self@.len() <= usize::MAX,
        ensures
            res == self@.len(),
        decreases self,
    {
        match self {
            List::Empty => 0,
            List::Cons(_, tail) => 1 + tail.length(),
        }
    }

    /// The elements of `self` followed by those of `lst`. The cells of `self` are
    /// copied; `lst` itself becomes the end of the new list.
    pub fn append(&self, lst: List<E>) -> (res: Self)
        ensures
            res@.len() == self@.len() + lst@.len(),
            res@.skip(self@.len() as int) == lst@,
            forall|i: int| 0 <= i < self@.len() ==> cloned::<E>(self@[i], #[trigger] res@[i]),
            exact_clone::<E>() ==> res@ == self@ + lst@,
        decreases self,
    {
        match self {
            List::Empty => {
                assert(lst@.skip(0) =~= lst@);
                assert(self@ + lst@ =~= lst@);
                lst
            },
            List::Cons(head, tail) => {
                let rest = tail.append(lst);
                let res = List::Cons(duplicate(head), Rc::new(rest));
                proof {
                    assert(res@.skip(self@.len() as int) =~= rest@.skip(tail@.len() as int));
                    assert forall|i: int| 0 <= i < self@.len() implies cloned::<E>(
                        self@[i],
                        #[trigger] res@[i],
                    ) by {
                        if i > 0 {
                            assert(res@[i] == rest@[i - 1]);
                            assert(self@[i] == tail@[i - 1]);
                        }
                    }
                    if exact_clone::<E>() {
                        assert(res@ =~= self@ + lst@);
                    }
                }
                res
            },
        }
    }

    /// The first element, or `None` for the empty list.
    pub fn safe_head(&self) -> (res: Option<E>)
        ensures
            res is Some <==> self@.len() > 0,
            res matches Some(e) ==> cloned::<E>(self@[0], e),
            exact_clone::<E>() ==> res == (if self@.len() > 0 {
                Some(self@[0])
            } else {
                None
            }),
    {
        proof {
            self.lemma_view_of_cons();
        }
        match self {
            List::Empty => None,
            List::Cons(head, _) => Some(duplicate(head)),
        }
    }

    /// The list after the first element, or `None` for the empty list.
    pub fn safe_tail(&self) -> (res: Option<Rc<List<E>>>)
        ensures
            res is Some <==> self@.len() > 0,
            res matches Some(rest) ==> self matches List::Cons(_, t) && rest == t && rest@
                == self@.skip(1),
    {
        proof {
            self.lemma_view_of_cons();
        }
        match self {
            List::Empty => None,
            List::Cons(_, tail) => Some(share(tail)),
        }
    }

    /// Folds `items` into a list by putting each in front of those before it: the
    /// last of `items` becomes the head.
    pub fn from_iter(items: Vec<E>) -> (res: List<E>)
        ensures
            res@ == items@.reverse(),
    {
        let ghost all = items@;
        let mut lst: List<E> = List::Empty;
        for x in it: items
            invariant
                it.seq() == all,
                lst@ == all.take(it.index() as int).reverse(),
        {
            proof {
                let n = it.index() as int;
                assert(all.take(n + 1).reverse() =~= seq![x] + all.take(n).reverse());
            }
            lst = List::Cons(x, Rc::new(lst));
        }
        proof {
            assert(all.take(all.len() as int) =~= all);
        }
        lst
    }

    /// A cursor at the head of this list. The cursor shares the list's cells and is
    /// not affected by what happens to `self` afterwards.
    pub fn into_iter(&self) -> (res: Iter<E>)
        ensures
            exact_clone::<E>() ==> res@ == self@,
            res@.len() == self@.len(),
    {
        Iter { node: Rc::new(self.clone()) }
    }
}

impl<E: Clone> View for Iter<E> {
    type V = Seq<E>;

    /// The elements that the cursor has not handed out yet.
    closed spec fn view(&self) -> Seq<E> {
        self.node@
    }
}

impl<E: Clone> Iter<E> {
    /// Hands out the element under the cursor and moves on, or returns `None` at
    /// the end of the list.
    pub fn next(&mut self) -> (res: Option<E>)
        ensures
            res is Some <==> old(self)@.len() > 0,
            res matches Some(e) ==> cloned::<E>(old(self)@[0], e),
            exact_clone::<E>() && res is Some ==> res == Some(old(self)@[0]),
            final(self)@ == (if old(self)@.len() > 0 {
                old(self)@.skip(1)
            } else {
                old(self)@
            }),
    {
        proof {
            self.node.lemma_view_of_cons();
        }
        let (hd, tl) = match &*self.node {
            List::Empty => {
                return None;
            },
            List::Cons(head, tail) => (duplicate(head), share(tail)),
        };
        self.node = tl;
        Some(hd)
    }
}

} // verus!
