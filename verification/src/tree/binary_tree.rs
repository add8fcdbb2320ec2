//! A persistent red-black tree: an immutable binary search tree whose operations
//! return a new root and share every subtree that they do not touch.
//!
//! A tree is read through its view, the sequence of its elements in order from
//! left to right. A search tree ([`BinaryTree::is_bst`]) has an ascending view;
//! a red-black tree ([`BinaryTree::is_red_black`]) also keeps its height
//! logarithmic. Insertion keeps both; removal keeps the first.

use crate::laws::{duplicate, exact_clone, lawful, lemma_order_basics, less, share};
use crate::list::List;
use crate::tree::insertion::{lemma_inserted, lemma_inserted_colors, lemma_inserted_present};
use crate::tree::removal::{lemma_leftmost, lemma_removed, lemma_without_root};
use crate::tree::search::lemma_lookup_node;
use crate::tree::sorted::{
    has_equivalent,
    inserted_all,
    lookup,
    ordered_insert,
    ordered_remove,
    searchable_by,
};
use std::rc::Rc;
use vstd::prelude::*;
use vstd::std_specs::cmp::PartialEqSpec;
use vstd::std_specs::cmp::PartialEqSpecImpl;

verus! {

/// The colour of a node. Only `Black` and `Red` occur in the trees that insertion
/// builds; the other two are reserved for a removal that rebalances.
#[derive(Clone, Copy, PartialEq, Eq, Debug, Structural)]
pub enum Color {
    NegativeBlack,
    DoubleBlack,
    Black,
    Red,
}

/// An immutable binary tree: empty, or a coloured node with an element and two
/// shared subtrees.
#[derive(Debug)]
pub enum BinaryTree<E> {
    Empty,
    Node(Color, E, Rc<BinaryTree<E>>, Rc<BinaryTree<E>>),
}

/// A cursor over a tree that hands out its elements in order from left to right.
///
/// It keeps, on a list used as a stack, the nodes whose own element and right
/// subtree are still to come, the next one on top.
pub struct Iter<E: Clone> {
    stack: Rc<List<Rc<BinaryTree<E>>>>,
}

/// Every entry of the stack is a node.
pub open spec fn all_nodes<E>(stack: List<Rc<BinaryTree<E>>>) -> bool
    decreases stack,
{
    match stack {
        List::Empty => true,
        List::Cons(node, rest) => !(*node is Empty) && all_nodes(*rest),
    }
}

/// What a stack of nodes still has to hand out: for each entry from the top, its
/// element and then its right subtree.
pub open spec fn pending<E>(stack: List<Rc<BinaryTree<E>>>) -> Seq<E>
    decreases stack,
{
    match stack {
        List::Empty => Seq::empty(),
        List::Cons(node, rest) => seq![node.spec_value()] + node.spec_right().to_seq() + pending(
            *rest,
        ),
    }
}

impl<E> BinaryTree<E> {
    /// The elements from left to right: the left subtree's, the node's own, the
    /// right subtree's.
    pub open spec fn to_seq(&self) -> Seq<E>
        decreases self,
    {
        match self {
            BinaryTree::Empty => Seq::empty(),
            BinaryTree::Node(_, value, left, right) => left.to_seq() + seq![*value]
                + right.to_seq(),
        }
    }

    /// The number of nodes on the longest path from the root to an empty position.
    pub open spec fn spec_height(&self) -> nat
        decreases self,
    {
        match self {
            BinaryTree::Empty => 0,
            BinaryTree::Node(_, _, left, right) => 1 + if left.spec_height()
                >= right.spec_height() {
                left.spec_height()
            } else {
                right.spec_height()
            },
        }
    }

    pub open spec fn spec_color(&self) -> Color {
        match self {
            BinaryTree::Empty => arbitrary(),
            BinaryTree::Node(color, _, _, _) => *color,
        }
    }

    pub open spec fn spec_value(&self) -> E {
        match self {
            BinaryTree::Empty => arbitrary(),
            BinaryTree::Node(_, value, _, _) => *value,
        }
    }

    pub open spec fn spec_left(&self) -> BinaryTree<E> {
        match self {
            BinaryTree::Empty => arbitrary(),
            BinaryTree::Node(_, _, left, _) => **left,
        }
    }

    pub open spec fn spec_right(&self) -> BinaryTree<E> {
        match self {
            BinaryTree::Empty => arbitrary(),
            BinaryTree::Node(_, _, _, right) => **right,
        }
    }

    /// The same node in another colour.
    pub open spec fn painted(&self, c: Color) -> BinaryTree<E> {
        match self {
            BinaryTree::Empty => BinaryTree::Empty,
            BinaryTree::Node(_, value, left, right) => BinaryTree::Node(c, *value, *left, *right),
        }
    }

    /// The node that is reached from the root by going left as long as there is a
    /// left subtree.
    pub open spec fn leftmost(&self) -> BinaryTree<E>
        decreases self,
    {
        match self {
            BinaryTree::Empty => BinaryTree::Empty,
            BinaryTree::Node(_, _, left, _) => if **left is Empty {
                *self
            } else {
                left.leftmost()
            },
        }
    }

    /// A node that is red.
    pub open spec fn is_red(&self) -> bool {
        self matches BinaryTree::Node(Color::Red, _, _, _)
    }

    /// A red node whose left child is red.
    pub open spec fn spec_doubled_left(&self) -> bool {
        self.is_red() && self.spec_left().is_red()
    }

    /// A red node whose right child is red.
    pub open spec fn spec_doubled_right(&self) -> bool {
        self.is_red() && self.spec_right().is_red()
    }

    /// Every node is black or red.
    pub open spec fn two_colored(&self) -> bool
        decreases self,
    {
        match self {
            BinaryTree::Empty => true,
            BinaryTree::Node(color, _, left, right) => (color is Black || color is Red)
                && left.two_colored() && right.two_colored(),
        }
    }

    /// The number of black nodes on the leftmost path down to an empty position.
    pub open spec fn black_height(&self) -> nat
        decreases self,
    {
        match self {
            BinaryTree::Empty => 0,
            BinaryTree::Node(color, _, left, _) => left.black_height() + if color is Black {
                1nat
            } else {
                0nat
            },
        }
    }

    /// Every path from a node down to an empty position passes the same number of
    /// black nodes.
    pub open spec fn black_balanced(&self) -> bool
        decreases self,
    {
        match self {
            BinaryTree::Empty => true,
            BinaryTree::Node(_, _, left, right) => left.black_balanced() && right.black_balanced()
                && left.black_height() == right.black_height(),
        }
    }

    /// No red node has a red child.
    pub open spec fn no_red_red(&self) -> bool
        decreases self,
    {
        match self {
            BinaryTree::Empty => true,
            BinaryTree::Node(color, _, left, right) => (color is Red ==> !left.is_red()
                && !right.is_red()) && left.no_red_red() && right.no_red_red(),
        }
    }

    /// The colour invariant: only black and red nodes, a root that is not red, no
    /// red node with a red child, and the same number of black nodes on every path
    /// from the root to an empty position.
    pub open spec fn is_red_black(&self) -> bool {
        self.two_colored() && !self.is_red() && self.no_red_red() && self.black_balanced()
    }
}

impl<E: PartialOrd> BinaryTree<E> {
    /// Every element ranks before `bound`.
    pub open spec fn all_less(&self, bound: E) -> bool
        decreases self,
    {
        match self {
            BinaryTree::Empty => true,
            BinaryTree::Node(_, value, left, right) => less(*value, bound) && left.all_less(bound)
                && right.all_less(bound),
        }
    }

    /// Every element ranks after `bound`.
    pub open spec fn all_greater(&self, bound: E) -> bool
        decreases self,
    {
        match self {
            BinaryTree::Empty => true,
            BinaryTree::Node(_, value, left, right) => less(bound, *value) && left.all_greater(
                bound,
            ) && right.all_greater(bound),
        }
    }

    /// The search order: at every node, the elements of the left subtree rank
    /// before the node's element and those of the right subtree after it.
    pub open spec fn is_bst(&self) -> bool
        decreases self,
    {
        match self {
            BinaryTree::Empty => true,
            BinaryTree::Node(_, value, left, right) => left.all_less(*value) && right.all_greater(
                *value,
            ) && left.is_bst() && right.is_bst(),
        }
    }
}

impl<E> BinaryTree<E> {
    /// The node that [`BinaryTree::node`] builds.
    pub open spec fn spec_node(c: Color, val: E, left: Self, right: Self) -> Self {
        BinaryTree::Node(c, val, Rc::new(left), Rc::new(right))
    }

    /// A node with element `val` over `left` and `right`, after the one rotation
    /// that insertion may need there: under a black node, a red child with a red
    /// child of its own is re-rooted as a red node over two black ones. Any other
    /// node is built as it is.
    pub open spec fn balanced(c: Color, val: E, left: Self, right: Self) -> Self {
        if !(c is Black) {
            Self::spec_node(c, val, left, right)
        } else if left.spec_doubled_left() {
            Self::spec_node(
                Color::Red,
                left.spec_value(),
                left.spec_left().painted(Color::Black),
                Self::spec_node(Color::Black, val, left.spec_right(), right),
            )
        } else if left.spec_doubled_right() {
            let mid = left.spec_right();
            Self::spec_node(
                Color::Red,
                mid.spec_value(),
                Self::spec_node(Color::Black, left.spec_value(), left.spec_left(), mid.spec_left()),
                Self::spec_node(Color::Black, val, mid.spec_right(), right),
            )
        } else if right.spec_doubled_left() {
            let mid = right.spec_left();
            Self::spec_node(
                Color::Red,
                mid.spec_value(),
                Self::spec_node(Color::Black, val, left, mid.spec_left()),
                Self::spec_node(
                    Color::Black,
                    right.spec_value(),
                    mid.spec_right(),
                    right.spec_right(),
                ),
            )
        } else if right.spec_doubled_right() {
            Self::spec_node(
                Color::Red,
                right.spec_value(),
                Self::spec_node(Color::Black, val, left, right.spec_left()),
                right.spec_right().painted(Color::Black),
            )
        } else {
            Self::spec_node(c, val, left, right)
        }
    }
}

impl<E: PartialOrd> BinaryTree<E> {
    /// The tree after the descent of an insertion: `val` as a red leaf at its
    /// place, every node on the way down rebuilt by [`BinaryTree::balanced`], and
    /// the tree as it is where it holds an element equivalent to `val`.
    pub open spec fn grown(&self, val: E) -> Self
        decreases self,
    {
        match self {
            BinaryTree::Empty => Self::spec_node(
                Color::Red,
                val,
                BinaryTree::Empty,
                BinaryTree::Empty,
            ),
            BinaryTree::Node(color, value, left, right) => if less(*value, val) {
                Self::balanced(*color, *value, **left, right.grown(val))
            } else if less(val, *value) {
                Self::balanced(*color, *value, left.grown(val), **right)
            } else {
                *self
            },
        }
    }

    /// The tree without its root: the other subtree where one of the two is empty,
    /// and else a node over the left subtree and what is left of the right one,
    /// with the colour and the element of the leftmost node of the right subtree.
    pub open spec fn without_root(&self) -> Self
        decreases self, 0nat,
    {
        match self {
            BinaryTree::Empty => BinaryTree::Empty,
            BinaryTree::Node(_, _, left, right) => if **left is Empty {
                **right
            } else if **right is Empty {
                **left
            } else {
                let next = right.leftmost();
                Self::spec_node(
                    next.spec_color(),
                    next.spec_value(),
                    **left,
                    right.removed(next.spec_value()),
                )
            },
        }
    }

    /// The tree that [`BinaryTree::delete`] returns: the nodes on the way to the
    /// element equivalent to `val` rebuilt, and the node that holds it replaced by
    /// [`BinaryTree::without_root`].
    pub open spec fn removed(&self, val: E) -> Self
        decreases self, 1nat,
    {
        match self {
            BinaryTree::Empty => BinaryTree::Empty,
            BinaryTree::Node(color, value, left, right) => if less(val, *value) {
                Self::spec_node(*color, *value, left.removed(val), **right)
            } else if less(*value, val) {
                Self::spec_node(*color, *value, **left, right.removed(val))
            } else {
                self.without_root()
            },
        }
    }

    /// The tree that holds the elements of `items`, inserted one after the other
    /// into the empty tree.
    pub open spec fn built_from(items: Seq<E>) -> Self
        decreases items.len(),
    {
        if items.len() == 0 {
            BinaryTree::Empty
        } else {
            Self::built_from(items.drop_last()).inserted(items.last())
        }
    }

    /// The tree that [`BinaryTree::insert`] returns: the tree grown by `val`, with
    /// a black root.
    pub open spec fn inserted(&self, val: E) -> Self {
        self.grown(val).painted(Color::Black)
    }
}

impl<E: Clone> BinaryTree<E> {
    /// `self` is what a copy of the root node of `orig` may be: the same colour
    /// over the same subtrees, with a clone of the element.
    pub open spec fn is_copy_of(&self, orig: &Self) -> bool {
        match (self, orig) {
            (BinaryTree::Empty, BinaryTree::Empty) => true,
            (BinaryTree::Node(c, v, l, r), BinaryTree::Node(color, value, left, right)) => c
                == color && cloned::<E>(*value, *v) && l == left && r == right,
            _ => false,
        }
    }
}

impl<E> View for BinaryTree<E> {
    type V = Seq<E>;

    open spec fn view(&self) -> Seq<E> {
        self.to_seq()
    }
}

impl<E: Clone> Clone for BinaryTree<E> {
    /// Copies the root node and shares its subtrees.
    fn clone(&self) -> (res: Self)
        ensures
            res.is_copy_of(self),
            exact_clone::<E>() ==> res == *self,
    {
        match self {
            BinaryTree::Empty => BinaryTree::Empty,
            BinaryTree::Node(color, value, left, right) => BinaryTree::Node(
                *color,
                duplicate(value),
                share(left),
                share(right),
            ),
        }
    }
}

impl<E: Clone + PartialOrd> BinaryTree<E> {
    /// A node with the given colour, element and subtrees. Nothing is checked: the
    /// caller decides whether the result is a search tree.
    pub fn node(c: Color, val: E, left: BinaryTree<E>, right: BinaryTree<E>) -> (res: Self)
        ensures
            res == BinaryTree::Node(c, val, Rc::new(left), Rc::new(right)),
            res@ == left@ + seq![val] + right@,
    {
        BinaryTree::Node(c, val, Rc::new(left), Rc::new(right))
    }

    /// The tree without elements.
    pub fn empty() -> (res: Self)
        ensures
            res is Empty,
            res@ == Seq::<E>::empty(),
            res.is_bst(),
            res.is_red_black(),
    {
        BinaryTree::Empty
    }

    /// The element that matches the key `val`, or `None` where the tree holds none.
    /// The key may be of another type than the elements, as long as it can be
    /// compared with them.
    pub fn get<K>(&self, val: K) -> (res: Option<E>) where E: PartialOrd<K>
        ensures
            searchable_by::<E, K>() && self.is_bst() ==> (res is Some <==> lookup(self@, val)
                is Some),
            searchable_by::<E, K>() && self.is_bst() && res is Some ==> cloned::<E>(
                lookup(self@, val)->0,
                res->0,
            ),
            exact_clone::<E>() && searchable_by::<E, K>() && self.is_bst() ==> res == lookup(
                self@,
                val,
            ),
        decreases self,
    {
        match self {
            BinaryTree::Empty => None,
            BinaryTree::Node(_, value, left, right) => {
                proof {
                    if searchable_by::<E, K>() && self.is_bst() {
                        reveal(searchable_by);
                        lemma_lookup_node(*self, val);
                    }
                }
                if *value > val {
                    left.get(val)
                } else if *value < val {
                    right.get(val)
                } else {
                    Some(duplicate(value))
                }
            },
        }
    }

    /// The element that matches the key `val`. The tree must be a search tree that
    /// holds one, and the key must be able to steer the search.
    pub fn unsafe_get<K>(&self, val: K) -> (res: E) where E: PartialOrd<K>
        requires
            searchable_by::<E, K>(),
            self.is_bst(),
            lookup(self@, val) is Some,
        ensures
            cloned::<E>(lookup(self@, val)->0, res),
            exact_clone::<E>() ==> Some(res) == lookup(self@, val),
    {
        match self.get(val) {
            None => unreached(),
            Some(value) => value,
        }
    }

    /// The tree with `val` in it. Where the tree already holds an element
    /// equivalent to `val`, that element stays and the tree is as before.
    ///
    /// The receiver is not changed: the new tree shares with it every subtree off
    /// the path to `val`.
    pub fn insert(&self, val: E) -> (res: Self)
        requires
            self.two_colored(),
        ensures
            !(res is Empty),
            res.two_colored(),
            lawful::<E>() ==> res == self.inserted(val),
            lawful::<E>() && self.is_bst() ==> res.is_bst() && res@ == ordered_insert(self@, val),
            lawful::<E>() && self.is_red_black() ==> res.is_red_black(),
            lawful::<E>() && self.is_bst() && self.is_red_black() && has_equivalent(self@, val)
                ==> res == *self,
    {
        proof {
            if lawful::<E>() {
                if self.is_bst() {
                    lemma_inserted(*self, val);
                }
                if self.is_red_black() {
                    lemma_inserted_colors(*self, val);
                    if self.is_bst() && has_equivalent(self@, val) {
                        lemma_inserted_present(*self, val);
                    }
                }
            }
        }
        self.ins(val).paint(Color::Black)
    }

    fn ins(&self, val: E) -> (res: Self)
        requires
            self.two_colored(),
        ensures
            !(res is Empty),
            res.two_colored(),
            lawful::<E>() ==> res == self.grown(val),
        decreases self,
    {
        proof {
            reveal_with_fuel(BinaryTree::two_colored, 2);
        }
        match self {
            BinaryTree::Empty => BinaryTree::node(
                Color::Red,
                val,
                BinaryTree::Empty,
                BinaryTree::Empty,
            ),
            BinaryTree::Node(color, root, left, right) => {
                proof {
                    if lawful::<E>() {
                        lemma_order_basics(val, *root);
                    }
                }
                if val > *root {
                    let l = (**left).clone();
                    let r = right.ins(val);
                    BinaryTree::balance(*color, duplicate(root), l, r)
                } else if val < *root {
                    let r = (**right).clone();
                    let l = left.ins(val);
                    BinaryTree::balance(*color, duplicate(root), l, r)
                } else {
                    self.clone()
                }
            },
        }
    }

    /// The tree without its root: the other subtree where one is empty, and else
    /// the two subtrees under the element that follows the root's in order, which
    /// is taken out of the right subtree. The tree must not be empty. Nothing is
    /// rebalanced: the result is a search tree, and need not be a red-black one.
    pub fn del(&self) -> (res: Self)
        requires
            !(self is Empty),
        ensures
            self.two_colored() ==> res.two_colored(),
            lawful::<E>() ==> res == self.without_root(),
            lawful::<E>() && self.is_bst() ==> res.is_bst() && res@ == self.spec_left()@
                + self.spec_right()@,
        decreases self, 0nat,
    {
        proof {
            reveal_with_fuel(BinaryTree::two_colored, 2);
            if lawful::<E>() && self.is_bst() {
                lemma_without_root(*self);
            }
        }
        if self.is_leaf() {
            BinaryTree::Empty
        } else if self.left().is_empty() {
            (*self.right()).clone()
        } else if self.right().is_empty() {
            (*self.left()).clone()
        } else {
            proof {
                lemma_leftmost(self.spec_right());
            }
            match self.inorder_successor() {
                BinaryTree::Empty => unreached(),
                BinaryTree::Node(color, root, _, _) => {
                    let rest = self.right().delete(&root);
                    BinaryTree::Node(color, root, self.left(), Rc::new(rest))
                },
            }
        }
    }

    /// The tree without the element equivalent to `val`, or the tree as it is
    /// where it holds none. Only the nodes on the way to that element are rebuilt.
    /// Nothing is rebalanced: the result is a search tree, and need not be a
    /// red-black one.
    pub fn delete(&self, val: &E) -> (res: Self)
        ensures
            self.two_colored() ==> res.two_colored(),
            lawful::<E>() ==> res == self.removed(*val),
            lawful::<E>() && self.is_bst() ==> res.is_bst() && res@ == ordered_remove(self@, *val),
        decreases self, 1nat,
    {
        proof {
            if lawful::<E>() && self.is_bst() {
                lemma_removed(*self, *val);
            }
        }
        match self {
            BinaryTree::Empty => BinaryTree::Empty,
            BinaryTree::Node(color, root, left, right) => {
                proof {
                    if lawful::<E>() {
                        lemma_order_basics(*root, *val);
                    }
                }
                if *root > *val {
                    let rest = left.delete(val);
                    BinaryTree::Node(*color, duplicate(root), Rc::new(rest), share(right))
                } else if *root < *val {
                    let rest = right.delete(val);
                    BinaryTree::Node(*color, duplicate(root), share(left), Rc::new(rest))
                } else {
                    self.del()
                }
            },
        }
    }

    /// A copy of the node whose element follows the root's in order: the leftmost
    /// node of the right subtree, or the empty tree where the right subtree is
    /// empty. The tree must not be empty.
    pub fn inorder_successor(&self) -> (res: Self)
        requires
            !(self is Empty),
        ensures
            res is Empty <==> self.spec_right() is Empty,
            res.is_copy_of(&self.spec_right().leftmost()),
            exact_clone::<E>() ==> res == self.spec_right().leftmost(),
            !(res is Empty) ==> cloned::<E>(self.spec_right()@[0], res.spec_value()),
    {
        if self.right().is_empty() {
            BinaryTree::Empty
        } else {
            self.right().minimum()
        }
    }

    /// A copy of the leftmost node, which holds the first element in order. The
    /// tree must not be empty.
    pub fn minimum(&self) -> (res: Self)
        requires
            !(self is Empty),
        ensures
            !(res is Empty),
            res.is_copy_of(&self.leftmost()),
            exact_clone::<E>() ==> res == self.leftmost(),
            cloned::<E>(self@[0], res.spec_value()),
        decreases self,
    {
        proof {
            lemma_leftmost(*self);
        }
        if self.left().is_empty() {
            self.clone()
        } else {
            self.left().minimum()
        }
    }

    fn balance(c: Color, val: E, left: BinaryTree<E>, right: BinaryTree<E>) -> (res: Self)
        requires
            c is Black || c is Red,
        ensures
            !(res is Empty),
            left.two_colored() && right.two_colored() ==> res.two_colored(),
            exact_clone::<E>() ==> res == Self::balanced(c, val, left, right),
    {
        proof {
            reveal_with_fuel(BinaryTree::two_colored, 3);
        }
        match c {
            Color::Red => BinaryTree::node(c, val, left, right),
            Color::Black => {
                if left.doubled_left() {
                    BinaryTree::node(
                        Color::Red,
                        left.value(),
                        left.left().paint(Color::Black),
                        BinaryTree::Node(Color::Black, val, left.right(), Rc::new(right)),
                    )
                } else if left.doubled_right() {
                    BinaryTree::node(
                        Color::Red,
                        left.right().value(),
                        BinaryTree::Node(
                            Color::Black,
                            left.value(),
                            left.left(),
                            left.right().left(),
                        ),
                        BinaryTree::Node(
                            Color::Black,
                            val,
                            left.right().right(),
                            Rc::new(right),
                        ),
                    )
                } else if right.doubled_left() {
                    BinaryTree::node(
                        Color::Red,
                        right.left().value(),
                        BinaryTree::Node(Color::Black, val, Rc::new(left), right.left().left()),
                        BinaryTree::Node(
                            Color::Black,
                            right.value(),
                            right.left().right(),
                            right.right(),
                        ),
                    )
                } else if right.doubled_right() {
                    BinaryTree::node(
                        Color::Red,
                        right.value(),
                        BinaryTree::Node(Color::Black, val, Rc::new(left), right.left()),
                        right.right().paint(Color::Black),
                    )
                } else {
                    BinaryTree::node(c, val, left, right)
                }
            },
            _ => unreached(),
        }
    }

    /// A red node whose left child is a red node.
    pub fn doubled_left(&self) -> (res: bool)
        ensures
            res == self.spec_doubled_left(),
    {
        !self.is_empty() && self.color() == Color::Red && !self.left().is_empty()
            && self.left().color() == Color::Red
    }

    /// A red node whose right child is a red node.
    pub fn doubled_right(&self) -> (res: bool)
        ensures
            res == self.spec_doubled_right(),
    {
        !self.is_empty() && self.color() == Color::Red && !self.right().is_empty()
            && self.right().color() == Color::Red
    }

    pub fn is_empty(&self) -> (res: bool)
        ensures
            res == (self is Empty),
            res == (self@.len() == 0),
    {
        match self {
            BinaryTree::Empty => true,
            BinaryTree::Node(_, _, _, _) => false,
        }
    }

    /// A node without children.
    pub fn is_leaf(&self) -> (res: bool)
        ensures
            res == (self matches BinaryTree::Node(_, _, left, right) && **left is Empty
                && **right is Empty),
            res == (self@.len() == 1),
    {
        match self {
            BinaryTree::Empty => false,
            BinaryTree::Node(_, _, left, right) => left.is_empty() && right.is_empty(),
        }
    }

    /// The same node in colour `c`. The tree must not be empty.
    pub fn paint(&self, c: Color) -> (res: Self)
        requires
            !(self is Empty),
        ensures
            res matches BinaryTree::Node(color, value, left, right) && color == c && cloned::<E>(
                self.spec_value(),
                value,
            ) && *left == self.spec_left() && *right == self.spec_right(),
            exact_clone::<E>() ==> res == self.painted(c),
    {
        match self {
            BinaryTree::Empty => unreached(),
            BinaryTree::Node(_, value, left, right) => BinaryTree::Node(
                c,
                duplicate(value),
                share(left),
                share(right),
            ),
        }
    }

    /// The colour of the root. The tree must not be empty.
    pub fn color(&self) -> (res: Color)
        requires
            !(self is Empty),
        ensures
            res == self.spec_color(),
    {
        match self {
            BinaryTree::Empty => unreached(),
            BinaryTree::Node(color, _, _, _) => *color,
        }
    }

    /// The element at the root. The tree must not be empty.
    pub fn value(&self) -> (res: E)
        requires
            !(self is Empty),
        ensures
            cloned::<E>(self.spec_value(), res),
            exact_clone::<E>() ==> res == self.spec_value(),
    {
        match self {
            BinaryTree::Empty => unreached(),
            BinaryTree::Node(_, value, _, _) => duplicate(value),
        }
    }

    /// The left subtree, shared with `self`. The tree must not be empty.
    pub fn left(&self) -> (res: Rc<BinaryTree<E>>)
        requires
            !(self is Empty),
        ensures
            *res == self.spec_left(),
    {
        match self {
            BinaryTree::Empty => unreached(),
            BinaryTree::Node(_, _, left, _) => share(left),
        }
    }

    /// The right subtree, shared with `self`. The tree must not be empty.
    pub fn right(&self) -> (res: Rc<BinaryTree<E>>)
        requires
            !(self is Empty),
        ensures
            *res == self.spec_right(),
    {
        match self {
            BinaryTree::Empty => unreached(),
            BinaryTree::Node(_, _, _, right) => share(right),
        }
    }

    /// The number of elements.
    pub fn length(&self) -> (res: usize)
        requires
            self@.len() <= usize::MAX,
        ensures
            res == self@.len(),
        decreases self,
    {
        match self {
            BinaryTree::Empty => 0,
            BinaryTree::Node(_, _, left, right) => 1 + left.length() + right.length(),
        }
    }

    /// The number of nodes on the longest path from the root down.
    pub fn height(&self) -> (res: usize)
        requires
            self.spec_height() <= usize::MAX,
        ensures
            res == self.spec_height(),
        decreases self,
    {
        match self {
            BinaryTree::Empty => 0,
            BinaryTree::Node(_, _, left, right) => {
                let l = left.height();
                let r = right.height();
                1 + if l >= r {
                    l
                } else {
                    r
                }
            },
        }
    }
}

impl<E: PartialEq> BinaryTree<E> {
    /// Two trees have the same shape, and `==` of `E` holds between the elements at
    /// each position. Colours are not compared.
    pub open spec fn same_tree(&self, other: &Self) -> bool
        decreases self,
    {
        match (self, other) {
            (BinaryTree::Empty, BinaryTree::Empty) => true,
            (BinaryTree::Node(_, a, la, ra), BinaryTree::Node(_, b, lb, rb)) => a.eq_spec(b)
                && la.same_tree(&**lb) && ra.same_tree(&**rb),
            _ => false,
        }
    }

    fn equals(&self, other: &Self) -> (res: bool)
        ensures
            E::obeys_eq_spec() ==> res == self.same_tree(other),
        decreases self,
    {
        match (self, other) {
            (BinaryTree::Empty, BinaryTree::Empty) => true,
            (_, BinaryTree::Empty) => false,
            (BinaryTree::Empty, _) => false,
            (BinaryTree::Node(_, a, la, ra), BinaryTree::Node(_, b, lb, rb)) => a == b
                && la.equals(&**lb) && ra.equals(&**rb),
        }
    }
}

impl<E: PartialEq> PartialEq for BinaryTree<E> {
    /// Trees are equal where they have the same shape and equal elements, whatever
    /// their colours.
    fn eq(&self, other: &Self) -> (res: bool) {
        self.equals(other)
    }
}

impl<E: PartialEq> PartialEqSpecImpl for BinaryTree<E> {
    open spec fn obeys_eq_spec() -> bool {
        E::obeys_eq_spec()
    }

    open spec fn eq_spec(&self, other: &Self) -> bool {
        self.same_tree(other)
    }
}

impl<E: Eq> Eq for BinaryTree<E> {

}

impl<E: Clone + PartialOrd> BinaryTree<E> {
    /// The tree that holds the elements of `items`, inserted one after the other
    /// into the empty tree.
    pub fn from_iter(items: Vec<E>) -> (res: Self)
        ensures
            res.two_colored(),
            lawful::<E>() ==> res == Self::built_from(items@),
            lawful::<E>() ==> res.is_bst() && res.is_red_black() && res@ == inserted_all(items@),
    {
        let ghost all = items@;
        let mut tree: BinaryTree<E> = BinaryTree::Empty;
        for x in it: items
            invariant
                it.seq() == all,
                tree.two_colored(),
                lawful::<E>() ==> tree == Self::built_from(all.take(it.index() as int)),
                lawful::<E>() ==> tree.is_bst() && tree.is_red_black() && tree@ == inserted_all(
                    all.take(it.index() as int),
                ),
        {
            proof {
                let n = it.index() as int;
                assert(all.take(n + 1).drop_last() =~= all.take(n));
            }
            tree = tree.insert(x);
        }
        proof {
            assert(all.take(all.len() as int) =~= all);
        }
        tree
    }

    /// A cursor at the first element in order. The cursor shares the tree's nodes.
    pub fn into_iter(self) -> (res: Iter<E>)
        ensures
            res@ == self@,
    {
        let stack = Iter::descend(Rc::new(self), Rc::new(List::Empty));
        proof {
            assert(self@ + Seq::<E>::empty() =~= self@);
        }
        Iter { stack }
    }
}

impl<E: Clone> View for Iter<E> {
    type V = Seq<E>;

    /// The elements that the cursor has not handed out yet, in order.
    closed spec fn view(&self) -> Seq<E> {
        pending(*self.stack)
    }
}

impl<E: Clone> Iter<E> {
    #[verifier::type_invariant]
    spec fn stack_holds_nodes(self) -> bool {
        all_nodes(*self.stack)
    }
}

impl<E: Clone + PartialOrd> Iter<E> {
    /// Puts `tree` and the nodes on its left edge on the stack, the leftmost on
    /// top, so that the elements of `tree` come before what the stack held.
    fn descend(tree: Rc<BinaryTree<E>>, stack: Rc<List<Rc<BinaryTree<E>>>>) -> (res: Rc<
        List<Rc<BinaryTree<E>>>,
    >)
        requires
            all_nodes(*stack),
        ensures
            all_nodes(*res),
            pending(*res) == tree@ + pending(*stack),
    {
        let mut cur = tree;
        let mut st = stack;
        while !cur.is_empty()
            invariant
                all_nodes(*st),
                cur@ + pending(*st) == tree@ + pending(*stack),
            decreases cur@.len(),
        {
            let next = cur.left();
            proof {
                assert(next@ + pending(List::Cons(cur, st)) =~= cur@ + pending(*st));
            }
            st = Rc::new(List::Cons(cur, st));
            cur = next;
        }
        proof {
            assert(cur@ + pending(*st) =~= pending(*st));
        }
        st
    }

    /// Hands out the next element in order and moves on, or returns `None` when
    /// every element has been handed out.
    pub fn next(&mut self) -> (res: Option<E>)
        ensures
            res is Some <==> old(self)@.len() > 0,
            res matches Some(e) ==> cloned::<E>(old(self)@[0], e),
            exact_clone::<E>() && res is Some ==> res == Some(old(self)@[0]),
            final(self)@ == (if old(self)@.len() > 0 {
                old(self)@.skip(1)
            } else {
                old(self)@
            }),
    {
        proof {
            use_type_invariant(&*self);
        }
        let (node, rest) = match &*self.stack {
            List::Empty => {
                return None;
            },
            List::Cons(node, rest) => (share(node), share(rest)),
        };
        let value = node.value();
        let stack = Self::descend(node.right(), rest);
        proof {
            assert(pending(*stack) =~= old(self)@.skip(1));
        }
        self.stack = stack;
        Some(value)
    }
}

} // verus!
