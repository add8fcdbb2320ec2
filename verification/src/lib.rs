//! Persistent collections: an immutable list with shared tails, and a red-black
//! tree whose every insertion and removal returns a new tree that shares the
//! untouched subtrees with the old one. A map and a set are kept in such trees.

pub mod laws;
pub mod list;
pub mod map;
pub mod set;
pub mod tree;
