pub mod binary_tree;
pub mod guarantees;
pub mod insertion;
pub mod removal;
pub mod search;
pub mod search_order;
pub mod sorted;
