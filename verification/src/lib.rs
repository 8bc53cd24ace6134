//! Orders of items that keep costly pairs close together.
//!
//! A table gives the cost between any two items. An order of the items is
//! charged for the pairs that stand far apart, and the search for a cheap
//! order combines simulated annealing with greedy descent.

pub mod anneal;
pub mod cost;
pub mod delta;
pub mod greedy;
pub mod model;
pub mod moves;
pub mod order;
pub mod start;
