//! A single-owner memory discipline with shared and exclusive borrows.
//!
//! Every resource has one owning binding at a time. Ownership moves from
//! binding to binding, into functions and back out of them; a move leaves
//! the binding it took from invalid. A resource can be borrowed, by any
//! number of shared borrows or by one exclusive borrow, never both, and no
//! borrow outlives the scope of the binding it refers to.
//!
//! - `model`: the state of the tracker as mathematical data, and the rule
//!   of each operation.
//! - `invariants`: every operation keeps the state well-formed.
//! - `tracker`: the executable tracker, operation by operation.
//! - `trace`: validation of a whole program under a region rule.
//! - `laws`: what the discipline guarantees.
//! - `strings`: owned strings passed by value, by shared reference and by
//!   exclusive reference.

pub mod invariants;
pub mod laws;
pub mod model;
pub mod strings;
pub mod trace;
pub mod tracker;
