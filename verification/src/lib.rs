//! Circuit diagrams as typed open hypergraphs.
//!
//! Diagrams are built from a fixed signature of primitive operations by
//! sequential and parallel composition, together with identity and crossing
//! combinators.  A finished diagram is an open hypergraph: densely indexed
//! wires and hyperedges together with ordered input and output boundaries.
//! A seeded generator produces permutations of wires and hyperedges, and a
//! relabeler applies them to yield a structurally isomorphic copy.

pub mod circuit;
pub mod util;
pub mod diagram;
pub mod perm;
pub mod relabel;
pub mod examples;
