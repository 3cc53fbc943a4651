//! The first VICE prototype: an interaction-net engine with constructor,
//! duplicator, reference and eraser nodes, a queue of active pairs, and a
//! runtime that applies interaction rules until no active pair is left.
pub mod interaction;
pub mod net;
pub mod runtime;
