//! A set of unique elements with a traversal cursor that outlives the traversal.
//!
//! A plain set iterator starts over every time it is created. A
//! [`WrappingHashSet`] remembers where the previous traversal stopped: the next
//! one resumes there, wraps around to the beginning when it reaches the end,
//! and yields every element it holds at most once before it signals
//! exhaustion.
//!
//! The crate is organised in three layers:
//!
//! * [`model`] is the mathematical description: what a set and a traversal
//!   session are, and what one step of a session does.
//! * [`set`] is the executable container, whose contracts are stated over the
//!   model.
//! * [`laws`] proves the properties that make the container useful for
//!   round-robin consumption: every pass is a rotation of the held elements,
//!   an abandoned pass is resumed by the next one, and so on.
pub mod laws;
pub mod model;
pub mod set;

pub use set::Iter;
pub use set::WrappingHashSet;
