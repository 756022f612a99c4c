//! A lookahead adapter for iterators: it stages the next `L` items of an
//! iterator in a ring so that they can be inspected before they are consumed.
//!
//! [`Prepeek`] is the adapter. [`Lookahead`] is its mathematical model, and
//! the proof functions beside it state the laws that the adapter obeys.

pub mod model;
pub mod adapter;
mod ring;

pub use adapter::Prepeek;
pub use model::Lookahead;
