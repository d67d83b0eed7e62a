//! A bounded-lookahead adapter for lazily produced sequences.
//!
//! [`PeekNIterator`] wraps a producer that hands out its items one at a time
//! and cannot be rewound, and lets its owner look at up to `N` items ahead
//! without consuming them. Every other operation behaves as it would on the
//! bare producer.

pub mod adapter;
pub mod bounds;
pub mod laws;
pub mod lookahead;
pub mod producer;
pub mod ring;

pub use crate::adapter::PeekN;
pub use crate::adapter::PeekNIterator;
