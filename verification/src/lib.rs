//! Sorted views of unordered maps and sets, for writing them out in one
//! stable order whatever order the container happens to walk them in.
//!
//! A view borrows its container. When it is written out, it sorts the keys
//! (or elements) ascending and then says, step by step, what the encoder is
//! to be handed next: see [`MapEmission`] and [`SeqEmission`]. The encoder
//! itself is not part of this library.

pub mod dispatch;
pub mod entries;
pub mod order;
pub mod sorted_map;
pub mod sorted_set;
mod sorting;

pub use dispatch::SerializeSortedFrom;
pub use sorted_map::{MapEmission, MapStep, SerializeSortedHashMapWrapper};
pub use sorted_set::{SeqEmission, SeqStep, SerializeSortedHashSetWrapper};
