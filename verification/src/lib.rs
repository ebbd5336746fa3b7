//! A small N-dimensional array engine with NumPy-style implicit broadcasting
//! for elementwise binary operations, zero-copy dense views (rank reduction
//! and slicing), and a byte-exact binary array format decoder.

pub mod error;
pub mod types;
pub mod shape;
pub mod base;
pub mod view;
pub mod combine;
pub mod idx;
pub mod cursor;
pub mod data;
pub mod nestedlist;
pub mod indexitem;
pub mod item;
pub mod subarray;
pub mod indexing;
