//! A sparse, chunked storage core for 3-dimensional voxel data.
//!
//! The crate provides chunk-key arithmetic over power-of-two chunk shapes, a
//! sparse chunk map with ambient-value semantics, and a fast, non-portable
//! compression codec for chunk channels.

use vstd::prelude::*;

pub mod point;
pub mod extent;
pub mod chunk_indexer;
pub mod array;
pub mod chunk_map;
pub mod raw_bytes;
pub mod compression;

verus! {

/// Tells generic algorithms whether a voxel counts as empty space.
pub trait IsEmpty {
    fn is_empty(&self) -> bool;
}

impl IsEmpty for bool {
    fn is_empty(&self) -> (r: bool)
        ensures
            r == !*self,
    {
        !*self
    }
}

} // verus!
