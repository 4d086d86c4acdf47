//! Fixed-capacity, array-backed sorted containers with auto-growing variants.
//!
//! [`ArrayMap`] and [`ArraySet`] keep their elements inline in a backing
//! vector of fixed capacity, in strictly ascending key order; lookups use
//! binary search and insert/remove shift the surrounding elements.
//! [`TinyMap`] and [`TinySet`] start out as such a fixed container and
//! transparently move to an unbounded heap representation the first time an
//! insert would exceed the fixed capacity.

pub mod array_map;
pub mod array_set;
pub mod sorted;
pub mod sorted_map;
pub mod tiny_map;
pub mod tiny_set;

pub use array_map::ArrayMap;
pub use array_set::ArraySet;
pub use tiny_map::TinyMap;
pub use tiny_set::TinySet;
