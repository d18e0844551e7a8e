//! General-purpose containers.

pub mod unique_vec;

pub use unique_vec::UniqueVec;
