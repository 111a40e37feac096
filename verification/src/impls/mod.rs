//! The protocol on the standard containers.

pub mod slice;
pub mod slice_mut;
pub mod vec;
pub mod sinks;
pub mod ordered;
