//! The kernel heap: size classes, the mathematical model of the bin
//! allocator, the allocator itself, and what is proved of it.
pub mod size_class;
pub mod model;
pub mod bin;
pub mod laws;
