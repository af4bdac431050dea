//! What depends on the processor architecture: address arithmetic of the
//! `x86_64` crate, and the stacks that the task state segment names.
pub mod address;
pub mod descriptor_table;
