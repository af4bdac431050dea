//! System hardware: what the kernel writes to the interrupt controller of
//! each processor.
pub mod apic;
