//! Devices on the buses of the machine.
pub mod pci;
pub mod uart;
pub mod xhci;
