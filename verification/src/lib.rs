//! Verified core of a small x86_64 kernel.
//!
//! The heart of the crate is the memory subsystem in `memory`: a physical
//! frame allocator that drains the memory segments registered with it, and a
//! heap allocator with size classes that backs its window of virtual
//! addresses with frames as it grows. `memory::allocator::laws` states what
//! is proved of the heap as a whole.
//!
//! Around it stand the parts of the kernel that decide or compute and do not
//! touch the machine: the layout of memory at boot (`init`), the register
//! values of the interrupt controller (`sys`), the interrupt vectors
//! (`interrupts`), what is read from PCI devices and the walk over their
//! buses (`device::pci`), the registry of serial ports (`device::uart`), a
//! register of the USB host controller (`device::xhci`), the keyboard's
//! buffer (`hardware`), and address arithmetic of the processor (`arch`).
pub mod arch;
pub mod device;
pub mod hardware;
pub mod init;
pub mod interrupts;
pub mod memory;
pub mod sys;
