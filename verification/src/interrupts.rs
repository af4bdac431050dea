//! Interrupt vectors of the kernel and where they sit on the interrupt
//! controllers.
use vstd::prelude::*;

verus! {

/// Vector at which the lines of the first interrupt controller start.
pub const PIC1_OFFSET: u8 = 0x20;

/// Vector at which the lines of the second interrupt controller start.
pub const PIC2_OFFSET: u8 = PIC1_OFFSET + 8;

/// The interrupts that the kernel handles.
#[derive(Debug, Clone, Copy, PartialEq, Eq, Structural)]
pub enum InterruptIndex {
    Timer,
    Keyboard,
    Spurious,
    XHCI,
    ApicTimer,
    SysCall,
}

impl InterruptIndex {
    /// The vector of the interrupt in the descriptor table. The timer, the
    /// keyboard, the spurious interrupt and the USB host controller sit on
    /// lines 0, 1, 7 and 11 of the first interrupt controller.
    pub open spec fn vector(self) -> int {
        match self {
            InterruptIndex::Timer => PIC1_OFFSET + 0,
            InterruptIndex::Keyboard => PIC1_OFFSET + 1,
            InterruptIndex::Spurious => PIC1_OFFSET + 7,
            InterruptIndex::XHCI => PIC1_OFFSET + 11,
            InterruptIndex::ApicTimer => 0x30,
            InterruptIndex::SysCall => 0x80,
        }
    }

    /// The vector as a byte.
    pub fn as_u8(self) -> (vector: u8)
        ensures
            vector == self.vector(),
    {
        match self {
            InterruptIndex::Timer => PIC1_OFFSET,
            InterruptIndex::Keyboard => PIC1_OFFSET + 1,
            InterruptIndex::Spurious => PIC1_OFFSET + 7,
            InterruptIndex::XHCI => PIC1_OFFSET + 11,
            InterruptIndex::ApicTimer => 0x30,
            InterruptIndex::SysCall => 0x80,
        }
    }

    /// The vector as an index into the descriptor table.
    pub fn as_usize(self) -> (vector: usize)
        ensures
            vector == self.vector(),
    {
        self.as_u8() as usize
    }

    /// The distance of the vector from the first line of the first interrupt
    /// controller.
    pub fn as_offset(self) -> (offset: u8)
        ensures
            offset == self.vector() - PIC1_OFFSET,
    {
        self.as_u8() - PIC1_OFFSET
    }
}

} // verus!
