//! Registers of an XHCI host controller, as far as the kernel reads them.
use vstd::prelude::*;

verus! {

/// Whether an interrupter has an interrupt pending, which bit 0 of its flags
/// register tells. Bit 1 enables the interrupter.
pub fn pending(flags: u32) -> (pending: bool)
    ensures
        pending == (flags % 2 == 1),
{
    assert(flags & 0x1 == flags % 2) by (bit_vector);
    flags & 0x1 == 1
}

} // verus!
