//! Register values of the local APIC: how the kernel encodes what it asks of
//! the interrupt controller, and how it picks the timer's divider.
use vstd::prelude::*;
use crate::interrupts::InterruptIndex;

verus! {

/// How an interrupt of a local vector table entry is delivered.
#[derive(Debug, Clone, Copy, PartialEq, Eq, Structural)]
pub enum APICDeliveryMode {
    Fixed,
    SMI,
    NMI,
    ExtINT,
    INIT,
}

impl APICDeliveryMode {
    /// The three bits that stand for the mode in a register.
    pub open spec fn bits(self) -> int {
        match self {
            APICDeliveryMode::Fixed => 0b000,
            APICDeliveryMode::SMI => 0b010,
            APICDeliveryMode::NMI => 0b100,
            APICDeliveryMode::ExtINT => 0b111,
            APICDeliveryMode::INIT => 0b101,
        }
    }

    /// The three bits that stand for the mode in a register.
    pub fn as_u32(self) -> (bits: u32)
        ensures
            bits == self.bits(),
    {
        match self {
            APICDeliveryMode::Fixed => 0b000,
            APICDeliveryMode::SMI => 0b010,
            APICDeliveryMode::NMI => 0b100,
            APICDeliveryMode::ExtINT => 0b111,
            APICDeliveryMode::INIT => 0b101,
        }
    }
}

/// How an interrupt sent to another processor is delivered.
#[derive(Debug, Clone, Copy, PartialEq, Eq, Structural)]
pub enum IPIDeliveryMode {
    Fixed,
    LowestPriority,
    SMI,
    NMI,
    INIT,
    StartUp,
}

impl IPIDeliveryMode {
    /// The three bits that stand for the mode in the command register.
    pub open spec fn bits(self) -> int {
        match self {
            IPIDeliveryMode::Fixed => 0b000,
            IPIDeliveryMode::LowestPriority => 0b001,
            IPIDeliveryMode::SMI => 0b010,
            IPIDeliveryMode::NMI => 0b100,
            IPIDeliveryMode::INIT => 0b101,
            IPIDeliveryMode::StartUp => 0b110,
        }
    }

    /// The three bits that stand for the mode in the command register.
    pub fn as_u32(self) -> (bits: u32)
        ensures
            bits == self.bits(),
    {
        match self {
            IPIDeliveryMode::Fixed => 0b000,
            IPIDeliveryMode::LowestPriority => 0b001,
            IPIDeliveryMode::SMI => 0b010,
            IPIDeliveryMode::NMI => 0b100,
            IPIDeliveryMode::INIT => 0b101,
            IPIDeliveryMode::StartUp => 0b110,
        }
    }
}

/// Which processors an interrupt is sent to, besides or instead of the one
/// named by its identifier.
#[derive(Debug, Clone, Copy, PartialEq, Eq, Structural)]
pub enum IPIDestinationShorthand {
    NoShorthand,
    SelfOnly,
    AllIncludingSelf,
    AllExcludingSelf,
}

impl IPIDestinationShorthand {
    /// The two bits that stand for the shorthand in the command register.
    pub open spec fn bits(self) -> int {
        match self {
            IPIDestinationShorthand::NoShorthand => 0,
            IPIDestinationShorthand::SelfOnly => 1,
            IPIDestinationShorthand::AllIncludingSelf => 2,
            IPIDestinationShorthand::AllExcludingSelf => 3,
        }
    }

    /// The two bits that stand for the shorthand in the command register.
    pub fn as_u32(self) -> (bits: u32)
        ensures
            bits == self.bits(),
    {
        match self {
            IPIDestinationShorthand::NoShorthand => 0,
            IPIDestinationShorthand::SelfOnly => 1,
            IPIDestinationShorthand::AllIncludingSelf => 2,
            IPIDestinationShorthand::AllExcludingSelf => 3,
        }
    }
}

/// The identifier that addresses every processor: for it the destination
/// register is left alone.
pub const BROADCAST_ID: u8 = 0xFF;

/// Ticks of the timer from which on a divider is needed.
pub const MAX_TICK: u64 = 0xFFFF_FF00;

/// Microseconds over which the timer is measured.
pub const MEASURE_MICROS: u32 = 10_000;

/// The low word of the interrupt command: the vector in bits 0 to 7, the
/// delivery mode in bits 8 to 10, the level bit 14 set, and the shorthand in
/// bits 18 and 19.
pub open spec fn ipi_command_spec(
    vector: u8,
    mode: IPIDeliveryMode,
    shorthand: IPIDestinationShorthand,
) -> int {
    vector + mode.bits() * 0x100 + 0x4000 + shorthand.bits() * 0x4_0000
}

/// Encodes the low word of the interrupt command register.
pub fn ipi_command(vector: u8, mode: IPIDeliveryMode, shorthand: IPIDestinationShorthand) -> (value:
    u32)
    ensures
        value == ipi_command_spec(vector, mode, shorthand),
{
    let mode_bits = mode.as_u32();
    let shorthand_bits = shorthand.as_u32();
    let wide: u32 = vector as u32;
    assert(((wide | mode_bits << 8 | shorthand_bits << 18) | 1u32 << 14) == wide + mode_bits * 0x100
        + 0x4000 + shorthand_bits * 0x4_0000) by (bit_vector)
        requires
            wide < 0x100,
            mode_bits < 8,
            shorthand_bits < 4,
    ;
    let mut value: u32 = wide | mode_bits << 8 | shorthand_bits << 18;
    value |= 1 << 14;
    value
}

/// Encodes the high word of the interrupt command register, which names the
/// processor that the interrupt goes to: its identifier in bits 24 to 31.
/// For `BROADCAST_ID` there is nothing to write.
pub fn ipi_destination(lapic_id: u8) -> (value: Option<u32>)
    ensures
        value == if lapic_id != BROADCAST_ID {
            Some((lapic_id * 0x100_0000) as u32)
        } else {
            None::<u32>
        },
{
    if lapic_id != BROADCAST_ID {
        let wide: u32 = lapic_id as u32;
        assert(wide << 24 == wide * 0x100_0000) by (bit_vector)
            requires
                wide < 0x100,
        ;
        Some(wide << 24)
    } else {
        None
    }
}

/// Reads the identifier of a processor from its identification register: the
/// highest byte.
pub fn apic_id_from_register(word: u32) -> (id: u8)
    ensures
        id == word / 0x100_0000,
{
    assert(word >> 24 == word / 0x100_0000) by (bit_vector);
    assert(word >> 24 < 0x100) by (bit_vector);
    (word >> 24) as u8
}

/// Encodes the spurious interrupt register: the vector in bits 0 to 7 and the
/// enable bit of the controller in bit 8.
pub fn spurious_lvt(spurious_vector: u8, enable: bool) -> (value: u32)
    ensures
        value == spurious_vector + if enable {
            0x100int
        } else {
            0int
        },
{
    let wide: u32 = spurious_vector as u32;
    let flag: u32 = if enable {
        1
    } else {
        0
    };
    assert((wide | flag << 8) == wide + flag * 0x100) by (bit_vector)
        requires
            wide < 0x100,
            flag < 2,
    ;
    wide | flag << 8
}

/// The mode in which the timer counts.
#[derive(Debug, Clone, Copy, PartialEq, Eq, Structural)]
pub enum APICTimerMode {
    OneShot,
    Periodic,
    TSCDeadline,
}

impl APICTimerMode {
    /// The two bits that stand for the mode in the timer's entry.
    pub open spec fn bits(self) -> int {
        match self {
            APICTimerMode::OneShot => 0,
            APICTimerMode::Periodic => 1,
            APICTimerMode::TSCDeadline => 2,
        }
    }

    /// The two bits that stand for the mode in the timer's entry.
    pub fn as_u32(self) -> (bits: u32)
        ensures
            bits == self.bits(),
    {
        match self {
            APICTimerMode::OneShot => 0,
            APICTimerMode::Periodic => 1,
            APICTimerMode::TSCDeadline => 2,
        }
    }
}

/// Encodes the timer's entry of the local vector table: the vector in bits 0
/// to 7, the mask in bit 16 and the mode in bits 17 and 18.
pub fn timer_lvt(vector: u8, mode: APICTimerMode, masked: bool) -> (value: u32)
    ensures
        value == vector + mode.bits() * 0x2_0000 + if masked {
            0x1_0000int
        } else {
            0int
        },
{
    let wide: u32 = vector as u32;
    let mode_bits = mode.as_u32();
    let flag: u32 = if masked {
        1
    } else {
        0
    };
    assert((wide | mode_bits << 17 | flag << 16) == wide + mode_bits * 0x2_0000 + flag * 0x1_0000)
        by (bit_vector)
        requires
            wide < 0x100,
            mode_bits < 4,
            flag < 2,
    ;
    wide | mode_bits << 17 | flag << 16
}

/// Encodes the entry of the first local interrupt pin, which carries the
/// interrupts of the USB host controller: that vector in bits 0 to 7, the
/// delivery mode in bits 8 to 10 and the mask in bit 16.
pub fn lint0_lvt(mode: APICDeliveryMode, masked: bool) -> (value: u32)
    ensures
        value == InterruptIndex::XHCI.vector() + mode.bits() * 0x100 + if masked {
            0x1_0000int
        } else {
            0int
        },
{
    let wide: u32 = InterruptIndex::XHCI.as_u8() as u32;
    let mode_bits = mode.as_u32();
    let flag: u32 = if masked {
        1
    } else {
        0
    };
    assert((wide | mode_bits << 8 | flag << 16) == wide + mode_bits * 0x100 + flag * 0x1_0000)
        by (bit_vector)
        requires
            wide < 0x100,
            mode_bits < 8,
            flag < 2,
    ;
    wide | mode_bits << 8 | flag << 16
}

/// By how much the timer divides the bus clock.
#[derive(Debug, Clone, Copy, PartialEq, Eq, Structural)]
pub enum APICTimerDividerOption {
    DivideBy1,
    DivideBy2,
    DivideBy4,
    DivideBy8,
    DivideBy16,
    DivideBy32,
    DivideBy64,
    DivideBy128,
}

impl APICTimerDividerOption {
    /// The number that the clock is divided by.
    pub open spec fn divisor(self) -> int {
        match self {
            APICTimerDividerOption::DivideBy1 => 1,
            APICTimerDividerOption::DivideBy2 => 2,
            APICTimerDividerOption::DivideBy4 => 4,
            APICTimerDividerOption::DivideBy8 => 8,
            APICTimerDividerOption::DivideBy16 => 16,
            APICTimerDividerOption::DivideBy32 => 32,
            APICTimerDividerOption::DivideBy64 => 64,
            APICTimerDividerOption::DivideBy128 => 128,
        }
    }

    /// What stands for the divider in the divide configuration register:
    /// bits 0, 1 and 3.
    pub open spec fn bits(self) -> int {
        match self {
            APICTimerDividerOption::DivideBy1 => 0b1011,
            APICTimerDividerOption::DivideBy2 => 0b0000,
            APICTimerDividerOption::DivideBy4 => 0b0001,
            APICTimerDividerOption::DivideBy8 => 0b0010,
            APICTimerDividerOption::DivideBy16 => 0b0011,
            APICTimerDividerOption::DivideBy32 => 0b1000,
            APICTimerDividerOption::DivideBy64 => 0b1001,
            APICTimerDividerOption::DivideBy128 => 0b1010,
        }
    }

    /// What stands for the divider in the divide configuration register.
    pub fn as_u32(self) -> (bits: u32)
        ensures
            bits == self.bits(),
    {
        match self {
            APICTimerDividerOption::DivideBy1 => 0b1011,
            APICTimerDividerOption::DivideBy2 => 0b0000,
            APICTimerDividerOption::DivideBy4 => 0b0001,
            APICTimerDividerOption::DivideBy8 => 0b0010,
            APICTimerDividerOption::DivideBy16 => 0b0011,
            APICTimerDividerOption::DivideBy32 => 0b1000,
            APICTimerDividerOption::DivideBy64 => 0b1001,
            APICTimerDividerOption::DivideBy128 => 0b1010,
        }
    }

    /// Reads the divider from the divide configuration register, whose bit 2
    /// and bits from 4 on mean nothing.
    pub fn from_register(word: u32) -> (divider: APICTimerDividerOption)
        ensures
            divider.bits() == (word & 0b1011),
    {
        let bits: u32 = word & 0b1011;
        assert(bits == 0b0000 || bits == 0b0001 || bits == 0b0010 || bits == 0b0011 || bits
            == 0b1000 || bits == 0b1001 || bits == 0b1010 || bits == 0b1011) by (bit_vector)
            requires
                bits == word & 0b1011,
        ;
        if bits == 0b0000 {
            APICTimerDividerOption::DivideBy2
        } else if bits == 0b0001 {
            APICTimerDividerOption::DivideBy4
        } else if bits == 0b0010 {
            APICTimerDividerOption::DivideBy8
        } else if bits == 0b0011 {
            APICTimerDividerOption::DivideBy16
        } else if bits == 0b1000 {
            APICTimerDividerOption::DivideBy32
        } else if bits == 0b1001 {
            APICTimerDividerOption::DivideBy64
        } else if bits == 0b1010 {
            APICTimerDividerOption::DivideBy128
        } else {
            APICTimerDividerOption::DivideBy1
        }
    }
}

/// The timer's speed, in ticks per microsecond, from the ticks that it
/// counted over `MEASURE_MICROS` microseconds while dividing the clock by 4.
pub fn calibrated_scale(elapsed_ticks: u32) -> (scale: u32)
    ensures
        scale == (elapsed_ticks / MEASURE_MICROS) * 4,
{
    (elapsed_ticks / MEASURE_MICROS) * 4
}

/// Whether the timer can count `ticks` with `divider`: divided by it they
/// stay below `MAX_TICK`.
pub open spec fn divider_suffices(ticks: int, divider: APICTimerDividerOption) -> bool {
    ticks / divider.divisor() < MAX_TICK
}

/// The setting of the timer for an interval of `micros` microseconds at
/// `scale` ticks per microsecond: the initial count and the divider. The
/// divider is the smallest one with which the count stays below `MAX_TICK`,
/// and the count is the number of ticks divided by it. Where not even the
/// largest divider suffices there is no setting.
pub fn timer_interval(micros: u64, scale: u32) -> (setting: Result<
    (u32, APICTimerDividerOption),
    (),
>)
    requires
        micros * scale <= u64::MAX,
    ensures
        ({
            let ticks = micros * scale;
            match setting {
                Ok((initial, divider)) => {
                    &&& divider_suffices(ticks, divider)
                    &&& initial == ticks / divider.divisor()
                    &&& forall|smaller: APICTimerDividerOption|
                        smaller.divisor() < divider.divisor() ==> !#[trigger] divider_suffices(
                            ticks,
                            smaller,
                        )
                },
                Err(_) => forall|any: APICTimerDividerOption| !#[trigger] divider_suffices(ticks, any),
            }
        }),
{
    let ticks: u64 = micros * (scale as u64);
    let (div_ticks, divider) = if ticks < MAX_TICK {
        (ticks, APICTimerDividerOption::DivideBy1)
    } else if ticks / 2 < MAX_TICK {
        (ticks / 2, APICTimerDividerOption::DivideBy2)
    } else if ticks / 4 < MAX_TICK {
        (ticks / 4, APICTimerDividerOption::DivideBy4)
    } else if ticks / 8 < MAX_TICK {
        (ticks / 8, APICTimerDividerOption::DivideBy8)
    } else if ticks / 16 < MAX_TICK {
        (ticks / 16, APICTimerDividerOption::DivideBy16)
    } else if ticks / 32 < MAX_TICK {
        (ticks / 32, APICTimerDividerOption::DivideBy32)
    } else if ticks / 64 < MAX_TICK {
        (ticks / 64, APICTimerDividerOption::DivideBy64)
    } else if ticks / 128 < MAX_TICK {
        (ticks / 128, APICTimerDividerOption::DivideBy128)
    } else {
        return Err(());
    };
    Ok((div_ticks as u32, divider))
}

} // verus!
