use kern::arch::descriptor_table::{stack_top, DOUBLE_FAULT_IST_INDEX};
use kern::device::pci::{PCICapability, PCICapabilityID, PCIError};
use kern::device::uart::{SerialPorts, EARLY_PORT_ID};
use kern::hardware::keyboard::X86Keyboard;
use kern::interrupts::{InterruptIndex, PIC1_OFFSET, PIC2_OFFSET};
use kern::sys::apic::{
    apic_id_from_register, calibrated_scale, ipi_command, ipi_destination, lint0_lvt,
    spurious_lvt, timer_interval, timer_lvt, APICDeliveryMode, APICTimerDividerOption,
    APICTimerMode, IPIDeliveryMode, IPIDestinationShorthand, MAX_TICK,
};

#[test]
fn interrupt_vectors() {
    assert_eq!(PIC1_OFFSET, 0x20);
    assert_eq!(PIC2_OFFSET, 0x28);
    assert_eq!(InterruptIndex::Timer.as_u8(), 0x20);
    assert_eq!(InterruptIndex::Keyboard.as_u8(), 0x21);
    assert_eq!(InterruptIndex::Spurious.as_u8(), 0x27);
    assert_eq!(InterruptIndex::XHCI.as_u8(), 0x2b);
    assert_eq!(InterruptIndex::ApicTimer.as_u8(), 0x30);
    assert_eq!(InterruptIndex::SysCall.as_u8(), 0x80);
}

#[test]
fn interrupt_vectors_as_index_and_offset() {
    assert_eq!(InterruptIndex::Keyboard.as_usize(), 0x21usize);
    assert_eq!(InterruptIndex::SysCall.as_usize(), 0x80usize);
    assert_eq!(InterruptIndex::Timer.as_offset(), 0);
    assert_eq!(InterruptIndex::Keyboard.as_offset(), 1);
    assert_eq!(InterruptIndex::Spurious.as_offset(), 7);
    assert_eq!(InterruptIndex::XHCI.as_offset(), 11);
    assert_eq!(InterruptIndex::ApicTimer.as_offset(), 0x10);
    assert_eq!(InterruptIndex::SysCall.as_offset(), 0x60);
}

#[test]
fn delivery_mode_bits() {
    assert_eq!(APICDeliveryMode::Fixed.as_u32(), 0b000);
    assert_eq!(APICDeliveryMode::SMI.as_u32(), 0b010);
    assert_eq!(APICDeliveryMode::NMI.as_u32(), 0b100);
    assert_eq!(APICDeliveryMode::ExtINT.as_u32(), 0b111);
    assert_eq!(APICDeliveryMode::INIT.as_u32(), 0b101);
    assert_eq!(IPIDeliveryMode::Fixed.as_u32(), 0);
    assert_eq!(IPIDeliveryMode::LowestPriority.as_u32(), 1);
    assert_eq!(IPIDeliveryMode::SMI.as_u32(), 0b010);
    assert_eq!(IPIDeliveryMode::NMI.as_u32(), 0b100);
    assert_eq!(IPIDeliveryMode::INIT.as_u32(), 0b101);
    assert_eq!(IPIDeliveryMode::StartUp.as_u32(), 0b110);
    assert_eq!(IPIDestinationShorthand::NoShorthand.as_u32(), 0);
    assert_eq!(IPIDestinationShorthand::SelfOnly.as_u32(), 1);
    assert_eq!(IPIDestinationShorthand::AllIncludingSelf.as_u32(), 2);
    assert_eq!(IPIDestinationShorthand::AllExcludingSelf.as_u32(), 3);
}

#[test]
fn ipi_command_word() {
    let init = ipi_command(0, IPIDeliveryMode::INIT, IPIDestinationShorthand::NoShorthand);
    assert_eq!(init, 0x4500);
    let startup = ipi_command(0x8, IPIDeliveryMode::StartUp, IPIDestinationShorthand::NoShorthand);
    assert_eq!(startup, 0x4608);
    let all = ipi_command(0xfe, IPIDeliveryMode::Fixed, IPIDestinationShorthand::AllExcludingSelf);
    assert_eq!(all, 0xfe | 1 << 14 | 3 << 18);
}

#[test]
fn ipi_destination_word() {
    assert_eq!(ipi_destination(0), Some(0));
    assert_eq!(ipi_destination(3), Some(0x0300_0000));
    assert_eq!(ipi_destination(0xfe), Some(0xfe00_0000));
    assert_eq!(ipi_destination(0xff), None);
}

#[test]
fn apic_id_is_the_highest_byte() {
    assert_eq!(apic_id_from_register(0x0500_0000), 5);
    assert_eq!(apic_id_from_register(0xff12_3456), 0xff);
    assert_eq!(apic_id_from_register(0x00ff_ffff), 0);
}

#[test]
fn spurious_register_word() {
    assert_eq!(spurious_lvt(0xff, true), 0x1ff);
    assert_eq!(spurious_lvt(0xff, false), 0xff);
    assert_eq!(spurious_lvt(0x27, true), 0x127);
}

#[test]
fn timer_entry_word() {
    assert_eq!(timer_lvt(0x30, APICTimerMode::Periodic, false), 0x2_0030);
    assert_eq!(timer_lvt(0x30, APICTimerMode::Periodic, true), 0x3_0030);
    assert_eq!(timer_lvt(0x30, APICTimerMode::OneShot, false), 0x30);
    assert_eq!(timer_lvt(0x30, APICTimerMode::TSCDeadline, false), 0x4_0030);
}

#[test]
fn lint0_entry_word() {
    assert_eq!(lint0_lvt(APICDeliveryMode::ExtINT, false), 0x72b);
    assert_eq!(lint0_lvt(APICDeliveryMode::Fixed, true), 0x1_002b);
}

#[test]
fn divider_register_bits() {
    let all = [
        (APICTimerDividerOption::DivideBy1, 0b1011),
        (APICTimerDividerOption::DivideBy2, 0b0000),
        (APICTimerDividerOption::DivideBy4, 0b0001),
        (APICTimerDividerOption::DivideBy8, 0b0010),
        (APICTimerDividerOption::DivideBy16, 0b0011),
        (APICTimerDividerOption::DivideBy32, 0b1000),
        (APICTimerDividerOption::DivideBy64, 0b1001),
        (APICTimerDividerOption::DivideBy128, 0b1010),
    ];
    for (divider, bits) in all {
        assert_eq!(divider.as_u32(), bits);
        assert_eq!(APICTimerDividerOption::from_register(bits), divider);
        assert_eq!(APICTimerDividerOption::from_register(bits | 0xffff_fff4), divider);
    }
}

#[test]
fn calibration_scale() {
    assert_eq!(calibrated_scale(0), 0);
    assert_eq!(calibrated_scale(9_999), 0);
    assert_eq!(calibrated_scale(10_000), 4);
    assert_eq!(calibrated_scale(2_500_000), 1000);
    assert_eq!(calibrated_scale(u32::MAX), 429_496 * 4);
}

#[test]
fn timer_interval_picks_the_smallest_divider() {
    assert_eq!(timer_interval(0, 1000), Ok((0, APICTimerDividerOption::DivideBy1)));
    assert_eq!(timer_interval(1000, 4), Ok((4000, APICTimerDividerOption::DivideBy1)));
    assert_eq!(
        timer_interval(MAX_TICK - 1, 1),
        Ok((0xffff_feff, APICTimerDividerOption::DivideBy1))
    );
    assert_eq!(
        timer_interval(MAX_TICK, 1),
        Ok((0x7fff_ff80, APICTimerDividerOption::DivideBy2))
    );
    assert_eq!(
        timer_interval(MAX_TICK, 2),
        Ok((0x7fff_ff80, APICTimerDividerOption::DivideBy4))
    );
    assert_eq!(
        timer_interval(MAX_TICK, 127),
        Ok(((MAX_TICK * 127 / 128) as u32, APICTimerDividerOption::DivideBy128))
    );
}

#[test]
fn timer_interval_refuses_what_no_divider_reaches() {
    assert_eq!(timer_interval(MAX_TICK, 128), Err(()));
    assert_eq!(timer_interval(u64::MAX, 1), Err(()));
    assert!(timer_interval(MAX_TICK * 128 - 1, 1).is_ok());
}

#[test]
fn capability_kinds() {
    assert_eq!(PCICapabilityID::from(0x01), PCICapabilityID::PowerManagement);
    assert_eq!(PCICapabilityID::from(0x02), PCICapabilityID::AGP);
    assert_eq!(PCICapabilityID::from(0x03), PCICapabilityID::VPD);
    assert_eq!(PCICapabilityID::from(0x04), PCICapabilityID::SlotID);
    assert_eq!(PCICapabilityID::from(0x05), PCICapabilityID::MSI);
    assert_eq!(PCICapabilityID::from(0x06), PCICapabilityID::CompactPCIHotSwap);
    assert_eq!(PCICapabilityID::from(0x07), PCICapabilityID::PCIX);
    assert_eq!(PCICapabilityID::from(0x08), PCICapabilityID::HyperTrasnport);
    assert_eq!(PCICapabilityID::from(0x09), PCICapabilityID::Vendor);
    assert_eq!(PCICapabilityID::from(0x0a), PCICapabilityID::Debug);
    assert_eq!(PCICapabilityID::from(0x0b), PCICapabilityID::CompactPCICentralResourceCtrl);
    assert_eq!(PCICapabilityID::from(0x0c), PCICapabilityID::PCIHotPlug);
    assert_eq!(PCICapabilityID::from(0x0d), PCICapabilityID::PCIBridgeSubsystemVendorID);
    assert_eq!(PCICapabilityID::from(0x0e), PCICapabilityID::AGP8x);
    assert_eq!(PCICapabilityID::from(0x0f), PCICapabilityID::SecureDevice);
    assert_eq!(PCICapabilityID::from(0x10), PCICapabilityID::PCIExpress);
    assert_eq!(PCICapabilityID::from(0x11), PCICapabilityID::MSIX);
}

#[test]
fn unknown_capability_keeps_its_byte() {
    assert_eq!(PCICapabilityID::from(0x00), PCICapabilityID::Unknown(0x00));
    assert_eq!(PCICapabilityID::from(0x12), PCICapabilityID::Unknown(0x12));
    assert_eq!(PCICapabilityID::from(0xff), PCICapabilityID::Unknown(0xff));
}

#[test]
fn capability_new_decodes_the_identifier() {
    let capability = PCICapability::new(0x05, 0x50);
    assert_eq!(capability.id, PCICapabilityID::MSI);
    assert_eq!(capability.addr, 0x50);
    let unknown = PCICapability::new(0x40, 0xa0);
    assert_eq!(unknown, PCICapability { id: PCICapabilityID::Unknown(0x40), addr: 0xa0 });
}

#[test]
fn pci_errors_are_distinct() {
    assert_ne!(PCIError::SlotNumber, PCIError::FuncNumber);
    assert_ne!(PCIError::RegisterNumber, PCIError::InvalidDevice);
}

#[test]
fn keyboard_without_buffer_drops_keys() {
    let mut keyboard = X86Keyboard::uninitialized();
    assert_eq!(keyboard.available(), 0);
    keyboard.push_keystroke(b'a');
    assert_eq!(keyboard.available(), 0);
    assert_eq!(keyboard.read(), None);
}

#[test]
fn keyboard_hands_keys_out_in_order() {
    let mut keyboard = X86Keyboard::uninitialized();
    keyboard.initialize();
    assert_eq!(keyboard.available(), 0);
    assert_eq!(keyboard.read(), None);
    keyboard.push_keystroke(b'k');
    keyboard.push_keystroke(b'e');
    keyboard.push_keystroke(b'y');
    assert_eq!(keyboard.available(), 3);
    assert_eq!(keyboard.read(), Some(b'k'));
    assert_eq!(keyboard.read(), Some(b'e'));
    assert_eq!(keyboard.available(), 1);
    assert_eq!(keyboard.read(), Some(b'y'));
    assert_eq!(keyboard.read(), None);
}

#[test]
fn keyboard_initialize_empties_the_buffer() {
    let mut keyboard = X86Keyboard::uninitialized();
    keyboard.initialize();
    keyboard.push_keystroke(1);
    keyboard.initialize();
    assert_eq!(keyboard.available(), 0);
}

#[test]
fn keyboard_holds_more_than_its_first_capacity() {
    let mut keyboard = X86Keyboard::uninitialized();
    keyboard.initialize();
    for key in 0..100u8 {
        keyboard.push_keystroke(key);
    }
    assert_eq!(keyboard.available(), 100);
    for key in 0..100u8 {
        assert_eq!(keyboard.read(), Some(key));
    }
}

#[test]
fn serial_ports_are_numbered_from_one() {
    let mut ports = SerialPorts::new();
    assert_eq!(ports.port(0), None);
    assert_eq!(ports.port(1), None);
    assert_eq!(ports.register_port(0x3f8), 1);
    assert_eq!(ports.register_port(0x2f8), 2);
    assert_eq!(ports.register_port(0xfee0_0000), 3);
    assert_eq!(ports.port(1), Some(0x3f8));
    assert_eq!(ports.port(2), Some(0x2f8));
    assert_eq!(ports.port(3), Some(0xfee0_0000));
    assert_eq!(ports.port(4), None);
}

#[test]
fn early_serial_port_is_entered_when_verified() {
    let mut ports = SerialPorts::new();
    assert!(!ports.register_early_serial(0x3f8, false));
    assert_eq!(ports.port(EARLY_PORT_ID), None);
    assert!(ports.register_early_serial(0x3f8, true));
    assert_eq!(ports.port(EARLY_PORT_ID), Some(0x3f8));
    assert!(ports.register_early_serial(0x2f8, true));
    assert_eq!(ports.port(EARLY_PORT_ID), Some(0x2f8));
}

#[test]
fn first_registered_port_replaces_the_early_one() {
    let mut ports = SerialPorts::new();
    ports.register_early_serial(0x3f8, true);
    assert_eq!(ports.register_port(0x1000), 1);
    assert_eq!(ports.port(EARLY_PORT_ID), None);
    assert_eq!(ports.port(1), Some(0x1000));
    // Entered again, the early port stays when further ports are registered.
    ports.register_early_serial(0x3f8, true);
    assert_eq!(ports.register_port(0x2000), 2);
    assert_eq!(ports.port(EARLY_PORT_ID), Some(0x3f8));
    assert_eq!(ports.port(1), Some(0x1000));
    assert_eq!(ports.port(2), Some(0x2000));
}

#[test]
fn stack_top_is_the_aligned_last_byte() {
    assert_eq!(DOUBLE_FAULT_IST_INDEX, 0);
    assert_eq!(stack_top(0x1000, 0x400), 0x13f8);
    assert_eq!(stack_top(0x1000, 1), 0x1000);
    assert_eq!(stack_top(0x1003, 8), 0x1008);
    assert_eq!(stack_top(0x8000, 1024 * 8), 0x9ff8);
}
