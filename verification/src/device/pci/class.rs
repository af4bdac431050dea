//! Class codes and header types of PCI devices, as far as the kernel tells
//! them apart.
use vstd::prelude::*;
use vstd::std_specs::convert::FromSpecImpl;

verus! {

/// Base class of mass storage controllers.
pub const CLASS_MASS_STORAGE: u8 = 0x01;

/// Base class of simple communication controllers.
pub const CLASS_SIMPLE_COMMUNICATION: u8 = 0x07;

/// Base class of serial bus controllers.
pub const CLASS_SERIAL_BUS: u8 = 0x0c;

/// Subclass of serial ATA controllers among the mass storage controllers.
pub const SUBCLASS_SATA: u8 = 0x06;

/// Subclass of serial port controllers among the communication controllers.
pub const SUBCLASS_SERIAL: u8 = 0x00;

/// Subclass of USB host controllers among the serial bus controllers.
pub const SUBCLASS_USB: u8 = 0x03;

/// Programming interface of an AHCI controller.
pub const PROG_IF_AHCI: u8 = 0x01;

/// Programming interface of an XHCI controller.
pub const PROG_IF_XHCI: u8 = 0x30;

/// Programming interface of a serial ATA controller.
#[derive(Debug, Clone, Copy, PartialEq, Eq, Structural)]
pub enum PCIClassMassStroageSATA {
    AHCI,
    Other(u8),
}

/// Subclass of a mass storage controller.
#[derive(Debug, Clone, Copy, PartialEq, Eq, Structural)]
pub enum PCIClassMassStorageClass {
    SATA(PCIClassMassStroageSATA),
    Other(u8),
}

/// Subclass of a simple communication controller. A serial controller keeps
/// its programming interface.
#[derive(Debug, Clone, Copy, PartialEq, Eq, Structural)]
pub enum PCISimpleCommunicationControllerClass {
    SerialController(u8),
    Other(u8),
}

/// Programming interface of a USB host controller.
#[derive(Debug, Clone, Copy, PartialEq, Eq, Structural)]
pub enum PCISerialBusUSB {
    XHCI,
    Other(u8),
}

/// Subclass of a serial bus controller.
#[derive(Debug, Clone, Copy, PartialEq, Eq, Structural)]
pub enum PCISerialBusControllerClass {
    USBController(PCISerialBusUSB),
    Other(u8),
}

/// What kind of device a PCI function is. The classes that no driver of the
/// kernel serves keep their base class, subclass and programming interface.
#[derive(Debug, Clone, Copy, PartialEq, Eq, Structural)]
pub enum PCIDeviceClass {
    MassStorageController(PCIClassMassStorageClass),
    SimpleCommunicationController(PCISimpleCommunicationControllerClass),
    SerialBusController(PCISerialBusControllerClass),
    Other(u8, u8, u8),
}

impl PCIDeviceClass {
    /// The class that a base class, a subclass and a programming interface
    /// stand for.
    pub open spec fn of_parts(base: u8, subclass: u8, interface: u8) -> PCIDeviceClass {
        if base == CLASS_MASS_STORAGE {
            PCIDeviceClass::MassStorageController(
                if subclass == SUBCLASS_SATA {
                    PCIClassMassStorageClass::SATA(
                        if interface == PROG_IF_AHCI {
                            PCIClassMassStroageSATA::AHCI
                        } else {
                            PCIClassMassStroageSATA::Other(interface)
                        },
                    )
                } else {
                    PCIClassMassStorageClass::Other(subclass)
                },
            )
        } else if base == CLASS_SIMPLE_COMMUNICATION {
            PCIDeviceClass::SimpleCommunicationController(
                if subclass == SUBCLASS_SERIAL {
                    PCISimpleCommunicationControllerClass::SerialController(interface)
                } else {
                    PCISimpleCommunicationControllerClass::Other(subclass)
                },
            )
        } else if base == CLASS_SERIAL_BUS {
            PCIDeviceClass::SerialBusController(
                if subclass == SUBCLASS_USB {
                    PCISerialBusControllerClass::USBController(
                        if interface == PROG_IF_XHCI {
                            PCISerialBusUSB::XHCI
                        } else {
                            PCISerialBusUSB::Other(interface)
                        },
                    )
                } else {
                    PCISerialBusControllerClass::Other(subclass)
                },
            )
        } else {
            PCIDeviceClass::Other(base, subclass, interface)
        }
    }

    /// The class that the class code `class_code` stands for. The code holds
    /// the base class in bits 16 to 23, the subclass in bits 8 to 15 and the
    /// programming interface in bits 0 to 7; higher bits mean nothing.
    pub open spec fn of(class_code: u32) -> PCIDeviceClass {
        PCIDeviceClass::of_parts(
            ((class_code / 0x1_0000) % 0x100) as u8,
            ((class_code / 0x100) % 0x100) as u8,
            (class_code % 0x100) as u8,
        )
    }

    /// Decodes a base class, a subclass and a programming interface.
    pub fn from_parts(base: u8, subclass: u8, interface: u8) -> (class: PCIDeviceClass)
        ensures
            class == PCIDeviceClass::of_parts(base, subclass, interface),
    {
        if base == CLASS_MASS_STORAGE {
            PCIDeviceClass::MassStorageController(
                if subclass == SUBCLASS_SATA {
                    PCIClassMassStorageClass::SATA(
                        if interface == PROG_IF_AHCI {
                            PCIClassMassStroageSATA::AHCI
                        } else {
                            PCIClassMassStroageSATA::Other(interface)
                        },
                    )
                } else {
                    PCIClassMassStorageClass::Other(subclass)
                },
            )
        } else if base == CLASS_SIMPLE_COMMUNICATION {
            PCIDeviceClass::SimpleCommunicationController(
                if subclass == SUBCLASS_SERIAL {
                    PCISimpleCommunicationControllerClass::SerialController(interface)
                } else {
                    PCISimpleCommunicationControllerClass::Other(subclass)
                },
            )
        } else if base == CLASS_SERIAL_BUS {
            PCIDeviceClass::SerialBusController(
                if subclass == SUBCLASS_USB {
                    PCISerialBusControllerClass::USBController(
                        if interface == PROG_IF_XHCI {
                            PCISerialBusUSB::XHCI
                        } else {
                            PCISerialBusUSB::Other(interface)
                        },
                    )
                } else {
                    PCISerialBusControllerClass::Other(subclass)
                },
            )
        } else {
            PCIDeviceClass::Other(base, subclass, interface)
        }
    }
}

impl From<u32> for PCIDeviceClass {
    fn from(class_code: u32) -> (class: Self) {
        assert((class_code >> 16) & 0xff == (class_code / 0x1_0000) % 0x100) by (bit_vector);
        assert((class_code >> 8) & 0xff == (class_code / 0x100) % 0x100) by (bit_vector);
        assert(class_code & 0xff == class_code % 0x100) by (bit_vector);
        let base: u8 = ((class_code >> 16) & 0xff) as u8;
        let subclass: u8 = ((class_code >> 8) & 0xff) as u8;
        let interface: u8 = (class_code & 0xff) as u8;
        PCIDeviceClass::from_parts(base, subclass, interface)
    }
}

impl FromSpecImpl<u32> for PCIDeviceClass {
    open spec fn obeys_from_spec() -> bool {
        true
    }

    open spec fn from_spec(class_code: u32) -> PCIDeviceClass {
        PCIDeviceClass::of(class_code)
    }
}

/// Layout of the rest of a function's configuration header: that of an
/// ordinary device, of a bridge to another PCI bus, or of a bridge to a
/// CardBus. Each carries whether the device has several functions.
#[derive(Debug, Clone, Copy, PartialEq, Eq, Structural)]
pub enum HeaderType {
    RegularDevice(bool),
    PCIBridge(bool),
    CardBusBridge(bool),
    Unknown(u8),
}

impl HeaderType {
    /// The header type that the byte `header_type` stands for: bit 7 tells
    /// whether the device has several functions, the other bits name the
    /// layout.
    pub open spec fn of(header_type: u8) -> HeaderType {
        let multi_function = header_type >= 0x80;
        let layout = header_type % 0x80;
        if layout == 0 {
            HeaderType::RegularDevice(multi_function)
        } else if layout == 1 {
            HeaderType::PCIBridge(multi_function)
        } else if layout == 2 {
            HeaderType::CardBusBridge(multi_function)
        } else {
            HeaderType::Unknown(header_type)
        }
    }

    /// Whether the device has several functions.
    pub open spec fn multi_function(self) -> bool {
        match self {
            HeaderType::RegularDevice(multi_function) => multi_function,
            HeaderType::PCIBridge(multi_function) => multi_function,
            HeaderType::CardBusBridge(multi_function) => multi_function,
            HeaderType::Unknown(header_type) => header_type >= 0x80,
        }
    }

    /// Whether the device has several functions.
    pub fn is_multi_function(&self) -> (multi_function: bool)
        ensures
            multi_function == self.multi_function(),
    {
        match self {
            HeaderType::RegularDevice(multi_function) => *multi_function,
            HeaderType::PCIBridge(multi_function) => *multi_function,
            HeaderType::CardBusBridge(multi_function) => *multi_function,
            HeaderType::Unknown(header_type) => *header_type >= 0x80,
        }
    }
}

impl From<u8> for HeaderType {
    fn from(header_type: u8) -> (header: Self) {
        let multi_function = header_type >= 0x80;
        let layout: u8 = header_type % 0x80;
        if layout == 0 {
            HeaderType::RegularDevice(multi_function)
        } else if layout == 1 {
            HeaderType::PCIBridge(multi_function)
        } else if layout == 2 {
            HeaderType::CardBusBridge(multi_function)
        } else {
            HeaderType::Unknown(header_type)
        }
    }
}

impl FromSpecImpl<u8> for HeaderType {
    open spec fn obeys_from_spec() -> bool {
        true
    }

    open spec fn from_spec(header_type: u8) -> HeaderType {
        HeaderType::of(header_type)
    }
}

} // verus!
