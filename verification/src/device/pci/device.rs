//! A function of a PCI device as the kernel knows it after reading its
//! configuration header.
use vstd::prelude::*;
use crate::device::pci::class::{
    HeaderType, PCIClassMassStorageClass, PCIClassMassStroageSATA, PCIDeviceClass,
    PCISerialBusControllerClass, PCISerialBusUSB, PCISimpleCommunicationControllerClass,
};
use crate::device::pci::{PCICapability, PCIDeviceInfo};

verus! {

/// The vendor identifier that an empty slot answers with.
pub const NO_VENDOR: u16 = 0xFFFF;

/// The configuration register that holds the vendor and device identifiers.
pub const REGISTER_ID: u8 = 0x00;

/// The configuration register that holds the revision and the class code.
pub const REGISTER_CLASS: u8 = 0x08;

/// The configuration register that holds the header type.
pub const REGISTER_HEADER: u8 = 0x0C;

/// The configuration register of a bridge that holds its bus numbers.
pub const REGISTER_BUSES: u8 = 0x18;

/// The word that selects a configuration register: the enable bit 31, the
/// bus in bits 16 to 23, the device in bits 11 to 15, the function in bits 8
/// to 10, and the register's offset, without its two lowest bits, below.
pub open spec fn config_address_spec(bus: u8, device: u8, func: u8, register: u8) -> int {
    0x8000_0000 + bus * 0x1_0000 + device * 0x800 + func * 0x100 + (register - register % 4)
}

/// Encodes the word that selects the configuration register at offset
/// `register` of a function.
pub fn config_address(bus: u8, device: u8, func: u8, register: u8) -> (address: u32)
    requires
        device < 32,
        func < 8,
    ensures
        address == config_address_spec(bus, device, func, register),
{
    let b: u32 = bus as u32;
    let d: u32 = device as u32;
    let f: u32 = func as u32;
    let r: u32 = register as u32;
    assert((0x8000_0000u32 | b << 16 | d << 11 | f << 8 | (r & 0xFC)) == 0x8000_0000 + b * 0x1_0000
        + d * 0x800 + f * 0x100 + (r - r % 4)) by (bit_vector)
        requires
            b < 0x100,
            d < 32,
            f < 8,
            r < 0x100,
    ;
    0x8000_0000u32 | b << 16 | d << 11 | f << 8 | (r & 0xFC)
}

/// The secondary bus number in the bus numbers register: its second byte.
pub fn secondary_bus_of(buses: u32) -> (number: u8)
    ensures
        number == (buses / 0x100) % 0x100,
{
    assert((buses >> 8) & 0xFF == (buses / 0x100) % 0x100) by (bit_vector);
    ((buses >> 8) & 0xFF) as u8
}

/// The bus numbers register with `number` as the secondary bus: bits 8 to 15
/// are replaced, the others kept.
pub fn with_secondary_bus(buses: u32, number: u8) -> (updated: u32)
    ensures
        updated == buses - ((buses / 0x100) % 0x100) * 0x100 + number * 0x100,
{
    let n: u32 = number as u32;
    assert(((buses & !0xFF00u32) | n << 8) == buses - ((buses / 0x100) % 0x100) * 0x100 + n * 0x100)
        by (bit_vector)
        requires
            n < 0x100,
    ;
    (buses & !0xFF00u32) | n << 8
}

/// The driver that serves a device.
#[derive(Debug, Clone, Copy, PartialEq, Eq, Structural)]
pub enum PCIDriver {
    /// The AHCI driver for serial ATA controllers.
    AHCI,
    /// The driver for 16650 serial ports.
    Serial16650,
    /// The XHCI driver for USB host controllers.
    XHCI,
}

/// A function of a PCI device: where it sits, what its configuration header
/// says of it, and, for a bridge, the number of the bus behind it.
#[derive(Debug)]
pub struct PCIDevice {
    pub bus: u8,
    pub device: u8,
    pub func: u8,
    pub info: PCIDeviceInfo,
    /// For a bridge, the number of the bus behind it; 0 while it has none.
    pub secondary_bus: u8,
}

/// A function of a PCI device as the contracts see it.
pub struct PCIDeviceView {
    pub bus: u8,
    pub device: u8,
    pub func: u8,
    pub class: PCIDeviceClass,
    pub rev: u8,
    pub vendor_id: u16,
    pub device_id: u16,
    pub header_type: HeaderType,
    pub capabilities: Seq<PCICapability>,
    pub secondary_bus: u8,
}

impl PCIDeviceView {
    /// Whether the function is a bridge to another PCI bus.
    pub open spec fn is_bridge(self) -> bool {
        self.header_type is PCIBridge
    }

    /// The driver that serves the function, if the kernel has one for it:
    /// AHCI controllers, serial port controllers and XHCI controllers have.
    pub open spec fn driver(self) -> Option<PCIDriver> {
        match self.class {
            PCIDeviceClass::MassStorageController(
                PCIClassMassStorageClass::SATA(PCIClassMassStroageSATA::AHCI),
            ) => Some(PCIDriver::AHCI),
            PCIDeviceClass::SimpleCommunicationController(
                PCISimpleCommunicationControllerClass::SerialController(_),
            ) => Some(PCIDriver::Serial16650),
            PCIDeviceClass::SerialBusController(
                PCISerialBusControllerClass::USBController(PCISerialBusUSB::XHCI),
            ) => Some(PCIDriver::XHCI),
            _ => None,
        }
    }
}

impl View for PCIDevice {
    type V = PCIDeviceView;

    open spec fn view(&self) -> PCIDeviceView {
        PCIDeviceView {
            bus: self.bus,
            device: self.device,
            func: self.func,
            class: self.info.class,
            rev: self.info.rev,
            vendor_id: self.info.vendor_id,
            device_id: self.info.device_id,
            header_type: self.info.header_type,
            capabilities: self.info.capabilities@,
            secondary_bus: self.secondary_bus,
        }
    }
}

impl PCIDevice {
    /// The function at `bus`, `device`, `func` whose configuration header
    /// holds `info` and, in the place of a bridge's secondary bus number,
    /// `secondary_bus`. A slot whose vendor identifier is `NO_VENDOR` is
    /// empty and gives no function.
    pub fn new(bus: u8, device: u8, func: u8, info: PCIDeviceInfo, secondary_bus: u8) -> (found:
        Option<PCIDevice>)
        ensures
            found is Some <==> info.vendor_id != NO_VENDOR,
            found is Some ==> found->0@ == (PCIDeviceView {
                bus,
                device,
                func,
                class: info.class,
                rev: info.rev,
                vendor_id: info.vendor_id,
                device_id: info.device_id,
                header_type: info.header_type,
                capabilities: info.capabilities@,
                secondary_bus,
            }),
    {
        if info.vendor_id == NO_VENDOR {
            None
        } else {
            Some(PCIDevice { bus, device, func, info, secondary_bus })
        }
    }

    /// Reads a function from four words of its configuration space: `id`
    /// holds the vendor identifier in its low half and the device identifier
    /// in its high half; `class` the revision in its lowest byte and the
    /// class code above; `header` the header type in its third byte; `buses`
    /// the secondary bus number in its second byte. The secondary bus number
    /// counts for a bridge only, and is 0 for every other function. An empty
    /// slot gives no function.
    pub fn from_config(bus: u8, device: u8, func: u8, id: u32, class: u32, header: u32, buses: u32)
        -> (found: Option<PCIDevice>)
        ensures
            found is Some <==> id % 0x1_0000 != NO_VENDOR,
            found is Some ==> found->0@ == (PCIDeviceView {
                bus,
                device,
                func,
                class: PCIDeviceClass::of(class / 0x100),
                rev: (class % 0x100) as u8,
                vendor_id: (id % 0x1_0000) as u16,
                device_id: (id / 0x1_0000) as u16,
                header_type: HeaderType::of(((header / 0x1_0000) % 0x100) as u8),
                capabilities: Seq::<PCICapability>::empty(),
                secondary_bus: if HeaderType::of(((header / 0x1_0000) % 0x100) as u8) is PCIBridge {
                    ((buses / 0x100) % 0x100) as u8
                } else {
                    0u8
                },
            }),
    {
        assert(id & 0xFFFF == id % 0x1_0000) by (bit_vector);
        assert(id >> 16 == id / 0x1_0000) by (bit_vector);
        assert(id >> 16 < 0x1_0000) by (bit_vector);
        assert(class >> 8 == class / 0x100) by (bit_vector);
        assert(class & 0xFF == class % 0x100) by (bit_vector);
        assert((header >> 16) & 0xFF == (header / 0x1_0000) % 0x100) by (bit_vector);
        let vendor_id: u16 = (id & 0xFFFF) as u16;
        let device_id: u16 = (id >> 16) as u16;
        let rev: u8 = (class & 0xFF) as u8;
        let header_type: u8 = ((header >> 16) & 0xFF) as u8;
        let info = PCIDeviceInfo::new(class >> 8, rev, vendor_id, device_id, header_type);
        let secondary_bus: u8 = match info.header_type {
            HeaderType::PCIBridge(_) => secondary_bus_of(buses),
            _ => 0,
        };
        let found = PCIDevice::new(bus, device, func, info, secondary_bus);
        proof {
            if found is Some {
                assert(found->0@.capabilities =~= Seq::<PCICapability>::empty());
            }
        }
        found
    }

    /// The number of the bus behind a bridge; 0 while the bridge has none.
    pub fn secondary_bus_number(&self) -> (number: u8)
        ensures
            number == self@.secondary_bus,
    {
        self.secondary_bus
    }

    /// Notes that the bus behind the bridge has got the number `number`.
    pub fn set_secondary_bus_number(&mut self, number: u8)
        ensures
            final(self)@ == (PCIDeviceView { secondary_bus: number, ..old(self)@ }),
    {
        self.secondary_bus = number;
    }

    /// Whether the function is a bridge to another PCI bus.
    pub fn is_bridge(&self) -> (bridge: bool)
        ensures
            bridge == self@.is_bridge(),
    {
        match self.info.header_type {
            HeaderType::PCIBridge(_) => true,
            _ => false,
        }
    }

    /// The driver that serves the function, if the kernel has one for it.
    pub fn driver(&self) -> (driver: Option<PCIDriver>)
        ensures
            driver == self@.driver(),
    {
        match self.info.class {
            PCIDeviceClass::MassStorageController(mass_storage) => match mass_storage {
                PCIClassMassStorageClass::SATA(sata) => match sata {
                    PCIClassMassStroageSATA::AHCI => Some(PCIDriver::AHCI),
                    _ => None,
                },
                _ => None,
            },
            PCIDeviceClass::SimpleCommunicationController(comm) => match comm {
                PCISimpleCommunicationControllerClass::SerialController(_) => Some(
                    PCIDriver::Serial16650,
                ),
                _ => None,
            },
            PCIDeviceClass::SerialBusController(serial_bus) => match serial_bus {
                PCISerialBusControllerClass::USBController(usb) => match usb {
                    PCISerialBusUSB::XHCI => Some(PCIDriver::XHCI),
                    _ => None,
                },
                _ => None,
            },
            _ => None,
        }
    }

    /// A copy of the function.
    pub fn duplicate(&self) -> (copy: PCIDevice)
        ensures
            copy@ == self@,
    {
        let mut capabilities: Vec<PCICapability> = Vec::new();
        let mut index: usize = 0;
        while index < self.info.capabilities.len()
            invariant
                index <= self.info.capabilities@.len(),
                capabilities@ == self.info.capabilities@.take(index as int),
            decreases self.info.capabilities@.len() - index,
        {
            capabilities.push(self.info.capabilities[index]);
            index = index + 1;
            proof {
                assert(capabilities@ =~= self.info.capabilities@.take(index as int));
            }
        }
        proof {
            assert(self.info.capabilities@.take(index as int) =~= self.info.capabilities@);
        }
        PCIDevice {
            bus: self.bus,
            device: self.device,
            func: self.func,
            info: PCIDeviceInfo {
                class: self.info.class,
                rev: self.info.rev,
                vendor_id: self.info.vendor_id,
                device_id: self.info.device_id,
                header_type: self.info.header_type,
                capabilities,
            },
            secondary_bus: self.secondary_bus,
        }
    }
}

} // verus!
