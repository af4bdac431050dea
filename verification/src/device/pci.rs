//! What the kernel reads from the configuration space of PCI devices.
use vstd::prelude::*;
use vstd::std_specs::convert::FromSpecImpl;

use crate::device::pci::class::{HeaderType, PCIDeviceClass};
use crate::device::pci::device::{PCIDevice, PCIDeviceView, PCIDriver};

pub mod class;
pub mod device;
pub mod walk;

verus! {

/// Why an access to the configuration space is refused.
#[derive(Debug, Clone, Copy, PartialEq, Eq, Structural)]
pub enum PCIError {
    SlotNumber,
    FuncNumber,
    RegisterNumber,
    InvalidDevice,
}

/// The kind of a capability in a device's capability list.
#[derive(Debug, Clone, Copy, PartialEq, Eq, Structural)]
pub enum PCICapabilityID {
    PowerManagement,
    AGP,
    VPD,
    SlotID,
    MSI,
    CompactPCIHotSwap,
    PCIX,
    HyperTrasnport,
    Vendor,
    Debug,
    CompactPCICentralResourceCtrl,
    PCIHotPlug,
    PCIBridgeSubsystemVendorID,
    AGP8x,
    SecureDevice,
    PCIExpress,
    MSIX,
    Unknown(u8),
}

impl PCICapabilityID {
    /// The kind that the identifier byte `id` of a capability stands for.
    /// The bytes 0x01 to 0x11 name the known kinds, in their order; every
    /// other byte is kept as it is.
    pub open spec fn of(id: u8) -> PCICapabilityID {
        match id {
            0x1 => PCICapabilityID::PowerManagement,
            0x2 => PCICapabilityID::AGP,
            0x3 => PCICapabilityID::VPD,
            0x4 => PCICapabilityID::SlotID,
            0x5 => PCICapabilityID::MSI,
            0x6 => PCICapabilityID::CompactPCIHotSwap,
            0x7 => PCICapabilityID::PCIX,
            0x8 => PCICapabilityID::HyperTrasnport,
            0x9 => PCICapabilityID::Vendor,
            0xa => PCICapabilityID::Debug,
            0xb => PCICapabilityID::CompactPCICentralResourceCtrl,
            0xc => PCICapabilityID::PCIHotPlug,
            0xd => PCICapabilityID::PCIBridgeSubsystemVendorID,
            0xe => PCICapabilityID::AGP8x,
            0xf => PCICapabilityID::SecureDevice,
            0x10 => PCICapabilityID::PCIExpress,
            0x11 => PCICapabilityID::MSIX,
            _ => PCICapabilityID::Unknown(id),
        }
    }
}

impl From<u8> for PCICapabilityID {
    fn from(id: u8) -> (kind: Self) {
        match id {
            0x1 => PCICapabilityID::PowerManagement,
            0x2 => PCICapabilityID::AGP,
            0x3 => PCICapabilityID::VPD,
            0x4 => PCICapabilityID::SlotID,
            0x5 => PCICapabilityID::MSI,
            0x6 => PCICapabilityID::CompactPCIHotSwap,
            0x7 => PCICapabilityID::PCIX,
            0x8 => PCICapabilityID::HyperTrasnport,
            0x9 => PCICapabilityID::Vendor,
            0xa => PCICapabilityID::Debug,
            0xb => PCICapabilityID::CompactPCICentralResourceCtrl,
            0xc => PCICapabilityID::PCIHotPlug,
            0xd => PCICapabilityID::PCIBridgeSubsystemVendorID,
            0xe => PCICapabilityID::AGP8x,
            0xf => PCICapabilityID::SecureDevice,
            0x10 => PCICapabilityID::PCIExpress,
            0x11 => PCICapabilityID::MSIX,
            _ => PCICapabilityID::Unknown(id),
        }
    }
}

impl FromSpecImpl<u8> for PCICapabilityID {
    open spec fn obeys_from_spec() -> bool {
        true
    }

    open spec fn from_spec(id: u8) -> PCICapabilityID {
        PCICapabilityID::of(id)
    }
}

/// A capability of a device: its kind, and where in the device's
/// configuration space it stands.
#[derive(Debug, Clone, Copy, PartialEq, Eq, Structural)]
pub struct PCICapability {
    pub id: PCICapabilityID,
    /// Offset of the capability in the configuration space, in bytes.
    pub addr: u8,
}

impl PCICapability {
    /// The capability with identifier byte `id` at offset `addr`.
    pub fn new(id: u8, addr: u8) -> (capability: PCICapability)
        ensures
            capability == (PCICapability { id: PCICapabilityID::of(id), addr }),
    {
        PCICapability { id: PCICapabilityID::from(id), addr }
    }
}

/// What the configuration header of a function says of it.
#[derive(Debug)]
pub struct PCIDeviceInfo {
    pub class: PCIDeviceClass,
    pub rev: u8,
    pub vendor_id: u16,
    pub device_id: u16,
    pub header_type: HeaderType,
    pub capabilities: Vec<PCICapability>,
}

impl PCIDeviceInfo {
    /// Decodes the class code and the header type of a function. The list of
    /// capabilities starts empty.
    pub fn new(class_code: u32, rev: u8, vendor_id: u16, device_id: u16, header_type: u8) -> (info:
        PCIDeviceInfo)
        ensures
            info.class == PCIDeviceClass::of(class_code),
            info.rev == rev,
            info.vendor_id == vendor_id,
            info.device_id == device_id,
            info.header_type == HeaderType::of(header_type),
            info.capabilities@.len() == 0,
    {
        let class = PCIDeviceClass::from(class_code);
        PCIDeviceInfo {
            class,
            rev,
            vendor_id,
            device_id,
            header_type: HeaderType::from(header_type),
            capabilities: Vec::new(),
        }
    }
}

/// Number of device slots on a bus.
pub const DEVICES_PER_BUS: u8 = 32;

/// Number of functions that a device can have.
pub const FUNCTIONS_PER_DEVICE: u8 = 8;

/// What the walk over the buses does once a function was found.
#[derive(Debug, Clone, Copy, PartialEq, Eq, Structural)]
pub struct FunctionCheck {
    /// Whether the device has several functions. For function 0 it tells
    /// whether the other functions of the device are looked at.
    pub multi_function: bool,
    /// The bus to walk before the function is recorded: the one behind the
    /// function, if it is a bridge to a bus other than its own.
    pub descend: Option<u8>,
    /// The number that the bus behind the function gets, if the function is
    /// a bridge whose bus had none.
    pub assigned: Option<u8>,
}

/// The state of the walk over the PCI buses: the functions found by the last
/// scan, and the highest bus number in use.
pub struct PCIController {
    devices: Option<Vec<PCIDevice>>,
    max_bus_num: u8,
}

/// The views of `devices`, in order.
pub open spec fn device_views(devices: Seq<PCIDevice>) -> Seq<PCIDeviceView> {
    devices.map_values(|device: PCIDevice| device@)
}

impl PCIController {
    /// The functions found by the scan, in the order in which they were
    /// recorded; `None` before the first scan.
    pub closed spec fn devices(&self) -> Option<Seq<PCIDeviceView>> {
        match self.devices {
            Some(devices) => Some(device_views(devices@)),
            None => None,
        }
    }

    /// The highest bus number in use.
    pub closed spec fn max_bus(&self) -> u8 {
        self.max_bus_num
    }

    /// A controller that has not scanned the buses.
    pub fn new() -> (controller: PCIController)
        ensures
            controller.devices() is None,
            controller.max_bus() == 0,
    {
        PCIController { devices: None, max_bus_num: 0 }
    }

    /// Whether the buses were scanned.
    pub fn is_scanned(&self) -> (scanned: bool)
        ensures
            scanned == self.devices() is Some,
    {
        self.devices.is_some()
    }

    /// The highest bus number in use.
    pub fn max_bus_num(&self) -> (number: u8)
        ensures
            number == self.max_bus(),
    {
        self.max_bus_num
    }

    /// Starts a scan: forgets what an earlier scan found and what bus numbers
    /// it saw.
    pub fn scan_pci_bus(&mut self)
        ensures
            final(self).devices() == Some(Seq::<PCIDeviceView>::empty()),
            final(self).max_bus() == 0,
    {
        self.max_bus_num = 0;
        self.devices = Some(Vec::with_capacity(16));
        proof {
            assert(device_views(self.devices->0@) =~= Seq::<PCIDeviceView>::empty());
        }
    }

    /// Notes that the walk enters bus `bus`.
    pub fn enumerate_bus(&mut self, bus: u8)
        ensures
            final(self).devices() == old(self).devices(),
            final(self).max_bus() == if bus > old(self).max_bus() {
                bus
            } else {
                old(self).max_bus()
            },
    {
        if bus > self.max_bus_num {
            self.max_bus_num = bus;
        }
    }

    /// Decides what to do about the function `found` on bus `bus`. A bridge
    /// whose secondary bus has no number gets the number after the highest
    /// one in use. The bus behind a bridge is walked next unless it is the
    /// bridge's own bus.
    pub fn check_function(&mut self, bus: u8, found: &mut PCIDevice) -> (check: FunctionCheck)
        requires
            old(found)@.is_bridge() && old(found)@.secondary_bus == 0 ==> old(self).max_bus()
                < u8::MAX,
        ensures
            final(self).devices() == old(self).devices(),
            check.multi_function == old(found)@.header_type.multi_function(),
            !old(found)@.is_bridge() ==> {
                &&& check.descend is None
                &&& check.assigned is None
                &&& final(found)@ == old(found)@
                &&& final(self).max_bus() == old(self).max_bus()
            },
            old(found)@.is_bridge() && old(found)@.secondary_bus != 0 ==> {
                &&& check.assigned is None
                &&& final(found)@ == old(found)@
                &&& final(self).max_bus() == old(self).max_bus()
                &&& check.descend == if old(found)@.secondary_bus != bus {
                    Some(old(found)@.secondary_bus)
                } else {
                    None::<u8>
                }
            },
            old(found)@.is_bridge() && old(found)@.secondary_bus == 0 ==> {
                let number = (old(self).max_bus() + 1) as u8;
                &&& check.assigned == Some(number)
                &&& final(found)@ == (PCIDeviceView { secondary_bus: number, ..old(found)@ })
                &&& final(self).max_bus() == number
                &&& check.descend == if number != bus {
                    Some(number)
                } else {
                    None::<u8>
                }
            },
    {
        let multi_function = found.info.header_type.is_multi_function();
        let mut descend: Option<u8> = None;
        let mut assigned: Option<u8> = None;
        if found.is_bridge() {
            let mut number: u8 = found.secondary_bus_number();
            if number == 0 {
                self.max_bus_num = self.max_bus_num + 1;
                number = self.max_bus_num;
                found.set_secondary_bus_number(number);
                assigned = Some(number);
            }
            if number != bus {
                descend = Some(number);
            }
        }
        FunctionCheck { multi_function, descend, assigned }
    }

    /// Records a function that the walk has found and dealt with.
    pub fn record_function(&mut self, found: PCIDevice)
        requires
            old(self).devices() is Some,
        ensures
            final(self).devices() == Some(old(self).devices()->0.push(found@)),
            final(self).max_bus() == old(self).max_bus(),
    {
        let ghost before = self.devices->0@;
        match &mut self.devices {
            Some(devices) => {
                devices.push(found);
                proof {
                    assert(device_views(devices@) =~= device_views(before).push(found@));
                }
            },
            None => {},
        }
    }

    /// The functions found by the scan.
    pub fn enumerate_pci_bus(&self) -> (devices: Vec<PCIDevice>)
        requires
            self.devices() is Some,
        ensures
            Some(device_views(devices@)) == self.devices(),
    {
        let mut copies: Vec<PCIDevice> = Vec::new();
        match &self.devices {
            Some(devices) => {
                let mut index: usize = 0;
                while index < devices.len()
                    invariant
                        index <= devices@.len(),
                        device_views(copies@) == device_views(devices@).take(index as int),
                    decreases devices@.len() - index,
                {
                    let copy = devices[index].duplicate();
                    let ghost before = copies@;
                    copies.push(copy);
                    index = index + 1;
                    proof {
                        assert(device_views(copies@) =~= device_views(before).push(copy@));
                        assert(device_views(copies@) =~= device_views(devices@).take(
                            index as int,
                        ));
                    }
                }
                proof {
                    assert(device_views(devices@).take(index as int) =~= device_views(
                        devices@,
                    ));
                }
            },
            None => {},
        }
        copies
    }

    /// The functions found by the scan that a driver of the kernel serves,
    /// each with its driver, in the order in which they were recorded.
    pub fn initialize_bus_with_devices(&self) -> (served: Vec<(PCIDriver, PCIDevice)>)
        requires
            self.devices() is Some,
        ensures
            served_views(served@) == served_of(self.devices()->0),
    {
        let mut served: Vec<(PCIDriver, PCIDevice)> = Vec::new();
        match &self.devices {
            Some(devices) => {
                let mut index: usize = 0;
                while index < devices.len()
                    invariant
                        index <= devices@.len(),
                        served_views(served@) == served_of(
                            device_views(devices@).take(index as int),
                        ),
                    decreases devices@.len() - index,
                {
                    let ghost seen = device_views(devices@).take(index as int);
                    let ghost more = device_views(devices@).take(index + 1);
                    let ghost before = served@;
                    proof {
                        assert(more.drop_last() =~= seen);
                        assert(more.last() == devices@[index as int]@);
                    }
                    match devices[index].driver() {
                        Some(driver) => {
                            let copy = devices[index].duplicate();
                            served.push((driver, copy));
                            proof {
                                assert(served_views(served@) =~= served_views(before).push(
                                    (driver, copy@),
                                ));
                            }
                        },
                        None => {},
                    }
                    index = index + 1;
                }
                proof {
                    assert(device_views(devices@).take(index as int) =~= device_views(
                        devices@,
                    ));
                }
            },
            None => {},
        }
        served
    }
}

/// The views of `served`, in order.
pub open spec fn served_views(served: Seq<(PCIDriver, PCIDevice)>) -> Seq<
    (PCIDriver, PCIDeviceView),
> {
    served.map_values(|pair: (PCIDriver, PCIDevice)| (pair.0, pair.1@))
}

/// Those of `devices` that a driver serves, each with its driver, in order.
pub open spec fn served_of(devices: Seq<PCIDeviceView>) -> Seq<(PCIDriver, PCIDeviceView)>
    decreases devices.len(),
{
    if devices.len() == 0 {
        Seq::empty()
    } else {
        let before = served_of(devices.drop_last());
        match devices.last().driver() {
            Some(driver) => before.push((driver, devices.last())),
            None => before,
        }
    }
}

} // verus!
