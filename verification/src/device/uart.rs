//! The registry of serial ports: every port that a driver has brought up is
//! known by a number.
use vstd::prelude::*;

verus! {

/// A serial port as its driver offers it.
pub trait UART {
    fn set_baudrate(&mut self, baud: u32);

    fn write_byte(&mut self, byte: u8);

    fn read_byte(&mut self) -> Option<u8>;

    fn has_data(&self) -> bool;
}

/// The number of the early serial port, which serves until a driver
/// registers the first port.
pub const EARLY_PORT_ID: u64 = 0;

/// The table of the registry: a `hashbrown::HashMap` from the number of a
/// port to the handle by which its driver is found.
#[verifier::external_body]
pub struct PortTable {
    map: hashbrown::HashMap<u64, u64>,
}

/// What a table holds: the handle of each port, by the port's number.
pub uninterp spec fn table_entries(table: PortTable) -> Map<u64, u64>;

/// The entries of a table without ports.
pub open spec fn no_entries() -> Map<u64, u64> {
    Map::empty()
}

/// `hashbrown::HashMap::new` makes a map without entries.
#[verifier::external_body]
fn table_new() -> (table: PortTable)
    ensures
        table_entries(table) == no_entries(),
{
    PortTable { map: hashbrown::HashMap::new() }
}

/// `hashbrown::HashMap::clear` removes every entry.
#[verifier::external_body]
fn table_clear(table: &mut PortTable)
    ensures
        table_entries(*final(table)) == no_entries(),
{
    table.map.clear();
}

/// `hashbrown::HashMap::insert` makes `id` stand for `handle`, whatever it
/// stood for, leaves the other entries alone, and returns what `id` stood
/// for before.
#[verifier::external_body]
fn table_insert(table: &mut PortTable, id: u64, handle: u64) -> (previous: Option<u64>)
    ensures
        table_entries(*final(table)) == table_entries(*old(table)).insert(id, handle),
        previous == if table_entries(*old(table)).contains_key(id) {
            Some(table_entries(*old(table))[id])
        } else {
            None::<u64>
        },
{
    table.map.insert(id, handle)
}

/// `hashbrown::HashMap::get` returns what `id` stands for, if anything.
#[verifier::external_body]
fn table_get(table: &PortTable, id: u64) -> (handle: Option<u64>)
    ensures
        handle == if table_entries(*table).contains_key(id) {
            Some(table_entries(*table)[id])
        } else {
            None::<u64>
        },
{
    table.map.get(&id).copied()
}

/// The serial ports of the machine. A port is entered as the handle by which
/// its driver is found, and gets a number.
pub struct SerialPorts {
    next_id: u64,
    ports: PortTable,
}

impl SerialPorts {
    /// The handle of each registered port, by the port's number.
    pub closed spec fn ports(&self) -> Map<u64, u64> {
        table_entries(self.ports)
    }

    /// The number that the next port gets.
    pub closed spec fn next_id(&self) -> u64 {
        self.next_id
    }

    /// A registry without ports. The first port will be number 1.
    pub fn new() -> (registry: SerialPorts)
        ensures
            registry.ports() == no_entries(),
            registry.next_id() == 1,
    {
        SerialPorts { next_id: 1, ports: table_new() }
    }

    /// Registers a port and returns its number. Numbers are given in rising
    /// order, and start again at 0 after the highest one. The first port to
    /// be registered replaces the early serial port: the registry is emptied
    /// before it is entered.
    pub fn register_port(&mut self, port: u64) -> (id: u64)
        ensures
            id == old(self).next_id(),
            final(self).next_id() == if id == u64::MAX {
                0
            } else {
                id + 1
            },
            final(self).ports() == if id == 1 {
                no_entries().insert(id, port)
            } else {
                old(self).ports().insert(id, port)
            },
    {
        let id = self.next_id;
        self.next_id = id.wrapping_add(1);
        if id == 1 {
            table_clear(&mut self.ports);
        }
        table_insert(&mut self.ports, id, port);
        id
    }

    /// Enters the early serial port under `EARLY_PORT_ID` if the port at
    /// `port` answered the probe, which `verified` tells, and returns
    /// `verified`.
    pub fn register_early_serial(&mut self, port: u16, verified: bool) -> (registered: bool)
        ensures
            registered == verified,
            final(self).next_id() == old(self).next_id(),
            final(self).ports() == if verified {
                old(self).ports().insert(EARLY_PORT_ID, port as u64)
            } else {
                old(self).ports()
            },
    {
        if verified {
            table_insert(&mut self.ports, EARLY_PORT_ID, port as u64);
            return true;
        }
        false
    }

    /// The handle of the port with number `id`, if there is such a port.
    pub fn port(&self, id: u64) -> (handle: Option<u64>)
        ensures
            handle == if self.ports().contains_key(id) {
                Some(self.ports()[id])
            } else {
                None::<u64>
            },
    {
        table_get(&self.ports, id)
    }
}

} // verus!
