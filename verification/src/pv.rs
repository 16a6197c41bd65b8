//! PV network and application layer value types and payload parsing.
//!
//! Everything at this layer is fixed-width big-endian. Parsing failures are
//! non-fatal: each parser returns `None` (or reports how far it got) and the
//! caller counts and drops.

use vstd::prelude::*;

use crate::link::u16_be;

verus! {

/// A PV network layer node identifier, scoped to one gateway.
pub type NodeID = u16;

/// A PV network layer node address as it stands on the wire; zero is the
/// broadcast address and names no node.
pub type NodeAddress = u16;

/// An 8-byte stable hardware identifier.
#[derive(Debug, Copy, Clone, Eq, PartialEq, Ord, PartialOrd, Hash)]
pub struct LongAddress(pub [u8; 8]);

impl View for LongAddress {
    type V = Seq<u8>;

    open spec fn view(&self) -> Seq<u8> {
        self.0@
    }
}

/// The long address read from eight bytes at an offset.
pub open spec fn long_address_spec(bytes: Seq<u8>, at: int) -> LongAddress
    recommends
        0 <= at,
        at + 8 <= bytes.len(),
{
    LongAddress(
        [
            bytes[at],
            bytes[at + 1],
            bytes[at + 2],
            bytes[at + 3],
            bytes[at + 4],
            bytes[at + 5],
            bytes[at + 6],
            bytes[at + 7],
        ],
    )
}

/// Read a long address from eight bytes of a slice.
pub fn read_long_address(bytes: &[u8], at: usize) -> (r: LongAddress)
    requires
        at + 8 <= bytes@.len(),
    ensures
        r == long_address_spec(bytes@, at as int),
{
    LongAddress(
        [
            bytes[at],
            bytes[at + 1],
            bytes[at + 2],
            bytes[at + 3],
            bytes[at + 4],
            bytes[at + 5],
            bytes[at + 6],
            bytes[at + 7],
        ],
    )
}

/// A slot counter: the protocol time base. The top two bits count epochs, the
/// low fourteen bits count slots within the epoch.
#[derive(Debug, Copy, Clone, Eq, PartialEq, Ord, PartialOrd, Hash, Structural)]
pub struct SlotCounter(pub u16);

/// The number of slots in one epoch.
pub const SLOTS_PER_EPOCH: u16 = 12000;

/// The number of slots in a full counter cycle of four epochs.
pub const SLOTS_PER_CYCLE: u16 = 48000;

/// The epoch component of a counter value.
pub open spec fn slot_epoch(v: u16) -> u16 {
    v >> 14
}

/// The slot component of a counter value.
pub open spec fn slot_number(v: u16) -> u16 {
    v & 0x3fff
}

/// A counter value is valid when its slot component names a real slot.
pub open spec fn slot_valid(v: u16) -> bool {
    slot_number(v) < SLOTS_PER_EPOCH
}

/// The absolute slot a valid counter names within the four-epoch cycle.
pub open spec fn abs_slot(v: u16) -> int {
    slot_epoch(v) * SLOTS_PER_EPOCH + slot_number(v)
}

/// How many slots lie from a past counter forward to this one, wrapping at
/// the cycle; two equal counters are a full cycle apart, never zero.
pub open spec fn slots_since_spec(now: u16, past: u16) -> int {
    if abs_slot(now) > abs_slot(past) {
        abs_slot(now) - abs_slot(past)
    } else {
        SLOTS_PER_CYCLE - abs_slot(past) + abs_slot(now)
    }
}

/// The error carried when a counter's slot component is out of range.
#[derive(Debug, Copy, Clone, Eq, PartialEq, Structural)]
pub struct InvalidSlotNumber(pub u16);

/// The epoch and slot components are bounded.
pub proof fn lemma_slot_bounds(v: u16)
    ensures
        slot_epoch(v) <= 3,
        slot_number(v) <= 0x3fff,
        0 <= abs_slot(v) <= 52383,
        slot_valid(v) ==> abs_slot(v) < 48000,
{
    assert(v >> 14 <= 3) by (bit_vector);
    assert(v & 0x3fff <= 0x3fff) by (bit_vector);
}

impl SlotCounter {
    /// The epoch component, 0 to 3.
    pub fn epoch(&self) -> (r: u16)
        ensures
            r == slot_epoch(self.0),
            r <= 3,
    {
        proof {
            lemma_slot_bounds(self.0);
        }
        self.0 >> 14
    }

    /// The slot component, if it names a real slot.
    pub fn slot_number(&self) -> (r: Result<u16, InvalidSlotNumber>)
        ensures
            r is Ok <==> slot_valid(self.0),
            r is Ok ==> r->Ok_0 == slot_number(self.0),
            r is Err ==> r->Err_0 == (InvalidSlotNumber(self.0 & 0x3fff)),
    {
        let n = self.0 & 0x3fff;
        if n < SLOTS_PER_EPOCH {
            Ok(n)
        } else {
            Err(InvalidSlotNumber(n))
        }
    }

    /// How many slots have passed since a past counter value, both valid,
    /// wrapping at the four-epoch cycle.
    pub fn slots_since(&self, past: &SlotCounter) -> (r: Result<u16, InvalidSlotNumber>)
        ensures
            r is Ok <==> slot_valid(self.0) && slot_valid(past.0),
            r is Ok ==> r->Ok_0 == slots_since_spec(self.0, past.0) && 1 <= r->Ok_0 <= 48000,
            r is Err ==> r->Err_0 == (InvalidSlotNumber(
                if !slot_valid(self.0) {
                    self.0 & 0x3fff
                } else {
                    past.0 & 0x3fff
                },
            )),
    {
        proof {
            lemma_slot_bounds(self.0);
            lemma_slot_bounds(past.0);
        }
        let now_slot = match self.slot_number() {
            Ok(n) => n,
            Err(e) => {
                return Err(e);
            }
        };
        let past_slot = match past.slot_number() {
            Ok(n) => n,
            Err(e) => {
                return Err(e);
            }
        };
        let now_abs: u16 = self.epoch() * SLOTS_PER_EPOCH + now_slot;
        let past_abs: u16 = past.epoch() * SLOTS_PER_EPOCH + past_slot;
        if now_abs > past_abs {
            Ok(now_abs - past_abs)
        } else {
            Ok(SLOTS_PER_CYCLE - past_abs + now_abs)
        }
    }
}

/// A PV application layer packet type.
#[derive(Debug, Copy, Clone, Eq, PartialEq, Hash, Structural)]
pub struct PacketType(pub u8);

impl PacketType {
    pub const STRING_REQUEST: u8 = 0x06;

    pub const STRING_RESPONSE: u8 = 0x07;

    pub const TOPOLOGY_REPORT: u8 = 0x09;

    pub const GATEWAY_RADIO_CONFIGURATION_REQUEST: u8 = 0x0d;

    pub const GATEWAY_RADIO_CONFIGURATION_RESPONSE: u8 = 0x0e;

    pub const PV_CONFIGURATION_REQUEST: u8 = 0x13;

    pub const PV_CONFIGURATION_RESPONSE: u8 = 0x18;

    pub const BROADCAST: u8 = 0x22;

    pub const BROADCAST_ACK: u8 = 0x23;

    pub const NODE_TABLE_REQUEST: u8 = 0x26;

    pub const NODE_TABLE_RESPONSE: u8 = 0x27;

    pub const LONG_NETWORK_STATUS_REQUEST: u8 = 0x2d;

    pub const NETWORK_STATUS_REQUEST: u8 = 0x2e;

    pub const NETWORK_STATUS_RESPONSE: u8 = 0x2f;

    pub const POWER_REPORT: u8 = 0x31;
}

/// The first value of a packed pair of 12-bit fields: the first byte and the
/// high nibble of the second.
pub open spec fn u12_first(b0: u8, b1: u8) -> u16 {
    u16_be(b0, b1) >> 4
}

/// The second value of a packed pair of 12-bit fields: the low nibble of the
/// second byte and the third.
pub open spec fn u12_second(b1: u8, b2: u8) -> u16 {
    u16_be(b1, b2) & 0x0fff
}

/// The header that precedes each packet inside a receive response.
#[derive(Debug, Copy, Clone, Eq, PartialEq, Structural)]
pub struct ReceivedPacketHeader {
    pub packet_type: PacketType,
    pub node_address: NodeAddress,
    pub short_address: u16,
    pub dsn: u8,
    pub data_length: u8,
}

/// The packet header read from seven bytes at an offset.
pub open spec fn packet_header_spec(bytes: Seq<u8>, at: int) -> ReceivedPacketHeader
    recommends
        0 <= at,
        at + 7 <= bytes.len(),
{
    ReceivedPacketHeader {
        packet_type: PacketType(bytes[at]),
        node_address: u16_be(bytes[at + 1], bytes[at + 2]),
        short_address: u16_be(bytes[at + 3], bytes[at + 4]),
        dsn: bytes[at + 5],
        data_length: bytes[at + 6],
    }
}

/// The wire size of a received packet header.
pub const PACKET_HEADER_SIZE: usize = 7;

/// A per-node power report, fields held raw as the wire carries them.
///
/// The two 12-bit pairs pack voltages and current/temperature; scaling to
/// physical units is presentation, not protocol.
#[derive(Debug, Copy, Clone, Eq, PartialEq, Structural)]
pub struct PowerReport {
    pub voltage_in: u16,
    pub voltage_out: u16,
    pub dc_dc_duty_cycle: u8,
    pub current: u16,
    pub temperature: u16,
    pub slot_counter: SlotCounter,
    pub rssi: u8,
}

/// The wire size of a power report payload.
pub const POWER_REPORT_SIZE: usize = 13;

/// The power report a payload of exactly the right size carries.
pub open spec fn power_report_spec(bytes: Seq<u8>) -> Option<PowerReport> {
    if bytes.len() == POWER_REPORT_SIZE {
        Some(
            PowerReport {
                voltage_in: u12_first(bytes[0], bytes[1]),
                voltage_out: u12_second(bytes[1], bytes[2]),
                dc_dc_duty_cycle: bytes[3],
                current: u12_first(bytes[4], bytes[5]),
                temperature: u12_second(bytes[5], bytes[6]),
                slot_counter: SlotCounter(u16_be(bytes[10], bytes[11])),
                rssi: bytes[12],
            },
        )
    } else {
        None
    }
}

/// Parse a power report payload; a payload of the wrong size is dropped.
pub fn parse_power_report(bytes: &[u8]) -> (r: Option<PowerReport>)
    ensures
        r == power_report_spec(bytes@),
{
    if bytes.len() != POWER_REPORT_SIZE {
        return None;
    }
    Some(
        PowerReport {
            voltage_in: (((bytes[0] as u16) << 8) | (bytes[1] as u16)) >> 4,
            voltage_out: (((bytes[1] as u16) << 8) | (bytes[2] as u16)) & 0x0fff,
            dc_dc_duty_cycle: bytes[3],
            current: (((bytes[4] as u16) << 8) | (bytes[5] as u16)) >> 4,
            temperature: (((bytes[5] as u16) << 8) | (bytes[6] as u16)) & 0x0fff,
            slot_counter: SlotCounter(((bytes[10] as u16) << 8) | (bytes[11] as u16)),
            rssi: bytes[12],
        },
    )
}

/// A topology report: one neighbor entry from a node.
#[derive(Debug, Copy, Clone, Eq, PartialEq)]
pub struct TopologyReport {
    pub short_address: u16,
    pub pv_node_id: NodeAddress,
    pub next_hop: NodeAddress,
    pub long_address: LongAddress,
    pub rssi: u8,
}

/// The wire size of a topology report payload.
pub const TOPOLOGY_REPORT_SIZE: usize = 22;

/// The topology report a payload of exactly the right size carries.
pub open spec fn topology_report_spec(bytes: Seq<u8>) -> Option<TopologyReport> {
    if bytes.len() == TOPOLOGY_REPORT_SIZE {
        Some(
            TopologyReport {
                short_address: u16_be(bytes[0], bytes[1]),
                pv_node_id: u16_be(bytes[2], bytes[3]),
                next_hop: u16_be(bytes[4], bytes[5]),
                long_address: long_address_spec(bytes, 8),
                rssi: bytes[16],
            },
        )
    } else {
        None
    }
}

/// Parse a topology report payload; a payload of the wrong size is dropped.
pub fn parse_topology_report(bytes: &[u8]) -> (r: Option<TopologyReport>)
    ensures
        r == topology_report_spec(bytes@),
{
    if bytes.len() != TOPOLOGY_REPORT_SIZE {
        return None;
    }
    Some(
        TopologyReport {
            short_address: ((bytes[0] as u16) << 8) | (bytes[1] as u16),
            pv_node_id: ((bytes[2] as u16) << 8) | (bytes[3] as u16),
            next_hop: ((bytes[4] as u16) << 8) | (bytes[5] as u16),
            long_address: read_long_address(bytes, 8),
            rssi: bytes[16],
        },
    )
}

/// One entry of a node table page: a node and its hardware address.
#[derive(Debug, Copy, Clone, Eq, PartialEq)]
pub struct NodeTableResponseEntry {
    pub long_address: LongAddress,
    pub node_id: NodeAddress,
}

/// The wire size of one node table entry.
pub const NODE_TABLE_ENTRY_SIZE: usize = 10;

/// The entry read from ten bytes at an offset.
pub open spec fn node_table_entry_spec(bytes: Seq<u8>, at: int) -> NodeTableResponseEntry
    recommends
        0 <= at,
        at + 10 <= bytes.len(),
{
    NodeTableResponseEntry {
        long_address: long_address_spec(bytes, at),
        node_id: u16_be(bytes[at + 8], bytes[at + 9]),
    }
}

/// The entries of a node table response: a big-endian total count, then whole
/// ten-byte entries. The page is valid only if its byte length matches its
/// entry count exactly.
pub open spec fn node_table_entries_spec(bytes: Seq<u8>) -> Option<Seq<NodeTableResponseEntry>> {
    if bytes.len() >= 2 && (bytes.len() - 2) % 10 == 0 && (bytes.len() - 2) / 10 == u16_be(
        bytes[0],
        bytes[1],
    ) {
        Some(
            Seq::new(
                ((bytes.len() - 2) / 10) as nat,
                |i: int| node_table_entry_spec(bytes, 2 + 10 * i),
            ),
        )
    } else {
        None
    }
}

/// Parse a node table response into its entries; a short, ragged or
/// miscounted page is dropped.
pub fn parse_node_table_entries(bytes: &[u8]) -> (r: Option<Vec<NodeTableResponseEntry>>)
    ensures
        r is Some <==> node_table_entries_spec(bytes@) is Some,
        r is Some ==> r->0@ == node_table_entries_spec(bytes@)->0,
{
    if bytes.len() < 2 {
        return None;
    }
    let count = ((bytes[0] as u16) << 8) | (bytes[1] as u16);
    let body = bytes.len() - 2;
    if body % 10 != 0 || body / 10 != count as usize {
        return None;
    }
    let n = body / 10;
    let blen = bytes.len();
    let mut entries: Vec<NodeTableResponseEntry> = Vec::new();
    let mut i: usize = 0;
    while i < n
        invariant
            i <= n,
            n == (bytes@.len() - 2) / 10,
            bytes@.len() >= 2 + 10 * n,
            blen == bytes@.len(),
            entries@ =~= Seq::new(
                i as nat,
                |j: int| node_table_entry_spec(bytes@, 2 + 10 * j),
            ),
        decreases n - i,
    {
        let at = 2 + 10 * i;
        let entry = NodeTableResponseEntry {
            long_address: read_long_address(bytes, at),
            node_id: ((bytes[at + 8] as u16) << 8) | (bytes[at + 9] as u16),
        };
        entries.push(entry);
        proof {
            assert(entries@ =~= Seq::new(
                (i + 1) as nat,
                |j: int| node_table_entry_spec(bytes@, 2 + 10 * j),
            ));
        }
        i = i + 1;
    }
    proof {
        assert(node_table_entries_spec(bytes@) is Some);
    }
    Some(entries)
}

} // verus!
