//! The transport decoder: frames in, gateway lifecycle and exchange events
//! out.
//!
//! The controller and each gateway exchange request/response pairs. The
//! decoder observes both directions, keeps one outstanding command per
//! gateway, and drops unmatched or malformed traffic, counting it.

use vstd::prelude::*;

use crate::link::{u16_be, valid_gateway_id, Address, Frame, GatewayID, Type};
use crate::pv::{
    packet_header_spec, LongAddress, PacketType, ReceivedPacketHeader, SlotCounter,
    PACKET_HEADER_SIZE,
};
use crate::vecmap::VecMap;

verus! {

/// Relies on `std::str::from_utf8`: whether a byte sequence is valid UTF-8,
/// and the characters it decodes to, are functions of the bytes alone.
pub uninterp spec fn utf8_decode(bytes: Seq<u8>) -> Option<Seq<char>>;

/// Decode UTF-8 bytes into an owned string.
///
/// Relies on `std::str::from_utf8`, which returns `Ok` exactly on valid
/// UTF-8; the decoded characters are named by [`utf8_decode`].
#[verifier::external_body]
pub(crate) fn utf8_to_string(bytes: &[u8]) -> (r: Option<String>)
    ensures
        r is Some <==> utf8_decode(bytes@) is Some,
        r is Some ==> r->0@ == utf8_decode(bytes@)->0,
{
    match std::str::from_utf8(bytes) {
        Ok(s) => Some(s.to_owned()),
        Err(_) => None,
    }
}

/// An event the transport decoder hands upward.
#[derive(Debug, Clone)]
pub enum TransportEvent {
    /// The controller opened an enumeration cycle using this bootstrap
    /// gateway identifier.
    EnumerationStarted { gateway_id: GatewayID },
    /// A gateway answered an identify or enumeration request with its
    /// hardware address.
    GatewayIdentityObserved { gateway_id: GatewayID, address: LongAddress },
    /// A gateway reported its firmware version string.
    GatewayVersionObserved { gateway_id: GatewayID, version: String },
    /// A gateway acknowledged the end of an enumeration cycle.
    EnumerationEnded { gateway_id: GatewayID },
    /// The controller asked a gateway for received traffic; the gateway
    /// captures its slot counter while answering, so the caller should
    /// timestamp this moment.
    GatewaySlotCounterCaptured { gateway_id: GatewayID },
    /// The matching response carried the captured slot counter.
    GatewaySlotCounterObserved { gateway_id: GatewayID, slot_counter: SlotCounter },
    /// A PV network packet arrived through a gateway.
    PacketReceived { gateway_id: GatewayID, header: ReceivedPacketHeader, data: Vec<u8> },
    /// A command sent to a gateway was answered.
    CommandExecuted {
        gateway_id: GatewayID,
        request_type: PacketType,
        request_data: Vec<u8>,
        response_type: PacketType,
        response_data: Vec<u8>,
    },
}

/// The mathematical shape of a transport event.
#[verifier::ext_equal]
pub enum TransportEventView {
    EnumerationStarted { gateway_id: u16 },
    GatewayIdentityObserved { gateway_id: u16, address: LongAddress },
    GatewayVersionObserved { gateway_id: u16, version: Seq<char> },
    EnumerationEnded { gateway_id: u16 },
    GatewaySlotCounterCaptured { gateway_id: u16 },
    GatewaySlotCounterObserved { gateway_id: u16, slot_counter: SlotCounter },
    PacketReceived { gateway_id: u16, header: ReceivedPacketHeader, data: Seq<u8> },
    CommandExecuted {
        gateway_id: u16,
        request_type: PacketType,
        request_data: Seq<u8>,
        response_type: PacketType,
        response_data: Seq<u8>,
    },
}

impl View for TransportEvent {
    type V = TransportEventView;

    open spec fn view(&self) -> TransportEventView {
        match *self {
            TransportEvent::EnumerationStarted { gateway_id } => {
                TransportEventView::EnumerationStarted { gateway_id: gateway_id@ }
            }
            TransportEvent::GatewayIdentityObserved { gateway_id, address } => {
                TransportEventView::GatewayIdentityObserved { gateway_id: gateway_id@, address }
            }
            TransportEvent::GatewayVersionObserved { gateway_id, ref version } => {
                TransportEventView::GatewayVersionObserved {
                    gateway_id: gateway_id@,
                    version: version@,
                }
            }
            TransportEvent::EnumerationEnded { gateway_id } => {
                TransportEventView::EnumerationEnded { gateway_id: gateway_id@ }
            }
            TransportEvent::GatewaySlotCounterCaptured { gateway_id } => {
                TransportEventView::GatewaySlotCounterCaptured { gateway_id: gateway_id@ }
            }
            TransportEvent::GatewaySlotCounterObserved { gateway_id, slot_counter } => {
                TransportEventView::GatewaySlotCounterObserved {
                    gateway_id: gateway_id@,
                    slot_counter,
                }
            }
            TransportEvent::PacketReceived { gateway_id, header, ref data } => {
                TransportEventView::PacketReceived { gateway_id: gateway_id@, header, data: data@ }
            }
            TransportEvent::CommandExecuted {
                gateway_id,
                request_type,
                ref request_data,
                response_type,
                ref response_data,
            } => {
                TransportEventView::CommandExecuted {
                    gateway_id: gateway_id@,
                    request_type,
                    request_data: request_data@,
                    response_type,
                    response_data: response_data@,
                }
            }
        }
    }
}

/// The deep view of a sequence of transport events.
pub open spec fn events_view(s: Seq<TransportEvent>) -> Seq<TransportEventView> {
    s.map_values(|e: TransportEvent| e@)
}

/// A command awaiting its response: the sequence number that will match it,
/// and the request it carried.
#[derive(Debug, Clone)]
pub struct PendingCommand {
    pub sequence_number: u8,
    pub request_type: PacketType,
    pub request_data: Vec<u8>,
}

/// Counters describing dropped transport traffic.
#[derive(Debug, Copy, Clone, Eq, PartialEq, Structural, Default)]
pub struct TransportCounters {
    /// Responses with no matching outstanding request, retransmissions
    /// included.
    pub unmatched_responses: u64,
    /// Frames whose address direction or payload did not fit their type.
    pub parse_failures: u64,
    /// Frames of a type the decoder does not handle.
    pub unhandled_frame_types: u64,
    /// Packets inside a receive response cut off before their declared
    /// length.
    pub packets_too_short: u64,
}

/// A counter increment that sticks at the top instead of wrapping.
pub open spec fn sat_inc(c: u64) -> u64 {
    if c == u64::MAX {
        c
    } else {
        (c + 1) as u64
    }
}

/// Increment a counter, saturating.
pub(crate) fn sat_inc_u64(c: u64) -> (r: u64)
    ensures
        r == sat_inc(c),
{
    if c == u64::MAX {
        c
    } else {
        c + 1
    }
}

/// The packet number a one-byte update stands for: the low byte is replaced,
/// and the high byte advances (wrapping) when the low byte moved backwards.
pub open spec fn packet_number_lo_spec(new_lo: u8, old: u16) -> u16 {
    let old_hi = (old >> 8) as u8;
    let old_lo = (old & 0xff) as u8;
    if new_lo >= old_lo {
        u16_be(old_hi, new_lo)
    } else if old_hi == 255 {
        u16_be(0, new_lo)
    } else {
        u16_be((old_hi + 1) as u8, new_lo)
    }
}

/// The packet number carried by a receive request, if the payload has its
/// exact five-byte shape.
pub open spec fn receive_request_spec(p: Seq<u8>) -> Option<u16> {
    if p.len() == 5 {
        Some(u16_be(p[2], p[3]))
    } else {
        None
    }
}

/// A decoded receive response status.
#[verifier::ext_equal]
pub struct ReceiveResponseView {
    pub packet_number: u16,
    pub slot_counter: SlotCounter,
    pub packets: Seq<u8>,
}

/// How many status bytes a receive response with this bitmask carries after
/// the mask itself.
pub open spec fn rr_expected_len(st: u16) -> int {
    (if st & 0x0001 == 0 {
        1int
    } else {
        0int
    }) + (if st & 0x0002 == 0 {
        1int
    } else {
        0int
    }) + (if st & 0x0004 == 0 {
        2int
    } else {
        0int
    }) + (if st & 0x0008 == 0 {
        2int
    } else {
        0int
    }) + (if st & 0x0010 == 0 {
        2int
    } else {
        1int
    }) + 2
}

/// The offset of the packet number field within a receive response.
pub open spec fn rr_pn_offset(st: u16) -> int {
    2 + (if st & 0x0001 == 0 {
        1int
    } else {
        0int
    }) + (if st & 0x0002 == 0 {
        1int
    } else {
        0int
    }) + (if st & 0x0004 == 0 {
        2int
    } else {
        0int
    }) + (if st & 0x0008 == 0 {
        2int
    } else {
        0int
    })
}

/// The receive response a payload stands for, given the gateway's previous
/// packet number: a leading bitmask says which status fields are present,
/// then the packet number (full or low byte only), the slot counter, and the
/// received packets.
pub open spec fn receive_response_spec(p: Seq<u8>, pn: u16) -> Option<ReceiveResponseView> {
    if p.len() < 2 {
        None
    } else {
        let st = u16_be(p[0], p[1]);
        if st & 0xffe0 != 0x00e0 {
            None
        } else if p.len() - 2 < rr_expected_len(st) {
            None
        } else {
            let o = rr_pn_offset(st);
            let packet_number = if st & 0x0010 == 0 {
                u16_be(p[o], p[o + 1])
            } else {
                packet_number_lo_spec(p[o], pn)
            };
            let so = o + (if st & 0x0010 == 0 {
                2int
            } else {
                1int
            });
            Some(
                ReceiveResponseView {
                    packet_number,
                    slot_counter: SlotCounter(u16_be(p[so], p[so + 1])),
                    packets: p.skip(so + 2),
                },
            )
        }
    }
}

/// The packets inside a receive response tail: each is a seven-byte header
/// and as much data as the header declares. The flag reports a truncated
/// packet, which ends parsing.
pub open spec fn packets_spec(bytes: Seq<u8>) -> (Seq<(ReceivedPacketHeader, Seq<u8>)>, bool)
    decreases bytes.len(),
{
    if bytes.len() == 0 {
        (Seq::empty(), false)
    } else if bytes.len() < PACKET_HEADER_SIZE {
        (Seq::empty(), true)
    } else {
        let hdr = packet_header_spec(bytes, 0);
        if bytes.len() - PACKET_HEADER_SIZE < hdr.data_length {
            (Seq::empty(), true)
        } else {
            let data = bytes.subrange(
                PACKET_HEADER_SIZE as int,
                PACKET_HEADER_SIZE + hdr.data_length,
            );
            let rest = packets_spec(bytes.skip(PACKET_HEADER_SIZE + hdr.data_length));
            (seq![(hdr, data)] + rest.0, rest.1)
        }
    }
}

/// The command header carried at the front of a command request payload.
pub open spec fn command_request_spec(p: Seq<u8>) -> Option<(u8, PacketType, Seq<u8>)> {
    if p.len() >= 5 {
        Some((p[4], PacketType(p[3]), p.skip(5)))
    } else {
        None
    }
}

/// The command header carried at the front of a command response payload.
pub open spec fn command_response_spec(p: Seq<u8>) -> Option<(u8, PacketType, Seq<u8>)> {
    if p.len() >= 5 {
        Some((p[4], PacketType(p[3]), p.skip(5)))
    } else {
        None
    }
}

/// The hardware address in an identify (or enumeration) response of its exact
/// ten-byte shape.
pub open spec fn identify_response_spec(p: Seq<u8>) -> Option<LongAddress> {
    if p.len() == 10 {
        Some(crate::pv::long_address_spec(p, 0))
    } else {
        None
    }
}

/// The bootstrap gateway identifier in an enumeration start request of its
/// exact six-byte shape; the address must point towards a gateway and carry a
/// valid identifier.
pub open spec fn enumeration_start_spec(p: Seq<u8>) -> Option<u16> {
    if p.len() == 6 {
        let a = u16_be(p[4], p[5]);
        if a & 0x8000 == 0 && valid_gateway_id(a & 0x3fff) {
            Some(a & 0x3fff)
        } else {
            None
        }
    } else {
        None
    }
}

/// A receiver which converts a series of frames into a series of transport
/// events, tracking per-gateway packet numbers and outstanding commands.
pub struct Receiver {
    rx_packet_numbers: VecMap<u16>,
    pending_commands: VecMap<PendingCommand>,
    counters: TransportCounters,
}

impl Receiver {
    /// The internal maps are sorted.
    pub closed spec fn wf(&self) -> bool {
        self.rx_packet_numbers.wf() && self.pending_commands.wf()
    }

    /// Instantiate a decoder with no gateways known.
    pub fn new() -> (r: Receiver)
        ensures
            r.wf(),
            r@.packet_numbers == Map::<u64, u16>::empty(),
            r@.pending == Map::<u64, PendingView>::empty(),
            r@.counters == (TrCounters {
                unmatched_responses: 0,
                parse_failures: 0,
                unhandled_frame_types: 0,
                packets_too_short: 0,
            }),
    {
        Receiver {
            rx_packet_numbers: VecMap::new(),
            pending_commands: VecMap::new(),
            counters: TransportCounters {
                unmatched_responses: 0,
                parse_failures: 0,
                unhandled_frame_types: 0,
                packets_too_short: 0,
            },
        }
    }

    /// The counters describing dropped traffic so far.
    pub fn counters(&self) -> (r: TransportCounters)
        ensures
            r == self@.counters.as_exec(),
    {
        self.counters
    }

    /// Collect the packets in a receive response tail, stopping at a
    /// truncated one.
    fn collect_packets(
        bytes: &[u8],
        gateway_id: GatewayID,
        out: &mut Vec<TransportEvent>,
    ) -> (too_short: bool)
        ensures
            too_short == packets_spec(bytes@).1,
            events_view(final(out)@) == events_view(old(out)@) + packets_spec(
                bytes@,
            ).0.map_values(
                |p: (ReceivedPacketHeader, Seq<u8>)|
                    TransportEventView::PacketReceived {
                        gateway_id: gateway_id@,
                        header: p.0,
                        data: p.1,
                    },
            ),
        decreases bytes@.len(),
    {
        if bytes.len() == 0 {
            proof {
                assert(events_view(out@) =~= events_view(out@) + packets_spec(
                    bytes@,
                ).0.map_values(
                    |p: (ReceivedPacketHeader, Seq<u8>)|
                        TransportEventView::PacketReceived {
                            gateway_id: gateway_id@,
                            header: p.0,
                            data: p.1,
                        },
                ));
            }
            return false;
        }
        if bytes.len() < PACKET_HEADER_SIZE {
            proof {
                assert(events_view(out@) =~= events_view(out@) + packets_spec(
                    bytes@,
                ).0.map_values(
                    |p: (ReceivedPacketHeader, Seq<u8>)|
                        TransportEventView::PacketReceived {
                            gateway_id: gateway_id@,
                            header: p.0,
                            data: p.1,
                        },
                ));
            }
            return true;
        }
        let header = ReceivedPacketHeader {
            packet_type: PacketType(bytes[0]),
            node_address: ((bytes[1] as u16) << 8) | (bytes[2] as u16),
            short_address: ((bytes[3] as u16) << 8) | (bytes[4] as u16),
            dsn: bytes[5],
            data_length: bytes[6],
        };
        proof {
            assert(header =~= packet_header_spec(bytes@, 0));
        }
        let dl = header.data_length as usize;
        if bytes.len() - PACKET_HEADER_SIZE < dl {
            proof {
                assert(events_view(out@) =~= events_view(out@) + packets_spec(
                    bytes@,
                ).0.map_values(
                    |p: (ReceivedPacketHeader, Seq<u8>)|
                        TransportEventView::PacketReceived {
                            gateway_id: gateway_id@,
                            header: p.0,
                            data: p.1,
                        },
                ));
            }
            return true;
        }
        let data = vstd::slice::slice_to_vec(
            vstd::slice::slice_subrange(bytes, PACKET_HEADER_SIZE, PACKET_HEADER_SIZE + dl),
        );
        let ghost mid0 = out@;
        out.push(TransportEvent::PacketReceived { gateway_id, header, data });
        let rest = vstd::slice::slice_subrange(bytes, PACKET_HEADER_SIZE + dl, bytes.len());
        let r = Self::collect_packets(rest, gateway_id, out);
        proof {
            let f = |p: (ReceivedPacketHeader, Seq<u8>)|
                TransportEventView::PacketReceived {
                    gateway_id: gateway_id@,
                    header: p.0,
                    data: p.1,
                };
            assert(rest@ =~= bytes@.skip(PACKET_HEADER_SIZE + header.data_length));
            assert(events_view(mid0.push(
                TransportEvent::PacketReceived { gateway_id, header, data },
            )) =~= events_view(mid0) + seq![
                TransportEventView::PacketReceived {
                    gateway_id: gateway_id@,
                    header,
                    data: data@,
                },
            ]);
            assert(packets_spec(bytes@).0 =~= seq![
                (header, bytes@.subrange(
                    PACKET_HEADER_SIZE as int,
                    PACKET_HEADER_SIZE + header.data_length,
                )),
            ] + packets_spec(rest@).0);
            assert(packets_spec(bytes@).0.map_values(f) =~= seq![f(
                (header, bytes@.subrange(
                    PACKET_HEADER_SIZE as int,
                    PACKET_HEADER_SIZE + header.data_length,
                )),
            )] + packets_spec(rest@).0.map_values(f));
            assert(data@ =~= bytes@.subrange(
                PACKET_HEADER_SIZE as int,
                PACKET_HEADER_SIZE + header.data_length,
            ));
            assert(events_view(out@) =~= events_view(old(out)@) + packets_spec(
                bytes@,
            ).0.map_values(f));
        }
        r
    }
}

} // verus!

verus! {

/// The view of an outstanding command.
#[verifier::ext_equal]
pub struct PendingView {
    pub sequence_number: u8,
    pub request_type: PacketType,
    pub request_data: Seq<u8>,
}

/// The view of a pending command record.
pub open spec fn pending_view(pc: PendingCommand) -> PendingView {
    PendingView {
        sequence_number: pc.sequence_number,
        request_type: pc.request_type,
        request_data: pc.request_data@,
    }
}

/// The counters, as mathematical values; they saturate rather than wrap.
#[verifier::ext_equal]
pub struct TrCounters {
    pub unmatched_responses: u64,
    pub parse_failures: u64,
    pub unhandled_frame_types: u64,
    pub packets_too_short: u64,
}

impl TrCounters {
    /// The same counters as the executable struct carries them.
    pub open spec fn as_exec(self) -> TransportCounters {
        TransportCounters {
            unmatched_responses: self.unmatched_responses,
            parse_failures: self.parse_failures,
            unhandled_frame_types: self.unhandled_frame_types,
            packets_too_short: self.packets_too_short,
        }
    }
}

/// The mathematical state of a transport decoder.
#[verifier::ext_equal]
pub struct TrState {
    pub packet_numbers: Map<u64, u16>,
    pub pending: Map<u64, PendingView>,
    pub counters: TrCounters,
}

impl View for Receiver {
    type V = TrState;

    closed spec fn view(&self) -> TrState {
        TrState {
            packet_numbers: self.rx_packet_numbers@,
            pending: self.pending_commands@.map_values(|pc: PendingCommand| pending_view(pc)),
            counters: TrCounters {
                unmatched_responses: self.counters.unmatched_responses,
                parse_failures: self.counters.parse_failures,
                unhandled_frame_types: self.counters.unhandled_frame_types,
                packets_too_short: self.counters.packets_too_short,
            },
        }
    }
}

/// A state with one more frame dropped as malformed.
pub open spec fn tr_fail(s: TrState) -> TrState {
    TrState {
        counters: TrCounters { parse_failures: sat_inc(s.counters.parse_failures), ..s.counters },
        ..s
    }
}

/// The decoder's step for a receive request: the gateway captures its slot
/// counter now, and its packet number is recorded.
pub open spec fn tr_receive_request(s: TrState, f: crate::link::FrameView) -> (
    TrState,
    Seq<TransportEventView>,
) {
    match f.address {
        Address::To(v) => {
            if valid_gateway_id(v) {
                match receive_request_spec(f.payload) {
                    Some(n) => (
                        TrState { packet_numbers: s.packet_numbers.insert(v as u64, n), ..s },
                        seq![TransportEventView::GatewaySlotCounterCaptured { gateway_id: v }],
                    ),
                    None => (tr_fail(s), Seq::empty()),
                }
            } else {
                (tr_fail(s), Seq::empty())
            }
        }
        _ => (tr_fail(s), Seq::empty()),
    }
}

/// The decoder's step for a receive response: the slot counter is observed,
/// the packet number advances, and the carried packets are handed on.
pub open spec fn tr_receive_response(s: TrState, f: crate::link::FrameView) -> (
    TrState,
    Seq<TransportEventView>,
) {
    match f.address {
        Address::From(v) => {
            if valid_gateway_id(v) {
                if !s.packet_numbers.contains_key(v as u64) {
                    (
                        TrState {
                            counters: TrCounters {
                                unmatched_responses: sat_inc(s.counters.unmatched_responses),
                                ..s.counters
                            },
                            ..s
                        },
                        Seq::empty(),
                    )
                } else {
                    match receive_response_spec(f.payload, s.packet_numbers[v as u64]) {
                        Some(rr) => {
                            let parsed = packets_spec(rr.packets);
                            (
                                TrState {
                                    packet_numbers: s.packet_numbers.insert(
                                        v as u64,
                                        rr.packet_number,
                                    ),
                                    counters: TrCounters {
                                        packets_too_short: if parsed.1 {
                                            sat_inc(s.counters.packets_too_short)
                                        } else {
                                            s.counters.packets_too_short
                                        },
                                        ..s.counters
                                    },
                                    ..s
                                },
                                seq![
                                    TransportEventView::GatewaySlotCounterObserved {
                                        gateway_id: v,
                                        slot_counter: rr.slot_counter,
                                    },
                                ] + parsed.0.map_values(
                                    |p: (ReceivedPacketHeader, Seq<u8>)|
                                        TransportEventView::PacketReceived {
                                            gateway_id: v,
                                            header: p.0,
                                            data: p.1,
                                        },
                                ),
                            )
                        }
                        None => (tr_fail(s), Seq::empty()),
                    }
                }
            } else {
                (tr_fail(s), Seq::empty())
            }
        }
        _ => (tr_fail(s), Seq::empty()),
    }
}

/// The decoder's step for a command request: it becomes the gateway's one
/// outstanding command, replacing any earlier one.
pub open spec fn tr_command_request(s: TrState, f: crate::link::FrameView) -> (
    TrState,
    Seq<TransportEventView>,
) {
    match f.address {
        Address::To(v) => {
            if valid_gateway_id(v) {
                match command_request_spec(f.payload) {
                    Some((sn, pt, data)) => (
                        TrState {
                            pending: s.pending.insert(
                                v as u64,
                                PendingView {
                                    sequence_number: sn,
                                    request_type: pt,
                                    request_data: data,
                                },
                            ),
                            ..s
                        },
                        Seq::empty(),
                    ),
                    None => (tr_fail(s), Seq::empty()),
                }
            } else {
                (tr_fail(s), Seq::empty())
            }
        }
        _ => (tr_fail(s), Seq::empty()),
    }
}

/// The decoder's step for a command response: matched against the gateway's
/// outstanding command by sequence number, it completes the exchange;
/// unmatched, it is counted and dropped.
pub open spec fn tr_command_response(s: TrState, f: crate::link::FrameView) -> (
    TrState,
    Seq<TransportEventView>,
) {
    match f.address {
        Address::From(v) => {
            if valid_gateway_id(v) {
                match command_response_spec(f.payload) {
                    Some((sn, pt, data)) => {
                        if s.pending.contains_key(v as u64) && s.pending[v as u64].sequence_number
                            == sn {
                            (
                                TrState { pending: s.pending.remove(v as u64), ..s },
                                seq![
                                    TransportEventView::CommandExecuted {
                                        gateway_id: v,
                                        request_type: s.pending[v as u64].request_type,
                                        request_data: s.pending[v as u64].request_data,
                                        response_type: pt,
                                        response_data: data,
                                    },
                                ],
                            )
                        } else {
                            (
                                TrState {
                                    counters: TrCounters {
                                        unmatched_responses: sat_inc(s.counters.unmatched_responses),
                                        ..s.counters
                                    },
                                    ..s
                                },
                                Seq::empty(),
                            )
                        }
                    }
                    None => (tr_fail(s), Seq::empty()),
                }
            } else {
                (tr_fail(s), Seq::empty())
            }
        }
        _ => (tr_fail(s), Seq::empty()),
    }
}

/// The decoder's step for an enumeration start request: it is addressed to
/// the all-zeroes address and names the bootstrap identifier in its payload.
pub open spec fn tr_enumeration_start(s: TrState, f: crate::link::FrameView) -> (
    TrState,
    Seq<TransportEventView>,
) {
    match f.address {
        Address::To(v) => {
            if v == 0 {
                match enumeration_start_spec(f.payload) {
                    Some(g) => (
                        s,
                        seq![TransportEventView::EnumerationStarted { gateway_id: g }],
                    ),
                    None => (tr_fail(s), Seq::empty()),
                }
            } else {
                (tr_fail(s), Seq::empty())
            }
        }
        _ => (tr_fail(s), Seq::empty()),
    }
}

/// The decoder's step for an identify or enumeration response: the gateway's
/// hardware address is observed.
pub open spec fn tr_identify_response(s: TrState, f: crate::link::FrameView) -> (
    TrState,
    Seq<TransportEventView>,
) {
    match f.address {
        Address::From(v) => {
            if valid_gateway_id(v) {
                match identify_response_spec(f.payload) {
                    Some(a) => (
                        s,
                        seq![
                            TransportEventView::GatewayIdentityObserved {
                                gateway_id: v,
                                address: a,
                            },
                        ],
                    ),
                    None => (tr_fail(s), Seq::empty()),
                }
            } else {
                (tr_fail(s), Seq::empty())
            }
        }
        _ => (tr_fail(s), Seq::empty()),
    }
}

/// The decoder's step for a version response: a non-empty UTF-8 payload is
/// the gateway's version string.
pub open spec fn tr_version_response(s: TrState, f: crate::link::FrameView) -> (
    TrState,
    Seq<TransportEventView>,
) {
    match f.address {
        Address::From(v) => {
            if valid_gateway_id(v) && f.payload.len() > 0 {
                match utf8_decode(f.payload) {
                    Some(chars) => (
                        s,
                        seq![
                            TransportEventView::GatewayVersionObserved {
                                gateway_id: v,
                                version: chars,
                            },
                        ],
                    ),
                    None => (tr_fail(s), Seq::empty()),
                }
            } else {
                (tr_fail(s), Seq::empty())
            }
        }
        _ => (tr_fail(s), Seq::empty()),
    }
}

/// The decoder's step for an enumeration end response.
pub open spec fn tr_enumeration_end(s: TrState, f: crate::link::FrameView) -> (
    TrState,
    Seq<TransportEventView>,
) {
    match f.address {
        Address::From(v) => {
            if valid_gateway_id(v) {
                (s, seq![TransportEventView::EnumerationEnded { gateway_id: v }])
            } else {
                (tr_fail(s), Seq::empty())
            }
        }
        _ => (tr_fail(s), Seq::empty()),
    }
}

/// Is this a frame type the decoder recognizes but takes no action on?
pub open spec fn tr_is_noop_type(t: u16) -> bool {
    t == Type::PING_REQUEST || t == Type::PING_RESPONSE || t == Type::ENUMERATION_START_RESPONSE
        || t == Type::ENUMERATION_REQUEST || t == Type::ASSIGN_GATEWAY_ID_REQUEST
        || t == Type::ASSIGN_GATEWAY_ID_RESPONSE || t == Type::IDENTIFY_REQUEST
        || t == Type::VERSION_REQUEST || t == Type::ENUMERATION_END_REQUEST
}

/// One frame of progress for the transport decoder: the new state and the
/// events emitted, in order.
pub open spec fn tr_step(s: TrState, f: crate::link::FrameView) -> (
    TrState,
    Seq<TransportEventView>,
) {
    let t = f.frame_type;
    if t == Type::RECEIVE_REQUEST {
        tr_receive_request(s, f)
    } else if t == Type::RECEIVE_RESPONSE {
        tr_receive_response(s, f)
    } else if t == Type::COMMAND_REQUEST {
        tr_command_request(s, f)
    } else if t == Type::COMMAND_RESPONSE {
        tr_command_response(s, f)
    } else if t == Type::ENUMERATION_START_REQUEST {
        tr_enumeration_start(s, f)
    } else if t == Type::IDENTIFY_RESPONSE || t == Type::ENUMERATION_RESPONSE {
        tr_identify_response(s, f)
    } else if t == Type::VERSION_RESPONSE {
        tr_version_response(s, f)
    } else if t == Type::ENUMERATION_END_RESPONSE {
        tr_enumeration_end(s, f)
    } else if tr_is_noop_type(t) {
        (s, Seq::empty())
    } else {
        (
            TrState {
                counters: TrCounters {
                    unhandled_frame_types: sat_inc(s.counters.unhandled_frame_types),
                    ..s.counters
                },
                ..s
            },
            Seq::empty(),
        )
    }
}

} // verus!

verus! {

/// The view of a pending command map.
pub open spec fn pending_map(m: Map<u64, PendingCommand>) -> Map<u64, PendingView> {
    m.map_values(|pc: PendingCommand| pending_view(pc))
}

/// Mapping the view over an insert inserts the view.
proof fn lemma_pending_map_insert(m: Map<u64, PendingCommand>, k: u64, pc: PendingCommand)
    ensures
        pending_map(m.insert(k, pc)) == pending_map(m).insert(k, pending_view(pc)),
{
    assert(pending_map(m.insert(k, pc)) =~= pending_map(m).insert(k, pending_view(pc)));
}

/// Mapping the view over a removal removes the key.
proof fn lemma_pending_map_remove(m: Map<u64, PendingCommand>, k: u64)
    ensures
        pending_map(m.remove(k)) == pending_map(m).remove(k),
{
    assert(pending_map(m.remove(k)) =~= pending_map(m).remove(k));
}

impl Receiver {
    /// Parse a receive response payload against the gateway's previous
    /// packet number, yielding the new packet number, the slot counter, and
    /// the packet bytes.
    fn parse_receive_response(p: &[u8], pn: u16) -> (r: Option<(u16, SlotCounter, Vec<u8>)>)
        ensures
            r is Some <==> receive_response_spec(p@, pn) is Some,
            r is Some ==> {
                let rr = receive_response_spec(p@, pn)->0;
                (r->0).0 == rr.packet_number && (r->0).1 == rr.slot_counter && (r->0).2@
                    == rr.packets
            },
    {
        if p.len() < 2 {
            return None;
        }
        let st: u16 = ((p[0] as u16) << 8) | (p[1] as u16);
        if st & 0xffe0 != 0x00e0 {
            return None;
        }
        let mut expected: usize = 2;
        if st & 0x0001 == 0 {
            expected = expected + 1;
        }
        if st & 0x0002 == 0 {
            expected = expected + 1;
        }
        if st & 0x0004 == 0 {
            expected = expected + 2;
        }
        if st & 0x0008 == 0 {
            expected = expected + 2;
        }
        if st & 0x0010 == 0 {
            expected = expected + 2;
        } else {
            expected = expected + 1;
        }
        if p.len() - 2 < expected {
            return None;
        }
        let mut o: usize = 2;
        if st & 0x0001 == 0 {
            o = o + 1;
        }
        if st & 0x0002 == 0 {
            o = o + 1;
        }
        if st & 0x0004 == 0 {
            o = o + 2;
        }
        if st & 0x0008 == 0 {
            o = o + 2;
        }
        proof {
            assert(o == rr_pn_offset(u16_be(p@[0], p@[1])));
            assert(expected == rr_expected_len(u16_be(p@[0], p@[1])) as usize);
        }
        let packet_number: u16;
        let so: usize;
        if st & 0x0010 == 0 {
            packet_number = ((p[o] as u16) << 8) | (p[o + 1] as u16);
            so = o + 2;
        } else {
            let new_lo = p[o];
            let old_hi = (pn >> 8) as u8;
            let old_lo = (pn & 0xff) as u8;
            let new_hi = if new_lo >= old_lo {
                old_hi
            } else {
                old_hi.wrapping_add(1)
            };
            packet_number = ((new_hi as u16) << 8) | (new_lo as u16);
            so = o + 1;
        }
        let slot_counter = SlotCounter(((p[so] as u16) << 8) | (p[so + 1] as u16));
        let packets = vstd::slice::slice_to_vec(
            vstd::slice::slice_subrange(p, so + 2, p.len()),
        );
        proof {
            assert(packets@ =~= receive_response_spec(p@, pn)->0.packets);
        }
        Some((packet_number, slot_counter, packets))
    }

    /// Feed the decoder one frame; the events it completes are appended to
    /// `out`, in order.
    pub fn frame(&mut self, f: &Frame, out: &mut Vec<TransportEvent>)
        requires
            old(self).wf(),
        ensures
            final(self).wf(),
            final(self)@ == tr_step(old(self)@, f@).0,
            events_view(final(out)@) == events_view(old(out)@) + tr_step(old(self)@, f@).1,
    {
        let t = f.frame_type.0;
        if t == Type::RECEIVE_REQUEST {
            self.receive_request(f, out);
        } else if t == Type::RECEIVE_RESPONSE {
            self.receive_response(f, out);
        } else if t == Type::COMMAND_REQUEST {
            self.command_request(f, out);
        } else if t == Type::COMMAND_RESPONSE {
            self.command_response(f, out);
        } else if t == Type::ENUMERATION_START_REQUEST {
            self.enumeration_start_request(f, out);
        } else if t == Type::IDENTIFY_RESPONSE || t == Type::ENUMERATION_RESPONSE {
            self.identify_response(f, out);
        } else if t == Type::VERSION_RESPONSE {
            self.version_response(f, out);
        } else if t == Type::ENUMERATION_END_RESPONSE {
            self.enumeration_end_response(f, out);
        } else if t == Type::PING_REQUEST || t == Type::PING_RESPONSE
            || t == Type::ENUMERATION_START_RESPONSE || t == Type::ENUMERATION_REQUEST
            || t == Type::ASSIGN_GATEWAY_ID_REQUEST || t == Type::ASSIGN_GATEWAY_ID_RESPONSE
            || t == Type::IDENTIFY_REQUEST || t == Type::VERSION_REQUEST
            || t == Type::ENUMERATION_END_REQUEST {
            proof {
                assert(events_view(out@) =~= events_view(out@) + Seq::<
                    TransportEventView,
                >::empty());
            }
        } else {
            self.counters.unhandled_frame_types = sat_inc_u64(self.counters.unhandled_frame_types);
            proof {
                assert(self@ =~= tr_step(old(self)@, f@).0);
                assert(events_view(out@) =~= events_view(out@) + Seq::<
                    TransportEventView,
                >::empty());
            }
        }
    }

    /// Count one frame whose shape did not fit its type.
    fn count_parse_failure(&mut self)
        requires
            old(self).wf(),
        ensures
            final(self).wf(),
            final(self)@ == tr_fail(old(self)@),
    {
        self.counters.parse_failures = sat_inc_u64(self.counters.parse_failures);
        proof {
            assert(self@ =~= tr_fail(old(self)@));
        }
    }

    fn receive_request(&mut self, f: &Frame, out: &mut Vec<TransportEvent>)
        requires
            old(self).wf(),
            f@.frame_type == Type::RECEIVE_REQUEST,
        ensures
            final(self).wf(),
            final(self)@ == tr_receive_request(old(self)@, f@).0,
            events_view(final(out)@) == events_view(old(out)@) + tr_receive_request(
                old(self)@,
                f@,
            ).1,
    {
        let mut plan: Option<(u16, GatewayID, u16)> = None;
        if let Address::To(v) = f.address {
            if let Some(id) = f.address.gateway_id() {
                if f.payload.len() == 5 {
                    let n: u16 = ((f.payload[2] as u16) << 8) | (f.payload[3] as u16);
                    plan = Some((v, id, n));
                }
            }
        }
        match plan {
            Some((v, id, n)) => {
                self.rx_packet_numbers.insert(v as u64, n);
                out.push(TransportEvent::GatewaySlotCounterCaptured { gateway_id: id });
                proof {
                    assert(self@ =~= tr_receive_request(old(self)@, f@).0);
                    assert(events_view(out@) =~= events_view(old(out)@) + tr_receive_request(
                        old(self)@,
                        f@,
                    ).1);
                }
            }
            None => {
                self.count_parse_failure();
                proof {
                    assert(events_view(out@) =~= events_view(old(out)@) + Seq::<
                        TransportEventView,
                    >::empty());
                }
            }
        }
    }

    fn receive_response(&mut self, f: &Frame, out: &mut Vec<TransportEvent>)
        requires
            old(self).wf(),
            f@.frame_type == Type::RECEIVE_RESPONSE,
        ensures
            final(self).wf(),
            final(self)@ == tr_receive_response(old(self)@, f@).0,
            events_view(final(out)@) == events_view(old(out)@) + tr_receive_response(
                old(self)@,
                f@,
            ).1,
    {
        let mut gw: Option<(u16, GatewayID)> = None;
        if let Address::From(v) = f.address {
            if let Some(id) = f.address.gateway_id() {
                gw = Some((v, id));
            }
        }
        match gw {
            Some((v, id)) => {
                let pn = match self.rx_packet_numbers.get(v as u64) {
                    Some(pn) => *pn,
                    None => {
                        self.counters.unmatched_responses = sat_inc_u64(self.counters.unmatched_responses);
                        proof {
                            assert(self@ =~= tr_receive_response(old(self)@, f@).0);
                            assert(events_view(out@) =~= events_view(old(out)@) + Seq::<
                                TransportEventView,
                            >::empty());
                        }
                        return;
                    }
                };
                match Self::parse_receive_response(f.payload.as_slice(), pn) {
                    Some((packet_number, slot_counter, packets)) => {
                        self.rx_packet_numbers.insert(v as u64, packet_number);
                        out.push(
                            TransportEvent::GatewaySlotCounterObserved {
                                gateway_id: id,
                                slot_counter,
                            },
                        );
                        let ghost mid = out@;
                        let too_short = Self::collect_packets(packets.as_slice(), id, out);
                        if too_short {
                            self.counters.packets_too_short = sat_inc_u64(self.counters.packets_too_short);
                        }
                        proof {
                            assert(self@ =~= tr_receive_response(old(self)@, f@).0);
                            let pn0 = old(self)@.packet_numbers[v as u64];
                            let rr = receive_response_spec(f@.payload, pn0)->0;
                            assert(events_view(mid) =~= events_view(old(out)@) + seq![
                                TransportEventView::GatewaySlotCounterObserved {
                                    gateway_id: v,
                                    slot_counter: rr.slot_counter,
                                },
                            ]);
                            assert(events_view(out@) =~= events_view(old(out)@)
                                + tr_receive_response(old(self)@, f@).1);
                        }
                    }
                    None => {
                        self.count_parse_failure();
                        proof {
                            assert(events_view(out@) =~= events_view(old(out)@) + Seq::<
                                TransportEventView,
                            >::empty());
                        }
                    }
                }
            }
            None => {
                self.count_parse_failure();
                proof {
                    assert(events_view(out@) =~= events_view(old(out)@) + Seq::<
                        TransportEventView,
                    >::empty());
                }
            }
        }
    }

    fn command_request(&mut self, f: &Frame, out: &mut Vec<TransportEvent>)
        requires
            old(self).wf(),
            f@.frame_type == Type::COMMAND_REQUEST,
        ensures
            final(self).wf(),
            final(self)@ == tr_command_request(old(self)@, f@).0,
            events_view(final(out)@) == events_view(old(out)@) + tr_command_request(
                old(self)@,
                f@,
            ).1,
    {
        let mut gw: Option<u16> = None;
        if let Address::To(v) = f.address {
            if let Some(_) = f.address.gateway_id() {
                if f.payload.len() >= 5 {
                    gw = Some(v);
                }
            }
        }
        match gw {
            Some(v) => {
                let data = vstd::slice::slice_to_vec(
                    vstd::slice::slice_subrange(f.payload.as_slice(), 5, f.payload.len()),
                );
                let pc = PendingCommand {
                    sequence_number: f.payload[4],
                    request_type: PacketType(f.payload[3]),
                    request_data: data,
                };
                let ghost m0 = self.pending_commands@;
                let ghost pc0 = pc;
                self.pending_commands.insert(v as u64, pc);
                proof {
                    lemma_pending_map_insert(m0, v as u64, pc0);
                    assert(pending_view(pc0).request_data =~= f@.payload.skip(5));
                    assert(self@ =~= tr_command_request(old(self)@, f@).0);
                    assert(events_view(out@) =~= events_view(old(out)@) + Seq::<
                        TransportEventView,
                    >::empty());
                }
            }
            None => {
                self.count_parse_failure();
                proof {
                    assert(events_view(out@) =~= events_view(old(out)@) + Seq::<
                        TransportEventView,
                    >::empty());
                }
            }
        }
    }

    fn command_response(&mut self, f: &Frame, out: &mut Vec<TransportEvent>)
        requires
            old(self).wf(),
            f@.frame_type == Type::COMMAND_RESPONSE,
        ensures
            final(self).wf(),
            final(self)@ == tr_command_response(old(self)@, f@).0,
            events_view(final(out)@) == events_view(old(out)@) + tr_command_response(
                old(self)@,
                f@,
            ).1,
    {
        let mut gw: Option<(u16, GatewayID)> = None;
        if let Address::From(v) = f.address {
            if let Some(id) = f.address.gateway_id() {
                if f.payload.len() >= 5 {
                    gw = Some((v, id));
                }
            }
        }
        match gw {
            Some((v, id)) => {
                let sn = f.payload[4];
                let matched = match self.pending_commands.get(v as u64) {
                    Some(pc) => pc.sequence_number == sn,
                    None => false,
                };
                if matched {
                    let ghost m0 = self.pending_commands@;
                    if let Some(pc) = self.pending_commands.remove(v as u64) {
                        let response_data = vstd::slice::slice_to_vec(
                            vstd::slice::slice_subrange(f.payload.as_slice(), 5, f.payload.len()),
                        );
                        out.push(
                            TransportEvent::CommandExecuted {
                                gateway_id: id,
                                request_type: pc.request_type,
                                request_data: pc.request_data,
                                response_type: PacketType(f.payload[3]),
                                response_data,
                            },
                        );
                        proof {
                            lemma_pending_map_remove(m0, v as u64);
                            assert(self@ =~= tr_command_response(old(self)@, f@).0);
                            assert(events_view(out@) =~= events_view(old(out)@)
                                + tr_command_response(old(self)@, f@).1);
                        }
                    } else {
                        proof {
                            assert(false);
                        }
                    }
                } else {
                    self.counters.unmatched_responses = sat_inc_u64(self.counters.unmatched_responses);
                    proof {
                        assert(self@ =~= tr_command_response(old(self)@, f@).0);
                        assert(events_view(out@) =~= events_view(old(out)@) + Seq::<
                            TransportEventView,
                        >::empty());
                    }
                }
            }
            None => {
                self.count_parse_failure();
                proof {
                    assert(events_view(out@) =~= events_view(old(out)@) + Seq::<
                        TransportEventView,
                    >::empty());
                }
            }
        }
    }

    fn enumeration_start_request(&mut self, f: &Frame, out: &mut Vec<TransportEvent>)
        requires
            old(self).wf(),
            f@.frame_type == Type::ENUMERATION_START_REQUEST,
        ensures
            final(self).wf(),
            final(self)@ == tr_enumeration_start(old(self)@, f@).0,
            events_view(final(out)@) == events_view(old(out)@) + tr_enumeration_start(
                old(self)@,
                f@,
            ).1,
    {
        let mut plan: Option<GatewayID> = None;
        if let Address::To(v) = f.address {
            if v == 0 && f.payload.len() == 6 {
                let a: u16 = ((f.payload[4] as u16) << 8) | (f.payload[5] as u16);
                if a & 0x8000 == 0 {
                    if let Ok(id) = GatewayID::new(a & 0x3fff) {
                        plan = Some(id);
                    }
                }
            }
        }
        match plan {
            Some(id) => {
                out.push(TransportEvent::EnumerationStarted { gateway_id: id });
                proof {
                    assert(events_view(out@) =~= events_view(old(out)@) + tr_enumeration_start(
                        old(self)@,
                        f@,
                    ).1);
                }
            }
            None => {
                self.count_parse_failure();
                proof {
                    assert(events_view(out@) =~= events_view(old(out)@) + Seq::<
                        TransportEventView,
                    >::empty());
                }
            }
        }
    }

    fn identify_response(&mut self, f: &Frame, out: &mut Vec<TransportEvent>)
        requires
            old(self).wf(),
            f@.frame_type == Type::IDENTIFY_RESPONSE || f@.frame_type == Type::ENUMERATION_RESPONSE,
        ensures
            final(self).wf(),
            final(self)@ == tr_identify_response(old(self)@, f@).0,
            events_view(final(out)@) == events_view(old(out)@) + tr_identify_response(
                old(self)@,
                f@,
            ).1,
    {
        let mut plan: Option<GatewayID> = None;
        if let Address::From(_) = f.address {
            if let Some(id) = f.address.gateway_id() {
                if f.payload.len() == 10 {
                    plan = Some(id);
                }
            }
        }
        match plan {
            Some(id) => {
                let address = crate::pv::read_long_address(f.payload.as_slice(), 0);
                out.push(TransportEvent::GatewayIdentityObserved { gateway_id: id, address });
                proof {
                    assert(events_view(out@) =~= events_view(old(out)@) + tr_identify_response(
                        old(self)@,
                        f@,
                    ).1);
                }
            }
            None => {
                self.count_parse_failure();
                proof {
                    assert(events_view(out@) =~= events_view(old(out)@) + Seq::<
                        TransportEventView,
                    >::empty());
                }
            }
        }
    }

    fn version_response(&mut self, f: &Frame, out: &mut Vec<TransportEvent>)
        requires
            old(self).wf(),
            f@.frame_type == Type::VERSION_RESPONSE,
        ensures
            final(self).wf(),
            final(self)@ == tr_version_response(old(self)@, f@).0,
            events_view(final(out)@) == events_view(old(out)@) + tr_version_response(
                old(self)@,
                f@,
            ).1,
    {
        let mut plan: Option<GatewayID> = None;
        if let Address::From(_) = f.address {
            if let Some(id) = f.address.gateway_id() {
                if f.payload.len() > 0 {
                    plan = Some(id);
                }
            }
        }
        let mut done = false;
        match plan {
            Some(id) => {
                if let Some(version) = utf8_to_string(f.payload.as_slice()) {
                    out.push(
                        TransportEvent::GatewayVersionObserved { gateway_id: id, version },
                    );
                    done = true;
                    proof {
                        assert(events_view(out@) =~= events_view(old(out)@) + tr_version_response(
                            old(self)@,
                            f@,
                        ).1);
                    }
                }
            }
            None => {}
        }
        if !done {
            self.count_parse_failure();
            proof {
                assert(events_view(out@) =~= events_view(old(out)@) + Seq::<
                    TransportEventView,
                >::empty());
            }
        }
    }

    fn enumeration_end_response(&mut self, f: &Frame, out: &mut Vec<TransportEvent>)
        requires
            old(self).wf(),
            f@.frame_type == Type::ENUMERATION_END_RESPONSE,
        ensures
            final(self).wf(),
            final(self)@ == tr_enumeration_end(old(self)@, f@).0,
            events_view(final(out)@) == events_view(old(out)@) + tr_enumeration_end(
                old(self)@,
                f@,
            ).1,
    {
        let mut plan: Option<GatewayID> = None;
        if let Address::From(_) = f.address {
            if let Some(id) = f.address.gateway_id() {
                plan = Some(id);
            }
        }
        match plan {
            Some(id) => {
                out.push(TransportEvent::EnumerationEnded { gateway_id: id });
                proof {
                    assert(events_view(out@) =~= events_view(old(out)@) + tr_enumeration_end(
                        old(self)@,
                        f@,
                    ).1);
                }
            }
            None => {
                self.count_parse_failure();
                proof {
                    assert(events_view(out@) =~= events_view(old(out)@) + Seq::<
                        TransportEventView,
                    >::empty());
                }
            }
        }
    }
}

} // verus!

verus! {

/// The transport decoder's state after a run of frames, events aside.
pub open spec fn tr_run(s: TrState, frames: Seq<crate::link::FrameView>) -> TrState
    decreases frames.len(),
{
    if frames.len() == 0 {
        s
    } else {
        tr_run(tr_step(s, frames[0]).0, frames.skip(1))
    }
}

/// Running over a concatenation is running over each part in turn.
pub proof fn lemma_tr_run_append(s: TrState, a: Seq<crate::link::FrameView>, b: Seq<
    crate::link::FrameView,
>)
    ensures
        tr_run(s, a + b) == tr_run(tr_run(s, a), b),
    decreases a.len(),
{
    if a.len() == 0 {
        assert(a + b =~= b);
    } else {
        lemma_tr_run_append(tr_step(s, a[0]).0, a.skip(1), b);
        assert((a + b).skip(1) =~= a.skip(1) + b);
    }
}

/// Running over one more frame is a run then a step.
pub proof fn lemma_tr_run_snoc(s: TrState, frames: Seq<crate::link::FrameView>, i: int)
    requires
        0 <= i < frames.len(),
    ensures
        tr_run(s, frames.take(i + 1)) == tr_step(tr_run(s, frames.take(i)), frames[i]).0,
{
    assert(frames.take(i + 1) =~= frames.take(i) + seq![frames[i]]);
    lemma_tr_run_append(s, frames.take(i), seq![frames[i]]);
    let t = tr_run(s, frames.take(i));
    assert(seq![frames[i]].skip(1) =~= Seq::<crate::link::FrameView>::empty());
    reveal_with_fuel(tr_run, 2);
    assert(tr_run(t, seq![frames[i]]) == tr_step(t, frames[i]).0);
}

} // verus!
