//! Transport and application decoder tests.

use tapwatch::application::{Application, ApplicationEvent};
use tapwatch::link::{Address, Frame, Type};
use tapwatch::pv::{parse_node_table_entries, parse_power_report, parse_topology_report, SlotCounter};
use tapwatch::transport::{Receiver, TransportEvent};

fn feed(rx: &mut Receiver, frame: Frame) -> Vec<TransportEvent> {
    let mut events = Vec::new();
    rx.frame(&frame, &mut events);
    events
}

#[test]
fn receive_request_captures_slot_counter() {
    let mut rx = Receiver::new();
    let events = feed(
        &mut rx,
        Frame {
            address: Address::To(0x1201),
            frame_type: Type(Type::RECEIVE_REQUEST),
            payload: b"\x00\x01\x18\x83\x04".to_vec(),
        },
    );
    assert_eq!(events.len(), 1);
    match &events[0] {
        TransportEvent::GatewaySlotCounterCaptured { gateway_id } => {
            assert_eq!(gateway_id.get(), 0x1201);
        }
        other => panic!("unexpected event: {:?}", other),
    }
}

#[test]
fn receive_response_observes_slot_counter_and_packets() {
    let mut rx = Receiver::new();
    // Establish the packet number 0x40FB for this gateway.
    feed(
        &mut rx,
        Frame {
            address: Address::To(0x1201),
            frame_type: Type(Type::RECEIVE_REQUEST),
            payload: b"\x00\x01\x40\xFB\x04".to_vec(),
        },
    );
    // A full status: rx buffers, tx buffers, both unknown words, a full
    // packet number, the slot counter, then a truncated packet tail.
    let events = feed(
        &mut rx,
        Frame {
            address: Address::From(0x1201),
            frame_type: Type(Type::RECEIVE_RESPONSE),
            payload: vec![
                0x00, 0xE0, 0x04, 0x0E, 0x00, 0x01, 0x02, 0x00, 0x40, 0xFB, 0x21, 0x1B, 1, 2, 3,
            ],
        },
    );
    assert_eq!(events.len(), 1);
    match &events[0] {
        TransportEvent::GatewaySlotCounterObserved {
            gateway_id,
            slot_counter,
        } => {
            assert_eq!(gateway_id.get(), 0x1201);
            assert_eq!(*slot_counter, SlotCounter(0x211B));
        }
        other => panic!("unexpected event: {:?}", other),
    }
    assert_eq!(rx.counters().packets_too_short, 1);
}

#[test]
fn receive_response_short_packet_number() {
    let mut rx = Receiver::new();
    feed(
        &mut rx,
        Frame {
            address: Address::To(0x1201),
            frame_type: Type(Type::RECEIVE_REQUEST),
            payload: b"\x00\x01\x40\xFB\x04".to_vec(),
        },
    );
    // Bitmask 0x00FE: only rx buffers present, one-byte packet number 0xFF,
    // which extends against 0x40FB to 0x40FF.
    let events = feed(
        &mut rx,
        Frame {
            address: Address::From(0x1201),
            frame_type: Type(Type::RECEIVE_RESPONSE),
            payload: vec![0x00, 0xFE, 0x02, 0xFF, 0x21, 0x22, 4],
        },
    );
    assert_eq!(events.len(), 1);
    // A following response with a low byte below the last one wraps the high
    // byte: 0x40FF then 0x01 gives 0x4101.
    let events = feed(
        &mut rx,
        Frame {
            address: Address::From(0x1201),
            frame_type: Type(Type::RECEIVE_RESPONSE),
            payload: vec![0x00, 0xEE, 0x00, 0x41, 0x01, 0x21, 0x27],
        },
    );
    assert_eq!(events.len(), 1);
    assert_eq!(rx.counters().parse_failures, 0);
}

#[test]
fn response_from_unknown_gateway_dropped() {
    let mut rx = Receiver::new();
    let events = feed(
        &mut rx,
        Frame {
            address: Address::From(0x1202),
            frame_type: Type(Type::RECEIVE_RESPONSE),
            payload: vec![0x00, 0xFF, 0x03, 0x21, 0x31],
        },
    );
    assert!(events.is_empty());
    assert_eq!(rx.counters().unmatched_responses, 1);
}

#[test]
fn command_exchange_pairs_request_and_response() {
    let mut rx = Receiver::new();
    // unknown[3], packet type 0x26 (node table request), sequence 7, then
    // the request data.
    let events = feed(
        &mut rx,
        Frame {
            address: Address::To(0x1201),
            frame_type: Type(Type::COMMAND_REQUEST),
            payload: vec![0, 0, 0, 0x26, 7, 0x00, 0x02],
        },
    );
    assert!(events.is_empty());
    // unknown, tx buffers, unknown, packet type 0x27, sequence 7, data.
    let events = feed(
        &mut rx,
        Frame {
            address: Address::From(0x1201),
            frame_type: Type(Type::COMMAND_RESPONSE),
            payload: vec![0, 5, 0, 0x27, 7, 0x00, 0x00],
        },
    );
    assert_eq!(events.len(), 1);
    match &events[0] {
        TransportEvent::CommandExecuted {
            gateway_id,
            request_type,
            request_data,
            response_type,
            response_data,
        } => {
            assert_eq!(gateway_id.get(), 0x1201);
            assert_eq!(request_type.0, 0x26);
            assert_eq!(request_data.as_slice(), &[0x00, 0x02]);
            assert_eq!(response_type.0, 0x27);
            assert_eq!(response_data.as_slice(), &[0x00, 0x00]);
        }
        other => panic!("unexpected event: {:?}", other),
    }
    // A retransmitted response no longer matches anything.
    let events = feed(
        &mut rx,
        Frame {
            address: Address::From(0x1201),
            frame_type: Type(Type::COMMAND_RESPONSE),
            payload: vec![0, 5, 0, 0x27, 7, 0x00, 0x00],
        },
    );
    assert!(events.is_empty());
    assert_eq!(rx.counters().unmatched_responses, 1);
}

#[test]
fn enumeration_frames_decode() {
    let mut rx = Receiver::new();
    // Enumeration start: addressed to the all-zeroes gateway, naming 0x1235.
    let events = feed(
        &mut rx,
        Frame {
            address: Address::To(0),
            frame_type: Type(Type::ENUMERATION_START_REQUEST),
            payload: vec![0, 0, 0, 0, 0x12, 0x35],
        },
    );
    assert_eq!(events.len(), 1);
    match &events[0] {
        TransportEvent::EnumerationStarted { gateway_id } => {
            assert_eq!(gateway_id.get(), 0x1235);
        }
        other => panic!("unexpected event: {:?}", other),
    }
    // Identify response: the hardware address, then the gateway address.
    let events = feed(
        &mut rx,
        Frame {
            address: Address::From(0x1201),
            frame_type: Type(Type::IDENTIFY_RESPONSE),
            payload: vec![0x04, 0xC0, 0x5B, 0x30, 0x00, 0x02, 0xBE, 0x16, 0x12, 0x01],
        },
    );
    assert_eq!(events.len(), 1);
    match &events[0] {
        TransportEvent::GatewayIdentityObserved {
            gateway_id,
            address,
        } => {
            assert_eq!(gateway_id.get(), 0x1201);
            assert_eq!(address.0, [0x04, 0xC0, 0x5B, 0x30, 0x00, 0x02, 0xBE, 0x16]);
        }
        other => panic!("unexpected event: {:?}", other),
    }
    // Enumeration end response.
    let events = feed(
        &mut rx,
        Frame {
            address: Address::From(0x1201),
            frame_type: Type(Type::ENUMERATION_END_RESPONSE),
            payload: vec![],
        },
    );
    assert_eq!(events.len(), 1);
    assert!(matches!(
        events[0],
        TransportEvent::EnumerationEnded { .. }
    ));
}

#[test]
fn version_response_decodes_utf8() {
    let mut rx = Receiver::new();
    // A version string with a multi-byte character: decoding must interpret
    // the bytes, not hand them back.
    let payload = "Mgate 8.59 \u{e9}".as_bytes().to_vec();
    let events = feed(
        &mut rx,
        Frame {
            address: Address::From(0x1201),
            frame_type: Type(Type::VERSION_RESPONSE),
            payload,
        },
    );
    assert_eq!(events.len(), 1);
    match &events[0] {
        TransportEvent::GatewayVersionObserved {
            gateway_id,
            version,
        } => {
            assert_eq!(gateway_id.get(), 0x1201);
            assert_eq!(version.as_str(), "Mgate 8.59 \u{e9}");
            assert_eq!(version.chars().count(), 12);
        }
        other => panic!("unexpected event: {:?}", other),
    }
    // Invalid UTF-8 is dropped.
    let events = feed(
        &mut rx,
        Frame {
            address: Address::From(0x1201),
            frame_type: Type(Type::VERSION_RESPONSE),
            payload: vec![0xff, 0xfe],
        },
    );
    assert!(events.is_empty());
    assert_eq!(rx.counters().parse_failures, 1);
}

#[test]
fn power_report_parses() {
    // voltage pair (0x2b6, 0x158), duty 255, current pair (0x0c8, 0xfff),
    // three unknown bytes, slot counter 0x211B, rssi 100.
    let bytes = vec![
        0x2b, 0x61, 0x58, 0xff, 0x0c, 0x8f, 0xff, 0, 0, 0, 0x21, 0x1b, 100,
    ];
    let r = parse_power_report(&bytes).expect("parses");
    assert_eq!(r.voltage_in, 0x2b6);
    assert_eq!(r.voltage_out, 0x158);
    assert_eq!(r.dc_dc_duty_cycle, 255);
    assert_eq!(r.current, 0x0c8);
    assert_eq!(r.temperature, 0xfff);
    assert_eq!(r.slot_counter, SlotCounter(0x211b));
    assert_eq!(r.rssi, 100);
    assert!(parse_power_report(&bytes[..12]).is_none());
}

#[test]
fn topology_report_parses() {
    let mut bytes = vec![0x12, 0x34, 0x00, 0x02, 0x00, 0x01, 0, 0];
    bytes.extend_from_slice(&[0x04, 0xC0, 0x5B, 0x40, 0x00, 0xA2, 0x34, 0x6F]);
    bytes.push(77); // rssi
    bytes.extend_from_slice(&[0, 0, 0, 0, 0]);
    assert_eq!(bytes.len(), 22);
    let r = parse_topology_report(&bytes).expect("parses");
    assert_eq!(r.short_address, 0x1234);
    assert_eq!(r.pv_node_id, 2);
    assert_eq!(r.next_hop, 1);
    assert_eq!(r.long_address.0, [0x04, 0xC0, 0x5B, 0x40, 0x00, 0xA2, 0x34, 0x6F]);
    assert_eq!(r.rssi, 77);
    assert!(parse_topology_report(&bytes[..21]).is_none());
}

#[test]
fn node_table_entries_parse() {
    let mut bytes = vec![0x00, 0x02];
    bytes.extend_from_slice(&[0x04, 0xC0, 0x5B, 0x40, 0x00, 0xA2, 0x34, 0x6F, 0x00, 0x02]);
    bytes.extend_from_slice(&[0x04, 0xC0, 0x5B, 0x40, 0x00, 0xA2, 0x34, 0x71, 0x00, 0x03]);
    let entries = parse_node_table_entries(&bytes).expect("parses");
    assert_eq!(entries.len(), 2);
    assert_eq!(entries[0].node_id, 2);
    assert_eq!(
        entries[0].long_address.0,
        [0x04, 0xC0, 0x5B, 0x40, 0x00, 0xA2, 0x34, 0x6F]
    );
    assert_eq!(entries[1].node_id, 3);

    // A declared count that does not match the body is dropped.
    let mut miscounted = bytes.clone();
    miscounted[1] = 0x0C;
    assert!(parse_node_table_entries(&miscounted).is_none());
    // An empty page parses to no entries.
    assert_eq!(parse_node_table_entries(&[0x00, 0x00]).unwrap().len(), 0);
}

#[test]
fn application_decodes_power_report_packet() {
    let mut app = Application::new();
    let mut events = Vec::new();
    let gw = tapwatch::link::GatewayID::new(0x1201).unwrap();
    let data = vec![
        0x2b, 0x61, 0x58, 0xff, 0x0c, 0x8f, 0xff, 0, 0, 0, 0x21, 0x1b, 100,
    ];
    app.on_event(
        &TransportEvent::PacketReceived {
            gateway_id: gw,
            header: tapwatch::pv::ReceivedPacketHeader {
                packet_type: tapwatch::pv::PacketType(0x31),
                node_address: 5,
                short_address: 0x1234,
                dsn: 9,
                data_length: 13,
            },
            data,
        },
        &mut events,
    );
    assert_eq!(events.len(), 1);
    match &events[0] {
        ApplicationEvent::PowerReport {
            gateway_id,
            node_id,
            report,
        } => {
            assert_eq!(gateway_id.get(), 0x1201);
            assert_eq!(*node_id, 5);
            assert_eq!(report.voltage_in, 0x2b6);
        }
        other => panic!("unexpected event: {:?}", other),
    }
    // The broadcast node address names no node.
    let mut events = Vec::new();
    app.on_event(
        &TransportEvent::PacketReceived {
            gateway_id: gw,
            header: tapwatch::pv::ReceivedPacketHeader {
                packet_type: tapwatch::pv::PacketType(0x31),
                node_address: 0,
                short_address: 0,
                dsn: 0,
                data_length: 0,
            },
            data: vec![],
        },
        &mut events,
    );
    assert!(events.is_empty());
    assert_eq!(app.counters().invalid_node_ids, 1);
}

#[test]
fn application_decodes_node_table_command() {
    let mut app = Application::new();
    let mut events = Vec::new();
    let gw = tapwatch::link::GatewayID::new(0x1201).unwrap();
    let mut response = vec![0x00, 0x01];
    response.extend_from_slice(&[0x04, 0xC0, 0x5B, 0x40, 0x00, 0xA2, 0x34, 0x6F, 0x00, 0x02]);
    app.on_event(
        &TransportEvent::CommandExecuted {
            gateway_id: gw,
            request_type: tapwatch::pv::PacketType(0x26),
            request_data: vec![0x00, 0x00],
            response_type: tapwatch::pv::PacketType(0x27),
            response_data: response,
        },
        &mut events,
    );
    assert_eq!(events.len(), 1);
    match &events[0] {
        ApplicationEvent::NodeTablePage {
            gateway_id,
            start_address,
            entries,
        } => {
            assert_eq!(gateway_id.get(), 0x1201);
            assert_eq!(*start_address, 0);
            assert_eq!(entries.len(), 1);
            assert_eq!(entries[0].node_id, 2);
        }
        other => panic!("unexpected event: {:?}", other),
    }
}

#[test]
fn slots_since_wraps_at_cycle() {
    let c = |v: u16| SlotCounter(v);
    assert_eq!(c(0x0000).slots_since(&c(0xeedf)).unwrap(), 1);
    assert_eq!(c(0x4000).slots_since(&c(0xeedf)).unwrap(), 12001);
    assert_eq!(c(0x8000).slots_since(&c(0xeedf)).unwrap(), 24001);
    assert_eq!(c(0xc000).slots_since(&c(0xeedf)).unwrap(), 36001);
    assert_eq!(c(0xeedf).slots_since(&c(0xc000)).unwrap(), 11999);
    assert_eq!(c(0xeedf).slots_since(&c(0x0000)).unwrap(), 47999);
    assert_eq!(c(0x0100).slots_since(&c(0x0080)).unwrap(), 128);
    // An out-of-range slot component is rejected.
    assert!(c(0x2ee0).slots_since(&c(0)).is_err());
    assert_eq!(c(0x2edf).slot_number().unwrap(), 11999);
    assert!(c(0x2ee0).slot_number().is_err());
    assert_eq!(c(0x8000).epoch(), 2);
}
