//! Observer, clock, barcode and whole-pipeline tests.

use tapwatch::barcode::{format_long_address, Barcode};
use tapwatch::link::{Address, Frame, GatewayID, Type};
use tapwatch::node_table::NODE_TABLE_PAGE_SIZE;
use tapwatch::observer::{Observer, ObserverEvent};
use tapwatch::pipeline::Pipeline;
use tapwatch::pv::{LongAddress, NodeTableResponseEntry, PowerReport, SlotCounter};
use tapwatch::config::{
    ConnectionMode, SerialSourceConfig, SourceConfig, TcpConnectionConfig, TcpKeepaliveConfig,
    DEFAULT_KEEPALIVE_COUNT, DEFAULT_KEEPALIVE_IDLE, DEFAULT_KEEPALIVE_INTERVAL, DEFAULT_PORT,
};
use tapwatch::slot_clock::SlotClock;

fn gw(v: u16) -> GatewayID {
    GatewayID::new(v).unwrap()
}

fn addr(last: u8) -> LongAddress {
    LongAddress([0x04, 0xC0, 0x5B, 0x30, 0x00, 0x02, 0xBE, last])
}

#[test]
fn enumeration_swap() {
    let mut observer = Observer::new(String::new());
    let mut out = Vec::new();

    // Pre-state: identities for gateways 1 and 2.
    observer.gateway_identity_observed(gw(1), addr(0xA1), &mut out);
    observer.gateway_identity_observed(gw(2), addr(0xB2), &mut out);
    assert_eq!(out.len(), 2);

    // An enumeration cycle under the transient bootstrap identifier 0x100:
    // a new identity for 1, and a first identity for 3. The observation
    // under the bootstrap identifier itself is discarded.
    out.clear();
    observer.enumeration_started(gw(0x100));
    observer.gateway_identity_observed(gw(0x100), addr(0xEE), &mut out);
    observer.gateway_identity_observed(gw(1), addr(0xA2), &mut out);
    observer.gateway_identity_observed(gw(3), addr(0xC3), &mut out);
    // Nothing emitted and nothing persisted while shadowing.
    assert!(out.is_empty());
    assert_eq!(observer.persistent_state().gateway_identities.len(), 2);
    assert_eq!(
        observer
            .persistent_state()
            .gateway_identities
            .get(1)
            .unwrap()
            .0,
        addr(0xA1).0
    );

    observer.enumeration_ended(gw(1), &mut out);

    // The shadow replaced the identities wholesale: 1 renewed, 3 added, 2
    // dropped, the bootstrap identifier absent.
    let ids = &observer.persistent_state().gateway_identities;
    assert_eq!(ids.len(), 2);
    assert_eq!(ids.get(1).unwrap().0, addr(0xA2).0);
    assert_eq!(ids.get(3).unwrap().0, addr(0xC3).0);
    assert!(ids.get(2).is_none());
    assert!(ids.get(0x100).is_none());
    // Exactly one infrastructure report for the swap.
    assert_eq!(out.len(), 1);
    assert!(matches!(out[0], ObserverEvent::InfrastructureReport { .. }));
}

#[test]
fn power_report_without_clock() {
    let mut observer = Observer::new(String::new());
    let mut out = Vec::new();
    let report = PowerReport {
        voltage_in: 500,
        voltage_out: 250,
        dc_dc_duty_cycle: 255,
        current: 200,
        temperature: 300,
        slot_counter: SlotCounter(0x100),
        rssi: 80,
    };
    observer.power_report(gw(7), 3, &report, &mut out);
    assert!(out.is_empty());

    // Discipline the clock, then the same report is emitted with the wall
    // time its slot converts to.
    observer.gateway_slot_counter_captured(gw(7), 1_000_000);
    observer.gateway_slot_counter_observed(gw(7), SlotCounter(0x80));
    observer.power_report(gw(7), 3, &report, &mut out);
    assert_eq!(out.len(), 1);
    match &out[0] {
        ObserverEvent::PowerReport { report: ev } => {
            assert_eq!(ev.gateway_id.get(), 7);
            assert_eq!(ev.node_id, 3);
            // 0x100 is 128 slots past the 0x80 anchor: 640 ms later.
            assert_eq!(ev.timestamp_ms, 1_000_000 + 128 * 5);
            assert_eq!(ev.voltage_in, 500);
            assert_eq!(ev.rssi, 80);
        }
        other => panic!("unexpected event: {:?}", other),
    }
}

#[test]
fn power_report_beyond_one_epoch_dropped() {
    let mut observer = Observer::new(String::new());
    let mut out = Vec::new();
    observer.gateway_slot_counter_captured(gw(7), 1_000_000);
    observer.gateway_slot_counter_observed(gw(7), SlotCounter(0xc000));
    // The report's counter lies two epochs ahead of the anchor: the clock
    // calls it invalid and the report is dropped without an event.
    let report = PowerReport {
        voltage_in: 500,
        voltage_out: 250,
        dc_dc_duty_cycle: 255,
        current: 200,
        temperature: 300,
        slot_counter: SlotCounter(0x4000),
        rssi: 80,
    };
    observer.power_report(gw(7), 3, &report, &mut out);
    assert!(out.is_empty());
    // One epoch ahead is still convertible.
    let near = PowerReport {
        slot_counter: SlotCounter(0x0000),
        ..report
    };
    observer.power_report(gw(7), 3, &near, &mut out);
    assert_eq!(out.len(), 1);
}

#[test]
fn unpaired_slot_counter_observation_dropped() {
    let mut observer = Observer::new(String::new());
    let mut out = Vec::new();
    // No capture preceded this observation, so no clock is created.
    observer.gateway_slot_counter_observed(gw(7), SlotCounter(0x80));
    let report = PowerReport {
        voltage_in: 1,
        voltage_out: 1,
        dc_dc_duty_cycle: 1,
        current: 1,
        temperature: 1,
        slot_counter: SlotCounter(0x81),
        rssi: 1,
    };
    observer.power_report(gw(7), 1, &report, &mut out);
    assert!(out.is_empty());
}

#[test]
fn node_table_assembly() {
    let mut observer = Observer::new(String::new());
    let mut out = Vec::new();

    // A full page starting at the canonical first address...
    let full: Vec<NodeTableResponseEntry> = (0..NODE_TABLE_PAGE_SIZE as u16)
        .map(|i| NodeTableResponseEntry {
            long_address: addr(i as u8),
            node_id: i,
        })
        .collect();
    observer.node_table_page(gw(5), 0, &full, &mut out);
    assert!(out.is_empty());
    assert!(observer.persistent_state().gateway_node_tables.get(5).is_none());

    // ...then a short page at the next address completes the table.
    let short: Vec<NodeTableResponseEntry> = (0..3u16)
        .map(|i| NodeTableResponseEntry {
            long_address: addr(0xF0 + i as u8),
            node_id: NODE_TABLE_PAGE_SIZE as u16 + i,
        })
        .collect();
    observer.node_table_page(gw(5), NODE_TABLE_PAGE_SIZE as u16, &short, &mut out);

    assert_eq!(out.len(), 1);
    match &out[0] {
        ObserverEvent::InfrastructureReport { report } => {
            let table = report.nodes.get(5).expect("gateway 5 renders");
            assert_eq!(table.len(), NODE_TABLE_PAGE_SIZE + 3);
        }
        other => panic!("unexpected event: {:?}", other),
    }
    let table = observer
        .persistent_state()
        .gateway_node_tables
        .get(5)
        .expect("table persisted");
    assert_eq!(table.nodes.len(), NODE_TABLE_PAGE_SIZE + 3);
    assert_eq!(table.nodes.get(0).unwrap().0, addr(0).0);
    assert_eq!(
        table.nodes.get(NODE_TABLE_PAGE_SIZE as u64).unwrap().0,
        addr(0xF0).0
    );
}

#[test]
fn node_table_out_of_order_restarts() {
    let mut observer = Observer::new(String::new());
    let mut out = Vec::new();
    let full: Vec<NodeTableResponseEntry> = (0..NODE_TABLE_PAGE_SIZE as u16)
        .map(|i| NodeTableResponseEntry {
            long_address: addr(i as u8),
            node_id: i,
        })
        .collect();
    observer.node_table_page(gw(5), 0, &full, &mut out);
    // A page at the wrong address discards the partial table...
    let stray: Vec<NodeTableResponseEntry> = vec![NodeTableResponseEntry {
        long_address: addr(0x99),
        node_id: 40,
    }];
    observer.node_table_page(gw(5), 40, &stray, &mut out);
    assert!(out.is_empty());
    assert!(observer.persistent_state().gateway_node_tables.get(5).is_none());
    // ...and a short page at the first address starts and completes a fresh
    // one-page table on its own.
    observer.node_table_page(gw(5), 0, &stray, &mut out);
    assert_eq!(out.len(), 1);
    let table = observer
        .persistent_state()
        .gateway_node_tables
        .get(5)
        .expect("fresh table persisted");
    assert_eq!(table.nodes.len(), 1);
    assert_eq!(table.nodes.get(40).unwrap().0, addr(0x99).0);
}

#[test]
fn slot_clock_conversions() {
    let x: i64 = 1_723_500_000_000;
    let clock = SlotClock::new(SlotCounter(0xc000), x).unwrap();
    // Within one epoch ahead of the anchor: the anchor instant plus the
    // slot distance.
    assert_eq!(
        clock.to_wall_time(SlotCounter(0xc000 + 1000)).unwrap(),
        x + 5000
    );
    // Exactly one epoch ahead, across the cycle wrap, is the limit.
    assert_eq!(clock.to_wall_time(SlotCounter(0x0000)).unwrap(), x + 60_000);
    // More than one epoch ahead of the anchor is invalid.
    assert!(clock.to_wall_time(SlotCounter(0x8000)).is_err());
    assert!(clock.to_wall_time(SlotCounter(0x4000)).is_err());
    // An invalid slot component converts to nothing.
    assert!(clock.to_wall_time(SlotCounter(0x2ee0)).is_err());
    // An invalid anchor is rejected at construction.
    assert!(SlotClock::new(SlotCounter(0x2ee0), x).is_err());
}

#[test]
fn slot_clock_monotone_within_epoch() {
    let x: i64 = 1_000_000;
    let clock = SlotClock::new(SlotCounter(0x0100), x).unwrap();
    let mut last = x;
    for s in [0x0101u16, 0x0200, 0x1000, 0x2edf, 0x4000] {
        let t = clock.to_wall_time(SlotCounter(s)).unwrap();
        assert!(t >= last, "slot {:#x} went backwards", s);
        last = t;
    }
}

#[test]
fn slot_clock_set_reanchors() {
    let x: i64 = 1_000_000;
    let mut clock = SlotClock::new(SlotCounter(0xc000), x).unwrap();
    // A later capture re-anchors, absorbing the epoch rollover.
    assert!(clock.set(SlotCounter(0x0010), x + 60_000).is_ok());
    assert_eq!(
        clock.to_wall_time(SlotCounter(0x0011)).unwrap(),
        x + 60_000 + 5
    );
    // A capture far in the past is refused and changes nothing.
    assert!(clock.set(SlotCounter(0x0020), x).is_err());
    assert_eq!(
        clock.to_wall_time(SlotCounter(0x0011)).unwrap(),
        x + 60_000 + 5
    );
    // An invalid counter is refused.
    assert!(clock.set(SlotCounter(0x2ee0), x + 120_000).is_err());
}

#[test]
fn barcode_rendering() {
    let a = LongAddress([0x04, 0xC0, 0x5B, 0x40, 0x00, 0x9A, 0x57, 0xA2]);
    assert_eq!(Barcode(a).render(), "4-9A57A2L");
    let b = LongAddress([0x04, 0xC0, 0x5B, 0x40, 0x00, 0x79, 0xAC, 0x16]);
    assert_eq!(Barcode(b).render(), "4-79AC16V");
    let c = LongAddress([0x04, 0xC0, 0x5B, 0x40, 0x00, 0x79, 0xAB, 0x99]);
    assert_eq!(Barcode(c).render(), "4-79AB99W");
    // An address without the vendor prefix renders as plain hex octets.
    let other = LongAddress([0x01, 0x02, 0x03, 0x04, 0x05, 0x06, 0x07, 0x08]);
    assert_eq!(Barcode(other).render(), "01:02:03:04:05:06:07:08");
    assert_eq!(
        format_long_address(&other),
        "01:02:03:04:05:06:07:08"
    );
}

#[test]
fn infrastructure_report_contents() {
    let mut observer = Observer::new(String::new());
    let mut out = Vec::new();
    observer.gateway_identity_observed(gw(0x1201), addr(0x16), &mut out);
    let mut out2 = Vec::new();
    observer.gateway_version_observed(gw(0x1201), String::from("G8.59"), &mut out2);
    assert_eq!(out2.len(), 1);
    match &out2[0] {
        ObserverEvent::InfrastructureReport { report } => {
            assert_eq!(report.event_type.as_str(), "infrastructure_report");
            let g = report.gateways.get(0x1201).expect("gateway renders");
            assert_eq!(g.address.as_str(), "04:C0:5B:30:00:02:BE:16");
            assert_eq!(g.version.as_str(), "G8.59");
        }
        other => panic!("unexpected event: {:?}", other),
    }
}

#[test]
fn restore_replaces_state_and_reports() {
    let mut observer = Observer::new(String::from("state.json"));
    assert_eq!(observer.persistent_file().as_str(), "state.json");
    let mut seed = Observer::new(String::new());
    let mut scratch = Vec::new();
    seed.gateway_identity_observed(gw(9), addr(0x44), &mut scratch);
    let restored = tapwatch::persistent_state::PersistentState {
        gateway_node_tables: seed.persistent_state().gateway_node_tables.clone(),
        gateway_identities: seed.persistent_state().gateway_identities.clone(),
        gateway_versions: seed.persistent_state().gateway_versions.clone(),
    };
    let mut out = Vec::new();
    observer.restore_persistent_state(restored, &mut out);
    assert_eq!(out.len(), 1);
    assert!(matches!(out[0], ObserverEvent::InfrastructureReport { .. }));
    assert_eq!(
        observer
            .persistent_state()
            .gateway_identities
            .get(9)
            .unwrap()
            .0,
        addr(0x44).0
    );
}

#[test]
fn pipeline_end_to_end() {
    let mut pipeline = Pipeline::new(String::new());
    let mut out = Vec::new();
    let now: i64 = 1_723_500_000_000;

    // An identify response on the wire becomes an infrastructure report.
    let identify = Frame {
        address: Address::From(0x1201),
        frame_type: Type(Type::IDENTIFY_RESPONSE),
        payload: vec![0x04, 0xC0, 0x5B, 0x30, 0x00, 0x02, 0xBE, 0x16, 0x12, 0x01],
    };
    pipeline.extend_from_slice(&identify.encode(), now, &mut out);
    assert_eq!(out.len(), 1);
    match &out[0] {
        ObserverEvent::InfrastructureReport { report } => {
            let g = report.gateways.get(0x1201).expect("gateway renders");
            assert_eq!(g.address.as_str(), "04:C0:5B:30:00:02:BE:16");
        }
        other => panic!("unexpected event: {:?}", other),
    }
    assert_eq!(pipeline.link_counters().frames_emitted, 1);

    // A receive exchange disciplines the clock; a power report packet inside
    // the response is then timestamped and emitted.
    out.clear();
    let request = Frame {
        address: Address::To(0x1201),
        frame_type: Type(Type::RECEIVE_REQUEST),
        payload: vec![0x00, 0x01, 0x40, 0xFB, 0x04],
    };
    pipeline.extend_from_slice(&request.encode(), now, &mut out);
    assert!(out.is_empty());

    // Status mask 0x00EF: a full packet number, slot counter 0x0080, then a
    // power report packet for node 5.
    let mut payload = vec![0x00, 0xEF, 0x41, 0x00, 0x00, 0x80];
    payload.extend_from_slice(&[0x31, 0x00, 0x05, 0x12, 0x34, 0x01, 13]);
    payload.extend_from_slice(&[
        0x2b, 0x61, 0x58, 0xff, 0x0c, 0x8f, 0xff, 0, 0, 0, 0x00, 0xA0, 100,
    ]);
    let response = Frame {
        address: Address::From(0x1201),
        frame_type: Type(Type::RECEIVE_RESPONSE),
        payload,
    };
    pipeline.extend_from_slice(&response.encode(), now + 400, &mut out);
    assert_eq!(out.len(), 1);
    match &out[0] {
        ObserverEvent::PowerReport { report } => {
            assert_eq!(report.gateway_id.get(), 0x1201);
            assert_eq!(report.node_id, 5);
            // The anchor instant is the request's capture time; the report's
            // counter 0x00A0 is 32 slots past the 0x0080 anchor.
            assert_eq!(report.timestamp_ms, now + 32 * 5);
            assert_eq!(report.voltage_in, 0x2b6);
            assert_eq!(report.voltage_out, 0x158);
            assert_eq!(report.current, 0x0c8);
            assert_eq!(report.temperature, 0xfff);
            assert_eq!(report.dc_dc_duty_cycle, 255);
            assert_eq!(report.rssi, 100);
        }
        other => panic!("unexpected event: {:?}", other),
    }
}

#[test]
fn enumeration_end_without_cycle_is_silent() {
    let mut observer = Observer::new(String::new());
    let mut out = Vec::new();
    observer.gateway_identity_observed(gw(4), addr(0x01), &mut out);
    out.clear();
    observer.enumeration_ended(gw(4), &mut out);
    assert!(out.is_empty());
    assert_eq!(observer.persistent_state().gateway_identities.len(), 1);
}

#[test]
fn version_shadowed_during_enumeration() {
    let mut observer = Observer::new(String::new());
    let mut out = Vec::new();
    observer.gateway_version_observed(gw(4), String::from("old"), &mut out);
    out.clear();
    observer.enumeration_started(gw(0x200));
    observer.gateway_version_observed(gw(4), String::from("new"), &mut out);
    assert!(out.is_empty());
    assert_eq!(
        observer
            .persistent_state()
            .gateway_versions
            .get(4)
            .unwrap()
            .as_str(),
        "old"
    );
    observer.enumeration_ended(gw(0x200), &mut out);
    assert_eq!(out.len(), 1);
    assert_eq!(
        observer
            .persistent_state()
            .gateway_versions
            .get(4)
            .unwrap()
            .as_str(),
        "new"
    );
}

#[test]
fn config_defaults() {
    assert_eq!(DEFAULT_PORT, 7160);
    let keepalive = TcpKeepaliveConfig::default();
    assert_eq!(keepalive.idle, DEFAULT_KEEPALIVE_IDLE);
    assert_eq!(keepalive.interval, DEFAULT_KEEPALIVE_INTERVAL);
    assert_eq!(keepalive.count, DEFAULT_KEEPALIVE_COUNT);
    assert_eq!(ConnectionMode::default(), ConnectionMode::ReadOnly);

    let source = SourceConfig::Tcp(TcpConnectionConfig {
        hostname: String::from("bridge"),
        port: DEFAULT_PORT,
        mode: ConnectionMode::ReadOnly,
        keepalive_idle: 30,
        keepalive_interval: 10,
        keepalive_count: 5,
    });
    let k = source.keepalive().unwrap();
    assert_eq!(k.idle, 30);
    assert_eq!(k.interval, 10);
    assert_eq!(k.count, 5);
    let serial = SourceConfig::Serial(SerialSourceConfig {
        name: String::from("ttyUSB0"),
    });
    assert!(serial.keepalive().is_none());
}
