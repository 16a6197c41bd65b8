//! The application decoder: transport events in, typed PV reports out.
//!
//! Packets and completed commands carry PV application payloads; this layer
//! parses the variants it knows (strings, node table pages, topology and
//! power reports) and drops the rest, counting failures.

use vstd::prelude::*;

use crate::link::u16_be;
use crate::pv::{
    node_table_entries_spec, power_report_spec, topology_report_spec, NodeTableResponseEntry,
    PacketType, PowerReport, TopologyReport,
};
use crate::transport::{utf8_decode, TransportEvent, TransportEventView};

verus! {

/// An event the application decoder hands upward.
#[derive(Debug, Clone)]
pub enum ApplicationEvent {
    /// A string command sent to a node.
    StringRequest { gateway_id: crate::link::GatewayID, node_id: u16, request: String },
    /// A string answer from a node.
    StringResponse { gateway_id: crate::link::GatewayID, node_id: u16, response: String },
    /// One page of a gateway's node table.
    NodeTablePage {
        gateway_id: crate::link::GatewayID,
        start_address: u16,
        entries: Vec<NodeTableResponseEntry>,
    },
    /// A neighbor entry reported by a node.
    TopologyReport { gateway_id: crate::link::GatewayID, node_id: u16, report: TopologyReport },
    /// A per-node power report.
    PowerReport { gateway_id: crate::link::GatewayID, node_id: u16, report: PowerReport },
}

/// The mathematical shape of an application event.
#[verifier::ext_equal]
pub enum ApplicationEventView {
    StringRequest { gateway_id: u16, node_id: u16, request: Seq<char> },
    StringResponse { gateway_id: u16, node_id: u16, response: Seq<char> },
    NodeTablePage { gateway_id: u16, start_address: u16, entries: Seq<NodeTableResponseEntry> },
    TopologyReport { gateway_id: u16, node_id: u16, report: TopologyReport },
    PowerReport { gateway_id: u16, node_id: u16, report: PowerReport },
}

impl View for ApplicationEvent {
    type V = ApplicationEventView;

    open spec fn view(&self) -> ApplicationEventView {
        match *self {
            ApplicationEvent::StringRequest { gateway_id, node_id, ref request } => {
                ApplicationEventView::StringRequest {
                    gateway_id: gateway_id@,
                    node_id,
                    request: request@,
                }
            }
            ApplicationEvent::StringResponse { gateway_id, node_id, ref response } => {
                ApplicationEventView::StringResponse {
                    gateway_id: gateway_id@,
                    node_id,
                    response: response@,
                }
            }
            ApplicationEvent::NodeTablePage { gateway_id, start_address, ref entries } => {
                ApplicationEventView::NodeTablePage {
                    gateway_id: gateway_id@,
                    start_address,
                    entries: entries@,
                }
            }
            ApplicationEvent::TopologyReport { gateway_id, node_id, report } => {
                ApplicationEventView::TopologyReport { gateway_id: gateway_id@, node_id, report }
            }
            ApplicationEvent::PowerReport { gateway_id, node_id, report } => {
                ApplicationEventView::PowerReport { gateway_id: gateway_id@, node_id, report }
            }
        }
    }
}

/// The deep view of a sequence of application events.
pub open spec fn app_events_view(s: Seq<ApplicationEvent>) -> Seq<ApplicationEventView> {
    s.map_values(|e: ApplicationEvent| e@)
}

/// Counters describing dropped application payloads.
#[derive(Debug, Copy, Clone, Eq, PartialEq, Structural, Default)]
pub struct ApplicationCounters {
    /// Packets from the broadcast node address, which names no node.
    pub invalid_node_ids: u64,
    /// Power reports whose payload did not parse.
    pub invalid_power_reports: u64,
    /// Topology reports whose payload did not parse.
    pub invalid_topology_reports: u64,
    /// Node table exchanges whose request or response did not parse.
    pub invalid_node_table_pages: u64,
    /// String commands whose shape did not fit.
    pub invalid_string_commands: u64,
    /// String responses that were not valid UTF-8.
    pub invalid_string_responses: u64,
}

/// The counters, as mathematical values; they saturate rather than wrap.
#[verifier::ext_equal]
pub struct AppCounters {
    pub invalid_node_ids: u64,
    pub invalid_power_reports: u64,
    pub invalid_topology_reports: u64,
    pub invalid_node_table_pages: u64,
    pub invalid_string_commands: u64,
    pub invalid_string_responses: u64,
}

impl AppCounters {
    /// The same counters as the executable struct carries them.
    pub open spec fn as_exec(self) -> ApplicationCounters {
        ApplicationCounters {
            invalid_node_ids: self.invalid_node_ids,
            invalid_power_reports: self.invalid_power_reports,
            invalid_topology_reports: self.invalid_topology_reports,
            invalid_node_table_pages: self.invalid_node_table_pages,
            invalid_string_commands: self.invalid_string_commands,
            invalid_string_responses: self.invalid_string_responses,
        }
    }
}

/// The decoder's step for one packet received through a gateway.
pub open spec fn app_packet_step(c: AppCounters, gateway_id: u16, e: TransportEventView) -> (
    AppCounters,
    Seq<ApplicationEventView>,
)
    recommends
        e is PacketReceived,
{
    let header = e->PacketReceived_header;
    let data = e->PacketReceived_data;
    if header.node_address == 0 {
        (AppCounters { invalid_node_ids: crate::transport::sat_inc(c.invalid_node_ids), ..c }, Seq::empty())
    } else {
        let node_id = header.node_address;
        if header.packet_type.0 == PacketType::STRING_RESPONSE {
            match utf8_decode(data) {
                Some(chars) => (
                    c,
                    seq![
                        ApplicationEventView::StringResponse {
                            gateway_id,
                            node_id,
                            response: chars,
                        },
                    ],
                ),
                None => (
                    AppCounters { invalid_string_responses: crate::transport::sat_inc(c.invalid_string_responses), ..c },
                    Seq::empty(),
                ),
            }
        } else if header.packet_type.0 == PacketType::TOPOLOGY_REPORT {
            match topology_report_spec(data) {
                Some(report) => (
                    c,
                    seq![ApplicationEventView::TopologyReport { gateway_id, node_id, report }],
                ),
                None => (
                    AppCounters { invalid_topology_reports: crate::transport::sat_inc(c.invalid_topology_reports), ..c },
                    Seq::empty(),
                ),
            }
        } else if header.packet_type.0 == PacketType::POWER_REPORT {
            match power_report_spec(data) {
                Some(report) => (
                    c,
                    seq![ApplicationEventView::PowerReport { gateway_id, node_id, report }],
                ),
                None => (
                    AppCounters { invalid_power_reports: crate::transport::sat_inc(c.invalid_power_reports), ..c },
                    Seq::empty(),
                ),
            }
        } else {
            (c, Seq::empty())
        }
    }
}

/// The decoder's step for one completed command exchange.
pub open spec fn app_command_step(c: AppCounters, gateway_id: u16, e: TransportEventView) -> (
    AppCounters,
    Seq<ApplicationEventView>,
)
    recommends
        e is CommandExecuted,
{
    let rt = e->CommandExecuted_request_type;
    let rd = e->CommandExecuted_request_data;
    let pt = e->CommandExecuted_response_type;
    let pd = e->CommandExecuted_response_data;
    if rt.0 == PacketType::NODE_TABLE_REQUEST && pt.0 == PacketType::NODE_TABLE_RESPONSE {
        if rd.len() == 2 {
            match node_table_entries_spec(pd) {
                Some(entries) => (
                    c,
                    seq![
                        ApplicationEventView::NodeTablePage {
                            gateway_id,
                            start_address: u16_be(rd[0], rd[1]),
                            entries,
                        },
                    ],
                ),
                None => (
                    AppCounters { invalid_node_table_pages: crate::transport::sat_inc(c.invalid_node_table_pages), ..c },
                    Seq::empty(),
                ),
            }
        } else {
            (
                AppCounters { invalid_node_table_pages: crate::transport::sat_inc(c.invalid_node_table_pages), ..c },
                Seq::empty(),
            )
        }
    } else if rt.0 == PacketType::STRING_REQUEST && pt.0 == PacketType::STRING_RESPONSE {
        if rd.len() >= 2 && u16_be(rd[0], rd[1]) != 0 && pd.len() == 0 {
            match utf8_decode(rd.skip(2)) {
                Some(chars) => (
                    c,
                    seq![
                        ApplicationEventView::StringRequest {
                            gateway_id,
                            node_id: u16_be(rd[0], rd[1]),
                            request: chars,
                        },
                    ],
                ),
                None => (
                    AppCounters { invalid_string_commands: crate::transport::sat_inc(c.invalid_string_commands), ..c },
                    Seq::empty(),
                ),
            }
        } else {
            (
                AppCounters { invalid_string_commands: crate::transport::sat_inc(c.invalid_string_commands), ..c },
                Seq::empty(),
            )
        }
    } else {
        (c, Seq::empty())
    }
}

/// One transport event of progress for the application decoder.
pub open spec fn app_step(c: AppCounters, e: TransportEventView) -> (
    AppCounters,
    Seq<ApplicationEventView>,
) {
    match e {
        TransportEventView::PacketReceived { gateway_id, .. } => app_packet_step(c, gateway_id, e),
        TransportEventView::CommandExecuted { gateway_id, .. } => app_command_step(
            c,
            gateway_id,
            e,
        ),
        _ => (c, Seq::empty()),
    }
}

/// A receiver which converts transport events into application events.
pub struct Application {
    counters: ApplicationCounters,
}

impl View for Application {
    type V = AppCounters;

    closed spec fn view(&self) -> AppCounters {
        AppCounters {
            invalid_node_ids: self.counters.invalid_node_ids,
            invalid_power_reports: self.counters.invalid_power_reports,
            invalid_topology_reports: self.counters.invalid_topology_reports,
            invalid_node_table_pages: self.counters.invalid_node_table_pages,
            invalid_string_commands: self.counters.invalid_string_commands,
            invalid_string_responses: self.counters.invalid_string_responses,
        }
    }
}

impl Application {
    /// Instantiate a fresh decoder.
    pub fn new() -> (r: Application)
        ensures
            r@ == (AppCounters {
                invalid_node_ids: 0,
                invalid_power_reports: 0,
                invalid_topology_reports: 0,
                invalid_node_table_pages: 0,
                invalid_string_commands: 0,
                invalid_string_responses: 0,
            }),
    {
        Application {
            counters: ApplicationCounters {
                invalid_node_ids: 0,
                invalid_power_reports: 0,
                invalid_topology_reports: 0,
                invalid_node_table_pages: 0,
                invalid_string_commands: 0,
                invalid_string_responses: 0,
            },
        }
    }

    /// The counters describing dropped payloads so far.
    pub fn counters(&self) -> (r: ApplicationCounters)
        ensures
            r == self@.as_exec(),
    {
        self.counters
    }

    /// Feed the decoder one transport event; the application events it
    /// yields are appended to `out`, in order.
    pub fn on_event(&mut self, e: &TransportEvent, out: &mut Vec<ApplicationEvent>)
        requires
        ensures
            final(self)@ == app_step(old(self)@, e@).0,
            app_events_view(final(out)@) == app_events_view(old(out)@) + app_step(
                old(self)@,
                e@,
            ).1,
    {
        match e {
            TransportEvent::PacketReceived { gateway_id, header, data } => {
                if header.node_address == 0 {
                    self.counters.invalid_node_ids = crate::transport::sat_inc_u64(self.counters.invalid_node_ids);
                } else {
                    let node_id = header.node_address;
                    if header.packet_type.0 == PacketType::STRING_RESPONSE {
                        match crate::transport::utf8_to_string(data.as_slice()) {
                            Some(response) => {
                                out.push(
                                    ApplicationEvent::StringResponse {
                                        gateway_id: *gateway_id,
                                        node_id,
                                        response,
                                    },
                                );
                            }
                            None => {
                                self.counters.invalid_string_responses =
                                    crate::transport::sat_inc_u64(self.counters.invalid_string_responses);
                            }
                        }
                    } else if header.packet_type.0 == PacketType::TOPOLOGY_REPORT {
                        match crate::pv::parse_topology_report(data.as_slice()) {
                            Some(report) => {
                                out.push(
                                    ApplicationEvent::TopologyReport {
                                        gateway_id: *gateway_id,
                                        node_id,
                                        report,
                                    },
                                );
                            }
                            None => {
                                self.counters.invalid_topology_reports =
                                    crate::transport::sat_inc_u64(self.counters.invalid_topology_reports);
                            }
                        }
                    } else if header.packet_type.0 == PacketType::POWER_REPORT {
                        match crate::pv::parse_power_report(data.as_slice()) {
                            Some(report) => {
                                out.push(
                                    ApplicationEvent::PowerReport {
                                        gateway_id: *gateway_id,
                                        node_id,
                                        report,
                                    },
                                );
                            }
                            None => {
                                self.counters.invalid_power_reports =
                                    crate::transport::sat_inc_u64(self.counters.invalid_power_reports);
                            }
                        }
                    }
                }
            }
            TransportEvent::CommandExecuted {
                gateway_id,
                request_type,
                request_data,
                response_type,
                response_data,
            } => {
                if request_type.0 == PacketType::NODE_TABLE_REQUEST && response_type.0
                    == PacketType::NODE_TABLE_RESPONSE {
                    let mut pushed = false;
                    if request_data.len() == 2 {
                        match crate::pv::parse_node_table_entries(response_data.as_slice()) {
                            Some(entries) => {
                                let start_address: u16 = ((request_data[0] as u16) << 8) | (
                                request_data[1] as u16);
                                out.push(
                                    ApplicationEvent::NodeTablePage {
                                        gateway_id: *gateway_id,
                                        start_address,
                                        entries,
                                    },
                                );
                                pushed = true;
                            }
                            None => {}
                        }
                    }
                    if !pushed {
                        self.counters.invalid_node_table_pages = crate::transport::sat_inc_u64(
                            self.counters.invalid_node_table_pages,
                        );
                    }
                } else if request_type.0 == PacketType::STRING_REQUEST && response_type.0
                    == PacketType::STRING_RESPONSE {
                    let mut pushed = false;
                    if request_data.len() >= 2 && response_data.len() == 0 {
                        let node_id: u16 = ((request_data[0] as u16) << 8) | (
                        request_data[1] as u16);
                        if node_id != 0 {
                            let tail = vstd::slice::slice_subrange(
                                request_data.as_slice(),
                                2,
                                request_data.len(),
                            );
                            match crate::transport::utf8_to_string(tail) {
                                Some(request) => {
                                    proof {
                                        assert(tail@ =~= request_data@.skip(2));
                                    }
                                    out.push(
                                        ApplicationEvent::StringRequest {
                                            gateway_id: *gateway_id,
                                            node_id,
                                            request,
                                        },
                                    );
                                    pushed = true;
                                }
                                None => {}
                            }
                        }
                    }
                    if !pushed {
                        self.counters.invalid_string_commands = crate::transport::sat_inc_u64(
                            self.counters.invalid_string_commands,
                        );
                    }
                }
            }
            _ => {}
        }
        proof {
            assert(self@ =~= app_step(old(self)@, e@).0);
            assert(app_events_view(out@) =~= app_events_view(old(out)@) + app_step(
                old(self)@,
                e@,
            ).1);
        }
    }
}

} // verus!
