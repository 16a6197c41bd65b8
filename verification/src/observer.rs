//! The observer: transport and application events in, infrastructure reports
//! and timestamped power reports out.
//!
//! The observer owns the persistent state. Between an enumeration start and
//! its end, identity and version observations go to a shadow, which replaces
//! the persistent identities and versions wholesale when the cycle ends;
//! outside enumeration they are inserted directly. Every mutation of the
//! persistent state yields exactly one infrastructure report, immediately.

use vstd::prelude::*;

use crate::link::GatewayID;
use crate::node_table::{
    builder_step, builder_view, fresh_builder_view, BuilderView, NodeTable, NodeTableBuilder,
};
use crate::persistent_state::{
    event_matches_state, event_matches_view, ps_view, versions_view, PersistentState,
    PersistentStateEvent, PsView,
};
use crate::pv::{slot_valid, LongAddress, NodeTableResponseEntry, PowerReport, SlotCounter};
use crate::slot_clock::{SlotClock, ANCHOR_SKEW_MS, MAX_TIME_MS};
use crate::vecmap::VecMap;

verus! {

/// A per-node power report, resolved against the gateway's slot clock.
///
/// The measurement fields are the raw wire values; scaling them to physical
/// units is presentation.
#[derive(Debug, Copy, Clone, Eq, PartialEq, Structural)]
pub struct PowerReportEvent {
    pub gateway_id: GatewayID,
    pub node_id: u16,
    /// The wall-clock instant of the measurement, in milliseconds since the
    /// epoch.
    pub timestamp_ms: i64,
    pub voltage_in: u16,
    pub voltage_out: u16,
    pub dc_dc_duty_cycle: u8,
    pub current: u16,
    pub temperature: u16,
    pub rssi: u8,
}

impl PowerReportEvent {
    /// Resolve a power report against a slot clock; a counter the clock
    /// calls invalid converts to no event.
    pub fn new(
        gateway_id: GatewayID,
        node_id: u16,
        slot_clock: &SlotClock,
        report: &PowerReport,
    ) -> (r: Result<PowerReportEvent, crate::slot_clock::SlotClockError>)
        requires
            slot_clock.wf(),
        ensures
            r is Ok <==> slot_valid(report.slot_counter.0) && slot_clock.within_one_epoch(
                report.slot_counter.0,
            ),
            r is Ok ==> r->Ok_0 == (PowerReportEvent {
                gateway_id,
                node_id,
                timestamp_ms: slot_clock.to_wall_time_spec(report.slot_counter.0) as i64,
                voltage_in: report.voltage_in,
                voltage_out: report.voltage_out,
                dc_dc_duty_cycle: report.dc_dc_duty_cycle,
                current: report.current,
                temperature: report.temperature,
                rssi: report.rssi,
            }),
    {
        match slot_clock.to_wall_time(report.slot_counter) {
            Ok(timestamp_ms) => Ok(
                PowerReportEvent {
                    gateway_id,
                    node_id,
                    timestamp_ms,
                    voltage_in: report.voltage_in,
                    voltage_out: report.voltage_out,
                    dc_dc_duty_cycle: report.dc_dc_duty_cycle,
                    current: report.current,
                    temperature: report.temperature,
                    rssi: report.rssi,
                },
            ),
            Err(e) => Err(e),
        }
    }
}

/// An event the observer emits.
#[derive(Debug)]
pub enum ObserverEvent {
    /// The persistent state changed; this is its full rendering.
    InfrastructureReport { report: PersistentStateEvent },
    /// A power report whose gateway had a disciplined slot clock.
    PowerReport { report: PowerReportEvent },
}

/// Among the events appended from `from` onward there is an infrastructure
/// report that renders the given state, and no infrastructure report follows
/// it.
pub open spec fn latest_infrastructure_matches(
    out: Seq<ObserverEvent>,
    from: int,
    ps: PersistentState,
) -> bool {
    exists|i: int|
        from <= i < out.len() && (#[trigger] out[i]) is InfrastructureReport
            && event_matches_state(out[i]->InfrastructureReport_report, ps) && (forall|j: int|
            i < j < out.len() ==> !((#[trigger] out[j]) is InfrastructureReport))
}

/// The output grew by exactly one infrastructure report, and it renders the
/// given state.
pub open spec fn emits_one_infrastructure(
    old_out: Seq<ObserverEvent>,
    new_out: Seq<ObserverEvent>,
    ps: PersistentState,
) -> bool {
    &&& new_out.len() == old_out.len() + 1
    &&& new_out.take(old_out.len() as int) == old_out
    &&& new_out.last() is InfrastructureReport
    &&& event_matches_state(new_out.last()->InfrastructureReport_report, ps)
}

/// Identity and version observations made during one enumeration cycle; on a
/// successful end they replace the persistent maps wholesale.
pub struct EnumerationState {
    pub enumeration_gateway_id: GatewayID,
    pub gateway_identities: VecMap<LongAddress>,
    pub gateway_versions: VecMap<String>,
}

impl EnumerationState {
    /// The shadow maps are sorted.
    pub open spec fn wf(&self) -> bool {
        self.gateway_identities.wf() && self.gateway_versions.wf()
    }

    /// Record an identity observed during enumeration, unless it arrived
    /// under the ephemeral bootstrap identifier, which is known to be
    /// superseded immediately.
    pub fn gateway_identity_observed(&mut self, gateway: GatewayID, address: LongAddress)
        requires
            old(self).wf(),
        ensures
            final(self).wf(),
            final(self).enumeration_gateway_id == old(self).enumeration_gateway_id,
            final(self).gateway_versions == old(self).gateway_versions,
            gateway@ == old(self).enumeration_gateway_id@ ==> final(self).gateway_identities
                == old(self).gateway_identities,
            gateway@ != old(self).enumeration_gateway_id@ ==> final(self).gateway_identities@
                == old(self).gateway_identities@.insert(gateway@ as u64, address),
    {
        if gateway.get() == self.enumeration_gateway_id.get() {
            return ;
        }
        self.gateway_identities.insert(gateway.get() as u64, address);
    }
}

/// Every pending capture instant is within the clock's accepted range.
pub open spec fn captured_wf(m: Map<u64, i64>) -> bool {
    forall|k: u64| #[trigger] m.contains_key(k) ==> 0 <= m[k] <= MAX_TIME_MS
}

/// Every disciplined clock is well formed.
pub open spec fn clocks_wf(m: Map<u64, SlotClock>) -> bool {
    forall|k: u64| #[trigger] m.contains_key(k) ==> m[k].wf()
}

/// Every table builder is well formed.
pub open spec fn builders_wf(m: Map<u64, NodeTableBuilder>) -> bool {
    forall|k: u64| #[trigger] m.contains_key(k) ==> m[k].wf()
}

/// Inserting a bounded instant keeps the captures bounded.
proof fn lemma_captured_insert(m: Map<u64, i64>, k: u64, v: i64)
    requires
        captured_wf(m),
        0 <= v <= MAX_TIME_MS,
    ensures
        captured_wf(m.insert(k, v)),
{
}

/// Removing a capture keeps the rest bounded.
proof fn lemma_captured_remove(m: Map<u64, i64>, k: u64)
    requires
        captured_wf(m),
    ensures
        captured_wf(m.remove(k)),
{
}

/// Inserting a well formed clock keeps the clocks well formed.
proof fn lemma_clocks_insert(m: Map<u64, SlotClock>, k: u64, v: SlotClock)
    requires
        clocks_wf(m),
        v.wf(),
    ensures
        clocks_wf(m.insert(k, v)),
{
}

/// Inserting a well formed builder keeps the builders well formed.
proof fn lemma_builders_insert(m: Map<u64, NodeTableBuilder>, k: u64, v: NodeTableBuilder)
    requires
        builders_wf(m),
        v.wf(),
    ensures
        builders_wf(m.insert(k, v)),
{
}

/// Removing a builder keeps the rest well formed.
proof fn lemma_builders_remove(m: Map<u64, NodeTableBuilder>, k: u64)
    requires
        builders_wf(m),
    ensures
        builders_wf(m.remove(k)),
{
}

/// An observer, monitoring a controller interacting with one or more gateways.
pub struct Observer {
    persistent_file: String,
    persistent_state: PersistentState,
    enumeration_state: Option<EnumerationState>,
    captured_slot_counters: VecMap<i64>,
    slot_clocks: VecMap<SlotClock>,
    node_table_builders: VecMap<NodeTableBuilder>,
}

impl Observer {
    /// The persistent state, as a value.
    pub closed spec fn spec_state(&self) -> PersistentState {
        self.persistent_state
    }

    /// The enumeration shadow, if a cycle is open.
    pub closed spec fn spec_enumeration(&self) -> Option<EnumerationState> {
        self.enumeration_state
    }

    /// The wall-clock instants of pending slot counter captures.
    pub closed spec fn spec_captured(&self) -> Map<u64, i64> {
        self.captured_slot_counters@
    }

    /// The disciplined slot clocks.
    pub closed spec fn spec_clocks(&self) -> Map<u64, SlotClock> {
        self.slot_clocks@
    }

    /// The node tables under assembly.
    pub closed spec fn spec_builders(&self) -> Map<u64, NodeTableBuilder> {
        self.node_table_builders@
    }

    /// The configured persistence path.
    pub closed spec fn spec_persistent_file(&self) -> Seq<char> {
        self.persistent_file@
    }

    /// Everything the observer owns is well formed and in range.
    pub closed spec fn wf(&self) -> bool {
        &&& self.persistent_state.wf()
        &&& (self.enumeration_state matches Some(e) ==> e.wf())
        &&& self.captured_slot_counters.wf()
        &&& self.slot_clocks.wf()
        &&& self.node_table_builders.wf()
        &&& captured_wf(self.captured_slot_counters@)
        &&& clocks_wf(self.slot_clocks@)
        &&& builders_wf(self.node_table_builders@)
    }

    /// Instantiate an observer with empty state.
    ///
    /// `persistent_file` is the path the caller persists snapshots to; an
    /// empty path disables disk persistence but not event emission. The
    /// observer itself performs no input or output.
    pub fn new(persistent_file: String) -> (r: Observer)
        ensures
            r.wf(),
            r.spec_state().gateway_identities@ == Map::<u64, LongAddress>::empty(),
            r.spec_state().gateway_versions@ == Map::<u64, String>::empty(),
            r.spec_state().gateway_node_tables@ == Map::<u64, NodeTable>::empty(),
            r.spec_enumeration() is None,
            r.spec_captured() == Map::<u64, i64>::empty(),
            r.spec_clocks() == Map::<u64, SlotClock>::empty(),
            r.spec_builders() == Map::<u64, NodeTableBuilder>::empty(),
            r.spec_persistent_file() == persistent_file@,
    {
        Observer {
            persistent_file,
            persistent_state: PersistentState::new(),
            enumeration_state: None,
            captured_slot_counters: VecMap::new(),
            slot_clocks: VecMap::new(),
            node_table_builders: VecMap::new(),
        }
    }

    /// The current persistent state.
    pub fn persistent_state(&self) -> (r: &PersistentState)
        ensures
            *r == self.spec_state(),
    {
        &self.persistent_state
    }

    /// The configured persistence path.
    pub fn persistent_file(&self) -> (r: &String)
        ensures
            r@ == self.spec_persistent_file(),
    {
        &self.persistent_file
    }

    /// Replace the persistent state with one restored from disk, and emit the
    /// startup infrastructure report.
    pub fn restore_persistent_state(&mut self, state: PersistentState, out: &mut Vec<ObserverEvent>)
        requires
            old(self).wf(),
            state.wf(),
        ensures
            final(self).wf(),
            final(self).spec_persistent_file() == old(self).spec_persistent_file(),
            final(self).spec_state() == state,
            final(self).spec_enumeration() == old(self).spec_enumeration(),
            final(self).spec_captured() == old(self).spec_captured(),
            final(self).spec_clocks() == old(self).spec_clocks(),
            final(self).spec_builders() == old(self).spec_builders(),
            emits_one_infrastructure(old(out)@, final(out)@, state),
    {
        self.persistent_state = state;
        let report = PersistentStateEvent::from_state(&self.persistent_state);
        out.push(ObserverEvent::InfrastructureReport { report });
        proof {
            assert(out@.take(old(out)@.len() as int) =~= old(out)@);
        }
    }

    /// An enumeration cycle opened: start shadowing identity and version
    /// observations. The persistent state is untouched and nothing is
    /// emitted.
    pub fn enumeration_started(&mut self, enumeration_gateway_id: GatewayID)
        requires
            old(self).wf(),
        ensures
            final(self).wf(),
            final(self).spec_persistent_file() == old(self).spec_persistent_file(),
            final(self).spec_state() == old(self).spec_state(),
            final(self).spec_enumeration() matches Some(e) && e.enumeration_gateway_id
                == enumeration_gateway_id && e.gateway_identities@ == Map::<
                u64,
                LongAddress,
            >::empty() && e.gateway_versions@ == Map::<u64, String>::empty(),
            final(self).spec_captured() == old(self).spec_captured(),
            final(self).spec_clocks() == old(self).spec_clocks(),
            final(self).spec_builders() == old(self).spec_builders(),
    {
        self.enumeration_state = Some(
            EnumerationState {
                enumeration_gateway_id,
                gateway_identities: VecMap::new(),
                gateway_versions: VecMap::new(),
            },
        );
    }

    /// A gateway identity was observed.
    ///
    /// While enumerating, the observation goes to the shadow and the
    /// persistent identities stay wholly the pre-enumeration state, with
    /// nothing emitted. Otherwise it is inserted directly, and the mutation
    /// is followed by exactly one infrastructure report.
    pub fn gateway_identity_observed(
        &mut self,
        gateway_id: GatewayID,
        address: LongAddress,
        out: &mut Vec<ObserverEvent>,
    )
        requires
            old(self).wf(),
        ensures
            final(self).wf(),
            final(self).spec_persistent_file() == old(self).spec_persistent_file(),
            final(self).spec_captured() == old(self).spec_captured(),
            final(self).spec_clocks() == old(self).spec_clocks(),
            final(self).spec_builders() == old(self).spec_builders(),
            old(self).spec_enumeration() is Some ==> {
                &&& final(self).spec_state() == old(self).spec_state()
                &&& final(out)@ == old(out)@
                &&& final(self).spec_enumeration() is Some
                &&& {
                    let e0 = old(self).spec_enumeration()->0;
                    let e1 = final(self).spec_enumeration()->0;
                    &&& e1.enumeration_gateway_id == e0.enumeration_gateway_id
                    &&& e1.gateway_versions == e0.gateway_versions
                    &&& (gateway_id@ == e0.enumeration_gateway_id@ ==> e1.gateway_identities
                        == e0.gateway_identities)
                    &&& (gateway_id@ != e0.enumeration_gateway_id@ ==> e1.gateway_identities@
                        == e0.gateway_identities@.insert(gateway_id@ as u64, address))
                }
            },
            old(self).spec_enumeration() is None ==> {
                &&& final(self).spec_enumeration() is None
                &&& final(self).spec_state().gateway_identities@ == old(self).spec_state().gateway_identities@.insert(gateway_id@ as u64, address)
                &&& final(self).spec_state().gateway_versions == old(self).spec_state().gateway_versions
                &&& final(self).spec_state().gateway_node_tables == old(self).spec_state().gateway_node_tables
                &&& emits_one_infrastructure(old(out)@, final(out)@, final(self).spec_state())
            },
    {
        match self.enumeration_state {
            Some(ref mut enumeration_state) => {
                enumeration_state.gateway_identity_observed(gateway_id, address);
            }
            None => {
                self.persistent_state.gateway_identities.insert(
                    gateway_id.get() as u64,
                    address,
                );
                let report = PersistentStateEvent::from_state(&self.persistent_state);
                out.push(ObserverEvent::InfrastructureReport { report });
                proof {
                    assert(out@.take(old(out)@.len() as int) =~= old(out)@);
                }
            }
        }
    }

    /// A gateway version was observed: shadowed while enumerating, otherwise
    /// inserted directly and followed by exactly one infrastructure report.
    pub fn gateway_version_observed(
        &mut self,
        gateway_id: GatewayID,
        version: String,
        out: &mut Vec<ObserverEvent>,
    )
        requires
            old(self).wf(),
        ensures
            final(self).wf(),
            final(self).spec_persistent_file() == old(self).spec_persistent_file(),
            final(self).spec_captured() == old(self).spec_captured(),
            final(self).spec_clocks() == old(self).spec_clocks(),
            final(self).spec_builders() == old(self).spec_builders(),
            old(self).spec_enumeration() is Some ==> {
                &&& final(self).spec_state() == old(self).spec_state()
                &&& final(out)@ == old(out)@
                &&& final(self).spec_enumeration() is Some
                &&& {
                    let e0 = old(self).spec_enumeration()->0;
                    let e1 = final(self).spec_enumeration()->0;
                    &&& e1.enumeration_gateway_id == e0.enumeration_gateway_id
                    &&& e1.gateway_identities == e0.gateway_identities
                    &&& e1.gateway_versions@ == e0.gateway_versions@.insert(
                        gateway_id@ as u64,
                        version,
                    )
                }
            },
            old(self).spec_enumeration() is None ==> {
                &&& final(self).spec_enumeration() is None
                &&& final(self).spec_state().gateway_versions@ == old(self).spec_state().gateway_versions@.insert(gateway_id@ as u64, version)
                &&& final(self).spec_state().gateway_identities == old(self).spec_state().gateway_identities
                &&& final(self).spec_state().gateway_node_tables == old(self).spec_state().gateway_node_tables
                &&& emits_one_infrastructure(old(out)@, final(out)@, final(self).spec_state())
            },
    {
        match self.enumeration_state {
            Some(ref mut enumeration_state) => {
                enumeration_state.gateway_versions.insert(gateway_id.get() as u64, version);
            }
            None => {
                self.persistent_state.gateway_versions.insert(gateway_id.get() as u64, version);
                let report = PersistentStateEvent::from_state(&self.persistent_state);
                out.push(ObserverEvent::InfrastructureReport { report });
                proof {
                    assert(out@.take(old(out)@.len() as int) =~= old(out)@);
                }
            }
        }
    }

    /// An enumeration cycle ended: if one was being shadowed, its identities
    /// and versions replace the persistent ones wholesale — a complete swap,
    /// not a merge — and exactly one infrastructure report follows. Without
    /// an open cycle nothing happens.
    pub fn enumeration_ended(&mut self, _gateway_id: GatewayID, out: &mut Vec<ObserverEvent>)
        requires
            old(self).wf(),
        ensures
            final(self).wf(),
            final(self).spec_persistent_file() == old(self).spec_persistent_file(),
            final(self).spec_enumeration() is None,
            final(self).spec_captured() == old(self).spec_captured(),
            final(self).spec_clocks() == old(self).spec_clocks(),
            final(self).spec_builders() == old(self).spec_builders(),
            old(self).spec_enumeration() is Some ==> {
                &&& final(self).spec_state().gateway_identities == old(self).spec_enumeration()->0.gateway_identities
                &&& final(self).spec_state().gateway_versions == old(self).spec_enumeration()->0.gateway_versions
                &&& final(self).spec_state().gateway_node_tables == old(self).spec_state().gateway_node_tables
                &&& emits_one_infrastructure(old(out)@, final(out)@, final(self).spec_state())
            },
            old(self).spec_enumeration() is None ==> final(self).spec_state() == old(self).spec_state() && final(out)@ == old(out)@,
    {
        let taken = self.enumeration_state.take();
        match taken {
            Some(enumeration_state) => {
                self.persistent_state.gateway_identities = enumeration_state.gateway_identities;
                self.persistent_state.gateway_versions = enumeration_state.gateway_versions;
                let report = PersistentStateEvent::from_state(&self.persistent_state);
                out.push(ObserverEvent::InfrastructureReport { report });
                proof {
                    assert(out@.take(old(out)@.len() as int) =~= old(out)@);
                }
            }
            None => {},
        }
    }

    /// The controller asked for received traffic: remember when, so the
    /// response's slot counter can be anchored to this instant.
    pub fn gateway_slot_counter_captured(&mut self, gateway_id: GatewayID, now_ms: i64)
        requires
            old(self).wf(),
            0 <= now_ms <= MAX_TIME_MS,
        ensures
            final(self).wf(),
            final(self).spec_persistent_file() == old(self).spec_persistent_file(),
            final(self).spec_state() == old(self).spec_state(),
            final(self).spec_enumeration() == old(self).spec_enumeration(),
            final(self).spec_captured() == old(self).spec_captured().insert(
                gateway_id@ as u64,
                now_ms,
            ),
            final(self).spec_clocks() == old(self).spec_clocks(),
            final(self).spec_builders() == old(self).spec_builders(),
    {
        proof {
            lemma_captured_insert(self.captured_slot_counters@, gateway_id@ as u64, now_ms);
        }
        self.captured_slot_counters.insert(gateway_id.get() as u64, now_ms);
    }

    /// The matching response carried the captured counter: pair it with the
    /// stored instant and discipline the gateway's clock. An observation
    /// without a pending capture is dropped; so is one the clock refuses.
    pub fn gateway_slot_counter_observed(&mut self, gateway_id: GatewayID, slot_counter: SlotCounter)
        requires
            old(self).wf(),
        ensures
            final(self).wf(),
            final(self).spec_persistent_file() == old(self).spec_persistent_file(),
            final(self).spec_state() == old(self).spec_state(),
            final(self).spec_enumeration() == old(self).spec_enumeration(),
            final(self).spec_builders() == old(self).spec_builders(),
            !old(self).spec_captured().contains_key(gateway_id@ as u64) ==> final(self).spec_captured() == old(self).spec_captured() && final(self).spec_clocks() == old(self).spec_clocks(),
            old(self).spec_captured().contains_key(gateway_id@ as u64) ==> {
                let k = gateway_id@ as u64;
                let t = old(self).spec_captured()[k];
                &&& final(self).spec_captured() == old(self).spec_captured().remove(k)
                &&& (old(self).spec_clocks().contains_key(k) ==> final(self).spec_clocks() == (
                if slot_valid(slot_counter.0) && t + ANCHOR_SKEW_MS
                    >= old(self).spec_clocks()[k].anchor_time_ms {
                    old(self).spec_clocks().insert(
                        k,
                        SlotClock { anchor_counter: slot_counter, anchor_time_ms: t },
                    )
                } else {
                    old(self).spec_clocks()
                }))
                &&& (!old(self).spec_clocks().contains_key(k) ==> final(self).spec_clocks() == (
                if slot_valid(slot_counter.0) {
                    old(self).spec_clocks().insert(
                        k,
                        SlotClock { anchor_counter: slot_counter, anchor_time_ms: t },
                    )
                } else {
                    old(self).spec_clocks()
                }))
            },
    {
        let k = gateway_id.get() as u64;
        proof {
            lemma_captured_remove(self.captured_slot_counters@, gateway_id@ as u64);
        }
        let taken = self.captured_slot_counters.remove(k);
        match taken {
            None => {},
            Some(time_ms) => {
                let existing: Option<SlotClock> = match self.slot_clocks.get(k) {
                    Some(c) => Some(*c),
                    None => None,
                };
                match existing {
                    Some(mut clock) => {
                        match clock.set(slot_counter, time_ms) {
                            Ok(()) => {
                                proof {
                                    lemma_clocks_insert(self.slot_clocks@, k, clock);
                                }
                                self.slot_clocks.insert(k, clock);
                            }
                            Err(_) => {},
                        }
                    }
                    None => {
                        match SlotClock::new(slot_counter, time_ms) {
                            Ok(clock) => {
                                proof {
                                    lemma_clocks_insert(self.slot_clocks@, k, clock);
                                }
                                self.slot_clocks.insert(k, clock);
                            }
                            Err(_) => {},
                        }
                    }
                }
            }
        }
    }

    /// One page of a gateway's node table arrived. The builder for that
    /// gateway advances exactly as [`builder_step`] says; when the page
    /// completes the table, the table is persisted and exactly one
    /// infrastructure report follows, and otherwise nothing is emitted.
    pub fn node_table_page(
        &mut self,
        gateway_id: GatewayID,
        start_address: u16,
        entries: &Vec<NodeTableResponseEntry>,
        out: &mut Vec<ObserverEvent>,
    )
        requires
            old(self).wf(),
        ensures
            final(self).wf(),
            final(self).spec_enumeration() == old(self).spec_enumeration(),
            final(self).spec_captured() == old(self).spec_captured(),
            final(self).spec_clocks() == old(self).spec_clocks(),
            final(self).spec_persistent_file() == old(self).spec_persistent_file(),
            final(self).spec_state().gateway_identities == old(self).spec_state().gateway_identities,
            final(self).spec_state().gateway_versions == old(self).spec_state().gateway_versions,
            ({
                let k = gateway_id@ as u64;
                let b0 = if old(self).spec_builders().contains_key(k) {
                    builder_view(old(self).spec_builders()[k])
                } else {
                    fresh_builder_view()
                };
                let step = builder_step(b0, start_address, entries@);
                &&& final(self).spec_builders().contains_key(k)
                &&& builder_view(final(self).spec_builders()[k]) == step.0
                &&& final(self).spec_builders() == old(self).spec_builders().insert(
                    k,
                    final(self).spec_builders()[k],
                )
                &&& (step.1 is Some ==> {
                    let nt = final(self).spec_state().gateway_node_tables@;
                    &&& nt.contains_key(k)
                    &&& nt[k].nodes@ == step.1->0
                    &&& nt == old(self).spec_state().gateway_node_tables@.insert(k, nt[k])
                    &&& emits_one_infrastructure(old(out)@, final(out)@, final(self).spec_state())
                })
                &&& (step.1 is None ==> final(self).spec_state() == old(self).spec_state()
                    && final(out)@ == old(out)@)
            }),
    {
        let k = gateway_id.get() as u64;
        proof {
            lemma_builders_remove(self.node_table_builders@, gateway_id@ as u64);
        }
        let taken = self.node_table_builders.remove(k);
        let mut builder = match taken {
            Some(b) => b,
            None => NodeTableBuilder::new(),
        };
        proof {
            if !old(self).spec_builders().contains_key(gateway_id@ as u64) {
                assert(builder_view(builder) =~= fresh_builder_view());
            }
        }
        let done = builder.push(start_address, entries);
        proof {
            lemma_builders_insert(self.node_table_builders@, k, builder);
        }
        self.node_table_builders.insert(k, builder);
        proof {
            assert(self.node_table_builders@ =~= old(self).spec_builders().insert(k, builder));
        }
        match done {
            Some(table) => {
                self.persistent_state.gateway_node_tables.insert(k, table);
                let report = PersistentStateEvent::from_state(&self.persistent_state);
                out.push(ObserverEvent::InfrastructureReport { report });
                proof {
                    assert(out@.take(old(out)@.len() as int) =~= old(out)@);
                }
            }
            None => {},
        }
    }

    /// A power report arrived. It is emitted, timestamped, exactly when its
    /// gateway has a disciplined slot clock and the report's counter names a
    /// real slot at most one epoch ahead of the anchor; without a clock, or
    /// with a counter the clock calls invalid, it is dropped without event.
    pub fn power_report(
        &mut self,
        gateway_id: GatewayID,
        node_id: u16,
        report: &PowerReport,
        out: &mut Vec<ObserverEvent>,
    )
        requires
            old(self).wf(),
        ensures
            final(self).wf(),
            *final(self) == *old(self),
            ({
                let k = gateway_id@ as u64;
                if old(self).spec_clocks().contains_key(k) && slot_valid(report.slot_counter.0)
                    && old(self).spec_clocks()[k].within_one_epoch(report.slot_counter.0) {
                    let clock = old(self).spec_clocks()[k];
                    &&& final(out)@.len() == old(out)@.len() + 1
                    &&& final(out)@.take(old(out)@.len() as int) == old(out)@
                    &&& final(out)@.last() == (ObserverEvent::PowerReport {
                        report: PowerReportEvent {
                            gateway_id,
                            node_id,
                            timestamp_ms: clock.to_wall_time_spec(report.slot_counter.0) as i64,
                            voltage_in: report.voltage_in,
                            voltage_out: report.voltage_out,
                            dc_dc_duty_cycle: report.dc_dc_duty_cycle,
                            current: report.current,
                            temperature: report.temperature,
                            rssi: report.rssi,
                        },
                    })
                } else {
                    final(out)@ == old(out)@
                }
            }),
    {
        let k = gateway_id.get() as u64;
        match self.slot_clocks.get(k) {
            None => {},
            Some(clock) => {
                match PowerReportEvent::new(gateway_id, node_id, clock, report) {
                    Ok(event) => {
                        out.push(ObserverEvent::PowerReport { report: event });
                        proof {
                            assert(out@.take(old(out)@.len() as int) =~= old(out)@);
                        }
                    }
                    Err(_) => {},
                }
            }
        }
    }
}

} // verus!

// The observer's mathematical step functions, the sink methods it takes no
// action on, and the event dispatchers.
use crate::application::{ApplicationEvent, ApplicationEventView};
use crate::pv::{PacketType, ReceivedPacketHeader, TopologyReport};
use crate::transport::{TransportEvent, TransportEventView};

verus! {

/// The mathematical state of an enumeration shadow.
#[verifier::ext_equal]
pub struct EnumView {
    pub enumeration_gateway_id: u16,
    pub identities: Map<u64, LongAddress>,
    pub versions: Map<u64, Seq<char>>,
}

/// The state an enumeration shadow value denotes.
pub open spec fn enum_view(e: EnumerationState) -> EnumView {
    EnumView {
        enumeration_gateway_id: e.enumeration_gateway_id@,
        identities: e.gateway_identities@,
        versions: versions_view(e.gateway_versions@),
    }
}

/// The state view of a map of table builders.
pub open spec fn builders_view(m: Map<u64, NodeTableBuilder>) -> Map<u64, BuilderView> {
    m.map_values(|b: NodeTableBuilder| builder_view(b))
}

/// The mathematical state of an observer.
#[verifier::ext_equal]
pub struct ObsView {
    pub state: PsView,
    pub enumeration: Option<EnumView>,
    pub captured: Map<u64, i64>,
    pub clocks: Map<u64, SlotClock>,
    pub builders: Map<u64, BuilderView>,
    pub persistent_file: Seq<char>,
}

impl View for Observer {
    type V = ObsView;

    open spec fn view(&self) -> ObsView {
        ObsView {
            state: ps_view(self.spec_state()),
            enumeration: match self.spec_enumeration() {
                Some(e) => Some(enum_view(e)),
                None => None,
            },
            captured: self.spec_captured(),
            clocks: self.spec_clocks(),
            builders: builders_view(self.spec_builders()),
            persistent_file: self.spec_persistent_file(),
        }
    }
}

/// The shape of one event the observer emits: an infrastructure report is
/// identified by the state it renders, a power report by its fields.
#[verifier::ext_equal]
pub enum ObserverEventView {
    Infrastructure { state: PsView },
    Power { gateway_id: u16, node_id: u16, timestamp_ms: i64, report: PowerReport },
}

/// Does an emitted event have this shape?
pub open spec fn observer_event_matches(a: ObserverEvent, x: ObserverEventView) -> bool {
    match x {
        ObserverEventView::Infrastructure { state } => a is InfrastructureReport
            && event_matches_view(a->InfrastructureReport_report, state),
        ObserverEventView::Power { gateway_id, node_id, timestamp_ms, report } => {
            &&& a is PowerReport
            &&& a->PowerReport_report.gateway_id@ == gateway_id
            &&& a->PowerReport_report.node_id == node_id
            &&& a->PowerReport_report.timestamp_ms == timestamp_ms
            &&& a->PowerReport_report.voltage_in == report.voltage_in
            &&& a->PowerReport_report.voltage_out == report.voltage_out
            &&& a->PowerReport_report.dc_dc_duty_cycle == report.dc_dc_duty_cycle
            &&& a->PowerReport_report.current == report.current
            &&& a->PowerReport_report.temperature == report.temperature
            &&& a->PowerReport_report.rssi == report.rssi
        }
    }
}

/// Do the emitted events have these shapes, element for element?
pub open spec fn observer_events_match(
    actual: Seq<ObserverEvent>,
    expected: Seq<ObserverEventView>,
) -> bool {
    actual.len() == expected.len() && (forall|i: int|
        0 <= i < actual.len() ==> observer_event_matches(#[trigger] actual[i], expected[i]))
}

/// One transport event of progress for the observer: the new state and the
/// shapes of the events emitted, in order.
pub open spec fn obs_transport_step(s: ObsView, e: TransportEventView, now_ms: i64) -> (
    ObsView,
    Seq<ObserverEventView>,
) {
    match e {
        TransportEventView::EnumerationStarted { gateway_id } => (
            ObsView {
                enumeration: Some(
                    EnumView {
                        enumeration_gateway_id: gateway_id,
                        identities: Map::empty(),
                        versions: Map::empty(),
                    },
                ),
                ..s
            },
            Seq::empty(),
        ),
        TransportEventView::GatewayIdentityObserved { gateway_id, address } => match s.enumeration {
            Some(en) => {
                if gateway_id == en.enumeration_gateway_id {
                    (s, Seq::empty())
                } else {
                    (
                        ObsView {
                            enumeration: Some(
                                EnumView {
                                    identities: en.identities.insert(gateway_id as u64, address),
                                    ..en
                                },
                            ),
                            ..s
                        },
                        Seq::empty(),
                    )
                }
            }
            None => {
                let st = PsView {
                    identities: s.state.identities.insert(gateway_id as u64, address),
                    ..s.state
                };
                (
                    ObsView { state: st, ..s },
                    seq![ObserverEventView::Infrastructure { state: st }],
                )
            }
        },
        TransportEventView::GatewayVersionObserved { gateway_id, version } => match s.enumeration {
            Some(en) => (
                ObsView {
                    enumeration: Some(
                        EnumView { versions: en.versions.insert(gateway_id as u64, version), ..en },
                    ),
                    ..s
                },
                Seq::empty(),
            ),
            None => {
                let st = PsView {
                    versions: s.state.versions.insert(gateway_id as u64, version),
                    ..s.state
                };
                (
                    ObsView { state: st, ..s },
                    seq![ObserverEventView::Infrastructure { state: st }],
                )
            }
        },
        TransportEventView::EnumerationEnded { .. } => match s.enumeration {
            Some(en) => {
                let st = PsView { identities: en.identities, versions: en.versions, ..s.state };
                (
                    ObsView { state: st, enumeration: None, ..s },
                    seq![ObserverEventView::Infrastructure { state: st }],
                )
            }
            None => (s, Seq::empty()),
        },
        TransportEventView::GatewaySlotCounterCaptured { gateway_id } => (
            ObsView { captured: s.captured.insert(gateway_id as u64, now_ms), ..s },
            Seq::empty(),
        ),
        TransportEventView::GatewaySlotCounterObserved { gateway_id, slot_counter } => {
            let k = gateway_id as u64;
            if !s.captured.contains_key(k) {
                (s, Seq::empty())
            } else {
                let t = s.captured[k];
                let clock = SlotClock { anchor_counter: slot_counter, anchor_time_ms: t };
                let clocks = if s.clocks.contains_key(k) {
                    if slot_valid(slot_counter.0) && t + ANCHOR_SKEW_MS
                        >= s.clocks[k].anchor_time_ms {
                        s.clocks.insert(k, clock)
                    } else {
                        s.clocks
                    }
                } else {
                    if slot_valid(slot_counter.0) {
                        s.clocks.insert(k, clock)
                    } else {
                        s.clocks
                    }
                };
                (ObsView { captured: s.captured.remove(k), clocks, ..s }, Seq::empty())
            }
        },
        TransportEventView::PacketReceived { .. } => (s, Seq::empty()),
        TransportEventView::CommandExecuted { .. } => (s, Seq::empty()),
    }
}

/// One application event of progress for the observer.
pub open spec fn obs_application_step(s: ObsView, e: ApplicationEventView) -> (
    ObsView,
    Seq<ObserverEventView>,
) {
    match e {
        ApplicationEventView::NodeTablePage { gateway_id, start_address, entries } => {
            let k = gateway_id as u64;
            let b0 = if s.builders.contains_key(k) {
                s.builders[k]
            } else {
                fresh_builder_view()
            };
            let step = builder_step(b0, start_address, entries);
            let builders = s.builders.insert(k, step.0);
            match step.1 {
                Some(m) => {
                    let st = PsView { node_tables: s.state.node_tables.insert(k, m), ..s.state };
                    (
                        ObsView { state: st, builders, ..s },
                        seq![ObserverEventView::Infrastructure { state: st }],
                    )
                }
                None => (ObsView { builders, ..s }, Seq::empty()),
            }
        }
        ApplicationEventView::PowerReport { gateway_id, node_id, report } => {
            let k = gateway_id as u64;
            if s.clocks.contains_key(k) && slot_valid(report.slot_counter.0)
                && s.clocks[k].within_one_epoch(report.slot_counter.0) {
                (
                    s,
                    seq![
                        ObserverEventView::Power {
                            gateway_id,
                            node_id,
                            timestamp_ms: s.clocks[k].to_wall_time_spec(
                                report.slot_counter.0,
                            ) as i64,
                            report,
                        },
                    ],
                )
            } else {
                (s, Seq::empty())
            }
        }
        ApplicationEventView::StringRequest { .. } => (s, Seq::empty()),
        ApplicationEventView::StringResponse { .. } => (s, Seq::empty()),
        ApplicationEventView::TopologyReport { .. } => (s, Seq::empty()),
    }
}

/// An unchanged output matches an empty shape list.
pub proof fn lemma_events_match_empty(out: Seq<ObserverEvent>, n: int)
    requires
        0 <= n == out.len(),
    ensures
        observer_events_match(out.skip(n), Seq::empty()),
{
    assert(out.skip(n) =~= Seq::<ObserverEvent>::empty());
}

/// An output grown by one matching event matches the singleton shape list.
proof fn lemma_events_match_one(pre: Seq<ObserverEvent>, post: Seq<ObserverEvent>, x: ObserverEventView)
    requires
        post.len() == pre.len() + 1,
        post.take(pre.len() as int) == pre,
        observer_event_matches(post.last(), x),
    ensures
        observer_events_match(post.skip(pre.len() as int), seq![x]),
{
    assert(post.skip(pre.len() as int) =~= seq![post.last()]);
}

/// Mapping the version view over an insert inserts the view.
proof fn lemma_versions_view_insert(m: Map<u64, String>, k: u64, v: String)
    ensures
        versions_view(m.insert(k, v)) == versions_view(m).insert(k, v@),
{
    assert(versions_view(m.insert(k, v)) =~= versions_view(m).insert(k, v@));
}

/// Mapping the table view over an insert inserts the view.
proof fn lemma_tables_view_insert(m: Map<u64, NodeTable>, k: u64, t: NodeTable)
    ensures
        crate::persistent_state::tables_view(m.insert(k, t))
            == crate::persistent_state::tables_view(m).insert(k, t.nodes@),
{
    assert(crate::persistent_state::tables_view(m.insert(k, t))
        =~= crate::persistent_state::tables_view(m).insert(k, t.nodes@));
}

/// Mapping the builder view over an insert inserts the view.
proof fn lemma_builders_view_insert(m: Map<u64, NodeTableBuilder>, k: u64, b: NodeTableBuilder)
    ensures
        builders_view(m.insert(k, b)) == builders_view(m).insert(k, builder_view(b)),
{
    assert(builders_view(m.insert(k, b)) =~= builders_view(m).insert(k, builder_view(b)));
}

impl Observer {
    /// A raw PV packet was received; the observer acts only on its decoded
    /// forms.
    pub fn packet_received(
        &mut self,
        _gateway_id: GatewayID,
        _packet_header: &ReceivedPacketHeader,
        _packet_data: &[u8],
    )
        ensures
            *final(self) == *old(self),
    {
    }

    /// A command exchange completed; the observer acts only on its decoded
    /// forms.
    pub fn command_executed(
        &mut self,
        _gateway_id: GatewayID,
        _request_type: PacketType,
        _request_data: &[u8],
        _response_type: PacketType,
        _response_data: &[u8],
    )
        ensures
            *final(self) == *old(self),
    {
    }

    /// A string command was observed; the observer keeps no string state.
    pub fn string_request(&mut self, _gateway_id: GatewayID, _pv_node_id: u16, _request: &str)
        ensures
            *final(self) == *old(self),
    {
    }

    /// A string answer was observed; the observer keeps no string state.
    pub fn string_response(&mut self, _gateway_id: GatewayID, _pv_node_id: u16, _response: &str)
        ensures
            *final(self) == *old(self),
    {
    }

    /// A topology report was observed; the observer keeps no topology state.
    pub fn topology_report(
        &mut self,
        _gateway_id: GatewayID,
        _pv_node_id: u16,
        _topology_report: &TopologyReport,
    )
        ensures
            *final(self) == *old(self),
    {
    }

    /// Feed the observer one transport event; `now_ms` is the wall clock at
    /// which the event was decoded. The observer advances exactly as
    /// [`obs_transport_step`] says, and the appended events have exactly the
    /// shapes that step yields; whenever the persistent state changes, it is
    /// followed by exactly one infrastructure report, before any further
    /// input is consumed.
    pub fn on_transport_event(
        &mut self,
        e: &TransportEvent,
        now_ms: i64,
        out: &mut Vec<ObserverEvent>,
    )
        requires
            old(self).wf(),
            0 <= now_ms <= MAX_TIME_MS,
        ensures
            final(self).wf(),
            final(self)@ == obs_transport_step(old(self)@, e@, now_ms).0,
            final(out)@.len() >= old(out)@.len(),
            final(out)@.take(old(out)@.len() as int) == old(out)@,
            observer_events_match(
                final(out)@.skip(old(out)@.len() as int),
                obs_transport_step(old(self)@, e@, now_ms).1,
            ),
            final(self).spec_state() != old(self).spec_state() ==> emits_one_infrastructure(
                old(out)@,
                final(out)@,
                final(self).spec_state(),
            ),
            forall|j: int|
                old(out)@.len() <= j < final(out)@.len() && (#[trigger] final(out)@[j])
                    is InfrastructureReport ==> event_matches_state(
                    final(out)@[j]->InfrastructureReport_report,
                    final(self).spec_state(),
                ) && j == final(out)@.len() - 1,
    {
        let ghost step = obs_transport_step(old(self)@, e@, now_ms);
        match e {
            TransportEvent::EnumerationStarted { gateway_id } => {
                self.enumeration_started(*gateway_id);
                proof {
                    assert(self@.enumeration->0 =~~= step.0.enumeration->0);
                    assert(self@ =~~= step.0);
                    lemma_events_match_empty(out@, old(out)@.len() as int);
                }
            }
            TransportEvent::GatewayIdentityObserved { gateway_id, address } => {
                self.gateway_identity_observed(*gateway_id, *address, out);
                proof {
                    if old(self).spec_enumeration() is Some {
                        assert(self@.enumeration->0 =~~= step.0.enumeration->0);
                        assert(self@ =~~= step.0);
                        lemma_events_match_empty(out@, old(out)@.len() as int);
                    } else {
                        assert(self@.state =~~= step.0.state);
                        assert(self@ =~~= step.0);
                        lemma_events_match_one(old(out)@, out@, step.1[0]);
                    }
                }
            }
            TransportEvent::GatewayVersionObserved { gateway_id, version } => {
                let owned = version.clone();
                self.gateway_version_observed(*gateway_id, owned, out);
                proof {
                    if old(self).spec_enumeration() is Some {
                        lemma_versions_view_insert(
                            old(self).spec_enumeration()->0.gateway_versions@,
                            gateway_id@ as u64,
                            owned,
                        );
                        assert(self@.enumeration->0 =~~= step.0.enumeration->0);
                        assert(self@ =~~= step.0);
                        lemma_events_match_empty(out@, old(out)@.len() as int);
                    } else {
                        lemma_versions_view_insert(
                            old(self).spec_state().gateway_versions@,
                            gateway_id@ as u64,
                            owned,
                        );
                        assert(self@.state =~~= step.0.state);
                        assert(self@ =~~= step.0);
                        lemma_events_match_one(old(out)@, out@, step.1[0]);
                    }
                }
            }
            TransportEvent::EnumerationEnded { gateway_id } => {
                self.enumeration_ended(*gateway_id, out);
                proof {
                    if old(self).spec_enumeration() is Some {
                        assert(self@.state =~~= step.0.state);
                        assert(self@ =~~= step.0);
                        lemma_events_match_one(old(out)@, out@, step.1[0]);
                    } else {
                        assert(self@ =~~= step.0);
                        lemma_events_match_empty(out@, old(out)@.len() as int);
                    }
                }
            }
            TransportEvent::GatewaySlotCounterCaptured { gateway_id } => {
                self.gateway_slot_counter_captured(*gateway_id, now_ms);
                proof {
                    assert(self@ =~~= step.0);
                    lemma_events_match_empty(out@, old(out)@.len() as int);
                }
            }
            TransportEvent::GatewaySlotCounterObserved { gateway_id, slot_counter } => {
                self.gateway_slot_counter_observed(*gateway_id, *slot_counter);
                proof {
                    assert(self@ =~~= step.0);
                    lemma_events_match_empty(out@, old(out)@.len() as int);
                }
            }
            TransportEvent::PacketReceived { gateway_id, header, data } => {
                self.packet_received(*gateway_id, header, data.as_slice());
                proof {
                    assert(self@ =~~= step.0);
                    lemma_events_match_empty(out@, old(out)@.len() as int);
                }
            }
            TransportEvent::CommandExecuted {
                gateway_id,
                request_type,
                request_data,
                response_type,
                response_data,
            } => {
                self.command_executed(
                    *gateway_id,
                    *request_type,
                    request_data.as_slice(),
                    *response_type,
                    response_data.as_slice(),
                );
                proof {
                    assert(self@ =~~= step.0);
                    lemma_events_match_empty(out@, old(out)@.len() as int);
                }
            }
        }
    }

    /// Feed the observer one application event. The observer advances exactly
    /// as [`obs_application_step`] says, and the appended events have exactly
    /// the shapes that step yields; whenever the persistent state changes, it
    /// is followed by exactly one infrastructure report.
    pub fn on_application_event(&mut self, e: &ApplicationEvent, out: &mut Vec<ObserverEvent>)
        requires
            old(self).wf(),
        ensures
            final(self).wf(),
            final(self)@ == obs_application_step(old(self)@, e@).0,
            final(out)@.len() >= old(out)@.len(),
            final(out)@.take(old(out)@.len() as int) == old(out)@,
            observer_events_match(
                final(out)@.skip(old(out)@.len() as int),
                obs_application_step(old(self)@, e@).1,
            ),
            final(self).spec_state() != old(self).spec_state() ==> emits_one_infrastructure(
                old(out)@,
                final(out)@,
                final(self).spec_state(),
            ),
            forall|j: int|
                old(out)@.len() <= j < final(out)@.len() && (#[trigger] final(out)@[j])
                    is InfrastructureReport ==> event_matches_state(
                    final(out)@[j]->InfrastructureReport_report,
                    final(self).spec_state(),
                ) && j == final(out)@.len() - 1,
    {
        let ghost step = obs_application_step(old(self)@, e@);
        match e {
            ApplicationEvent::StringRequest { gateway_id, node_id, request } => {
                self.string_request(*gateway_id, *node_id, request.as_str());
                proof {
                    assert(self@ =~~= step.0);
                    lemma_events_match_empty(out@, old(out)@.len() as int);
                }
            }
            ApplicationEvent::StringResponse { gateway_id, node_id, response } => {
                self.string_response(*gateway_id, *node_id, response.as_str());
                proof {
                    assert(self@ =~~= step.0);
                    lemma_events_match_empty(out@, old(out)@.len() as int);
                }
            }
            ApplicationEvent::NodeTablePage { gateway_id, start_address, entries } => {
                self.node_table_page(*gateway_id, *start_address, entries, out);
                proof {
                    let k = gateway_id@ as u64;
                    let b0 = if old(self)@.builders.contains_key(k) {
                        old(self)@.builders[k]
                    } else {
                        fresh_builder_view()
                    };
                    let bstep = builder_step(b0, *start_address, entries@);
                    lemma_builders_view_insert(
                        old(self).spec_builders(),
                        k,
                        self.spec_builders()[k],
                    );
                    assert(self@.builders =~~= old(self)@.builders.insert(k, bstep.0));
                    if bstep.1 is Some {
                        lemma_tables_view_insert(
                            old(self).spec_state().gateway_node_tables@,
                            k,
                            self.spec_state().gateway_node_tables@[k],
                        );
                        assert(self@.state =~~= step.0.state);
                        assert(self@ =~~= step.0);
                        lemma_events_match_one(old(out)@, out@, step.1[0]);
                    } else {
                        assert(self@ =~~= step.0);
                        lemma_events_match_empty(out@, old(out)@.len() as int);
                    }
                }
            }
            ApplicationEvent::TopologyReport { gateway_id, node_id, report } => {
                self.topology_report(*gateway_id, *node_id, report);
                proof {
                    assert(self@ =~~= step.0);
                    lemma_events_match_empty(out@, old(out)@.len() as int);
                }
            }
            ApplicationEvent::PowerReport { gateway_id, node_id, report } => {
                self.power_report(*gateway_id, *node_id, report, out);
                proof {
                    assert(self@ =~~= step.0);
                    if old(self)@.clocks.contains_key(gateway_id@ as u64) && slot_valid(
                        report.slot_counter.0,
                    ) && old(self)@.clocks[gateway_id@ as u64].within_one_epoch(
                        report.slot_counter.0,
                    ) {
                        lemma_events_match_one(old(out)@, out@, step.1[0]);
                    } else {
                        lemma_events_match_empty(out@, old(out)@.len() as int);
                    }
                }
            }
        }
    }
}

} // verus!
