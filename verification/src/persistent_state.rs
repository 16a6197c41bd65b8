//! Persistent state of an observed network, and its report form.
//!
//! Hardware addresses, version strings and node tables are exchanged
//! infrequently; the observer captures them here. Every change is reported as
//! an infrastructure event: a rendering of the whole state with addresses as
//! uppercase hex octet strings and nodes carrying their barcodes.

use vstd::prelude::*;

use crate::barcode::{format_long_address, hex_colon, Barcode};
use crate::node_table::NodeTable;
use crate::pv::LongAddress;
use crate::vecmap::VecMap;

verus! {

/// Persistent state of an observed network, keyed by gateway identifier.
#[derive(Debug, Clone)]
pub struct PersistentState {
    pub gateway_node_tables: VecMap<NodeTable>,
    pub gateway_identities: VecMap<LongAddress>,
    pub gateway_versions: VecMap<String>,
}

impl PersistentState {
    /// The maps are sorted, and every node table is too.
    pub open spec fn wf(&self) -> bool {
        &&& self.gateway_node_tables.wf()
        &&& self.gateway_identities.wf()
        &&& self.gateway_versions.wf()
        &&& forall|k: u64|
            self.gateway_node_tables@.contains_key(k)
                ==> (#[trigger] self.gateway_node_tables@[k]).wf()
    }

    /// A state with nothing captured.
    pub fn new() -> (r: PersistentState)
        ensures
            r.wf(),
            r.gateway_node_tables@ == Map::<u64, NodeTable>::empty(),
            r.gateway_identities@ == Map::<u64, LongAddress>::empty(),
            r.gateway_versions@ == Map::<u64, String>::empty(),
    {
        PersistentState {
            gateway_node_tables: VecMap::new(),
            gateway_identities: VecMap::new(),
            gateway_versions: VecMap::new(),
        }
    }
}

/// One gateway in an infrastructure report: its rendered hardware address and
/// its version string.
#[derive(Debug)]
pub struct PersistentStateEventGateway {
    pub address: String,
    pub version: String,
}

/// One node in an infrastructure report: its rendered hardware address and
/// its barcode.
#[derive(Debug)]
pub struct PersistentStateEventNode {
    pub address: String,
    pub barcode: Barcode,
}

/// An infrastructure report: the rendering of a persistent state.
#[derive(Debug)]
pub struct PersistentStateEvent {
    pub event_type: String,
    pub gateways: VecMap<PersistentStateEventGateway>,
    pub nodes: VecMap<VecMap<PersistentStateEventNode>>,
}

/// The mathematical state a persistent state denotes: plain maps of the
/// node tables, the identities, and the version characters.
#[verifier::ext_equal]
pub struct PsView {
    pub node_tables: Map<u64, Map<u64, LongAddress>>,
    pub identities: Map<u64, LongAddress>,
    pub versions: Map<u64, Seq<char>>,
}

/// The character view of a map of version strings.
pub open spec fn versions_view(m: Map<u64, String>) -> Map<u64, Seq<char>> {
    m.map_values(|s: String| s@)
}

/// The entry view of a map of node tables.
pub open spec fn tables_view(m: Map<u64, NodeTable>) -> Map<u64, Map<u64, LongAddress>> {
    m.map_values(|t: NodeTable| t.nodes@)
}

/// The state a persistent state value denotes.
pub open spec fn ps_view(ps: PersistentState) -> PsView {
    PsView {
        node_tables: tables_view(ps.gateway_node_tables@),
        identities: ps.gateway_identities@,
        versions: versions_view(ps.gateway_versions@),
    }
}

/// Does a report render exactly this state?
///
/// The gateway entries mirror the identity map, each carrying the colon hex
/// address and the known version (empty if none); the node entries mirror the
/// node tables, each node carrying its colon hex address and its barcode.
pub open spec fn event_matches_view(ev: PersistentStateEvent, v: PsView) -> bool {
    &&& ev.event_type@ == "infrastructure_report"@
    &&& ev.gateways@.dom() == v.identities.dom()
    &&& forall|k: u64|
        v.identities.contains_key(k) ==> {
            &&& (#[trigger] ev.gateways@[k]).address@ == hex_colon(v.identities[k]@)
            &&& ev.gateways@[k].version@ == (if v.versions.contains_key(k) {
                v.versions[k]
            } else {
                Seq::<char>::empty()
            })
        }
    &&& ev.nodes@.dom() == v.node_tables.dom()
    &&& forall|k: u64|
        v.node_tables.contains_key(k) ==> {
            let table = v.node_tables[k];
            &&& (#[trigger] ev.nodes@[k])@.dom() == table.dom()
            &&& forall|n: u64|
                table.contains_key(n) ==> {
                    &&& (#[trigger] ev.nodes@[k]@[n]).address@ == hex_colon(table[n]@)
                    &&& ev.nodes@[k]@[n].barcode.0 == table[n]
                }
        }
}

/// Does a report render exactly this state value?
pub open spec fn event_matches_state(ev: PersistentStateEvent, ps: PersistentState) -> bool {
    event_matches_view(ev, ps_view(ps))
}

impl PersistentStateEvent {
    /// Render a persistent state as an infrastructure report.
    pub fn from_state(ps: &PersistentState) -> (r: PersistentStateEvent)
        requires
            ps.wf(),
        ensures
            event_matches_state(r, *ps),
    {
        let event_type = clone_string("infrastructure_report");
        proof {
            reveal_strlit("infrastructure_report");
        }

        let mut gateways: VecMap<PersistentStateEventGateway> = VecMap::new();
        let n = ps.gateway_identities.len();
        let mut i: usize = 0;
        while i < n
            invariant
                i <= n,
                n == ps.gateway_identities.seq().len(),
                ps.wf(),
                gateways.wf(),
                forall|k: u64|
                    gateways@.contains_key(k) <==> exists|j: int|
                        0 <= j < i && (#[trigger] ps.gateway_identities.seq()[j]).0 == k,
                forall|j: int|
                    0 <= j < i ==> {
                        let k = (#[trigger] ps.gateway_identities.seq()[j]).0;
                        &&& gateways@.contains_key(k)
                        &&& gateways@[k].address@ == hex_colon(ps.gateway_identities.seq()[j].1@)
                        &&& gateways@[k].version@ == (if ps.gateway_versions@.contains_key(k) {
                            ps.gateway_versions@[k]@
                        } else {
                            Seq::<char>::empty()
                        })
                    },
            decreases n - i,
        {
            let entry = ps.gateway_identities.entry_at(i);
            let k = entry.0;
            let address = format_long_address(&entry.1);
            let version = match ps.gateway_versions.get(k) {
                Some(v) => clone_string(v.as_str()),
                None => String::new(),
            };
            gateways.insert(k, PersistentStateEventGateway { address, version });
            i = i + 1;
        }
        proof {
            ps.gateway_identities.lemma_seq_view();
            assert(gateways@.dom() =~= ps.gateway_identities@.dom());
        }

        let mut nodes: VecMap<VecMap<PersistentStateEventNode>> = VecMap::new();
        let n = ps.gateway_node_tables.len();
        let mut i: usize = 0;
        while i < n
            invariant
                i <= n,
                n == ps.gateway_node_tables.seq().len(),
                ps.wf(),
                nodes.wf(),
                forall|k: u64|
                    nodes@.contains_key(k) <==> exists|j: int|
                        0 <= j < i && (#[trigger] ps.gateway_node_tables.seq()[j]).0 == k,
                forall|j: int|
                    0 <= j < i ==> {
                        let k = (#[trigger] ps.gateway_node_tables.seq()[j]).0;
                        let table = ps.gateway_node_tables.seq()[j].1.nodes@;
                        &&& nodes@.contains_key(k)
                        &&& nodes@[k]@.dom() == table.dom()
                        &&& forall|m: u64|
                            table.contains_key(m) ==> {
                                &&& (#[trigger] nodes@[k]@[m]).address@ == hex_colon(table[m]@)
                                &&& nodes@[k]@[m].barcode.0 == table[m]
                            }
                    },
            decreases n - i,
        {
            let entry = ps.gateway_node_tables.entry_at(i);
            let k = entry.0;
            let table = &entry.1;
            let mut rendered: VecMap<PersistentStateEventNode> = VecMap::new();
            let tn = table.nodes.len();
            let mut ti: usize = 0;
            while ti < tn
                invariant
                    ti <= tn,
                    tn == table.nodes.seq().len(),
                    table.nodes.wf(),
                    rendered.wf(),
                    forall|m: u64|
                        rendered@.contains_key(m) <==> exists|j: int|
                            0 <= j < ti && (#[trigger] table.nodes.seq()[j]).0 == m,
                    forall|j: int|
                        0 <= j < ti ==> {
                            let m = (#[trigger] table.nodes.seq()[j]).0;
                            &&& rendered@.contains_key(m)
                            &&& rendered@[m].address@ == hex_colon(table.nodes.seq()[j].1@)
                            &&& rendered@[m].barcode.0 == table.nodes.seq()[j].1
                        },
                decreases tn - ti,
            {
                let te = table.nodes.entry_at(ti);
                let address = format_long_address(&te.1);
                let barcode = Barcode(te.1);
                rendered.insert(te.0, PersistentStateEventNode { address, barcode });
                ti = ti + 1;
            }
            proof {
                table.nodes.lemma_seq_view();
                assert(rendered@.dom() =~= table.nodes@.dom());
            }
            nodes.insert(k, rendered);
            i = i + 1;
        }
        proof {
            ps.gateway_node_tables.lemma_seq_view();
            assert(nodes@.dom() =~= ps.gateway_node_tables@.dom());
        }

        let r = PersistentStateEvent { event_type, gateways, nodes };
        proof {
            let v = ps_view(*ps);
            assert(v.versions.dom() =~= ps.gateway_versions@.dom());
            assert forall|k: u64|
                ps.gateway_versions@.contains_key(k) implies #[trigger] v.versions[k]
                == ps.gateway_versions@[k]@ by {}
            assert(v.node_tables.dom() =~= ps.gateway_node_tables@.dom());
            assert forall|k: u64|
                ps.gateway_node_tables@.contains_key(k) implies #[trigger] v.node_tables[k]
                == ps.gateway_node_tables@[k].nodes@ by {}
            assert(event_matches_view(r, v));
        }
        r
    }
}

/// Copy a string slice into an owned string.
fn clone_string(s: &str) -> (r: String)
    ensures
        r@ == s@,
{
    let mut out = String::new();
    out.append(s);
    proof {
        assert(out@ =~= s@);
    }
    out
}

} // verus!
