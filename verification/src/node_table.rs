//! Node tables and their page-by-page reassembly.
//!
//! A gateway's node table arrives as pages of entries, each page named by the
//! node address it starts at. The builder accepts a run of pages that begins
//! at the canonical first address and stays contiguous, and completes the
//! table when a page arrives short of the full page size. Anything out of
//! order discards the partial table and assembly restarts.

use vstd::prelude::*;

use crate::pv::{LongAddress, NodeAddress, NodeTableResponseEntry};
use crate::vecmap::VecMap;

verus! {

/// The number of entries in a full node table page; a shorter page ends the
/// table.
pub const NODE_TABLE_PAGE_SIZE: usize = 24;

/// The node address a fresh table's first page starts at.
pub const FIRST_NODE_ADDRESS: u16 = 0;

/// A gateway's node table: node identifiers to hardware addresses, totally
/// ordered by node identifier.
#[derive(Debug, Clone)]
pub struct NodeTable {
    pub nodes: VecMap<LongAddress>,
}

impl NodeTable {
    /// The underlying map is sorted.
    pub open spec fn wf(&self) -> bool {
        self.nodes.wf()
    }

    /// An empty table.
    pub fn new() -> (r: NodeTable)
        ensures
            r.nodes@ == Map::<u64, LongAddress>::empty(),
            r.wf(),
    {
        NodeTable { nodes: VecMap::new() }
    }
}

/// The map obtained by folding a page's entries into a base map, first to
/// last; a repeated node identifier keeps the last entry.
pub open spec fn insert_entries(
    base: Map<u64, LongAddress>,
    entries: Seq<NodeTableResponseEntry>,
) -> Map<u64, LongAddress>
    decreases entries.len(),
{
    if entries.len() == 0 {
        base
    } else {
        insert_entries(base, entries.drop_last()).insert(
            entries.last().node_id as u64,
            entries.last().long_address,
        )
    }
}

/// Reassembles one gateway's node table from pages.
pub struct NodeTableBuilder {
    expected_next: Option<NodeAddress>,
    partial: VecMap<LongAddress>,
}

impl NodeTableBuilder {
    /// The node address the next page must start at, if a table is under
    /// assembly.
    pub closed spec fn expected(&self) -> Option<NodeAddress> {
        self.expected_next
    }

    /// The entries accumulated so far.
    pub closed spec fn partial_map(&self) -> Map<u64, LongAddress> {
        self.partial@
    }

    /// The accumulator is sorted, and idle means empty.
    pub closed spec fn wf(&self) -> bool {
        self.partial.wf() && (self.expected_next is None ==> self.partial@ == Map::<
            u64,
            LongAddress,
        >::empty())
    }

    /// A fresh builder with nothing accumulated.
    pub fn new() -> (r: NodeTableBuilder)
        ensures
            r.wf(),
            r.expected() is None,
            r.partial_map() == Map::<u64, LongAddress>::empty(),
    {
        NodeTableBuilder { expected_next: None, partial: VecMap::new() }
    }

    /// Feed the builder one page.
    ///
    /// The builder advances exactly as [`builder_step`] says: the completed
    /// table is returned exactly when the page lands in a run (it continues
    /// the expected one, or starts a new one at the canonical first address)
    /// and is shorter than the full page size — the terminal-short-page rule.
    /// A page at any other address discards the partial table, and assembly
    /// restarts.
    pub fn push(&mut self, start: NodeAddress, entries: &Vec<NodeTableResponseEntry>) -> (r: Option<
        NodeTable,
    >)
        requires
            old(self).wf(),
        ensures
            final(self).wf(),
            builder_view(*final(self)) == builder_step(
                builder_view(*old(self)),
                start,
                entries@,
            ).0,
            r is Some <==> builder_step(builder_view(*old(self)), start, entries@).1 is Some,
            r is Some ==> r->0.wf() && r->0.nodes@ == builder_step(
                builder_view(*old(self)),
                start,
                entries@,
            ).1->0,
            r is Some <==> (builder_view(*old(self)).accepts(start) || start
                == FIRST_NODE_ADDRESS) && entries@.len() < NODE_TABLE_PAGE_SIZE,
    {
        proof {
            lemma_builder_step_unfold(builder_view(*old(self)), start, entries@);
        }
        let continues = match self.expected_next {
            Some(e) => start == e,
            None => start == FIRST_NODE_ADDRESS,
        };
        if !continues {
            // Out of order: discard the partial table.
            self.expected_next = None;
            self.partial = VecMap::new();
            if start != FIRST_NODE_ADDRESS {
                // Nothing to restart from; wait for a first page.
                return None;
            }
        }
        // Fold the page in.
        let mut i: usize = 0;
        let ghost base = self.partial@;
        while i < entries.len()
            invariant
                i <= entries@.len(),
                self.partial.wf(),
                self.partial@ == insert_entries(base, entries@.take(i as int)),
            decreases entries@.len() - i,
        {
            let e = &entries[i];
            self.partial.insert(e.node_id as u64, e.long_address);
            proof {
                assert(entries@.take(i + 1).drop_last() =~= entries@.take(i as int));
            }
            i = i + 1;
        }
        proof {
            assert(entries@.take(entries@.len() as int) =~= entries@);
        }
        if entries.len() < NODE_TABLE_PAGE_SIZE {
            // Terminal short page: the table is complete.
            let mut done = VecMap::new();
            core::mem::swap(&mut self.partial, &mut done);
            self.expected_next = None;
            return Some(NodeTable { nodes: done });
        }
        // A full page: more may follow, starting one past the highest node.
        match self.partial.last_key() {
            Some(k) => {
                proof {
                    lemma_map_max_key(self.partial@, k);
                }
                if k >= 0xffff {
                    // The address space is exhausted; no page can follow.
                    self.expected_next = None;
                    self.partial = VecMap::new();
                } else {
                    self.expected_next = Some((k as u16) + 1);
                    proof {
                        assert(self.partial@.contains_key(k));
                        assert(k < 0xffff);
                    }
                }
            }
            None => {
                // A full page holds entries, so the accumulator is not empty.
                proof {
                    assert(entries@.len() > 0);
                    assert(insert_entries(base, entries@).contains_key(
                        entries@.last().node_id as u64,
                    ));
                    assert(false);
                }
            }
        }
        None
    }
}

/// The mathematical state of a table builder.
#[verifier::ext_equal]
pub struct BuilderView {
    pub expected: Option<NodeAddress>,
    pub partial: Map<u64, LongAddress>,
}

/// The state of a builder value.
pub open spec fn builder_view(b: NodeTableBuilder) -> BuilderView {
    BuilderView { expected: b.expected(), partial: b.partial_map() }
}

/// The state of a builder with nothing accumulated.
pub open spec fn fresh_builder_view() -> BuilderView {
    BuilderView { expected: None, partial: Map::empty() }
}

impl BuilderView {
    /// Does the builder accept a page starting here without discarding?
    pub open spec fn accepts(self, start: NodeAddress) -> bool {
        match self.expected {
            Some(e) => start == e,
            None => start == FIRST_NODE_ADDRESS,
        }
    }

    /// The base map a page starting here lands on: the accumulated entries
    /// when the page continues the run, the empty map when it restarts one.
    pub open spec fn base_for(self, start: NodeAddress) -> Map<u64, LongAddress> {
        if self.expected is Some && start == self.expected->0 {
            self.partial
        } else {
            Map::empty()
        }
    }
}

/// The greatest key a non-empty map holds.
pub open spec fn map_max_key(m: Map<u64, LongAddress>) -> u64 {
    choose|k: u64| m.contains_key(k) && (forall|j: u64| #[trigger] m.contains_key(j) ==> j <= k)
}

/// One page of progress for a table builder: the new builder state, and the
/// completed table's entries when the page was terminal.
///
/// A page out of the run discards the accumulator (restarting at once when it
/// itself starts at the first address). A page in the run folds in; short of
/// the full page size it completes the table, otherwise the run continues one
/// past the highest node accumulated — or resets when the address space is
/// exhausted.
pub open spec fn builder_step(
    b: BuilderView,
    start: NodeAddress,
    entries: Seq<NodeTableResponseEntry>,
) -> (BuilderView, Option<Map<u64, LongAddress>>) {
    if !(b.accepts(start) || start == FIRST_NODE_ADDRESS) {
        (fresh_builder_view(), None)
    } else {
        let folded = insert_entries(b.base_for(start), entries);
        if entries.len() < NODE_TABLE_PAGE_SIZE {
            (fresh_builder_view(), Some(folded))
        } else {
            let m = map_max_key(folded);
            if m >= 0xffff {
                (fresh_builder_view(), None)
            } else {
                (BuilderView { expected: Some((m + 1) as u16), partial: folded }, None)
            }
        }
    }
}

/// Unfolding help for `builder_step`: its three outcomes, spelled out.
proof fn lemma_builder_step_unfold(
    b: BuilderView,
    start: NodeAddress,
    entries: Seq<NodeTableResponseEntry>,
)
    ensures
        !(b.accepts(start) || start == FIRST_NODE_ADDRESS) ==> builder_step(b, start, entries)
            == (fresh_builder_view(), None::<Map<u64, LongAddress>>),
        (b.accepts(start) || start == FIRST_NODE_ADDRESS) && entries.len()
            < NODE_TABLE_PAGE_SIZE ==> builder_step(b, start, entries) == (
            fresh_builder_view(),
            Some(insert_entries(b.base_for(start), entries)),
        ),
{
}

/// Any key that bounds a map from above is its greatest key.
pub proof fn lemma_map_max_key(m: Map<u64, LongAddress>, k: u64)
    requires
        m.contains_key(k),
        forall|j: u64| #[trigger] m.contains_key(j) ==> j <= k,
    ensures
        map_max_key(m) == k,
{
    assert(exists|kk: u64|
        m.contains_key(kk) && (forall|j: u64| #[trigger] m.contains_key(j) ==> j <= kk));
    let km = map_max_key(m);
    assert(m.contains_key(km) && (forall|j: u64| #[trigger] m.contains_key(j) ==> j <= km));
    assert(km <= k && k <= km);
}

} // verus!
