//! The bill-of-materials graph.
//!
//! Items live in an arena and edges carry the quantity of the child
//! needed per unit of the parent.  The kernel only reads the graph:
//! find an item, walk the edges leaving it.  Acyclicity is not assumed
//! here; the planning kernel checks it for the items it plans.

use vstd::prelude::*;

use crate::qty::Qty;

verus! {

/// One parent-to-child edge, by arena index.
#[derive(Debug, Clone, Copy)]
pub struct BomEdgeRec {
    /// Arena index of the parent item.
    pub parent: usize,
    /// Arena index of the child item.
    pub child: usize,
    /// Quantity of the child per unit of the parent.
    pub quantity_per: Qty,
}

/// A bill-of-materials graph: an item arena and the edges between them.
#[derive(Debug, Clone)]
pub struct BomGraph {
    /// The items, addressed by index.
    pub nodes: Vec<String>,
    /// The parent-to-child edges, in insertion order.
    pub edges: Vec<BomEdgeRec>,
}

/// The first arena index holding the item, scanning from `i`.
pub open spec fn spec_find_node_from(nodes: Seq<String>, id: Seq<char>, i: int) -> Option<int>
    decreases nodes.len() - i,
{
    if i < 0 || i >= nodes.len() {
        None
    } else if nodes[i]@ == id {
        Some(i)
    } else {
        spec_find_node_from(nodes, id, i + 1)
    }
}

impl BomGraph {
    /// Whether every edge stays inside the arena.
    pub open spec fn wf(&self) -> bool {
        forall|i: int|
            0 <= i < self.edges@.len() ==> (#[trigger] self.edges@[i]).parent
                < self.nodes@.len() && self.edges@[i].child < self.nodes@.len()
    }

    /// The first arena index holding the item.
    pub open spec fn spec_find_node(&self, id: Seq<char>) -> Option<int> {
        spec_find_node_from(self.nodes@, id, 0)
    }

    /// Whether the graph has an edge from item `p` to item `c`.
    pub open spec fn spec_has_edge(&self, p: Seq<char>, c: Seq<char>) -> bool {
        exists|i: int|
            0 <= i < self.edges@.len() && self.nodes@[(#[trigger] self.edges@[i]).parent as int]@
                == p && self.nodes@[self.edges@[i].child as int]@ == c
    }

    /// An empty graph.
    pub fn new() -> (r: BomGraph)
        ensures
            r.nodes@.len() == 0,
            r.edges@.len() == 0,
            r.wf(),
    {
        BomGraph { nodes: Vec::new(), edges: Vec::new() }
    }

    /// How many items the arena holds.
    pub fn node_count(&self) -> (r: usize)
        ensures
            r == self.nodes@.len(),
    {
        self.nodes.len()
    }

    /// How many edges the graph holds.
    pub fn edge_count(&self) -> (r: usize)
        ensures
            r == self.edges@.len(),
    {
        self.edges.len()
    }

    /// The arena index of an item, if the item is in the graph.
    pub fn find_node(&self, component_id: &String) -> (r: Option<usize>)
        ensures
            match r {
                Some(n) => self.spec_find_node(component_id@) == Some(n as int) && n
                    < self.nodes@.len(),
                None => self.spec_find_node(component_id@) is None,
            },
    {
        let mut i: usize = 0;
        while i < self.nodes.len()
            invariant
                0 <= i <= self.nodes@.len(),
                spec_find_node_from(self.nodes@, component_id@, 0) == spec_find_node_from(
                    self.nodes@,
                    component_id@,
                    i as int,
                ),
            decreases self.nodes@.len() - i,
        {
            if self.nodes[i].eq(component_id) {
                return Some(i);
            }
            i += 1;
        }
        None
    }

    /// The arena index of an item, adding the item when it is absent.
    fn find_or_add(&mut self, component_id: &String) -> (r: usize)
        requires
            old(self).wf(),
        ensures
            final(self).wf(),
            r < final(self).nodes@.len(),
            final(self).nodes@[r as int]@ == component_id@,
            final(self).edges == old(self).edges,
            final(self).nodes@.len() >= old(self).nodes@.len(),
            forall|k: int|
                0 <= k < old(self).nodes@.len() ==> final(self).nodes@[k] == old(self).nodes@[k],
    {
        match self.find_node(component_id) {
            Some(n) => {
                proof {
                    lemma_find_node_from_hit(self.nodes@, component_id@, 0, n as int);
                }
                n
            },
            None => {
                let n = self.nodes.len();
                self.nodes.push(component_id.clone());
                n
            },
        }
    }

    /// Records that each unit of `parent_id` needs `quantity_per` of
    /// `child_id`.  Items absent from the arena are added.
    pub fn add_bom_item(&mut self, parent_id: &String, child_id: &String, quantity_per: Qty)
        requires
            old(self).wf(),
        ensures
            final(self).wf(),
            final(self).spec_has_edge(parent_id@, child_id@),
    {
        let child = self.find_or_add(child_id);
        let parent = self.find_or_add(parent_id);
        let ghost before = *self;
        self.edges.push(BomEdgeRec { parent, child, quantity_per });
        proof {
            let k = self.edges@.len() - 1;
            assert(self.edges@[k].parent == parent && self.edges@[k].child == child);
            assert(self.nodes@[parent as int]@ == parent_id@);
            assert(self.nodes@[child as int]@ == child_id@);
        }
    }
}

/// A scan that reports a hit reports the item at that index.
pub proof fn lemma_find_node_from_hit(nodes: Seq<String>, id: Seq<char>, i: int, n: int)
    requires
        spec_find_node_from(nodes, id, i) == Some(n),
        0 <= i,
    ensures
        i <= n < nodes.len(),
        nodes[n]@ == id,
    decreases nodes.len() - i,
{
    if i < nodes.len() && nodes[i]@ != id {
        lemma_find_node_from_hit(nodes, id, i + 1, n);
    }
}

} // verus!
