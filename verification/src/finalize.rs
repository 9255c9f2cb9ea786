//! Finalization: validating an authored graph against the catalog and
//! sealing it for evaluation.

use vstd::prelude::*;

use crate::cycle::{find_ranks, has_cycle, rank_descends};
use crate::graph::{
    ConnV, FieldType, Graph, GraphError, GraphErrorV, Node, NodeAddress, SlotType,
};
use crate::table::Table;
use crate::types::{spec_broadcasts, Catalog, DataType};

verus! {

/// Why one node fails validation: an unknown type name, or a meta or input
/// list whose length disagrees with the catalog entry.
pub open spec fn node_check(cat: Catalog, node: Node) -> Option<GraphErrorV> {
    if !cat.contains_spec(node.node_type@) {
        Some(GraphErrorV::InvalidNode(node.node_type@))
    } else if cat.spec_get(node.node_type@).meta@.len() != node.meta@.len() {
        Some(GraphErrorV::MissingValue(FieldType::Meta))
    } else if cat.spec_get(node.node_type@).inputs@.len() != node.inputs@.len() {
        Some(GraphErrorV::MissingValue(FieldType::Input))
    } else {
        None
    }
}

/// The first node-validation failure, in table order.
pub open spec fn first_node_error(cat: Catalog, rows: Seq<(String, Node)>) -> Option<GraphErrorV>
    decreases rows.len(),
{
    if rows.len() == 0 {
        None
    } else if node_check(cat, rows[0].1) is Some {
        node_check(cat, rows[0].1)
    } else {
        first_node_error(cat, rows.drop_first())
    }
}

/// Skipping rows that validate does not change the first failure.
pub proof fn lemma_first_node_error_skip(cat: Catalog, rows: Seq<(String, Node)>, i: int)
    requires
        0 <= i <= rows.len(),
        forall|j: int| 0 <= j < i ==> node_check(cat, rows[j].1) is None,
    ensures
        first_node_error(cat, rows) == first_node_error(cat, rows.skip(i)),
    decreases i,
{
    if i > 0 {
        lemma_first_node_error_skip(cat, rows, i - 1);
        assert(rows.skip(i - 1).drop_first() =~= rows.skip(i));
        assert(rows.skip(i - 1)[0] == rows[i - 1]);
    } else {
        assert(rows.skip(0) =~= rows);
    }
}

/// Why one connection fails validation: an endpoint node that is not in the
/// graph, a slot index past the endpoint's declared list, or declared types
/// outside the broadcast relation.
pub open spec fn conn_check(cat: Catalog, tbl: Table<Node>, c: ConnV) -> Option<GraphErrorV> {
    if !tbl.contains_spec(c.input.node) {
        Some(GraphErrorV::InvalidNode(c.input.node))
    } else if !tbl.contains_spec(c.output.node) {
        Some(GraphErrorV::InvalidNode(c.output.node))
    } else {
        let in_type = tbl.spec_get(c.input.node).node_type@;
        let out_type = tbl.spec_get(c.output.node).node_type@;
        if !cat.contains_spec(in_type) {
            Some(GraphErrorV::InvalidNode(in_type))
        } else if !cat.contains_spec(out_type) {
            Some(GraphErrorV::InvalidNode(out_type))
        } else if c.input.slot < 0 || c.input.slot >= cat.spec_get(in_type).inputs@.len() {
            Some(GraphErrorV::InvalidSlots)
        } else if c.output.slot < 0 || c.output.slot >= cat.spec_get(out_type).outputs@.len() {
            Some(GraphErrorV::InvalidSlots)
        } else if !spec_broadcasts(
            cat.spec_get(out_type).outputs@[c.output.slot].data_type,
            cat.spec_get(in_type).inputs@[c.input.slot].data_type,
        ) {
            Some(GraphErrorV::InvalidSlots)
        } else {
            None
        }
    }
}

/// The first connection-validation failure, in list order.
pub open spec fn first_conn_error(cat: Catalog, tbl: Table<Node>, conns: Seq<ConnV>) -> Option<
    GraphErrorV,
>
    decreases conns.len(),
{
    if conns.len() == 0 {
        None
    } else if conn_check(cat, tbl, conns[0]) is Some {
        conn_check(cat, tbl, conns[0])
    } else {
        first_conn_error(cat, tbl, conns.drop_first())
    }
}

/// Skipping connections that validate does not change the first failure.
pub proof fn lemma_first_conn_error_skip(
    cat: Catalog,
    tbl: Table<Node>,
    conns: Seq<ConnV>,
    i: int,
)
    requires
        0 <= i <= conns.len(),
        forall|j: int| 0 <= j < i ==> conn_check(cat, tbl, conns[j]) is None,
    ensures
        first_conn_error(cat, tbl, conns) == first_conn_error(cat, tbl, conns.skip(i)),
    decreases i,
{
    if i > 0 {
        lemma_first_conn_error_skip(cat, tbl, conns, i - 1);
        assert(conns.skip(i - 1).drop_first() =~= conns.skip(i));
        assert(conns.skip(i - 1)[0] == conns[i - 1]);
    } else {
        assert(conns.skip(0) =~= conns);
    }
}

/// The dependency edges induced by the connections: one edge per connection,
/// from the consuming node's row index to the producing node's row index.
pub open spec fn dep_edges(tbl: Table<Node>, conns: Seq<ConnV>) -> Seq<(usize, usize)> {
    Seq::new(
        conns.len(),
        |k: int|
            (
                tbl.index_of(conns[k].input.node) as usize,
                tbl.index_of(conns[k].output.node) as usize,
            ),
    )
}

/// Whether the whole graph validates against the catalog, cycles aside.
pub open spec fn checks_pass(cat: Catalog, tbl: Table<Node>, conns: Seq<ConnV>) -> bool {
    &&& first_node_error(cat, tbl.rows()) is None
    &&& first_conn_error(cat, tbl, conns) is None
}

/// The error finalization reports, when there is one: the first node
/// failure, else the first connection failure, else a cycle.
pub open spec fn finalize_error(cat: Catalog, tbl: Table<Node>, conns: Seq<ConnV>) -> GraphErrorV {
    match first_node_error(cat, tbl.rows()) {
        Some(e) => e,
        None => match first_conn_error(cat, tbl, conns) {
            Some(e) => e,
            None => GraphErrorV::Cyclic,
        },
    }
}

/// A validated, immutable graph paired with the catalog it was validated
/// against and a rank per node that steps down along every dependency; the
/// ranks witness acyclicity and bound the evaluator's recursion.
pub struct FinalizedGraph<'nodes> {
    pub(crate) graph: Graph,
    pub(crate) node_types: &'nodes Catalog,
    pub(crate) ranks: Vec<u64>,
}

impl<'nodes> FinalizedGraph<'nodes> {
    /// The nodes, as a keyed table.
    pub closed spec fn tbl(self) -> Table<Node> {
        self.graph.nodes_tbl()
    }

    /// The connections, in insertion order.
    pub closed spec fn conns(self) -> Seq<ConnV> {
        self.graph.conns()
    }

    /// The catalog the graph was validated against.
    pub closed spec fn cat(self) -> Catalog {
        *self.node_types
    }

    /// The rank of each node row.
    pub closed spec fn ranks_spec(self) -> Seq<u64> {
        self.ranks@
    }

    /// Everything finalization established.
    pub open spec fn wf(self) -> bool {
        &&& self.tbl().wf()
        &&& self.cat().wf()
        &&& forall|k: int|
            0 <= k < self.tbl().rows().len() ==> node_check(
                self.cat(),
                self.tbl().rows()[k].1,
            ) is None
        &&& forall|k: int|
            0 <= k < self.conns().len() ==> conn_check(
                self.cat(),
                self.tbl(),
                self.conns()[k],
            ) is None
        &&& self.ranks_spec().len() == self.tbl().rows().len()
        &&& rank_descends(dep_edges(self.tbl(), self.conns()), self.ranks_spec())
    }

    /// The sealed graph itself.
    pub fn graph(&self) -> (g: &Graph)
        ensures
            g.nodes_tbl() == self.tbl(),
            g.conns() == self.conns(),
    {
        &self.graph
    }

    /// The declared type of the slot `address` points at, on the given side
    /// of its node; nothing if the node, its type, or the slot index does
    /// not resolve.
    pub fn slot_datatype(&self, address: &NodeAddress, slot_type: SlotType) -> (r: Option<
        DataType,
    >)
        requires
            self.tbl().wf(),
            self.cat().wf(),
        ensures
            r == spec_slot_datatype(self.cat(), self.tbl(), address@.node, address@.slot, slot_type),
    {
        let node = match self.graph.nodes_ref().get(&address.node) {
            Some(n) => n,
            None => {
                return None;
            },
        };
        let node_type = match self.node_types.get(&node.node_type) {
            Some(t) => t,
            None => {
                return None;
            },
        };
        match slot_type {
            SlotType::Input => {
                if address.slot < node_type.inputs.len() {
                    Some(node_type.inputs[address.slot].data_type)
                } else {
                    None
                }
            },
            SlotType::Output => {
                if address.slot < node_type.outputs.len() {
                    Some(node_type.outputs[address.slot].data_type)
                } else {
                    None
                }
            },
        }
    }
}

/// The declared [`DataType`] of a slot: resolves the node, then its catalog
/// entry, then the indexed slot on the requested side.
pub open spec fn spec_slot_datatype(
    cat: Catalog,
    tbl: Table<Node>,
    node: Seq<char>,
    slot: int,
    slot_type: SlotType,
) -> Option<DataType> {
    if !tbl.contains_spec(node) {
        None
    } else if !cat.contains_spec(tbl.spec_get(node).node_type@) {
        None
    } else {
        let nt = cat.spec_get(tbl.spec_get(node).node_type@);
        match slot_type {
            SlotType::Input => if 0 <= slot < nt.inputs@.len() {
                Some(nt.inputs@[slot].data_type)
            } else {
                None
            },
            SlotType::Output => if 0 <= slot < nt.outputs@.len() {
                Some(nt.outputs@[slot].data_type)
            } else {
                None
            },
        }
    }
}

impl Graph {
    /// Validates the graph against the catalog and seals it.  Fails with the
    /// first violation found: an invalid node, then an invalid connection,
    /// then a dependency cycle; a graph that passes every check is returned
    /// whole, with nothing mutated and nothing re-ordered.
    pub fn finalize<'nodes>(self, nodes: &'nodes Catalog) -> (r: Result<
        FinalizedGraph<'nodes>,
        GraphError,
    >)
        requires
            self.wf(),
            nodes.wf(),
        ensures
            match r {
                Ok(fg) => fg.wf() && fg.tbl() == self.nodes_tbl() && fg.conns() == self.conns()
                    && fg.cat() == *nodes && checks_pass(*nodes, self.nodes_tbl(), self.conns())
                    && !has_cycle(dep_edges(self.nodes_tbl(), self.conns())),
                Err(e) => e@ == finalize_error(*nodes, self.nodes_tbl(), self.conns()) && !(
                checks_pass(*nodes, self.nodes_tbl(), self.conns()) && !has_cycle(
                    dep_edges(self.nodes_tbl(), self.conns()),
                )),
            },
    {
        let ghost tbl0 = self.nodes_tbl();
        let ghost conns0 = self.conns();
        let n = self.nodes_ref().len();
        let mut i: usize = 0;
        while i < n
            invariant
                self.wf(),
                nodes.wf(),
                self.nodes_tbl() == tbl0,
                self.conns() == conns0,
                n == tbl0.rows().len(),
                i <= n,
                forall|j: int| 0 <= j < i ==> node_check(*nodes, tbl0.rows()[j].1) is None,
            decreases n - i,
        {
            let node = self.nodes_ref().val_at(i);
            let node_type = match nodes.get(&node.node_type) {
                Some(t) => t,
                None => {
                    proof {
                        lemma_first_node_error_skip(*nodes, tbl0.rows(), i as int);
                        assert(tbl0.rows().skip(i as int)[0] == tbl0.rows()[i as int]);
                    }
                    return Err(GraphError::InvalidNode(node.node_type.clone()));
                },
            };
            if node.meta.len() != node_type.meta.len() {
                proof {
                    lemma_first_node_error_skip(*nodes, tbl0.rows(), i as int);
                    assert(tbl0.rows().skip(i as int)[0] == tbl0.rows()[i as int]);
                }
                return Err(GraphError::MissingValue(FieldType::Meta));
            }
            if node.inputs.len() != node_type.inputs.len() {
                proof {
                    lemma_first_node_error_skip(*nodes, tbl0.rows(), i as int);
                    assert(tbl0.rows().skip(i as int)[0] == tbl0.rows()[i as int]);
                }
                return Err(GraphError::MissingValue(FieldType::Input));
            }
            i = i + 1;
        }
        proof {
            lemma_first_node_error_skip(*nodes, tbl0.rows(), n as int);
            assert(tbl0.rows().skip(n as int) =~= Seq::<(String, Node)>::empty());
        }
        let mut es: Vec<(usize, usize)> = Vec::new();
        let mut c: usize = 0;
        while c < self.connections_ref().len()
            invariant
                self.wf(),
                nodes.wf(),
                self.nodes_tbl() == tbl0,
                self.conns() == conns0,
                n == tbl0.rows().len(),
                first_node_error(*nodes, tbl0.rows()) is None,
                c <= conns0.len(),
                es@.len() == c,
                forall|j: int| 0 <= j < c ==> conn_check(*nodes, tbl0, conns0[j]) is None,
                forall|j: int| 0 <= j < c ==> es@[j] == dep_edges(tbl0, conns0)[j],
                forall|j: int| 0 <= j < c ==> es@[j].0 < n && es@[j].1 < n,
            decreases self.conns().len() - c,
        {
            let conn = &self.connections_ref()[c];
            let in_idx = match self.nodes_ref().find(&conn.input.node) {
                Some(ix) => ix,
                None => {
                    proof {
                        lemma_first_conn_error_skip(*nodes, tbl0, conns0, c as int);
                        assert(conns0.skip(c as int)[0] == conns0[c as int]);
                    }
                    return Err(GraphError::InvalidNode(conn.input.node.clone()));
                },
            };
            let out_idx = match self.nodes_ref().find(&conn.output.node) {
                Some(ix) => ix,
                None => {
                    proof {
                        lemma_first_conn_error_skip(*nodes, tbl0, conns0, c as int);
                        assert(conns0.skip(c as int)[0] == conns0[c as int]);
                    }
                    return Err(GraphError::InvalidNode(conn.output.node.clone()));
                },
            };
            let in_node = self.nodes_ref().val_at(in_idx);
            let input_type = match nodes.get(&in_node.node_type) {
                Some(t) => t,
                None => {
                    proof {
                        lemma_first_conn_error_skip(*nodes, tbl0, conns0, c as int);
                        assert(conns0.skip(c as int)[0] == conns0[c as int]);
                    }
                    return Err(GraphError::InvalidNode(in_node.node_type.clone()));
                },
            };
            let out_node = self.nodes_ref().val_at(out_idx);
            let output_type = match nodes.get(&out_node.node_type) {
                Some(t) => t,
                None => {
                    proof {
                        lemma_first_conn_error_skip(*nodes, tbl0, conns0, c as int);
                        assert(conns0.skip(c as int)[0] == conns0[c as int]);
                    }
                    return Err(GraphError::InvalidNode(out_node.node_type.clone()));
                },
            };
            if conn.input.slot >= input_type.inputs.len() {
                proof {
                    lemma_first_conn_error_skip(*nodes, tbl0, conns0, c as int);
                    assert(conns0.skip(c as int)[0] == conns0[c as int]);
                }
                return Err(GraphError::InvalidSlots);
            }
            if conn.output.slot >= output_type.outputs.len() {
                proof {
                    lemma_first_conn_error_skip(*nodes, tbl0, conns0, c as int);
                    assert(conns0.skip(c as int)[0] == conns0[c as int]);
                }
                return Err(GraphError::InvalidSlots);
            }
            if !DataType::broadcasts(
                &output_type.outputs[conn.output.slot].data_type,
                &input_type.inputs[conn.input.slot].data_type,
            ) {
                proof {
                    lemma_first_conn_error_skip(*nodes, tbl0, conns0, c as int);
                    assert(conns0.skip(c as int)[0] == conns0[c as int]);
                }
                return Err(GraphError::InvalidSlots);
            }
            es.push((in_idx, out_idx));
            c = c + 1;
        }
        proof {
            lemma_first_conn_error_skip(*nodes, tbl0, conns0, conns0.len() as int);
            assert(conns0.skip(conns0.len() as int) =~= Seq::<ConnV>::empty());
            assert(es@ =~= dep_edges(tbl0, conns0));
        }
        match find_ranks(n, &es) {
            Some(ranks) => {
                let fg = FinalizedGraph { graph: self, node_types: nodes, ranks };
                Ok(fg)
            },
            None => Err(GraphError::Cyclic),
        }
    }
}

} // verus!
