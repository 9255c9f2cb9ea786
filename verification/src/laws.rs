//! The engine's general laws, stated and proved once for all inputs.

use vstd::prelude::*;

use crate::broadcast::{spec_broadcast, BroadcastingError};
use crate::exec::{
    lemma_rank_of_producer, spec_inputs, spec_rank, spec_solve, trace_matches, ExecErrV,
};
use crate::finalize::{
    checks_pass, conn_check, dep_edges, finalize_error, first_conn_error, first_node_error,
    node_check, spec_slot_datatype, FinalizedGraph,
};
use crate::graph::{spec_find_from, ConnV, GraphErrorV, Node, SlotV};
use crate::cycle::has_cycle;
use crate::table::Table;
use crate::types::{Catalog, DataType};
use crate::values::{views_of, Value, ValueV};

verus! {

/// A graph that passes every node and connection check but whose
/// dependency relation has a directed cycle is rejected as cyclic — never
/// with another error, and (by `Graph::finalize`'s contract) never sealed.
pub proof fn lemma_cyclic_rejected(cat: Catalog, tbl: Table<Node>, conns: Seq<ConnV>)
    requires
        checks_pass(cat, tbl, conns),
        has_cycle(dep_edges(tbl, conns)),
    ensures
        finalize_error(cat, tbl, conns) == GraphErrorV::Cyclic,
{
}

/// When every node's type is known to the catalog but some node's meta or
/// input arity disagrees with its entry, the first validation failure is a
/// missing-value error.
pub proof fn lemma_arity_mismatch_rejected(cat: Catalog, rows: Seq<(String, Node)>)
    requires
        forall|k: int| 0 <= k < rows.len() ==> cat.contains_spec(#[trigger] rows[k].1.node_type@),
        exists|k: int| 0 <= k < rows.len() && node_check(cat, #[trigger] rows[k].1) is Some,
    ensures
        first_node_error(cat, rows) is Some,
        first_node_error(cat, rows).unwrap() is MissingValue,
    decreases rows.len(),
{
    let k = choose|k: int| 0 <= k < rows.len() && node_check(cat, #[trigger] rows[k].1) is Some;
    if node_check(cat, rows[0].1) is Some {
    } else {
        let rest = rows.drop_first();
        assert(rest[k - 1] == rows[k]);
        assert forall|m: int| 0 <= m < rest.len() implies cat.contains_spec(
            #[trigger] rest[m].1.node_type@,
        ) by {
            assert(rest[m] == rows[m + 1]);
        }
        lemma_arity_mismatch_rejected(cat, rest);
    }
}

/// When every connection failure, if any, is a slot failure — the
/// endpoints and their types resolve — and some connection's declared
/// types are outside the broadcast relation (or its slot indices are out
/// of range), the first connection failure is an invalid-slots error.
pub proof fn lemma_incompatible_connection_rejected(
    cat: Catalog,
    tbl: Table<Node>,
    conns: Seq<ConnV>,
)
    requires
        forall|k: int|
            0 <= k < conns.len() ==> conn_check(cat, tbl, #[trigger] conns[k]) is None || conn_check(
                cat,
                tbl,
                conns[k],
            ) == Some(GraphErrorV::InvalidSlots),
        exists|k: int|
            0 <= k < conns.len() && conn_check(cat, tbl, #[trigger] conns[k]) == Some(
                GraphErrorV::InvalidSlots,
            ),
    ensures
        first_conn_error(cat, tbl, conns) == Some(GraphErrorV::InvalidSlots),
    decreases conns.len(),
{
    let k = choose|k: int|
        0 <= k < conns.len() && conn_check(cat, tbl, #[trigger] conns[k]) == Some(
            GraphErrorV::InvalidSlots,
        );
    if conn_check(cat, tbl, conns[0]) is Some {
    } else {
        let rest = conns.drop_first();
        assert(rest[k - 1] == conns[k]);
        assert forall|m: int| 0 <= m < rest.len() implies conn_check(
            cat,
            tbl,
            #[trigger] rest[m],
        ) is None || conn_check(cat, tbl, rest[m]) == Some(GraphErrorV::InvalidSlots) by {
            assert(rest[m] == conns[m + 1]);
        }
        lemma_incompatible_connection_rejected(cat, tbl, rest);
    }
}

/// Identity law: broadcasting any value from a type to the same type
/// returns the value unchanged, under any image dimensions.
pub proof fn lemma_broadcast_identity(v: ValueV, t: DataType, w: nat, h: nat)
    ensures
        spec_broadcast(v, t, t, w, h) == Ok::<ValueV, BroadcastingError>(v),
{
}

/// Memoization law: a dispatch log that matches a well-formed cache names
/// every node at most once — no node is dispatched twice in one run.
pub proof fn lemma_dispatch_once(cache: Table<Vec<Value>>, trace: Seq<String>)
    requires
        cache.wf(),
        trace_matches(cache, trace),
    ensures
        forall|i: int, j: int| 0 <= i < j < trace.len() ==> trace[i]@ != trace[j]@,
{
}

/// Resolving a prefix of slots that are all literals cannot fail.
proof fn lemma_literal_prefix_ok<'n>(
    fg: FinalizedGraph<'n>,
    w: nat,
    h: nat,
    id: Seq<char>,
    m: int,
)
    requires
        fg.wf(),
        fg.tbl().contains_spec(id),
        0 <= m <= fg.tbl().spec_get(id)@.inputs.len(),
        forall|k: int| 0 <= k < m ==> fg.tbl().spec_get(id)@.inputs[k] is Literal,
    ensures
        spec_inputs(fg, w, h, id, m) is Ok,
    decreases m,
{
    if m > 0 {
        lemma_literal_prefix_ok(fg, w, h, id, m - 1);
    }
}

/// An unset input slot fails the solve with a disconnected-slot error
/// naming that slot — never a silently substituted default — whenever the
/// slots before it are literals (an earlier slot could otherwise fail
/// first).
pub proof fn lemma_unset_slot_fails<'n>(
    fg: FinalizedGraph<'n>,
    w: nat,
    h: nat,
    id: Seq<char>,
    j: int,
)
    requires
        fg.wf(),
        fg.tbl().contains_spec(id),
        0 <= j < fg.tbl().spec_get(id)@.inputs.len(),
        fg.tbl().spec_get(id)@.inputs[j] is Unset,
        forall|k: int| 0 <= k < j ==> fg.tbl().spec_get(id)@.inputs[k] is Literal,
    ensures
        spec_solve(fg, w, h, id) == Err::<Seq<ValueV>, ExecErrV>(ExecErrV::DisconnectedSlot(j)),
{
    lemma_literal_prefix_ok(fg, w, h, id, j);
    assert(spec_inputs(fg, w, h, id, j + 1) == Err::<Seq<ValueV>, ExecErrV>(
        ExecErrV::DisconnectedSlot(j),
    ));
    crate::exec::lemma_inputs_err_mono(
        fg,
        w,
        h,
        id,
        j + 1,
        fg.tbl().spec_get(id)@.inputs.len() as int,
    );
}

/// Two node tables with the same shape, row by row: equal keys and equal
/// node shapes, in the same order.
pub open spec fn rows_similar(a: Seq<(String, Node)>, b: Seq<(String, Node)>) -> bool {
    &&& a.len() == b.len()
    &&& forall|i: int|
        #![trigger a[i]]
        #![trigger b[i]]
        0 <= i < a.len() ==> a[i].0@ == b[i].0@ && a[i].1@ == b[i].1@
}

/// A table similar to a well-formed one is itself well-formed, and the two
/// agree on membership, row index and node shape for every key.
pub proof fn lemma_similar_lookup(t1: Table<Node>, t2: Table<Node>, k: Seq<char>)
    requires
        t1.wf(),
        rows_similar(t1.rows(), t2.rows()),
    ensures
        t2.wf(),
        t1.contains_spec(k) == t2.contains_spec(k),
        t1.contains_spec(k) ==> t1.index_of(k) == t2.index_of(k) && t1.spec_get(k)@
            == t2.spec_get(k)@,
{
    assert forall|i: int, j: int|
        0 <= i < j < t2.rows().len() implies t2.rows()[i].0@ != t2.rows()[j].0@ by {
        assert(t2.rows()[i].0@ == t1.rows()[i].0@ && t2.rows()[j].0@ == t1.rows()[j].0@);
    }
    if t1.contains_spec(k) {
        let i1 = t1.index_of(k);
        assert(t2.rows()[i1].0@ == k);
        assert(t2.contains_spec(k));
        let i2 = t2.index_of(k);
        assert(t1.rows()[i2].0@ == k);
        assert(i1 == i2);
    } else if t2.contains_spec(k) {
        let i2 = t2.index_of(k);
        assert(t1.rows()[i2].0@ == k);
    }
}

/// Node validation depends only on the rows' shapes.
pub proof fn lemma_node_error_similar(cat: Catalog, a: Seq<(String, Node)>, b: Seq<(String, Node)>)
    requires
        rows_similar(a, b),
    ensures
        first_node_error(cat, a) == first_node_error(cat, b),
    decreases a.len(),
{
    if a.len() > 0 {
        assert(a[0].1@ == b[0].1@);
        assert(a[0].1@.meta.len() == a[0].1.meta@.len());
        assert(b[0].1@.meta.len() == b[0].1.meta@.len());
        assert(a[0].1@.inputs.len() == a[0].1.inputs@.len());
        assert(b[0].1@.inputs.len() == b[0].1.inputs@.len());
        assert(node_check(cat, a[0].1) == node_check(cat, b[0].1));
        assert forall|i: int|
            #![trigger a.drop_first()[i]]
            #![trigger b.drop_first()[i]]
            0 <= i < a.drop_first().len() implies a.drop_first()[i].0@ == b.drop_first()[i].0@
            && a.drop_first()[i].1@ == b.drop_first()[i].1@ by {
            assert(a.drop_first()[i] == a[i + 1] && b.drop_first()[i] == b[i + 1]);
        }
        lemma_node_error_similar(cat, a.drop_first(), b.drop_first());
    }
}

/// Connection validation depends only on the rows' shapes.
pub proof fn lemma_conn_error_similar(
    cat: Catalog,
    t1: Table<Node>,
    t2: Table<Node>,
    conns: Seq<ConnV>,
)
    requires
        t1.wf(),
        rows_similar(t1.rows(), t2.rows()),
    ensures
        first_conn_error(cat, t1, conns) == first_conn_error(cat, t2, conns),
    decreases conns.len(),
{
    if conns.len() > 0 {
        lemma_similar_lookup(t1, t2, conns[0].input.node);
        lemma_similar_lookup(t1, t2, conns[0].output.node);
        assert(conn_check(cat, t1, conns[0]) == conn_check(cat, t2, conns[0]));
        lemma_conn_error_similar(cat, t1, t2, conns.drop_first());
    }
}

/// Every connection of a graph whose connection checks all pass checks out
/// individually.
proof fn lemma_conn_checks_pointwise(cat: Catalog, tbl: Table<Node>, conns: Seq<ConnV>, k: int)
    requires
        first_conn_error(cat, tbl, conns) is None,
        0 <= k < conns.len(),
    ensures
        conn_check(cat, tbl, conns[k]) is None,
    decreases k,
{
    if k > 0 {
        lemma_conn_checks_pointwise(cat, tbl, conns.drop_first(), k - 1);
        assert(conns.drop_first()[k - 1] == conns[k]);
    }
}

/// Finalization depends only on the graph's mathematical model: a table of
/// the same shape is accepted or rejected identically, with the identical
/// error, and induces the same dependency edges whenever the checks pass.
pub proof fn lemma_model_determines_finalize(
    cat: Catalog,
    t1: Table<Node>,
    t2: Table<Node>,
    conns: Seq<ConnV>,
)
    requires
        t1.wf(),
        rows_similar(t1.rows(), t2.rows()),
    ensures
        t2.wf(),
        checks_pass(cat, t1, conns) == checks_pass(cat, t2, conns),
        finalize_error(cat, t1, conns) == finalize_error(cat, t2, conns),
        checks_pass(cat, t1, conns) ==> dep_edges(t1, conns) == dep_edges(t2, conns),
{
    // any key serves: only the well-formedness half of the lookup lemma
    // is needed at this point
    lemma_similar_lookup(t1, t2, Seq::empty());
    lemma_node_error_similar(cat, t1.rows(), t2.rows());
    lemma_conn_error_similar(cat, t1, t2, conns);
    if checks_pass(cat, t1, conns) {
        assert forall|k: int| 0 <= k < conns.len() implies dep_edges(t1, conns)[k] == dep_edges(
            t2,
            conns,
        )[k] by {
            lemma_conn_checks_pointwise(cat, t1, conns, k);
            lemma_similar_lookup(t1, t2, conns[k].input.node);
            lemma_similar_lookup(t1, t2, conns[k].output.node);
        }
        assert(dep_edges(t1, conns) =~= dep_edges(t2, conns));
    }
}

/// Evaluation depends only on the graph's mathematical model: two
/// well-formed finalized graphs with same-shaped rows, the same
/// connections and the same catalog solve every node to the same result.
/// In particular a graph reloaded from its persisted form re-finalizes and
/// re-evaluates to the same outputs, which is the provable heart of the
/// persistence round trip.
pub proof fn lemma_model_determines_run<'a, 'b>(
    fg1: FinalizedGraph<'a>,
    fg2: FinalizedGraph<'b>,
    w: nat,
    h: nat,
    id: Seq<char>,
)
    requires
        fg1.wf(),
        fg2.wf(),
        fg1.cat() == fg2.cat(),
        fg1.conns() == fg2.conns(),
        rows_similar(fg1.tbl().rows(), fg2.tbl().rows()),
    ensures
        spec_solve(fg1, w, h, id) == spec_solve(fg2, w, h, id),
    decreases spec_rank(fg1, id), 1int, 0int,
{
    lemma_similar_lookup(fg1.tbl(), fg2.tbl(), id);
    if fg1.tbl().contains_spec(id) {
        let node1 = fg1.tbl().spec_get(id);
        let node2 = fg2.tbl().spec_get(id);
        assert(node1@.meta.len() == node1.meta@.len());
        assert(node2@.meta.len() == node2.meta@.len());
        assert(node1@.inputs.len() == node1.inputs@.len());
        assert(node2@.inputs.len() == node2.inputs@.len());
        lemma_inputs_agree(fg1, fg2, w, h, id, node1.inputs@.len() as int);
        assert(views_of(node1.meta@) == views_of(node2.meta@));
    }
}

/// Input resolution depends only on the graph's mathematical model.
proof fn lemma_inputs_agree<'a, 'b>(
    fg1: FinalizedGraph<'a>,
    fg2: FinalizedGraph<'b>,
    w: nat,
    h: nat,
    id: Seq<char>,
    upto: int,
)
    requires
        fg1.wf(),
        fg2.wf(),
        fg1.cat() == fg2.cat(),
        fg1.conns() == fg2.conns(),
        rows_similar(fg1.tbl().rows(), fg2.tbl().rows()),
        fg1.tbl().contains_spec(id),
        0 <= upto <= fg1.tbl().spec_get(id)@.inputs.len(),
    ensures
        spec_inputs(fg1, w, h, id, upto) == spec_inputs(fg2, w, h, id, upto),
    decreases spec_rank(fg1, id), 0int, upto,
{
    lemma_similar_lookup(fg1.tbl(), fg2.tbl(), id);
    assert(fg1.tbl().spec_get(id)@.inputs.len() == fg1.tbl().spec_get(id).inputs@.len());
    if upto > 0 {
        let j = upto - 1;
        lemma_inputs_agree(fg1, fg2, w, h, id, j);
        match fg1.tbl().spec_get(id)@.inputs[j] {
            SlotV::Connected => {
                match spec_find_from(fg1.conns(), id, j) {
                    Some(c) => {
                        lemma_rank_of_producer(fg1, id, j);
                        lemma_model_determines_run(fg1, fg2, w, h, c.output.node);
                        lemma_similar_lookup(fg1.tbl(), fg2.tbl(), c.output.node);
                        assert(spec_slot_datatype(
                            fg1.cat(),
                            fg1.tbl(),
                            c.output.node,
                            c.output.slot,
                            crate::graph::SlotType::Output,
                        ) == spec_slot_datatype(
                            fg2.cat(),
                            fg2.tbl(),
                            c.output.node,
                            c.output.slot,
                            crate::graph::SlotType::Output,
                        ));
                        assert(spec_slot_datatype(
                            fg1.cat(),
                            fg1.tbl(),
                            id,
                            j,
                            crate::graph::SlotType::Input,
                        ) == spec_slot_datatype(
                            fg2.cat(),
                            fg2.tbl(),
                            id,
                            j,
                            crate::graph::SlotType::Input,
                        ));
                    },
                    None => {},
                }
            },
            _ => {},
        }
    }
}

} // verus!
