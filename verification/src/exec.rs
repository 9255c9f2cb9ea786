//! Node behaviors and their dispatcher.

use vstd::prelude::*;
use vstd::string::*;

use crate::broadcast::{broadcast, broadcast_res_view, spec_broadcast, BroadcastingError};
use crate::finalize::{spec_slot_datatype, FinalizedGraph};
use crate::graph::{spec_find_from, ConnV, SlotV, SlotValue};
use crate::table::Table;
use crate::values::{duplicate_values, views_of, Num, Value, ValueV};

verus! {

/// Read-only parameters shared by one evaluation run: the target image
/// width and height.
pub struct GraphContext {
    pub dimensions: (usize, usize),
}

impl GraphContext {
    /// The machine can address the pixel buffer: four bytes per pixel fit
    /// in a `usize`.
    pub open spec fn wf(self) -> bool {
        8 * self.dimensions.0 * self.dimensions.1 <= usize::MAX
    }
}

/// Why an evaluation run failed.
#[derive(Debug, PartialEq, Eq)]
pub enum ExecutionError {
    /// A node identifier or node-type name that nothing declares.
    UnknownNode(String),
    /// An input slot with no producer and no literal.
    DisconnectedSlot(usize),
    /// A value of the wrong shape, or a dependency that produced too few
    /// outputs.
    ValueError,
    /// A coercion failed.
    BroadcastingError(BroadcastingError),
}

/// The mathematical shape of an [`ExecutionError`].
pub enum ExecErrV {
    UnknownNode(Seq<char>),
    DisconnectedSlot(int),
    ValueError,
    BroadcastingError(BroadcastingError),
}

impl View for ExecutionError {
    type V = ExecErrV;

    open spec fn view(&self) -> ExecErrV {
        match self {
            ExecutionError::UnknownNode(n) => ExecErrV::UnknownNode(n@),
            ExecutionError::DisconnectedSlot(s) => ExecErrV::DisconnectedSlot(*s as int),
            ExecutionError::ValueError => ExecErrV::ValueError,
            ExecutionError::BroadcastingError(e) => ExecErrV::BroadcastingError(*e),
        }
    }
}

/// An image write requested by a node: evaluation computes the pixels, the
/// caller performs the write.
#[derive(Debug, PartialEq, Eq)]
pub struct ImageRequest {
    pub path: String,
    pub width: usize,
    pub height: usize,
    pub pixels: Vec<u8>,
}

/// The mathematical shape of an [`ImageRequest`].
pub struct ImageReqV {
    pub path: Seq<char>,
    pub width: int,
    pub height: int,
    pub pixels: Seq<u8>,
}

impl View for ImageRequest {
    type V = ImageReqV;

    open spec fn view(&self) -> ImageReqV {
        ImageReqV {
            path: self.path@,
            width: self.width as int,
            height: self.height as int,
            pixels: self.pixels@,
        }
    }
}

/// The pass-through behavior: the meta values followed by the input values,
/// unchanged.
pub open spec fn spec_passthrough(meta: Seq<ValueV>, inputs: Seq<ValueV>) -> Seq<ValueV> {
    meta + inputs
}

/// The pass-through behavior, executably.
pub fn passthrough(meta: &Vec<Value>, inputs: &Vec<Value>) -> (r: Vec<Value>)
    ensures
        views_of(r@) == spec_passthrough(views_of(meta@), views_of(inputs@)),
{
    let mut out = crate::values::duplicate_values(meta);
    proof {
        assert(views_of(out@).len() == views_of(meta@).len());
        assert forall|j: int| 0 <= j < meta@.len() implies out@[j]@ == meta@[j]@ by {
            assert(views_of(out@)[j] == views_of(meta@)[j]);
        }
    }
    let mut i: usize = 0;
    while i < inputs.len()
        invariant
            i <= inputs.len(),
            out@.len() == meta@.len() + i,
            forall|j: int| 0 <= j < meta@.len() ==> out@[j]@ == meta@[j]@,
            forall|j: int| 0 <= j < i ==> out@[meta@.len() + j]@ == inputs@[j]@,
        decreases inputs.len() - i,
    {
        out.push(inputs[i].duplicate());
        i = i + 1;
    }
    proof {
        assert(views_of(out@) =~= views_of(meta@) + views_of(inputs@));
    }
    out
}

/// The context-info behavior: one output, the pair of image dimensions.
pub open spec fn spec_node_info(w: nat, h: nat) -> Seq<ValueV> {
    seq![ValueV::List(seq![Num::Whole(w as u64), Num::Whole(h as u64)])]
}

/// The context-info behavior, executably.
pub fn node_info(ctx: &GraphContext) -> (r: Vec<Value>)
    ensures
        views_of(r@) == spec_node_info(ctx.dimensions.0 as nat, ctx.dimensions.1 as nat),
{
    let mut l: Vec<Num> = Vec::new();
    l.push(Num::Whole(ctx.dimensions.0 as u64));
    l.push(Num::Whole(ctx.dimensions.1 as u64));
    proof {
        assert(l@ =~= seq![
            Num::Whole(ctx.dimensions.0 as u64),
            Num::Whole(ctx.dimensions.1 as u64),
        ]);
    }
    let mut out: Vec<Value> = Vec::new();
    out.push(Value::List(l));
    proof {
        assert(views_of(out@) =~= spec_node_info(
            ctx.dimensions.0 as nat,
            ctx.dimensions.1 as nat,
        ));
    }
    out
}

/// The image-writer behavior: a path meta value and an encoded texture
/// input become a pixel buffer of exactly `4 * w * h` bytes; anything
/// missing or malformed is a value error.
pub open spec fn spec_save(meta: Seq<ValueV>, inputs: Seq<ValueV>, w: nat, h: nat) -> Result<
    ImageReqV,
    ExecErrV,
> {
    if meta.len() < 1 || inputs.len() < 1 {
        Err(ExecErrV::ValueError)
    } else {
        match (meta[0], inputs[0]) {
            (ValueV::Text(path), ValueV::Text(texture)) => match crate::broadcast::b64_decode_of(
                texture,
            ) {
                None => Err(ExecErrV::ValueError),
                Some(bytes) => if bytes.len() == 4 * w * h {
                    Ok(ImageReqV { path, width: w as int, height: h as int, pixels: bytes })
                } else {
                    Err(ExecErrV::ValueError)
                },
            },
            _ => Err(ExecErrV::ValueError),
        }
    }
}

/// The shape of an image-writer result.
pub open spec fn save_res_view(r: Result<ImageRequest, ExecutionError>) -> Result<
    ImageReqV,
    ExecErrV,
> {
    match r {
        Ok(req) => Ok(req@),
        Err(e) => Err(e@),
    }
}

/// The image-writer behavior, executably: decodes and sizes the pixel
/// buffer and hands back the write request.
pub fn save_texture(meta: &Vec<Value>, inputs: &Vec<Value>, ctx: &GraphContext) -> (r: Result<
    ImageRequest,
    ExecutionError,
>)
    requires
        ctx.wf(),
    ensures
        save_res_view(r) == spec_save(
            views_of(meta@),
            views_of(inputs@),
            ctx.dimensions.0 as nat,
            ctx.dimensions.1 as nat,
        ),
{
    if meta.len() < 1 || inputs.len() < 1 {
        return Err(ExecutionError::ValueError);
    }
    let path = match &meta[0] {
        Value::Text(s) => s.clone(),
        _ => {
            return Err(ExecutionError::ValueError);
        },
    };
    let texture = match &inputs[0] {
        Value::Text(s) => s,
        _ => {
            return Err(ExecutionError::ValueError);
        },
    };
    let bytes = match crate::broadcast::b64_decode(texture) {
        Some(b) => b,
        None => {
            return Err(ExecutionError::ValueError);
        },
    };
    proof {
        let w = ctx.dimensions.0 as int;
        let h = ctx.dimensions.1 as int;
        assert(w * h <= 8 * w * h && 4 * (w * h) <= 8 * w * h && 4 * (w * h) == 4 * w * h)
            by (nonlinear_arith)
            requires
                w >= 0 && h >= 0,
        ;
    }
    let expected = 4 * (ctx.dimensions.0 * ctx.dimensions.1);
    if bytes.len() != expected {
        return Err(ExecutionError::ValueError);
    }
    Ok(
        ImageRequest {
            path,
            width: ctx.dimensions.0,
            height: ctx.dimensions.1,
            pixels: bytes,
        },
    )
}

/// What dispatching one node computes: its output values and, for the
/// image writer, a pending write request.  The pass-through types `Value`
/// and `Output` echo meta then inputs; `Save` builds a write request and
/// has no outputs; `Input` reports the context dimensions; any other name
/// is unknown.
pub open spec fn spec_execute(
    name: Seq<char>,
    meta: Seq<ValueV>,
    inputs: Seq<ValueV>,
    w: nat,
    h: nat,
) -> Result<(Seq<ValueV>, Option<ImageReqV>), ExecErrV> {
    if name == "Value"@ {
        Ok((spec_passthrough(meta, inputs), None))
    } else if name == "Save"@ {
        match spec_save(meta, inputs, w, h) {
            Ok(req) => Ok((Seq::empty(), Some(req))),
            Err(e) => Err(e),
        }
    } else if name == "Input"@ {
        Ok((spec_node_info(w, h), None))
    } else if name == "Output"@ {
        Ok((spec_passthrough(meta, inputs), None))
    } else {
        Err(ExecErrV::UnknownNode(name))
    }
}

/// The shape of a dispatch result.
pub open spec fn exec_res_view(r: Result<(Vec<Value>, Option<ImageRequest>), ExecutionError>) -> Result<
    (Seq<ValueV>, Option<ImageReqV>),
    ExecErrV,
> {
    match r {
        Ok((vs, Some(req))) => Ok((views_of(vs@), Some(req@))),
        Ok((vs, None)) => Ok((views_of(vs@), None)),
        Err(e) => Err(e@),
    }
}

/// Dispatches one node to its behavior by type name, exactly as
/// [`spec_execute`] says.
pub fn execute(node_type: &String, meta: &Vec<Value>, inputs: &Vec<Value>, ctx: &GraphContext) -> (
    r: Result<(Vec<Value>, Option<ImageRequest>), ExecutionError>)
    requires
        ctx.wf(),
    ensures
        exec_res_view(r) == spec_execute(
            node_type@,
            views_of(meta@),
            views_of(inputs@),
            ctx.dimensions.0 as nat,
            ctx.dimensions.1 as nat,
        ),
{
    if *node_type == String::from_str("Value") {
        Ok((passthrough(meta, inputs), None))
    } else if *node_type == String::from_str("Save") {
        match save_texture(meta, inputs, ctx) {
            Ok(req) => {
                let outs: Vec<Value> = Vec::new();
                proof {
                    assert(views_of(outs@) =~= Seq::<ValueV>::empty());
                }
                Ok((outs, Some(req)))
            },
            Err(e) => Err(e),
        }
    } else if *node_type == String::from_str("Input") {
        Ok((node_info(ctx), None))
    } else if *node_type == String::from_str("Output") {
        Ok((passthrough(meta, inputs), None))
    } else {
        Err(ExecutionError::UnknownNode(node_type.clone()))
    }
}

/// A connection found for an input endpoint is a member of the list, with
/// that endpoint.
pub proof fn lemma_find_from_member(conns: Seq<ConnV>, node: Seq<char>, slot: int)
    requires
        spec_find_from(conns, node, slot) is Some,
    ensures
        ({
            let c = spec_find_from(conns, node, slot).unwrap();
            &&& exists|k: int| 0 <= k < conns.len() && conns[k] == c
            &&& c.input.node == node
            &&& c.input.slot == slot
        }),
    decreases conns.len(),
{
    let c = spec_find_from(conns, node, slot).unwrap();
    if conns[0].input.node == node && conns[0].input.slot == slot {
        assert(conns[0] == c);
    } else {
        lemma_find_from_member(conns.drop_first(), node, slot);
        let k = choose|k: int| 0 <= k < conns.drop_first().len() && conns.drop_first()[k] == c;
        assert(conns[k + 1] == c);
    }
}

/// The rank of each node row: nodes outside the graph rank zero.
pub open spec fn spec_rank<'n>(fg: FinalizedGraph<'n>, id: Seq<char>) -> int {
    if fg.tbl().contains_spec(id) {
        fg.ranks_spec()[fg.tbl().index_of(id) as usize as int] as int
    } else {
        0
    }
}

/// The producer a connected input slot draws from ranks strictly below the
/// consuming node, and is itself in the graph.
pub proof fn lemma_rank_of_producer<'n>(fg: FinalizedGraph<'n>, id: Seq<char>, j: int)
    requires
        fg.wf(),
        fg.tbl().contains_spec(id),
        spec_find_from(fg.conns(), id, j) is Some,
    ensures
        ({
            let c = spec_find_from(fg.conns(), id, j).unwrap();
            &&& fg.tbl().contains_spec(c.output.node)
            &&& spec_rank(fg, c.output.node) < spec_rank(fg, id)
        }),
{
    lemma_find_from_member(fg.conns(), id, j);
    let c = spec_find_from(fg.conns(), id, j).unwrap();
    let k = choose|k: int| 0 <= k < fg.conns().len() && fg.conns()[k] == c;
    assert(crate::finalize::conn_check(fg.cat(), fg.tbl(), fg.conns()[k]) is None);
    let ii = fg.tbl().index_of(id);
    let oi = fg.tbl().index_of(c.output.node);
    assert(fg.tbl().rows()[ii].0@ == id);
    assert(fg.tbl().rows()[oi].0@ == c.output.node);
    assert(crate::finalize::dep_edges(fg.tbl(), fg.conns())[k] == (ii as usize, oi as usize));
    assert(fg.ranks_spec()[oi as usize as int] < fg.ranks_spec()[ii as usize as int]);
}

/// The first `upto` input slots of node `id`, resolved in order: a literal
/// is passed through untouched, a connected slot solves its producer and
/// broadcasts the produced value across the declared types, an unset slot
/// is a disconnected-slot error, as is a connected slot with no recorded
/// producer.
pub open spec fn spec_inputs<'n>(
    fg: FinalizedGraph<'n>,
    w: nat,
    h: nat,
    id: Seq<char>,
    upto: int,
) -> Result<Seq<ValueV>, ExecErrV>
    decreases spec_rank(fg, id), 0int, upto,
        when fg.wf() && fg.tbl().contains_spec(id) && 0 <= upto <= fg.tbl().spec_get(
            id,
        )@.inputs.len()
        via spec_inputs_dec
{
    if upto <= 0 {
        Ok(Seq::empty())
    } else {
        let j = upto - 1;
        match spec_inputs(fg, w, h, id, j) {
            Err(e) => Err(e),
            Ok(pre) => match fg.tbl().spec_get(id)@.inputs[j] {
                SlotV::Literal(v) => Ok(pre.push(v)),
                SlotV::Unset => Err(ExecErrV::DisconnectedSlot(j)),
                SlotV::Connected => match spec_find_from(fg.conns(), id, j) {
                    None => Err(ExecErrV::DisconnectedSlot(j)),
                    Some(c) => match spec_solve(fg, w, h, c.output.node) {
                        Err(e) => Err(e),
                        Ok(prod) => if !(0 <= c.output.slot < prod.len()) {
                            Err(ExecErrV::ValueError)
                        } else {
                            match spec_slot_datatype(
                                fg.cat(),
                                fg.tbl(),
                                c.output.node,
                                c.output.slot,
                                crate::graph::SlotType::Output,
                            ) {
                                None => Err(ExecErrV::ValueError),
                                Some(ot) => match spec_slot_datatype(
                                    fg.cat(),
                                    fg.tbl(),
                                    id,
                                    j,
                                    crate::graph::SlotType::Input,
                                ) {
                                    None => Err(ExecErrV::ValueError),
                                    Some(it) => match spec_broadcast(
                                        prod[c.output.slot],
                                        ot,
                                        it,
                                        w,
                                        h,
                                    ) {
                                        Ok(v) => Ok(pre.push(v)),
                                        Err(e) => Err(ExecErrV::BroadcastingError(e)),
                                    },
                                },
                            }
                        },
                    },
                },
            },
        }
    }
}

#[via_fn]
proof fn spec_inputs_dec<'n>(fg: FinalizedGraph<'n>, w: nat, h: nat, id: Seq<char>, upto: int) {
    if fg.wf() && fg.tbl().contains_spec(id) && 0 < upto <= fg.tbl().spec_get(id)@.inputs.len() {
        let j = upto - 1;
        if spec_find_from(fg.conns(), id, j) is Some {
            lemma_rank_of_producer(fg, id, j);
        }
    }
}

/// What solving node `id` yields: its resolved inputs dispatched to its
/// behavior, or the first failure on the way there.
pub open spec fn spec_solve<'n>(fg: FinalizedGraph<'n>, w: nat, h: nat, id: Seq<char>) -> Result<
    Seq<ValueV>,
    ExecErrV,
>
    decreases spec_rank(fg, id), 1int, 0int,
        when fg.wf()
{
    if !fg.tbl().contains_spec(id) {
        Err(ExecErrV::UnknownNode(id))
    } else {
        let node = fg.tbl().spec_get(id);
        match spec_inputs(fg, w, h, id, node@.inputs.len() as int) {
            Err(e) => Err(e),
            Ok(ins) => match spec_execute(node.node_type@, views_of(node.meta@), ins, w, h) {
                Err(e) => Err(e),
                Ok(oi) => Ok(oi.0),
            },
        }
    }
}

/// An input-resolution failure stays the failure however many further
/// slots are considered.
pub proof fn lemma_inputs_err_mono<'n>(
    fg: FinalizedGraph<'n>,
    w: nat,
    h: nat,
    id: Seq<char>,
    m: int,
    m2: int,
)
    requires
        fg.wf(),
        fg.tbl().contains_spec(id),
        0 <= m <= m2 <= fg.tbl().spec_get(id)@.inputs.len(),
        spec_inputs(fg, w, h, id, m) is Err,
    ensures
        spec_inputs(fg, w, h, id, m2) == spec_inputs(fg, w, h, id, m),
    decreases m2 - m,
{
    if m2 > m {
        lemma_inputs_err_mono(fg, w, h, id, m, m2 - 1);
    }
}

/// Every cache row binds a node identifier to exactly what solving it
/// yields.
pub open spec fn cache_ok<'n>(fg: FinalizedGraph<'n>, w: nat, h: nat, cache: Table<Vec<Value>>) -> bool {
    &&& cache.wf()
    &&& forall|i: int|
        0 <= i < cache.rows().len() ==> spec_solve(fg, w, h, #[trigger] cache.rows()[i].0@)
            == Ok::<Seq<ValueV>, ExecErrV>(views_of(cache.rows()[i].1@))
}

/// The dispatch log lists exactly the cached node identifiers, in the
/// order they were first dispatched.
pub open spec fn trace_matches(cache: Table<Vec<Value>>, trace: Seq<String>) -> bool {
    &&& trace.len() == cache.rows().len()
    &&& forall|i: int| 0 <= i < trace.len() ==> #[trigger] trace[i]@ == cache.rows()[i].0@
}

/// `b` keeps every row of `a`, in place.
pub open spec fn table_extends(a: Table<Vec<Value>>, b: Table<Vec<Value>>) -> bool {
    &&& a.rows().len() <= b.rows().len()
    &&& forall|i: int| 0 <= i < a.rows().len() ==> b.rows()[i] == #[trigger] a.rows()[i]
}

/// `b` keeps every request of `a`, in place, appending at most.
pub open spec fn images_extend(a: Seq<ImageRequest>, b: Seq<ImageRequest>) -> bool {
    &&& a.len() <= b.len()
    &&& forall|i: int| 0 <= i < a.len() ==> b[i] == #[trigger] a[i]
}

/// The image write node `id` requests when it is dispatched: what its
/// behavior hands back beside its outputs, and nothing when the node is
/// unknown, fails, or writes nothing.
pub open spec fn spec_node_request<'n>(
    fg: FinalizedGraph<'n>,
    w: nat,
    h: nat,
    id: Seq<char>,
) -> Option<ImageReqV> {
    if !fg.tbl().contains_spec(id) {
        None
    } else {
        let node = fg.tbl().spec_get(id);
        match spec_inputs(fg, w, h, id, node@.inputs.len() as int) {
            Err(_) => None,
            Ok(ins) => match spec_execute(node.node_type@, views_of(node.meta@), ins, w, h) {
                Err(_) => None,
                Ok(oi) => oi.1,
            },
        }
    }
}

/// The shapes of a list of image requests, element by element.
pub open spec fn req_views(s: Seq<ImageRequest>) -> Seq<ImageReqV> {
    Seq::new(s.len(), |i: int| s[i]@)
}

/// The requests of the dispatched nodes, in dispatch order; a node that
/// requests nothing contributes nothing.
pub open spec fn requests_of<'n>(
    fg: FinalizedGraph<'n>,
    w: nat,
    h: nat,
    ids: Seq<String>,
) -> Seq<ImageReqV>
    decreases ids.len(),
{
    if ids.len() == 0 {
        Seq::empty()
    } else {
        let rest = requests_of(fg, w, h, ids.drop_last());
        match spec_node_request(fg, w, h, ids.last()@) {
            Some(r) => rest.push(r),
            None => rest,
        }
    }
}

/// The image requests are exactly those of the dispatched nodes, in
/// dispatch order.
pub open spec fn images_match<'n>(
    fg: FinalizedGraph<'n>,
    w: nat,
    h: nat,
    images: Seq<ImageRequest>,
    trace: Seq<String>,
) -> bool {
    req_views(images) == requests_of(fg, w, h, trace)
}

/// Solves one node: returns its cached outputs if it was already
/// dispatched, and otherwise resolves its inputs (solving producers
/// recursively), dispatches it once, and caches the outputs.
#[verifier::rlimit(50)]
pub fn solve_for<'n>(
    node_id: &String,
    graph: &FinalizedGraph<'n>,
    ctx: &GraphContext,
    cache: &mut Table<Vec<Value>>,
    trace: &mut Vec<String>,
    images: &mut Vec<ImageRequest>,
) -> (r: Result<Vec<Value>, ExecutionError>)
    requires
        graph.wf(),
        ctx.wf(),
        cache_ok(*graph, ctx.dimensions.0 as nat, ctx.dimensions.1 as nat, *old(cache)),
        trace_matches(*old(cache), old(trace)@),
        images_match(
            *graph,
            ctx.dimensions.0 as nat,
            ctx.dimensions.1 as nat,
            old(images)@,
            old(trace)@,
        ),
    ensures
        cache_ok(*graph, ctx.dimensions.0 as nat, ctx.dimensions.1 as nat, *final(cache)),
        trace_matches(*final(cache), final(trace)@),
        table_extends(*old(cache), *final(cache)),
        images_extend(old(images)@, final(images)@),
        images_match(
            *graph,
            ctx.dimensions.0 as nat,
            ctx.dimensions.1 as nat,
            final(images)@,
            final(trace)@,
        ),
        old(cache).contains_spec(node_id@) ==> *final(cache) == *old(cache) && final(trace)@
            == old(trace)@ && final(images)@ == old(images)@,
        !graph.tbl().contains_spec(node_id@) ==> *final(cache) == *old(cache) && final(trace)@
            == old(trace)@ && final(images)@ == old(images)@,
        forall|k: int|
            #![trigger final(cache).rows()[k]]
            old(cache).rows().len() <= k < final(cache).rows().len()
                ==> (final(cache).rows()[k].0@ == node_id@ || spec_rank(
                *graph,
                final(cache).rows()[k].0@,
            ) < spec_rank(*graph, node_id@)),
        match r {
            Ok(outs) => spec_solve(
                *graph,
                ctx.dimensions.0 as nat,
                ctx.dimensions.1 as nat,
                node_id@,
            ) == Ok::<Seq<ValueV>, ExecErrV>(views_of(outs@)) && final(cache).contains_spec(
                node_id@,
            ),
            Err(e) => spec_solve(
                *graph,
                ctx.dimensions.0 as nat,
                ctx.dimensions.1 as nat,
                node_id@,
            ) == Err::<Seq<ValueV>, ExecErrV>(e@),
        },
    decreases spec_rank(*graph, node_id@),
{
    let ghost w = ctx.dimensions.0 as nat;
    let ghost h = ctx.dimensions.1 as nat;
    if let Some(hit) = cache.get(node_id) {
        proof {
            let i = cache.index_of(node_id@);
            assert(cache.rows()[i].0@ == node_id@);
        }
        return Ok(duplicate_values(hit));
    }
    let node = match graph.graph().nodes_ref().get(node_id) {
        Some(n) => n,
        None => {
            return Err(ExecutionError::UnknownNode(node_id.clone()));
        },
    };
    let n_inputs = node.inputs.len();
    let mut ins: Vec<Value> = Vec::new();
    proof {
        assert(views_of(ins@) =~= Seq::<ValueV>::empty());
    }
    let mut j: usize = 0;
    while j < n_inputs
        invariant
            graph.wf(),
            ctx.wf(),
            w == ctx.dimensions.0 as nat,
            h == ctx.dimensions.1 as nat,
            graph.tbl().contains_spec(node_id@),
            *node == graph.tbl().spec_get(node_id@),
            n_inputs == node.inputs@.len(),
            j <= n_inputs,
            spec_inputs(*graph, w, h, node_id@, j as int) == Ok::<Seq<ValueV>, ExecErrV>(
                views_of(ins@),
            ),
            cache_ok(*graph, w, h, *cache),
            trace_matches(*cache, trace@),
            table_extends(*old(cache), *cache),
            images_extend(old(images)@, images@),
            images_match(*graph, w, h, images@, trace@),
            forall|k: int|
                #![trigger cache.rows()[k]]
                old(cache).rows().len() <= k < cache.rows().len() ==> spec_rank(
                    *graph,
                    cache.rows()[k].0@,
                ) < spec_rank(*graph, node_id@),
        decreases n_inputs - j,
    {
        let ghost pre = views_of(ins@);
        match &node.inputs[j] {
            SlotValue::Literal(v) => {
                ins.push(v.duplicate());
                proof {
                    assert(views_of(ins@) =~= pre.push(node@.inputs[j as int]->Literal_0));
                }
            },
            SlotValue::Unset => {
                proof {
                    lemma_inputs_err_mono(*graph, w, h, node_id@, j as int + 1, n_inputs as int);
                }
                return Err(ExecutionError::DisconnectedSlot(j));
            },
            SlotValue::Connected => {
                let conn = match graph.graph().slot_connected_from(node_id, j) {
                    Some(c) => c.duplicate(),
                    None => {
                        proof {
                            lemma_inputs_err_mono(
                                *graph,
                                w,
                                h,
                                node_id@,
                                j as int + 1,
                                n_inputs as int,
                            );
                        }
                        return Err(ExecutionError::DisconnectedSlot(j));
                    },
                };
                proof {
                    lemma_rank_of_producer(*graph, node_id@, j as int);
                    lemma_find_from_member(graph.conns(), node_id@, j as int);
                }
                let ghost cpre = *cache;
                let prod_res = solve_for(&conn.output.node, graph, ctx, cache, trace, images);
                proof {
                    assert forall|k: int|
                        #![trigger cache.rows()[k]]
                        old(cache).rows().len() <= k < cache.rows().len() implies spec_rank(
                        *graph,
                        cache.rows()[k].0@,
                    ) < spec_rank(*graph, node_id@) by {
                        if k < cpre.rows().len() {
                            assert(cache.rows()[k] == cpre.rows()[k]);
                        } else {
                            assert(cache.rows()[k].0@ == conn.output.node@ || spec_rank(
                                *graph,
                                cache.rows()[k].0@,
                            ) < spec_rank(*graph, conn.output.node@));
                        }
                    }
                }
                let prod = match prod_res {
                    Ok(p) => p,
                    Err(e) => {
                        proof {
                            lemma_inputs_err_mono(
                                *graph,
                                w,
                                h,
                                node_id@,
                                j as int + 1,
                                n_inputs as int,
                            );
                        }
                        return Err(e);
                    },
                };
                if conn.output.slot >= prod.len() {
                    proof {
                        lemma_inputs_err_mono(
                            *graph,
                            w,
                            h,
                            node_id@,
                            j as int + 1,
                            n_inputs as int,
                        );
                    }
                    return Err(ExecutionError::ValueError);
                }
                let value = prod[conn.output.slot].duplicate();
                let out_ty = match graph.slot_datatype(&conn.output, crate::graph::SlotType::Output) {
                    Some(t) => t,
                    None => {
                        proof {
                            lemma_inputs_err_mono(
                                *graph,
                                w,
                                h,
                                node_id@,
                                j as int + 1,
                                n_inputs as int,
                            );
                        }
                        return Err(ExecutionError::ValueError);
                    },
                };
                let in_ty = match graph.slot_datatype(&conn.input, crate::graph::SlotType::Input) {
                    Some(t) => t,
                    None => {
                        proof {
                            lemma_inputs_err_mono(
                                *graph,
                                w,
                                h,
                                node_id@,
                                j as int + 1,
                                n_inputs as int,
                            );
                        }
                        return Err(ExecutionError::ValueError);
                    },
                };
                match broadcast(value, &out_ty, &in_ty, ctx) {
                    Ok(v) => {
                        let ghost vv = v@;
                        ins.push(v);
                        proof {
                            assert(views_of(ins@) =~= pre.push(vv));
                        }
                    },
                    Err(e) => {
                        proof {
                            lemma_inputs_err_mono(
                                *graph,
                                w,
                                h,
                                node_id@,
                                j as int + 1,
                                n_inputs as int,
                            );
                        }
                        return Err(ExecutionError::BroadcastingError(e));
                    },
                }
            },
        }
        j = j + 1;
    }
    let (outs, req) = match execute(&node.node_type, &node.meta, &ins, ctx) {
        Ok(p) => p,
        Err(e) => {
            return Err(e);
        },
    };
    if !cache.contains(node_id) {
        let ghost t0 = trace@;
        match req {
            Some(r) => {
                proof {
                    assert(spec_node_request(*graph, w, h, node_id@) == Some(r@));
                }
                images.push(r);
            },
            Option::None => {
                proof {
                    assert(spec_node_request(*graph, w, h, node_id@) is None);
                }
            },
        }
        let copy = duplicate_values(&outs);
        cache.add(node_id.clone(), copy);
        trace.push(node_id.clone());
        proof {
            let rows = cache.rows();
            assert(rows[rows.len() - 1].0@ == node_id@);
            assert(cache.contains_spec(node_id@));
            assert(spec_solve(*graph, w, h, node_id@) == Ok::<Seq<ValueV>, ExecErrV>(
                views_of(rows[rows.len() - 1].1@),
            ));
            assert(trace@.drop_last() =~= t0);
            assert(trace@.last()@ == node_id@);
            assert(req_views(images@) =~= requests_of(*graph, w, h, trace@));
        }
    }
    Ok(outs)
}

/// Everything one evaluation run produces: the outputs of every node, the
/// image writes the run requested, and the order in which nodes were
/// dispatched (each exactly once).
pub struct RunOutput {
    pub values: Table<Vec<Value>>,
    pub images: Vec<ImageRequest>,
    pub dispatches: Vec<String>,
}

/// Evaluates every node of a finalized graph once, memoized: on success the
/// result maps each node to exactly what solving it yields, every image
/// request comes from some node, and the dispatch log lists each solved
/// node exactly once; the first failure aborts the whole run.
pub fn run<'n>(graph: FinalizedGraph<'n>, ctx: GraphContext) -> (r: Result<
    RunOutput,
    ExecutionError,
>)
    requires
        graph.wf(),
        ctx.wf(),
    ensures
        match r {
            Ok(out) => {
                &&& cache_ok(graph, ctx.dimensions.0 as nat, ctx.dimensions.1 as nat, out.values)
                &&& trace_matches(out.values, out.dispatches@)
                &&& forall|k: int|
                    0 <= k < graph.tbl().rows().len() ==> out.values.contains_spec(
                        #[trigger] graph.tbl().rows()[k].0@,
                    )
                &&& images_match(
                    graph,
                    ctx.dimensions.0 as nat,
                    ctx.dimensions.1 as nat,
                    out.images@,
                    out.dispatches@,
                )
            },
            Err(e) => exists|i: int|
                #![trigger graph.tbl().rows()[i]]
                0 <= i < graph.tbl().rows().len() && spec_solve(
                    graph,
                    ctx.dimensions.0 as nat,
                    ctx.dimensions.1 as nat,
                    graph.tbl().rows()[i].0@,
                ) == Err::<Seq<ValueV>, ExecErrV>(e@) && forall|j: int|
                    0 <= j < i ==> spec_solve(
                        graph,
                        ctx.dimensions.0 as nat,
                        ctx.dimensions.1 as nat,
                        #[trigger] graph.tbl().rows()[j].0@,
                    ) is Ok,
        },
{
    let ghost w = ctx.dimensions.0 as nat;
    let ghost h = ctx.dimensions.1 as nat;
    let mut cache: Table<Vec<Value>> = Table::new();
    let mut trace: Vec<String> = Vec::new();
    let mut images: Vec<ImageRequest> = Vec::new();
    proof {
        assert(req_views(images@) =~= requests_of(graph, w, h, trace@));
    }
    let n = graph.graph().nodes_ref().len();
    let mut i: usize = 0;
    while i < n
        invariant
            graph.wf(),
            ctx.wf(),
            w == ctx.dimensions.0 as nat,
            h == ctx.dimensions.1 as nat,
            n == graph.tbl().rows().len(),
            i <= n,
            cache_ok(graph, w, h, cache),
            trace_matches(cache, trace@),
            images_match(graph, w, h, images@, trace@),
            forall|k: int| 0 <= k < i ==> cache.contains_spec(#[trigger] graph.tbl().rows()[k].0@),
        decreases n - i,
    {
        let id = graph.graph().nodes_ref().key_at(i).clone();
        match solve_for(&id, &graph, &ctx, &mut cache, &mut trace, &mut images) {
            Ok(_) => {},
            Err(e) => {
                proof {
                    assert forall|j: int| 0 <= j < i implies spec_solve(
                        graph,
                        w,
                        h,
                        #[trigger] graph.tbl().rows()[j].0@,
                    ) is Ok by {
                        let key = graph.tbl().rows()[j].0@;
                        assert(cache.contains_spec(key));
                        let m = cache.index_of(key);
                        assert(cache.rows()[m].0@ == key);
                    }
                }
                return Err(e);
            },
        }
        i = i + 1;
    }
    Ok(RunOutput { values: cache, images, dispatches: trace })
}

} // verus!
