//! The mutable graph authoring model: nodes, slots, connections.

use vstd::prelude::*;

use rand::distributions::DistString;
use rand::SeedableRng;

use crate::table::Table;
use crate::values::{views_of, Value, ValueV};

verus! {

/// What an input slot of an authored node carries: a value arriving over a
/// connection, a literal baked into the node, or nothing yet.
#[derive(Debug, PartialEq, Eq)]
pub enum SlotValue {
    Connected,
    Literal(Value),
    Unset,
}

/// The mathematical shape of a [`SlotValue`].
pub enum SlotV {
    Connected,
    Literal(ValueV),
    Unset,
}

impl View for SlotValue {
    type V = SlotV;

    open spec fn view(&self) -> SlotV {
        match self {
            SlotValue::Connected => SlotV::Connected,
            SlotValue::Literal(v) => SlotV::Literal(v@),
            SlotValue::Unset => SlotV::Unset,
        }
    }
}

/// The shapes of a list of slot values, element by element.
pub open spec fn slot_views(s: Seq<SlotValue>) -> Seq<SlotV> {
    Seq::new(s.len(), |i: int| s[i]@)
}

/// One authored node: the name of its type (resolved against the catalog
/// only at finalization), its meta values, and one [`SlotValue`] per input.
#[derive(Debug)]
pub struct Node {
    pub node_type: String,
    pub meta: Vec<Value>,
    pub inputs: Vec<SlotValue>,
}

/// The mathematical shape of a [`Node`].
pub struct NodeV {
    pub node_type: Seq<char>,
    pub meta: Seq<ValueV>,
    pub inputs: Seq<SlotV>,
}

impl View for Node {
    type V = NodeV;

    open spec fn view(&self) -> NodeV {
        NodeV {
            node_type: self.node_type@,
            meta: views_of(self.meta@),
            inputs: slot_views(self.inputs@),
        }
    }
}

/// One endpoint of a connection: a node identifier and a slot index.
#[derive(Debug, PartialEq, Eq)]
pub struct NodeAddress {
    pub node: String,
    pub slot: usize,
}

/// The mathematical shape of a [`NodeAddress`].
pub struct AddrV {
    pub node: Seq<char>,
    pub slot: int,
}

impl View for NodeAddress {
    type V = AddrV;

    open spec fn view(&self) -> AddrV {
        AddrV { node: self.node@, slot: self.slot as int }
    }
}

impl NodeAddress {
    /// Copy of the address.
    pub fn duplicate(&self) -> (r: NodeAddress)
        ensures
            r@ == self@,
    {
        NodeAddress { node: self.node.clone(), slot: self.slot }
    }
}

/// A directed edge from one node's output slot to another node's input slot.
#[derive(Debug, PartialEq, Eq)]
pub struct Connection {
    pub input: NodeAddress,
    pub output: NodeAddress,
}

/// The mathematical shape of a [`Connection`].
pub struct ConnV {
    pub input: AddrV,
    pub output: AddrV,
}

impl View for Connection {
    type V = ConnV;

    open spec fn view(&self) -> ConnV {
        ConnV { input: self.input@, output: self.output@ }
    }
}

impl Connection {
    /// Copy of the connection.
    pub fn duplicate(&self) -> (r: Connection)
        ensures
            r@ == self@,
    {
        Connection { input: self.input.duplicate(), output: self.output.duplicate() }
    }
}

/// The shapes of a list of connections, element by element.
pub open spec fn conn_views(s: Seq<Connection>) -> Seq<ConnV> {
    Seq::new(s.len(), |i: int| s[i]@)
}

/// Which declared list a value was missing from.
#[derive(Debug, Clone, Copy, PartialEq, Eq, Structural)]
pub enum FieldType {
    Meta,
    Input,
    Output,
}

/// Which side of a node a slot sits on.
#[derive(Debug, Clone, Copy, PartialEq, Eq, Structural)]
pub enum SlotType {
    Input,
    Output,
}

/// Why finalization rejected a graph.
#[derive(Debug, PartialEq, Eq)]
pub enum GraphError {
    /// The dependency relation induced by the connections has a cycle.
    Cyclic,
    /// A node references a type name the catalog does not know.
    InvalidNode(String),
    /// A node's meta or input list length disagrees with its catalog entry.
    MissingValue(FieldType),
    /// A connection's slot index is out of range, or its declared types are
    /// not in the broadcast relation.
    InvalidSlots,
}

/// The mathematical shape of a [`GraphError`].
pub enum GraphErrorV {
    Cyclic,
    InvalidNode(Seq<char>),
    MissingValue(FieldType),
    InvalidSlots,
}

impl View for GraphError {
    type V = GraphErrorV;

    open spec fn view(&self) -> GraphErrorV {
        match self {
            GraphError::Cyclic => GraphErrorV::Cyclic,
            GraphError::InvalidNode(n) => GraphErrorV::InvalidNode(n@),
            GraphError::MissingValue(f) => GraphErrorV::MissingValue(*f),
            GraphError::InvalidSlots => GraphErrorV::InvalidSlots,
        }
    }
}

#[verifier::external_type_specification]
#[verifier::external_body]
pub struct ExStdRng(rand::rngs::StdRng);

/// Relies on rand's `StdRng::from_entropy` to seed a generator from the
/// operating system.  Nothing is assumed about the values it will yield.
#[verifier::external_body]
fn entropy_rng() -> rand::rngs::StdRng {
    rand::rngs::StdRng::from_entropy()
}

/// The mutable authoring model: a table of nodes keyed by identifier, and a
/// list of directed connections.
pub struct Graph {
    pub nodes: Table<Node>,
    pub connections: Vec<Connection>,
    rng: rand::rngs::StdRng,
}

/// The persisted form of a graph: the node rows, each an identifier and a
/// node, plus the connection list.
#[derive(Debug)]
pub struct SavedGraph {
    pub nodes: Vec<(String, Node)>,
    pub connections: Vec<Connection>,
}

/// An ASCII letter or digit: the characters node identifiers are drawn
/// from.
pub open spec fn is_alnum(c: char) -> bool {
    ('a' <= c && c <= 'z') || ('A' <= c && c <= 'Z') || ('0' <= c && c <= '9')
}

/// Relies on rand's `DistString::sample_string` over the `Alphanumeric`
/// distribution: a string of exactly 16 random characters, each an ASCII
/// letter or digit (the distribution's charset), drawn from the graph's
/// own generator; the nodes and connections are not touched.  Which
/// characters come back is not assumed.
#[verifier::external_body]
fn sample_id(g: &mut Graph) -> (r: String)
    ensures
        r@.len() == 16,
        forall|i: int| 0 <= i < r@.len() ==> is_alnum(r@[i]),
        final(g).nodes_tbl() == old(g).nodes_tbl(),
        final(g).conns() == old(g).conns(),
{
    rand::distributions::Alphanumeric.sample_string(&mut g.rng, 16)
}


/// The hexadecimal digit character for `d`, for `d` below 16.
pub open spec fn hex_char(d: u64) -> char {
    if d == 0 {
        '0'
    } else if d == 1 {
        '1'
    } else if d == 2 {
        '2'
    } else if d == 3 {
        '3'
    } else if d == 4 {
        '4'
    } else if d == 5 {
        '5'
    } else if d == 6 {
        '6'
    } else if d == 7 {
        '7'
    } else if d == 8 {
        '8'
    } else if d == 9 {
        '9'
    } else if d == 10 {
        'a'
    } else if d == 11 {
        'b'
    } else if d == 12 {
        'c'
    } else if d == 13 {
        'd'
    } else if d == 14 {
        'e'
    } else {
        'f'
    }
}

/// The `j`-th candidate of the deterministic fallback: the sixteen
/// hexadecimal digits of `j`, highest first — sixteen alphanumeric
/// characters, distinct candidates for distinct `j`.
pub open spec fn counter_key(j: u64) -> Seq<char> {
    Seq::new(16, |k: int| hex_char((j >> ((4 * (15 - k)) as u64)) & 0xf))
}

/// A nibble is below 16.
proof fn lemma_mask_lt_16(x: u64)
    ensures
        x & 0xf < 16,
{
    assert(x & 0xf < 16) by (bit_vector);
}

/// Equal digit characters come from equal digits.
proof fn lemma_hex_char_inj(x: u64, y: u64)
    requires
        x < 16,
        y < 16,
        hex_char(x) == hex_char(y),
    ensures
        x == y,
{
}

/// Distinct counters give distinct candidates: the sixteen nibbles
/// determine the number.
proof fn lemma_counter_key_injective(a: u64, b: u64)
    requires
        counter_key(a) == counter_key(b),
    ensures
        a == b,
{
    assert(((a >> 60u64) & 0xf) == ((b >> 60u64) & 0xf)) by {
        assert(((4 * (15 - 0)) as u64) == 60u64);
        assert(counter_key(a)[0] == hex_char((a >> ((4 * (15 - 0)) as u64)) & 0xf));
        assert(counter_key(b)[0] == hex_char((b >> ((4 * (15 - 0)) as u64)) & 0xf));
        assert(counter_key(a)[0] == counter_key(b)[0]);
        lemma_mask_lt_16(a >> 60u64);
        lemma_mask_lt_16(b >> 60u64);
        lemma_hex_char_inj((a >> 60u64) & 0xf, (b >> 60u64) & 0xf);
    }
    assert(((a >> 56u64) & 0xf) == ((b >> 56u64) & 0xf)) by {
        assert(((4 * (15 - 1)) as u64) == 56u64);
        assert(counter_key(a)[1] == hex_char((a >> ((4 * (15 - 1)) as u64)) & 0xf));
        assert(counter_key(b)[1] == hex_char((b >> ((4 * (15 - 1)) as u64)) & 0xf));
        assert(counter_key(a)[1] == counter_key(b)[1]);
        lemma_mask_lt_16(a >> 56u64);
        lemma_mask_lt_16(b >> 56u64);
        lemma_hex_char_inj((a >> 56u64) & 0xf, (b >> 56u64) & 0xf);
    }
    assert(((a >> 52u64) & 0xf) == ((b >> 52u64) & 0xf)) by {
        assert(((4 * (15 - 2)) as u64) == 52u64);
        assert(counter_key(a)[2] == hex_char((a >> ((4 * (15 - 2)) as u64)) & 0xf));
        assert(counter_key(b)[2] == hex_char((b >> ((4 * (15 - 2)) as u64)) & 0xf));
        assert(counter_key(a)[2] == counter_key(b)[2]);
        lemma_mask_lt_16(a >> 52u64);
        lemma_mask_lt_16(b >> 52u64);
        lemma_hex_char_inj((a >> 52u64) & 0xf, (b >> 52u64) & 0xf);
    }
    assert(((a >> 48u64) & 0xf) == ((b >> 48u64) & 0xf)) by {
        assert(((4 * (15 - 3)) as u64) == 48u64);
        assert(counter_key(a)[3] == hex_char((a >> ((4 * (15 - 3)) as u64)) & 0xf));
        assert(counter_key(b)[3] == hex_char((b >> ((4 * (15 - 3)) as u64)) & 0xf));
        assert(counter_key(a)[3] == counter_key(b)[3]);
        lemma_mask_lt_16(a >> 48u64);
        lemma_mask_lt_16(b >> 48u64);
        lemma_hex_char_inj((a >> 48u64) & 0xf, (b >> 48u64) & 0xf);
    }
    assert(((a >> 44u64) & 0xf) == ((b >> 44u64) & 0xf)) by {
        assert(((4 * (15 - 4)) as u64) == 44u64);
        assert(counter_key(a)[4] == hex_char((a >> ((4 * (15 - 4)) as u64)) & 0xf));
        assert(counter_key(b)[4] == hex_char((b >> ((4 * (15 - 4)) as u64)) & 0xf));
        assert(counter_key(a)[4] == counter_key(b)[4]);
        lemma_mask_lt_16(a >> 44u64);
        lemma_mask_lt_16(b >> 44u64);
        lemma_hex_char_inj((a >> 44u64) & 0xf, (b >> 44u64) & 0xf);
    }
    assert(((a >> 40u64) & 0xf) == ((b >> 40u64) & 0xf)) by {
        assert(((4 * (15 - 5)) as u64) == 40u64);
        assert(counter_key(a)[5] == hex_char((a >> ((4 * (15 - 5)) as u64)) & 0xf));
        assert(counter_key(b)[5] == hex_char((b >> ((4 * (15 - 5)) as u64)) & 0xf));
        assert(counter_key(a)[5] == counter_key(b)[5]);
        lemma_mask_lt_16(a >> 40u64);
        lemma_mask_lt_16(b >> 40u64);
        lemma_hex_char_inj((a >> 40u64) & 0xf, (b >> 40u64) & 0xf);
    }
    assert(((a >> 36u64) & 0xf) == ((b >> 36u64) & 0xf)) by {
        assert(((4 * (15 - 6)) as u64) == 36u64);
        assert(counter_key(a)[6] == hex_char((a >> ((4 * (15 - 6)) as u64)) & 0xf));
        assert(counter_key(b)[6] == hex_char((b >> ((4 * (15 - 6)) as u64)) & 0xf));
        assert(counter_key(a)[6] == counter_key(b)[6]);
        lemma_mask_lt_16(a >> 36u64);
        lemma_mask_lt_16(b >> 36u64);
        lemma_hex_char_inj((a >> 36u64) & 0xf, (b >> 36u64) & 0xf);
    }
    assert(((a >> 32u64) & 0xf) == ((b >> 32u64) & 0xf)) by {
        assert(((4 * (15 - 7)) as u64) == 32u64);
        assert(counter_key(a)[7] == hex_char((a >> ((4 * (15 - 7)) as u64)) & 0xf));
        assert(counter_key(b)[7] == hex_char((b >> ((4 * (15 - 7)) as u64)) & 0xf));
        assert(counter_key(a)[7] == counter_key(b)[7]);
        lemma_mask_lt_16(a >> 32u64);
        lemma_mask_lt_16(b >> 32u64);
        lemma_hex_char_inj((a >> 32u64) & 0xf, (b >> 32u64) & 0xf);
    }
    assert(((a >> 28u64) & 0xf) == ((b >> 28u64) & 0xf)) by {
        assert(((4 * (15 - 8)) as u64) == 28u64);
        assert(counter_key(a)[8] == hex_char((a >> ((4 * (15 - 8)) as u64)) & 0xf));
        assert(counter_key(b)[8] == hex_char((b >> ((4 * (15 - 8)) as u64)) & 0xf));
        assert(counter_key(a)[8] == counter_key(b)[8]);
        lemma_mask_lt_16(a >> 28u64);
        lemma_mask_lt_16(b >> 28u64);
        lemma_hex_char_inj((a >> 28u64) & 0xf, (b >> 28u64) & 0xf);
    }
    assert(((a >> 24u64) & 0xf) == ((b >> 24u64) & 0xf)) by {
        assert(((4 * (15 - 9)) as u64) == 24u64);
        assert(counter_key(a)[9] == hex_char((a >> ((4 * (15 - 9)) as u64)) & 0xf));
        assert(counter_key(b)[9] == hex_char((b >> ((4 * (15 - 9)) as u64)) & 0xf));
        assert(counter_key(a)[9] == counter_key(b)[9]);
        lemma_mask_lt_16(a >> 24u64);
        lemma_mask_lt_16(b >> 24u64);
        lemma_hex_char_inj((a >> 24u64) & 0xf, (b >> 24u64) & 0xf);
    }
    assert(((a >> 20u64) & 0xf) == ((b >> 20u64) & 0xf)) by {
        assert(((4 * (15 - 10)) as u64) == 20u64);
        assert(counter_key(a)[10] == hex_char((a >> ((4 * (15 - 10)) as u64)) & 0xf));
        assert(counter_key(b)[10] == hex_char((b >> ((4 * (15 - 10)) as u64)) & 0xf));
        assert(counter_key(a)[10] == counter_key(b)[10]);
        lemma_mask_lt_16(a >> 20u64);
        lemma_mask_lt_16(b >> 20u64);
        lemma_hex_char_inj((a >> 20u64) & 0xf, (b >> 20u64) & 0xf);
    }
    assert(((a >> 16u64) & 0xf) == ((b >> 16u64) & 0xf)) by {
        assert(((4 * (15 - 11)) as u64) == 16u64);
        assert(counter_key(a)[11] == hex_char((a >> ((4 * (15 - 11)) as u64)) & 0xf));
        assert(counter_key(b)[11] == hex_char((b >> ((4 * (15 - 11)) as u64)) & 0xf));
        assert(counter_key(a)[11] == counter_key(b)[11]);
        lemma_mask_lt_16(a >> 16u64);
        lemma_mask_lt_16(b >> 16u64);
        lemma_hex_char_inj((a >> 16u64) & 0xf, (b >> 16u64) & 0xf);
    }
    assert(((a >> 12u64) & 0xf) == ((b >> 12u64) & 0xf)) by {
        assert(((4 * (15 - 12)) as u64) == 12u64);
        assert(counter_key(a)[12] == hex_char((a >> ((4 * (15 - 12)) as u64)) & 0xf));
        assert(counter_key(b)[12] == hex_char((b >> ((4 * (15 - 12)) as u64)) & 0xf));
        assert(counter_key(a)[12] == counter_key(b)[12]);
        lemma_mask_lt_16(a >> 12u64);
        lemma_mask_lt_16(b >> 12u64);
        lemma_hex_char_inj((a >> 12u64) & 0xf, (b >> 12u64) & 0xf);
    }
    assert(((a >> 8u64) & 0xf) == ((b >> 8u64) & 0xf)) by {
        assert(((4 * (15 - 13)) as u64) == 8u64);
        assert(counter_key(a)[13] == hex_char((a >> ((4 * (15 - 13)) as u64)) & 0xf));
        assert(counter_key(b)[13] == hex_char((b >> ((4 * (15 - 13)) as u64)) & 0xf));
        assert(counter_key(a)[13] == counter_key(b)[13]);
        lemma_mask_lt_16(a >> 8u64);
        lemma_mask_lt_16(b >> 8u64);
        lemma_hex_char_inj((a >> 8u64) & 0xf, (b >> 8u64) & 0xf);
    }
    assert(((a >> 4u64) & 0xf) == ((b >> 4u64) & 0xf)) by {
        assert(((4 * (15 - 14)) as u64) == 4u64);
        assert(counter_key(a)[14] == hex_char((a >> ((4 * (15 - 14)) as u64)) & 0xf));
        assert(counter_key(b)[14] == hex_char((b >> ((4 * (15 - 14)) as u64)) & 0xf));
        assert(counter_key(a)[14] == counter_key(b)[14]);
        lemma_mask_lt_16(a >> 4u64);
        lemma_mask_lt_16(b >> 4u64);
        lemma_hex_char_inj((a >> 4u64) & 0xf, (b >> 4u64) & 0xf);
    }
    assert(((a >> 0u64) & 0xf) == ((b >> 0u64) & 0xf)) by {
        assert(((4 * (15 - 15)) as u64) == 0u64);
        assert(counter_key(a)[15] == hex_char((a >> ((4 * (15 - 15)) as u64)) & 0xf));
        assert(counter_key(b)[15] == hex_char((b >> ((4 * (15 - 15)) as u64)) & 0xf));
        assert(counter_key(a)[15] == counter_key(b)[15]);
        lemma_mask_lt_16(a >> 0u64);
        lemma_mask_lt_16(b >> 0u64);
        lemma_hex_char_inj((a >> 0u64) & 0xf, (b >> 0u64) & 0xf);
    }
    assert(a == b) by (bit_vector)
        requires
            (a >> 60u64) & 0xf == (b >> 60u64) & 0xf,
            (a >> 56u64) & 0xf == (b >> 56u64) & 0xf,
            (a >> 52u64) & 0xf == (b >> 52u64) & 0xf,
            (a >> 48u64) & 0xf == (b >> 48u64) & 0xf,
            (a >> 44u64) & 0xf == (b >> 44u64) & 0xf,
            (a >> 40u64) & 0xf == (b >> 40u64) & 0xf,
            (a >> 36u64) & 0xf == (b >> 36u64) & 0xf,
            (a >> 32u64) & 0xf == (b >> 32u64) & 0xf,
            (a >> 28u64) & 0xf == (b >> 28u64) & 0xf,
            (a >> 24u64) & 0xf == (b >> 24u64) & 0xf,
            (a >> 20u64) & 0xf == (b >> 20u64) & 0xf,
            (a >> 16u64) & 0xf == (b >> 16u64) & 0xf,
            (a >> 12u64) & 0xf == (b >> 12u64) & 0xf,
            (a >> 8u64) & 0xf == (b >> 8u64) & 0xf,
            (a >> 4u64) & 0xf == (b >> 4u64) & 0xf,
            (a >> 0u64) & 0xf == (b >> 0u64) & 0xf,
    ;
}

/// Among the first `n + 1` distinct candidates, a table with `n` rows
/// misses at least one.
proof fn lemma_counter_fresh(t: Table<Node>, n: int)
    requires
        t.wf(),
        n == t.rows().len(),
        n <= u64::MAX,
    ensures
        exists|m: int|
            0 <= m <= n && !#[trigger] t.contains_spec(counter_key(m as u64)),
{
    if forall|m: int| 0 <= m <= n ==> #[trigger] t.contains_spec(counter_key(m as u64)) {
        let idxs = Seq::<int>::new((n + 1) as nat, |m: int| t.index_of(counter_key(m as u64)));
        assert forall|m: int, m2: int|
            0 <= m < idxs.len() && 0 <= m2 < idxs.len() && m != m2 implies #[trigger] idxs[m]
            != #[trigger] idxs[m2] by {
            assert(t.contains_spec(counter_key(m as u64)));
            assert(t.contains_spec(counter_key(m2 as u64)));
            assert(t.rows()[t.index_of(counter_key(m as u64))].0@ == counter_key(m as u64));
            assert(t.rows()[t.index_of(counter_key(m2 as u64))].0@ == counter_key(m2 as u64));
            if idxs[m] == idxs[m2] {
                lemma_counter_key_injective(m as u64, m2 as u64);
            }
        }
        assert(idxs.no_duplicates());
        assert forall|m: int| 0 <= m < idxs.len() implies 0 <= #[trigger] idxs[m] < n by {
            assert(t.contains_spec(counter_key(m as u64)));
            assert(t.rows()[t.index_of(counter_key(m as u64))].0@ == counter_key(m as u64));
        }
        idxs.unique_seq_to_set();
        assert(idxs.to_set().subset_of(vstd::set_lib::set_int_range(0, n)));
        vstd::set_lib::lemma_int_range(0, n);
        vstd::set_lib::lemma_len_subset(idxs.to_set(), vstd::set_lib::set_int_range(0, n));
        assert(false);
    }
}

/// Appends the hexadecimal digit character for `d`.
fn push_hex(s: &mut String, d: u64)
    requires
        d < 16,
    ensures
        final(s)@ == old(s)@ + seq![hex_char(d)],
{
    proof {
        reveal_strlit("0");
        reveal_strlit("1");
        reveal_strlit("2");
        reveal_strlit("3");
        reveal_strlit("4");
        reveal_strlit("5");
        reveal_strlit("6");
        reveal_strlit("7");
        reveal_strlit("8");
        reveal_strlit("9");
        reveal_strlit("a");
        reveal_strlit("b");
        reveal_strlit("c");
        reveal_strlit("d");
        reveal_strlit("e");
        reveal_strlit("f");
    }
    if d == 0 {
        s.append("0");
    } else if d == 1 {
        s.append("1");
    } else if d == 2 {
        s.append("2");
    } else if d == 3 {
        s.append("3");
    } else if d == 4 {
        s.append("4");
    } else if d == 5 {
        s.append("5");
    } else if d == 6 {
        s.append("6");
    } else if d == 7 {
        s.append("7");
    } else if d == 8 {
        s.append("8");
    } else if d == 9 {
        s.append("9");
    } else if d == 10 {
        s.append("a");
    } else if d == 11 {
        s.append("b");
    } else if d == 12 {
        s.append("c");
    } else if d == 13 {
        s.append("d");
    } else if d == 14 {
        s.append("e");
    } else {
        s.append("f");
    }
}

/// The `j`-th fallback candidate, executably.
fn counter_id(j: u64) -> (r: String)
    ensures
        r@ == counter_key(j),
        r@.len() == 16,
        forall|i: int| 0 <= i < r@.len() ==> is_alnum(r@[i]),
{
    let mut s = String::new();
    let mut k: usize = 0;
    while k < 16
        invariant
            k <= 16,
            s@.len() == k,
            forall|m: int| 0 <= m < k ==> s@[m] == counter_key(j)[m],
        decreases 16 - k,
    {
        let d = (j >> ((4 * (15 - k)) as u64)) & 0xf;
        proof {
            lemma_mask_lt_16(j >> ((4 * (15 - k)) as u64));
        }
        push_hex(&mut s, d);
        k = k + 1;
    }
    proof {
        assert(s@ =~= counter_key(j));
        assert forall|i: int| 0 <= i < s@.len() implies is_alnum(s@[i]) by {
            lemma_mask_lt_16(j >> ((4 * (15 - i)) as u64));
        }
    }
    s
}

/// The first connection, in list order, whose input endpoint is (`node`,
/// `slot`).
pub open spec fn spec_find_from(conns: Seq<ConnV>, node: Seq<char>, slot: int) -> Option<ConnV>
    decreases conns.len(),
{
    if conns.len() == 0 {
        None
    } else if conns[0].input.node == node && conns[0].input.slot == slot {
        Some(conns[0])
    } else {
        spec_find_from(conns.drop_first(), node, slot)
    }
}

/// Skipping a prefix with no matching input endpoint does not change which
/// connection is found.
pub proof fn lemma_find_from_skip(conns: Seq<ConnV>, node: Seq<char>, slot: int, i: int)
    requires
        0 <= i <= conns.len(),
        forall|j: int| 0 <= j < i ==> !(conns[j].input.node == node && conns[j].input.slot == slot),
    ensures
        spec_find_from(conns, node, slot) == spec_find_from(conns.skip(i), node, slot),
    decreases i,
{
    if i > 0 {
        lemma_find_from_skip(conns, node, slot, i - 1);
        assert(conns.skip(i - 1).drop_first() =~= conns.skip(i));
        assert(conns.skip(i - 1)[0] == conns[i - 1]);
    } else {
        assert(conns.skip(0) =~= conns);
    }
}

impl SlotValue {
    /// Deep copy; the copy has the same shape.
    pub fn duplicate(&self) -> (r: SlotValue)
        ensures
            r@ == self@,
    {
        match self {
            SlotValue::Connected => SlotValue::Connected,
            SlotValue::Literal(v) => SlotValue::Literal(v.duplicate()),
            SlotValue::Unset => SlotValue::Unset,
        }
    }
}

/// Deep copy of a list of slot values, element by element.
pub fn duplicate_slots(vs: &Vec<SlotValue>) -> (r: Vec<SlotValue>)
    ensures
        slot_views(r@) == slot_views(vs@),
{
    let mut out: Vec<SlotValue> = Vec::new();
    let mut i: usize = 0;
    while i < vs.len()
        invariant
            i <= vs.len(),
            out@.len() == i,
            forall|j: int| 0 <= j < i ==> out@[j]@ == vs@[j]@,
        decreases vs.len() - i,
    {
        out.push(vs[i].duplicate());
        i = i + 1;
    }
    proof {
        assert(slot_views(out@) =~= slot_views(vs@));
    }
    out
}

impl Node {
    /// Deep copy; the copy has the same shape.
    pub fn duplicate(&self) -> (r: Node)
        ensures
            r@ == self@,
    {
        let r = Node {
            node_type: self.node_type.clone(),
            meta: crate::values::duplicate_values(&self.meta),
            inputs: duplicate_slots(&self.inputs),
        };
        r
    }
}

/// The identifier of the implicit graph-level input source every graph is
/// seeded with.
pub fn input_id() -> (r: String)
    ensures
        r@ == "_input"@,
{
    String::from_str("_input")
}

/// The identifier of the implicit graph-level output sink every graph is
/// seeded with.
pub fn output_id() -> (r: String)
    ensures
        r@ == "_output"@,
{
    String::from_str("_output")
}

impl Default for Graph {
    /// An empty graph, before even the reserved nodes are added.
    fn default() -> (g: Graph)
        ensures
            g.wf(),
            g.nodes_tbl().rows().len() == 0,
            g.conns() =~= Seq::<ConnV>::empty(),
    {
        Graph { nodes: Table::new(), connections: Vec::new(), rng: entropy_rng() }
    }
}

impl Graph {
    /// The nodes, as a keyed table.
    pub closed spec fn nodes_tbl(self) -> Table<Node> {
        self.nodes
    }

    /// The connections, in insertion order.
    pub closed spec fn conns(self) -> Seq<ConnV> {
        conn_views(self.connections@)
    }

    /// Node identifiers are pairwise distinct.
    pub open spec fn wf(self) -> bool {
        self.nodes_tbl().wf()
    }

    /// The node table, for reading.
    pub fn nodes_ref(&self) -> (t: &Table<Node>)
        ensures
            *t == self.nodes_tbl(),
    {
        &self.nodes
    }

    /// The connection list, for reading.
    pub fn connections_ref(&self) -> (v: &Vec<Connection>)
        ensures
            conn_views(v@) == self.conns(),
    {
        &self.connections
    }

    /// A graph pre-populated with the two reserved nodes: the graph-input
    /// source (type `Input`, no inputs) and the graph-output sink (type
    /// `Output`, one unset input slot).
    pub fn new() -> (g: Graph)
        ensures
            g.wf(),
            g.conns() =~= Seq::<ConnV>::empty(),
            g.nodes_tbl().rows().len() == 2,
            g.nodes_tbl().rows()[0].0@ == "_input"@,
            g.nodes_tbl().rows()[0].1@.node_type == "Input"@,
            g.nodes_tbl().rows()[0].1@.meta =~= Seq::<ValueV>::empty(),
            g.nodes_tbl().rows()[0].1@.inputs =~= Seq::<SlotV>::empty(),
            g.nodes_tbl().rows()[1].0@ == "_output"@,
            g.nodes_tbl().rows()[1].1@.node_type == "Output"@,
            g.nodes_tbl().rows()[1].1@.meta =~= Seq::<ValueV>::empty(),
            g.nodes_tbl().rows()[1].1@.inputs =~= seq![SlotV::Unset],
    {
        let mut g: Graph = Default::default();
        proof {
            reveal_strlit("_input");
            reveal_strlit("_output");
        }
        g.nodes.add(
            input_id(),
            Node { node_type: String::from_str("Input"), meta: Vec::new(), inputs: Vec::new() },
        );
        proof {
            assert("_input"@.len() == 6);
            assert("_output"@.len() == 7);
            assert(!g.nodes.contains_spec("_output"@));
        }
        let mut sink_inputs: Vec<SlotValue> = Vec::new();
        sink_inputs.push(SlotValue::Unset);
        g.nodes.add(
            output_id(),
            Node {
                node_type: String::from_str("Output"),
                meta: Vec::new(),
                inputs: sink_inputs,
            },
        );
        proof {
            assert(g.nodes_tbl().rows()[1].1@.inputs =~= seq![SlotV::Unset]);
        }
        g
    }

    /// Stores a new node under a fresh sixteen-character alphanumeric
    /// identifier and returns the identifier.  The identifier is drawn at
    /// random; a collision (vanishingly unlikely) is never reported as
    /// failure: the fallback walks distinct deterministic candidates, of
    /// which a table of `n` rows can occupy at most `n`.
    pub fn insert(&mut self, node_type: String, meta: Vec<Value>, inputs: Vec<SlotValue>) -> (id: String)
        requires
            old(self).wf(),
        ensures
            final(self).wf(),
            !old(self).nodes_tbl().contains_spec(id@),
            id@.len() == 16,
            forall|i: int| 0 <= i < id@.len() ==> is_alnum(id@[i]),
            final(self).conns() == old(self).conns(),
            final(self).nodes_tbl().rows().len() == old(self).nodes_tbl().rows().len() + 1,
            forall|j: int|
                0 <= j < old(self).nodes_tbl().rows().len() ==> final(self).nodes_tbl().rows()[j]
                    == old(self).nodes_tbl().rows()[j],
            final(self).nodes_tbl().rows().last().0@ == id@,
            final(self).nodes_tbl().rows().last().1@.node_type == node_type@,
            final(self).nodes_tbl().rows().last().1@.meta == views_of(meta@),
            final(self).nodes_tbl().rows().last().1@.inputs == slot_views(inputs@),
    {
        let mut key = sample_id(self);
        if self.nodes.contains(&key) {
            // a collision: walk distinct sixteen-character candidates; by
            // the pigeonhole principle the stored keys cannot occupy all
            // n + 1 of them
            let n = self.nodes.len();
            let mut j: usize = 0;
            let mut found = false;
            while !found && j <= n
                invariant
                    self.wf(),
                    self.nodes_tbl() == old(self).nodes_tbl(),
                    self.conns() == old(self).conns(),
                    n == self.nodes_tbl().rows().len(),
                    j <= n + 1,
                    found ==> !self.nodes_tbl().contains_spec(key@) && key@.len() == 16 && (
                    forall|q: int| 0 <= q < key@.len() ==> is_alnum(key@[q])),
                    !found ==> forall|m: int|
                        0 <= m < j ==> #[trigger] self.nodes_tbl().contains_spec(
                            counter_key(m as u64),
                        ),
                decreases n + 1 - j, (if found {
                    0int
                } else {
                    1int
                }),
            {
                let c = counter_id(j as u64);
                if !self.nodes.contains(&c) {
                    key = c;
                    found = true;
                } else {
                    proof {
                        assert(c@ == counter_key((j as int) as u64));
                        if j == n {
                            lemma_counter_fresh(self.nodes_tbl(), n as int);
                            assert(false);
                        }
                    }
                    j = j + 1;
                }
            }
            proof {
                if !found {
                    lemma_counter_fresh(self.nodes_tbl(), n as int);
                    assert(false);
                }
            }
        }
        let node = Node { node_type, meta, inputs };
        let out = key.clone();
        self.nodes.add(key, node);
        out
    }

    /// Connects `output_node`'s output slot `out_slot` to `input_node`'s
    /// input slot `input_slot`.  Fails, mutating nothing, if either node is
    /// unknown, the input slot index is out of range, or that input slot
    /// already has a producer.  On success the input slot is marked
    /// `Connected` and the connection is recorded.
    pub fn connect(
        &mut self,
        output_node: String,
        out_slot: usize,
        input_node: String,
        input_slot: usize,
    ) -> (ok: bool)
        requires
            old(self).wf(),
        ensures
            final(self).wf(),
            ok == (old(self).nodes_tbl().contains_spec(output_node@) && old(
                self,
            ).nodes_tbl().contains_spec(input_node@) && input_slot < old(
                self,
            ).nodes_tbl().spec_get(input_node@)@.inputs.len() && spec_find_from(
                old(self).conns(),
                input_node@,
                input_slot as int,
            ) is None),
            !ok ==> final(self).nodes_tbl() == old(self).nodes_tbl() && final(self).conns()
                == old(self).conns(),
            ok ==> final(self).conns() == old(self).conns().push(
                ConnV {
                    input: AddrV { node: input_node@, slot: input_slot as int },
                    output: AddrV { node: output_node@, slot: out_slot as int },
                },
            ),
            ok ==> {
                let k = old(self).nodes_tbl().index_of(input_node@);
                let rows = final(self).nodes_tbl().rows();
                let orows = old(self).nodes_tbl().rows();
                &&& rows.len() == orows.len()
                &&& forall|j: int| 0 <= j < orows.len() && j != k ==> rows[j] == orows[j]
                &&& rows[k].0@ == orows[k].0@
                &&& rows[k].1@.node_type == orows[k].1@.node_type
                &&& rows[k].1@.meta == orows[k].1@.meta
                &&& rows[k].1@.inputs == orows[k].1@.inputs.update(
                    input_slot as int,
                    SlotV::Connected,
                )
            },
    {
        if !self.nodes.contains(&output_node) {
            return false;
        }
        let idx = match self.nodes.find(&input_node) {
            Some(i) => i,
            Option::None => {
                return false;
            },
        };
        let in_len = self.nodes.val_at(idx).inputs.len();
        proof {
            assert(self.nodes_tbl().rows()[idx as int].1 == self.nodes_tbl().spec_get(
                input_node@,
            ));
            assert(self.nodes_tbl().spec_get(input_node@)@.inputs.len() == in_len);
        }
        if input_slot >= in_len {
            return false;
        }
        // Enforce a single producer per input slot: any existing connection
        // into this address, identical or not, refuses the new one.
        let mut c: usize = 0;
        while c < self.connections.len()
            invariant
                self == old(self),
                self.wf(),
                c <= self.conns().len(),
                forall|j: int|
                    0 <= j < c ==> !(self.conns()[j].input.node == input_node@
                        && self.conns()[j].input.slot == input_slot as int),
            decreases self.connections.len() - c,
        {
            if self.connections[c].input.node == input_node && self.connections[c].input.slot
                == input_slot {
                proof {
                    lemma_find_from_skip(self.conns(), input_node@, input_slot as int, c as int);
                    assert(self.conns().skip(c as int)[0] == self.conns()[c as int]);
                    assert(spec_find_from(self.conns(), input_node@, input_slot as int) is Some);
                }
                return false;
            }
            c = c + 1;
        }
        proof {
            lemma_find_from_skip(
                self.conns(),
                input_node@,
                input_slot as int,
                self.conns().len() as int,
            );
            assert(self.conns().skip(self.conns().len() as int) =~= Seq::<ConnV>::empty());
        }
        let old_node = self.nodes.val_at(idx);
        let mut new_inputs = duplicate_slots(&old_node.inputs);
        proof {
            assert(slot_views(new_inputs@).len() == slot_views(old_node.inputs@).len());
            assert(new_inputs@.len() == old_node.inputs@.len());
        }
        new_inputs[input_slot] = SlotValue::Connected;
        let new_node = Node {
            node_type: old_node.node_type.clone(),
            meta: crate::values::duplicate_values(&old_node.meta),
            inputs: new_inputs,
        };
        self.nodes.set_val(idx, new_node);
        self.connections.push(
            Connection {
                input: NodeAddress { node: input_node, slot: input_slot },
                output: NodeAddress { node: output_node, slot: out_slot },
            },
        );
        proof {
            assert(self.conns() =~= old(self).conns().push(
                ConnV {
                    input: AddrV { node: input_node@, slot: input_slot as int },
                    output: AddrV { node: output_node@, slot: out_slot as int },
                },
            ));
            let k = old(self).nodes_tbl().index_of(input_node@);
            assert(self.nodes_tbl().rows()[k].1@.inputs =~= old(
                self,
            ).nodes_tbl().rows()[k].1@.inputs.update(input_slot as int, SlotV::Connected));
        }
        true
    }

    /// The persisted form of the authoring model: the node rows and the
    /// connection list, with nothing else.  A well-formed graph saves with
    /// pairwise-distinct keys, so it loads back.
    pub fn to_saved(&self) -> (s: SavedGraph)
        ensures
            s.nodes@.len() == self.nodes_tbl().rows().len(),
            forall|i: int|
                0 <= i < s.nodes@.len() ==> #[trigger] s.nodes@[i].0@
                    == self.nodes_tbl().rows()[i].0@ && s.nodes@[i].1@
                    == self.nodes_tbl().rows()[i].1@,
            conn_views(s.connections@) == self.conns(),
            self.wf() ==> forall|i: int, j: int|
                0 <= i < j < s.nodes@.len() ==> s.nodes@[i].0@ != s.nodes@[j].0@,
    {
        let mut rows: Vec<(String, Node)> = Vec::new();
        let n = self.nodes.len();
        let mut i: usize = 0;
        while i < n
            invariant
                n == self.nodes_tbl().rows().len(),
                i <= n,
                rows@.len() == i,
                forall|j: int|
                    0 <= j < i ==> #[trigger] rows@[j].0@ == self.nodes_tbl().rows()[j].0@
                        && rows@[j].1@ == self.nodes_tbl().rows()[j].1@,
            decreases n - i,
        {
            rows.push((self.nodes.key_at(i).clone(), self.nodes.val_at(i).duplicate()));
            i = i + 1;
        }
        let mut conns: Vec<Connection> = Vec::new();
        let mut c: usize = 0;
        while c < self.connections.len()
            invariant
                c <= self.conns().len(),
                self.conns() == conn_views(self.connections@),
                conns@.len() == c,
                forall|j: int| 0 <= j < c ==> #[trigger] conns@[j]@ == self.conns()[j],
            decreases self.connections.len() - c,
        {
            conns.push(self.connections[c].duplicate());
            c = c + 1;
        }
        proof {
            assert(conn_views(conns@) =~= self.conns());
        }
        SavedGraph { nodes: rows, connections: conns }
    }

    /// Loads a persisted authoring model.  Fails exactly when two rows
    /// share a key; otherwise the loaded graph has the saved rows and
    /// connections, in order.
    pub fn from_saved(s: &SavedGraph) -> (r: Option<Graph>)
        ensures
            match r {
                Some(g) => {
                    &&& g.wf()
                    &&& g.nodes_tbl().rows().len() == s.nodes@.len()
                    &&& forall|i: int|
                        0 <= i < s.nodes@.len() ==> #[trigger] g.nodes_tbl().rows()[i].0@
                            == s.nodes@[i].0@ && g.nodes_tbl().rows()[i].1@ == s.nodes@[i].1@
                    &&& g.conns() == conn_views(s.connections@)
                },
                None => exists|i: int, j: int|
                    0 <= i < j < s.nodes@.len() && s.nodes@[i].0@ == s.nodes@[j].0@,
            },
    {
        let mut tbl: Table<Node> = Table::new();
        let n = s.nodes.len();
        let mut i: usize = 0;
        while i < n
            invariant
                n == s.nodes@.len(),
                i <= n,
                tbl.wf(),
                tbl.rows().len() == i,
                forall|j: int|
                    0 <= j < i ==> #[trigger] tbl.rows()[j].0@ == s.nodes@[j].0@
                        && tbl.rows()[j].1@ == s.nodes@[j].1@,
            decreases n - i,
        {
            let k = s.nodes[i].0.clone();
            if tbl.contains(&k) {
                proof {
                    let j = choose|j: int| 0 <= j < tbl.rows().len() && tbl.rows()[j].0@ == k@;
                    assert(s.nodes@[j].0@ == s.nodes@[i as int].0@);
                }
                return None;
            }
            tbl.add(k, s.nodes[i].1.duplicate());
            i = i + 1;
        }
        let mut conns: Vec<Connection> = Vec::new();
        let mut c: usize = 0;
        while c < s.connections.len()
            invariant
                c <= s.connections@.len(),
                conns@.len() == c,
                forall|j: int| 0 <= j < c ==> #[trigger] conns@[j]@ == s.connections@[j]@,
            decreases s.connections.len() - c,
        {
            conns.push(s.connections[c].duplicate());
            c = c + 1;
        }
        let g = Graph { nodes: tbl, connections: conns, rng: entropy_rng() };
        proof {
            assert(g.conns() =~= conn_views(s.connections@));
        }
        Some(g)
    }

    /// The first recorded connection whose input endpoint is (`node`,
    /// `slot`), if any.
    pub fn slot_connected_from(&self, node: &String, slot: usize) -> (r: Option<&Connection>)
        ensures
            match r {
                Some(c) => spec_find_from(self.conns(), node@, slot as int) == Some(c@),
                None => spec_find_from(self.conns(), node@, slot as int) is None,
            },
    {
        let mut c: usize = 0;
        while c < self.connections.len()
            invariant
                c <= self.conns().len(),
                forall|j: int|
                    0 <= j < c ==> !(self.conns()[j].input.node == node@ && self.conns()[j].input.slot
                        == slot as int),
            decreases self.connections.len() - c,
        {
            if self.connections[c].input.node == *node && self.connections[c].input.slot == slot {
                proof {
                    lemma_find_from_skip(self.conns(), node@, slot as int, c as int);
                }
                return Some(&self.connections[c]);
            }
            c = c + 1;
        }
        proof {
            lemma_find_from_skip(self.conns(), node@, slot as int, self.conns().len() as int);
            assert(self.conns().skip(self.conns().len() as int) =~= Seq::<ConnV>::empty());
        }
        None
    }
}

} // verus!
