//! Data types, the broadcast relation, and the node-type catalog.

use vstd::prelude::*;

use crate::table::Table;
use crate::values::Value;

verus! {

/// The closed set of slot shapes.
#[derive(Debug, Clone, Copy, PartialEq, Eq, Structural)]
pub enum DataType {
    Scalar,
    Vec2,
    Vec3,
    Color,
    Texture,
}

/// The coercion-compatibility relation: every type broadcasts to itself,
/// `Scalar` broadcasts to everything, and `Vec3` and `Color` broadcast to
/// each other and to `Texture`.
pub open spec fn spec_broadcasts(from: DataType, to: DataType) -> bool {
    ||| from == to
    ||| from == DataType::Scalar
    ||| (from == DataType::Vec3 && (to == DataType::Color || to == DataType::Texture))
    ||| (from == DataType::Color && (to == DataType::Vec3 || to == DataType::Texture))
}

impl DataType {
    /// Whether a value of type `from` may be coerced into type `to`.
    pub fn broadcasts(from: &DataType, to: &DataType) -> (r: bool)
        ensures
            r == spec_broadcasts(*from, *to),
    {
        match (from, to) {
            (a, b) if *a == *b => true,
            (DataType::Scalar, _) => true,
            (DataType::Vec3, DataType::Color | DataType::Texture) => true,
            (DataType::Color, DataType::Vec3 | DataType::Texture) => true,
            _ => false,
        }
    }
}

/// How one meta parameter is declared: a plain typed value or a file path.
#[derive(Debug, Clone, Copy, PartialEq, Eq, Structural)]
pub enum MetaType {
    Simple(DataType),
    FilePath,
}

/// The declaration of one meta parameter.
#[derive(Debug)]
pub struct MetaInfo {
    pub name: String,
    pub meta_type: MetaType,
    pub default_value: Option<Value>,
}

/// The declaration of one input slot.
#[derive(Debug)]
pub struct InputInfo {
    pub name: String,
    pub data_type: DataType,
    pub default_value: Option<Value>,
}

/// The declaration of one output slot.
#[derive(Debug)]
pub struct OutputInfo {
    pub name: String,
    pub data_type: DataType,
}

/// The catalog entry for one node type: its display name and the ordered
/// declarations of its meta parameters, input slots and output slots.
#[derive(Debug)]
pub struct NodeType {
    pub name: String,
    pub meta: Vec<MetaInfo>,
    pub inputs: Vec<InputInfo>,
    pub outputs: Vec<OutputInfo>,
}

/// The read-only registry of node-type schemas, keyed by type name.
pub type Catalog = Table<NodeType>;

} // verus!
