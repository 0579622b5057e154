//! Errors of parsing and of extraction.
use vstd::prelude::*;

use crate::value::GMLValue;

verus! {

/// A field that the extraction reads.
#[derive(Debug, Clone, Copy, PartialEq, Eq)]
pub enum Field {
    Graph,
    Id,
    Directed,
    Label,
    Node,
    Edge,
    Source,
    Target,
}

/// The kind of a value, as a field expects it.
#[derive(Debug, Clone, Copy, PartialEq, Eq)]
pub enum ValueKind {
    Text,
    Integer,
    Object,
}

/// What went wrong. The reader takes each key together with its value, so
/// a value without a key, or a key without a value, is a syntax error.
#[derive(Debug, PartialEq, Eq)]
pub enum ErrorKind {
    /// The text does not follow the grammar; `offset` counts characters
    /// from the start of the text up to the place where it fails.
    Syntax { offset: usize },
    /// An integer literal does not fit in 64 signed bits.
    NumberFormat,
    /// The root object has no `graph` attribute.
    MissingGraph,
    /// A mandatory field is absent.
    MissingField(Field),
    /// A field holds a value of another kind than the one expected.
    TypeMismatch { field: Field, expected: ValueKind, found: GMLValue },
}

/// The error of parsing a document or of building a graph from it.
#[derive(Debug, PartialEq, Eq)]
pub struct GMLError {
    pub kind: ErrorKind,
}

impl Field {
    /// The key under which the field is stored.
    pub open spec fn key(self) -> Seq<char> {
        match self {
            Field::Graph => "graph"@,
            Field::Id => "id"@,
            Field::Directed => "directed"@,
            Field::Label => "label"@,
            Field::Node => "node"@,
            Field::Edge => "edge"@,
            Field::Source => "source"@,
            Field::Target => "target"@,
        }
    }

    /// The key under which the field is stored.
    pub fn as_str(&self) -> (r: &'static str)
        ensures
            r@ == self.key(),
    {
        match self {
            Field::Graph => "graph",
            Field::Id => "id",
            Field::Directed => "directed",
            Field::Label => "label",
            Field::Node => "node",
            Field::Edge => "edge",
            Field::Source => "source",
            Field::Target => "target",
        }
    }
}

} // verus!
