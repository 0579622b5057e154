//! Reading of Graph Modelling Language (GML) documents.
//!
//! A document is first parsed into a [GMLObject]: an ordered list of
//! `(key, value)` pairs whose values are strings, integers or nested
//! objects. The root object can then be turned into a typed [Graph] of
//! [Node]s and [Edge]s; every attribute that the extraction does not
//! consume stays attached to the entity it was found in, where
//! [ReadableGMLAttributes] reads it.
use vstd::prelude::*;

pub mod attrs;
pub mod error;
pub mod graph;
pub mod laws;
pub mod syntax;
pub mod value;

pub use attrs::{HasGMLAttributes, ReadableGMLAttributes};
pub use error::{ErrorKind, Field, GMLError, ValueKind};
pub use graph::{Edge, Graph, Node};
pub use value::{Attr, GMLObject, GMLValue};
