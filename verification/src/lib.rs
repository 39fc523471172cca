//! Arithmetic that remembers how each result came about.
//!
//! Every value lives in an [`OpArena`] and is addressed by its index there.
//! Combining two values appends a new node whose history lists the nodes it
//! was computed from, optionally annotated with a reason. A node's history
//! can later be flattened into an [`OperationGraph`] and drawn, or written
//! out in full as a nested [`Document`].

pub mod node;
pub mod arena;
pub mod merge;
pub mod operator;
pub mod text;
pub mod diagram;
pub mod dump;
pub mod visualization;
pub mod laws;

pub use crate::arena::{OpArena, TraceError};
pub use crate::diagram::Diagram;
pub use crate::dump::Document;
pub use crate::merge::{Arithmetic, MergeCase};
pub use crate::node::{OpKind, Operation, OperationType, OperationView};
pub use crate::operator::Operator;
pub use crate::visualization::OperationGraph;
