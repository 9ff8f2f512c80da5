//! Document-tree construction core of an HTML parser: an arena of nodes with
//! parent/child links, a named-id index, an immediate tree builder and a
//! deferred task queue that replays the same operations later.

pub mod arena;
pub mod chars;
pub mod document;
pub mod error;
pub mod laws;
pub mod model;
pub mod node;
pub mod printer;
pub mod task_queue;
pub mod tree_builder;

pub use arena::NodeArena;
pub use document::{
    Document, DocumentBuilder, DocumentFragment, DocumentHandle, DocumentType, NamedIdIndex,
    QuirksMode,
};
pub use error::TaskError;
pub use node::{
    CommentData, DocTypeData, DocumentData, ElementAttributes, ElementData, Node, NodeData, NodeId,
    NodeType, TextData, HTML_NAMESPACE,
};
pub use task_queue::{DocumentTask, DocumentTaskQueue};
pub use tree_builder::TreeBuilder;
