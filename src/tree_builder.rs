use crate::error::TaskError;
use crate::node::NodeId;
use vstd::prelude::*;

verus! {

/// The four operations through which a parser builds a document. Both the
/// document handle (applies at once) and the task queue (records, then
/// replays on `flush`) provide them.
pub trait TreeBuilder {
    /// Whether the builder can take another operation.
    spec fn ready(&self) -> bool;

    /// Whether the builder accepts an attribute named `key`.
    spec fn admits(&self, key: Seq<char>) -> bool;

    /// Creates an element under `parent_id` and returns its identity.
    fn create_element(
        &mut self,
        name: &str,
        parent_id: NodeId,
        position: Option<usize>,
        namespace: &str,
    ) -> NodeId
        requires
            old(self).ready(),
    ;

    /// Creates a text node at the end of `parent_id`'s children.
    fn create_text(&mut self, content: &str, parent_id: NodeId)
        requires
            old(self).ready(),
    ;

    /// Creates a comment node at the end of `parent_id`'s children.
    fn create_comment(&mut self, content: &str, parent_id: NodeId)
        requires
            old(self).ready(),
    ;

    /// Sets an attribute of an element.
    fn insert_attribute(&mut self, key: &str, value: &str, element_id: NodeId) -> Result<
        (),
        TaskError,
    >
        requires
            old(self).ready(),
            old(self).admits(key@),
    ;
}

} // verus!
