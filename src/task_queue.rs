use crate::document::DocumentHandle;
use crate::error::{error_text, ErrorModel, TaskError};
use crate::model::{self, nodes_wf, DocModel};
use crate::node::NodeId;
use crate::tree_builder::TreeBuilder;
use vstd::prelude::*;

verus! {

/// One recorded tree-builder operation, replayed on `flush`.
#[derive(Debug)]
pub enum DocumentTask {
    CreateElement { name: String, parent_id: NodeId, position: Option<usize>, namespace: String },
    CreateText { content: String, parent_id: NodeId },
    CreateComment { content: String, parent_id: NodeId },
    InsertAttribute { key: String, value: String, element_id: NodeId },
}

/// Mathematical model of a recorded operation.
pub enum TaskModel {
    CreateElement { name: Seq<char>, parent_id: NodeId, position: Option<usize>, namespace: Seq<char> },
    CreateText { content: Seq<char>, parent_id: NodeId },
    CreateComment { content: Seq<char>, parent_id: NodeId },
    InsertAttribute { key: Seq<char>, value: Seq<char>, element_id: NodeId },
}

impl View for DocumentTask {
    type V = TaskModel;

    open spec fn view(&self) -> TaskModel {
        match self {
            DocumentTask::CreateElement { name, parent_id, position, namespace } => {
                TaskModel::CreateElement {
                    name: name@,
                    parent_id: *parent_id,
                    position: *position,
                    namespace: namespace@,
                }
            },
            DocumentTask::CreateText { content, parent_id } => TaskModel::CreateText {
                content: content@,
                parent_id: *parent_id,
            },
            DocumentTask::CreateComment { content, parent_id } => TaskModel::CreateComment {
                content: content@,
                parent_id: *parent_id,
            },
            DocumentTask::InsertAttribute { key, value, element_id } => TaskModel::InsertAttribute {
                key: key@,
                value: value@,
                element_id: *element_id,
            },
        }
    }
}

/// Applying one operation to a document, with the error it reports, if any.
pub open spec fn apply_task(m: DocModel, t: TaskModel) -> (DocModel, Option<ErrorModel>) {
    match t {
        TaskModel::CreateElement { name, parent_id, position, namespace } => (
            model::create_element(m, name, parent_id, position, namespace).0,
            None,
        ),
        TaskModel::CreateText { content, parent_id } => (
            model::create_text(m, content, parent_id),
            None,
        ),
        TaskModel::CreateComment { content, parent_id } => (
            model::create_comment(m, content, parent_id),
            None,
        ),
        TaskModel::InsertAttribute { key, value, element_id } => model::insert_attribute(
            m,
            key,
            value,
            element_id,
        ),
    }
}

/// Applying operations in order without stopping at a failure: the final
/// document and the errors, in order.
pub open spec fn replay(m: DocModel, ts: Seq<TaskModel>) -> (DocModel, Seq<ErrorModel>)
    decreases ts.len(),
{
    if ts.len() == 0 {
        (m, Seq::empty())
    } else {
        let (m1, errs) = replay(m, ts.drop_last());
        let (m2, e) = apply_task(m1, ts.last());
        (
            m2,
            match e {
                Some(x) => errs.push(x),
                None => errs,
            },
        )
    }
}

/// Whether an operation sets the unsupported `class` attribute.
pub open spec fn sets_class(t: TaskModel) -> bool {
    t matches TaskModel::InsertAttribute { key, .. } && key == "class"@
}

/// Model of a queue: the identity it will predict next and its operations.
pub struct QueueModel {
    pub next_node_id: NodeId,
    pub tasks: Seq<TaskModel>,
}

/// Queue of operations that will mutate a document when flushed, in the order
/// they were recorded.
///
/// `create_element` predicts the identity that the element will receive. The
/// prediction advances by one per element only, so it holds while the
/// document's store is not changed through another path before the flush, and
/// while no text or comment creation precedes the element in the queue.
pub struct DocumentTaskQueue {
    /// Identity to hand out for the next element.
    next_node_id: NodeId,
    /// Operations to replay on flush; empty afterwards.
    pub(crate) tasks: Vec<DocumentTask>,
}

impl View for DocumentTaskQueue {
    type V = QueueModel;

    closed spec fn view(&self) -> QueueModel {
        QueueModel {
            next_node_id: self.next_node_id,
            tasks: self.tasks@.map_values(|t: DocumentTask| t@),
        }
    }
}

impl DocumentTaskQueue {
    /// A queue for `document`, predicting identities from its store.
    pub fn new(document: &DocumentHandle) -> (r: DocumentTaskQueue)
        ensures
            r@.next_node_id.0 == document@.nodes.len(),
            r@.tasks.len() == 0,
    {
        let next_node_id = document.get().arena.peek_next_id();
        let r = DocumentTaskQueue { next_node_id, tasks: Vec::new() };
        assert(r@.tasks =~= Seq::<TaskModel>::empty());
        r
    }

    pub fn is_empty(&self) -> (r: bool)
        ensures
            r == (self@.tasks.len() == 0),
    {
        self.tasks.is_empty()
    }

    /// Replays every recorded operation on `document`, in order, without
    /// stopping at a failure; returns the text of each error, in order, and
    /// leaves the queue empty.
    pub fn flush(&mut self, document: &mut DocumentHandle) -> (r: Vec<String>)
        requires
            nodes_wf(old(document)@.nodes),
            old(document)@.nodes.len() + old(self)@.tasks.len() < usize::MAX,
            forall|i: int| 0 <= i < old(self)@.tasks.len() ==> !sets_class(#[trigger] old(self)@.tasks[i]),
        ensures
            final(document)@ == replay(old(document)@, old(self)@.tasks).0,
            r@.len() == replay(old(document)@, old(self)@.tasks).1.len(),
            forall|i: int|
                0 <= i < r@.len() ==> (#[trigger] r@[i])@ == error_text(
                    replay(old(document)@, old(self)@.tasks).1[i],
                ),
            final(self)@.tasks.len() == 0,
            final(self)@.next_node_id == old(self)@.next_node_id,
            nodes_wf(final(document)@.nodes),
    {
        let ghost m0 = document@;
        let ghost ts = self@.tasks;
        let mut errors: Vec<String> = Vec::new();
        let mut i: usize = 0;
        while i < self.tasks.len()
            invariant
                ts == self@.tasks,
                self@.next_node_id == old(self)@.next_node_id,
                i <= ts.len(),
                m0.nodes.len() + ts.len() < usize::MAX,
                forall|j: int| 0 <= j < ts.len() ==> !sets_class(#[trigger] ts[j]),
                document.wf(),
                document@.nodes.len() <= m0.nodes.len() + i,
                document@ == replay(m0, ts.take(i as int)).0,
                errors@.len() == replay(m0, ts.take(i as int)).1.len(),
                forall|j: int|
                    0 <= j < errors@.len() ==> (#[trigger] errors@[j])@ == error_text(
                        replay(m0, ts.take(i as int)).1[j],
                    ),
            decreases ts.len() - i,
        {
            proof {
                assert(ts.take(i + 1).drop_last() =~= ts.take(i as int));
                assert(ts.take(i + 1).last() == ts[i as int]);
                assert(ts[i as int] == self.tasks@[i as int]@);
                assert(!sets_class(ts[i as int]));
            }
            let ghost before = errors@;
            match &self.tasks[i] {
                DocumentTask::CreateElement { name, parent_id, position, namespace } => {
                    document.create_element(name.as_str(), *parent_id, *position, namespace.as_str());
                },
                DocumentTask::CreateText { content, parent_id } => {
                    document.create_text(content.as_str(), *parent_id);
                },
                DocumentTask::CreateComment { content, parent_id } => {
                    document.create_comment(content.as_str(), *parent_id);
                },
                DocumentTask::InsertAttribute { key, value, element_id } => {
                    if let Err(err) = document.insert_attribute(key.as_str(), value.as_str(), *element_id) {
                        errors.push(err.to_string());
                    }
                },
            }
            proof {
                let e = replay(m0, ts.take(i + 1)).1;
                assert forall|j: int| 0 <= j < errors@.len() implies (#[trigger] errors@[j])@
                    == error_text(e[j]) by {
                    if j < before.len() {
                        assert(errors@[j] == before[j]);
                    }
                }
            }
            i = i + 1;
        }
        assert(ts.take(ts.len() as int) =~= ts);
        self.tasks.clear();
        assert(self@.tasks =~= Seq::<TaskModel>::empty());
        errors
    }
}

impl TreeBuilder for DocumentTaskQueue {
    open spec fn ready(&self) -> bool {
        self@.next_node_id.0 < usize::MAX
    }

    /// The queue records any attribute; `flush` is where `class` is refused.
    open spec fn admits(&self, key: Seq<char>) -> bool {
        true
    }

    /// Records an element creation and returns the identity predicted for it.
    fn create_element(
        &mut self,
        name: &str,
        parent_id: NodeId,
        position: Option<usize>,
        namespace: &str,
    ) -> (r: NodeId)
        ensures
            r == old(self)@.next_node_id,
            final(self)@.next_node_id.0 == old(self)@.next_node_id.0 + 1,
            final(self)@.tasks == old(self)@.tasks.push(
                TaskModel::CreateElement { name: name@, parent_id, position, namespace: namespace@ },
            ),
    {
        let element = DocumentTask::CreateElement {
            name: name.to_owned(),
            parent_id,
            position,
            namespace: namespace.to_owned(),
        };
        let new_id = self.next_node_id;
        self.next_node_id = self.next_node_id.next();
        self.push_task(element);
        new_id
    }

    /// Records a text creation.
    fn create_text(&mut self, content: &str, parent_id: NodeId)
        ensures
            final(self)@.next_node_id == old(self)@.next_node_id,
            final(self)@.tasks == old(self)@.tasks.push(
                TaskModel::CreateText { content: content@, parent_id },
            ),
    {
        let text = DocumentTask::CreateText { content: content.to_owned(), parent_id };
        self.push_task(text);
    }

    /// Records a comment creation.
    fn create_comment(&mut self, content: &str, parent_id: NodeId)
        ensures
            final(self)@.next_node_id == old(self)@.next_node_id,
            final(self)@.tasks == old(self)@.tasks.push(
                TaskModel::CreateComment { content: content@, parent_id },
            ),
    {
        let comment = DocumentTask::CreateComment { content: content.to_owned(), parent_id };
        self.push_task(comment);
    }

    /// Records an attribute insertion. It always succeeds here: validation
    /// happens when the queue is flushed.
    fn insert_attribute(&mut self, key: &str, value: &str, element_id: NodeId) -> (r: Result<
        (),
        TaskError,
    >)
        ensures
            r is Ok,
            final(self)@.next_node_id == old(self)@.next_node_id,
            final(self)@.tasks == old(self)@.tasks.push(
                TaskModel::InsertAttribute { key: key@, value: value@, element_id },
            ),
    {
        let attribute = DocumentTask::InsertAttribute {
            key: key.to_owned(),
            value: value.to_owned(),
            element_id,
        };
        self.push_task(attribute);
        Ok(())
    }
}

impl DocumentTaskQueue {
    fn push_task(&mut self, task: DocumentTask)
        ensures
            final(self)@.next_node_id == old(self)@.next_node_id,
            final(self)@.tasks == old(self)@.tasks.push(task@),
    {
        let ghost t = task@;
        self.tasks.push(task);
        assert(self@.tasks =~= old(self)@.tasks.push(t));
    }
}

} // verus!
