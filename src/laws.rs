//! Properties that relate several operations, proved over the model.
use crate::chars::valid_id_value;
use crate::model::{
    self, attach, create_comment, create_element, create_text, descends, insert_attribute, named_get,
    relocate, stored, DocModel,
};
use crate::node::{first_index, lemma_first_index_push, DataModel, NodeId};
use crate::task_queue::{apply_task, replay, TaskModel};
use vstd::prelude::*;

verus! {

/// Attaching a node under itself or under any node of its own subtree is
/// refused and changes nothing.
pub proof fn attach_refuses_cycles(m: DocModel, node: NodeId, target: NodeId, position: Option<usize>)
    requires
        target == node || descends(m.nodes, node, target),
    ensures
        attach(m, node, target, position) == (m, false),
{
}

/// Relocating a node to the parent it already has changes nothing.
pub proof fn relocate_to_current_parent_is_identity(m: DocModel, node: NodeId, parent: NodeId)
    requires
        stored(m, node),
        m.nodes[node.0 as int].parent == Some(parent),
    ensures
        relocate(m, node, parent) == m,
{
}

/// Giving two elements the same valid `id` value: neither call fails, and the
/// name resolves to the first element (or to the one that held it before);
/// the second call does not take it over.
pub proof fn first_element_keeps_named_id(m: DocModel, v: Seq<char>, e1: NodeId, e2: NodeId)
    requires
        valid_id_value(v),
        stored(m, e1),
        stored(m, e2),
        m.nodes[e1.0 as int].data is Element,
        m.nodes[e2.0 as int].data is Element,
    ensures
        ({
            let (m1, r1) = insert_attribute(m, "id"@, v, e1);
            let (m2, r2) = insert_attribute(m1, "id"@, v, e2);
            &&& r1 is None
            &&& r2 is None
            &&& named_get(m2.named, v) == named_get(m1.named, v)
            &&& named_get(m1.named, v) == if named_get(m.named, v) is Some {
                named_get(m.named, v)
            } else {
                Some(e1)
            }
        }),
{
    let (m1, r1) = insert_attribute(m, "id"@, v, e1);
    assert(m1.nodes[e2.0 as int].data is Element);
    if named_get(m.named, v) is None {
        let f = |p: (Seq<char>, NodeId)| p.0;
        assert(m.named.push((v, e1)).map_values(f) =~= m.named.map_values(f).push(v));
        lemma_first_index_push(m.named.map_values(f), v, v);
    }
}

/// Registering an element whose `id` attribute names an id that is already
/// indexed leaves that name with the element that held it.
pub proof fn registering_keeps_taken_named_id(m: DocModel, n: crate::node::NodeModel, v: Seq<char>)
    requires
        model::carried_id(n) == Some(v),
        named_get(m.named, v) is Some,
    ensures
        named_get(model::add_new_node(m, n).0.named, v) == named_get(m.named, v),
{
}

/// Whether an operation creates a node.
pub open spec fn creates_node(t: TaskModel) -> bool {
    !(t is InsertAttribute)
}

/// Number of operations that create a node.
pub open spec fn creations(ts: Seq<TaskModel>) -> nat
    decreases ts.len(),
{
    if ts.len() == 0 {
        0
    } else {
        creations(ts.drop_last()) + if creates_node(ts.last()) {
            1nat
        } else {
            0nat
        }
    }
}

/// Number of operations that create an element.
pub open spec fn element_creations(ts: Seq<TaskModel>) -> nat
    decreases ts.len(),
{
    if ts.len() == 0 {
        0
    } else {
        element_creations(ts.drop_last()) + if ts.last() is CreateElement {
            1nat
        } else {
            0nat
        }
    }
}

/// Performing one call directly on a document, as the document handle's
/// operations state it.
pub open spec fn direct_call(m: DocModel, c: TaskModel) -> (DocModel, Option<crate::error::ErrorModel>) {
    match c {
        TaskModel::CreateElement { name, parent_id, position, namespace } => {
            let (m1, _id) = create_element(m, name, parent_id, position, namespace);
            (m1, None)
        },
        TaskModel::CreateText { content, parent_id } => (create_text(m, content, parent_id), None),
        TaskModel::CreateComment { content, parent_id } => (
            create_comment(m, content, parent_id),
            None,
        ),
        TaskModel::InsertAttribute { key, value, element_id } => insert_attribute(
            m,
            key,
            value,
            element_id,
        ),
    }
}

/// Performing calls directly, one after the other: the document and the
/// errors returned, in order.
pub open spec fn direct_run(m: DocModel, calls: Seq<TaskModel>) -> (DocModel, Seq<crate::error::ErrorModel>)
    decreases calls.len(),
{
    if calls.len() == 0 {
        (m, Seq::empty())
    } else {
        let (m1, errs) = direct_run(m, calls.drop_last());
        let (m2, e) = direct_call(m1, calls.last());
        (
            m2,
            match e {
                Some(x) => errs.push(x),
                None => errs,
            },
        )
    }
}

/// Queueing calls and then flushing them gives the same document and the
/// same errors, in the same order, as performing them directly.
pub proof fn queue_then_flush_matches_direct(m: DocModel, calls: Seq<TaskModel>)
    ensures
        replay(m, calls) == direct_run(m, calls),
    decreases calls.len(),
{
    if calls.len() > 0 {
        queue_then_flush_matches_direct(m, calls.drop_last());
        let m1 = replay(m, calls.drop_last()).0;
        assert(apply_task(m1, calls.last()) == direct_call(m1, calls.last()));
    }
}

proof fn lemma_direct_run_len(m: DocModel, calls: Seq<TaskModel>)
    ensures
        direct_run(m, calls).0.nodes.len() == m.nodes.len() + creations(calls),
    decreases calls.len(),
{
    if calls.len() > 0 {
        lemma_direct_run_len(m, calls.drop_last());
    }
}

/// A queue created on a document with `m.nodes.len()` nodes hands out, for
/// the element created by call `i`, the identity that performing the same calls
/// directly returns, as long as no text or comment creation precedes call `i`.
pub proof fn queue_predicts_element_ids(m: DocModel, calls: Seq<TaskModel>, i: int)
    requires
        0 <= i < calls.len(),
        m.nodes.len() + calls.len() < usize::MAX,
        creations(calls.take(i)) == element_creations(calls.take(i)),
    ensures
        calls[i] matches TaskModel::CreateElement { name, parent_id, position, namespace }
            ==> create_element(direct_run(m, calls.take(i)).0, name, parent_id, position, namespace).1
            == NodeId((m.nodes.len() + element_creations(calls.take(i))) as usize),
{
    lemma_direct_run_len(m, calls.take(i));
    lemma_creations_bound(calls.take(i));
}

proof fn lemma_creations_bound(ts: Seq<TaskModel>)
    ensures
        creations(ts) <= ts.len(),
    decreases ts.len(),
{
    if ts.len() > 0 {
        lemma_creations_bound(ts.drop_last());
    }
}

} // verus!
