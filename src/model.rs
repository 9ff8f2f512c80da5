//! Mathematical model of a document and of every operation on it. The
//! executable operations are proved against these definitions.
use crate::arena::registered;
use crate::chars::valid_id_value;
use crate::document::{DocumentType, QuirksMode};
use crate::error::ErrorModel;
use crate::node::{
    attr_get, attr_insert, comment_model, element_model, first_index, text_model, DataModel,
    NodeId, NodeModel,
};
use vstd::prelude::*;

verus! {

/// A document: its stored nodes (node `i` has identity `i`), its named-id
/// index, and two plain values.
pub struct DocModel {
    pub nodes: Seq<NodeModel>,
    pub named: Seq<(Seq<char>, NodeId)>,
    pub doctype: DocumentType,
    pub quirks_mode: QuirksMode,
}

/// Every stored node knows its identity, is registered, and has stored children.
pub open spec fn nodes_wf(nodes: Seq<NodeModel>) -> bool {
    forall|i: int| 0 <= i < nodes.len() ==> node_wf(nodes, #[trigger] nodes[i], i)
}

pub open spec fn node_wf(nodes: Seq<NodeModel>, n: NodeModel, i: int) -> bool {
    &&& n.id.0 == i
    &&& n.registered
    &&& children_stored(nodes, n)
}

pub open spec fn children_stored(nodes: Seq<NodeModel>, n: NodeModel) -> bool {
    forall|j: int| 0 <= j < n.children.len() ==> (#[trigger] n.children[j]).0 < nodes.len()
}

pub open spec fn stored(m: DocModel, id: NodeId) -> bool {
    id.0 < m.nodes.len()
}

// ----- named-id index -----

/// The node that named id `k` resolves to: the first one indexed under it.
pub open spec fn named_get(named: Seq<(Seq<char>, NodeId)>, k: Seq<char>) -> Option<NodeId> {
    match first_index(named.map_values(|p: (Seq<char>, NodeId)| p.0), k) {
        Some(i) => Some(named[i].1),
        None => None,
    }
}

/// Indexes `id` under `k` unless `k` is already taken.
pub open spec fn named_add(named: Seq<(Seq<char>, NodeId)>, k: Seq<char>, id: NodeId) -> Seq<
    (Seq<char>, NodeId),
> {
    if named_get(named, k) is Some {
        named
    } else {
        named.push((k, id))
    }
}

// ----- reachability -----

/// `c` is listed among the children of stored node `p`.
pub open spec fn child_of(nodes: Seq<NodeModel>, p: NodeId, c: NodeId) -> bool {
    0 <= p.0 < nodes.len() && nodes[p.0 as int].children.contains(c)
}

/// `b` is reached from `a` by following exactly `k` child links.
pub open spec fn reach_in(nodes: Seq<NodeModel>, a: NodeId, b: NodeId, k: nat) -> bool
    decreases k,
{
    if k == 0 {
        a == b
    } else {
        exists|m: NodeId| reach_in(nodes, a, m, (k - 1) as nat) && #[trigger] child_of(nodes, m, b)
    }
}

/// `d` lies strictly inside the subtree of `a`.
pub open spec fn descends(nodes: Seq<NodeModel>, a: NodeId, d: NodeId) -> bool {
    exists|k: nat| k >= 1 && #[trigger] reach_in(nodes, a, d, k)
}

// ----- operations -----

/// The node with its element payload, if any, echoing identity `id`.
pub open spec fn echo_id(n: NodeModel, id: NodeId) -> NodeModel {
    match n.data {
        DataModel::Element { node_id, name, namespace, attributes } => NodeModel {
            data: DataModel::Element { node_id: id, name, namespace, attributes },
            ..n
        },
        _ => n,
    }
}

/// The `id` attribute that a node carries, if it is an element with one.
pub open spec fn carried_id(n: NodeModel) -> Option<Seq<char>> {
    match n.data {
        DataModel::Element { attributes, .. } => attr_get(attributes, "id"@),
        _ => None,
    }
}

/// Registering a node: a new node gets the next identity; an element learns
/// its identity; a valid `id` attribute is indexed unless already taken.
pub open spec fn add_new_node(m: DocModel, n: NodeModel) -> (DocModel, NodeId) {
    let id = if n.registered {
        n.id
    } else {
        NodeId(m.nodes.len() as usize)
    };
    let nodes1 = if n.registered {
        m.nodes
    } else {
        m.nodes.push(registered(n, id))
    };
    let nodes2 = if id.0 < nodes1.len() {
        nodes1.update(id.0 as int, echo_id(nodes1[id.0 as int], id))
    } else {
        nodes1
    };
    let named = match carried_id(n) {
        Some(v) => if valid_id_value(v) {
            named_add(m.named, v, id)
        } else {
            m.named
        },
        None => m.named,
    };
    (DocModel { nodes: nodes2, named, ..m }, id)
}

/// The child list after placing `node` at `position` (clamped to the length),
/// or at the end when no position is given.
pub open spec fn place_child(kids: Seq<NodeId>, node: NodeId, position: Option<usize>) -> Seq<
    NodeId,
> {
    match position {
        Some(p) => if p < kids.len() {
            kids.insert(p as int, node)
        } else {
            kids.push(node)
        },
        None => kids.push(node),
    }
}

/// Attaching `node` under `parent`: refused when `parent` is `node` or lies in
/// its subtree; otherwise the parent lists the node and the node points back.
pub open spec fn attach(m: DocModel, node: NodeId, parent: NodeId, position: Option<usize>) -> (
    DocModel,
    bool,
) {
    if parent == node || descends(m.nodes, node, parent) {
        (m, false)
    } else {
        let nodes1 = if parent.0 < m.nodes.len() {
            let p = m.nodes[parent.0 as int];
            m.nodes.update(
                parent.0 as int,
                NodeModel { children: place_child(p.children, node, position), ..p },
            )
        } else {
            m.nodes
        };
        let nodes2 = nodes1.update(
            node.0 as int,
            NodeModel { parent: Some(parent), ..nodes1[node.0 as int] },
        );
        (DocModel { nodes: nodes2, ..m }, true)
    }
}

/// What `detach` needs: the node is stored, and so is its parent if it has one.
pub open spec fn can_detach(m: DocModel, node: NodeId) -> bool {
    &&& stored(m, node)
    &&& match m.nodes[node.0 as int].parent {
        Some(p) => stored(m, p),
        None => true,
    }
}

/// The child list without `node`.
pub open spec fn without(kids: Seq<NodeId>, node: NodeId) -> Seq<NodeId> {
    kids.filter(|c: NodeId| c != node)
}

/// Detaching `node`: its parent no longer lists it and it has no parent.
pub open spec fn detach(m: DocModel, node: NodeId) -> DocModel {
    match m.nodes[node.0 as int].parent {
        None => m,
        Some(p) => {
            let pn = m.nodes[p.0 as int];
            let nodes1 = m.nodes.update(
                p.0 as int,
                NodeModel { children: without(pn.children, node), ..pn },
            );
            let nodes2 = nodes1.update(
                node.0 as int,
                NodeModel { parent: None, ..nodes1[node.0 as int] },
            );
            DocModel { nodes: nodes2, ..m }
        },
    }
}

/// What `relocate` needs: the node is stored, and so is its parent unless that
/// parent already is `parent`.
pub open spec fn can_relocate(m: DocModel, node: NodeId, parent: NodeId) -> bool {
    &&& stored(m, node)
    &&& match m.nodes[node.0 as int].parent {
        Some(p) => p == parent || stored(m, p),
        None => true,
    }
}

/// Moving `node` to the end of `parent`'s children; nothing happens when
/// `parent` already is its parent.
pub open spec fn relocate(m: DocModel, node: NodeId, parent: NodeId) -> DocModel {
    if m.nodes[node.0 as int].parent == Some(parent) {
        m
    } else {
        attach(detach(m, node), node, parent, None).0
    }
}

pub open spec fn add_node(m: DocModel, n: NodeModel, parent: NodeId, position: Option<usize>) -> (
    DocModel,
    NodeId,
) {
    let (m1, id) = add_new_node(m, n);
    (attach(m1, id, parent, position).0, id)
}

pub open spec fn create_element(
    m: DocModel,
    name: Seq<char>,
    parent: NodeId,
    position: Option<usize>,
    namespace: Seq<char>,
) -> (DocModel, NodeId) {
    add_node(m, element_model(name, Seq::empty(), namespace), parent, position)
}

pub open spec fn create_text(m: DocModel, content: Seq<char>, parent: NodeId) -> DocModel {
    add_node(m, text_model(content), parent, None).0
}

pub open spec fn create_comment(m: DocModel, content: Seq<char>, parent: NodeId) -> DocModel {
    add_node(m, comment_model(content), parent, None).0
}

/// Setting attribute `key` of element `element`. An `id` value must pass
/// validation, and it is indexed unless its name is already taken.
pub open spec fn insert_attribute(
    m: DocModel,
    key: Seq<char>,
    value: Seq<char>,
    element: NodeId,
) -> (DocModel, Option<ErrorModel>) {
    if key == "id"@ && !valid_id_value(value) {
        (m, Some(ErrorModel::InvalidAttributeValue(value)))
    } else if !stored(m, element) {
        (m, Some(ErrorModel::NotFound(element)))
    } else {
        let n = m.nodes[element.0 as int];
        match n.data {
            DataModel::Element { node_id, name, namespace, attributes } => {
                let n2 = NodeModel {
                    data: DataModel::Element {
                        node_id,
                        name,
                        namespace,
                        attributes: attr_insert(attributes, key, value),
                    },
                    ..n
                };
                let named = if key == "id"@ {
                    named_add(m.named, value, element)
                } else {
                    m.named
                };
                (DocModel { nodes: m.nodes.update(element.0 as int, n2), named, ..m }, None)
            },
            _ => (m, Some(ErrorModel::NotAnElement(element))),
        }
    }
}

// ----- reachability lemmas -----

/// One more child link extends a descent.
pub proof fn lemma_descends_step(nodes: Seq<NodeModel>, a: NodeId, p: NodeId, c: NodeId)
    requires
        p == a || descends(nodes, a, p),
        child_of(nodes, p, c),
    ensures
        descends(nodes, a, c),
{
    if p == a {
        assert(reach_in(nodes, a, a, 0));
        assert(reach_in(nodes, a, c, 1));
    } else {
        let k = choose|k: nat| k >= 1 && #[trigger] reach_in(nodes, a, p, k);
        assert(reach_in(nodes, a, c, k + 1));
    }
}

/// A node that is not stored, or that has no children, has no descendants.
pub proof fn lemma_leaf_has_no_descendants(nodes: Seq<NodeModel>, a: NodeId, d: NodeId)
    requires
        a.0 >= nodes.len() || nodes[a.0 as int].children.len() == 0,
    ensures
        !descends(nodes, a, d),
{
    assert forall|k: nat| k >= 1 implies !#[trigger] reach_in(nodes, a, d, k) by {
        lemma_no_reach_from_leaf(nodes, a, d, k);
    }
}

proof fn lemma_no_reach_from_leaf(nodes: Seq<NodeModel>, a: NodeId, d: NodeId, k: nat)
    requires
        a.0 >= nodes.len() || nodes[a.0 as int].children.len() == 0,
        k >= 1,
    ensures
        !reach_in(nodes, a, d, k),
    decreases k,
{
    if k > 1 {
        assert forall|m: NodeId| reach_in(nodes, a, m, (k - 1) as nat) implies !#[trigger] child_of(
            nodes,
            m,
            d,
        ) by {
            lemma_no_reach_from_leaf(nodes, a, m, (k - 1) as nat);
        }
    } else {
        assert forall|m: NodeId| reach_in(nodes, a, m, 0) implies !#[trigger] child_of(
            nodes,
            m,
            d,
        ) by {}
    }
}

/// A set of nodes that holds every child of `a` and every child of its own
/// members holds everything that descends from `a`.
pub proof fn lemma_closed_holds_descendants(
    nodes: Seq<NodeModel>,
    a: NodeId,
    closed: Set<NodeId>,
    d: NodeId,
    k: nat,
)
    requires
        k >= 1,
        reach_in(nodes, a, d, k),
        forall|c: NodeId| #[trigger] child_of(nodes, a, c) ==> closed.contains(c),
        forall|m: NodeId, c: NodeId|
            closed.contains(m) && #[trigger] child_of(nodes, m, c) ==> closed.contains(c),
    ensures
        closed.contains(d),
    decreases k,
{
    let m = choose|m: NodeId|
        reach_in(nodes, a, m, (k - 1) as nat) && #[trigger] child_of(nodes, m, d);
    if k > 1 {
        lemma_closed_holds_descendants(nodes, a, closed, m, (k - 1) as nat);
    }
}

/// Number of `true` entries.
pub open spec fn count_true(s: Seq<bool>) -> nat
    decreases s.len(),
{
    if s.len() == 0 {
        0
    } else {
        count_true(s.drop_last()) + if s.last() {
            1nat
        } else {
            0nat
        }
    }
}

pub proof fn lemma_count_true_bound(s: Seq<bool>)
    ensures
        count_true(s) <= s.len(),
    decreases s.len(),
{
    if s.len() > 0 {
        lemma_count_true_bound(s.drop_last());
    }
}

pub proof fn lemma_count_true_none(s: Seq<bool>)
    requires
        forall|i: int| 0 <= i < s.len() ==> !s[i],
    ensures
        count_true(s) == 0,
    decreases s.len(),
{
    if s.len() > 0 {
        lemma_count_true_none(s.drop_last());
    }
}

pub proof fn lemma_count_true_set(s: Seq<bool>, i: int)
    requires
        0 <= i < s.len(),
        !s[i],
    ensures
        count_true(s.update(i, true)) == count_true(s) + 1,
    decreases s.len(),
{
    let t = s.update(i, true);
    if i == s.len() - 1 {
        assert(t.drop_last() =~= s.drop_last());
    } else {
        assert(t.drop_last() =~= s.drop_last().update(i, true));
        lemma_count_true_set(s.drop_last(), i);
    }
}

} // verus!
