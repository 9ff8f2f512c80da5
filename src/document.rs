use crate::arena::{registered, NodeArena};
use crate::chars::validate_id_value;
use crate::model::{
    self, child_of, children_stored, count_true, descends, named_add, named_get, nodes_wf, DocModel,
};
use crate::error::TaskError;
use crate::node::{
    document_model, element_model, find_key, keys_of, ElementAttributes, Node, NodeData, NodeId,
    NodeModel, HTML_NAMESPACE,
};
use crate::tree_builder::TreeBuilder;
use vstd::string::*;
use vstd::prelude::*;

verus! {

/// Type of a document.
#[derive(Clone, Copy, Debug, PartialEq, Eq, Structural)]
pub enum DocumentType {
    /// HTML document
    HTML,
    /// Iframe source document
    IframeSrcDoc,
}

/// Quirks mode of a document, as decided by the parser.
#[derive(Clone, Copy, Debug, PartialEq, Eq, Structural)]
pub enum QuirksMode {
    Quirks,
    LimitedQuirks,
    NoQuirks,
}

/// Index from the value of an element's `id` attribute to the element. The
/// first element indexed under a name keeps it.
#[derive(Debug)]
pub struct NamedIdIndex {
    entries: Vec<(String, NodeId)>,
}

impl View for NamedIdIndex {
    type V = Seq<(Seq<char>, NodeId)>;

    closed spec fn view(&self) -> Seq<(Seq<char>, NodeId)> {
        self.entries@.map_values(|p: (String, NodeId)| (p.0@, p.1))
    }
}

impl NamedIdIndex {
    pub fn new() -> (r: NamedIdIndex)
        ensures
            r@ == Seq::<(Seq<char>, NodeId)>::empty(),
    {
        let r = NamedIdIndex { entries: Vec::new() };
        assert(r@ =~= Seq::<(Seq<char>, NodeId)>::empty());
        r
    }

    proof fn lemma_keys(&self)
        ensures
            keys_of(self.entries@) == self@.map_values(|p: (Seq<char>, NodeId)| p.0),
    {
        assert(keys_of(self.entries@) =~= self@.map_values(|p: (Seq<char>, NodeId)| p.0));
    }

    /// The element indexed under `named_id`, if any.
    pub fn get(&self, named_id: &str) -> (r: Option<&NodeId>)
        ensures
            match r {
                Some(id) => named_get(self@, named_id@) == Some(*id),
                None => named_get(self@, named_id@) is None,
            },
    {
        let k = named_id.to_owned();
        proof {
            self.lemma_keys();
        }
        match find_key(&self.entries, &k) {
            Some(i) => Some(&self.entries[i].1),
            None => None,
        }
    }

    /// Whether some element is indexed under `named_id`.
    pub fn contains_key(&self, named_id: &str) -> (r: bool)
        ensures
            r == named_get(self@, named_id@) is Some,
    {
        self.get(named_id).is_some()
    }

    /// Indexes `id` under `named_id` unless that name is already taken.
    pub fn insert_if_absent(&mut self, named_id: String, id: NodeId)
        ensures
            final(self)@ == named_add(old(self)@, named_id@, id),
    {
        if !self.contains_key(named_id.as_str()) {
            let ghost k = named_id@;
            self.entries.push((named_id, id));
            assert(self@ =~= old(self)@.push((k, id)));
        }
    }

    /// A copy with the same entries.
    pub fn duplicate(&self) -> (r: NamedIdIndex)
        ensures
            r@ == self@,
    {
        let mut entries: Vec<(String, NodeId)> = Vec::new();
        let mut i: usize = 0;
        while i < self.entries.len()
            invariant
                i <= self.entries.len(),
                entries@.map_values(|p: (String, NodeId)| (p.0@, p.1)) =~= self@.take(i as int),
            decreases self.entries.len() - i,
        {
            let ghost before = entries@;
            let k = self.entries[i].0.clone();
            let id = self.entries[i].1;
            entries.push((k, id));
            assert(entries@ == before.push((k, id)));
            assert(self@[i as int] == (k@, id));
            assert(self@.take(i + 1) =~= self@.take(i as int).push((k@, id)));
            i = i + 1;
        }
        let r = NamedIdIndex { entries };
        assert(self@.take(self@.len() as int) =~= self@);
        r
    }

    /// The number of indexed names.
    pub fn len(&self) -> (r: usize)
        ensures
            r == self@.len(),
    {
        self.entries.len()
    }
}

/// A document: the store of its nodes, the named-id index, and two plain
/// values.
#[derive(Debug)]
pub struct Document {
    /// Holds and owns all nodes in the document
    pub arena: NodeArena,
    /// HTML elements with ID (e.g., <div id="myid">)
    pub named_id_elements: NamedIdIndex,
    /// Document type of this document
    pub doctype: DocumentType,
    /// Quirks mode of this document
    pub quirks_mode: QuirksMode,
}

impl View for Document {
    type V = DocModel;

    open spec fn view(&self) -> DocModel {
        DocModel {
            nodes: self.arena@,
            named: self.named_id_elements@,
            doctype: self.doctype,
            quirks_mode: self.quirks_mode,
        }
    }
}

impl Default for Document {
    fn default() -> (r: Document)
        ensures
            r@.nodes.len() == 0,
            r@.named.len() == 0,
            r@.doctype == DocumentType::HTML,
            r@.quirks_mode == QuirksMode::NoQuirks,
    {
        Document::new()
    }
}

impl Document {
    /// Well-formedness of the node store.
    pub open spec fn wf(&self) -> bool {
        nodes_wf(self@.nodes)
    }

    /// Creates a new, empty document.
    pub fn new() -> (r: Document)
        ensures
            r@.nodes.len() == 0,
            r@.named.len() == 0,
            r@.doctype == DocumentType::HTML,
            r@.quirks_mode == QuirksMode::NoQuirks,
            r.wf(),
    {
        Document {
            arena: NodeArena::new(),
            named_id_elements: NamedIdIndex::new(),
            doctype: DocumentType::HTML,
            quirks_mode: QuirksMode::NoQuirks,
        }
    }

    /// Fetches a node by id or returns None when no node with this ID is found
    pub fn get_node_by_id(&self, node_id: NodeId) -> (r: Option<&Node>)
        ensures
            match r {
                Some(n) => node_id.0 < self@.nodes.len() && n@ == self@.nodes[node_id.0 as int],
                None => node_id.0 >= self@.nodes.len(),
            },
    {
        self.arena.get_node(node_id)
    }

    /// Fetches a mutable node by id or returns None when no node with this ID is found
    pub fn get_node_by_id_mut(&mut self, node_id: NodeId) -> (r: Option<&mut Node>)
        ensures
            match r {
                Some(n) => {
                    &&& node_id.0 < old(self)@.nodes.len()
                    &&& n@ == old(self)@.nodes[node_id.0 as int]
                    &&& final(self)@ == DocModel {
                        nodes: old(self)@.nodes.update(node_id.0 as int, final(n)@),
                        ..old(self)@
                    }
                },
                None => node_id.0 >= old(self)@.nodes.len() && final(self)@ == old(self)@,
            },
    {
        self.arena.get_node_mut(node_id)
    }

    /// Fetches a node by named id (string) or returns None when no node with this ID is found
    pub fn get_node_by_named_id(&self, named_id: &str) -> (r: Option<&Node>)
        ensures
            match named_get(self@.named, named_id@) {
                Some(id) => match r {
                    Some(n) => id.0 < self@.nodes.len() && n@ == self@.nodes[id.0 as int],
                    None => id.0 >= self@.nodes.len(),
                },
                None => r is None,
            },
    {
        match self.named_id_elements.get(named_id) {
            Some(id) => self.arena.get_node(*id),
            None => None,
        }
    }

    /// Fetches a mutable node by named id (string) or returns None when no node with this ID is found
    pub fn get_node_by_named_id_mut(&mut self, named_id: &str) -> (r: Option<&mut Node>)
        ensures
            match named_get(old(self)@.named, named_id@) {
                Some(id) => match r {
                    Some(n) => {
                        &&& id.0 < old(self)@.nodes.len()
                        &&& n@ == old(self)@.nodes[id.0 as int]
                        &&& final(self)@ == DocModel {
                            nodes: old(self)@.nodes.update(id.0 as int, final(n)@),
                            ..old(self)@
                        }
                    },
                    None => id.0 >= old(self)@.nodes.len() && final(self)@ == old(self)@,
                },
                None => r is None && final(self)@ == old(self)@,
            },
    {
        let found = match self.named_id_elements.get(named_id) {
            Some(id) => Some(*id),
            None => None,
        };
        match found {
            Some(id) => self.arena.get_node_mut(id),
            None => None,
        }
    }

    /// Checks a value of an `id` attribute: not empty, no whitespace, and at
    /// least one alphabetic character (not necessarily the first).
    pub fn validate_id_attribute_value(&self, value: &str) -> (r: bool)
        ensures
            r == crate::chars::valid_id_value(value@),
    {
        validate_id_value(value)
    }

    /// Registers `node` unless it already is, lets an element learn its own
    /// identity, and indexes a valid `id` attribute under the first-wins rule.
    pub fn add_new_node(&mut self, node: Node) -> (r: NodeId)
        requires
            old(self).wf(),
            old(self)@.nodes.len() < usize::MAX,
            !node.is_registered ==> children_stored(old(self)@.nodes, node@),
        ensures
            (final(self)@, r) == model::add_new_node(old(self)@, node@),
            final(self).wf(),
    {
        let ghost n = node@;
        let named_id: Option<String> = match &node.data {
            NodeData::Element(element) => match element.attributes.get("id") {
                Some(v) => Some(v.clone()),
                None => None,
            },
            _ => None,
        };
        assert(named_id matches Some(v) ==> model::carried_id(n) == Some(v@));
        assert(named_id is None ==> model::carried_id(n) is None);
        let node_id = if !node.is_registered {
            self.arena.register_node(node)
        } else {
            node.id
        };
        let ghost nodes1 = self@.nodes;
        match self.arena.get_node_mut(node_id) {
            Some(stored) => {
                if let NodeData::Element(element) = &mut stored.data {
                    element.node_id = node_id;
                }
            },
            None => {},
        }
        assert(self@.nodes =~= (if node_id.0 < nodes1.len() {
            nodes1.update(node_id.0 as int, model::echo_id(nodes1[node_id.0 as int], node_id))
        } else {
            nodes1
        }));
        if let Some(named_id) = named_id {
            if validate_id_value(named_id.as_str()) {
                self.named_id_elements.insert_if_absent(named_id, node_id);
            }
        }
        proof {
            let m = self@.nodes;
            assert forall|i: int| 0 <= i < m.len() implies model::node_wf(m, #[trigger] m[i], i) by {
                if i < old(self)@.nodes.len() {
                    assert(model::node_wf(old(self)@.nodes, old(self)@.nodes[i], i));
                }
            }
        }
        node_id
    }

    /// Returns true when `parent_id` lies strictly inside the subtree of
    /// `node_id`, so that attaching the node under it would close a cycle.
    pub fn has_cyclic_reference(&self, node_id: NodeId, parent_id: NodeId) -> (r: bool)
        requires
            self.wf(),
        ensures
            r == descends(self@.nodes, node_id, parent_id),
    {
        has_child_recursive(&self.arena, node_id, parent_id)
    }

    /// Adds the node as a child the parent node. If position is given, it will be inserted as a
    /// child at that given position (clamped to the number of children). Refused, with no change,
    /// when the parent is the node itself or lies inside its subtree.
    pub fn attach_node_to_parent(
        &mut self,
        node_id: NodeId,
        parent_id: NodeId,
        position: Option<usize>,
    ) -> (r: bool)
        requires
            old(self).wf(),
            parent_id == node_id || model::stored(old(self)@, node_id),
        ensures
            (final(self)@, r) == model::attach(old(self)@, node_id, parent_id, position),
            final(self).wf(),
    {
        if parent_id == node_id || self.has_cyclic_reference(node_id, parent_id) {
            return false;
        }
        let ghost nodes0 = self@.nodes;
        match self.arena.get_node_mut(parent_id) {
            Some(parent_node) => {
                let len = parent_node.children.len();
                match position {
                    Some(pos) => {
                        let at = if pos > len {
                            len
                        } else {
                            pos
                        };
                        parent_node.children.insert(at, node_id);
                    },
                    None => {
                        parent_node.children.push(node_id);
                    },
                }
                proof {
                    let kids = nodes0[parent_id.0 as int].children;
                    assert(kids.insert(kids.len() as int, node_id) =~= kids.push(node_id));
                }
            },
            None => {},
        }
        let ghost nodes1 = self@.nodes;
        assert(nodes1 =~= (if parent_id.0 < nodes0.len() {
            let p = nodes0[parent_id.0 as int];
            nodes0.update(
                parent_id.0 as int,
                crate::node::NodeModel {
                    children: model::place_child(p.children, node_id, position),
                    ..p
                },
            )
        } else {
            nodes0
        }));
        match self.arena.get_node_mut(node_id) {
            Some(node) => {
                node.parent = Some(parent_id);
            },
            None => {},
        }
        proof {
            let m = self@.nodes;
            assert forall|i: int| 0 <= i < m.len() implies model::node_wf(m, #[trigger] m[i], i) by {
                assert(model::node_wf(nodes0, nodes0[i], i));
                if i == parent_id.0 {
                    let kids = m[i].children;
                    assert forall|j: int| 0 <= j < kids.len() implies (#[trigger] kids[j]).0
                        < m.len() by {
                        let old_kids = nodes0[i].children;
                        if position is Some && position->0 < old_kids.len() {
                            let at = position->0 as int;
                            if j < at {
                                assert(kids[j] == old_kids[j]);
                            } else if j > at {
                                assert(kids[j] == old_kids[j - 1]);
                            }
                        } else if j < old_kids.len() {
                            assert(kids[j] == old_kids[j]);
                        }
                    }
                }
            }
        }
        true
    }

    /// Separates the given node from its parent node (if any)
    pub fn detach_node_from_parent(&mut self, node_id: NodeId)
        requires
            old(self).wf(),
            model::can_detach(old(self)@, node_id),
        ensures
            final(self)@ == model::detach(old(self)@, node_id),
            final(self).wf(),
    {
        let parent = match self.arena.get_node(node_id) {
            Some(node) => node.parent,
            None => None,
        };
        if let Some(parent_id) = parent {
            let ghost nodes0 = self@.nodes;
            match self.arena.get_node_mut(parent_id) {
                Some(parent_node) => {
                    let kept = retain_other(&parent_node.children, node_id);
                    parent_node.children = kept;
                },
                None => {},
            }
            match self.arena.get_node_mut(node_id) {
                Some(node) => {
                    node.parent = None;
                },
                None => {},
            }
            proof {
                let m = self@.nodes;
                assert(m =~= model::detach(old(self)@, node_id).nodes);
                assert forall|i: int| 0 <= i < m.len() implies model::node_wf(
                    m,
                    #[trigger] m[i],
                    i,
                ) by {
                    assert(model::node_wf(nodes0, nodes0[i], i));
                    if i == parent_id.0 {
                        let kids = m[i].children;
                        let old_kids = nodes0[i].children;
                        assert forall|j: int| 0 <= j < kids.len() implies (#[trigger] kids[j]).0
                            < m.len() by {
                            assert(old_kids.contains(kids[j]));
                        }
                    }
                }
            }
        }
    }

    /// Relocates a node to the end of another parent's children; nothing happens
    /// when that parent already is the node's parent.
    pub fn relocate(&mut self, node_id: NodeId, parent_id: NodeId)
        requires
            old(self).wf(),
            model::can_relocate(old(self)@, node_id, parent_id),
        ensures
            final(self)@ == model::relocate(old(self)@, node_id, parent_id),
            final(self).wf(),
    {
        let current = match self.arena.get_node(node_id) {
            Some(node) => node.parent,
            None => None,
        };
        if let Some(p) = current {
            if p == parent_id {
                return;
            }
        }
        self.detach_node_from_parent(node_id);
        self.attach_node_to_parent(node_id, parent_id, None);
    }

    /// Inserts a node to the parent node at the given position in the children (or none
    /// to add at the end). Will automatically register the node if not done so already
    pub fn add_node(&mut self, node: Node, parent_id: NodeId, position: Option<usize>) -> (r:
        NodeId)
        requires
            old(self).wf(),
            old(self)@.nodes.len() < usize::MAX,
            !node.is_registered ==> children_stored(old(self)@.nodes, node@),
            node.is_registered ==> node.id == parent_id || model::stored(old(self)@, node.id),
        ensures
            (final(self)@, r) == model::add_node(old(self)@, node@, parent_id, position),
            final(self).wf(),
    {
        let node_id = self.add_new_node(node);
        self.attach_node_to_parent(node_id, parent_id, position);
        node_id
    }

    /// The root (document) node.
    pub fn get_root(&self) -> (r: &Node)
        requires
            self@.nodes.len() > 0,
        ensures
            r@ == self@.nodes[0],
    {
        self.arena.get_node(NodeId::root()).unwrap()
    }

    /// Creates an element named `name` and attaches it under `parent_id`.
    pub fn create_element(
        &mut self,
        name: &str,
        parent_id: NodeId,
        position: Option<usize>,
        namespace: &str,
    ) -> (r: NodeId)
        requires
            old(self).wf(),
            old(self)@.nodes.len() < usize::MAX,
        ensures
            (final(self)@, r) == model::create_element(
                old(self)@,
                name@,
                parent_id,
                position,
                namespace@,
            ),
            final(self).wf(),
    {
        let element = Node::new_element(name, ElementAttributes::new(), namespace);
        proof {
            assert(children_stored(self@.nodes, element@));
        }
        self.add_node(element, parent_id, position)
    }

    /// Creates a text node and attaches it at the end of `parent_id`'s children.
    pub fn create_text(&mut self, content: &str, parent_id: NodeId)
        requires
            old(self).wf(),
            old(self)@.nodes.len() < usize::MAX,
        ensures
            final(self)@ == model::create_text(old(self)@, content@, parent_id),
            final(self).wf(),
    {
        let text = Node::new_text(content);
        proof {
            assert(children_stored(self@.nodes, text@));
        }
        self.add_node(text, parent_id, None);
    }

    /// Creates a comment node and attaches it at the end of `parent_id`'s children.
    pub fn create_comment(&mut self, content: &str, parent_id: NodeId)
        requires
            old(self).wf(),
            old(self)@.nodes.len() < usize::MAX,
        ensures
            final(self)@ == model::create_comment(old(self)@, content@, parent_id),
            final(self).wf(),
    {
        let comment = Node::new_comment(content);
        proof {
            assert(children_stored(self@.nodes, comment@));
        }
        self.add_node(comment, parent_id, None);
    }

    /// Sets attribute `key` of element `element_id` to `value`. The value of an
    /// `id` attribute must pass validation; it is then indexed unless the name
    /// is taken. The `class` attribute is not supported.
    pub fn insert_attribute(&mut self, key: &str, value: &str, element_id: NodeId) -> (r: Result<
        (),
        TaskError,
    >)
        requires
            old(self).wf(),
            key@ != "class"@,
        ensures
            final(self)@ == model::insert_attribute(old(self)@, key@, value@, element_id).0,
            match r {
                Ok(()) => model::insert_attribute(old(self)@, key@, value@, element_id).1 is None,
                Err(e) => model::insert_attribute(old(self)@, key@, value@, element_id).1 == Some(
                    e@,
                ),
            },
            final(self).wf(),
    {
        let is_id = key.to_owned() == String::from_str("id");
        if is_id && !validate_id_value(value) {
            return Err(TaskError::InvalidAttributeValue(value.to_owned()));
        }
        let ghost nodes0 = self@.nodes;
        match self.arena.get_node(element_id) {
            Some(node) => {
                if !node.is_element() {
                    return Err(TaskError::NotAnElement(element_id));
                }
            },
            None => {
                return Err(TaskError::NotFound(element_id));
            },
        }
        match self.arena.get_node_mut(element_id) {
            Some(node) => {
                if let NodeData::Element(element) = &mut node.data {
                    element.attributes.insert(key.to_owned(), value.to_owned());
                }
            },
            None => {},
        }
        assert(self@.nodes =~= model::insert_attribute(old(self)@, key@, value@, element_id).0.nodes);
        if is_id {
            self.named_id_elements.insert_if_absent(value.to_owned(), element_id);
        }
        proof {
            let m = self@.nodes;
            assert forall|i: int| 0 <= i < m.len() implies model::node_wf(m, #[trigger] m[i], i) by {
                assert(model::node_wf(nodes0, nodes0[i], i));
            }
        }
        Ok(())
    }
}

/// Returns true when `child_id` lies strictly inside the subtree of
/// `parent_id`. The subtree is walked with an explicit work list, and each node
/// is visited at most once.
fn has_child_recursive(arena: &NodeArena, parent_id: NodeId, child_id: NodeId) -> (r: bool)
    requires
        nodes_wf(arena@),
    ensures
        r == descends(arena@, parent_id, child_id),
{
    let ghost nodes = arena@;
    let n = arena.count_nodes();
    if parent_id.0 >= n {
        proof {
            model::lemma_leaf_has_no_descendants(nodes, parent_id, child_id);
        }
        return false;
    }
    let mut visited: Vec<bool> = vec![false; n];
    let mut stack: Vec<NodeId> = Vec::new();
    stack.push(parent_id);
    let mut marked: usize = 0;
    let ghost mut done: Set<NodeId> = Set::empty();
    proof {
        model::lemma_count_true_none(visited@);
        assert(stack@[0] == parent_id);
    }
    while stack.len() > 0
        invariant
            n == nodes.len(),
            nodes == arena@,
            nodes_wf(nodes),
            visited@.len() == n,
            parent_id.0 < n,
            marked == count_true(visited@),
            forall|d: NodeId|
                d.0 < n && #[trigger] visited@[d.0 as int] ==> descends(nodes, parent_id, d),
            child_id.0 < n ==> !visited@[child_id.0 as int],
            forall|j: int|
                0 <= j < stack.len() ==> (#[trigger] stack@[j]).0 < n && (stack@[j] == parent_id
                    || visited@[stack@[j].0 as int]),
            forall|d: NodeId|
                #[trigger] done.contains(d) ==> d.0 < n && forall|c: NodeId|
                    #[trigger] child_of(nodes, d, c) ==> visited@[c.0 as int],
            forall|d: NodeId|
                d.0 < n && #[trigger] visited@[d.0 as int] ==> done.contains(d) || stack@.contains(d),
            done.contains(parent_id) || stack@.contains(parent_id),
        decreases n - marked, stack.len(),
    {
        proof {
            model::lemma_count_true_bound(visited@);
        }
        let ghost old_stack = stack@;
        let p = stack.pop().unwrap();
        assert(old_stack.last() == p);
        assert forall|d: NodeId| old_stack.contains(d) implies stack@.contains(d) || d == p by {
            let j = choose|j: int| 0 <= j < old_stack.len() && old_stack[j] == d;
            if j < old_stack.len() - 1 {
                assert(stack@[j] == d);
            }
        }
        let node = arena.get_node(p).unwrap();
        assert(model::node_wf(nodes, nodes[p.0 as int], p.0 as int));
        let ghost marked0 = marked;
        let ghost len0 = stack.len();
        let mut j: usize = 0;
        while j < node.children.len()
            invariant
                n == nodes.len(),
                nodes == arena@,
                nodes_wf(nodes),
                visited@.len() == n,
                parent_id.0 < n,
                p.0 < n,
                node@ == nodes[p.0 as int],
                p == parent_id || descends(nodes, parent_id, p),
                j <= node.children.len(),
                marked == count_true(visited@),
                marked >= marked0,
                stack.len() + marked0 == len0 + marked,
                forall|jj: int|
                    0 <= jj < j ==> (#[trigger] node.children@[jj]).0 < n
                        && visited@[node.children@[jj].0 as int],
                forall|d: NodeId|
                    d.0 < n && #[trigger] visited@[d.0 as int] ==> descends(nodes, parent_id, d),
                child_id.0 < n ==> !visited@[child_id.0 as int],
                forall|jj: int|
                    0 <= jj < stack.len() ==> (#[trigger] stack@[jj]).0 < n && (stack@[jj]
                        == parent_id || visited@[stack@[jj].0 as int]),
                forall|d: NodeId|
                    #[trigger] done.contains(d) ==> d.0 < n && forall|c: NodeId|
                        #[trigger] child_of(nodes, d, c) ==> visited@[c.0 as int],
                forall|d: NodeId|
                    d.0 < n && #[trigger] visited@[d.0 as int] ==> done.contains(d)
                        || stack@.contains(d) || d == p,
                done.contains(parent_id) || stack@.contains(parent_id) || p == parent_id,
            decreases node.children.len() - j,
        {
            let c = node.children[j];
            assert(nodes[p.0 as int].children[j as int] == c);
            assert(child_of(nodes, p, c));
            if c == child_id {
                proof {
                    model::lemma_descends_step(nodes, parent_id, p, c);
                }
                return true;
            }
            if !visited[c.0] {
                proof {
                    model::lemma_descends_step(nodes, parent_id, p, c);
                    model::lemma_count_true_set(visited@, c.0 as int);
                    model::lemma_count_true_bound(visited@.update(c.0 as int, true));
                }
                let ghost before = stack@;
                visited.set(c.0, true);
                stack.push(c);
                marked = marked + 1;
                assert forall|d: NodeId| before.contains(d) implies stack@.contains(d) by {
                    let k = choose|k: int| 0 <= k < before.len() && before[k] == d;
                    assert(stack@[k] == d);
                }
                assert(stack@[stack.len() - 1] == c);
            }
            j = j + 1;
        }
        proof {
            assert forall|c: NodeId| #[trigger] child_of(nodes, p, c) implies visited@[c.0
                as int] by {
                let k = choose|k: int| 0 <= k < node.children@.len() && node.children@[k] == c;
                assert(node.children@[k] == c);
            }
            done = done.insert(p);
            model::lemma_count_true_bound(visited@);
            assert(marked > marked0 || stack.len() < old_stack.len());
        }
    }
    proof {
        let closed = Set::new(|d: NodeId| d.0 < n && visited@[d.0 as int]);
        assert forall|c: NodeId| #[trigger] child_of(nodes, parent_id, c) implies closed.contains(
            c,
        ) by {
            assert(done.contains(parent_id));
            assert(model::node_wf(nodes, nodes[parent_id.0 as int], parent_id.0 as int));
            let k = choose|k: int|
                0 <= k < nodes[parent_id.0 as int].children.len()
                    && nodes[parent_id.0 as int].children[k] == c;
            assert(nodes[parent_id.0 as int].children[k] == c);
        }
        assert forall|m: NodeId, c: NodeId|
            closed.contains(m) && #[trigger] child_of(nodes, m, c) implies closed.contains(c) by {
            assert(visited@[m.0 as int]);
            assert(done.contains(m));
            assert(model::node_wf(nodes, nodes[m.0 as int], m.0 as int));
            let k = choose|k: int|
                0 <= k < nodes[m.0 as int].children.len() && nodes[m.0 as int].children[k] == c;
            assert(nodes[m.0 as int].children[k] == c);
        }
        if descends(nodes, parent_id, child_id) {
            let k = choose|k: nat| k >= 1 && #[trigger] model::reach_in(nodes, parent_id, child_id, k);
            model::lemma_closed_holds_descendants(nodes, parent_id, closed, child_id, k);
        }
    }
    false
}

/// The children other than `node_id`, in their order.
fn retain_other(children: &Vec<NodeId>, node_id: NodeId) -> (r: Vec<NodeId>)
    ensures
        r@ == model::without(children@, node_id),
        forall|j: int| 0 <= j < r@.len() ==> children@.contains(#[trigger] r@[j]),
{
    let mut kept: Vec<NodeId> = Vec::new();
    let mut i: usize = 0;
    while i < children.len()
        invariant
            i <= children.len(),
            kept@ == model::without(children@.take(i as int), node_id),
            forall|j: int| 0 <= j < kept@.len() ==> children@.contains(#[trigger] kept@[j]),
        decreases children.len() - i,
    {
        proof {
            assert(children@.take(i + 1).drop_last() =~= children@.take(i as int));
            reveal(Seq::filter);
        }
        if children[i] != node_id {
            let ghost before = kept@;
            kept.push(children[i]);
            assert forall|j: int| 0 <= j < kept@.len() implies children@.contains(
                #[trigger] kept@[j],
            ) by {
                if j < before.len() {
                    assert(kept@[j] == before[j]);
                } else {
                    assert(children@[i as int] == kept@[j]);
                }
            }
        }
        i = i + 1;
    }
    assert(children@.take(children.len() as int) =~= children@);
    kept
}

/// Access to one document. Exclusive access is checked statically: a
/// mutable view cannot coexist with any other view.
#[derive(Debug)]
pub struct DocumentHandle(Document);

impl View for DocumentHandle {
    type V = DocModel;

    closed spec fn view(&self) -> DocModel {
        self.0@
    }
}

impl DocumentHandle {
    pub open spec fn wf(&self) -> bool {
        nodes_wf(self@.nodes)
    }

    /// Retrieves an immutable reference to the document
    pub fn get(&self) -> (r: &Document)
        ensures
            r@ == self@,
    {
        &self.0
    }

    /// Retrieves a mutable reference to the document
    pub fn get_mut(&mut self) -> (r: &mut Document)
        ensures
            r@ == old(self)@,
            final(self)@ == final(r)@,
    {
        &mut self.0
    }

    /// Attaches a node to the parent node at the given position in the children (or none
    /// to add at the end).
    pub fn attach_node_to_parent(
        &mut self,
        node_id: NodeId,
        parent_id: NodeId,
        position: Option<usize>,
    ) -> (r: bool)
        requires
            old(self).wf(),
            parent_id == node_id || model::stored(old(self)@, node_id),
        ensures
            (final(self)@, r) == model::attach(old(self)@, node_id, parent_id, position),
            final(self).wf(),
    {
        self.0.attach_node_to_parent(node_id, parent_id, position)
    }

    /// Separates the given node from its parent node (if any)
    pub fn detach_node_from_parent(&mut self, node_id: NodeId)
        requires
            old(self).wf(),
            model::can_detach(old(self)@, node_id),
        ensures
            final(self)@ == model::detach(old(self)@, node_id),
            final(self).wf(),
    {
        self.0.detach_node_from_parent(node_id)
    }

    /// Inserts a node to the parent node at the given position in the children (or none
    /// to add at the end). Will automatically register the node if not done so already
    /// Returns the node ID of the inserted node
    pub fn add_node(&mut self, node: Node, parent_id: NodeId, position: Option<usize>) -> (r:
        NodeId)
        requires
            old(self).wf(),
            old(self)@.nodes.len() < usize::MAX,
            !node.is_registered ==> children_stored(old(self)@.nodes, node@),
            node.is_registered ==> node.id == parent_id || model::stored(old(self)@, node.id),
        ensures
            (final(self)@, r) == model::add_node(old(self)@, node@, parent_id, position),
            final(self).wf(),
    {
        self.0.add_node(node, parent_id, position)
    }

    /// Relocates a node to another parent node
    pub fn relocate(&mut self, node_id: NodeId, parent_id: NodeId)
        requires
            old(self).wf(),
            model::can_relocate(old(self)@, node_id, parent_id),
        ensures
            final(self)@ == model::relocate(old(self)@, node_id, parent_id),
            final(self).wf(),
    {
        self.0.relocate(node_id, parent_id)
    }

    /// Returns true when there is a cyclic reference from the given node_id to the parent_id
    pub fn has_cyclic_reference(&self, node_id: NodeId, parent_id: NodeId) -> (r: bool)
        requires
            self.wf(),
        ensures
            r == descends(self@.nodes, node_id, parent_id),
    {
        self.0.has_cyclic_reference(node_id, parent_id)
    }
}

impl TreeBuilder for DocumentHandle {
    open spec fn ready(&self) -> bool {
        self.wf() && self@.nodes.len() < usize::MAX
    }

    /// Setting `class` is not supported on a document.
    open spec fn admits(&self, key: Seq<char>) -> bool {
        key != "class"@
    }

    /// Creates and attaches a new element node to the document
    fn create_element(
        &mut self,
        name: &str,
        parent_id: NodeId,
        position: Option<usize>,
        namespace: &str,
    ) -> (r: NodeId)
        ensures
            (final(self)@, r) == model::create_element(
                old(self)@,
                name@,
                parent_id,
                position,
                namespace@,
            ),
            final(self).wf(),
    {
        self.0.create_element(name, parent_id, position, namespace)
    }

    /// Creates and attaches a new text node to the document
    fn create_text(&mut self, content: &str, parent_id: NodeId)
        ensures
            final(self)@ == model::create_text(old(self)@, content@, parent_id),
            final(self).wf(),
    {
        self.0.create_text(content, parent_id)
    }

    /// Creates and attaches a new comment node to the document
    fn create_comment(&mut self, content: &str, parent_id: NodeId)
        ensures
            final(self)@ == model::create_comment(old(self)@, content@, parent_id),
            final(self).wf(),
    {
        self.0.create_comment(content, parent_id)
    }

    /// Inserts an attribute to an element node.
    /// If node is not an element or if passing an invalid attribute value, returns an Err()
    fn insert_attribute(&mut self, key: &str, value: &str, element_id: NodeId) -> (r: Result<
        (),
        TaskError,
    >)
        ensures
            final(self)@ == model::insert_attribute(old(self)@, key@, value@, element_id).0,
            match r {
                Ok(()) => model::insert_attribute(old(self)@, key@, value@, element_id).1 is None,
                Err(e) => model::insert_attribute(old(self)@, key@, value@, element_id).1 == Some(
                    e@,
                ),
            },
            final(self).wf(),
    {
        self.0.insert_attribute(key, value, element_id)
    }
}

impl Document {
    /// Returns a handle to a new, empty document.
    pub fn shared() -> (r: DocumentHandle)
        ensures
            r@.nodes.len() == 0,
            r@.named.len() == 0,
            r@.doctype == DocumentType::HTML,
            r@.quirks_mode == QuirksMode::NoQuirks,
    {
        DocumentHandle(Document::new())
    }

    /// A handle to a copy of the handle's document. Handles own their
    /// document, so later changes through either handle do not reach the other.
    pub fn clone(handle: &DocumentHandle) -> (r: DocumentHandle)
        ensures
            r@ == handle@,
    {
        let d = handle.get();
        DocumentHandle(
            Document {
                arena: d.arena.duplicate(),
                named_id_elements: d.named_id_elements.duplicate(),
                doctype: d.doctype,
                quirks_mode: d.quirks_mode,
            },
        )
    }
}

impl Clone for DocumentHandle {
    /// A handle to a copy of the same document.
    fn clone(&self) -> (r: DocumentHandle)
        ensures
            r@ == self@,
    {
        Document::clone(self)
    }
}

/// This struct will be used to create a fully initialized document or document fragment
pub struct DocumentBuilder;

impl DocumentBuilder {
    /// Creates a new document with a document root node
    pub fn new_document() -> (r: DocumentHandle)
        ensures
            r.wf(),
            r@.nodes == seq![registered(document_model(), NodeId(0))],
            r@.named.len() == 0,
            r@.doctype == DocumentType::HTML,
            r@.quirks_mode == QuirksMode::NoQuirks,
    {
        let mut doc = Document::shared();
        let node = Node::new_document();
        doc.get_mut().arena.register_node(node);
        assert(doc@.nodes =~= seq![registered(document_model(), NodeId(0))]);
        doc
    }

    /// Creates a new document fragment: a document root with an `<html>`
    /// element as its one child. The quirks mode is taken over from the
    /// document of the context node; the context node itself is not read yet
    /// (setting tokenizer state from it is still open).
    pub fn new_document_fragment(_context: &Node, context_document: &DocumentHandle) -> (r:
        DocumentHandle)
        ensures
            r.wf(),
            r@.doctype == DocumentType::HTML,
            r@.quirks_mode == context_document@.quirks_mode,
            r@.named.len() == 0,
            r@.nodes.len() == 2,
            r@.nodes[0] == (NodeModel {
                children: seq![NodeId(1)],
                ..registered(document_model(), NodeId(0))
            }),
            r@.nodes[1] == (NodeModel {
                parent: Some(NodeId(0)),
                ..element_node(element_model("html"@, Seq::empty(), HTML_NAMESPACE@), NodeId(1))
            }),
    {
        let mut doc = DocumentBuilder::new_document();
        doc.get_mut().doctype = DocumentType::HTML;
        match context_document.get().quirks_mode {
            QuirksMode::Quirks => {
                doc.get_mut().quirks_mode = QuirksMode::Quirks;
            },
            QuirksMode::LimitedQuirks => {
                doc.get_mut().quirks_mode = QuirksMode::LimitedQuirks;
            },
            QuirksMode::NoQuirks => {},
        }
        let html_node = Node::new_element("html", ElementAttributes::new(), HTML_NAMESPACE);
        proof {
            assert(children_stored(doc@.nodes, html_node@));
            let m1 = model::add_new_node(doc@, html_node@).0;
            model::lemma_leaf_has_no_descendants(m1.nodes, NodeId(1), NodeId(0));
        }
        doc.add_node(html_node, NodeId::root(), None);
        assert(doc@.nodes[0].children =~= seq![NodeId(1)]);
        doc
    }
}

/// A registered element that echoes its identity.
pub open spec fn element_node(n: crate::node::NodeModel, id: NodeId) -> crate::node::NodeModel {
    model::echo_id(registered(n, id), id)
}

/// A fragment of nodes, with its own store, meant to be attached later to the
/// `host` node of a document.
#[derive(Debug)]
pub struct DocumentFragment {
    /// Node elements inside this fragment
    arena: NodeArena,
    /// Document handle of the parent
    pub doc: DocumentHandle,
    /// Host node on which this fragment is attached
    host: NodeId,
}

impl Clone for DocumentFragment {
    /// A copy of the fragment, with a copy of its document.
    fn clone(&self) -> (r: DocumentFragment)
        ensures
            r.document() == self.document(),
            r.host() == self.host(),
            r.nodes() == self.nodes(),
    {
        DocumentFragment {
            arena: self.arena.duplicate(),
            doc: Document::clone(&self.doc),
            host: self.host,
        }
    }
}

impl DocumentFragment {
    /// Creates a new, empty document fragment for the "host" node inside "doc"
    pub fn new(doc: DocumentHandle, host: NodeId) -> (r: DocumentFragment)
        ensures
            r.document() == doc@,
            r.host() == host,
            r.nodes().len() == 0,
    {
        DocumentFragment { arena: NodeArena::new(), doc, host }
    }

    pub closed spec fn document(&self) -> DocModel {
        self.doc@
    }

    pub closed spec fn host(&self) -> NodeId {
        self.host
    }

    pub closed spec fn nodes(&self) -> Seq<crate::node::NodeModel> {
        self.arena@
    }

    /// The node of the document on which this fragment is to be attached.
    pub fn host_id(&self) -> (r: NodeId)
        ensures
            r == self.host(),
    {
        self.host
    }
}

} // verus!
