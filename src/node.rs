use vstd::prelude::*;
use vstd::string::*;

verus! {

/// Namespace of HTML elements.
pub const HTML_NAMESPACE: &'static str = "http://www.w3.org/1999/xhtml";

/// Identity of a node inside one document. Identities are handed out in
/// increasing order; the document node always receives the first one.
#[derive(Clone, Copy, Debug, PartialEq, Eq, Structural, Hash, PartialOrd, Ord)]
pub struct NodeId(pub usize);

impl NodeId {
    /// The identity of the document (root) node.
    pub fn root() -> (r: NodeId)
        ensures
            r.0 == 0,
    {
        NodeId(0)
    }

    /// The identity that follows this one.
    pub fn next(self) -> (r: NodeId)
        requires
            self.0 < usize::MAX,
        ensures
            r.0 == self.0 + 1,
    {
        NodeId(self.0 + 1)
    }

    pub fn as_usize(self) -> (r: usize)
        ensures
            r == self.0,
    {
        self.0
    }
}

impl From<usize> for NodeId {
    fn from(value: usize) -> (r: NodeId) {
        NodeId(value)
    }
}

impl vstd::std_specs::convert::FromSpecImpl<usize> for NodeId {
    open spec fn obeys_from_spec() -> bool {
        true
    }

    open spec fn from_spec(v: usize) -> NodeId {
        NodeId(v)
    }
}


/// Position of the first key equal to `k`, if any.
pub open spec fn first_index(keys: Seq<Seq<char>>, k: Seq<char>) -> Option<int> {
    if exists|i: int| is_first_match(keys, k, i) {
        Some(choose|i: int| is_first_match(keys, k, i))
    } else {
        None
    }
}

pub open spec fn is_first_match(keys: Seq<Seq<char>>, k: Seq<char>, i: int) -> bool {
    &&& 0 <= i < keys.len()
    &&& keys[i] == k
    &&& forall|j: int| 0 <= j < i ==> keys[j] != k
}

/// The first match, when there is one, is the one `first_index` picks.
pub proof fn lemma_first_index(keys: Seq<Seq<char>>, k: Seq<char>, i: int)
    requires
        is_first_match(keys, k, i),
    ensures
        first_index(keys, k) == Some(i),
{
    let c = choose|c: int| is_first_match(keys, k, c);
    assert(c == i) by {
        if c < i {
            assert(keys[c] != k);
        } else if c > i {
            assert(keys[i] != k);
        }
    }
}

/// With no matching key, `first_index` finds none.
pub proof fn lemma_first_index_none(keys: Seq<Seq<char>>, k: Seq<char>)
    requires
        forall|j: int| 0 <= j < keys.len() ==> keys[j] != k,
    ensures
        first_index(keys, k) is None,
{
}

/// Appending a key that was absent makes the new position its first match.
pub proof fn lemma_first_index_push(keys: Seq<Seq<char>>, k: Seq<char>, x: Seq<char>)
    ensures
        first_index(keys.push(x), k) == (match first_index(keys, k) {
            Some(i) => Some(i),
            None => if x == k {
                Some(keys.len() as int)
            } else {
                None
            },
        }),
{
    let s = keys.push(x);
    match first_index(keys, k) {
        Some(i) => {
            lemma_first_index(s, k, i);
        },
        None => {
            assert forall|j: int| 0 <= j < keys.len() implies keys[j] != k by {
                if keys[j] == k {
                    lemma_first_match_exists(keys, k, j);
                }
            }
            if x == k {
                lemma_first_index(s, k, keys.len() as int);
            } else {
                lemma_first_index_none(s, k);
            }
        },
    }
}

/// Any match implies a first match.
pub proof fn lemma_first_match_exists(keys: Seq<Seq<char>>, k: Seq<char>, j: int)
    requires
        0 <= j < keys.len(),
        keys[j] == k,
    ensures
        first_index(keys, k) is Some,
    decreases j,
{
    if forall|m: int| 0 <= m < j ==> keys[m] != k {
        assert(is_first_match(keys, k, j));
    } else {
        let m = choose|m: int| 0 <= m < j && keys[m] == k;
        lemma_first_match_exists(keys, k, m);
    }
}

/// The keys of a list of string-keyed entries.
pub open spec fn keys_of<V>(entries: Seq<(String, V)>) -> Seq<Seq<char>> {
    entries.map_values(|p: (String, V)| p.0@)
}

/// Finds the position of the first entry whose key is `key`.
pub fn find_key<V>(entries: &Vec<(String, V)>, key: &String) -> (r: Option<usize>)
    ensures
        match r {
            Some(i) => first_index(keys_of(entries@), key@) == Some(i as int),
            None => first_index(keys_of(entries@), key@) is None,
        },
{
    let ghost keys = keys_of(entries@);
    let mut i: usize = 0;
    while i < entries.len()
        invariant
            i <= entries.len(),
            keys == keys_of(entries@),
            forall|j: int| 0 <= j < i ==> keys[j] != key@,
        decreases entries.len() - i,
    {
        if entries[i].0 == *key {
            proof {
                lemma_first_index(keys, key@, i as int);
            }
            return Some(i);
        }
        i = i + 1;
    }
    proof {
        lemma_first_index_none(keys, key@);
    }
    None
}

/// Ordered attributes of an element: each key at most once, in the order in
/// which keys were first set.
#[derive(Debug)]
pub struct ElementAttributes {
    entries: Vec<(String, String)>,
}

/// The value stored under key `k`, if any.
pub open spec fn attr_get(attrs: Seq<(Seq<char>, Seq<char>)>, k: Seq<char>) -> Option<Seq<char>> {
    match first_index(attrs.map_values(|p: (Seq<char>, Seq<char>)| p.0), k) {
        Some(i) => Some(attrs[i].1),
        None => None,
    }
}

/// Sets key `k` to `v`: an existing key keeps its place, a new one goes last.
pub open spec fn attr_insert(attrs: Seq<(Seq<char>, Seq<char>)>, k: Seq<char>, v: Seq<char>) -> Seq<
    (Seq<char>, Seq<char>),
> {
    match first_index(attrs.map_values(|p: (Seq<char>, Seq<char>)| p.0), k) {
        Some(i) => attrs.update(i, (k, v)),
        None => attrs.push((k, v)),
    }
}

impl View for ElementAttributes {
    type V = Seq<(Seq<char>, Seq<char>)>;

    closed spec fn view(&self) -> Seq<(Seq<char>, Seq<char>)> {
        self.entries@.map_values(|p: (String, String)| (p.0@, p.1@))
    }
}

impl ElementAttributes {
    pub fn new() -> (r: ElementAttributes)
        ensures
            r@ == Seq::<(Seq<char>, Seq<char>)>::empty(),
    {
        ElementAttributes { entries: Vec::new() }
    }

    proof fn lemma_keys(&self)
        ensures
            keys_of(self.entries@) == self@.map_values(|p: (Seq<char>, Seq<char>)| p.0),
    {
        assert(keys_of(self.entries@) =~= self@.map_values(|p: (Seq<char>, Seq<char>)| p.0));
    }

    pub fn len(&self) -> (r: usize)
        ensures
            r == self@.len(),
    {
        self.entries.len()
    }

    /// The value of attribute `key`, if it is set.
    pub fn get(&self, key: &str) -> (r: Option<&String>)
        ensures
            match r {
                Some(v) => attr_get(self@, key@) == Some(v@),
                None => attr_get(self@, key@) is None,
            },
    {
        let k = key.to_owned();
        proof {
            self.lemma_keys();
        }
        match find_key(&self.entries, &k) {
            Some(i) => Some(&self.entries[i].1),
            None => None,
        }
    }

    /// Sets attribute `key` to `value`.
    pub fn insert(&mut self, key: String, value: String)
        ensures
            final(self)@ == attr_insert(old(self)@, key@, value@),
    {
        proof {
            self.lemma_keys();
        }
        match find_key(&self.entries, &key) {
            Some(i) => {
                let ghost kv = key@;
                let ghost vv = value@;
                self.entries[i] = (key, value);
                assert(self@ =~= old(self)@.update(i as int, (kv, vv)));
            },
            None => {
                let ghost kv = key@;
                let ghost vv = value@;
                self.entries.push((key, value));
                assert(self@ =~= old(self)@.push((kv, vv)));
            },
        }
    }

    /// The entry at position `i`.
    pub fn entry(&self, i: usize) -> (r: (&String, &String))
        requires
            i < self@.len(),
        ensures
            (r.0@, r.1@) == self@[i as int],
    {
        (&self.entries[i].0, &self.entries[i].1)
    }

    /// A copy with the same entries.
    pub fn duplicate(&self) -> (r: ElementAttributes)
        ensures
            r@ == self@,
    {
        let mut entries: Vec<(String, String)> = Vec::new();
        let mut i: usize = 0;
        while i < self.entries.len()
            invariant
                i <= self.entries.len(),
                entries@.map_values(|p: (String, String)| (p.0@, p.1@)) =~= self@.take(i as int),
            decreases self.entries.len() - i,
        {
            let k = self.entries[i].0.clone();
            let v = self.entries[i].1.clone();
            let ghost before = entries@;
            entries.push((k, v));
            assert(entries@ == before.push((k, v)));
            assert(self@[i as int] == (k@, v@));
            assert(self@.take(i + 1) =~= self@.take(i as int).push((k@, v@)));
            i = i + 1;
        }
        let r = ElementAttributes { entries };
        assert(self@.take(self@.len() as int) =~= self@);
        r
    }
}

/// Kind of a node.
#[derive(Clone, Copy, Debug, PartialEq, Eq, Structural)]
pub enum NodeType {
    Document,
    DocType,
    Text,
    Comment,
    Element,
}

/// Payload of the document node.
#[derive(Debug)]
pub struct DocumentData {}

/// Payload of a `<!DOCTYPE>` node.
#[derive(Debug)]
pub struct DocTypeData {
    pub name: String,
    pub pub_identifier: String,
    pub sys_identifier: String,
}

/// Payload of a text node.
#[derive(Debug)]
pub struct TextData {
    pub value: String,
}

/// Payload of a comment node.
#[derive(Debug)]
pub struct CommentData {
    pub value: String,
}

/// Payload of an element node. `node_id` echoes the identity of the node
/// that holds it once that node is stored.
#[derive(Debug)]
pub struct ElementData {
    pub node_id: NodeId,
    pub name: String,
    pub namespace: String,
    pub attributes: ElementAttributes,
}

/// Typed payload of a node.
#[derive(Debug)]
pub enum NodeData {
    Document(DocumentData),
    DocType(DocTypeData),
    Text(TextData),
    Comment(CommentData),
    Element(ElementData),
}

/// Mathematical model of a node payload.
pub enum DataModel {
    Document,
    DocType { name: Seq<char>, pub_identifier: Seq<char>, sys_identifier: Seq<char> },
    Text { value: Seq<char> },
    Comment { value: Seq<char> },
    Element {
        node_id: NodeId,
        name: Seq<char>,
        namespace: Seq<char>,
        attributes: Seq<(Seq<char>, Seq<char>)>,
    },
}

impl View for NodeData {
    type V = DataModel;

    open spec fn view(&self) -> DataModel {
        match self {
            NodeData::Document(_) => DataModel::Document,
            NodeData::DocType(d) => DataModel::DocType {
                name: d.name@,
                pub_identifier: d.pub_identifier@,
                sys_identifier: d.sys_identifier@,
            },
            NodeData::Text(t) => DataModel::Text { value: t.value@ },
            NodeData::Comment(c) => DataModel::Comment { value: c.value@ },
            NodeData::Element(e) => DataModel::Element {
                node_id: e.node_id,
                name: e.name@,
                namespace: e.namespace@,
                attributes: e.attributes@,
            },
        }
    }
}

/// A node: its place in the tree and its payload.
#[derive(Debug)]
pub struct Node {
    /// Identity in the store; meaningful once `is_registered` is set.
    pub id: NodeId,
    /// Parent node, absent for the root and for detached nodes.
    pub parent: Option<NodeId>,
    /// Children, in document order.
    pub children: Vec<NodeId>,
    /// Tag name of an element, empty for other nodes.
    pub name: String,
    /// Namespace of an element.
    pub namespace: Option<String>,
    pub data: NodeData,
    /// Whether the store has given this node its identity.
    pub is_registered: bool,
}

/// Mathematical model of a node.
pub struct NodeModel {
    pub id: NodeId,
    pub parent: Option<NodeId>,
    pub children: Seq<NodeId>,
    pub name: Seq<char>,
    pub namespace: Option<Seq<char>>,
    pub data: DataModel,
    pub registered: bool,
}

impl View for Node {
    type V = NodeModel;

    open spec fn view(&self) -> NodeModel {
        NodeModel {
            id: self.id,
            parent: self.parent,
            children: self.children@,
            name: self.name@,
            namespace: match self.namespace {
                Some(ns) => Some(ns@),
                None => None,
            },
            data: self.data@,
            registered: self.is_registered,
        }
    }
}

/// A fresh, unregistered node with the given name, namespace and payload.
pub open spec fn fresh_node(name: Seq<char>, namespace: Option<Seq<char>>, data: DataModel) -> NodeModel {
    NodeModel {
        id: NodeId(0),
        parent: None,
        children: Seq::empty(),
        name,
        namespace,
        data,
        registered: false,
    }
}

pub open spec fn element_model(
    name: Seq<char>,
    attributes: Seq<(Seq<char>, Seq<char>)>,
    namespace: Seq<char>,
) -> NodeModel {
    fresh_node(
        name,
        Some(namespace),
        DataModel::Element { node_id: NodeId(0), name, namespace, attributes },
    )
}

pub open spec fn text_model(value: Seq<char>) -> NodeModel {
    fresh_node(Seq::empty(), None, DataModel::Text { value })
}

pub open spec fn comment_model(value: Seq<char>) -> NodeModel {
    fresh_node(Seq::empty(), None, DataModel::Comment { value })
}

pub open spec fn document_model() -> NodeModel {
    fresh_node(Seq::empty(), None, DataModel::Document)
}

impl Node {
    fn fresh(name: String, namespace: Option<String>, data: NodeData) -> (r: Node)
        ensures
            r@ == fresh_node(
                name@,
                match namespace {
                    Some(ns) => Some(ns@),
                    None => None,
                },
                data@,
            ),
    {
        let r = Node {
            id: NodeId(0),
            parent: None,
            children: Vec::new(),
            name,
            namespace,
            data,
            is_registered: false,
        };
        assert(r@.children =~= Seq::<NodeId>::empty());
        r
    }

    /// A new, unregistered document node.
    pub fn new_document() -> (r: Node)
        ensures
            r@ == document_model(),
    {
        Node::fresh(String::new(), None, NodeData::Document(DocumentData {  }))
    }

    /// A new, unregistered doctype node.
    pub fn new_doctype(name: &str, pub_identifier: &str, sys_identifier: &str) -> (r: Node)
        ensures
            r@ == fresh_node(
                Seq::empty(),
                None,
                DataModel::DocType {
                    name: name@,
                    pub_identifier: pub_identifier@,
                    sys_identifier: sys_identifier@,
                },
            ),
    {
        let data = DocTypeData {
            name: name.to_owned(),
            pub_identifier: pub_identifier.to_owned(),
            sys_identifier: sys_identifier.to_owned(),
        };
        Node::fresh(String::new(), None, NodeData::DocType(data))
    }

    /// A new, unregistered text node.
    pub fn new_text(value: &str) -> (r: Node)
        ensures
            r@ == text_model(value@),
    {
        Node::fresh(String::new(), None, NodeData::Text(TextData { value: value.to_owned() }))
    }

    /// A new, unregistered comment node.
    pub fn new_comment(value: &str) -> (r: Node)
        ensures
            r@ == comment_model(value@),
    {
        Node::fresh(String::new(), None, NodeData::Comment(CommentData { value: value.to_owned() }))
    }

    /// A new, unregistered element node.
    pub fn new_element(name: &str, attributes: ElementAttributes, namespace: &str) -> (r: Node)
        ensures
            r@ == element_model(name@, attributes@, namespace@),
    {
        let data = ElementData {
            node_id: NodeId(0),
            name: name.to_owned(),
            namespace: namespace.to_owned(),
            attributes,
        };
        Node::fresh(name.to_owned(), Some(namespace.to_owned()), NodeData::Element(data))
    }

    /// The kind of this node.
    pub fn type_of(&self) -> (r: NodeType)
        ensures
            r == node_type_of(self@.data),
    {
        match &self.data {
            NodeData::Document(_) => NodeType::Document,
            NodeData::DocType(_) => NodeType::DocType,
            NodeData::Text(_) => NodeType::Text,
            NodeData::Comment(_) => NodeType::Comment,
            NodeData::Element(_) => NodeType::Element,
        }
    }

    /// Whether this node is an element.
    pub fn is_element(&self) -> (r: bool)
        ensures
            r == self@.data is Element,
    {
        match &self.data {
            NodeData::Element(_) => true,
            _ => false,
        }
    }
}

/// A copy of a list of identities.
pub fn copy_ids(ids: &Vec<NodeId>) -> (r: Vec<NodeId>)
    ensures
        r@ == ids@,
{
    let mut out: Vec<NodeId> = Vec::new();
    let mut i: usize = 0;
    while i < ids.len()
        invariant
            i <= ids.len(),
            out@ == ids@.take(i as int),
        decreases ids.len() - i,
    {
        out.push(ids[i]);
        assert(ids@.take(i + 1) =~= ids@.take(i as int).push(ids@[i as int]));
        i = i + 1;
    }
    assert(ids@.take(ids.len() as int) =~= ids@);
    out
}

impl NodeData {
    /// A copy with the same payload.
    pub fn duplicate(&self) -> (r: NodeData)
        ensures
            r@ == self@,
    {
        match self {
            NodeData::Document(_) => NodeData::Document(DocumentData {  }),
            NodeData::DocType(d) => NodeData::DocType(
                DocTypeData {
                    name: d.name.clone(),
                    pub_identifier: d.pub_identifier.clone(),
                    sys_identifier: d.sys_identifier.clone(),
                },
            ),
            NodeData::Text(t) => NodeData::Text(TextData { value: t.value.clone() }),
            NodeData::Comment(c) => NodeData::Comment(CommentData { value: c.value.clone() }),
            NodeData::Element(e) => NodeData::Element(
                ElementData {
                    node_id: e.node_id,
                    name: e.name.clone(),
                    namespace: e.namespace.clone(),
                    attributes: e.attributes.duplicate(),
                },
            ),
        }
    }
}

impl Node {
    /// A copy with the same identity, links and payload.
    pub fn duplicate(&self) -> (r: Node)
        ensures
            r@ == self@,
    {
        let namespace = match &self.namespace {
            Some(ns) => Some(ns.clone()),
            None => None,
        };
        Node {
            id: self.id,
            parent: self.parent,
            children: copy_ids(&self.children),
            name: self.name.clone(),
            namespace,
            data: self.data.duplicate(),
            is_registered: self.is_registered,
        }
    }
}

pub open spec fn node_type_of(d: DataModel) -> NodeType {
    match d {
        DataModel::Document => NodeType::Document,
        DataModel::DocType { .. } => NodeType::DocType,
        DataModel::Text { .. } => NodeType::Text,
        DataModel::Comment { .. } => NodeType::Comment,
        DataModel::Element { .. } => NodeType::Element,
    }
}

} // verus!
