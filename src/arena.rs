use crate::node::{Node, NodeId, NodeModel};
use vstd::prelude::*;

verus! {

/// Owns every node of one document; the node with identity `i` is stored at
/// position `i`.
#[derive(Debug)]
pub struct NodeArena {
    nodes: Vec<Node>,
}

/// A node as the store keeps it once it has been given identity `id`.
pub open spec fn registered(n: NodeModel, id: NodeId) -> NodeModel {
    NodeModel { id, registered: true, ..n }
}

impl View for NodeArena {
    type V = Seq<NodeModel>;

    closed spec fn view(&self) -> Seq<NodeModel> {
        self.nodes@.map_values(|n: Node| n@)
    }
}

impl NodeArena {
    pub fn new() -> (r: NodeArena)
        ensures
            r@ == Seq::<NodeModel>::empty(),
    {
        let r = NodeArena { nodes: Vec::new() };
        assert(r@ =~= Seq::<NodeModel>::empty());
        r
    }

    /// Stores `node` under the next identity and returns that identity.
    pub fn register_node(&mut self, node: Node) -> (r: NodeId)
        requires
            old(self)@.len() < usize::MAX,
        ensures
            r.0 == old(self)@.len(),
            final(self)@ == old(self)@.push(registered(node@, r)),
    {
        let id = NodeId(self.nodes.len());
        let mut node = node;
        node.id = id;
        node.is_registered = true;
        let ghost m = node@;
        self.nodes.push(node);
        assert(self@ =~= old(self)@.push(m));
        id
    }

    /// The node with identity `id`, if it is stored.
    pub fn get_node(&self, id: NodeId) -> (r: Option<&Node>)
        ensures
            match r {
                Some(n) => id.0 < self@.len() && n@ == self@[id.0 as int],
                None => id.0 >= self@.len(),
            },
    {
        if id.0 < self.nodes.len() {
            Some(&self.nodes[id.0])
        } else {
            None
        }
    }

    /// Mutable access to the node with identity `id`, if it is stored.
    pub fn get_node_mut(&mut self, id: NodeId) -> (r: Option<&mut Node>)
        ensures
            match r {
                Some(n) => {
                    &&& id.0 < old(self)@.len()
                    &&& n@ == old(self)@[id.0 as int]
                    &&& final(self)@ == old(self)@.update(id.0 as int, final(n)@)
                },
                None => id.0 >= old(self)@.len() && final(self)@ == old(self)@,
            },
    {
        if id.0 < self.nodes.len() {
            Some(&mut self.nodes[id.0])
        } else {
            None
        }
    }

    /// The identity that the next registration will hand out.
    pub fn peek_next_id(&self) -> (r: NodeId)
        ensures
            r.0 == self@.len(),
    {
        NodeId(self.nodes.len())
    }

    /// A copy holding copies of the same nodes.
    pub fn duplicate(&self) -> (r: NodeArena)
        ensures
            r@ == self@,
    {
        let mut nodes: Vec<Node> = Vec::new();
        let mut i: usize = 0;
        while i < self.nodes.len()
            invariant
                i <= self.nodes.len(),
                nodes@.map_values(|n: Node| n@) =~= self@.take(i as int),
            decreases self.nodes.len() - i,
        {
            let ghost before = nodes@;
            let n = self.nodes[i].duplicate();
            nodes.push(n);
            assert(nodes@ == before.push(n));
            assert(self@.take(i + 1) =~= self@.take(i as int).push(n@));
            i = i + 1;
        }
        let r = NodeArena { nodes };
        assert(self@.take(self@.len() as int) =~= self@);
        r
    }

    /// The number of stored nodes.
    pub fn count_nodes(&self) -> (r: usize)
        ensures
            r == self@.len(),
    {
        self.nodes.len()
    }
}

} // verus!
