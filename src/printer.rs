//! Diagnostic rendering of a document tree, one line per node.
use crate::document::{Document, DocumentHandle};
use crate::model::{nodes_wf, DocModel};
use crate::node::{DataModel, Node, NodeData, NodeId, NodeModel};
use vstd::prelude::*;
use vstd::string::*;
use vstd::utf8::encode_utf8;

verus! {

/// Prefixes longer than this many bytes (in UTF-8) stop the descent.
pub const MAX_PREFIX: usize = 40;

pub open spec fn last_connector() -> Seq<char> {
    seq!['└', '─', ' ']
}

pub open spec fn sibling_connector() -> Seq<char> {
    seq!['├', '─', ' ']
}

pub open spec fn last_indent() -> Seq<char> {
    seq![' ', ' ', ' ']
}

pub open spec fn sibling_indent() -> Seq<char> {
    seq!['│', ' ', ' ']
}

/// ` key=value` for each attribute, in order.
pub open spec fn attributes_text(attrs: Seq<(Seq<char>, Seq<char>)>) -> Seq<char>
    decreases attrs.len(),
{
    if attrs.len() == 0 {
        Seq::empty()
    } else {
        attributes_text(attrs.drop_last()) + " "@ + attrs.last().0 + "="@ + attrs.last().1
    }
}

/// The line of a node, after its prefix and connector.
pub open spec fn node_line(d: DataModel) -> Seq<char> {
    match d {
        DataModel::Document => "Document\n"@,
        DataModel::DocType { name, pub_identifier, sys_identifier } => "<!DOCTYPE "@ + name
            + " \""@ + pub_identifier + "\" \""@ + sys_identifier + "\">\n"@,
        DataModel::Text { value } => "\""@ + value + "\"\n"@,
        DataModel::Comment { value } => "<!-- "@ + value + " -->\n"@,
        DataModel::Element { name, attributes, .. } => "<"@ + name + attributes_text(attributes)
            + ">\n"@,
    }
}

/// Length of the UTF-8 encoding of `s`, in bytes.
pub open spec fn byte_len(s: Seq<char>) -> nat {
    encode_utf8(s).len()
}

/// A character takes at least one byte and at most four.
pub proof fn lemma_byte_len_bounds(s: Seq<char>)
    ensures
        s.len() <= byte_len(s) <= 4 * s.len(),
    decreases s.len(),
{
    if s.len() > 0 {
        lemma_byte_len_bounds(s.drop_first());
    }
}

/// Encoding distributes over concatenation.
pub proof fn lemma_encode_concat(a: Seq<char>, b: Seq<char>)
    ensures
        encode_utf8(a + b) == encode_utf8(a) + encode_utf8(b),
    decreases a.len(),
{
    if a.len() == 0 {
        assert(a + b =~= b);
        assert(encode_utf8(a) =~= Seq::<u8>::empty());
        assert(encode_utf8(a) + encode_utf8(b) =~= encode_utf8(b));
    } else {
        assert((a + b).drop_first() =~= a.drop_first() + b);
        assert((a + b)[0] == a[0]);
        lemma_encode_concat(a.drop_first(), b);
        assert(encode_utf8(a + b) =~= encode_utf8(a) + encode_utf8(b));
    }
}

#[via_fn]
proof fn tree_text_decreases(nodes: Seq<NodeModel>, n: NodeModel, prefix: Seq<char>, last: bool) {
    lemma_byte_len_bounds(prefix);
}

/// What remains before the prefix grows past the limit.
pub open spec fn room(prefix: Seq<char>) -> nat {
    if prefix.len() >= 44 {
        0
    } else {
        (44 - prefix.len()) as nat
    }
}

/// The rendering of node `n` and, unless the prefix is already too long, of
/// its subtree.
pub open spec fn tree_text(nodes: Seq<NodeModel>, n: NodeModel, prefix: Seq<char>, last: bool) -> Seq<
    char,
>
    decreases room(prefix), 0nat, 0nat
        via tree_text_decreases
{
    let line = prefix + (if last {
        last_connector()
    } else {
        sibling_connector()
    }) + node_line(n.data);
    if byte_len(prefix) > MAX_PREFIX {
        line + "...\n"@
    } else {
        let inner = prefix + if last {
            last_indent()
        } else {
            sibling_indent()
        };
        line + children_text(nodes, n.children, n.children.len(), inner)
    }
}

/// The renderings of the first `i` of `kids`; the last of all kids gets the
/// closing connector.
pub open spec fn children_text(nodes: Seq<NodeModel>, kids: Seq<NodeId>, i: nat, prefix: Seq<char>) -> Seq<
    char,
>
    decreases room(prefix), 1nat, i,
{
    if i == 0 || i > kids.len() {
        Seq::empty()
    } else {
        let k = kids[i - 1];
        children_text(nodes, kids, (i - 1) as nat, prefix) + if k.0 < nodes.len() {
            tree_text(nodes, nodes[k.0 as int], prefix, i == kids.len())
        } else {
            Seq::empty()
        }
    }
}

/// The rendering of a whole document, from its root.
pub open spec fn document_text(m: DocModel) -> Seq<char> {
    tree_text(m.nodes, m.nodes[0], Seq::empty(), true)
}

fn push_line(out: &mut String, data: &NodeData)
    ensures
        final(out)@ == old(out)@ + node_line(data@),
{
    match data {
        NodeData::Document(_) => {
            out.append("Document\n");
        },
        NodeData::DocType(d) => {
            out.append("<!DOCTYPE ");
            out.append(d.name.as_str());
            out.append(" \"");
            out.append(d.pub_identifier.as_str());
            out.append("\" \"");
            out.append(d.sys_identifier.as_str());
            out.append("\">\n");
        },
        NodeData::Text(t) => {
            out.append("\"");
            out.append(t.value.as_str());
            out.append("\"\n");
        },
        NodeData::Comment(c) => {
            out.append("<!-- ");
            out.append(c.value.as_str());
            out.append(" -->\n");
        },
        NodeData::Element(e) => {
            out.append("<");
            out.append(e.name.as_str());
            let ghost start = out@;
            let mut i: usize = 0;
            while i < e.attributes.len()
                invariant
                    i <= e.attributes@.len(),
                    out@ == start + attributes_text(e.attributes@.take(i as int)),
                decreases e.attributes@.len() - i,
            {
                let (key, value) = e.attributes.entry(i);
                out.append(" ");
                out.append(key.as_str());
                out.append("=");
                out.append(value.as_str());
                proof {
                    let t = e.attributes@.take(i + 1);
                    assert(t.drop_last() =~= e.attributes@.take(i as int));
                }
                i = i + 1;
            }
            assert(e.attributes@.take(e.attributes@.len() as int) =~= e.attributes@);
            out.append(">\n");
        },
    }
    assert(out@ =~= old(out)@ + node_line(data@));
}

impl Document {
    /// Print a node and all its children in a tree-like structure
    pub fn print_tree(&self, node: &Node, prefix: String, last: bool, out: &mut String)
        requires
            nodes_wf(self@.nodes),
            crate::model::children_stored(self@.nodes, node@),
            byte_len(prefix@) <= usize::MAX,
        ensures
            final(out)@ == old(out)@ + tree_text(self@.nodes, node@, prefix@, last),
        decreases room(prefix@),
    {
        proof {
            reveal_strlit("└─ ");
            reveal_strlit("├─ ");
            reveal_strlit("   ");
            reveal_strlit("│  ");
        }
        out.append(prefix.as_str());
        if last {
            out.append("└─ ");
        } else {
            out.append("├─ ");
        }
        push_line(out, &node.data);
        let ghost line = prefix@ + (if last {
            last_connector()
        } else {
            sibling_connector()
        }) + node_line(node@.data);
        assert(out@ =~= old(out)@ + line);
        if prefix.as_str().len() > MAX_PREFIX {
            out.append("...\n");
            return;
        }
        let mut buffer = prefix.clone();
        if last {
            buffer.append("   ");
        } else {
            buffer.append("│  ");
        }
        let ghost indent = if last {
            last_indent()
        } else {
            sibling_indent()
        };
        assert(buffer@ =~= prefix@ + indent);
        proof {
            lemma_byte_len_bounds(prefix@);
            lemma_byte_len_bounds(indent);
            lemma_encode_concat(prefix@, indent);
        }
        let ghost nodes = self@.nodes;
        let ghost start = out@;
        let len = node.children.len();
        let mut i: usize = 0;
        while i < len
            invariant
                len == node.children@.len(),
                i <= len,
                nodes == self@.nodes,
                nodes_wf(nodes),
                crate::model::children_stored(nodes, node@),
                buffer@.len() == prefix@.len() + 3,
                prefix@.len() <= MAX_PREFIX,
                byte_len(buffer@) <= usize::MAX,
                out@ == start + children_text(nodes, node.children@, i as nat, buffer@),
            decreases len - i,
        {
            let child_id = node.children[i];
            assert(node@.children[i as int] == child_id);
            let child = self.arena.get_node(child_id).unwrap();
            assert(crate::model::node_wf(nodes, nodes[child_id.0 as int], child_id.0 as int));
            self.print_tree(child, buffer.clone(), i == len - 1, out);
            i = i + 1;
        }
        assert(out@ =~= old(out)@ + tree_text(nodes, node@, prefix@, last));
    }

    /// The rendering of the whole tree, from the root.
    pub fn to_string(&self) -> (r: String)
        requires
            nodes_wf(self@.nodes),
            self@.nodes.len() > 0,
        ensures
            r@ == document_text(self@),
    {
        let mut out = String::new();
        let root = self.get_root();
        assert(crate::model::node_wf(self@.nodes, self@.nodes[0], 0));
        self.print_tree(root, String::new(), true, &mut out);
        out
    }
}

impl DocumentHandle {
    /// The rendering of the whole tree, from the root.
    pub fn to_string(&self) -> (r: String)
        requires
            self.wf(),
            self@.nodes.len() > 0,
        ensures
            r@ == document_text(self@),
    {
        self.get().to_string()
    }
}

} // verus!
