//! The tree of text nodes that a document is read into and written from.

use vstd::prelude::*;
use vstd::string::StringExecFns;
use crate::text::same_text;

verus! {

/// What a node is.
#[derive(Clone, Copy, Debug, PartialEq, Eq, Structural)]
pub enum NodeKind {
    /// A single value.
    Scalar,
    /// Children with keys.
    Mapping,
    /// Children without keys.
    Sequence,
}

/// A node of a document.
///
/// Floating-point text is read and written where the document is, not here.
/// Whoever reads a document gives every scalar whose text is a decimal
/// floating-point number that number in `number`, quoted or not; a whole
/// number counts. Whoever writes a document writes a scalar that has a
/// `number` as the text of that number, whatever its `text` is.
#[derive(Debug, PartialEq, Eq)]
pub struct Node {
    /// The key under which the node stands in a map; empty elsewhere.
    pub key: String,
    /// Whether the key was written in quotes.
    pub key_quoted: bool,
    /// The type tag of the value; empty where it has none.
    pub tag: String,
    /// What the node is.
    pub kind: NodeKind,
    /// The text of a scalar.
    pub text: String,
    /// Whether the text of a scalar was written in quotes.
    pub quoted: bool,
    /// The single-precision value that a scalar stands for, by its bits.
    pub number: Option<u32>,
    /// Whether a sequence is written on one line.
    pub flow: bool,
    /// The children of a map or a sequence, in the order of the document.
    pub children: Vec<Node>,
}

/// A node as a mathematical value.
pub struct NodeV {
    pub key: Seq<char>,
    pub key_quoted: bool,
    pub tag: Seq<char>,
    pub kind: NodeKind,
    pub text: Seq<char>,
    pub quoted: bool,
    pub number: Option<u32>,
    pub flow: bool,
    pub children: Seq<NodeV>,
}

/// The node that stands where there is none.
pub open spec fn blank() -> NodeV {
    NodeV {
        key: Seq::empty(),
        key_quoted: false,
        tag: Seq::empty(),
        kind: NodeKind::Scalar,
        text: Seq::empty(),
        quoted: false,
        number: None,
        flow: false,
        children: Seq::empty(),
    }
}

/// The first position from `from` on of a child with the key.
pub open spec fn child_index(children: Seq<NodeV>, key: Seq<char>, from: int) -> Option<int>
    decreases children.len() - from,
{
    if from < 0 || from >= children.len() {
        None
    } else if children[from].key == key {
        Some(from)
    } else {
        child_index(children, key, from + 1)
    }
}

/// Where `child_index` finds a child, the child is there and has the key.
pub proof fn lemma_child_index(children: Seq<NodeV>, key: Seq<char>, from: int)
    ensures
        match child_index(children, key, from) {
            Some(i) => from <= i < children.len() && children[i].key == key,
            None => true,
        },
    decreases children.len() - from,
{
    if !(from < 0 || from >= children.len()) && children[from].key != key {
        lemma_child_index(children, key, from + 1);
    }
}

impl Node {
    /// The node as a mathematical value.
    pub open spec fn view(&self) -> NodeV
        decreases self,
    {
        NodeV {
            key: self.key@,
            key_quoted: self.key_quoted,
            tag: self.tag@,
            kind: self.kind,
            text: self.text@,
            quoted: self.quoted,
            number: self.number,
            flow: self.flow,
            children: Seq::new(
                self.children@.len(),
                |i: int|
                    if 0 <= i < self.children@.len() {
                        self.children@[i].view()
                    } else {
                        blank()
                    },
            ),
        }
    }

    /// A scalar with this text, without key and tag.
    pub fn scalar(text: String, quoted: bool) -> (r: Node)
        ensures
            r@ == (NodeV { text: text@, quoted, ..blank() }),
    {
        let r = Node {
            key: String::new(),
            key_quoted: false,
            tag: String::new(),
            kind: NodeKind::Scalar,
            text,
            quoted,
            number: None,
            flow: false,
            children: Vec::new(),
        };
        assert(r@.children =~= blank().children);
        r
    }

    /// A scalar that stands for a floating-point value.
    pub fn float(bits: u32) -> (r: Node)
        ensures
            r@ == (NodeV { number: Some(bits), ..blank() }),
    {
        let r = Node {
            key: String::new(),
            key_quoted: false,
            tag: String::new(),
            kind: NodeKind::Scalar,
            text: String::new(),
            quoted: false,
            number: Some(bits),
            flow: false,
            children: Vec::new(),
        };
        assert(r@.children =~= blank().children);
        r
    }

    /// A map or a sequence with these children, without key and tag.
    pub fn container(kind: NodeKind, flow: bool, children: Vec<Node>) -> (r: Node)
        ensures
            r@ == (NodeV { kind, flow, children: nodes_view(children@), ..blank() }),
    {
        let r = Node {
            key: String::new(),
            key_quoted: false,
            tag: String::new(),
            kind,
            text: String::new(),
            quoted: false,
            number: None,
            flow,
            children,
        };
        assert(r@.children =~= nodes_view(children@));
        r
    }

    /// The same node under a key.
    pub fn with_key(self, key: String, key_quoted: bool) -> (r: Node)
        ensures
            r@ == (NodeV { key: key@, key_quoted, ..self@ }),
    {
        let r = Node { key, key_quoted, ..self };
        assert(r@.children =~= self@.children);
        r
    }

    /// The same node with a tag.
    pub fn with_tag(self, tag: &str) -> (r: Node)
        ensures
            r@ == (NodeV { tag: tag@, ..self@ }),
    {
        let r = Node { tag: String::from_str(tag), ..self };
        assert(r@.children =~= self@.children);
        r
    }

    /// The position of the first child with the key.
    pub fn position(&self, key: &str) -> (r: Option<usize>)
        ensures
            match r {
                Some(i) => child_index(self@.children, key@, 0) == Some(i as int) && i
                    < self.children@.len(),
                None => child_index(self@.children, key@, 0) is None,
            },
    {
        let mut i: usize = 0;
        while i < self.children.len()
            invariant
                i <= self.children.len(),
                child_index(self@.children, key@, 0) == child_index(self@.children, key@, i as int),
            decreases self.children.len() - i,
        {
            proof {
                assert(self@.children[i as int] == self.children@[i as int].view());
                assert(self.children@[i as int].view().key == self.children@[i as int].key@);
            }
            if same_text(self.children[i].key.as_str(), key) {
                return Some(i);
            }
            i = i + 1;
        }
        None
    }

    /// The first child with the key.
    pub fn get(&self, key: &str) -> (r: Option<&Node>)
        ensures
            match r {
                Some(child) => child_index(self@.children, key@, 0) matches Some(i)
                    && child@ == self@.children[i],
                None => child_index(self@.children, key@, 0) is None,
            },
    {
        match self.position(key) {
            Some(i) => {
                proof {
                    assert(self@.children[i as int] == self.children@[i as int].view());
                }
                Some(&self.children[i])
            },
            None => None,
        }
    }
}

/// The views of a run of nodes.
pub open spec fn nodes_view(nodes: Seq<Node>) -> Seq<NodeV> {
    Seq::new(nodes.len(), |i: int| nodes[i]@)
}

} // verus!
