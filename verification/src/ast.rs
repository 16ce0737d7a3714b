//! The tagged tree type that every parser produces, and its
//! mathematical view.

use vstd::prelude::*;

verus! {

/// The bounded integer type that `Number` nodes carry.
pub type NumberType = i32;

/// Mathematical view of a syntax-tree node: numbers are unbounded
/// integers, text is a sequence of characters, and the containers are
/// sequences of views.
#[verifier::ext_equal]
pub enum NodeV {
    Number(int),
    String(Seq<char>),
    Sequence(Seq<NodeV>),
    Mapping(Seq<(NodeV, NodeV)>),
    Pair(Box<NodeV>, Box<NodeV>),
    Boolean(bool),
    Null,
}

/// A syntax-tree node. `String` borrows the span of the input it was
/// parsed from; containers own their children. A node is immutable once
/// built.
#[derive(Debug, PartialEq, Eq)]
pub enum ASTNode<'i> {
    Number(NumberType),
    String(&'i str),
    Sequence(Vec<ASTNode<'i>>),
    Mapping(Vec<(ASTNode<'i>, ASTNode<'i>)>),
    Pair(Box<ASTNode<'i>>, Box<ASTNode<'i>>),
    Boolean(bool),
    Null,
}

/// View of a list of nodes, in order.
pub open spec fn view_nodes(s: Seq<ASTNode>) -> Seq<NodeV>
    decreases s,
{
    if s.len() == 0 {
        Seq::empty()
    } else {
        view_nodes(s.drop_last()).push(s.last()@)
    }
}

/// View of a list of key-value node pairs, in order.
pub open spec fn view_pairs(s: Seq<(ASTNode, ASTNode)>) -> Seq<(NodeV, NodeV)>
    decreases s,
{
    if s.len() == 0 {
        Seq::empty()
    } else {
        view_pairs(s.drop_last()).push((s.last().0@, s.last().1@))
    }
}

impl<'i> View for ASTNode<'i> {
    type V = NodeV;

    open spec fn view(&self) -> NodeV
        decreases self,
    {
        match self {
            ASTNode::Number(n) => NodeV::Number(*n as int),
            ASTNode::String(s) => NodeV::String(s@),
            ASTNode::Sequence(items) => NodeV::Sequence(view_nodes(items@)),
            ASTNode::Mapping(pairs) => NodeV::Mapping(view_pairs(pairs@)),
            ASTNode::Pair(k, v) => NodeV::Pair(Box::new((**k)@), Box::new((**v)@)),
            ASTNode::Boolean(b) => NodeV::Boolean(*b),
            ASTNode::Null => NodeV::Null,
        }
    }
}

pub broadcast proof fn lemma_view_nodes_len(s: Seq<ASTNode>)
    ensures
        #[trigger] view_nodes(s).len() == s.len(),
    decreases s,
{
    reveal_with_fuel(view_nodes, 2);
    if s.len() > 0 {
        lemma_view_nodes_len(s.drop_last());
    }
}

pub broadcast proof fn lemma_view_nodes_index(s: Seq<ASTNode>, k: int)
    requires
        0 <= k < s.len(),
    ensures
        #[trigger] view_nodes(s)[k] == s[k]@,
    decreases s,
{
    reveal_with_fuel(view_nodes, 2);
    lemma_view_nodes_len(s);
    if s.len() > 0 {
        lemma_view_nodes_len(s.drop_last());
        if k < s.len() - 1 {
            lemma_view_nodes_index(s.drop_last(), k);
        }
    }
}

pub broadcast proof fn lemma_view_pairs_len(s: Seq<(ASTNode, ASTNode)>)
    ensures
        #[trigger] view_pairs(s).len() == s.len(),
    decreases s,
{
    reveal_with_fuel(view_pairs, 2);
    if s.len() > 0 {
        lemma_view_pairs_len(s.drop_last());
    }
}

pub broadcast proof fn lemma_view_pairs_index(s: Seq<(ASTNode, ASTNode)>, k: int)
    requires
        0 <= k < s.len(),
    ensures
        #[trigger] view_pairs(s)[k] == (s[k].0@, s[k].1@),
    decreases s,
{
    reveal_with_fuel(view_pairs, 2);
    lemma_view_pairs_len(s);
    if s.len() > 0 {
        lemma_view_pairs_len(s.drop_last());
        if k < s.len() - 1 {
            lemma_view_pairs_index(s.drop_last(), k);
        }
    }
}

/// Wraps a borrowed key and an already-built value into a `Pair` node.
pub fn make_pair<'a>(key: &'a str, value: ASTNode<'a>) -> (r: ASTNode<'a>)
    ensures
        r@ == NodeV::Pair(Box::new(NodeV::String(key@)), Box::new(value@)),
{
    let r = ASTNode::Pair(Box::new(ASTNode::String(key)), Box::new(value));
    proof {
        reveal_with_fuel(<ASTNode as View>::view, 3);
    }
    r
}

} // verus!
