//! The final structural conversion from the generic syntax tree into a
//! dedicated JSON value type, and the top-level `loads` entry point.

use vstd::prelude::*;
use vstd::string::StrSliceExecFns;
use vstd::string::StringExecFns;

use crate::ast::ASTNode;
use crate::ast::NodeV;
use crate::ast::NumberType;
use crate::ast::view_nodes;
use crate::ast::view_pairs;
use crate::json::spec_value;
use crate::json::value_str;
use crate::scan::describe_failure;
use crate::scan::eat_whitespace;
use crate::scan::skip_ws;

verus! {

broadcast use
    crate::ast::lemma_view_nodes_len,
    crate::ast::lemma_view_nodes_index,
    crate::ast::lemma_view_pairs_len,
    crate::ast::lemma_view_pairs_index;

/// Mathematical view of a JSON value: an object is a map from key text
/// to values, an array a sequence of values.
#[verifier::ext_equal]
pub enum JsonV {
    Object(Map<Seq<char>, JsonV>),
    Array(Seq<JsonV>),
    String(Seq<char>),
    Number(int),
    Boolean(bool),
    Null,
}

/// A JSON value. An object holds its entries in insertion order; its
/// view is the map built by inserting them in that order, so a later
/// entry with the same key wins.
#[derive(PartialEq, Eq, Debug)]
pub enum JSONElement {
    Object(Vec<(String, JSONElement)>),
    Array(Vec<JSONElement>),
    String(String),
    Number(NumberType),
    Boolean(bool),
    Null,
}

/// View of a list of JSON values, in order.
pub open spec fn view_elems(s: Seq<JSONElement>) -> Seq<JsonV>
    decreases s,
{
    if s.len() == 0 {
        Seq::empty()
    } else {
        view_elems(s.drop_last()).push(s.last()@)
    }
}

/// The map that a list of object entries denotes: entries are inserted
/// in order, so the last entry with a given key wins.
pub open spec fn map_of_entries(s: Seq<(String, JSONElement)>) -> Map<Seq<char>, JsonV>
    decreases s,
{
    if s.len() == 0 {
        Map::empty()
    } else {
        map_of_entries(s.drop_last()).insert(s.last().0@, s.last().1@)
    }
}

impl View for JSONElement {
    type V = JsonV;

    open spec fn view(&self) -> JsonV
        decreases self,
    {
        match self {
            JSONElement::Object(entries) => JsonV::Object(map_of_entries(entries@)),
            JSONElement::Array(items) => JsonV::Array(view_elems(items@)),
            JSONElement::String(s) => JsonV::String(s@),
            JSONElement::Number(n) => JsonV::Number(*n as int),
            JSONElement::Boolean(b) => JsonV::Boolean(*b),
            JSONElement::Null => JsonV::Null,
        }
    }
}

pub broadcast proof fn lemma_view_elems_len(s: Seq<JSONElement>)
    ensures
        #[trigger] view_elems(s).len() == s.len(),
    decreases s,
{
    reveal_with_fuel(view_elems, 2);
    if s.len() > 0 {
        lemma_view_elems_len(s.drop_last());
    }
}

/// Converting a syntax-tree node into a JSON value: `Number`, `String`,
/// `Boolean` and `Null` map directly; a `Sequence` becomes an array
/// when all of its items convert; a `Mapping` becomes an object when
/// every key is a `String` node and every value converts; a bare `Pair`
/// does not convert.
pub open spec fn spec_convert(node: NodeV) -> Option<JsonV>
    decreases node,
{
    match node {
        NodeV::Number(n) => Some(JsonV::Number(n)),
        NodeV::String(s) => Some(JsonV::String(s)),
        NodeV::Boolean(b) => Some(JsonV::Boolean(b)),
        NodeV::Null => Some(JsonV::Null),
        NodeV::Pair(_, _) => None,
        NodeV::Sequence(items) => match spec_convert_seq(items) {
            Some(vs) => Some(JsonV::Array(vs)),
            None => None,
        },
        NodeV::Mapping(pairs) => match spec_convert_map(pairs) {
            Some(m) => Some(JsonV::Object(m)),
            None => None,
        },
    }
}

pub open spec fn spec_convert_seq(items: Seq<NodeV>) -> Option<Seq<JsonV>>
    decreases items,
{
    if items.len() == 0 {
        Some(Seq::empty())
    } else {
        match spec_convert_seq(items.drop_last()) {
            None => None,
            Some(vs) => match spec_convert(items.last()) {
                None => None,
                Some(v) => Some(vs.push(v)),
            },
        }
    }
}

pub open spec fn spec_convert_map(pairs: Seq<(NodeV, NodeV)>) -> Option<Map<Seq<char>, JsonV>>
    decreases pairs,
{
    if pairs.len() == 0 {
        Some(Map::empty())
    } else {
        match spec_convert_map(pairs.drop_last()) {
            None => None,
            Some(m) => match pairs.last().0 {
                NodeV::String(key) => match spec_convert(pairs.last().1) {
                    None => None,
                    Some(v) => Some(m.insert(key, v)),
                },
                _ => None,
            },
        }
    }
}

proof fn lemma_convert_seq_none_extends(s: Seq<NodeV>, k: int)
    requires
        0 <= k <= s.len(),
        spec_convert_seq(s.take(k)) is None,
    ensures
        spec_convert_seq(s) is None,
    decreases s.len(),
{
    reveal_with_fuel(spec_convert_seq, 2);
    if k < s.len() {
        assert(s.take(k) =~= s.drop_last().take(k));
        lemma_convert_seq_none_extends(s.drop_last(), k);
    } else {
        assert(s.take(k) =~= s);
    }
}

proof fn lemma_convert_map_none_extends(s: Seq<(NodeV, NodeV)>, k: int)
    requires
        0 <= k <= s.len(),
        spec_convert_map(s.take(k)) is None,
    ensures
        spec_convert_map(s) is None,
    decreases s.len(),
{
    reveal_with_fuel(spec_convert_map, 2);
    if k < s.len() {
        assert(s.take(k) =~= s.drop_last().take(k));
        lemma_convert_map_none_extends(s.drop_last(), k);
    } else {
        assert(s.take(k) =~= s);
    }
}

/// Converts a syntax-tree node into a JSON value, failing exactly where
/// the model says conversion fails: on a bare `Pair`, or on a `Mapping`
/// whose key is not textual.
pub fn convert<'i>(node: &ASTNode<'i>) -> (r: Result<JSONElement, String>)
    ensures
        match spec_convert(node@) {
            Some(v) => r matches Ok(e) && e@ == v,
            None => r is Err,
        },
    decreases *node,
{
    match node {
        ASTNode::Number(n) => Ok(JSONElement::Number(*n)),
        ASTNode::String(s) => Ok(JSONElement::String(String::from_str(s))),
        ASTNode::Boolean(b) => Ok(JSONElement::Boolean(*b)),
        ASTNode::Null => Ok(JSONElement::Null),
        ASTNode::Pair(_, _) => Err(String::from_str("conversion failed: bare key-value pair")),
        ASTNode::Sequence(items) => {
            let ghost nv = view_nodes(items@);
            let mut out: Vec<JSONElement> = Vec::new();
            let mut i: usize = 0;
            proof {
                reveal_with_fuel(spec_convert_seq, 2);
                assert(nv.take(0) =~= Seq::<NodeV>::empty());
                assert(view_elems(Seq::<JSONElement>::empty()) =~= Seq::<JsonV>::empty());
            }
            while i < items.len()
                invariant
                    0 <= i <= items@.len(),
                    *node == ASTNode::Sequence(*items),
                    node@ == NodeV::Sequence(nv),
                    nv == view_nodes(items@),
                    nv.len() == items@.len(),
                    spec_convert_seq(nv.take(i as int)) == Some(view_elems(out@)),
                decreases items@.len() - i,
            {
                proof {
                    reveal_with_fuel(spec_convert_seq, 2);
                    reveal_with_fuel(view_elems, 2);
                    assert(nv.take(i + 1).drop_last() =~= nv.take(i as int));
                    assert(nv.take(i + 1).last() == items@[i as int]@);
                }
                let child = &items[i];
                match convert(child) {
                    Err(e) => {
                        proof {
                            lemma_convert_seq_none_extends(nv, i + 1);
                        }
                        return Err(e);
                    },
                    Ok(v) => {
                        proof {
                            lemma_view_elems_len(out@);
                            assert(out@.push(v).drop_last() =~= out@);
                        }
                        out.push(v);
                    },
                }
                i = i + 1;
            }
            proof {
                assert(nv.take(items@.len() as int) =~= nv);
            }
            Ok(JSONElement::Array(out))
        },
        ASTNode::Mapping(pairs) => {
            let ghost pv = view_pairs(pairs@);
            let mut out: Vec<(String, JSONElement)> = Vec::new();
            let mut i: usize = 0;
            proof {
                reveal_with_fuel(spec_convert_map, 2);
                assert(pv.take(0) =~= Seq::<(NodeV, NodeV)>::empty());
                assert(map_of_entries(Seq::<(String, JSONElement)>::empty()) =~= Map::<
                    Seq<char>,
                    JsonV,
                >::empty());
            }
            while i < pairs.len()
                invariant
                    0 <= i <= pairs@.len(),
                    *node == ASTNode::Mapping(*pairs),
                    node@ == NodeV::Mapping(pv),
                    pv == view_pairs(pairs@),
                    pv.len() == pairs@.len(),
                    spec_convert_map(pv.take(i as int)) == Some(map_of_entries(out@)),
                decreases pairs@.len() - i,
            {
                proof {
                    reveal_with_fuel(spec_convert_map, 2);
                    reveal_with_fuel(map_of_entries, 2);
                    assert(pv.take(i + 1).drop_last() =~= pv.take(i as int));
                    assert(pv.take(i + 1).last() == (pairs@[i as int].0@, pairs@[i as int].1@));
                }
                let entry = &pairs[i];
                let key: &str = match &entry.0 {
                    ASTNode::String(s) => *s,
                    _ => {
                        proof {
                            lemma_convert_map_none_extends(pv, i + 1);
                        }
                        return Err(
                            String::from_str("conversion failed: a mapping key was not a string"),
                        );
                    },
                };
                match convert(&entry.1) {
                    Err(e) => {
                        proof {
                            lemma_convert_map_none_extends(pv, i + 1);
                        }
                        return Err(e);
                    },
                    Ok(v) => {
                        let owned = (String::from_str(key), v);
                        proof {
                            assert(out@.push(owned).drop_last() =~= out@);
                        }
                        out.push(owned);
                    },
                }
                i = i + 1;
            }
            proof {
                assert(pv.take(pairs@.len() as int) =~= pv);
            }
            Ok(JSONElement::Object(out))
        },
    }
}

/// Parses one JSON document: optional whitespace, one value, optional
/// whitespace. Fails with a syntax message when no value parses, with a
/// trailing-data message when input remains after the value, and with a
/// conversion message where the tree does not convert (which the
/// grammar never produces).
pub fn loads(s: &str) -> (r: Result<JSONElement, String>)
    ensures
        ({
            let t1 = skip_ws(s@);
            match spec_value(t1) {
                None => r is Err,
                Some((t2, node)) => {
                    let t3 = skip_ws(t2);
                    if t3.len() > 0 {
                        r matches Err(e) && e@ == "Trailing data: "@ + t3
                    } else {
                        match spec_convert(node) {
                            Some(v) => r matches Ok(el) && el@ == v,
                            None => r is Err,
                        }
                    }
                },
            }
        }),
{
    let t1 = eat_whitespace(s);
    let (t2, node) = match value_str(t1) {
        None => {
            return Err(describe_failure("no JSON value at: ", t1));
        },
        Some(p) => p,
    };
    let t3 = eat_whitespace(t2);
    if t3.unicode_len() > 0 {
        let mut m = String::from_str("Trailing data: ");
        m.append(t3);
        return Err(m);
    }
    convert(&node)
}

} // verus!
