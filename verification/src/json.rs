//! The relaxed JSON-like grammar: integers, delimited strings over a
//! fixed character set (no escape sequences), booleans, `null`, arrays
//! and objects, with whitespace between tokens, trailing separators
//! accepted, and empty collections as their own production.

use vstd::prelude::*;
use vstd::string::StrSliceExecFns;

use crate::ast::ASTNode;
use crate::ast::NodeV;
use crate::ast::view_nodes;
use crate::ast::view_pairs;
use crate::combinators::Parser;
use crate::combinators::ParseResult;
use crate::scan::CharClass;
use crate::scan::describe_failure;
use crate::scan::eat_whitespace;
use crate::scan::match_literal;
use crate::scan::run_len;
use crate::scan::scan_int;
use crate::scan::skip_ws;
use crate::scan::spec_int;
use crate::scan::split_run;
use crate::scan::strip_lit;

verus! {

broadcast use
    crate::scan::lemma_skip_ws_le,
    crate::scan::lemma_run_len_le,
    crate::ast::lemma_view_nodes_len,
    crate::ast::lemma_view_nodes_index,
    crate::ast::lemma_view_pairs_len,
    crate::ast::lemma_view_pairs_index;


/// A boolean literal: `true`, else `false`.
pub open spec fn spec_bool(s: Seq<char>) -> Option<(Seq<char>, bool)> {
    match strip_lit("true"@, s) {
        Some(r) => Some((r, true)),
        None => match strip_lit("false"@, s) {
            Some(r) => Some((r, false)),
            None => None,
        },
    }
}

/// The `null` literal.
pub open spec fn spec_null(s: Seq<char>) -> Option<Seq<char>> {
    strip_lit("null"@, s)
}

/// A string literal: `"`, a run over the allowed string characters
/// (possibly empty), `"`. The content is the run.
pub open spec fn spec_string(s: Seq<char>) -> Option<(Seq<char>, Seq<char>)> {
    match strip_lit("\""@, s) {
        None => None,
        Some(t) => {
            let k = run_len(CharClass::StringChars, t) as int;
            match strip_lit("\""@, t.skip(k)) {
                None => None,
                Some(rest) => Some((rest, t.take(k))),
            }
        },
    }
}

/// Which production parses the elements of a delimited list.
#[derive(Clone, Copy, PartialEq, Eq, Structural, Debug)]
pub enum ElemKind {
    Value,
    KeyValue,
}

/// A JSON value: the ordered choice over boolean, integer, string,
/// array, object and `null`. The alternatives are mutually exclusive by
/// their leading character, so this one ordering describes every use of
/// the choice.
pub open spec fn spec_value(s: Seq<char>) -> Option<(Seq<char>, NodeV)>
    decreases s.len(), 2int,
{
    match spec_bool(s) {
        Some((r, b)) => Some((r, NodeV::Boolean(b))),
        None => match spec_int(s) {
            Some((r, v)) => Some((r, NodeV::Number(v))),
            None => match spec_string(s) {
                Some((r, t)) => Some((r, NodeV::String(t))),
                None => match spec_array(s) {
                    Some(out) => Some(out),
                    None => match spec_object(s) {
                        Some(out) => Some(out),
                        None => match spec_null(s) {
                            Some(r) => Some((r, NodeV::Null)),
                            None => None,
                        },
                    },
                },
            },
        },
    }
}

/// An array: a comma-delimited list of values in square brackets,
/// yielding a `Sequence` node.
pub open spec fn spec_array(s: Seq<char>) -> Option<(Seq<char>, NodeV)>
    decreases s.len(), 1int,
{
    match spec_delimited(s, ElemKind::Value, "["@, "]"@, ","@) {
        Some((r, items)) => Some((r, NodeV::Sequence(items))),
        None => None,
    }
}

/// Unwraps a list of `Pair` nodes into key-value tuples. The object
/// grammar only ever produces `Pair` elements, so the fallback arm is
/// never reached.
pub open spec fn pairs_of(items: Seq<NodeV>) -> Seq<(NodeV, NodeV)> {
    items.map(
        |i: int, n: NodeV|
            match n {
                NodeV::Pair(k, v) => (*k, *v),
                _ => (n, n),
            },
    )
}

/// An object: a comma-delimited list of key-value pairs in curly
/// braces, re-packaged as a `Mapping` node.
pub open spec fn spec_object(s: Seq<char>) -> Option<(Seq<char>, NodeV)>
    decreases s.len(), 1int,
{
    match spec_delimited(s, ElemKind::KeyValue, "{"@, "}"@, ","@) {
        Some((r, items)) => Some((r, NodeV::Mapping(pairs_of(items)))),
        None => None,
    }
}

/// A key-value pair: a string key, whitespace, `:`, whitespace, then a
/// value; yields a `Pair` node.
pub open spec fn spec_keyvalue(s: Seq<char>) -> Option<(Seq<char>, NodeV)>
    decreases s.len(), 0int,
{
    match spec_string(s) {
        None => None,
        Some((r1, key)) => {
            let r2 = skip_ws(r1);
            match strip_lit(":"@, r2) {
                None => None,
                Some(r3) => {
                    let r4 = skip_ws(r3);
                    if r4.len() < s.len() {
                        match spec_value(r4) {
                            None => None,
                            Some((r5, v)) => Some(
                                (r5, NodeV::Pair(Box::new(NodeV::String(key)), Box::new(v))),
                            ),
                        }
                    } else {
                        None
                    }
                },
            }
        },
    }
}

/// The element production of a delimited list.
pub open spec fn spec_elem(s: Seq<char>, elem: ElemKind) -> Option<(Seq<char>, NodeV)>
    decreases s.len(), 3int,
{
    match elem {
        ElemKind::Value => spec_value(s),
        ElemKind::KeyValue => spec_keyvalue(s),
    }
}

/// The element loop of a delimited list, after its first element: each
/// step takes whitespace, the separator, whitespace, then an element.
/// The loop ends at the first step whose separator does not parse
/// (leaving the cursor before it), or whose element does not parse
/// (leaving the cursor after that separator, which is how a trailing
/// separator before the closing literal is accepted).
pub open spec fn spec_elems(s: Seq<char>, elem: ElemKind, sep: Seq<char>) -> (Seq<char>, Seq<
    NodeV,
>)
    decreases s.len(), 0int,
{
    let q1 = skip_ws(s);
    match strip_lit(sep, q1) {
        None => (s, Seq::empty()),
        Some(q2) => {
            let q3 = skip_ws(q2);
            if q3.len() < s.len() {
                match spec_elem(q3, elem) {
                    None => (q3, Seq::empty()),
                    Some((p, n)) => if p.len() < s.len() {
                        let (fin, items) = spec_elems(p, elem, sep);
                        (fin, seq![n] + items)
                    } else {
                        (p, seq![n])
                    },
                }
            } else {
                (s, Seq::empty())
            }
        },
    }
}

/// A delimited list: `start`, then either immediately (after
/// whitespace) `end` for the empty collection, or a mandatory first
/// element, the element loop, whitespace and `end`.
pub open spec fn spec_delimited(
    s: Seq<char>,
    elem: ElemKind,
    start: Seq<char>,
    end: Seq<char>,
    sep: Seq<char>,
) -> Option<(Seq<char>, Seq<NodeV>)>
    decreases s.len(), 0int,
{
    match strip_lit(start, s) {
        None => None,
        Some(a) => {
            let b = skip_ws(a);
            match strip_lit(end, b) {
                Some(c) => Some((c, Seq::empty())),
                None => if b.len() < s.len() {
                    match spec_elem(b, elem) {
                        None => None,
                        Some((p1, n1)) => if p1.len() < s.len() {
                            let (p2, items) = spec_elems(p1, elem, sep);
                            let p3 = skip_ws(p2);
                            match strip_lit(end, p3) {
                                None => None,
                                Some(c) => Some((c, seq![n1] + items)),
                            }
                        } else {
                            None
                        },
                    }
                } else {
                    None
                },
            }
        },
    }
}

pub(crate) fn bool_str<'a>(input: &'a str) -> (r: Option<(&'a str, bool)>)
    ensures
        match spec_bool(input@) {
            Some(out) => r matches Some(p) && p.0@ == out.0 && p.1 == out.1 && p.0@.len()
                < input@.len(),
            None => r is None,
        },
{
    proof {
        reveal_strlit("true");
        reveal_strlit("false");
    }
    if let Some(rest) = match_literal(input, "true") {
        Some((rest, true))
    } else if let Some(rest) = match_literal(input, "false") {
        Some((rest, false))
    } else {
        None
    }
}

pub(crate) fn null_str<'a>(input: &'a str) -> (r: Option<&'a str>)
    ensures
        match spec_null(input@) {
            Some(out) => r matches Some(p) && p@ == out && p@.len() < input@.len(),
            None => r is None,
        },
{
    proof {
        reveal_strlit("null");
    }
    match_literal(input, "null")
}

pub(crate) fn string_str<'a>(input: &'a str) -> (r: Option<(&'a str, &'a str)>)
    ensures
        match spec_string(input@) {
            Some(out) => r matches Some(p) && p.0@ == out.0 && p.1@ == out.1 && p.0@.len()
                < input@.len(),
            None => r is None,
        },
{
    proof {
        reveal_strlit("\"");
    }
    let t = match match_literal(input, "\"") {
        None => {
            return None;
        },
        Some(t) => t,
    };
    let (u, span) = split_run(t, CharClass::StringChars);
    match match_literal(u, "\"") {
        None => None,
        Some(rest) => Some((rest, span)),
    }
}

/// Parses one JSON value, trying the alternatives in order.
pub(crate) fn value_str<'a>(input: &'a str) -> (r: Option<(&'a str, ASTNode<'a>)>)
    ensures
        match spec_value(input@) {
            Some(out) => r matches Some(p) && p.0@ == out.0 && p.1@ == out.1 && p.0@.len()
                < input@.len(),
            None => r is None,
        },
    decreases input@.len(), 2int,
{
    if let Some((rest, b)) = bool_str(input) {
        return Some((rest, ASTNode::Boolean(b)));
    }
    if let Some((rest, v)) = scan_int(input) {
        proof {
            reveal_with_fuel(run_len, 2);
        }
        return Some((rest, ASTNode::Number(v)));
    }
    if let Some((rest, span)) = string_str(input) {
        return Some((rest, ASTNode::String(span)));
    }
    if let Some((rest, node)) = array_str(input) {
        return Some((rest, node));
    }
    if let Some((rest, node)) = object_str(input) {
        return Some((rest, node));
    }
    if let Some(rest) = null_str(input) {
        return Some((rest, ASTNode::Null));
    }
    None
}

/// Parses one key-value pair into a `Pair` node.
pub(crate) fn keyvalue_str<'a>(input: &'a str) -> (r: Option<(&'a str, ASTNode<'a>)>)
    ensures
        match spec_keyvalue(input@) {
            Some(out) => r matches Some(p) && p.0@ == out.0 && p.1@ == out.1 && p.0@.len()
                < input@.len(),
            None => r is None,
        },
    decreases input@.len(), 0int,
{
    let (r1, key) = match string_str(input) {
        None => {
            return None;
        },
        Some(p) => p,
    };
    let r2 = eat_whitespace(r1);
    let r3 = match match_literal(r2, ":") {
        None => {
            return None;
        },
        Some(t) => t,
    };
    let r4 = eat_whitespace(r3);
    let (r5, v) = match value_str(r4) {
        None => {
            return None;
        },
        Some(p) => p,
    };
    let node = ASTNode::Pair(Box::new(ASTNode::String(key)), Box::new(v));
    proof {
        reveal_with_fuel(<ASTNode as View>::view, 3);
    }
    Some((r5, node))
}

/// The element production of a delimited list, as executable code.
fn elem_str<'a>(input: &'a str, elem: ElemKind) -> (r: Option<(&'a str, ASTNode<'a>)>)
    ensures
        match spec_elem(input@, elem) {
            Some(out) => r matches Some(p) && p.0@ == out.0 && p.1@ == out.1 && p.0@.len()
                < input@.len(),
            None => r is None,
        },
    decreases input@.len(), 3int,
{
    match elem {
        ElemKind::Value => value_str(input),
        ElemKind::KeyValue => keyvalue_str(input),
    }
}

/// Parses a whole delimited list and returns the elements in order.
pub(crate) fn parse_delimited<'a>(
    input: &'a str,
    elem: ElemKind,
    start_literal: &str,
    end_literal: &str,
    separator: &str,
) -> (r: Option<(&'a str, Vec<ASTNode<'a>>)>)
    ensures
        match spec_delimited(input@, elem, start_literal@, end_literal@, separator@) {
            Some(out) => r matches Some(p) && p.0@ == out.0 && view_nodes(p.1@) == out.1
                && p.0@.len() + start_literal@.len() <= input@.len(),
            None => r is None,
        },
    decreases input@.len(), 0int,
{
    let a = match match_literal(input, start_literal) {
        None => {
            return None;
        },
        Some(t) => t,
    };
    let b = eat_whitespace(a);
    if let Some(c) = match_literal(b, end_literal) {
        proof {
            reveal_with_fuel(view_nodes, 2);
            assert(view_nodes(Seq::<ASTNode>::empty()) =~= Seq::<NodeV>::empty());
        }
        return Some((c, Vec::new()));
    }
    if b.unicode_len() >= input.unicode_len() {
        return None;
    }
    let (p1, n1) = match elem_str(b, elem) {
        None => {
            return None;
        },
        Some(p) => p,
    };
    let ghost n1v = n1@;
    let ghost base = spec_elems(p1@, elem, separator@);
    let mut elements: Vec<ASTNode<'a>> = Vec::new();
    elements.push(n1);
    let mut cur: &'a str = p1;
    proof {
        reveal_with_fuel(view_nodes, 2);
        assert(view_nodes(elements@) =~= seq![n1v]);
    }
    loop
        invariant_except_break
            base.0 == spec_elems(cur@, elem, separator@).0,
            base.1 == view_nodes(elements@).skip(1) + spec_elems(cur@, elem, separator@).1,
        invariant
            cur@.len() < input@.len(),
            cur@.len() <= a@.len(),
            elements@.len() >= 1,
            view_nodes(elements@)[0] == n1v,
            base == spec_elems(p1@, elem, separator@),
        ensures
            base.0 == cur@,
            base.1 == view_nodes(elements@).skip(1),
            elements@.len() >= 1,
            view_nodes(elements@)[0] == n1v,
            cur@.len() < input@.len(),
            cur@.len() <= a@.len(),
        decreases cur@.len(),
    {
        proof {
            reveal_with_fuel(spec_elems, 2);
        }
        let q1 = eat_whitespace(cur);
        let q2 = match match_literal(q1, separator) {
            None => {
                break ;
            },
            Some(t) => t,
        };
        let q3 = eat_whitespace(q2);
        if q3.unicode_len() >= cur.unicode_len() {
            break ;
        }
        match elem_str(q3, elem) {
            None => {
                cur = q3;
                break ;
            },
            Some((p, n)) => {
                proof {
                    reveal_with_fuel(view_nodes, 2);
                    assert(elements@.push(n).drop_last() =~= elements@);
                    assert(view_nodes(elements@.push(n)) =~= view_nodes(elements@).push(n@));
                    assert(view_nodes(elements@.push(n)).skip(1) =~= view_nodes(
                        elements@,
                    ).skip(1).push(n@));
                    assert(view_nodes(elements@).skip(1).push(n@) + spec_elems(
                        p@,
                        elem,
                        separator@,
                    ).1 =~= view_nodes(elements@).skip(1) + (seq![n@] + spec_elems(
                        p@,
                        elem,
                        separator@,
                    ).1));
                }
                elements.push(n);
                cur = p;
            },
        }
    }
    let p3 = eat_whitespace(cur);
    match match_literal(p3, end_literal) {
        None => None,
        Some(c) => {
            proof {
                assert(seq![n1v] + view_nodes(elements@).skip(1) =~= view_nodes(elements@));
            }
            Some((c, elements))
        },
    }
}

/// Parses an array into a `Sequence` node.
pub(crate) fn array_str<'a>(input: &'a str) -> (r: Option<(&'a str, ASTNode<'a>)>)
    ensures
        match spec_array(input@) {
            Some(out) => r matches Some(p) && p.0@ == out.0 && p.1@ == out.1 && p.0@.len()
                < input@.len(),
            None => r is None,
        },
    decreases input@.len(), 1int,
{
    proof {
        reveal_strlit("[");
        reveal_strlit("]");
        reveal_strlit(",");
    }
    match parse_delimited(input, ElemKind::Value, "[", "]", ",") {
        None => None,
        Some((rest, items)) => Some((rest, ASTNode::Sequence(items))),
    }
}

/// Every element that the key-value element loop yields is a `Pair`.
proof fn lemma_elems_pairs(s: Seq<char>, sep: Seq<char>)
    ensures
        forall|i: int|
            0 <= i < spec_elems(s, ElemKind::KeyValue, sep).1.len() ==> spec_elems(
                s,
                ElemKind::KeyValue,
                sep,
            ).1[i] is Pair,
    decreases s.len(),
{
    reveal_with_fuel(spec_elems, 2);
    let q1 = skip_ws(s);
    match strip_lit(sep, q1) {
        None => {},
        Some(q2) => {
            let q3 = skip_ws(q2);
            if q3.len() < s.len() {
                match spec_elem(q3, ElemKind::KeyValue) {
                    None => {},
                    Some((p, n)) => {
                        assert(n is Pair);
                        if p.len() < s.len() {
                            lemma_elems_pairs(p, sep);
                            assert forall|i: int|
                                0 <= i < spec_elems(s, ElemKind::KeyValue, sep).1.len()
                                    implies spec_elems(s, ElemKind::KeyValue, sep).1[i]
                                is Pair by {
                                if i > 0 {
                                    assert(spec_elems(s, ElemKind::KeyValue, sep).1[i]
                                        == spec_elems(p, ElemKind::KeyValue, sep).1[i - 1]);
                                }
                            }
                        }
                    },
                }
            }
        },
    }
}

/// Every element of a parsed key-value list is a `Pair`.
proof fn lemma_delimited_kv_pairs(s: Seq<char>, start: Seq<char>, end: Seq<char>, sep: Seq<char>)
    ensures
        match spec_delimited(s, ElemKind::KeyValue, start, end, sep) {
            Some(out) => forall|i: int| 0 <= i < out.1.len() ==> out.1[i] is Pair,
            None => true,
        },
{
    match strip_lit(start, s) {
        None => {},
        Some(a) => {
            let b = skip_ws(a);
            match strip_lit(end, b) {
                Some(c) => {},
                None => {
                    if b.len() < s.len() {
                        match spec_elem(b, ElemKind::KeyValue) {
                            None => {},
                            Some((p1, n1)) => {
                                assert(n1 is Pair);
                                if p1.len() < s.len() {
                                    lemma_elems_pairs(p1, sep);
                                }
                            },
                        }
                    }
                },
            }
        },
    }
}

/// Parses an object into a `Mapping` node, unwrapping the intermediate
/// `Pair` elements; the grammar guarantees (and the proof shows) that
/// nothing but a `Pair` can appear.
pub(crate) fn object_str<'a>(input: &'a str) -> (r: Option<(&'a str, ASTNode<'a>)>)
    ensures
        match spec_object(input@) {
            Some(out) => r matches Some(p) && p.0@ == out.0 && p.1@ == out.1 && p.0@.len()
                < input@.len(),
            None => r is None,
        },
    decreases input@.len(), 1int,
{
    proof {
        reveal_strlit("{");
        reveal_strlit("}");
        reveal_strlit(",");
    }
    let (rest, items) = match parse_delimited(input, ElemKind::KeyValue, "{", "}", ",") {
        None => {
            return None;
        },
        Some(p) => p,
    };
    let ghost items_v = view_nodes(items@);
    proof {
        lemma_delimited_kv_pairs(input@, "{"@, "}"@, ","@);
    }
    let mut pairs: Vec<(ASTNode<'a>, ASTNode<'a>)> = Vec::new();
    let mut remaining = items;
    while remaining.len() > 0
        invariant
            pairs@.len() + remaining@.len() == items_v.len(),
            view_nodes(remaining@) == items_v.skip(pairs@.len() as int),
            view_pairs(pairs@) == pairs_of(items_v).take(pairs@.len() as int),
            forall|i: int| 0 <= i < items_v.len() ==> items_v[i] is Pair,
        decreases remaining@.len(),
    {
        let ghost old_remaining = remaining@;
        let ghost old_pairs = pairs@;
        let node = remaining.remove(0);
        proof {
            assert(node@ == view_nodes(old_remaining)[0]);
            assert(node@ == items_v[old_pairs.len() as int]);
        }
        match node {
            ASTNode::Pair(k, v) => {
                let pair = (*k, *v);
                proof {
                    reveal_with_fuel(<ASTNode as View>::view, 2);
                    assert(node@ == NodeV::Pair(Box::new(pair.0@), Box::new(pair.1@)));
                }
                pairs.push(pair);
                proof {
                    let k = old_pairs.len() as int;
                    assert forall|j: int| 0 <= j < remaining@.len() implies view_nodes(
                        remaining@,
                    )[j] == items_v.skip(k + 1)[j] by {
                        assert(remaining@[j] == old_remaining[j + 1]);
                        assert(view_nodes(old_remaining)[j + 1] == old_remaining[j + 1]@);
                        assert(view_nodes(old_remaining)[j + 1] == items_v.skip(k)[j + 1]);
                    }
                    assert(view_nodes(remaining@) =~= items_v.skip(pairs@.len() as int));
                    assert(pairs_of(items_v)[k] == (pair.0@, pair.1@));
                    assert forall|j: int| 0 <= j < pairs@.len() implies view_pairs(pairs@)[j]
                        == pairs_of(items_v).take(k + 1)[j] by {
                        if j < k {
                            assert(pairs@[j] == old_pairs[j]);
                            assert(view_pairs(old_pairs)[j] == (old_pairs[j].0@, old_pairs[j].1@));
                            assert(view_pairs(old_pairs)[j] == pairs_of(items_v).take(k)[j]);
                        } else {
                            assert(pairs@[j] == pair);
                        }
                    }
                    assert(view_pairs(pairs@) =~= pairs_of(items_v).take(pairs@.len() as int));
                }
            },
            _ => {
                proof {
                    assert(node@ is Pair);
                    assert(false);
                }
                return None;
            },
        }
    }
    proof {
        assert(pairs_of(items_v).take(pairs@.len() as int) =~= pairs_of(items_v));
    }
    Some((rest, ASTNode::Mapping(pairs)))
}

/// Parses a string literal into a `String` fragment.
pub struct StringParser();

impl Parser for StringParser {
    open spec fn spec_parse(&self, s: Seq<char>) -> Option<(Seq<char>, Option<NodeV>)> {
        match spec_string(s) {
            Some((r, t)) => Some((r, Some(NodeV::String(t)))),
            None => None,
        }
    }

    fn parse<'i>(&self, input: &'i str) -> (r: ParseResult<'i>) {
        match string_str(input) {
            Some((rest, span)) => Ok((rest, Some(ASTNode::String(span)))),
            None => Err(describe_failure("no string literal at: ", input)),
        }
    }
}

/// Parses `true` or `false` into a `Boolean` fragment.
pub struct BooleanParser();

impl Parser for BooleanParser {
    open spec fn spec_parse(&self, s: Seq<char>) -> Option<(Seq<char>, Option<NodeV>)> {
        match spec_bool(s) {
            Some((r, b)) => Some((r, Some(NodeV::Boolean(b)))),
            None => None,
        }
    }

    fn parse<'i>(&self, input: &'i str) -> (r: ParseResult<'i>) {
        match bool_str(input) {
            Some((rest, b)) => Ok((rest, Some(ASTNode::Boolean(b)))),
            None => Err(describe_failure("neither true nor false at: ", input)),
        }
    }
}

/// Parses the `null` literal into a `Null` fragment.
pub struct NullParser();

impl Parser for NullParser {
    open spec fn spec_parse(&self, s: Seq<char>) -> Option<(Seq<char>, Option<NodeV>)> {
        match spec_null(s) {
            Some(r) => Some((r, Some(NodeV::Null))),
            None => None,
        }
    }

    fn parse<'i>(&self, input: &'i str) -> (r: ParseResult<'i>) {
        match null_str(input) {
            Some(rest) => Ok((rest, Some(ASTNode::Null))),
            None => Err(describe_failure("input did not match null at: ", input)),
        }
    }
}

/// Parses an array into a `Sequence` fragment.
pub struct ArrayParser();

impl Parser for ArrayParser {
    open spec fn spec_parse(&self, s: Seq<char>) -> Option<(Seq<char>, Option<NodeV>)> {
        match spec_array(s) {
            Some((r, node)) => Some((r, Some(node))),
            None => None,
        }
    }

    fn parse<'i>(&self, input: &'i str) -> (r: ParseResult<'i>) {
        match array_str(input) {
            Some((rest, node)) => Ok((rest, Some(node))),
            None => Err(describe_failure("no array at: ", input)),
        }
    }
}

/// Parses an object into a `Mapping` fragment.
pub struct ObjectParser();

impl Parser for ObjectParser {
    open spec fn spec_parse(&self, s: Seq<char>) -> Option<(Seq<char>, Option<NodeV>)> {
        match spec_object(s) {
            Some((r, node)) => Some((r, Some(node))),
            None => None,
        }
    }

    fn parse<'i>(&self, input: &'i str) -> (r: ParseResult<'i>) {
        match object_str(input) {
            Some((rest, node)) => Ok((rest, Some(node))),
            None => Err(describe_failure("no object at: ", input)),
        }
    }
}

/// Parses a key-value pair into a `Pair` fragment.
pub struct KeyValueParser();

impl Parser for KeyValueParser {
    open spec fn spec_parse(&self, s: Seq<char>) -> Option<(Seq<char>, Option<NodeV>)> {
        match spec_keyvalue(s) {
            Some((r, node)) => Some((r, Some(node))),
            None => None,
        }
    }

    fn parse<'i>(&self, input: &'i str) -> (r: ParseResult<'i>) {
        match keyvalue_str(input) {
            Some((rest, node)) => Ok((rest, Some(node))),
            None => Err(describe_failure("no key-value pair at: ", input)),
        }
    }
}

} // verus!
