//! The parsing capability that every parser implements, and the
//! generic combinators: literal match, optional, greedy repetition,
//! ordered sequence with interleaved whitespace, and ordered choice.
//!
//! Each parser carries a specification function `spec_parse` that maps
//! an input to the exact outcome (remainder and optional fragment, or
//! failure), and `parse` is proved to return exactly that outcome.

use vstd::prelude::*;
use vstd::string::StrSliceExecFns;

use crate::ast::ASTNode;
use crate::ast::NodeV;
use crate::ast::view_nodes;
use crate::scan::describe_failure;
use crate::scan::eat_whitespace;
use crate::scan::match_literal;
use crate::scan::skip_ws;
use crate::scan::spec_int;
use crate::scan::strip_lit;

verus! {

broadcast use
    crate::ast::lemma_view_nodes_len,
    crate::ast::lemma_view_nodes_index;

/// Parse failures are returned as descriptive messages.
pub type ErrorType = String;

/// A successful parse: the unconsumed remainder of the input, plus an
/// optional tree fragment (punctuation and whitespace produce none).
pub type ParseOutput<'i> = (&'i str, Option<ASTNode<'i>>);

pub type ParseResult<'i> = Result<ParseOutput<'i>, ErrorType>;

/// View of an optional fragment.
pub open spec fn opt_node_view(o: Option<ASTNode>) -> Option<NodeV> {
    match o {
        Some(n) => Some(n@),
        None => None,
    }
}

/// The parsing capability. A parser consumes a prefix of the input and
/// either returns the remainder plus an optional fragment, or fails
/// with a message and no visible consumption. `spec_parse` is the
/// parser's exact mathematical description, and `parse` must realize
/// it: it returns `Ok` on precisely the inputs where `spec_parse`
/// succeeds, with exactly the specified remainder and fragment.
pub trait Parser {
    spec fn spec_parse(&self, s: Seq<char>) -> Option<(Seq<char>, Option<NodeV>)>;

    fn parse<'i>(&self, input: &'i str) -> (r: ParseResult<'i>)
        ensures
            match self.spec_parse(input@) {
                Some(out) => r matches Ok(o) && o.0@ == out.0 && opt_node_view(o.1) == out.1,
                None => r is Err,
            },
    ;
}

/// Succeeds exactly when the input starts with the fixed literal;
/// consumes it and produces no fragment.
pub struct LiteralParser(pub &'static str);

impl Parser for LiteralParser {
    open spec fn spec_parse(&self, s: Seq<char>) -> Option<(Seq<char>, Option<NodeV>)> {
        match strip_lit(self.0@, s) {
            Some(rest) => Some((rest, None)),
            None => None,
        }
    }

    fn parse<'i>(&self, input: &'i str) -> (r: ParseResult<'i>) {
        match match_literal(input, self.0) {
            Some(rest) => Ok((rest, None)),
            None => Err(describe_failure("expected literal was not found at: ", input)),
        }
    }
}

/// Consumes the maximal run of spaces and newlines; always succeeds and
/// never produces a fragment.
pub struct WhitespaceParser();

impl Parser for WhitespaceParser {
    open spec fn spec_parse(&self, s: Seq<char>) -> Option<(Seq<char>, Option<NodeV>)> {
        Some((skip_ws(s), None))
    }

    fn parse<'i>(&self, input: &'i str) -> (r: ParseResult<'i>) {
        Ok((eat_whitespace(input), None))
    }
}

/// Wraps another parser; on its failure, succeeds with no consumption
/// and no fragment. Never fails.
pub struct OptionParser<T: Parser>(pub T);

impl<T: Parser> Parser for OptionParser<T> {
    open spec fn spec_parse(&self, s: Seq<char>) -> Option<(Seq<char>, Option<NodeV>)> {
        match self.0.spec_parse(s) {
            Some(out) => Some(out),
            None => Some((s, None)),
        }
    }

    fn parse<'i>(&self, input: &'i str) -> (r: ParseResult<'i>) {
        match self.0.parse(input) {
            Ok(out) => Ok(out),
            Err(_) => Ok((input, None)),
        }
    }
}

/// What greedy repetition of a parser yields: the remainder after the
/// last application that both succeeded and consumed input, and the
/// fragments collected along the way. An application that succeeds
/// without consuming anything ends the run, so that repetition is
/// always well defined.
pub open spec fn spec_repeat_items<T: Parser>(p: T, s: Seq<char>) -> (Seq<char>, Seq<NodeV>)
    decreases s.len(),
{
    match p.spec_parse(s) {
        None => (s, Seq::empty()),
        Some((rest, frag)) => if rest.len() < s.len() {
            let (fin, items) = spec_repeat_items(p, rest);
            (
                fin,
                match frag {
                    Some(nv) => seq![nv] + items,
                    None => items,
                },
            )
        } else {
            (s, Seq::empty())
        },
    }
}

/// Greedily applies the wrapped parser until it fails, collecting the
/// produced fragments into a `Sequence`; with zero collected fragments
/// it produces no fragment at all. Never fails.
pub struct RepeatParser<T: Parser>(pub T);

impl<T: Parser> Parser for RepeatParser<T> {
    open spec fn spec_parse(&self, s: Seq<char>) -> Option<(Seq<char>, Option<NodeV>)> {
        let (fin, items) = spec_repeat_items(self.0, s);
        Some(
            (
                fin,
                if items.len() > 0 {
                    Some(NodeV::Sequence(items))
                } else {
                    None
                },
            ),
        )
    }

    fn parse<'i>(&self, input: &'i str) -> (r: ParseResult<'i>) {
        let mut seq: Vec<ASTNode<'i>> = Vec::new();
        let mut curr_string: &'i str = input;
        loop
            invariant
                spec_repeat_items(self.0, input@).0 == spec_repeat_items(self.0, curr_string@).0,
                spec_repeat_items(self.0, input@).1 == view_nodes(seq@) + spec_repeat_items(
                    self.0,
                    curr_string@,
                ).1,
            ensures
                spec_repeat_items(self.0, curr_string@) == (curr_string@, Seq::<NodeV>::empty()),
            decreases curr_string@.len(),
        {
            proof {
                reveal_with_fuel(spec_repeat_items, 2);
            }
            let prior_len = curr_string.unicode_len();
            match self.0.parse(curr_string) {
                Err(_) => {
                    break ;
                },
                Ok((nxt, node)) => {
                    if nxt.unicode_len() < prior_len {
                        if let Some(node) = node {
                            proof {
                                reveal_with_fuel(view_nodes, 2);
                                crate::ast::lemma_view_nodes_len(seq@);
                                assert(seq@.push(node).drop_last() =~= seq@);
                                assert(seq@.push(node).last() == node);
                                assert(view_nodes(seq@.push(node)) =~= view_nodes(seq@).push(
                                    node@,
                                ));
                                assert(view_nodes(seq@).push(node@) + spec_repeat_items(
                                    self.0,
                                    nxt@,
                                ).1 =~= view_nodes(seq@) + (seq![node@] + spec_repeat_items(
                                    self.0,
                                    nxt@,
                                ).1));
                            }
                            seq.push(node);
                        }
                        curr_string = nxt;
                    } else {
                        break ;
                    }
                },
            }
        }
        proof {
            crate::ast::lemma_view_nodes_len(seq@);
            assert(view_nodes(seq@) + Seq::<NodeV>::empty() =~= view_nodes(seq@));
        }
        Ok(
            (
                curr_string,
                if seq.len() > 0 {
                    Some(ASTNode::Sequence(seq))
                } else {
                    None
                },
            ),
        )
    }
}

} // verus!

verus! {

/// The closed set of grammar rules that the heterogeneous combinators
/// hold: one variant for each concrete parser of the toolkit, plus
/// fixed literals.
#[derive(Clone, Copy)]
pub enum Rule {
    Literal(&'static str),
    Whitespace,
    Int,
    String,
    Boolean,
    Null,
    Array,
    Object,
    KeyValue,
    Expression,
}

impl Parser for Rule {
    open spec fn spec_parse(&self, s: Seq<char>) -> Option<(Seq<char>, Option<NodeV>)> {
        match self {
            Rule::Literal(lit) => LiteralParser(lit).spec_parse(s),
            Rule::Whitespace => Some((skip_ws(s), None)),
            Rule::Int => match spec_int(s) {
                Some((r, v)) => Some((r, Some(NodeV::Number(v)))),
                None => None,
            },
            Rule::String => match crate::json::spec_string(s) {
                Some((r, t)) => Some((r, Some(NodeV::String(t)))),
                None => None,
            },
            Rule::Boolean => match crate::json::spec_bool(s) {
                Some((r, b)) => Some((r, Some(NodeV::Boolean(b)))),
                None => None,
            },
            Rule::Null => match crate::json::spec_null(s) {
                Some(r) => Some((r, Some(NodeV::Null))),
                None => None,
            },
            Rule::Array => match crate::json::spec_array(s) {
                Some((r, node)) => Some((r, Some(node))),
                None => None,
            },
            Rule::Object => match crate::json::spec_object(s) {
                Some((r, node)) => Some((r, Some(node))),
                None => None,
            },
            Rule::KeyValue => match crate::json::spec_keyvalue(s) {
                Some((r, node)) => Some((r, Some(node))),
                None => None,
            },
            Rule::Expression => match crate::math::spec_addsub(s) {
                Some((r, v)) => Some((r, Some(NodeV::Number(v)))),
                None => None,
            },
        }
    }

    fn parse<'i>(&self, input: &'i str) -> (r: ParseResult<'i>) {
        match self {
            Rule::Literal(lit) => LiteralParser(lit).parse(input),
            Rule::Whitespace => WhitespaceParser().parse(input),
            Rule::Int => crate::math::IntParser().parse(input),
            Rule::String => crate::json::StringParser().parse(input),
            Rule::Boolean => crate::json::BooleanParser().parse(input),
            Rule::Null => crate::json::NullParser().parse(input),
            Rule::Array => crate::json::ArrayParser().parse(input),
            Rule::Object => crate::json::ObjectParser().parse(input),
            Rule::KeyValue => crate::json::KeyValueParser().parse(input),
            Rule::Expression => crate::math::AddSubtractParser().parse(input),
        }
    }
}

/// A fragment as a (possibly empty) list.
pub open spec fn opt_to_seq(frag: Option<NodeV>) -> Seq<NodeV> {
    match frag {
        Some(n) => seq![n],
        None => Seq::empty(),
    }
}

/// What the tail of an ordered sequence yields: whitespace, then the
/// rule, before every remaining rule; fragments are collected in order.
pub open spec fn spec_seq_rest(rules: Seq<Rule>, s: Seq<char>) -> Option<(Seq<char>, Seq<NodeV>)>
    decreases rules.len(),
{
    if rules.len() == 0 {
        Some((s, Seq::empty()))
    } else {
        let s0 = skip_ws(s);
        match rules[0].spec_parse(s0) {
            None => None,
            Some((r, frag)) => match spec_seq_rest(rules.skip(1), r) {
                None => None,
                Some((fin, items)) => Some((fin, opt_to_seq(frag) + items)),
            },
        }
    }
}

fn seq_rest_str<'i>(rules: &Vec<Rule>, i: usize, input: &'i str) -> (r: Result<
    (&'i str, Vec<ASTNode<'i>>),
    ErrorType,
>)
    requires
        i <= rules@.len(),
    ensures
        match spec_seq_rest(rules@.skip(i as int), input@) {
            Some(out) => r matches Ok(o) && o.0@ == out.0 && view_nodes(o.1@) == out.1,
            None => r is Err,
        },
    decreases rules@.len() - i,
{
    proof {
        reveal_with_fuel(spec_seq_rest, 2);
        reveal_with_fuel(view_nodes, 2);
    }
    if i == rules.len() {
        proof {
            assert(view_nodes(Seq::<ASTNode>::empty()) =~= Seq::<NodeV>::empty());
        }
        return Ok((input, Vec::new()));
    }
    proof {
        assert(rules@.skip(i as int)[0] == rules@[i as int]);
        assert(rules@.skip(i as int).skip(1) =~= rules@.skip(i as int + 1));
    }
    let s0 = eat_whitespace(input);
    let rule = rules[i];
    let (r, frag) = match rule.parse(s0) {
        Err(e) => {
            return Err(e);
        },
        Ok(o) => o,
    };
    let (fin, mut items) = match seq_rest_str(rules, i + 1, r) {
        Err(e) => {
            return Err(e);
        },
        Ok(o) => o,
    };
    if let Some(node) = frag {
        let ghost old_items = items@;
        items.insert(0, node);
        proof {
            assert(items@ =~= seq![node] + old_items);
            assert forall|j: int| 0 <= j < items@.len() implies view_nodes(items@)[j] == (seq![
                node@,
            ] + view_nodes(old_items))[j] by {
                if j > 0 {
                    assert(items@[j] == old_items[j - 1]);
                }
            }
            assert(view_nodes(items@) =~= seq![node@] + view_nodes(old_items));
        }
    }
    Ok((fin, items))
}

/// Applies an ordered list of rules, with an implicit whitespace parser
/// interspersed between every adjacent pair, and concatenates the
/// produced fragments into one `Sequence` fragment, preserving order.
/// Fails as soon as any rule fails.
pub struct SequenceParser(pub Vec<Rule>);

impl Parser for SequenceParser {
    open spec fn spec_parse(&self, s: Seq<char>) -> Option<(Seq<char>, Option<NodeV>)> {
        if self.0@.len() == 0 {
            Some((s, Some(NodeV::Sequence(Seq::empty()))))
        } else {
            match self.0@[0].spec_parse(s) {
                None => None,
                Some((r, frag)) => match spec_seq_rest(self.0@.skip(1), r) {
                    None => None,
                    Some((fin, items)) => Some(
                        (fin, Some(NodeV::Sequence(opt_to_seq(frag) + items))),
                    ),
                },
            }
        }
    }

    fn parse<'i>(&self, input: &'i str) -> (r: ParseResult<'i>) {
        proof {
            reveal_with_fuel(view_nodes, 2);
        }
        if self.0.len() == 0 {
            proof {
                assert(view_nodes(Seq::<ASTNode>::empty()) =~= Seq::<NodeV>::empty());
            }
            return Ok((input, Some(ASTNode::Sequence(Vec::new()))));
        }
        let first = self.0[0];
        let (r0, frag0) = match first.parse(input) {
            Err(e) => {
                return Err(e);
            },
            Ok(o) => o,
        };
        let (fin, mut items) = match seq_rest_str(&self.0, 1, r0) {
            Err(e) => {
                return Err(e);
            },
            Ok(o) => o,
        };
        if let Some(node) = frag0 {
            let ghost old_items = items@;
            items.insert(0, node);
            proof {
                assert(items@ =~= seq![node] + old_items);
                assert forall|j: int| 0 <= j < items@.len() implies view_nodes(items@)[j] == (seq![
                    node@,
                ] + view_nodes(old_items))[j] by {
                    if j > 0 {
                        assert(items@[j] == old_items[j - 1]);
                    }
                }
                assert(view_nodes(items@) =~= seq![node@] + view_nodes(old_items));
            }
        }
        Ok((fin, Some(ASTNode::Sequence(items))))
    }
}

/// What ordered choice yields: the first rule, in order, whose parse of
/// the whole original input succeeds; failure only when all fail.
pub open spec fn spec_choice_items(rules: Seq<Rule>, s: Seq<char>) -> Option<
    (Seq<char>, Option<NodeV>),
>
    decreases rules.len(),
{
    if rules.len() == 0 {
        None
    } else {
        match rules[0].spec_parse(s) {
            Some(out) => Some(out),
            None => spec_choice_items(rules.skip(1), s),
        }
    }
}

/// Tries its rules in order against the original input (alternatives
/// never see a moved cursor) and commits to the first success; fails
/// only when every alternative fails.
pub struct ChoiceParser(pub Vec<Rule>);

impl Parser for ChoiceParser {
    open spec fn spec_parse(&self, s: Seq<char>) -> Option<(Seq<char>, Option<NodeV>)> {
        spec_choice_items(self.0@, s)
    }

    fn parse<'i>(&self, input: &'i str) -> (r: ParseResult<'i>) {
        proof {
            assert(self.0@.skip(0) =~= self.0@);
        }
        let mut k: usize = 0;
        while k < self.0.len()
            invariant
                0 <= k <= self.0@.len(),
                spec_choice_items(self.0@, input@) == spec_choice_items(
                    self.0@.skip(k as int),
                    input@,
                ),
            decreases self.0@.len() - k,
        {
            proof {
                reveal_with_fuel(spec_choice_items, 2);
                assert(self.0@.skip(k as int)[0] == self.0@[k as int]);
                assert(self.0@.skip(k as int).skip(1) =~= self.0@.skip(k as int + 1));
            }
            let rule = self.0[k];
            match rule.parse(input) {
                Ok(out) => {
                    return Ok(out);
                },
                Err(_) => {
                    k = k + 1;
                },
            }
        }
        proof {
            reveal_with_fuel(spec_choice_items, 2);
        }
        Err(describe_failure("none of the options were satisfied at: ", input))
    }
}

} // verus!
