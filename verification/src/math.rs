//! The arithmetic-expression grammar: a precedence tower of integer
//! literal, parenthesized primary, left-associative exponentiation,
//! multiply/divide and add/subtract, evaluated during parsing.
//!
//! The two infix layers share one data-driven engine: an ordered table
//! of (delimiter, operation) pairs is consulted at each step, and the
//! queued operations are applied to the running accumulator in
//! encounter order. Arithmetic that the bounded number type cannot
//! represent, division by zero and negative exponents fail the parse.

use vstd::prelude::*;

use crate::ast::ASTNode;
use crate::ast::NodeV;
use crate::ast::NumberType;
use crate::combinators::opt_node_view;
use crate::combinators::Parser;
use crate::combinators::ParseResult;
use crate::scan::describe_failure;
use crate::scan::eat_whitespace;
use crate::scan::match_literal;
use crate::scan::scan_int;
use crate::scan::skip_ws;
use crate::scan::spec_int;
use crate::scan::strip_lit;
use vstd::string::StrSliceExecFns;

verus! {

broadcast use crate::scan::lemma_skip_ws_le, crate::scan::lemma_run_len_le;

/// Whether `v` is representable in the bounded number type.
pub open spec fn in_number_range(v: int) -> bool {
    i32::MIN <= v <= i32::MAX
}

/// Integer division truncating toward zero, as the `/` operator of the
/// bounded number type computes it.
pub open spec fn trunc_div(x: int, d: int) -> int
    recommends
        d != 0,
{
    if x == 0 {
        0
    } else if x > 0 && d > 0 {
        x / d
    } else if x < 0 && d < 0 {
        (x * -1) / (d * -1)
    } else if x < 0 {
        ((x * -1) / d) * -1
    } else {
        (x / (d * -1)) * -1
    }
}

/// One binary operation of an infix layer.
#[derive(Clone, Copy, PartialEq, Eq, Structural, Debug)]
pub enum OpSymbol {
    Multiply,
    Divide,
    Add,
    Subtract,
}

/// Applying an operation to the accumulator: division by zero and
/// results outside the bounded number type fail.
pub open spec fn spec_execute(op: OpSymbol, accumulator: int, operand: int) -> Option<int> {
    match op {
        OpSymbol::Multiply => if in_number_range(accumulator * operand) {
            Some(accumulator * operand)
        } else {
            None
        },
        OpSymbol::Divide => if operand == 0 {
            None
        } else if in_number_range(trunc_div(accumulator, operand)) {
            Some(trunc_div(accumulator, operand))
        } else {
            None
        },
        OpSymbol::Add => if in_number_range(accumulator + operand) {
            Some(accumulator + operand)
        } else {
            None
        },
        OpSymbol::Subtract => if in_number_range(accumulator - operand) {
            Some(accumulator - operand)
        } else {
            None
        },
    }
}

impl OpSymbol {
    /// Applies the operation, failing instead of wrapping or aborting.
    pub fn execute(self, accumulator: NumberType, operand: NumberType) -> (r: Option<NumberType>)
        ensures
            match spec_execute(self, accumulator as int, operand as int) {
                Some(v) => r matches Some(x) && x as int == v,
                None => r is None,
            },
    {
        match self {
            OpSymbol::Multiply => accumulator.checked_mul(operand),
            OpSymbol::Divide => accumulator.checked_div(operand),
            OpSymbol::Add => accumulator.checked_add(operand),
            OpSymbol::Subtract => accumulator.checked_sub(operand),
        }
    }
}

/// Exponentiation by repeated multiplication, failing as soon as a
/// partial product leaves the bounded number type's range.
pub open spec fn spec_pow(base: int, e: nat) -> Option<int>
    decreases e,
{
    if e == 0 {
        Some(1)
    } else {
        match spec_pow(base, (e - 1) as nat) {
            None => None,
            Some(p) => if in_number_range(p * base) {
                Some(p * base)
            } else {
                None
            },
        }
    }
}

proof fn lemma_spec_pow_zero(e: nat)
    requires
        e > 0,
    ensures
        spec_pow(0, e) == Some(0int),
    decreases e,
{
    reveal_with_fuel(spec_pow, 2);
    if e > 1 {
        lemma_spec_pow_zero((e - 1) as nat);
    }
}

proof fn lemma_spec_pow_one(e: nat)
    ensures
        spec_pow(1, e) == Some(1int),
    decreases e,
{
    reveal_with_fuel(spec_pow, 2);
    if e > 0 {
        lemma_spec_pow_one((e - 1) as nat);
    }
}

proof fn lemma_spec_pow_neg_one(e: nat)
    ensures
        spec_pow(-1, e) == Some(if e % 2 == 0 { 1int } else { -1int }),
    decreases e,
{
    reveal_with_fuel(spec_pow, 2);
    if e > 0 {
        lemma_spec_pow_neg_one((e - 1) as nat);
    }
}

/// Raises `base` to the power `e`, failing where the result (or any
/// partial product along the way) leaves the bounded number type.
pub fn pow_checked(base: NumberType, e: u32) -> (r: Option<NumberType>)
    ensures
        match spec_pow(base as int, e as nat) {
            Some(v) => r matches Some(x) && x as int == v,
            None => r is None,
        },
{
    // The degenerate bases would loop for up to `u32::MAX` steps if
    // handled by the general loop, so they are answered directly.
    if base == 0 {
        if e == 0 {
            return Some(1);
        }
        proof {
            lemma_spec_pow_zero(e as nat);
        }
        return Some(0);
    }
    if base == 1 {
        proof {
            lemma_spec_pow_one(e as nat);
        }
        return Some(1);
    }
    if base == -1 {
        proof {
            lemma_spec_pow_neg_one(e as nat);
        }
        return Some(if e % 2 == 0 {
            1
        } else {
            -1
        });
    }
    let mut acc: NumberType = 1;
    let mut i: u32 = 0;
    while i < e
        invariant
            0 <= i <= e,
            spec_pow(base as int, i as nat) == Some(acc as int),
        decreases e - i,
    {
        proof {
            reveal_with_fuel(spec_pow, 2);
        }
        match acc.checked_mul(base) {
            Some(a2) => {
                acc = a2;
            },
            None => {
                proof {
                    lemma_spec_pow_none_propagates(base as int, (i + 1) as nat, e as nat);
                }
                return None;
            },
        }
        i = i + 1;
    }
    Some(acc)
}

proof fn lemma_spec_pow_none_propagates(base: int, k: nat, e: nat)
    requires
        k <= e,
        spec_pow(base, k) is None,
    ensures
        spec_pow(base, e) is None,
    decreases e,
{
    reveal_with_fuel(spec_pow, 2);
    if e > k {
        lemma_spec_pow_none_propagates(base, k, (e - 1) as nat);
    }
}

/// Which grammar layer parses the operands of an infix layer: the
/// exponentiation layer feeds multiply/divide, and the multiply/divide
/// layer feeds add/subtract.
#[derive(Clone, Copy, PartialEq, Eq, Structural, Debug)]
pub enum InfixLevel {
    Exponent,
    MultiplyDivide,
}

pub open spec fn level_rank(level: InfixLevel) -> int {
    match level {
        InfixLevel::Exponent => 3,
        InfixLevel::MultiplyDivide => 6,
    }
}

/// A parenthesized arithmetic expression: `(`, whitespace, a full
/// add/subtract expression, whitespace, `)`.
pub open spec fn spec_paren(s: Seq<char>) -> Option<(Seq<char>, int)>
    decreases s.len(), 0int, 0int,
{
    match strip_lit("("@, s) {
        None => None,
        Some(t1) => {
            let t2 = skip_ws(t1);
            if t2.len() < s.len() {
                match spec_addsub(t2) {
                    None => None,
                    Some((r, v)) => {
                        let r2 = skip_ws(r);
                        match strip_lit(")"@, r2) {
                            None => None,
                            Some(rest) => Some((rest, v)),
                        }
                    },
                }
            } else {
                None
            }
        },
    }
}

/// A primary operand: an integer literal, or a parenthesized
/// expression.
pub open spec fn spec_primary(s: Seq<char>) -> Option<(Seq<char>, int)>
    decreases s.len(), 1int, 0int,
{
    match spec_int(s) {
        Some(out) => Some(out),
        None => spec_paren(s),
    }
}

/// The tail of an exponentiation chain: zero or more `^`, whitespace,
/// primary steps, folded left-to-right onto the accumulator (so
/// exponentiation is left-associative). A step whose `^` or operand
/// does not parse ends the chain without consuming it; a negative
/// exponent or an unrepresentable power fails the whole parse.
pub open spec fn spec_expo_rest(s: Seq<char>, accumulator: int) -> Option<(Seq<char>, int)>
    decreases s.len(), 0int, 0int,
{
    match strip_lit("^"@, s) {
        None => Some((s, accumulator)),
        Some(t1) => {
            let t2 = skip_ws(t1);
            if t2.len() < s.len() {
                match spec_primary(t2) {
                    None => Some((s, accumulator)),
                    Some((p2, n)) => if n < 0 {
                        None
                    } else {
                        match spec_pow(accumulator, n as nat) {
                            None => None,
                            Some(a2) => if p2.len() < s.len() {
                                spec_expo_rest(p2, a2)
                            } else {
                                None
                            },
                        }
                    },
                }
            } else {
                Some((s, accumulator))
            }
        },
    }
}

/// An exponentiation expression: a primary, whitespace, then the chain
/// of `^` steps.
pub open spec fn spec_expo(s: Seq<char>) -> Option<(Seq<char>, int)>
    decreases s.len(), 2int, 0int,
{
    match spec_primary(s) {
        None => None,
        Some((r1, v)) => {
            let q = skip_ws(r1);
            if q.len() < s.len() {
                spec_expo_rest(q, v)
            } else {
                Some((q, v))
            }
        },
    }
}

/// The operand parser of an infix level.
pub open spec fn spec_component(s: Seq<char>, level: InfixLevel) -> Option<(Seq<char>, int)>
    decreases s.len(), level_rank(level), 0int,
{
    match level {
        InfixLevel::Exponent => spec_expo(s),
        InfixLevel::MultiplyDivide => spec_infix(s, muldiv_table(), InfixLevel::Exponent),
    }
}

/// The delimiter table of the multiply/divide layer, in the order the
/// delimiters are tried.
pub open spec fn muldiv_table() -> Seq<(Seq<char>, OpSymbol)> {
    seq![("*"@, OpSymbol::Multiply), ("/"@, OpSymbol::Divide)]
}

/// The delimiter table of the add/subtract layer.
pub open spec fn addsub_table() -> Seq<(Seq<char>, OpSymbol)> {
    seq![("+"@, OpSymbol::Add), ("-"@, OpSymbol::Subtract)]
}

/// One operand fetch: with no delimiter, the component alone; with a
/// delimiter, the delimiter, whitespace, then the component. A
/// delimiter that consumes nothing cannot advance the fold.
pub open spec fn spec_twd(
    s: Seq<char>,
    delimeter: Option<Seq<char>>,
    component: InfixLevel,
) -> Option<(Seq<char>, int)>
    decreases s.len(), level_rank(component) + 1, 0int,
{
    match delimeter {
        None => spec_component(s, component),
        Some(d) => match strip_lit(d, s) {
            None => None,
            Some(t1) => {
                let t2 = skip_ws(t1);
                if t2.len() < s.len() {
                    spec_component(t2, component)
                } else {
                    None
                }
            },
        },
    }
}

/// The fold of an infix layer after its first operand: each step tries
/// the table's delimiters in order at the current position; the first
/// that yields an operand has its operation applied to the accumulator,
/// and the fold continues after that operand. When no delimiter
/// applies, the fold ends. A failing operation fails the parse.
pub open spec fn spec_infix_rest(
    s: Seq<char>,
    accumulator: int,
    operation_mapping: Seq<(Seq<char>, OpSymbol)>,
    component: InfixLevel,
    k: int,
) -> Option<(Seq<char>, int)>
    decreases s.len(), level_rank(component) + 2, operation_mapping.len() - k,
{
    if k < 0 || k >= operation_mapping.len() {
        Some((s, accumulator))
    } else {
        match spec_twd(s, Some(operation_mapping[k].0), component) {
            None => spec_infix_rest(s, accumulator, operation_mapping, component, k + 1),
            Some((r, n)) => match spec_execute(operation_mapping[k].1, accumulator, n) {
                None => None,
                Some(a2) => if r.len() < s.len() {
                    spec_infix_rest(r, a2, operation_mapping, component, 0)
                } else {
                    None
                },
            },
        }
    }
}

/// A whole infix layer: a mandatory first operand, then the fold.
pub open spec fn spec_infix(
    s: Seq<char>,
    operation_mapping: Seq<(Seq<char>, OpSymbol)>,
    component: InfixLevel,
) -> Option<(Seq<char>, int)>
    decreases s.len(), level_rank(component) + 2, operation_mapping.len() + 1,
{
    match spec_twd(s, None, component) {
        None => None,
        Some((r, v)) => {
            if r.len() < s.len() {
                spec_infix_rest(r, v, operation_mapping, component, 0)
            } else {
                Some((r, v))
            }
        },
    }
}

/// The top arithmetic layer: add/subtract over multiply/divide.
pub open spec fn spec_addsub(s: Seq<char>) -> Option<(Seq<char>, int)>
    decreases s.len(), 9int, 0int,
{
    spec_infix(s, addsub_table(), InfixLevel::MultiplyDivide)
}

/// The multiply/divide layer over exponentiation.
pub open spec fn spec_muldiv(s: Seq<char>) -> Option<(Seq<char>, int)> {
    spec_infix(s, muldiv_table(), InfixLevel::Exponent)
}

/// View of a delimiter table.
pub open spec fn table_view(t: Seq<(&'static str, OpSymbol)>) -> Seq<(Seq<char>, OpSymbol)> {
    t.map(|i: int, p: (&'static str, OpSymbol)| (p.0@, p.1))
}

fn paren_str<'a>(input: &'a str) -> (r: Option<(&'a str, NumberType)>)
    ensures
        match spec_paren(input@) {
            Some(out) => r matches Some(p) && p.0@ == out.0 && p.1 as int == out.1
                && p.0@.len() < input@.len(),
            None => r is None,
        },
    decreases input@.len(), 0int, 0int,
{
    proof {
        reveal_strlit("(");
        reveal_strlit(")");
    }
    let t1 = match match_literal(input, "(") {
        None => {
            return None;
        },
        Some(t) => t,
    };
    let t2 = eat_whitespace(t1);
    let (expr_rest, v) = match addsub_str(t2) {
        None => {
            return None;
        },
        Some(p) => p,
    };
    let r2 = eat_whitespace(expr_rest);
    match match_literal(r2, ")") {
        None => None,
        Some(rest) => Some((rest, v)),
    }
}

fn primary_str<'a>(input: &'a str) -> (r: Option<(&'a str, NumberType)>)
    ensures
        match spec_primary(input@) {
            Some(out) => r matches Some(p) && p.0@ == out.0 && p.1 as int == out.1
                && p.0@.len() < input@.len(),
            None => r is None,
        },
    decreases input@.len(), 1int, 0int,
{
    match scan_int(input) {
        Some((rest, v)) => {
            proof {
                reveal_with_fuel(crate::scan::run_len, 2);
            }
            Some((rest, v))
        },
        None => paren_str(input),
    }
}

fn expo_str<'a>(input: &'a str) -> (r: Option<(&'a str, NumberType)>)
    ensures
        match spec_expo(input@) {
            Some(out) => r matches Some(p) && p.0@ == out.0 && p.1 as int == out.1
                && p.0@.len() < input@.len(),
            None => r is None,
        },
    decreases input@.len(), 2int, 0int,
{
    let (r1, v0) = match primary_str(input) {
        None => {
            return None;
        },
        Some(p) => p,
    };
    let q0 = eat_whitespace(r1);
    let mut cur: &'a str = q0;
    let mut acc: NumberType = v0;
    loop
        invariant
            cur@.len() <= q0@.len() < input@.len(),
            spec_expo_rest(q0@, v0 as int) == spec_expo_rest(cur@, acc as int),
            spec_expo(input@) == spec_expo_rest(q0@, v0 as int),
        ensures
            spec_expo_rest(q0@, v0 as int) == Some((cur@, acc as int)),
            cur@.len() < input@.len(),
        decreases cur@.len(),
    {
        proof {
            reveal_with_fuel(spec_expo_rest, 2);
            reveal_strlit("^");
        }
        let t1 = match match_literal(cur, "^") {
            None => {
                break ;
            },
            Some(t) => t,
        };
        let t2 = eat_whitespace(t1);
        let (p2, n) = match primary_str(t2) {
            None => {
                break ;
            },
            Some(p) => p,
        };
        if n < 0 {
            return None;
        }
        match pow_checked(acc, n as u32) {
            None => {
                return None;
            },
            Some(a2) => {
                acc = a2;
                cur = p2;
            },
        }
    }
    Some((cur, acc))
}

fn component_str<'a>(input: &'a str, component: InfixLevel) -> (r: Option<(&'a str, NumberType)>)
    ensures
        match spec_component(input@, component) {
            Some(out) => r matches Some(p) && p.0@ == out.0 && p.1 as int == out.1
                && p.0@.len() < input@.len(),
            None => r is None,
        },
    decreases input@.len(), level_rank(component), 0int,
{
    match component {
        InfixLevel::Exponent => expo_str(input),
        InfixLevel::MultiplyDivide => {
            let operation_mapping: Vec<(&'static str, OpSymbol)> = vec![
                ("*", OpSymbol::Multiply),
                ("/", OpSymbol::Divide),
            ];
            proof {
                assert(table_view(operation_mapping@) =~= muldiv_table());
            }
            infix_str(&operation_mapping, input, InfixLevel::Exponent)
        },
    }
}

/// Tries to read one operand of an infix layer: the delimiter (when one
/// is given), whitespace, then an operand of the next-tighter layer.
/// Nothing is consumed when the attempt fails.
pub fn try_with_delimeter<'i>(
    input: &'i str,
    delimeter: Option<&'static str>,
    component: InfixLevel,
) -> (r: Option<(&'i str, NumberType)>)
    ensures
        match spec_twd(input@, opt_str_view(delimeter), component) {
            Some(out) => r matches Some(p) && p.0@ == out.0 && p.1 as int == out.1
                && p.0@.len() < input@.len(),
            None => r is None,
        },
    decreases input@.len(), level_rank(component) + 1, 0int,
{
    match delimeter {
        None => component_str(input, component),
        Some(d) => {
            let t1 = match match_literal(input, d) {
                None => {
                    return None;
                },
                Some(t) => t,
            };
            let t2 = eat_whitespace(t1);
            if t2.unicode_len() < input.unicode_len() {
                component_str(t2, component)
            } else {
                None
            }
        },
    }
}

/// View of an optional delimiter.
pub open spec fn opt_str_view(d: Option<&str>) -> Option<Seq<char>> {
    match d {
        Some(s) => Some(s@),
        None => None,
    }
}

fn infix_str<'i>(
    operation_mapping: &Vec<(&'static str, OpSymbol)>,
    input: &'i str,
    component: InfixLevel,
) -> (r: Option<(&'i str, NumberType)>)
    ensures
        match spec_infix(input@, table_view(operation_mapping@), component) {
            Some(out) => r matches Some(p) && p.0@ == out.0 && p.1 as int == out.1
                && p.0@.len() < input@.len(),
            None => r is None,
        },
    decreases input@.len(), level_rank(component) + 2, 0int,
{
    let ghost tbl = table_view(operation_mapping@);
    let first = match try_with_delimeter(input, None, component) {
        None => {
            return None;
        },
        Some(p) => p,
    };
    let mut cur: &'i str = first.0;
    let mut acc: NumberType = first.1;
    let ghost c0 = cur@;
    let ghost a0 = acc as int;
    loop
        invariant
            tbl == table_view(operation_mapping@),
            tbl.len() == operation_mapping@.len(),
            cur@.len() <= c0.len() < input@.len(),
            spec_infix_rest(c0, a0, tbl, component, 0) == spec_infix_rest(
                cur@,
                acc as int,
                tbl,
                component,
                0,
            ),
            spec_infix(input@, tbl, component) == spec_infix_rest(c0, a0, tbl, component, 0),
        ensures
            spec_infix_rest(c0, a0, tbl, component, 0) == Some((cur@, acc as int)),
            cur@.len() < input@.len(),
        decreases cur@.len(),
    {
        let ghost cur_pre = cur@;
        let ghost acc_pre = acc as int;
        let mut matched = false;
        let mut k: usize = 0;
        while k < operation_mapping.len() && !matched
            invariant
                0 <= k <= operation_mapping@.len(),
                tbl == table_view(operation_mapping@),
                tbl.len() == operation_mapping@.len(),
                c0.len() < input@.len(),
                cur_pre.len() <= c0.len(),
                cur@.len() <= cur_pre.len(),
                spec_infix(input@, tbl, component) == spec_infix_rest(c0, a0, tbl, component, 0),
                spec_infix_rest(c0, a0, tbl, component, 0) == spec_infix_rest(
                    cur_pre,
                    acc_pre,
                    tbl,
                    component,
                    0,
                ),
                !matched ==> cur@ == cur_pre && acc as int == acc_pre && spec_infix_rest(
                    cur_pre,
                    acc_pre,
                    tbl,
                    component,
                    0,
                ) == spec_infix_rest(cur_pre, acc_pre, tbl, component, k as int),
                matched ==> spec_infix_rest(cur_pre, acc_pre, tbl, component, 0)
                    == spec_infix_rest(cur@, acc as int, tbl, component, 0) && cur@.len()
                    < cur_pre.len(),
                cur_pre.len() <= c0.len(),
            decreases operation_mapping@.len() - k + (if matched { 0int } else { 1int }),
        {
            proof {
                reveal_with_fuel(spec_infix_rest, 2);
                assert(tbl[k as int] == (operation_mapping@[k as int].0@,
                operation_mapping@[k as int].1));
            }
            let (delim, op) = operation_mapping[k];
            match try_with_delimeter(cur, Some(delim), component) {
                Some((nxt, n)) => {
                    match op.execute(acc, n) {
                        Some(a2) => {
                            acc = a2;
                            cur = nxt;
                            matched = true;
                        },
                        None => {
                            proof {
                                assert(spec_infix_rest(cur_pre, acc_pre, tbl, component, k as int)
                                    is None);
                            }
                            return None;
                        },
                    }
                },
                None => {
                    k = k + 1;
                },
            }
        }
        if !matched {
            proof {
                reveal_with_fuel(spec_infix_rest, 2);
                assert(spec_infix_rest(cur_pre, acc_pre, tbl, component, k as int) == Some(
                    (cur_pre, acc_pre),
                ));
            }
            break ;
        }
    }
    Some((cur, acc))
}

/// Parses one infix layer: a mandatory first operand of the
/// next-tighter layer, then zero or more (delimiter, operand) steps
/// consulted from the table in order, applied to the accumulator in
/// encounter order. The result is a `Number` fragment.
pub fn parse_infix_expression<'i>(
    operation_mapping: Vec<(&'static str, OpSymbol)>,
    input: &'i str,
    component: InfixLevel,
) -> (r: ParseResult<'i>)
    ensures
        match spec_infix(input@, table_view(operation_mapping@), component) {
            Some(out) => r matches Ok(o) && o.0@ == out.0 && opt_node_view(o.1) == Some(
                NodeV::Number(out.1),
            ),
            None => r is Err,
        },
{
    match infix_str(&operation_mapping, input, component) {
        Some((rest, v)) => Ok((rest, Some(ASTNode::Number(v)))),
        None => Err(describe_failure("expression did not parse at: ", input)),
    }
}

/// Parses an integer literal: an optional `-`, then one or more
/// decimal digits whose value fits the bounded number type.
pub struct IntParser();

impl Parser for IntParser {
    open spec fn spec_parse(&self, s: Seq<char>) -> Option<(Seq<char>, Option<NodeV>)> {
        match spec_int(s) {
            Some((r, v)) => Some((r, Some(NodeV::Number(v)))),
            None => None,
        }
    }

    fn parse<'i>(&self, input: &'i str) -> (r: ParseResult<'i>) {
        match scan_int(input) {
            Some((rest, v)) => Ok((rest, Some(ASTNode::Number(v)))),
            None => Err(describe_failure("no integer literal at: ", input)),
        }
    }
}

/// Parses `(`, a full arithmetic expression, `)`, and yields the inner
/// `Number` fragment.
pub struct ParenthesizedExpressionParser();

impl Parser for ParenthesizedExpressionParser {
    open spec fn spec_parse(&self, s: Seq<char>) -> Option<(Seq<char>, Option<NodeV>)> {
        match spec_paren(s) {
            Some((r, v)) => Some((r, Some(NodeV::Number(v)))),
            None => None,
        }
    }

    fn parse<'i>(&self, input: &'i str) -> (r: ParseResult<'i>) {
        match paren_str(input) {
            Some((rest, v)) => Ok((rest, Some(ASTNode::Number(v)))),
            None => Err(describe_failure("no parenthesized expression at: ", input)),
        }
    }
}

/// Parses a primary followed by zero or more `^` steps, folding them
/// left-to-right: `2^3^2` is `(2^3)^2`.
pub struct ExponentParser();

impl Parser for ExponentParser {
    open spec fn spec_parse(&self, s: Seq<char>) -> Option<(Seq<char>, Option<NodeV>)> {
        match spec_expo(s) {
            Some((r, v)) => Some((r, Some(NodeV::Number(v)))),
            None => None,
        }
    }

    fn parse<'i>(&self, input: &'i str) -> (r: ParseResult<'i>) {
        match expo_str(input) {
            Some((rest, v)) => Ok((rest, Some(ASTNode::Number(v)))),
            None => Err(describe_failure("no exponentiation expression at: ", input)),
        }
    }
}

/// Parses the multiply/divide layer, with truncating division; division
/// by zero fails the parse.
pub struct MultiplyDivideParser();

impl Parser for MultiplyDivideParser {
    open spec fn spec_parse(&self, s: Seq<char>) -> Option<(Seq<char>, Option<NodeV>)> {
        match spec_muldiv(s) {
            Some((r, v)) => Some((r, Some(NodeV::Number(v)))),
            None => None,
        }
    }

    fn parse<'i>(&self, input: &'i str) -> (r: ParseResult<'i>) {
        let operation_mapping: Vec<(&'static str, OpSymbol)> = vec![
            ("*", OpSymbol::Multiply),
            ("/", OpSymbol::Divide),
        ];
        proof {
            assert(table_view(operation_mapping@) =~= muldiv_table());
        }
        parse_infix_expression(operation_mapping, input, InfixLevel::Exponent)
    }
}

/// Parses the add/subtract layer: the entry point of the arithmetic
/// grammar.
pub struct AddSubtractParser();

impl Parser for AddSubtractParser {
    open spec fn spec_parse(&self, s: Seq<char>) -> Option<(Seq<char>, Option<NodeV>)> {
        match spec_addsub(s) {
            Some((r, v)) => Some((r, Some(NodeV::Number(v)))),
            None => None,
        }
    }

    fn parse<'i>(&self, input: &'i str) -> (r: ParseResult<'i>) {
        let operation_mapping: Vec<(&'static str, OpSymbol)> = vec![
            ("+", OpSymbol::Add),
            ("-", OpSymbol::Subtract),
        ];
        proof {
            assert(table_view(operation_mapping@) =~= addsub_table());
        }
        parse_infix_expression(operation_mapping, input, InfixLevel::MultiplyDivide)
    }
}

/// The add/subtract layer as a plain function on the input.
fn addsub_str<'a>(input: &'a str) -> (r: Option<(&'a str, NumberType)>)
    ensures
        match spec_addsub(input@) {
            Some(out) => r matches Some(p) && p.0@ == out.0 && p.1 as int == out.1
                && p.0@.len() < input@.len(),
            None => r is None,
        },
    decreases input@.len(), 9int, 0int,
{
    let operation_mapping: Vec<(&'static str, OpSymbol)> = vec![
        ("+", OpSymbol::Add),
        ("-", OpSymbol::Subtract),
    ];
    proof {
        assert(table_view(operation_mapping@) =~= addsub_table());
    }
    infix_str(&operation_mapping, input, InfixLevel::MultiplyDivide)
}

} // verus!
