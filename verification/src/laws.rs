//! General laws of the toolkit, proved against the grammar model: the
//! decimal round trip of the integer production, the round trip of a
//! freshly rendered delimited list, and the order-independence of
//! ordered choice over mutually exclusive alternatives.

use vstd::prelude::*;

use crate::ast::NodeV;
use crate::combinators::Parser;
use crate::combinators::Rule;
use crate::combinators::spec_choice_items;
use crate::scan::digits_val;
use crate::scan::is_digit_char;
use crate::scan::run_len;
use crate::scan::spec_int;
use crate::scan::CharClass;

verus! {

broadcast use crate::scan::lemma_run_len_le;

/// The decimal digit character for a value below ten.
pub open spec fn digit_char(d: int) -> char {
    if d == 0 {
        '0'
    } else if d == 1 {
        '1'
    } else if d == 2 {
        '2'
    } else if d == 3 {
        '3'
    } else if d == 4 {
        '4'
    } else if d == 5 {
        '5'
    } else if d == 6 {
        '6'
    } else if d == 7 {
        '7'
    } else if d == 8 {
        '8'
    } else {
        '9'
    }
}

/// The decimal text of a non-negative integer, most significant digit
/// first, with no leading zeroes (and `0` for zero).
pub open spec fn digits_of(n: nat) -> Seq<char>
    decreases n,
{
    if n < 10 {
        seq![digit_char(n as int)]
    } else {
        digits_of(n / 10).push(digit_char((n % 10) as int))
    }
}

proof fn lemma_digit_char_val(d: int)
    requires
        0 <= d < 10,
    ensures
        is_digit_char(digit_char(d)),
        digit_char(d) as int - '0' as int == d,
{
}

proof fn lemma_digits_of_digits(n: nat)
    ensures
        digits_of(n).len() >= 1,
        forall|j: int| 0 <= j < digits_of(n).len() ==> is_digit_char(#[trigger] digits_of(n)[j]),
    decreases n,
{
    reveal_with_fuel(digits_of, 2);
    lemma_digit_char_val((n % 10) as int);
    if n < 10 {
        lemma_digit_char_val(n as int);
    } else {
        lemma_digits_of_digits(n / 10);
        assert forall|j: int| 0 <= j < digits_of(n).len() implies is_digit_char(
            #[trigger] digits_of(n)[j],
        ) by {
            if j < digits_of(n).len() - 1 {
                assert(digits_of(n)[j] == digits_of(n / 10)[j]);
            }
        }
    }
}

proof fn lemma_digits_of_val(n: nat)
    ensures
        digits_val(digits_of(n)) == n,
    decreases n,
{
    reveal_with_fuel(digits_of, 2);
    reveal_with_fuel(digits_val, 2);
    lemma_digit_char_val((n % 10) as int);
    if n < 10 {
        lemma_digit_char_val(n as int);
        assert(digits_of(n).drop_last() =~= Seq::<char>::empty());
    } else {
        lemma_digits_of_val(n / 10);
        assert(digits_of(n).drop_last() =~= digits_of(n / 10));
    }
}

/// The decimal text of an integer, with a leading `-` for negatives.
pub open spec fn rendered_int(v: int) -> Seq<char> {
    if v < 0 {
        seq!['-'] + digits_of((-v) as nat)
    } else {
        digits_of(v as nat)
    }
}

/// Parsing the decimal text of an integer, followed by anything that
/// does not begin with a digit, yields exactly that integer and leaves
/// the rest unconsumed.
pub proof fn lemma_int_prefix(v: int, rest: Seq<char>)
    requires
        -(i32::MAX as int) <= v <= i32::MAX as int,
        rest.len() > 0 ==> !is_digit_char(rest[0]),
    ensures
        spec_int(rendered_int(v) + rest) == Some((rest, v)),
{
    let s = rendered_int(v) + rest;
    let m = if v < 0 {
        (-v) as nat
    } else {
        v as nat
    };
    let digits = digits_of(m);
    lemma_digits_of_digits(m);
    lemma_digits_of_val(m);
    let t = if v < 0 {
        s.skip(1)
    } else {
        s
    };
    assert(t =~= digits + rest);
    assert(s[0] == '-' <==> v < 0) by {
        if v >= 0 {
            assert(s[0] == digits[0]);
            assert(is_digit_char(digits[0]));
        }
    }
    assert forall|j: int| 0 <= j < digits.len() implies is_digit_char(#[trigger] t[j]) by {
        assert(t[j] == digits[j]);
    }
    crate::scan::lemma_run_len_is(CharClass::NumberChars, t, digits.len() as int);
    assert(t.take(digits.len() as int) =~= digits);
    assert(t.skip(digits.len() as int) =~= rest);
}

/// The integer production round-trips every representable decimal text:
/// parsing the decimal text of a non-negative `n` yields exactly `n`
/// with nothing left over, and prefixing the text with `-` yields `-n`.
pub proof fn lemma_integer_round_trip(n: int)
    requires
        0 <= n <= i32::MAX as int,
    ensures
        spec_int(digits_of(n as nat)) == Some((Seq::<char>::empty(), n)),
        spec_int(seq!['-'] + digits_of(n as nat)) == Some((Seq::<char>::empty(), -n)),
        crate::math::IntParser().spec_parse(digits_of(n as nat)) == Some(
            (Seq::<char>::empty(), Some(NodeV::Number(n))),
        ),
        crate::math::IntParser().spec_parse(seq!['-'] + digits_of(n as nat)) == Some(
            (Seq::<char>::empty(), Some(NodeV::Number(-n))),
        ),
{
    lemma_int_prefix(n, Seq::empty());
    assert(rendered_int(n) + Seq::<char>::empty() =~= digits_of(n as nat));
    if n == 0 {
        lemma_int_prefix(0, Seq::empty());
        reveal_with_fuel(crate::scan::digits_val, 2);
        lemma_digits_of_digits(0);
        lemma_digits_of_val(0);
        let s = seq!['-'] + digits_of(0);
        assert(s[0] == '-');
        let t = s.skip(1);
        assert(t =~= digits_of(0nat) + Seq::<char>::empty());
        assert(forall|j: int| 0 <= j < t.len() ==> is_digit_char(#[trigger] t[j]));
        crate::scan::lemma_run_len_is(CharClass::NumberChars, t, t.len() as int);
        assert(t.take(t.len() as int) =~= digits_of(0nat));
        assert(t.skip(t.len() as int) =~= Seq::<char>::empty());
    } else {
        lemma_int_prefix(-n, Seq::empty());
        assert(rendered_int(-n) + Seq::<char>::empty() =~= seq!['-'] + digits_of(n as nat));
    }
}

/// Every element fits the bounded number type (the most negative value
/// is excluded, because a parsed magnitude must fit before its sign is
/// applied).
pub open spec fn all_renderable(vs: Seq<int>) -> bool {
    forall|i: int| 0 <= i < vs.len() ==> -(i32::MAX as int) <= #[trigger] vs[i] <= i32::MAX as int
}

/// The text of a rendered list after its first element: for each
/// further element a comma and its text, then the closing bracket.
pub open spec fn tail_text(vs: Seq<int>) -> Seq<char>
    decreases vs.len(),
{
    if vs.len() == 0 {
        seq![']']
    } else {
        seq![','] + rendered_int(vs[0]) + tail_text(vs.skip(1))
    }
}

/// The same, with one trailing comma before the closing bracket.
pub open spec fn tail_text_trailing(vs: Seq<int>) -> Seq<char>
    decreases vs.len(),
{
    if vs.len() == 0 {
        seq![',', ']']
    } else {
        seq![','] + rendered_int(vs[0]) + tail_text_trailing(vs.skip(1))
    }
}

/// The freshly rendered list `[e1,e2,...,eN]`.
pub open spec fn render_list(vs: Seq<int>) -> Seq<char> {
    if vs.len() == 0 {
        seq!['[', ']']
    } else {
        seq!['['] + rendered_int(vs[0]) + tail_text(vs.skip(1))
    }
}

/// The freshly rendered list with a single trailing comma,
/// `[e1,e2,...,eN,]`.
pub open spec fn render_list_trailing(vs: Seq<int>) -> Seq<char>
    recommends
        vs.len() >= 1,
{
    seq!['['] + rendered_int(vs[0]) + tail_text_trailing(vs.skip(1))
}

proof fn lemma_rendered_first(v: int)
    ensures
        rendered_int(v).len() >= 1,
        rendered_int(v)[0] == '-' || is_digit_char(rendered_int(v)[0]),
{
    if v < 0 {
        lemma_digits_of_digits((-v) as nat);
    } else {
        lemma_digits_of_digits(v as nat);
    }
}

/// A rendered integer followed by anything that does not begin with a
/// digit parses as a JSON value to exactly that `Number`.
proof fn lemma_value_prefix(v: int, rest: Seq<char>)
    requires
        -(i32::MAX as int) <= v <= i32::MAX as int,
        rest.len() > 0 ==> !is_digit_char(rest[0]),
    ensures
        crate::json::spec_value(rendered_int(v) + rest) == Some((rest, NodeV::Number(v))),
{
    reveal_with_fuel(crate::json::spec_value, 2);
    reveal_strlit("true");
    reveal_strlit("false");
    let s = rendered_int(v) + rest;
    lemma_rendered_first(v);
    assert(s[0] == rendered_int(v)[0]);
    assert(s[0] != 't' && s[0] != 'f') by {
        assert(!is_digit_char('t') && !is_digit_char('f'));
    }
    assert(crate::json::spec_bool(s) is None) by {
        if 4 <= s.len() && s.take(4) == "true"@ {
            assert(s.take(4)[0] == 't');
        }
        if 5 <= s.len() && s.take(5) == "false"@ {
            assert(s.take(5)[0] == 'f');
        }
    }
    lemma_int_prefix(v, rest);
}

/// No JSON value begins with a closing bracket.
proof fn lemma_value_rbracket()
    ensures
        crate::json::spec_value(seq![']']) is None,
{
    reveal_with_fuel(crate::json::spec_value, 2);
    reveal_with_fuel(crate::json::spec_array, 2);
    reveal_with_fuel(crate::json::spec_object, 2);
    reveal_with_fuel(crate::json::spec_delimited, 2);
    reveal_with_fuel(run_len, 2);
    reveal_strlit("true");
    reveal_strlit("false");
    reveal_strlit("null");
    reveal_strlit("\"");
    reveal_strlit("[");
    reveal_strlit("{");
    let s = seq![']'];
    assert(crate::json::spec_bool(s) is None);
    assert(spec_int(s) is None) by {
        assert(run_len(CharClass::NumberChars, s) == 0);
    }
    assert(crate::json::spec_string(s) is None) by {
        if 1 <= s.len() && s.take(1) == "\""@ {
            assert(s.take(1)[0] == '"');
        }
    }
    assert(crate::json::spec_array(s) is None) by {
        if 1 <= s.len() && s.take(1) == "["@ {
            assert(s.take(1)[0] == '[');
        }
    }
    assert(crate::json::spec_object(s) is None) by {
        if 1 <= s.len() && s.take(1) == "{"@ {
            assert(s.take(1)[0] == '{');
        }
    }
    assert(crate::json::spec_null(s) is None);
}

/// Whitespace skipping does not move over a character that is not a
/// space.
proof fn lemma_skip_ws_noop(s: Seq<char>)
    requires
        s.len() > 0 ==> !crate::scan::is_space_char(s[0]),
    ensures
        crate::scan::skip_ws(s) == s,
{
    reveal_with_fuel(run_len, 2);
    assert(run_len(CharClass::SpaceChars, s) == 0);
    assert(s.skip(0) =~= s);
}

/// The element loop consumes a rendered tail completely, stopping right
/// before the closing bracket, and yields the remaining elements in
/// original order.
proof fn lemma_elems_tail(vs: Seq<int>)
    requires
        all_renderable(vs),
    ensures
        crate::json::spec_elems(tail_text(vs), crate::json::ElemKind::Value, ","@) == (
            seq![']'],
            vs.map(|i: int, v: int| NodeV::Number(v)),
        ),
    decreases vs.len(),
{
    reveal_with_fuel(crate::json::spec_elems, 2);
    reveal_strlit(",");
    let s = tail_text(vs);
    if vs.len() == 0 {
        lemma_skip_ws_noop(s);
        assert(crate::scan::strip_lit(","@, s) is None) by {
            if 1 <= s.len() && s.take(1) == ","@ {
                assert(s.take(1)[0] == ',');
            }
        }
        assert(vs.map(|i: int, v: int| NodeV::Number(v)) =~= Seq::<NodeV>::empty());
    } else {
        let v0 = vs[0];
        let tail = tail_text(vs.skip(1));
        lemma_rendered_first(v0);
        assert(s == seq![','] + rendered_int(v0) + tail);
        assert(s[0] == ',');
        lemma_skip_ws_noop(s);
        assert(s.take(1) =~= ","@);
        let q2 = s.skip(1);
        assert(crate::scan::strip_lit(","@, s) == Some(q2));
        assert(q2 =~= rendered_int(v0) + tail);
        assert(q2[0] == rendered_int(v0)[0]);
        assert(!crate::scan::is_space_char(q2[0]));
        lemma_skip_ws_noop(q2);
        assert(tail.len() >= 1 && (tail[0] == ',' || tail[0] == ']')) by {
            reveal_with_fuel(tail_text, 2);
        }
        assert(!is_digit_char(tail[0]));
        lemma_value_prefix(v0, tail);
        assert(tail.len() < s.len());
        lemma_elems_tail(vs.skip(1));
        assert(seq![NodeV::Number(v0)] + vs.skip(1).map(|i: int, v: int| NodeV::Number(v)) =~= vs.map(
            |i: int, v: int| NodeV::Number(v),
        ));
    }
}

/// The same, for a tail that ends with one trailing comma: the loop
/// additionally consumes that comma (its element attempt fails on the
/// closing bracket without consuming it).
proof fn lemma_elems_tail_trailing(vs: Seq<int>)
    requires
        all_renderable(vs),
    ensures
        crate::json::spec_elems(tail_text_trailing(vs), crate::json::ElemKind::Value, ","@) == (
            seq![']'],
            vs.map(|i: int, v: int| NodeV::Number(v)),
        ),
    decreases vs.len(),
{
    reveal_with_fuel(crate::json::spec_elems, 2);
    reveal_strlit(",");
    let s = tail_text_trailing(vs);
    if vs.len() == 0 {
        assert(s == seq![',', ']']);
        lemma_skip_ws_noop(s);
        assert(s.take(1) =~= ","@);
        let q2 = s.skip(1);
        assert(crate::scan::strip_lit(","@, s) == Some(q2));
        assert(q2 =~= seq![']']);
        lemma_skip_ws_noop(q2);
        lemma_value_rbracket();
        assert(vs.map(|i: int, v: int| NodeV::Number(v)) =~= Seq::<NodeV>::empty());
    } else {
        let v0 = vs[0];
        let tail = tail_text_trailing(vs.skip(1));
        lemma_rendered_first(v0);
        assert(s == seq![','] + rendered_int(v0) + tail);
        assert(s[0] == ',');
        lemma_skip_ws_noop(s);
        assert(s.take(1) =~= ","@);
        let q2 = s.skip(1);
        assert(crate::scan::strip_lit(","@, s) == Some(q2));
        assert(q2 =~= rendered_int(v0) + tail);
        assert(q2[0] == rendered_int(v0)[0]);
        assert(!crate::scan::is_space_char(q2[0]));
        lemma_skip_ws_noop(q2);
        assert(tail.len() >= 1 && tail[0] == ',') by {
            reveal_with_fuel(tail_text_trailing, 2);
        }
        assert(!is_digit_char(tail[0]));
        lemma_value_prefix(v0, tail);
        assert(tail.len() < s.len());
        lemma_elems_tail_trailing(vs.skip(1));
        assert(seq![NodeV::Number(v0)] + vs.skip(1).map(|i: int, v: int| NodeV::Number(v)) =~= vs.map(
            |i: int, v: int| NodeV::Number(v),
        ));
    }
}

/// The delimited-list round trip: parsing a freshly rendered list of N
/// representable integers yields a `Sequence` of exactly those N
/// `Number` nodes in original order, consuming the whole text; the
/// empty list yields a `Sequence` of length zero.
pub proof fn lemma_list_round_trip(vs: Seq<int>)
    requires
        all_renderable(vs),
    ensures
        crate::json::spec_array(render_list(vs)) == Some(
            (Seq::<char>::empty(), NodeV::Sequence(vs.map(|i: int, v: int| NodeV::Number(v)))),
        ),
{
    reveal_with_fuel(crate::json::spec_array, 2);
    reveal_with_fuel(crate::json::spec_delimited, 2);
    reveal_strlit("[");
    reveal_strlit("]");
    let s = render_list(vs);
    assert(s[0] == '[');
    assert(s.take(1) =~= "["@);
    let a = s.skip(1);
    assert(crate::scan::strip_lit("["@, s) == Some(a));
    if vs.len() == 0 {
        assert(a =~= seq![']']);
        lemma_skip_ws_noop(a);
        assert(a.take(1) =~= "]"@);
        assert(crate::scan::strip_lit("]"@, a) == Some(a.skip(1)));
        assert(a.skip(1) =~= Seq::<char>::empty());
        assert(vs.map(|i: int, v: int| NodeV::Number(v)) =~= Seq::<NodeV>::empty());
    } else {
        let v0 = vs[0];
        let tail = tail_text(vs.skip(1));
        lemma_rendered_first(v0);
        assert(a =~= rendered_int(v0) + tail);
        assert(a[0] == rendered_int(v0)[0]);
        assert(!crate::scan::is_space_char(a[0]));
        lemma_skip_ws_noop(a);
        assert(crate::scan::strip_lit("]"@, a) is None) by {
            if 1 <= a.len() && a.take(1) == "]"@ {
                assert(a.take(1)[0] == ']');
            }
        }
        assert(tail.len() >= 1 && (tail[0] == ',' || tail[0] == ']')) by {
            reveal_with_fuel(tail_text, 2);
        }
        assert(!is_digit_char(tail[0]));
        lemma_value_prefix(v0, tail);
        assert(a.len() < s.len());
        assert(tail.len() < s.len());
        lemma_elems_tail(vs.skip(1));
        let p2 = seq![']'];
        lemma_skip_ws_noop(p2);
        assert(p2.take(1) =~= "]"@);
        assert(crate::scan::strip_lit("]"@, p2) == Some(p2.skip(1)));
        assert(p2.skip(1) =~= Seq::<char>::empty());
        assert(seq![NodeV::Number(v0)] + vs.skip(1).map(|i: int, v: int| NodeV::Number(v)) =~= vs.map(
            |i: int, v: int| NodeV::Number(v),
        ));
    }
}

/// A single trailing comma before the closing bracket is accepted and
/// ignored: the list with a trailing comma parses to the same
/// `Sequence` as the list without it.
pub proof fn lemma_list_round_trip_trailing_comma(vs: Seq<int>)
    requires
        all_renderable(vs),
        vs.len() >= 1,
    ensures
        crate::json::spec_array(render_list_trailing(vs)) == crate::json::spec_array(
            render_list(vs),
        ),
{
    reveal_with_fuel(crate::json::spec_array, 2);
    reveal_with_fuel(crate::json::spec_delimited, 2);
    reveal_strlit("[");
    reveal_strlit("]");
    lemma_list_round_trip(vs);
    let s = render_list_trailing(vs);
    assert(s[0] == '[');
    assert(s.take(1) =~= "["@);
    let a = s.skip(1);
    assert(crate::scan::strip_lit("["@, s) == Some(a));
    let v0 = vs[0];
    let tail = tail_text_trailing(vs.skip(1));
    lemma_rendered_first(v0);
    assert(a =~= rendered_int(v0) + tail);
    assert(a[0] == rendered_int(v0)[0]);
    assert(!crate::scan::is_space_char(a[0]));
    lemma_skip_ws_noop(a);
    assert(crate::scan::strip_lit("]"@, a) is None) by {
        if 1 <= a.len() && a.take(1) == "]"@ {
            assert(a.take(1)[0] == ']');
        }
    }
    assert(tail.len() >= 1 && tail[0] == ',') by {
        reveal_with_fuel(tail_text_trailing, 2);
    }
    assert(!is_digit_char(tail[0]));
    lemma_value_prefix(v0, tail);
    assert(a.len() < s.len());
    assert(tail.len() < s.len());
    lemma_elems_tail_trailing(vs.skip(1));
    let p2 = seq![']'];
    lemma_skip_ws_noop(p2);
    assert(p2.take(1) =~= "]"@);
    assert(crate::scan::strip_lit("]"@, p2) == Some(p2.skip(1)));
    assert(p2.skip(1) =~= Seq::<char>::empty());
    assert(seq![NodeV::Number(v0)] + vs.skip(1).map(|i: int, v: int| NodeV::Number(v)) =~= vs.map(
        |i: int, v: int| NodeV::Number(v),
    ));
}

/// No two of the rules can succeed on `s` with different outcomes.
pub open spec fn mutually_exclusive(rules: Seq<Rule>, s: Seq<char>) -> bool {
    forall|i: int, j: int|
        0 <= i < rules.len() && 0 <= j < rules.len() && (#[trigger] rules[i].spec_parse(s)) is Some
            && (#[trigger] rules[j].spec_parse(s)) is Some ==> rules[i].spec_parse(s)
            == rules[j].spec_parse(s)
}

proof fn lemma_choice_none_iff_all_fail(rules: Seq<Rule>, s: Seq<char>)
    ensures
        spec_choice_items(rules, s) is None <==> forall|i: int|
            0 <= i < rules.len() ==> (#[trigger] rules[i].spec_parse(s)) is None,
    decreases rules.len(),
{
    reveal_with_fuel(spec_choice_items, 2);
    if rules.len() > 0 {
        lemma_choice_none_iff_all_fail(rules.skip(1), s);
        assert forall|i: int|
            0 <= i < rules.len() && (forall|j: int|
                0 <= j < rules.skip(1).len() ==> (#[trigger] rules.skip(1)[j].spec_parse(
                    s,
                )) is None) && rules[0].spec_parse(s) is None implies (#[trigger] rules[i].spec_parse(
            s,
        )) is None by {
            if i > 0 {
                assert(rules[i] == rules.skip(1)[i - 1]);
            }
        }
        if spec_choice_items(rules, s) is None {
            assert forall|i: int| 0 <= i < rules.len() implies (#[trigger] rules[i].spec_parse(
                s,
            )) is None by {
                if i > 0 {
                    assert(rules.skip(1)[i - 1] == rules[i]);
                }
            }
        }
    }
}

proof fn lemma_choice_some_from_member(rules: Seq<Rule>, s: Seq<char>, out: (Seq<char>, Option<
    NodeV,
>))
    requires
        exists|i: int| 0 <= i < rules.len() && (#[trigger] rules[i].spec_parse(s)) == Some(out),
        forall|i: int|
            0 <= i < rules.len() && (#[trigger] rules[i].spec_parse(s)) is Some ==> rules[
                i
            ].spec_parse(s) == Some(out),
    ensures
        spec_choice_items(rules, s) == Some(out),
    decreases rules.len(),
{
    reveal_with_fuel(spec_choice_items, 2);
    if rules[0].spec_parse(s) is Some {
        assert(rules[0].spec_parse(s) == Some(out));
    } else {
        let i = choose|i: int|
            0 <= i < rules.len() && (#[trigger] rules[i].spec_parse(s)) == Some(out);
        assert(rules.skip(1)[i - 1] == rules[i]);
        assert forall|j: int|
            0 <= j < rules.skip(1).len() && (#[trigger] rules.skip(1)[j].spec_parse(
                s,
            )) is Some implies rules.skip(1)[j].spec_parse(s) == Some(out) by {
            assert(rules.skip(1)[j] == rules[j + 1]);
        }
        lemma_choice_some_from_member(rules.skip(1), s, out);
    }
}

proof fn lemma_choice_member_witness(rules: Seq<Rule>, s: Seq<char>)
    requires
        spec_choice_items(rules, s) is Some,
    ensures
        exists|i: int|
            0 <= i < rules.len() && (#[trigger] rules[i].spec_parse(s)) == spec_choice_items(
                rules,
                s,
            ),
    decreases rules.len(),
{
    reveal_with_fuel(spec_choice_items, 2);
    if rules[0].spec_parse(s) is Some {
        assert(rules[0] == rules[0]);
    } else {
        lemma_choice_member_witness(rules.skip(1), s);
        let i = choose|i: int|
            0 <= i < rules.skip(1).len() && (#[trigger] rules.skip(1)[i].spec_parse(s))
                == spec_choice_items(rules.skip(1), s);
        assert(rules[i + 1] == rules.skip(1)[i]);
        assert(rules[i + 1].spec_parse(s) == spec_choice_items(rules, s));
    }
}

/// Ordered choice is order-independent for mutually exclusive
/// alternatives: two choices over the same set of rules, no two of
/// which can succeed on `s` with different outcomes, parse `s` to the
/// same result, whatever the order (or multiplicity) of their rules.
pub proof fn lemma_choice_order_independent(a: Seq<Rule>, b: Seq<Rule>, s: Seq<char>)
    requires
        mutually_exclusive(a + b, s),
        forall|r: Rule| a.contains(r) <==> b.contains(r),
    ensures
        spec_choice_items(a, s) == spec_choice_items(b, s),
{
    lemma_choice_none_iff_all_fail(a, s);
    lemma_choice_none_iff_all_fail(b, s);
    if spec_choice_items(a, s) is None {
        assert forall|i: int| 0 <= i < b.len() implies (#[trigger] b[i].spec_parse(s)) is None by {
            assert(b.contains(b[i]));
            assert(a.contains(b[i]));
            let j = choose|j: int| 0 <= j < a.len() && a[j] == b[i];
            assert(a[j].spec_parse(s) is None);
        }
    } else {
        let out = spec_choice_items(a, s)->Some_0;
        lemma_choice_member_witness(a, s);
        let i = choose|i: int|
            0 <= i < a.len() && (#[trigger] a[i].spec_parse(s)) == spec_choice_items(a, s);
        assert(a.contains(a[i]));
        assert(b.contains(a[i]));
        let j = choose|j: int| 0 <= j < b.len() && b[j] == a[i];
        assert(b[j].spec_parse(s) == Some(out));
        assert forall|k: int|
            0 <= k < b.len() && (#[trigger] b[k].spec_parse(s)) is Some implies b[k].spec_parse(s)
            == Some(out) by {
            assert((a + b)[a.len() + k] == b[k]);
            assert((a + b)[a.len() + j] == b[j]);
        }
        lemma_choice_some_from_member(b, s, out);
    }
}

} // verus!
