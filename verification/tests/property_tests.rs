//! Scenario tests for the documented behaviour: precedence and
//! associativity, whitespace insensitivity, object round trips,
//! trailing-data rejection, and each failure class.

use ast_parser::ast::ASTNode;
use ast_parser::combinators::ChoiceParser;
use ast_parser::combinators::Parser;
use ast_parser::combinators::RepeatParser;
use ast_parser::combinators::Rule;
use ast_parser::math::AddSubtractParser;
use ast_parser::rustifier::loads;
use ast_parser::rustifier::JSONElement;

fn evaluates_to(input: &str, value: i32) {
    let actual = AddSubtractParser().parse(input).unwrap();
    let expected = ("", Some(ASTNode::Number(value)));
    assert_eq!(actual, expected);
}

#[test]
fn exponentiation_is_left_associative() {
    evaluates_to("(2)^3^2", 64);
}

#[test]
fn precedence_of_layers() {
    evaluates_to("5 + 3*2", 11);
    evaluates_to("5 - 2^5", -27);
    evaluates_to("5*2-3*2", 4);
}

#[test]
fn division_truncates_in_fold_order() {
    evaluates_to("20 / 10 * 5", 10);
}

#[test]
fn whitespace_insensitivity() {
    evaluates_to("5-3", 2);
    evaluates_to("5 - 3", 2);
}

#[test]
fn division_truncates_toward_zero() {
    evaluates_to("7/2", 3);
    evaluates_to("0 - 7/2", -3);
}

#[test]
fn division_by_zero_is_an_error() {
    assert!(AddSubtractParser().parse("8/0").is_err());
}

#[test]
fn negative_exponent_is_an_error() {
    assert!(AddSubtractParser().parse("2^-3").is_err());
}

#[test]
fn unrepresentable_power_is_an_error() {
    assert!(AddSubtractParser().parse("2^35").is_err());
}

#[test]
fn unrepresentable_sum_is_an_error() {
    assert!(AddSubtractParser().parse("2147483647 + 1").is_err());
}

#[test]
fn too_many_digits_is_an_error() {
    assert!(loads("2147483648").is_err());
}

#[test]
fn largest_literal_parses() {
    assert_eq!(loads("2147483647"), Ok(JSONElement::Number(2147483647)));
    assert_eq!(loads("-2147483647"), Ok(JSONElement::Number(-2147483647)));
}

#[test]
fn object_round_trip() {
    let actual = loads("{\"a\":1,\"b\":[1,2,\"3\"],\"c\":null}").unwrap();
    let expected = JSONElement::Object(vec![
        (String::from("a"), JSONElement::Number(1)),
        (
            String::from("b"),
            JSONElement::Array(vec![
                JSONElement::Number(1),
                JSONElement::Number(2),
                JSONElement::String(String::from("3")),
            ]),
        ),
        (String::from("c"), JSONElement::Null),
    ]);
    assert_eq!(actual, expected);
}

#[test]
fn trailing_data_is_rejected() {
    let err = loads("123 456").unwrap_err();
    assert_eq!(err, String::from("Trailing data: 456"));
}

#[test]
fn rendered_list_round_trip() {
    let values: &[i32] = &[17, -4, 0, 2147483647];
    let rendered = format!(
        "[{}]",
        values
            .iter()
            .map(|v| v.to_string())
            .collect::<Vec<_>>()
            .join(",")
    );
    let actual = ast_parser::json::ArrayParser().parse(&rendered).unwrap();
    let expected_nodes: Vec<ASTNode> = values.iter().map(|v| ASTNode::Number(*v)).collect();
    assert_eq!(actual, ("", Some(ASTNode::Sequence(expected_nodes))));
}

#[test]
fn empty_list_parses_to_empty_sequence() {
    let actual = ast_parser::json::ArrayParser().parse("[]").unwrap();
    assert_eq!(actual, ("", Some(ASTNode::Sequence(vec![]))));
}

#[test]
fn single_trailing_comma_is_ignored() {
    let actual = ast_parser::json::ArrayParser().parse("[5,]").unwrap();
    assert_eq!(actual, ("", Some(ASTNode::Sequence(vec![ASTNode::Number(5)]))));
}

#[test]
fn choice_order_does_not_matter_for_exclusive_rules() {
    let one_way = ChoiceParser(vec![Rule::Boolean, Rule::Int, Rule::Null]);
    let other_way = ChoiceParser(vec![Rule::Null, Rule::Int, Rule::Boolean]);
    for input in ["true", "-12abc", "null", "oops"] {
        let a = one_way.parse(input);
        let b = other_way.parse(input);
        assert_eq!(a.is_ok(), b.is_ok());
        if let (Ok(x), Ok(y)) = (a, b) {
            assert_eq!(x, y);
        }
    }
}

#[test]
fn repeat_collects_fragments_in_order() {
    let actual = RepeatParser(Rule::Boolean).parse("truefalsetrue!").unwrap();
    let expected = (
        "!",
        Some(ASTNode::Sequence(vec![
            ASTNode::Boolean(true),
            ASTNode::Boolean(false),
            ASTNode::Boolean(true),
        ])),
    );
    assert_eq!(actual, expected);
}

#[test]
fn repeat_with_no_match_yields_no_fragment() {
    let actual = RepeatParser(Rule::Boolean).parse("oops").unwrap();
    assert_eq!(actual, ("oops", None));
}

#[test]
fn strings_allow_only_the_fixed_character_set() {
    assert!(loads("\"with space\"").is_err());
    assert_eq!(
        loads("\"A-z.9@x\""),
        Ok(JSONElement::String(String::from("A-z.9@x")))
    );
}

#[test]
fn bare_pair_does_not_convert() {
    let pair = ast_parser::ast::make_pair("k", ASTNode::Number(1));
    assert!(ast_parser::rustifier::convert(&pair).is_err());
}

#[test]
fn later_duplicate_key_wins_in_conversion() {
    let actual = loads("{\"a\":1,\"a\":2}").unwrap();
    let expected = JSONElement::Object(vec![
        (String::from("a"), JSONElement::Number(1)),
        (String::from("a"), JSONElement::Number(2)),
    ]);
    assert_eq!(actual, expected);
}
