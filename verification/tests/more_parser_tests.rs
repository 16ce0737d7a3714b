//! Further exercises of the primitive parsers and the array grammar,
//! over the same inputs as the main parser tests.

use ast_parser::ast::ASTNode;
use ast_parser::ast::NumberType;
use ast_parser::combinators::LiteralParser;
use ast_parser::combinators::OptionParser;
use ast_parser::combinators::Parser;
use ast_parser::combinators::WhitespaceParser;
use ast_parser::math::IntParser;

#[test]
fn tests_parses_positive_number() {
    let actual = IntParser().parse("123,456").unwrap();
    let expected = (",456", Some(ASTNode::Number(123)));
    assert_eq!(actual, expected);
}

#[test]
fn tests_parses_negative_number() {
    let actual = IntParser().parse("-123,456").unwrap();
    let expected = (",456", Some(ASTNode::Number(-123)));
    assert_eq!(actual, expected);
}

#[test]
fn tests_fails_for_bare_negative_sign() {
    let Err(_) = IntParser().parse("-") else {
        panic!("Should have returned Err");
    };
}

#[test]
fn tests_fails_for_empty_string() {
    let Err(_) = IntParser().parse("-") else {
        panic!("Should have returned Err");
    };
}

fn check_passes(start_string: &str, end_string: &str, literal: &'static str) {
    let actual = LiteralParser(literal).parse(start_string).unwrap();
    let expected = (end_string, None);
    assert_eq!(actual, expected);
}

#[test]
fn tests_parses_single_character_literal() {
    check_passes("APPLE", "PPLE", "A");
}

#[test]
fn tests_parses_multi_character_literal() {
    check_passes("APPLE", "LE", "APP");
}

#[test]
fn tests_fails() {
    let Err(_) = LiteralParser("FRANK").parse("GEORGE") else {
        panic!("Should have failed");
    };
}

fn check_matches(start_string: &str, end_string: &str, number: NumberType) {
    let actual = OptionParser(IntParser()).parse(start_string).unwrap();
    let expected = (end_string, Some(ASTNode::Number(number)));
    assert_eq!(actual, expected);
}

#[test]
fn tests_check_takes_one() {
    check_matches("500", "", 500);
}

#[test]
fn tests_check_takes_only_one() {
    check_matches("500-50", "-50", 500);
}

#[test]
fn tests_check_returns_success_when_absent() {
    let string = "GEORGE";
    let actual = OptionParser(IntParser()).parse(string).unwrap();
    let expected = (string, None);
    assert_eq!(actual, expected);
}

fn check(start_string: &str, end_string: &str) {
    let actual = WhitespaceParser().parse(start_string).unwrap();
    let expected = (end_string, None);
    assert_eq!(actual, expected);
}

#[test]
fn tests_takes_one_space() {
    check(" a", "a");
}

#[test]
fn tests_takes_many_spaces() {
    check("    a", "a");
}

#[test]
fn tests_takes_newline() {
    check("\n\na", "a");
}

#[test]
fn tests_takes_mixed() {
    check("\n  \n  a", "a");
}

#[test]
fn tests_passes_on_nothing() {
    check("a", "a");
}

#[test]
fn tests_parses_an_array() {
    let test_string = "[\"apple\",123,567,\"beef\",[123,456,\"pants\"]]";
    let actual = ast_parser::json::ArrayParser().parse(test_string).unwrap();
    let expected = (
        "",
        Some(ASTNode::Sequence(vec![
            ASTNode::String("apple"),
            ASTNode::Number(123),
            ASTNode::Number(567),
            ASTNode::String("beef"),
            ASTNode::Sequence(vec![
                ASTNode::Number(123),
                ASTNode::Number(456),
                ASTNode::String("pants"),
            ]),
        ])),
    );
    assert_eq!(actual, expected);
}

#[test]
fn tests_parses_an_array_with_trailing_comma() {
    let test_string = "[\"apple\",123,567,\"beef\",[123,456,\"pants\"],]";
    let actual = ast_parser::json::ArrayParser().parse(test_string).unwrap();
    let expected = (
        "",
        Some(ASTNode::Sequence(vec![
            ASTNode::String("apple"),
            ASTNode::Number(123),
            ASTNode::Number(567),
            ASTNode::String("beef"),
            ASTNode::Sequence(vec![
                ASTNode::Number(123),
                ASTNode::Number(456),
                ASTNode::String("pants"),
            ]),
        ])),
    );
    assert_eq!(actual, expected);
}
