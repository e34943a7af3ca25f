use seq_expand::substitute::{parse_ident, substitute_target};
use seq_expand::token::{Delimiter, Spacing, Token};

fn ident(name: &str) -> Token {
    Token::Ident(name.to_string())
}

fn lit(text: &str) -> Token {
    Token::Literal(text.to_string())
}

fn punct(c: char) -> Token {
    Token::Punct(c, Spacing::Alone)
}

fn group(d: Delimiter, inner: Vec<Token>) -> Token {
    Token::Group(d, inner)
}

fn sub(body: &Vec<Token>, target: &str, text: &str) -> Vec<Token> {
    substitute_target(body, &target.to_string(), &text.to_string())
}

#[test]
fn splice_with_prefix_and_suffix_gives_one_identifier() {
    let body = vec![ident("field"), punct('~'), ident("N"), punct('~'), ident("len")];
    assert_eq!(sub(&body, "N", "3"), vec![ident("field3len")]);
}

#[test]
fn splice_keeps_a_zero_as_written() {
    let body = vec![ident("field"), punct('~'), ident("N"), punct('~'), ident("len")];
    assert_eq!(sub(&body, "N", "0"), vec![ident("field0len")]);
}

#[test]
fn splice_with_prefix_only() {
    let body = vec![ident("Irq"), punct('~'), ident("N"), punct(',')];
    assert_eq!(sub(&body, "N", "15"), vec![ident("Irq15"), punct(',')]);
}

#[test]
fn splice_at_the_end_of_the_body() {
    let body = vec![ident("a"), punct('~'), ident("N")];
    assert_eq!(sub(&body, "N", "7"), vec![ident("a7")]);
}

#[test]
fn bare_variable_becomes_a_literal() {
    let body = vec![ident("x"), punct('+'), ident("N")];
    assert_eq!(sub(&body, "N", "2"), vec![ident("x"), punct('+'), lit("2")]);
}

#[test]
fn variable_as_prefix_is_spliced_not_replaced() {
    let body = vec![ident("N"), punct('~'), ident("N")];
    assert_eq!(sub(&body, "N", "4"), vec![ident("N4")]);
}

#[test]
fn variable_before_a_tilde_and_another_name_is_replaced() {
    let body = vec![ident("N"), punct('~'), ident("x")];
    assert_eq!(sub(&body, "N", "4"), vec![lit("4"), punct('~'), ident("x")]);
}

#[test]
fn suffix_may_be_the_variable_itself() {
    let body = vec![ident("a"), punct('~'), ident("N"), punct('~'), ident("N")];
    assert_eq!(sub(&body, "N", "1"), vec![ident("a1N")]);
}

#[test]
fn tilde_without_a_name_behind_it_ends_the_splice() {
    let body = vec![ident("a"), punct('~'), ident("N"), punct('~'), lit("9")];
    assert_eq!(sub(&body, "N", "1"), vec![ident("a1"), punct('~'), lit("9")]);
}

#[test]
fn dangling_tilde_passes_through() {
    let body = vec![ident("a"), punct('~')];
    assert_eq!(sub(&body, "N", "1"), vec![ident("a"), punct('~')]);
}

#[test]
fn joint_tilde_counts_as_tilde() {
    let body = vec![ident("a"), Token::Punct('~', Spacing::Joint), ident("N")];
    assert_eq!(sub(&body, "N", "1"), vec![ident("a1")]);
}

#[test]
fn groups_are_entered_and_keep_their_delimiter() {
    let body = vec![
        ident("arr"),
        group(Delimiter::Bracket, vec![ident("N")]),
        group(Delimiter::Brace, vec![group(Delimiter::Parenthesis, vec![ident("f"), punct('~'), ident("N")])]),
        group(Delimiter::Invisible, vec![]),
    ];
    let expected = vec![
        ident("arr"),
        group(Delimiter::Bracket, vec![lit("5")]),
        group(Delimiter::Brace, vec![group(Delimiter::Parenthesis, vec![ident("f5")])]),
        group(Delimiter::Invisible, vec![]),
    ];
    assert_eq!(sub(&body, "N", "5"), expected);
}

#[test]
fn splice_does_not_reach_across_a_group_boundary() {
    let body = vec![ident("a"), punct('~'), group(Delimiter::Parenthesis, vec![ident("N")])];
    let expected = vec![ident("a"), punct('~'), group(Delimiter::Parenthesis, vec![lit("1")])];
    assert_eq!(sub(&body, "N", "1"), expected);
}

#[test]
fn body_without_the_variable_is_unchanged() {
    let body = vec![
        ident("let"),
        ident("x"),
        punct('='),
        lit("\"N\""),
        Token::Punct('+', Spacing::Joint),
        punct('='),
        group(Delimiter::Parenthesis, vec![ident("M"), punct('~'), ident("y")]),
    ];
    assert_eq!(sub(&body, "N", "3"), body);
}

#[test]
fn literals_that_spell_the_variable_are_kept() {
    let body = vec![lit("N"), punct('N')];
    assert_eq!(sub(&body, "N", "3"), body);
}

#[test]
fn empty_body_gives_empty_output() {
    assert_eq!(sub(&Vec::new(), "N", "3"), Vec::<Token>::new());
}

#[test]
fn input_is_left_as_it_was() {
    let body = vec![ident("N"), group(Delimiter::Brace, vec![ident("N")])];
    let copy = body.clone();
    let _ = sub(&body, "N", "3");
    assert_eq!(body, copy);
}

#[test]
fn parse_ident_reports_how_many_tokens_it_replaces() {
    let body = vec![ident("p"), punct('~'), ident("N"), punct('~'), ident("s"), ident("N"), ident("q")];
    let n = "N".to_string();
    let v = "8".to_string();
    assert_eq!(parse_ident(&body, 0, &v, &n), Some((ident("p8s"), 5)));
    assert_eq!(parse_ident(&body, 5, &v, &n), Some((lit("8"), 1)));
    assert_eq!(parse_ident(&body, 6, &v, &n), None);
    assert_eq!(parse_ident(&body, 4, &v, &n), None);
}

#[test]
fn parse_ident_gives_nothing_where_no_identifier_stands() {
    let body = vec![punct('~'), ident("N")];
    let n = "N".to_string();
    let v = "8".to_string();
    assert_eq!(parse_ident(&body, 0, &v, &n), None);
    assert_eq!(parse_ident(&body, 2, &v, &n), None);
    assert_eq!(parse_ident(&body, usize::MAX, &v, &n), None);
    assert_eq!(parse_ident(&body, 1, &v, &n), Some((lit("8"), 1)));
}

#[test]
fn parse_ident_splices_a_prefix_without_suffix() {
    let body = vec![ident("p"), punct('~'), ident("N"), punct('~')];
    let n = "N".to_string();
    assert_eq!(parse_ident(&body, 0, &"12".to_string(), &n), Some((ident("p12"), 3)));
}

#[test]
fn clone_is_deep() {
    let t = group(Delimiter::Brace, vec![ident("a"), group(Delimiter::Bracket, vec![lit("1"), punct(';')])]);
    assert_eq!(t.clone(), t);
    assert_eq!(t.duplicate(), t);
}
