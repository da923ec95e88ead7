use minilang::parser::{parse_source, parse_source_checked, scan_all_fits, AstNode, Parser,
    token_eq};
use minilang::lexer::Token;

fn children(node: AstNode) -> Vec<AstNode> {
    match node {
        AstNode::Program(nodes) => nodes,
        other => panic!("expected a program node, got {:?}", other),
    }
}

#[test]
fn totality_on_empty_input() {
    assert_eq!(children(parse_source("")), vec![]);
}

#[test]
fn totality_on_whitespace() {
    assert_eq!(children(parse_source("  \n\t ")), vec![]);
}

#[test]
fn totality_on_unrecognized_symbol() {
    // The unrecognized character scans to the Error sentinel, which ends
    // the program before any statement is taken.
    assert_eq!(children(parse_source("?!")), vec![]);
}

#[test]
fn leaf_statements_in_source_order() {
    assert_eq!(
        children(parse_source("x 42 \"s\" true # done")),
        vec![
            AstNode::Identifier(String::from("x")),
            AstNode::Integer(42),
            AstNode::StrLit(String::from("s")),
            AstNode::Boolean(true),
            AstNode::Comment(String::from(" done")),
        ]
    );
}

#[test]
fn float_statement_keeps_text() {
    assert_eq!(
        children(parse_source("2.5")),
        vec![AstNode::Float(String::from("2.5"))]
    );
}

#[test]
fn import_with_string() {
    assert_eq!(
        children(parse_source("import \"mod\"")),
        vec![AstNode::Import(String::from("mod"))]
    );
}

#[test]
fn import_with_non_string_yields_error_with_import_consumed() {
    // The import keyword is consumed, the dispatch yields an Error node,
    // and the non-string token is left for the program loop.
    assert_eq!(
        children(parse_source("import 123")),
        vec![AstNode::Error, AstNode::Integer(123)]
    );
}

#[test]
fn import_at_end_of_input() {
    assert_eq!(children(parse_source("import")), vec![AstNode::Error]);
}

#[test]
fn if_else_with_one_statement_each_branch() {
    let program = children(parse_source("if true print \"a\" else print \"b\""));
    assert_eq!(
        program,
        vec![AstNode::If(
            Box::new(AstNode::Boolean(true)),
            vec![AstNode::Print(vec![AstNode::StrLit(String::from("a"))])],
            vec![AstNode::Print(vec![AstNode::StrLit(String::from("b"))])],
        )]
    );
}

#[test]
fn statement_after_if_else_is_absorbed_not_a_sibling() {
    // The else-branch runs to end of input, and the print inside it does
    // too, so the would-be second top-level statement lands inside the
    // print's arguments rather than beside the if.
    let program = children(parse_source("if true print \"a\" else print \"b\" x"));
    assert_eq!(
        program,
        vec![AstNode::If(
            Box::new(AstNode::Boolean(true)),
            vec![AstNode::Print(vec![AstNode::StrLit(String::from("a"))])],
            vec![AstNode::Print(vec![
                AstNode::StrLit(String::from("b")),
                AstNode::Identifier(String::from("x")),
            ])],
        )]
    );
}

#[test]
fn if_without_else_ends_at_input_end() {
    // The then-branch stops at the Error sentinel when no `else` comes; the
    // else-branch is empty.
    assert_eq!(
        children(parse_source("if x y")),
        vec![AstNode::If(
            Box::new(AstNode::Identifier(String::from("x"))),
            vec![AstNode::Identifier(String::from("y"))],
            vec![],
        )]
    );
}

#[test]
fn if_at_end_of_input() {
    assert_eq!(
        children(parse_source("if")),
        vec![AstNode::If(Box::new(AstNode::Error), vec![], vec![])]
    );
}

#[test]
fn print_absorbs_all_remaining_arguments() {
    assert_eq!(
        children(parse_source("print 1 2 \"three\"")),
        vec![AstNode::Print(vec![
            AstNode::Integer(1),
            AstNode::Integer(2),
            AstNode::StrLit(String::from("three")),
        ])]
    );
}

#[test]
fn print_with_no_arguments() {
    assert_eq!(children(parse_source("print")), vec![AstNode::Print(vec![])]);
}

#[test]
fn stray_else_becomes_error_and_parsing_goes_on() {
    assert_eq!(
        children(parse_source("else x")),
        vec![AstNode::Error, AstNode::Identifier(String::from("x"))]
    );
}

#[test]
fn parser_can_be_driven_by_hand() {
    let mut parser = Parser::new("7");
    assert_eq!(parser.parse(), AstNode::Program(vec![AstNode::Integer(7)]));
}

#[test]
fn token_eq_compares_variant_and_payload() {
    assert!(token_eq(&Token::Integer(1), &Token::Integer(1)));
    assert!(!token_eq(&Token::Integer(1), &Token::Integer(2)));
    assert!(token_eq(
        &Token::Identifier(String::from("a")),
        &Token::Identifier(String::from("a"))
    ));
    assert!(!token_eq(
        &Token::Identifier(String::from("a")),
        &Token::StrLit(String::from("a"))
    ));
    assert!(token_eq(&Token::Else, &Token::Else));
    assert!(!token_eq(&Token::Else, &Token::Error));
}

#[test]
fn checked_parse_reports_the_fatal_input() {
    assert_eq!(parse_source_checked("print 99999999999999999999"), None);
    assert!(!scan_all_fits("x 99999999999999999999 y"));
    assert!(scan_all_fits("x 9223372036854775807 y"));
    assert_eq!(
        parse_source_checked("42"),
        Some(AstNode::Program(vec![AstNode::Integer(42)]))
    );
}

#[test]
fn fatal_integer_after_the_first_error_is_never_scanned() {
    // The scan stops at the first Error sentinel; an oversized literal
    // beyond it is never reached.
    assert!(scan_all_fits("x ? 99999999999999999999"));
}

#[test]
fn comments_are_statements() {
    assert_eq!(
        children(parse_source("# a\n# b")),
        vec![
            AstNode::Comment(String::from(" a")),
            AstNode::Comment(String::from(" b")),
        ]
    );
}

#[test]
fn nested_if_absorbs_like_the_grammar_says() {
    // The inner if's else-branch swallows everything to end of input.
    let program = children(parse_source("if a b else if c d else e"));
    assert_eq!(
        program,
        vec![AstNode::If(
            Box::new(AstNode::Identifier(String::from("a"))),
            vec![AstNode::Identifier(String::from("b"))],
            vec![AstNode::If(
                Box::new(AstNode::Identifier(String::from("c"))),
                vec![AstNode::Identifier(String::from("d"))],
                vec![AstNode::Identifier(String::from("e"))],
            )],
        )]
    );
}
