use minilang::lexer::{Lexer, Token};

fn scan_all(input: &str) -> Vec<Token> {
    let mut lexer = Lexer::new(input);
    let mut tokens = Vec::new();
    loop {
        let t = lexer.get_next_token();
        let done = matches!(t, Token::Error);
        tokens.push(t);
        if done || tokens.len() > 100 {
            return tokens;
        }
    }
}

#[test]
fn integer_literal() {
    let mut lexer = Lexer::new("42");
    assert_eq!(lexer.get_next_token(), Token::Integer(42));
}

#[test]
fn float_literal() {
    let mut lexer = Lexer::new("3.14");
    match lexer.get_next_token() {
        Token::Float(text) => {
            assert_eq!(text, "3.14");
            assert_eq!(text.parse::<f64>().unwrap(), 3.14);
        },
        other => panic!("expected a float token, got {:?}", other),
    }
}

#[test]
fn string_literal() {
    let mut lexer = Lexer::new("\"abc\"");
    assert_eq!(lexer.get_next_token(), Token::StrLit(String::from("abc")));
}

#[test]
fn empty_string_literal() {
    let mut lexer = Lexer::new("\"\"");
    assert_eq!(lexer.get_next_token(), Token::StrLit(String::new()));
}

#[test]
fn boolean_literals_via_keyword_dispatch() {
    let mut lexer = Lexer::new("true false");
    assert_eq!(lexer.get_next_token(), Token::Boolean(true));
    assert_eq!(lexer.get_next_token(), Token::Boolean(false));
}

#[test]
fn comment_then_identifier() {
    let mut lexer = Lexer::new("# hello\nx");
    assert_eq!(lexer.get_next_token(), Token::Comment(String::from(" hello")));
    assert_eq!(lexer.get_next_token(), Token::Identifier(String::from("x")));
}

#[test]
fn comment_runs_to_end_of_input() {
    let mut lexer = Lexer::new("#abc");
    assert_eq!(lexer.get_next_token(), Token::Comment(String::from("abc")));
    assert_eq!(lexer.get_next_token(), Token::Error);
}

#[test]
fn keywords_never_become_identifiers() {
    assert_eq!(
        scan_all("import if else print true false"),
        vec![
            Token::Import,
            Token::If,
            Token::Else,
            Token::Print,
            Token::Boolean(true),
            Token::Boolean(false),
            Token::Error,
        ]
    );
}

#[test]
fn near_miss_keyword_is_identifier() {
    let mut lexer = Lexer::new("iff");
    assert_eq!(lexer.get_next_token(), Token::Identifier(String::from("iff")));
    let mut lexer = Lexer::new("Import");
    assert_eq!(lexer.get_next_token(), Token::Identifier(String::from("Import")));
    let mut lexer = Lexer::new("truth");
    assert_eq!(lexer.get_next_token(), Token::Identifier(String::from("truth")));
}

#[test]
fn identifier_takes_alphanumerics_and_underscore() {
    let mut lexer = Lexer::new("a_1b c");
    assert_eq!(lexer.get_next_token(), Token::Identifier(String::from("a_1b")));
    assert_eq!(lexer.get_next_token(), Token::Identifier(String::from("c")));
}

#[test]
fn unterminated_string_is_error_at_end() {
    let mut lexer = Lexer::new("\"abc");
    assert_eq!(lexer.get_next_token(), Token::Error);
    // The cursor is at end of input: scanning again keeps returning Error.
    assert_eq!(lexer.get_next_token(), Token::Error);
    assert_eq!(lexer.get_next_token(), Token::Error);
}

#[test]
fn rescan_past_end_keeps_returning_error() {
    let mut lexer = Lexer::new("x");
    assert_eq!(lexer.get_next_token(), Token::Identifier(String::from("x")));
    for _ in 0..10 {
        assert_eq!(lexer.get_next_token(), Token::Error);
    }
}

#[test]
fn empty_input_scans_to_error() {
    let mut lexer = Lexer::new("");
    assert_eq!(lexer.get_next_token(), Token::Error);
}

#[test]
fn whitespace_only_scans_to_error() {
    let mut lexer = Lexer::new(" \t\n  ");
    assert_eq!(lexer.get_next_token(), Token::Error);
}

#[test]
fn unrecognized_character_is_error() {
    let mut lexer = Lexer::new("?");
    assert_eq!(lexer.get_next_token(), Token::Error);
}

#[test]
fn second_dot_ends_float() {
    let mut lexer = Lexer::new("3.14.15");
    assert_eq!(lexer.get_next_token(), Token::Float(String::from("3.14")));
    // The second dot is left unconsumed; no production starts with it.
    assert_eq!(lexer.get_next_token(), Token::Error);
}

#[test]
fn trailing_dot_still_a_float() {
    let mut lexer = Lexer::new("12.");
    match lexer.get_next_token() {
        Token::Float(text) => {
            assert_eq!(text, "12.");
            assert_eq!(text.parse::<f64>().unwrap(), 12.0);
        },
        other => panic!("expected a float token, got {:?}", other),
    }
}

#[test]
fn largest_integer_fits() {
    let mut lexer = Lexer::new("9223372036854775807");
    assert_eq!(lexer.get_next_token(), Token::Integer(i64::MAX));
}

#[test]
fn oversized_integer_is_the_fatal_case() {
    let mut lexer = Lexer::new("9223372036854775808");
    assert_eq!(lexer.get_next_token_checked(), None);
    let mut lexer = Lexer::new("99999999999999999999");
    assert_eq!(lexer.get_next_token_checked(), None);
    let mut lexer = Lexer::new("9223372036854775807");
    assert_eq!(
        lexer.get_next_token_checked(),
        Some(Token::Integer(i64::MAX))
    );
}

#[test]
fn oversized_integer_inside_float_is_harmless() {
    let mut lexer = Lexer::new("99999999999999999999.0");
    match lexer.get_next_token_checked() {
        Some(Token::Float(text)) => assert_eq!(text, "99999999999999999999.0"),
        other => panic!("expected a float token, got {:?}", other),
    }
}

#[test]
fn skip_whitespace_stops_at_content() {
    let mut lexer = Lexer::new("   x");
    lexer.skip_whitespace();
    assert_eq!(lexer.get_identifier(), String::from("x"));
}

#[test]
fn get_identifier_takes_maximal_run() {
    let mut lexer = Lexer::new("abc12 rest");
    assert_eq!(lexer.get_identifier(), String::from("abc12"));
}

#[test]
fn advance_moves_one_character() {
    let mut lexer = Lexer::new("ab");
    lexer.advance();
    assert_eq!(lexer.get_identifier(), String::from("b"));
}

#[test]
fn boolean_matcher_accepts_the_two_words() {
    let mut lexer = Lexer::new("true");
    assert_eq!(lexer.get_boolean(), Token::Boolean(true));
    let mut lexer = Lexer::new("false");
    assert_eq!(lexer.get_boolean(), Token::Boolean(false));
}

#[test]
fn boolean_matcher_errors_on_mismatch_keeping_prefix_consumed() {
    let mut lexer = Lexer::new("truX");
    assert_eq!(lexer.get_boolean(), Token::Error);
    // `tru` was consumed; the mismatching character is next.
    assert_eq!(lexer.get_next_token(), Token::Identifier(String::from("X")));
    let mut lexer = Lexer::new("xyz");
    assert_eq!(lexer.get_boolean(), Token::Error);
    assert_eq!(lexer.get_next_token(), Token::Identifier(String::from("xyz")));
}

#[test]
fn unicode_text_in_strings_and_comments() {
    let mut lexer = Lexer::new("\"héllo\" # naïve");
    assert_eq!(lexer.get_next_token(), Token::StrLit(String::from("héllo")));
    assert_eq!(lexer.get_next_token(), Token::Comment(String::from(" naïve")));
}

#[test]
fn digit_ends_before_letters() {
    let mut lexer = Lexer::new("1x");
    assert_eq!(lexer.get_next_token(), Token::Integer(1));
    assert_eq!(lexer.get_next_token(), Token::Identifier(String::from("x")));
}

#[test]
fn unicode_whitespace_is_skipped() {
    let mut lexer = Lexer::new("\u{00A0}\u{2003}x");
    assert_eq!(lexer.get_next_token(), Token::Identifier(String::from("x")));
}

#[test]
fn unicode_alphabetic_starts_an_identifier() {
    let mut lexer = Lexer::new("émile");
    assert_eq!(lexer.get_next_token(), Token::Identifier(String::from("émile")));
}

#[test]
fn zero_and_leading_zeros() {
    let mut lexer = Lexer::new("0 007");
    assert_eq!(lexer.get_next_token(), Token::Integer(0));
    assert_eq!(lexer.get_next_token(), Token::Integer(7));
}

#[test]
fn string_keeps_inner_whitespace_and_hash() {
    let mut lexer = Lexer::new("\"a # b\nc\"");
    assert_eq!(
        lexer.get_next_token(),
        Token::StrLit(String::from("a # b\nc"))
    );
}
