use loxide::scanner::{is_alpha, is_alphanumeric, is_digit, scan, ScanError, Scanner};
use loxide::tokens::{keyword_token, token_text, Token};

#[test]
fn scans_arithmetic_expression() {
    let toks = scan("1 + 2 * 3").unwrap();
    assert_eq!(
        toks,
        vec![
            Token::Number("1".to_string()),
            Token::Plus,
            Token::Number("2".to_string()),
            Token::Star,
            Token::Number("3".to_string()),
            Token::Eof,
        ]
    );
}

#[test]
fn whitespace_and_comments_scan_to_end_marker_only() {
    let toks = scan("  // hello world\n\n   ").unwrap();
    assert_eq!(toks, vec![Token::Eof]);
    let toks = scan("// only a comment").unwrap();
    assert_eq!(toks, vec![Token::Eof]);
    let toks = scan("").unwrap();
    assert_eq!(toks, vec![Token::Eof]);
}

#[test]
fn comment_discards_rest_of_line() {
    let toks = scan("1 // 2 + 3\n4").unwrap();
    assert_eq!(
        toks,
        vec![
            Token::Number("1".to_string()),
            Token::Number("4".to_string()),
            Token::Eof,
        ]
    );
}

#[test]
fn two_character_operators_peek_one_ahead() {
    let toks = scan("!= == <= >= ! = < > /").unwrap();
    assert_eq!(
        toks,
        vec![
            Token::BangEqual,
            Token::EqualEqual,
            Token::LessEqual,
            Token::GreaterEqual,
            Token::Bang,
            Token::Equal,
            Token::Less,
            Token::Greater,
            Token::Slash,
            Token::Eof,
        ]
    );
}

#[test]
fn punctuation_tokens() {
    let toks = scan("(){},.;-+*").unwrap();
    assert_eq!(
        toks,
        vec![
            Token::LeftParen,
            Token::RightParen,
            Token::LeftBrace,
            Token::RightBrace,
            Token::Comma,
            Token::Dot,
            Token::Semicolon,
            Token::Minus,
            Token::Plus,
            Token::Star,
            Token::Eof,
        ]
    );
}

#[test]
fn string_literal_value_has_no_quotes() {
    let toks = scan("\"abc\"").unwrap();
    assert_eq!(toks, vec![Token::Str("abc".to_string()), Token::Eof]);
}

#[test]
fn string_literal_spans_lines_without_newline_in_value() {
    let toks = scan("\"ab\ncd\"").unwrap();
    assert_eq!(toks, vec![Token::Str("abcd".to_string()), Token::Eof]);
}

#[test]
fn unterminated_string_is_exactly_one_error_and_no_token() {
    let errs = scan("\"abc").unwrap_err();
    assert_eq!(
        errs,
        vec![ScanError::UnterminatedString {
            line_str: "\"abc".to_string(),
            line_index: 0,
            col_index: 0,
        }]
    );
}

#[test]
fn unterminated_string_references_final_line_scanned() {
    let errs = scan("\"ab\ncd").unwrap_err();
    assert_eq!(
        errs,
        vec![ScanError::UnterminatedString {
            line_str: "cd".to_string(),
            line_index: 1,
            col_index: 0,
        }]
    );
}

#[test]
fn trailing_dot_is_not_part_of_the_number() {
    let toks = scan("1.").unwrap();
    assert_eq!(
        toks,
        vec![Token::Number("1".to_string()), Token::Dot, Token::Eof]
    );
    let toks = scan("1.2.3").unwrap();
    assert_eq!(
        toks,
        vec![
            Token::Number("1.2".to_string()),
            Token::Dot,
            Token::Number("3".to_string()),
            Token::Eof,
        ]
    );
}

#[test]
fn non_ascii_numeric_lexeme_is_a_number_parse_error() {
    // ARABIC-INDIC DIGIT ZERO has the Numeric property but does not
    // parse as a double
    let errs = scan("\u{0660}").unwrap_err();
    assert_eq!(
        errs,
        vec![ScanError::NumberLiteralParse {
            number: "\u{0660}".to_string(),
            line_str: "\u{0660}".to_string(),
            line_index: 0,
            col_index: 0,
        }]
    );
}

#[test]
fn combining_mark_stays_inside_its_grapheme_cluster() {
    // 'a' followed by a combining acute accent is one user-perceived
    // character, so the whole cluster joins the identifier
    let toks = scan("a\u{0301}b").unwrap();
    assert_eq!(
        toks,
        vec![Token::Identifier("a\u{0301}b".to_string()), Token::Eof]
    );
    // a digit with a combining mark is one cluster too: the lexeme does
    // not parse as a double, which a character-based scanner would miss
    let errs = scan("1\u{0301}").unwrap_err();
    assert_eq!(
        errs,
        vec![ScanError::NumberLiteralParse {
            number: "1\u{0301}".to_string(),
            line_str: "1\u{0301}".to_string(),
            line_index: 0,
            col_index: 0,
        }]
    );
}

#[test]
fn unexpected_character_is_recorded_with_position() {
    let errs = scan("@").unwrap_err();
    assert_eq!(
        errs,
        vec![ScanError::UnexpectedChar {
            ch: "@".to_string(),
            line_str: "@".to_string(),
            line_index: 0,
            col_index: 0,
        }]
    );
}

#[test]
fn errors_accumulate_over_the_whole_source() {
    let errs = scan("@ #\n$").unwrap_err();
    assert_eq!(errs.len(), 3);
}

#[test]
fn keywords_are_case_sensitive_reserved_words() {
    let toks = scan("and class else false for fun if nil or print return super this true var while")
        .unwrap();
    assert_eq!(
        toks,
        vec![
            Token::And,
            Token::Class,
            Token::Else,
            Token::False,
            Token::For,
            Token::Fun,
            Token::If,
            Token::Nil,
            Token::Or,
            Token::Print,
            Token::Return,
            Token::Super,
            Token::This,
            Token::True,
            Token::Var,
            Token::While,
            Token::Eof,
        ]
    );
    let toks = scan("andy And").unwrap();
    assert_eq!(
        toks,
        vec![
            Token::Identifier("andy".to_string()),
            Token::Identifier("And".to_string()),
            Token::Eof,
        ]
    );
}

#[test]
fn keyword_lookup() {
    assert_eq!(keyword_token("and"), Some(Token::And));
    assert_eq!(keyword_token("while"), Some(Token::While));
    assert_eq!(keyword_token("foo"), None);
}

#[test]
fn grapheme_classification() {
    assert!(is_digit("5"));
    assert!(!is_digit("a"));
    assert!(!is_digit(""));
    assert!(is_digit("\u{0660}"));
    assert!(is_alpha("a"));
    assert!(is_alpha("Z"));
    assert!(!is_alpha("5"));
    assert!(is_alphanumeric("a"));
    assert!(is_alphanumeric("5"));
    assert!(!is_alphanumeric(";"));
}

#[test]
fn scanner_struct_holds_the_outcome() {
    let s = Scanner::new("1".to_string());
    assert_eq!(
        s.tokens(),
        &Ok(vec![Token::Number("1".to_string()), Token::Eof])
    );
    let r = Scanner::scan_tokens("@");
    assert!(r.is_err());
}

#[test]
fn token_text_renders_tokens() {
    assert_eq!(token_text(&Token::BangEqual), "!=");
    assert_eq!(token_text(&Token::LeftParen), "(");
    assert_eq!(token_text(&Token::Number("1.5".to_string())), "1.5");
    assert_eq!(token_text(&Token::Identifier("foo".to_string())), "foo");
    assert_eq!(token_text(&Token::And), "And");
    assert_eq!(token_text(&Token::Eof), "Eof");
}
