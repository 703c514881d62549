use rlox::errors::{CLIError, ScannerError};
use rlox::scan::Scanner;
use rlox::token::{Token, TokenType};

fn scan(source: &str) -> Result<Vec<Token>, ScannerError> {
    let mut scanner = Scanner::new(source.to_string());
    scanner.scan_tokens()
}

fn kinds(tokens: &[Token]) -> Vec<TokenType> {
    tokens.iter().map(|t| t.kind).collect()
}

#[test]
fn empty_input_yields_single_terminal_token() {
    let tokens = scan("").unwrap();
    assert_eq!(tokens.len(), 1);
    assert_eq!(tokens[0].kind, TokenType::EndOfInput);
    assert_eq!(tokens[0].lexeme, "");
    assert_eq!(tokens[0].literal, "");
    assert_eq!(tokens[0].line, 1);
}

#[test]
fn every_successful_scan_ends_in_exactly_one_terminal_token() {
    for source in ["", "var x = 1;", "1 + 2 // done", "\"s\" fun"] {
        let tokens = scan(source).unwrap();
        assert!(!tokens.is_empty());
        assert_eq!(tokens.last().unwrap().kind, TokenType::EndOfInput);
        let terminals = tokens
            .iter()
            .filter(|t| t.kind == TokenType::EndOfInput)
            .count();
        assert_eq!(terminals, 1);
    }
}

#[test]
fn identifiers_are_tracked_across_lines() {
    let tokens = scan("a\nb\nc").unwrap();
    assert_eq!(
        kinds(&tokens),
        vec![
            TokenType::Identifier,
            TokenType::Identifier,
            TokenType::Identifier,
            TokenType::EndOfInput,
        ]
    );
    assert_eq!(tokens[0].line, 1);
    assert_eq!(tokens[1].line, 2);
    assert_eq!(tokens[2].line, 3);
    assert_eq!(tokens[3].line, 3);
}

#[test]
fn bang_equal_is_one_token() {
    let tokens = scan("!=").unwrap();
    assert_eq!(kinds(&tokens), vec![TokenType::BangEqual, TokenType::EndOfInput]);
    assert_eq!(tokens[0].lexeme, "!=");
}

#[test]
fn bang_alone_is_one_token() {
    let tokens = scan("!").unwrap();
    assert_eq!(kinds(&tokens), vec![TokenType::Bang, TokenType::EndOfInput]);
}

#[test]
fn separated_less_and_equal_stay_separate() {
    let tokens = scan("< = ").unwrap();
    assert_eq!(
        kinds(&tokens),
        vec![TokenType::Less, TokenType::Equal, TokenType::EndOfInput]
    );
}

#[test]
fn two_character_operators() {
    let tokens = scan("== <= >= != = < > !").unwrap();
    assert_eq!(
        kinds(&tokens),
        vec![
            TokenType::EqualEqual,
            TokenType::LessEqual,
            TokenType::GreaterEqual,
            TokenType::BangEqual,
            TokenType::Equal,
            TokenType::Less,
            TokenType::Greater,
            TokenType::Bang,
            TokenType::EndOfInput,
        ]
    );
}

#[test]
fn single_character_tokens() {
    let tokens = scan("(){},.-+;*/").unwrap();
    assert_eq!(
        kinds(&tokens),
        vec![
            TokenType::LeftParen,
            TokenType::RightParen,
            TokenType::LeftBrace,
            TokenType::RightBrace,
            TokenType::Comma,
            TokenType::Dot,
            TokenType::Minus,
            TokenType::Plus,
            TokenType::Semicolon,
            TokenType::Star,
            TokenType::Slash,
            TokenType::EndOfInput,
        ]
    );
}

#[test]
fn fractional_number_is_one_token() {
    let tokens = scan("123.456").unwrap();
    assert_eq!(kinds(&tokens), vec![TokenType::Number, TokenType::EndOfInput]);
    assert_eq!(tokens[0].literal, "123.456");
    assert_eq!(tokens[0].lexeme, "123.456");
}

#[test]
fn trailing_dot_is_not_part_of_the_number() {
    let tokens = scan("123.").unwrap();
    assert_eq!(
        kinds(&tokens),
        vec![TokenType::Number, TokenType::Dot, TokenType::EndOfInput]
    );
    assert_eq!(tokens[0].literal, "123");
}

#[test]
fn leading_dot_is_not_part_of_the_number() {
    let tokens = scan(".5").unwrap();
    assert_eq!(
        kinds(&tokens),
        vec![TokenType::Dot, TokenType::Number, TokenType::EndOfInput]
    );
    assert_eq!(tokens[1].literal, "5");
}

#[test]
fn keyword_matching_is_exact_not_prefix_based() {
    let tokens = scan("print printer").unwrap();
    assert_eq!(
        kinds(&tokens),
        vec![TokenType::Print, TokenType::Identifier, TokenType::EndOfInput]
    );
    assert_eq!(tokens[0].literal, "");
    assert_eq!(tokens[1].literal, "printer");
}

#[test]
fn all_sixteen_keywords_are_recognized() {
    let tokens =
        scan("and class else false for fun if nil or print return super this true var while")
            .unwrap();
    assert_eq!(
        kinds(&tokens),
        vec![
            TokenType::And,
            TokenType::Class,
            TokenType::Else,
            TokenType::False,
            TokenType::For,
            TokenType::Fun,
            TokenType::If,
            TokenType::Nil,
            TokenType::Or,
            TokenType::Print,
            TokenType::Return,
            TokenType::Super,
            TokenType::This,
            TokenType::True,
            TokenType::Var,
            TokenType::While,
            TokenType::EndOfInput,
        ]
    );
}

#[test]
fn unterminated_string_fails() {
    let err = scan("\"abc").unwrap_err();
    assert_eq!(err, ScannerError::UnterminatedString(1));
}

#[test]
fn terminated_string_carries_its_body_as_literal() {
    let tokens = scan("\"abc\"").unwrap();
    assert_eq!(kinds(&tokens), vec![TokenType::String, TokenType::EndOfInput]);
    assert_eq!(tokens[0].literal, "abc");
    assert_eq!(tokens[0].lexeme, "\"abc\"");
}

#[test]
fn multi_line_string_starts_on_its_opening_line() {
    let tokens = scan("\"a\nb\" x").unwrap();
    assert_eq!(
        kinds(&tokens),
        vec![TokenType::String, TokenType::Identifier, TokenType::EndOfInput]
    );
    assert_eq!(tokens[0].literal, "a\nb");
    assert_eq!(tokens[0].line, 1);
    assert_eq!(tokens[1].line, 2);
}

#[test]
fn unterminated_multi_line_string_reports_the_line_the_scan_stopped_on() {
    let err = scan("\"a\nbc").unwrap_err();
    assert_eq!(err, ScannerError::UnterminatedString(2));
}

#[test]
fn unexpected_character_fails() {
    let err = scan("@").unwrap_err();
    assert_eq!(err, ScannerError::UnexpectedCharacter('@', 1));
}

#[test]
fn comments_are_skipped_and_never_appear_in_a_lexeme() {
    let tokens = scan("// comment\n123").unwrap();
    assert_eq!(kinds(&tokens), vec![TokenType::Number, TokenType::EndOfInput]);
    assert_eq!(tokens[0].literal, "123");
    assert_eq!(tokens[0].line, 2);
}

#[test]
fn comment_at_end_of_input_leaves_only_the_terminal_token() {
    let tokens = scan("//x").unwrap();
    assert_eq!(kinds(&tokens), vec![TokenType::EndOfInput]);
    assert_eq!(tokens[0].line, 1);
}

#[test]
fn underscore_starts_an_identifier_but_does_not_continue_one() {
    let tokens = scan("_x foo_bar").unwrap();
    assert_eq!(
        kinds(&tokens),
        vec![
            TokenType::Identifier,
            TokenType::Identifier,
            TokenType::Identifier,
            TokenType::EndOfInput,
        ]
    );
    assert_eq!(tokens[0].literal, "_x");
    assert_eq!(tokens[1].literal, "foo");
    assert_eq!(tokens[2].literal, "_bar");
}

#[test]
fn identifier_continues_over_unicode_alphanumerics() {
    let tokens = scan("héllo").unwrap();
    assert_eq!(kinds(&tokens), vec![TokenType::Identifier, TokenType::EndOfInput]);
    assert_eq!(tokens[0].literal, "héllo");
}

#[test]
fn carriage_return_and_tab_are_skipped_without_counting_lines() {
    let tokens = scan("a\r\n\tb").unwrap();
    assert_eq!(
        kinds(&tokens),
        vec![TokenType::Identifier, TokenType::Identifier, TokenType::EndOfInput]
    );
    assert_eq!(tokens[0].line, 1);
    assert_eq!(tokens[1].line, 2);
}

#[test]
fn round_trip_of_lexemes_and_skipped_spans() {
    let source = "var x = 12.5; // tail\nprint \"x\"";
    let tokens = scan(source).unwrap();
    // Every lexeme occurs in the source, in order, with only whitespace and
    // comment text between the spans.
    let mut rest: &str = source;
    let mut rebuilt = String::new();
    for t in tokens.iter().take(tokens.len() - 1) {
        let at = rest.find(t.lexeme.as_str()).unwrap();
        rebuilt.push_str(&rest[..at]);
        rebuilt.push_str(t.lexeme.as_str());
        rest = &rest[at + t.lexeme.len()..];
    }
    rebuilt.push_str(rest);
    assert_eq!(rebuilt, source);
}

#[test]
fn display_renders_line_kind_lexeme_and_literal() {
    let tokens = scan("x").unwrap();
    assert_eq!(
        tokens[0].display(),
        "line: 1, type: Identifier, lexeme: x, literal: x"
    );
    assert_eq!(
        tokens[1].display(),
        "line: 1, type: EndOfInput, lexeme: , literal: "
    );
}

#[test]
fn display_renders_multi_digit_lines() {
    let source = "\n\n\n\n\n\n\n\n\n\n\n\n205";
    let tokens = scan(source).unwrap();
    assert_eq!(tokens[0].line, 13);
    assert_eq!(
        tokens[0].display(),
        "line: 13, type: Number, lexeme: 205, literal: 205"
    );
}

#[test]
fn scanner_error_reports_line_and_message() {
    let err = scan("\n\n@").unwrap_err();
    assert_eq!(err, ScannerError::UnexpectedCharacter('@', 3));
    assert_eq!(err.line(), 3);
    assert_eq!(err.message(), "Unexpected character '@'");
    let err = scan("\"oops").unwrap_err();
    assert_eq!(err.line(), 1);
    assert_eq!(err.message(), "Unterminated string");
}

#[test]
fn cli_error_message() {
    assert_eq!(CLIError::TooManyArguments.message(), "Too many arguments");
}

#[test]
fn error_aborts_the_scan_at_the_first_offence() {
    let err = scan("var x @ y $").unwrap_err();
    assert_eq!(err, ScannerError::UnexpectedCharacter('@', 1));
}

#[test]
fn numbers_followed_by_member_access_style_dots() {
    let tokens = scan("123..456").unwrap();
    assert_eq!(
        kinds(&tokens),
        vec![
            TokenType::Number,
            TokenType::Dot,
            TokenType::Dot,
            TokenType::Number,
            TokenType::EndOfInput,
        ]
    );
    assert_eq!(tokens[0].literal, "123");
    assert_eq!(tokens[3].literal, "456");
}
