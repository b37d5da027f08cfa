use riven::compiler::{run_lexer, CompilerError};
use riven::lexing::lexer::{lex_text, LexerError};
use riven::lexing::token::{TokenType, TokenValue};
use riven::utils::{FileInfo, TextPos};

fn file(src: &str) -> FileInfo {
    FileInfo::from_text(src, "main.rvn".to_string())
}

#[test]
fn lexes_a_let_statement_with_positions() {
    let f = file("let a = 5;");
    let tokens = lex_text(&f).ok().unwrap();
    let kinds: Vec<TokenType> = tokens.iter().map(|t| t.token_type).collect();
    assert_eq!(
        kinds,
        vec![
            TokenType::Let,
            TokenType::Identifier,
            TokenType::Equal,
            TokenType::IntegerLiteral,
            TokenType::SemiColon,
            TokenType::EOF
        ]
    );
    assert_eq!(tokens[0].pos, TextPos::new(0, 3));
    assert_eq!(tokens[1].pos, TextPos::new(4, 5));
    assert_eq!(tokens[3].pos, TextPos::new(8, 9));
    assert_eq!(tokens[5].pos, TextPos::new(10, 10));
    assert!(matches!(&tokens[1].value, Some(TokenValue::String(s)) if s == "a"));
    assert!(matches!(&tokens[3].value, Some(TokenValue::Int(5))));
}

#[test]
fn lexes_literals_and_keywords() {
    let f = file("\"hi\" 1.5 true false null self");
    let tokens = lex_text(&f).ok().unwrap();
    assert_eq!(tokens[0].token_type, TokenType::StringLiteral);
    assert!(matches!(&tokens[0].value, Some(TokenValue::String(s)) if s == "hi"));
    assert_eq!(tokens[1].token_type, TokenType::FloatLiteral);
    assert!(matches!(&tokens[1].value, Some(TokenValue::Float(s)) if s == "1.5"));
    assert_eq!(tokens[2].token_type, TokenType::True);
    assert!(matches!(&tokens[2].value, Some(TokenValue::Bool(true))));
    assert_eq!(tokens[3].token_type, TokenType::False);
    assert!(matches!(&tokens[3].value, Some(TokenValue::Bool(false))));
    assert_eq!(tokens[4].token_type, TokenType::Null);
    assert_eq!(tokens[5].token_type, TokenType::SelfVal);
    assert_eq!(tokens[6].token_type, TokenType::EOF);
}

#[test]
fn lexes_multi_character_punctuation() {
    let f = file("-> => += == != <= >= && || // a comment\n;");
    let tokens = lex_text(&f).ok().unwrap();
    let kinds: Vec<TokenType> = tokens.iter().map(|t| t.token_type).collect();
    assert_eq!(
        kinds,
        vec![
            TokenType::ThinArrow,
            TokenType::ThickArrow,
            TokenType::PlusEqual,
            TokenType::EqualEqual,
            TokenType::BangEqual,
            TokenType::LessEqual,
            TokenType::GreaterEqual,
            TokenType::AndAnd,
            TokenType::PipePipe,
            TokenType::SemiColon,
            TokenType::EOF
        ]
    );
}

#[test]
fn empty_text_gives_only_the_end_token() {
    let f = file("");
    let tokens = lex_text(&f).ok().unwrap();
    assert_eq!(tokens.len(), 1);
    assert_eq!(tokens[0].token_type, TokenType::EOF);
    assert_eq!(tokens[0].pos, TextPos::new(0, 0));
}

#[test]
fn unexpected_character_is_reported_with_its_place() {
    let f = file("let @");
    let errors = lex_text(&f).err().unwrap();
    assert_eq!(errors.len(), 1);
    assert!(matches!(errors[0], LexerError::UnexpectedChar('@', _)));
    assert_eq!(errors[0].msg(), "Unexpected character `@`");
    assert_eq!(errors[0].format_error(), "[main.rvn:1:6]: Unexpected character `@`");
}

#[test]
fn unterminated_string_is_reported() {
    let f = file("let s = \"abc");
    let errors = run_lexer(&f).err().unwrap();
    assert_eq!(errors, vec!["[main.rvn:1:10]: Unterminated string literal".to_string()]);
}

#[test]
fn integer_too_large_is_reported() {
    let f = file("99999999999999999999");
    let errors = lex_text(&f).err().unwrap();
    assert!(matches!(errors[0], LexerError::IntegerTooLarge(_)));
    assert_eq!(errors[0].format_error(), "[main.rvn:1:2]: Integer literal does not fit in 64 bits");
}

#[test]
fn every_error_of_a_text_is_collected() {
    let f = file("@ #");
    let errors = lex_text(&f).err().unwrap();
    assert_eq!(errors.len(), 2);
}

#[test]
fn token_kinds_have_their_names() {
    assert_eq!(TokenType::Identifier.name(), "Identifier");
    assert_eq!(TokenType::ThickArrow.name(), "ThickArrow");
    assert_eq!(TokenType::EOF.name(), "EOF");
}

#[test]
fn string_escapes_are_translated() {
    let f = file("\"a\\\"b\\n\\q\"");
    let tokens = lex_text(&f).ok().unwrap();
    assert_eq!(tokens[0].token_type, TokenType::StringLiteral);
    assert!(matches!(&tokens[0].value, Some(TokenValue::String(s)) if s == "a\"b\nq"));
    assert_eq!(tokens[0].pos, TextPos::new(0, 10));
}

#[test]
fn a_dot_without_digits_ends_an_integer() {
    let f = file("1.x 2.5");
    let tokens = lex_text(&f).ok().unwrap();
    let kinds: Vec<TokenType> = tokens.iter().map(|t| t.token_type).collect();
    assert_eq!(
        kinds,
        vec![TokenType::IntegerLiteral, TokenType::Dot, TokenType::Identifier, TokenType::FloatLiteral, TokenType::EOF]
    );
}

#[test]
fn comments_and_whitespace_separate_tokens() {
    let f = file("a // b c\n  d");
    let tokens = lex_text(&f).ok().unwrap();
    assert_eq!(tokens.len(), 3);
    assert!(matches!(&tokens[1].value, Some(TokenValue::String(s)) if s == "d"));
    assert_eq!(tokens[1].pos, TextPos::new(11, 12));
}

#[test]
fn an_escaped_quote_does_not_close_a_string() {
    let f = file("\"abc\\\"");
    let errors = lex_text(&f).err().unwrap();
    assert!(matches!(errors[0], LexerError::UnterminatedString(_)));
}
