use rlox::error::LexError;
use rlox::scanner::Scanner;
use rlox::text::{byte_len, first_char, same_text, second_char, utf8_width};
use rlox::token::{Token, TokenKind};

#[test]
fn token_new_keeps_its_parts() {
    let token = Token::new(TokenKind::Identifier, "name", 7);
    assert_eq!(token.kind, TokenKind::Identifier);
    assert_eq!(token.lexeme, "name");
    assert_eq!(token.offset, 7);
}

#[test]
fn token_line_is_kind_name_and_lexeme() {
    assert_eq!(Token::new(TokenKind::LeftParen, "(", 0).to_string(), "LEFT_PAREN (");
    assert_eq!(Token::new(TokenKind::BangEqual, "!=", 0).to_string(), "BANG_EQUAL !=");
    assert_eq!(Token::new(TokenKind::Identifier, "foo", 3).to_string(), "IDENTIFIER foo");
    assert_eq!(Token::new(TokenKind::String, "a b", 3).to_string(), "STRING a b");
    assert_eq!(Token::new(TokenKind::Number, "123.456", 3).to_string(), "NUMBER 123.456");
    assert_eq!(Token::new(TokenKind::While, "while", 3).to_string(), "WHILE while");
    assert_eq!(Token::new(TokenKind::EOF, "", 9).to_string(), "EOF ");
}

#[test]
fn every_kind_has_its_name() {
    let names = [
        (TokenKind::LeftParen, "LEFT_PAREN"),
        (TokenKind::RightParen, "RIGHT_PAREN"),
        (TokenKind::LeftBrace, "LEFT_BRACE"),
        (TokenKind::RightBrace, "RIGHT_BRACE"),
        (TokenKind::Comma, "COMMA"),
        (TokenKind::Dot, "DOT"),
        (TokenKind::Minus, "MINUS"),
        (TokenKind::Plus, "PLUS"),
        (TokenKind::Semicolon, "SEMICOLON"),
        (TokenKind::Slash, "SLASH"),
        (TokenKind::Star, "STAR"),
        (TokenKind::Bang, "BANG"),
        (TokenKind::BangEqual, "BANG_EQUAL"),
        (TokenKind::Equal, "EQUAL"),
        (TokenKind::EqualEqual, "EQUAL_EQUAL"),
        (TokenKind::Greater, "GREATER"),
        (TokenKind::GreaterEqual, "GREATER_EQUAL"),
        (TokenKind::Less, "LESS"),
        (TokenKind::LessEqual, "LESS_EQUAL"),
        (TokenKind::Identifier, "IDENTIFIER"),
        (TokenKind::String, "STRING"),
        (TokenKind::Number, "NUMBER"),
        (TokenKind::And, "AND"),
        (TokenKind::Class, "CLASS"),
        (TokenKind::Else, "ELSE"),
        (TokenKind::False, "FALSE"),
        (TokenKind::Fun, "FUN"),
        (TokenKind::For, "FOR"),
        (TokenKind::If, "IF"),
        (TokenKind::Nil, "NIL"),
        (TokenKind::Or, "OR"),
        (TokenKind::Print, "PRINT"),
        (TokenKind::Return, "RETURN"),
        (TokenKind::Super, "SUPER"),
        (TokenKind::This, "THIS"),
        (TokenKind::True, "TRUE"),
        (TokenKind::Var, "VAR"),
        (TokenKind::While, "WHILE"),
        (TokenKind::EOF, "EOF"),
    ];
    for (kind, name) in names {
        assert_eq!(kind.name(), name);
    }
}

#[test]
fn scanned_tokens_print_as_lines() {
    let lines: Vec<String> = Scanner::new("var x = \"s\";")
        .collect()
        .into_iter()
        .map(|item| item.unwrap().to_string())
        .collect();
    assert_eq!(lines, vec!["VAR var", "IDENTIFIER x", "EQUAL =", "STRING s", "SEMICOLON ;", "EOF "]);
}

#[test]
fn error_messages() {
    assert_eq!(LexError::UnterminatedString.message(), "Unterminated string");
    assert_eq!(LexError::UnexpectedCharacter('@').message(), "Unexpected character '@'");
    assert_eq!(LexError::UnexpectedCharacter('é').message(), "Unexpected character 'é'");
    assert_eq!(LexError::UnexpectedCharacter('\'').message(), "Unexpected character '''");
}

#[test]
fn scanned_errors_have_their_messages() {
    let messages: Vec<String> = Scanner::new("# \"abc")
        .collect()
        .into_iter()
        .filter_map(|item| item.err())
        .map(|error| error.message())
        .collect();
    assert_eq!(messages, vec!["Unexpected character '#'", "Unterminated string"]);
}

#[test]
fn width_is_the_length_in_utf8() {
    for c in '\0'..=char::MAX {
        assert_eq!(utf8_width(c), c.len_utf8(), "{:?}", c);
    }
    assert_eq!(utf8_width('a'), 1);
    assert_eq!(utf8_width('é'), 2);
    assert_eq!(utf8_width('€'), 3);
    assert_eq!(utf8_width('😀'), 4);
}

#[test]
fn first_and_second_characters() {
    assert_eq!(first_char(""), None);
    assert_eq!(second_char(""), None);
    assert_eq!(first_char("a"), Some('a'));
    assert_eq!(second_char("a"), None);
    assert_eq!(first_char("é€"), Some('é'));
    assert_eq!(second_char("é€"), Some('€'));
}

#[test]
fn byte_length_counts_bytes() {
    assert_eq!(byte_len(""), 0);
    assert_eq!(byte_len("abc"), 3);
    assert_eq!(byte_len("é€😀"), 9);
}

#[test]
fn same_text_compares_whole_texts() {
    assert!(same_text("", ""));
    assert!(same_text("for", "for"));
    assert!(!same_text("for", "fox"));
    assert!(!same_text("for", "fore"));
    assert!(!same_text("fore", "for"));
    assert!(same_text("é€", "é€"));
    assert!(!same_text("é", "e"));
}
