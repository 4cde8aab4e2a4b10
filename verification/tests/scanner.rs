use rlox::error::LexError;
use rlox::scanner::Scanner;
use rlox::token::{Token, TokenKind};

/// The kind of a token, with the value that a number decodes to.
#[derive(Debug, Clone, Copy, PartialEq)]
enum Kind {
    Plain(TokenKind),
    Number(f64),
}

fn plain(kind: TokenKind) -> Kind {
    Kind::Plain(kind)
}

fn scan_all(source: &str) -> Vec<Result<Token<'_>, LexError>> {
    let mut scanner = Scanner::new(source);
    let mut items = Vec::new();
    while let Some(item) = scanner.next() {
        items.push(item);
    }
    assert!(scanner.next().is_none());
    items
}

fn scan_to_list(source: &str) -> Vec<Kind> {
    scan_all(source)
        .into_iter()
        .map(|res| res.expect("Scanner error"))
        .map(|t| {
            println!("{}", t.to_string());
            match t.kind {
                TokenKind::Number => Kind::Number(t.lexeme.parse::<f64>().expect("number")),
                kind => Kind::Plain(kind),
            }
        })
        .collect()
}

fn kinds(source: &str) -> Vec<Result<TokenKind, LexError>> {
    scan_all(source).into_iter().map(|item| item.map(|t| t.kind)).collect()
}

#[test]
fn test_single_char_tokens() {
    let source = "( ) { } , . - + ; *";
    let expected = vec![
        plain(TokenKind::LeftParen),
        plain(TokenKind::RightParen),
        plain(TokenKind::LeftBrace),
        plain(TokenKind::RightBrace),
        plain(TokenKind::Comma),
        plain(TokenKind::Dot),
        plain(TokenKind::Minus),
        plain(TokenKind::Plus),
        plain(TokenKind::Semicolon),
        plain(TokenKind::Star),
        plain(TokenKind::EOF),
    ];
    assert_eq!(scan_to_list(source), expected);
}

#[test]
fn test_multi_char_operators() {
    let source = "! != = == < <= > >=";
    let expected = vec![
        plain(TokenKind::Bang),
        plain(TokenKind::BangEqual),
        plain(TokenKind::Equal),
        plain(TokenKind::EqualEqual),
        plain(TokenKind::Less),
        plain(TokenKind::LessEqual),
        plain(TokenKind::Greater),
        plain(TokenKind::GreaterEqual),
        plain(TokenKind::EOF),
    ];

    assert_eq!(scan_to_list(source), expected);
}

#[test]
fn test_ignore_whitespace() {
    let source = " \t\n\r\n";
    let expected = vec![plain(TokenKind::EOF)];

    assert_eq!(scan_to_list(source), expected);
}

#[test]
fn test_comments() {
    let source = "// this is a comment";
    let expected = vec![plain(TokenKind::EOF)];

    assert_eq!(scan_to_list(source), expected);
}

#[test]
fn test_string_literals() {
    let source = "\"this is a string\" \"this is another string\"";
    let expected = vec![plain(TokenKind::String), plain(TokenKind::String), plain(TokenKind::EOF)];

    assert_eq!(scan_to_list(source), expected);
}

#[test]
fn test_number() {
    let source = "123 123.456";
    let expected = vec![Kind::Number(123.0), Kind::Number(123.456), plain(TokenKind::EOF)];

    assert_eq!(scan_to_list(source), expected);
}

#[test]
fn test_ident() {
    let source = "and if else";
    let expected = vec![
        plain(TokenKind::And),
        plain(TokenKind::If),
        plain(TokenKind::Else),
        plain(TokenKind::EOF),
    ];

    assert_eq!(scan_to_list(source), expected);
}

#[test]
fn test_number_with_trailing_dot() {
    let source = "123.";
    let expected = vec![Kind::Number(123.0), plain(TokenKind::Dot), plain(TokenKind::EOF)];
    assert_eq!(scan_to_list(source), expected);
}

#[test]
fn test_number_method_call() {
    let source = "123.toString";
    let expected = vec![
        Kind::Number(123.0),
        plain(TokenKind::Dot),
        plain(TokenKind::Identifier),
        plain(TokenKind::EOF),
    ];
    assert_eq!(scan_to_list(source), expected);
}

#[test]
fn test_standard_float() {
    let source = "123.456";
    let expected = vec![Kind::Number(123.456), plain(TokenKind::EOF)];
    assert_eq!(scan_to_list(source), expected);
}

#[test]
fn comment_only_yields_eof() {
    assert_eq!(kinds("// comment only"), vec![Ok(TokenKind::EOF)]);
}

#[test]
fn comment_ends_at_line_feed() {
    let items = scan_all("a // b c\nd // e");
    let seen: Vec<(TokenKind, &str, usize)> =
        items.iter().map(|i| i.as_ref().unwrap()).map(|t| (t.kind, t.lexeme, t.offset)).collect();
    assert_eq!(
        seen,
        vec![
            (TokenKind::Identifier, "a", 0),
            (TokenKind::Identifier, "d", 9),
            (TokenKind::EOF, "", 15),
        ]
    );
}

#[test]
fn comment_does_not_swallow_the_next_line() {
    assert_eq!(
        kinds("// first\nvar x;\nprint x;"),
        vec![
            Ok(TokenKind::Var),
            Ok(TokenKind::Identifier),
            Ok(TokenKind::Semicolon),
            Ok(TokenKind::Print),
            Ok(TokenKind::Identifier),
            Ok(TokenKind::Semicolon),
            Ok(TokenKind::EOF),
        ]
    );
}

#[test]
fn slash_alone_is_a_token() {
    assert_eq!(
        kinds("a / b /"),
        vec![
            Ok(TokenKind::Identifier),
            Ok(TokenKind::Slash),
            Ok(TokenKind::Identifier),
            Ok(TokenKind::Slash),
            Ok(TokenKind::EOF),
        ]
    );
}

#[test]
fn unterminated_string_is_one_error_then_eof() {
    let source = "\"unterminated";
    let mut scanner = Scanner::new(source);
    assert_eq!(scanner.next().unwrap().unwrap_err(), LexError::UnterminatedString);
    let eof = scanner.next().unwrap().unwrap();
    assert_eq!(eof.kind, TokenKind::EOF);
    assert_eq!(eof.lexeme, "");
    assert_eq!(eof.offset, source.len());
    assert!(scanner.next().is_none());
    assert!(scanner.next().is_none());
}

#[test]
fn unterminated_string_after_tokens() {
    assert_eq!(
        kinds("x = \"abc\ny"),
        vec![
            Ok(TokenKind::Identifier),
            Ok(TokenKind::Equal),
            Err(LexError::UnterminatedString),
            Ok(TokenKind::EOF),
        ]
    );
}

#[test]
fn string_lexeme_is_the_text_between_the_quotes() {
    let items = scan_all("  \"hi there\";");
    let token = items[0].as_ref().unwrap();
    assert_eq!(token.kind, TokenKind::String);
    assert_eq!(token.lexeme, "hi there");
    assert_eq!(token.offset, 2);
    let next = items[1].as_ref().unwrap();
    assert_eq!(next.kind, TokenKind::Semicolon);
    assert_eq!(next.offset, 12);
}

#[test]
fn empty_string_has_an_empty_lexeme() {
    let items = scan_all("\"\"");
    let token = items[0].as_ref().unwrap();
    assert_eq!(token.kind, TokenKind::String);
    assert_eq!(token.lexeme, "");
    assert_eq!(token.offset, 0);
    assert_eq!(items[1].as_ref().unwrap().kind, TokenKind::EOF);
    assert_eq!(items[1].as_ref().unwrap().offset, 2);
    assert_eq!(items.len(), 2);
}

#[test]
fn backslash_in_a_string_is_an_ordinary_character() {
    let items = scan_all("\"a\\\" b");
    let token = items[0].as_ref().unwrap();
    assert_eq!(token.kind, TokenKind::String);
    assert_eq!(token.lexeme, "a\\");
    assert_eq!(items[1].as_ref().unwrap().kind, TokenKind::Identifier);
    assert_eq!(items[1].as_ref().unwrap().lexeme, "b");
}

#[test]
fn string_may_span_lines_and_hold_comment_marks() {
    let items = scan_all("\"a\n// b\" c");
    let token = items[0].as_ref().unwrap();
    assert_eq!(token.lexeme, "a\n// b");
    assert_eq!(items[1].as_ref().unwrap().lexeme, "c");
    assert_eq!(items[1].as_ref().unwrap().offset, 9);
}

#[test]
fn unexpected_character_is_an_error_and_the_scan_goes_on() {
    let items = scan_all("@(");
    assert_eq!(items.len(), 3);
    assert_eq!(*items[0].as_ref().unwrap_err(), LexError::UnexpectedCharacter('@'));
    assert_eq!(items[1].as_ref().unwrap().kind, TokenKind::LeftParen);
    assert_eq!(items[1].as_ref().unwrap().offset, 1);
    assert_eq!(items[2].as_ref().unwrap().kind, TokenKind::EOF);
}

#[test]
fn unexpected_character_of_several_bytes() {
    let source = "a é€😀 b";
    let items = scan_all(source);
    assert_eq!(items.len(), 6);
    assert_eq!(*items[1].as_ref().unwrap_err(), LexError::UnexpectedCharacter('é'));
    assert_eq!(*items[2].as_ref().unwrap_err(), LexError::UnexpectedCharacter('€'));
    assert_eq!(*items[3].as_ref().unwrap_err(), LexError::UnexpectedCharacter('😀'));
    let b = items[4].as_ref().unwrap();
    assert_eq!(b.lexeme, "b");
    assert_eq!(b.offset, 2 + 2 + 3 + 4 + 1);
    assert_eq!(items[5].as_ref().unwrap().offset, source.len());
}

#[test]
fn unicode_whitespace_is_skipped() {
    let source = "\u{00A0}a\u{2003}\u{3000}b\u{0085}\u{000B}\u{000C}";
    let items = scan_all(source);
    let seen: Vec<(TokenKind, &str, usize)> =
        items.iter().map(|i| i.as_ref().unwrap()).map(|t| (t.kind, t.lexeme, t.offset)).collect();
    assert_eq!(
        seen,
        vec![
            (TokenKind::Identifier, "a", 2),
            (TokenKind::Identifier, "b", 9),
            (TokenKind::EOF, "", source.len()),
        ]
    );
}

#[test]
fn zero_width_space_is_no_whitespace() {
    assert_eq!(
        kinds("\u{200B}"),
        vec![Err(LexError::UnexpectedCharacter('\u{200B}')), Ok(TokenKind::EOF)]
    );
}

#[test]
fn whitespace_agrees_with_the_unicode_property() {
    for c in '\0'..=char::MAX {
        assert_eq!(rlox::grammar::char_is_whitespace(c), c.is_whitespace(), "{:?}", c);
    }
}

#[test]
fn character_classes_agree_with_ascii() {
    for c in '\0'..=char::MAX {
        assert_eq!(rlox::grammar::char_is_digit(c), c.is_ascii_digit(), "{:?}", c);
        assert_eq!(
            rlox::grammar::char_is_ident_start(c),
            c.is_ascii_alphabetic() || c == '_',
            "{:?}",
            c
        );
        assert_eq!(
            rlox::grammar::char_is_ident_char(c),
            c.is_ascii_alphanumeric() || c == '_',
            "{:?}",
            c
        );
    }
}

#[test]
fn forest_is_one_identifier() {
    let items = scan_all("forest");
    assert_eq!(items.len(), 2);
    let token = items[0].as_ref().unwrap();
    assert_eq!(token.kind, TokenKind::Identifier);
    assert_eq!(token.lexeme, "forest");
    assert_eq!(kinds("for"), vec![Ok(TokenKind::For), Ok(TokenKind::EOF)]);
}

#[test]
fn every_keyword_has_its_kind() {
    let source = "and class else false for fun if nil or print return super this true var while";
    assert_eq!(
        kinds(source),
        vec![
            Ok(TokenKind::And),
            Ok(TokenKind::Class),
            Ok(TokenKind::Else),
            Ok(TokenKind::False),
            Ok(TokenKind::For),
            Ok(TokenKind::Fun),
            Ok(TokenKind::If),
            Ok(TokenKind::Nil),
            Ok(TokenKind::Or),
            Ok(TokenKind::Print),
            Ok(TokenKind::Return),
            Ok(TokenKind::Super),
            Ok(TokenKind::This),
            Ok(TokenKind::True),
            Ok(TokenKind::Var),
            Ok(TokenKind::While),
            Ok(TokenKind::EOF),
        ]
    );
}

#[test]
fn keywords_are_case_sensitive_and_whole_words() {
    assert_eq!(
        kinds("And FOR nil_ _if var1 i"),
        vec![
            Ok(TokenKind::Identifier),
            Ok(TokenKind::Identifier),
            Ok(TokenKind::Identifier),
            Ok(TokenKind::Identifier),
            Ok(TokenKind::Identifier),
            Ok(TokenKind::Identifier),
            Ok(TokenKind::EOF),
        ]
    );
}

#[test]
fn identifier_takes_letters_digits_and_underscores() {
    let items = scan_all("_a1B_2+c");
    assert_eq!(items[0].as_ref().unwrap().lexeme, "_a1B_2");
    assert_eq!(items[1].as_ref().unwrap().kind, TokenKind::Plus);
    assert_eq!(items[2].as_ref().unwrap().lexeme, "c");
    assert_eq!(items[2].as_ref().unwrap().offset, 7);
}

#[test]
fn number_lexemes_and_offsets() {
    let items = scan_all("123.456 7.x 1.2.3 42abc");
    let seen: Vec<(TokenKind, &str, usize)> =
        items.iter().map(|i| i.as_ref().unwrap()).map(|t| (t.kind, t.lexeme, t.offset)).collect();
    assert_eq!(
        seen,
        vec![
            (TokenKind::Number, "123.456", 0),
            (TokenKind::Number, "7", 8),
            (TokenKind::Dot, ".", 9),
            (TokenKind::Identifier, "x", 10),
            (TokenKind::Number, "1.2", 12),
            (TokenKind::Dot, ".", 15),
            (TokenKind::Number, "3", 16),
            (TokenKind::Number, "42", 18),
            (TokenKind::Identifier, "abc", 20),
            (TokenKind::EOF, "", 23),
        ]
    );
}

#[test]
fn number_before_the_end_of_input() {
    assert_eq!(kinds("1."), vec![Ok(TokenKind::Number), Ok(TokenKind::Dot), Ok(TokenKind::EOF)]);
    assert_eq!(kinds(".5"), vec![Ok(TokenKind::Dot), Ok(TokenKind::Number), Ok(TokenKind::EOF)]);
    assert_eq!(scan_all("0")[0].as_ref().unwrap().lexeme, "0");
}

#[test]
fn two_character_operators_take_both_characters() {
    let items = scan_all("a<=b!==c");
    let seen: Vec<(TokenKind, &str, usize)> =
        items.iter().map(|i| i.as_ref().unwrap()).map(|t| (t.kind, t.lexeme, t.offset)).collect();
    assert_eq!(
        seen,
        vec![
            (TokenKind::Identifier, "a", 0),
            (TokenKind::LessEqual, "<=", 1),
            (TokenKind::Identifier, "b", 3),
            (TokenKind::BangEqual, "!=", 4),
            (TokenKind::Equal, "=", 6),
            (TokenKind::Identifier, "c", 7),
            (TokenKind::EOF, "", 8),
        ]
    );
}

#[test]
fn empty_source_yields_eof_alone() {
    let mut scanner = Scanner::new("");
    let eof = scanner.next().unwrap().unwrap();
    assert_eq!(eof.kind, TokenKind::EOF);
    assert_eq!(eof.lexeme, "");
    assert_eq!(eof.offset, 0);
    assert!(scanner.next().is_none());
    assert!(scanner.next().is_none());
}

const SAMPLE: &str = "// sum\nfun add(a, b) {\n  return a + b; // done\n}\nprint add(1.5, 20) >= 3 != !true;\u{2003}x_1 = nil / 2 * -4;";

#[test]
fn scan_ends_with_exactly_one_eof() {
    for source in ["", "   ", SAMPLE, "\"open", "@", "a // b", "1.", "\"s\""] {
        let items = scan_all(source);
        let eofs = items
            .iter()
            .filter(|i| matches!(i, Ok(t) if t.kind == TokenKind::EOF))
            .count();
        assert_eq!(eofs, 1, "{:?}", source);
        let last = items.last().unwrap().as_ref().unwrap();
        assert_eq!(last.kind, TokenKind::EOF);
        assert_eq!(last.lexeme, "");
        assert_eq!(last.offset, source.len());
    }
}

#[test]
fn lexemes_lie_in_the_source_at_their_offsets() {
    for source in [SAMPLE, "a \"b c\" d", "é x \u{00A0}y1 9.25"] {
        for item in scan_all(source) {
            if let Ok(token) = item {
                let at = if token.kind == TokenKind::String { token.offset + 1 } else { token.offset };
                assert_eq!(&source[at..at + token.lexeme.len()], token.lexeme);
                if token.kind != TokenKind::EOF && token.kind != TokenKind::String {
                    assert!(!token.lexeme.is_empty());
                }
            }
        }
    }
}

#[test]
fn lexemes_and_skipped_text_spell_the_source() {
    let source = SAMPLE;
    let mut rebuilt = String::new();
    let mut at = 0;
    for item in scan_all(source) {
        let token = item.unwrap();
        assert_ne!(token.kind, TokenKind::String);
        let skipped = &source[at..token.offset];
        assert!(skipped.chars().all(|c| c.is_whitespace()) || skipped.contains("//"));
        rebuilt.push_str(skipped);
        rebuilt.push_str(token.lexeme);
        at = token.offset + token.lexeme.len();
    }
    assert_eq!(rebuilt, source);
}

#[test]
fn rescanning_yields_the_same_items() {
    for source in [SAMPLE, "\"open", "a @ b", "1.2.3"] {
        let first: Vec<_> =
            scan_all(source).into_iter().map(|i| i.map(|t| (t.kind, t.lexeme, t.offset))).collect();
        let second: Vec<_> =
            scan_all(source).into_iter().map(|i| i.map(|t| (t.kind, t.lexeme, t.offset))).collect();
        assert_eq!(first, second);
    }
}

#[test]
fn collect_yields_what_next_yields() {
    for source in [SAMPLE, "\"open", "a @ b", ""] {
        let all: Vec<_> = Scanner::new(source)
            .collect()
            .into_iter()
            .map(|i| i.map(|t| (t.kind, t.lexeme, t.offset)))
            .collect();
        let one_by_one: Vec<_> =
            scan_all(source).into_iter().map(|i| i.map(|t| (t.kind, t.lexeme, t.offset))).collect();
        assert_eq!(all, one_by_one);
    }
}

#[test]
fn collect_after_some_items_yields_the_rest() {
    let mut scanner = Scanner::new("a b c");
    assert_eq!(scanner.next().unwrap().unwrap().lexeme, "a");
    let rest = scanner.collect();
    let lexemes: Vec<&str> = rest.iter().map(|i| i.as_ref().unwrap().lexeme).collect();
    assert_eq!(lexemes, vec!["b", "c", ""]);
}

#[test]
fn sample_program_kinds() {
    assert_eq!(
        kinds("fun f(a) { return a >= 1.5; }"),
        vec![
            Ok(TokenKind::Fun),
            Ok(TokenKind::Identifier),
            Ok(TokenKind::LeftParen),
            Ok(TokenKind::Identifier),
            Ok(TokenKind::RightParen),
            Ok(TokenKind::LeftBrace),
            Ok(TokenKind::Return),
            Ok(TokenKind::Identifier),
            Ok(TokenKind::GreaterEqual),
            Ok(TokenKind::Number),
            Ok(TokenKind::Semicolon),
            Ok(TokenKind::RightBrace),
            Ok(TokenKind::EOF),
        ]
    );
}
