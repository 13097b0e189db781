use seb::compiler::CompilerContext;
use seb::lexer::{Lexer, LexerError, Token, lex};
use seb::parser::{Parser, ParserError};
use seb::reports::{Label, Level, Report, ReportContext};
use seb::sourcemap::{SourceDescription, SourceKey, SourceMap, SourceUrl};

#[test]
fn lex_keywords_identifiers_and_numbers() {
    let tokens = lex("return x + 10;");
    assert_eq!(tokens.len(), 5);
    assert!(matches!(tokens[0], Token::Return(_)));
    match &tokens[1] {
        Token::Identifier(sp) => assert_eq!(sp.1, "x"),
        other => panic!("expected an identifier, got {other:?}"),
    }
    assert!(matches!(tokens[2], Token::Plus(_)));
    match &tokens[3] {
        Token::Number(sp) => assert_eq!(sp.1, 10),
        other => panic!("expected a number, got {other:?}"),
    }
    assert!(matches!(tokens[4], Token::Semicolon(_)));
}

#[test]
fn lex_radix_literals() {
    let tokens = lex("0x1f 0b101 007");
    match &tokens[0] {
        Token::Number(sp) => assert_eq!(sp.1, 31),
        other => panic!("expected a number, got {other:?}"),
    }
    match &tokens[1] {
        Token::Number(sp) => assert_eq!(sp.1, 5),
        other => panic!("expected a number, got {other:?}"),
    }
    match &tokens[2] {
        Token::Number(sp) => assert_eq!(sp.1, 7),
        other => panic!("expected a number, got {other:?}"),
    }
}

#[test]
fn lex_overflowing_literal_stops() {
    // the accumulated value leaves the i32 range, so tokenizing stops
    let tokens = lex("99999999999");
    assert!(tokens.is_empty());
}

#[test]
fn lex_two_character_operators() {
    let tokens = lex("++ == != --");
    assert!(matches!(tokens[0], Token::Increment(_)));
    assert!(matches!(tokens[1], Token::Eqq(_)));
    assert!(matches!(tokens[2], Token::NotEq(_)));
    assert!(matches!(tokens[3], Token::Decrease(_)));
}

#[test]
fn lex_comment_runs_to_end_of_line() {
    let tokens = lex("1 // two three\n4");
    assert_eq!(tokens.len(), 3);
    assert!(matches!(tokens[1], Token::Comment(_)));
    match &tokens[2] {
        Token::Number(sp) => assert_eq!(sp.1, 4),
        other => panic!("expected a number, got {other:?}"),
    }
}

#[test]
fn lex_string_literal() {
    let tokens = lex("\"hello\"");
    match &tokens[0] {
        Token::String(sp) => assert_eq!(sp.1, "hello"),
        other => panic!("expected a string, got {other:?}"),
    }
}

#[test]
fn lex_unterminated_string_stops() {
    let tokens = lex("\"never closed");
    assert!(tokens.is_empty());
}

#[test]
fn lexer_process_reports_bad_character() {
    let mut l = Lexer::new("@");
    assert_eq!(l.process(), Err(LexerError::InvalidToken));
}

#[test]
fn parser_accepts_only_functions_at_top_level() {
    let mut p = Parser::new(lex("function"));
    assert_eq!(p.process(), Ok(()));

    let mut q = Parser::new(lex("5"));
    assert_eq!(q.process(), Err(ParserError::FailedTopLevel));

    // an empty token stream parses
    let mut empty = Parser::new(Vec::new());
    assert_eq!(empty.process(), Ok(()));
}

#[test]
fn report_context_tracks_errors() {
    let key = SourceKey { raw: 0 };
    let mut ctx = ReportContext::new();
    assert!(!ctx.has_reports());
    assert!(!ctx.has_errors());

    let warn = Report::new(Level::Warn, 0..1, key, "odd spacing".to_string(), None);
    ctx.push(warn);
    assert!(ctx.has_reports());
    assert!(!ctx.has_errors());

    let err = Report::new(
        Level::Error,
        2..3,
        key,
        "bad token".to_string(),
        Some("this character starts no token".to_string()),
    )
    .with_label(Label::new("here".to_string(), Some(2..3), key));
    ctx.push(err);
    assert!(ctx.has_errors());
}

#[test]
fn source_map_insert_then_get() {
    let mut map = SourceMap::new();
    let key = map.insert(SourceDescription {
        url: SourceUrl::Sparse("demo".to_string()),
        source_code: "return 1;".to_string(),
    });
    let found = map.get(key).expect("the inserted source is there");
    assert_eq!(found.source_code, "return 1;");

    let missing = map.get(SourceKey { raw: key.raw.wrapping_add(1) });
    assert!(missing.is_none());
}

#[test]
fn source_map_keys_are_distinct() {
    let mut map = SourceMap::default();
    let k1 = map.insert(SourceDescription {
        url: SourceUrl::Anonymous,
        source_code: "a".to_string(),
    });
    let k2 = map.insert(SourceDescription {
        url: SourceUrl::Anonymous,
        source_code: "b".to_string(),
    });
    assert_ne!(k1.raw, k2.raw);
    assert_eq!(map.get(k1).unwrap().source_code, "a");
    assert_eq!(map.get(k2).unwrap().source_code, "b");
}

#[test]
fn compiler_context_starts_empty() {
    let mut ctx = CompilerContext::new();
    assert!(!ctx.report_context.has_reports());
    let key = ctx.source_context.insert(SourceDescription {
        url: SourceUrl::Anonymous,
        source_code: "function".to_string(),
    });
    assert!(ctx.source_context.get(key).is_some());
}

#[test]
fn source_map_normalizes_even_version_keys() {
    let mut map = SourceMap::new();
    let key = map.insert(SourceDescription {
        url: SourceUrl::Anonymous,
        source_code: "c".to_string(),
    });
    // a fresh key's packed form carries the odd-version bit
    assert_eq!(key.raw | 0x1_0000_0000, key.raw);
    // the even twin normalizes back to the same live key
    let twin = SourceKey { raw: key.raw - 0x1_0000_0000 };
    assert_eq!(map.get(twin).unwrap().source_code, "c");
}
