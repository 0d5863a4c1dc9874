use mep_asm::tokenizer::{end_of_input, tokenize, unexpected_token, Source, Span, Token, TokenKind};
use mep_asm::utils::Fail;

fn kinds(src: &str) -> Vec<String> {
    let mut source = Source::new(src, "t.asm");
    let toks: Vec<Token> = tokenize(&mut source).ok().unwrap();
    toks.iter().map(|t| format!("{:?}", t.kind)).collect()
}

fn error(src: &str) -> String {
    let mut source = Source::new(src, "t.asm");
    match tokenize(&mut source) {
        Err(Fail::Error(e)) => e.msg.to_string(),
        Err(Fail::Halt) => "halt".to_string(),
        Ok(_) => "ok".to_string(),
    }
}

#[test]
fn numbers_in_three_bases_with_separators() {
    assert_eq!(kinds("123 0b1001_0101 0xff_AA"), vec!["Nb(123)", "Nb(149)", "Nb(65450)", "Eof"]);
}

#[test]
fn identifiers_symbols_and_line_feeds() {
    assert_eq!(
        kinds("ld r1, [r2 += 0x10]\n"),
        vec![
            "Ident(\"ld\")", "Ident(\"r1\")", "Comma", "BracketOpen", "Ident(\"r2\")", "Plus", "Eq",
            "Nb(16)", "BracketClose", "NL", "Eof"
        ]
    );
    assert_eq!(kinds("a.b:c-(d)"), vec![
        "Ident(\"a\")", "Dot", "Ident(\"b\")", "Colon", "Ident(\"c\")", "Minus", "ParanOpen",
        "Ident(\"d\")", "ParanClose", "Eof"
    ]);
}

#[test]
fn comments_and_whitespace_are_skipped() {
    assert_eq!(kinds(" \t\r// line\n/* block\n */x"), vec!["NL", "Ident(\"x\")", "Eof"]);
}

#[test]
fn escape_codes() {
    assert_eq!(kinds("\"a\\n\\r\\t\\\"\\\\\\x41\\u{1F600}b\""), vec!["Str(\"a\\n\\r\\t\\\"\\\\A😀b\")", "Eof"]);
}

#[test]
fn bad_separators() {
    assert_eq!(error("1__0"), "unexpected token (_)\n  --> t.asm:1:2");
    assert_eq!(error("12_"), "unexpected token (_)\n  --> t.asm:1:3");
    assert_eq!(error("0x_1"), "unexpected token (_)\n  --> t.asm:1:3");
    assert_eq!(error("0x1__2"), "unexpected token (_)\n  --> t.asm:1:4");
}

#[test]
fn large_numbers() {
    assert_eq!(error("18446744073709551616"), "large number (18446744073709551616)\n  --> t.asm:1:1-1:20");
    assert_eq!(kinds("18446744073709551615"), vec!["Nb(18446744073709551615)", "Eof"]);
    assert_eq!(error("0x"), "large number ()\n  --> t.asm:1:1-1:2");
}

#[test]
fn bad_escape_codes() {
    assert_eq!(error("\"\\q\""), "unexpected token (q), expected escape code\n  --> t.asm:1:2");
    assert_eq!(error("\"\\x4\""), "invalid escape code\n  --> t.asm:1:2-1:4");
    assert_eq!(error("\"\\xzz\""), "invalid escape code\n  --> t.asm:1:2-1:5");
    assert_eq!(error("\"\\u{d800}\""), "invalid escape code\n  --> t.asm:1:2-1:8");
    assert_eq!(error("\"\\u(1)\""), "invalid escape code\n  --> t.asm:1:2-1:4");
    assert_eq!(error("\"\\u{12\""), "invalid escape code\n  --> t.asm:1:2-1:6");
}

#[test]
fn unterminated_input() {
    assert_eq!(error("\"abc"), "unexpected end of input, expected \"\n  --> t.asm");
    assert_eq!(error("/* abc"), "unexpected end of input, expected */\n  --> t.asm");
}

#[test]
fn unexpected_characters() {
    assert_eq!(error("#"), "unexpected token (#)\n  --> t.asm:1:1");
    assert_eq!(error("/x"), "unexpected token (/)\n  --> t.asm:1:1");
    assert_eq!(error("é"), "unexpected token (é)\n  --> t.asm:1:1");
    assert_eq!(error("_a"), "unexpected token (_)\n  --> t.asm:1:1");
}

#[test]
fn line_feeds_are_recorded_everywhere() {
    let src = "a\n\"x\ny\"\n/*\n*/ // c\nb";
    let mut source = Source::new(src, "t.asm");
    tokenize(&mut source).ok().unwrap();
    let expected: Vec<u32> = src.bytes().enumerate().filter(|(_, b)| *b == b'\n').map(|(i, _)| i as u32).collect();
    assert_eq!(source.line_poses, expected);
}

#[test]
fn escaped_quote_inside_string() {
    assert_eq!(kinds("\"a\\\"b\" x"), vec!["Str(\"a\\\"b\")", "Ident(\"x\")", "Eof"]);
}

#[test]
fn string_ending_with_multibyte_character() {
    assert_eq!(kinds("str \"é\""), vec!["Ident(\"str\")", "Str(\"é\")", "Eof"]);
    assert_eq!(kinds("\"café\""), vec!["Str(\"café\")", "Eof"]);
}

#[test]
fn escaped_backslash_then_escaped_quote() {
    let mut source = Source::new("\"\\\\\\\"\"", "t.asm");
    let toks: Vec<Token> = tokenize(&mut source).ok().unwrap();
    assert_eq!(toks.len(), 2);
    assert_eq!(toks[0].span, Span(0, 6));
    match &toks[0].kind {
        TokenKind::Str(s) => assert_eq!(s.as_str(), "\\\""),
        _ => panic!(),
    }
    assert_eq!(kinds("\"a\\\\\" x"), vec!["Str(\"a\\\\\")", "Ident(\"x\")", "Eof"]);
}

#[test]
fn hex_escape_takes_only_hex_digits() {
    assert_eq!(error("\"\\x+f\""), "invalid escape code\n  --> t.asm:1:2-1:5");
    assert_eq!(error("\"\\u{+41}\""), "invalid escape code\n  --> t.asm:1:2-1:7");
    assert_eq!(kinds("\"\\x4a\""), vec!["Str(\"J\")", "Eof"]);
}

#[test]
fn token_display() {
    let src = "abc 0x10 \"s\" ,\n";
    let mut source = Source::new(src, "t.asm");
    let toks = tokenize(&mut source).ok().unwrap();
    let shown: Vec<&str> = toks.iter().map(|t| t.display(&source)).collect();
    assert_eq!(shown, vec!["abc", "0x10", "\"s\"", ",", "\\n", "EOF"]);
    assert_eq!(TokenKind::BracketClose.symbol_fmt(), "]");
}

#[test]
fn spans() {
    assert!(Span::none().is_none());
    assert!(!Span::point(0).is_none());
    assert_eq!(Span::point(4), Span(4, 5));
    assert_eq!(Span::join(Span(1, 3), Span(7, 9)), Span(1, 9));
    let mut source = Source::new("ab\ncd\n", "t.asm");
    tokenize(&mut source).ok().unwrap();
    assert_eq!(Span(3, 5).pos(&source).to_text(), "2:1-2:2");
    assert_eq!(Span(2, 3).pos(&source).to_text(), "2:0");
    assert_eq!(source.source_of(Span(3, 5)), "cd");
}

#[test]
fn error_helpers() {
    let source = Source::new("xyz", "t.asm");
    match unexpected_token::<()>("xyz", "number", Span(0, 3), &source) {
        Err(Fail::Error(e)) => assert_eq!(&*e.msg, "unexpected token (xyz), expected number\n  --> t.asm:1:1-1:3"),
        _ => panic!(),
    }
    match end_of_input::<()>("", &source) {
        Err(Fail::Error(e)) => assert_eq!(&*e.msg, "unexpected end of input\n  --> t.asm"),
        _ => panic!(),
    }
}
