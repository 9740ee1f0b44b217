use sexpr_lexer::lexer::Lexer;
use sexpr_lexer::token::{Error, Symbol, Token, TokenKind};

fn lexer_of(input: &str) -> Lexer {
    Lexer::new(input.chars().collect())
}

fn all_tokens(input: &str) -> Vec<Token> {
    let mut lx = lexer_of(input);
    let mut out = Vec::new();
    while let Some(r) = lx.next() {
        out.push(r.expect("expected a token, got an error"));
    }
    out
}

fn first_error(input: &str) -> Error {
    let mut lx = lexer_of(input);
    loop {
        match lx.next() {
            Some(Ok(_)) => continue,
            Some(Err(e)) => return e,
            None => panic!("expected an error, got end of input"),
        }
    }
}

fn kinds(input: &str) -> Vec<TokenKind> {
    all_tokens(input).into_iter().map(|t| t.kind).collect()
}

fn sym(text: &str) -> TokenKind {
    TokenKind::Symbol(Symbol::new(text.to_string()).unwrap())
}

#[test]
fn whitespace_only_yields_end() {
    let mut lx = lexer_of("   \t\r\n  ");
    assert!(lx.next().is_none());
    assert!(lx.next().is_none());
}

#[test]
fn empty_input_yields_end() {
    let mut lx = lexer_of("");
    assert!(lx.next().is_none());
}

#[test]
fn comment_only_yields_end() {
    let mut lx = lexer_of("// just a comment");
    assert!(lx.next().is_none());
    let mut lx = lexer_of("/* a */ /* b */  ");
    assert!(lx.next().is_none());
    let mut lx = lexer_of("// one\n// two\n/* three */");
    assert!(lx.next().is_none());
}

#[test]
fn reserved_words_lex_to_literals() {
    assert_eq!(
        kinds("nil true false"),
        vec![
            TokenKind::Nil,
            TokenKind::Boolean(true),
            TokenKind::Boolean(false)
        ]
    );
    assert_eq!(kinds("  true  "), vec![TokenKind::Boolean(true)]);
    assert_eq!(kinds("\t\nnil"), vec![TokenKind::Nil]);
}

#[test]
fn near_reserved_words_are_symbols() {
    assert_eq!(kinds("truex"), vec![sym("truex")]);
    assert_eq!(kinds("True"), vec![sym("True")]);
    assert_eq!(kinds("nils"), vec![sym("nils")]);
}

#[test]
fn number_glued_to_letters_is_rejected() {
    let e = first_error("123abc");
    assert_eq!(e.message, "expected delimeter");
}

#[test]
fn number_then_symbol_with_space() {
    let ks = kinds("123 abc");
    assert_eq!(ks.len(), 2);
    match &ks[0] {
        TokenKind::Number(text) => {
            assert_eq!(text, "123");
            assert_eq!(text.parse::<f32>().unwrap(), 123.0f32);
        }
        other => panic!("expected a number, got {:?}", other),
    }
    assert_eq!(ks[1], sym("abc"));
}

#[test]
fn symbol_dot_symbol_chain() {
    assert_eq!(
        kinds("foo.bar"),
        vec![sym("foo"), TokenKind::Dot, sym("bar")]
    );
}

#[test]
fn line_comment_then_number() {
    let ks = kinds("// line comment\n42");
    assert_eq!(ks, vec![TokenKind::Number("42".to_string())]);
}

#[test]
fn block_comments_then_number() {
    let ks = kinds("/* a */ /* b */ 42");
    assert_eq!(ks, vec![TokenKind::Number("42".to_string())]);
}

#[test]
fn star_heavy_block_comment_closes() {
    let ks = kinds("/* stars **/ 7");
    assert_eq!(ks, vec![TokenKind::Number("7".to_string())]);
}

#[test]
fn hex_byte_escape_decodes() {
    assert_eq!(kinds("\"\\x41\""), vec![TokenKind::String("A".to_string())]);
}

#[test]
fn hex_byte_escape_above_ascii_is_latin1() {
    assert_eq!(
        kinds("\"\\xE9\""),
        vec![TokenKind::String("\u{e9}".to_string())]
    );
}

#[test]
fn unicode_escape_four_digits_decodes() {
    assert_eq!(kinds("\"\\u0041\""), vec![TokenKind::String("A".to_string())]);
}

#[test]
fn unicode_escape_eight_digits_decodes() {
    assert_eq!(
        kinds("\"\\U00000041\""),
        vec![TokenKind::String("A".to_string())]
    );
}

#[test]
fn newline_escape_decodes() {
    assert_eq!(kinds("\"\\n\""), vec![TokenKind::String("\n".to_string())]);
}

#[test]
fn simple_escapes_decode() {
    assert_eq!(
        kinds("\"a\\tb\\rc\\0d\\\\e\""),
        vec![TokenKind::String("a\tb\rc\0d\\e".to_string())]
    );
}

#[test]
fn single_quoted_string() {
    assert_eq!(kinds("'hi'"), vec![TokenKind::String("hi".to_string())]);
}

#[test]
fn raw_newline_inside_string_is_kept() {
    assert_eq!(
        kinds("\"a\nb\""),
        vec![TokenKind::String("a\nb".to_string())]
    );
}

#[test]
fn unterminated_string_is_an_error() {
    let e = first_error("\"abc");
    assert_eq!(e.message, "unterminated string");
    assert!(e.location.is_some());
}

#[test]
fn unterminated_block_comment_is_an_error() {
    let e = first_error("/* abc");
    assert_eq!(e.message, "unterminated comment");
}

#[test]
fn invalid_number_literal_is_an_error() {
    let e = first_error("1.2.3");
    assert_eq!(e.message, "invalid number literal");
}

#[test]
fn numeric_underscores_are_scanned_but_not_stripped() {
    let e = first_error("12_3");
    assert_eq!(e.message, "invalid number literal");
}

#[test]
fn hex_field_accepts_a_leading_plus() {
    // The radix-16 parse behind the escape accepts one leading plus sign.
    assert_eq!(
        kinds("\"\\x+5\""),
        vec![TokenKind::String("\u{5}".to_string())]
    );
}

#[test]
fn invalid_hex_escape_is_an_error() {
    let e = first_error("\"\\xZZ\"");
    assert_eq!(e.message, "invalid hex");
}

#[test]
fn surrogate_escape_is_an_error() {
    let e = first_error("\"\\uD800\"");
    assert_eq!(e.message, "is not a valid character");
}

#[test]
fn unknown_escape_is_an_error() {
    let e = first_error("\"\\q\"");
    assert_eq!(e.message, "is not a valid escape");
}

#[test]
fn input_end_during_escape_is_an_error() {
    let e = first_error("\"\\x4");
    assert_eq!(e.message, "unexpected end whilst parsing escape");
    let e = first_error("\"\\");
    assert_eq!(e.message, "unexpected end whilst parsing escape");
}

#[test]
fn unexpected_character_is_an_error() {
    let e = first_error("#");
    assert_eq!(e.message, "unexpected character");
    let e = first_error("/x");
    assert_eq!(e.message, "unexpected character");
}

#[test]
fn string_glued_to_symbol_is_rejected() {
    let e = first_error("\"foo\"bar");
    assert_eq!(e.message, "expected delimeter");
}

#[test]
fn closers_are_legal_delimiters() {
    assert_eq!(
        kinds("(1)"),
        vec![
            TokenKind::LeftParen,
            TokenKind::Number("1".to_string()),
            TokenKind::RightParen
        ]
    );
    assert_eq!(
        kinds("[x] {y}"),
        vec![
            TokenKind::LeftBracket,
            sym("x"),
            TokenKind::RightBracket,
            TokenKind::LeftBrace,
            sym("y"),
            TokenKind::RightBrace
        ]
    );
}

#[test]
fn opener_after_closer_needs_a_delimiter() {
    let e = first_error("[x]{y}");
    assert_eq!(e.message, "expected delimeter");
}

#[test]
fn number_span_after_leading_spaces() {
    let toks = all_tokens("  42");
    assert_eq!(toks.len(), 1);
    let span = toks[0].location;
    assert_eq!(span.start.index, 2);
    assert_eq!(span.end.index, 3);
    assert_eq!(span.start.line, 0);
    assert_eq!(span.start.column, 2);
}

#[test]
fn line_and_column_track_newlines() {
    let toks = all_tokens("a\nb");
    assert_eq!(toks.len(), 2);
    assert_eq!(toks[0].location.start.line, 0);
    assert_eq!(toks[0].location.start.column, 0);
    assert_eq!(toks[1].location.start.line, 1);
    assert_eq!(toks[1].location.start.column, 0);
    assert_eq!(toks[1].location.start.index, 2);
}

#[test]
fn spans_strictly_increase_and_never_overlap() {
    let toks = all_tokens("foo bar (1 2.5) \"s\" nil");
    assert!(toks.len() >= 5);
    for pair in toks.windows(2) {
        assert!(pair[0].location.end.index < pair[1].location.start.index);
        assert!(pair[0].location.start.index <= pair[0].location.end.index);
    }
}

#[test]
fn scientific_notation_numbers() {
    match &kinds("1.5e3")[0] {
        TokenKind::Number(text) => {
            assert_eq!(text, "1.5e3");
            assert_eq!(text.parse::<f32>().unwrap(), 1500.0f32);
        }
        other => panic!("expected a number, got {:?}", other),
    }
    assert_eq!(kinds("-7")[0], TokenKind::Number("-7".to_string()));
    assert_eq!(kinds("+2.25")[0], TokenKind::Number("+2.25".to_string()));
}

#[test]
fn bare_sign_is_an_invalid_number() {
    let e = first_error("-");
    assert_eq!(e.message, "invalid number literal");
    let e = first_error("+e2");
    assert_eq!(e.message, "invalid number literal");
}

#[test]
fn trailing_dot_number_is_accepted() {
    assert_eq!(kinds("1."), vec![TokenKind::Number("1.".to_string())]);
    assert_eq!("1.".parse::<f32>().unwrap(), 1.0f32);
}

#[test]
fn symbol_construction_is_fallible() {
    assert!(Symbol::new("abc_123".to_string()).is_some());
    assert_eq!(Symbol::new("abc".to_string()).unwrap().as_str(), "abc");
    assert!(Symbol::new("9abc".to_string()).is_none());
    assert!(Symbol::new("".to_string()).is_none());
    assert!(Symbol::new("a-b".to_string()).is_none());
}

#[test]
fn error_spans_point_into_the_input() {
    let e = first_error("  1.2.3");
    let span = e.location.expect("error should carry a span");
    assert_eq!(span.start.index, 2);
    assert_eq!(span.end.index, 6);
}

#[test]
fn lexing_continues_after_error_at_cursor() {
    let mut lx = lexer_of("# 5");
    assert!(lx.next().unwrap().is_err());
    let t = lx.next().unwrap().unwrap();
    assert_eq!(t.kind, TokenKind::Number("5".to_string()));
    assert!(lx.next().is_none());
}
