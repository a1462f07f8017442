use syljs::lexer::{tokenize, Keyword, Lexer, TokenKind};
use syljs::span::{SourceId, Span};

fn kinds(source: &str) -> Vec<TokenKind> {
    Lexer::new(source).tokenize().unwrap().into_iter().map(|t| t.kind).collect()
}

#[test]
fn lexes_declaration_with_spans() {
    let ts = tokenize("let x = 1.5;", SourceId(3)).unwrap();
    let k: Vec<TokenKind> = ts.iter().map(|t| t.kind.clone()).collect();
    assert_eq!(
        k,
        vec![
            TokenKind::Keyword(Keyword::Let),
            TokenKind::Identifier("x".to_owned()),
            TokenKind::Equal,
            TokenKind::Number("1.5".to_owned()),
            TokenKind::Semicolon,
            TokenKind::Eof,
        ]
    );
    assert_eq!(ts[1].span, Span::new(SourceId(3), 4, 5));
    assert_eq!(ts[3].span, Span::new(SourceId(3), 8, 11));
    assert_eq!(ts[5].span, Span::new(SourceId(3), 12, 12));
}

#[test]
fn operators_take_the_longest_form() {
    assert_eq!(
        kinds("a === b !== c => d += ++e && f || g"),
        vec![
            TokenKind::Identifier("a".to_owned()),
            TokenKind::EqualEqualEqual,
            TokenKind::Identifier("b".to_owned()),
            TokenKind::BangEqualEqual,
            TokenKind::Identifier("c".to_owned()),
            TokenKind::Arrow,
            TokenKind::Identifier("d".to_owned()),
            TokenKind::PlusEqual,
            TokenKind::PlusPlus,
            TokenKind::Identifier("e".to_owned()),
            TokenKind::AmpAmp,
            TokenKind::Identifier("f".to_owned()),
            TokenKind::PipePipe,
            TokenKind::Identifier("g".to_owned()),
            TokenKind::Eof,
        ]
    );
}

#[test]
fn comments_and_whitespace_are_skipped() {
    assert_eq!(
        kinds("// line\n/* block */ x /* again */"),
        vec![TokenKind::Identifier("x".to_owned()), TokenKind::Eof]
    );
}

#[test]
fn string_escapes_are_resolved() {
    assert_eq!(
        kinds(r#"'a\n\'b' "c\"""#),
        vec![
            TokenKind::String("a\n'b".to_owned()),
            TokenKind::String("c\"".to_owned()),
            TokenKind::Eof
        ]
    );
}

#[test]
fn template_text_is_kept() {
    assert_eq!(kinds("`hi there`"), vec![TokenKind::Template("hi there".to_owned()), TokenKind::Eof]);
}

#[test]
fn keywords_are_recognised() {
    assert_eq!(Keyword::from_ident("function"), Some(Keyword::Function));
    assert_eq!(Keyword::from_ident("typeof"), Some(Keyword::Typeof));
    assert_eq!(Keyword::from_ident("functions"), None);
}

#[test]
fn byte_offsets_count_utf8_width() {
    let ts = tokenize("'é' x", SourceId(0)).unwrap();
    assert_eq!(ts[0].span, Span::new(SourceId(0), 0, 4));
    assert_eq!(ts[1].span, Span::new(SourceId(0), 5, 6));
}

#[test]
fn unterminated_string_is_an_error() {
    let e = tokenize("'abc", SourceId(0)).unwrap_err();
    assert_eq!(e.message, "unterminated string literal");
    assert_eq!((e.start, e.end), (0, 4));
    assert_eq!(e.diagnostics.len(), 1);
}

#[test]
fn single_ampersand_and_unexpected_character() {
    let e = tokenize("a & b #", SourceId(0)).unwrap_err();
    assert_eq!(e.diagnostics.len(), 2);
    assert_eq!(e.message, "single `&` is not supported in SylJS subset");
    assert_eq!(e.diagnostics[1].message, "unexpected character `#`");
    assert_eq!(e.diagnostics[1].span, Span::new(SourceId(0), 6, 7));
}

#[test]
fn exponent_without_digits_reports_twice() {
    let e = tokenize("1e+", SourceId(0)).unwrap_err();
    assert_eq!(e.diagnostics.len(), 2);
    assert_eq!(e.message, "expected exponent digits");
    assert_eq!(e.diagnostics[1].message, "invalid numeric literal `1e+`");
}

#[test]
fn template_interpolation_is_refused() {
    let e = tokenize("`a${b}`", SourceId(0)).unwrap_err();
    assert_eq!(e.message, "template interpolation is not supported in SylJS Module 28");
    assert_eq!((e.start, e.end), (0, 3));
}

#[test]
fn unterminated_block_comment() {
    let e = tokenize("x /* open", SourceId(0)).unwrap_err();
    assert_eq!(e.message, "unterminated block comment");
    assert_eq!((e.start, e.end), (2, 9));
}
