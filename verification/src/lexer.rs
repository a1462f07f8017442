//! Lexer for the script subset: characters in, tokens out, with byte spans
//! and diagnostics. Numeric literals keep their source text; turning it
//! into an IEEE-754 double is floating-point work left to the caller.

use crate::diagnostic::{Diagnostic, SylJsError};
use crate::span::{SourceId, Span};
use crate::text::{chars_of, is_lit, is_ws, is_ws_exec, string_from};
use vstd::prelude::*;

verus! {

broadcast use vstd::string::group_string_axioms;

/// Reserved word.
#[derive(Debug, Clone, Copy, PartialEq, Eq, Structural)]
pub enum Keyword {
    /// `var`.
    Var,
    /// `let`.
    Let,
    /// `const`.
    Const,
    /// `function`.
    Function,
    /// `return`.
    Return,
    /// `if`.
    If,
    /// `else`.
    Else,
    /// `while`.
    While,
    /// `for`.
    For,
    /// `break`.
    Break,
    /// `continue`.
    Continue,
    /// `new`.
    New,
    /// `this`.
    This,
    /// `null`.
    Null,
    /// `undefined`.
    Undefined,
    /// `true`.
    True,
    /// `false`.
    False,
    /// `typeof`.
    Typeof,
    /// `void`.
    Void,
    /// `delete`.
    Delete,
}

/// The keyword spelled `s`, if any.
pub open spec fn keyword_of(s: Seq<char>) -> Option<Keyword> {
    if false {
        None
    } else if s == "var"@ {
        Some(Keyword::Var)
    } else if s == "let"@ {
        Some(Keyword::Let)
    } else if s == "const"@ {
        Some(Keyword::Const)
    } else if s == "function"@ {
        Some(Keyword::Function)
    } else if s == "return"@ {
        Some(Keyword::Return)
    } else if s == "if"@ {
        Some(Keyword::If)
    } else if s == "else"@ {
        Some(Keyword::Else)
    } else if s == "while"@ {
        Some(Keyword::While)
    } else if s == "for"@ {
        Some(Keyword::For)
    } else if s == "break"@ {
        Some(Keyword::Break)
    } else if s == "continue"@ {
        Some(Keyword::Continue)
    } else if s == "new"@ {
        Some(Keyword::New)
    } else if s == "this"@ {
        Some(Keyword::This)
    } else if s == "null"@ {
        Some(Keyword::Null)
    } else if s == "undefined"@ {
        Some(Keyword::Undefined)
    } else if s == "true"@ {
        Some(Keyword::True)
    } else if s == "false"@ {
        Some(Keyword::False)
    } else if s == "typeof"@ {
        Some(Keyword::Typeof)
    } else if s == "void"@ {
        Some(Keyword::Void)
    } else if s == "delete"@ {
        Some(Keyword::Delete)
    } else {
        None
    }
}

fn keyword_exec(v: &[char]) -> (r: Option<Keyword>)
    ensures
        r == keyword_of(v@),
{
    if false {
        None
    } else if is_lit(v, "var") {
        Some(Keyword::Var)
    } else if is_lit(v, "let") {
        Some(Keyword::Let)
    } else if is_lit(v, "const") {
        Some(Keyword::Const)
    } else if is_lit(v, "function") {
        Some(Keyword::Function)
    } else if is_lit(v, "return") {
        Some(Keyword::Return)
    } else if is_lit(v, "if") {
        Some(Keyword::If)
    } else if is_lit(v, "else") {
        Some(Keyword::Else)
    } else if is_lit(v, "while") {
        Some(Keyword::While)
    } else if is_lit(v, "for") {
        Some(Keyword::For)
    } else if is_lit(v, "break") {
        Some(Keyword::Break)
    } else if is_lit(v, "continue") {
        Some(Keyword::Continue)
    } else if is_lit(v, "new") {
        Some(Keyword::New)
    } else if is_lit(v, "this") {
        Some(Keyword::This)
    } else if is_lit(v, "null") {
        Some(Keyword::Null)
    } else if is_lit(v, "undefined") {
        Some(Keyword::Undefined)
    } else if is_lit(v, "true") {
        Some(Keyword::True)
    } else if is_lit(v, "false") {
        Some(Keyword::False)
    } else if is_lit(v, "typeof") {
        Some(Keyword::Typeof)
    } else if is_lit(v, "void") {
        Some(Keyword::Void)
    } else if is_lit(v, "delete") {
        Some(Keyword::Delete)
    } else {
        None
    }
}

impl Keyword {
    /// The keyword spelled by an identifier, if any.
    pub fn from_ident(s: &str) -> (r: Option<Keyword>)
        ensures
            r == keyword_of(s@),
    {
        let v = chars_of(s);
        keyword_exec(v.as_slice())
    }
}

/// Token kind.
#[derive(Debug, Clone, PartialEq)]
pub enum TokenKind {
    /// `LParen`.
    LParen,
    /// `RParen`.
    RParen,
    /// `LBrace`.
    LBrace,
    /// `RBrace`.
    RBrace,
    /// `LBracket`.
    LBracket,
    /// `RBracket`.
    RBracket,
    /// `Dot`.
    Dot,
    /// `Comma`.
    Comma,
    /// `Semicolon`.
    Semicolon,
    /// `Colon`.
    Colon,
    /// `Question`.
    Question,
    /// `Tilde`.
    Tilde,
    /// `Plus`.
    Plus,
    /// `PlusPlus`.
    PlusPlus,
    /// `PlusEqual`.
    PlusEqual,
    /// `Minus`.
    Minus,
    /// `MinusMinus`.
    MinusMinus,
    /// `MinusEqual`.
    MinusEqual,
    /// `Star`.
    Star,
    /// `StarEqual`.
    StarEqual,
    /// `Percent`.
    Percent,
    /// `PercentEqual`.
    PercentEqual,
    /// `Slash`.
    Slash,
    /// `SlashEqual`.
    SlashEqual,
    /// `Bang`.
    Bang,
    /// `BangEqual`.
    BangEqual,
    /// `BangEqualEqual`.
    BangEqualEqual,
    /// `Equal`.
    Equal,
    /// `EqualEqual`.
    EqualEqual,
    /// `EqualEqualEqual`.
    EqualEqualEqual,
    /// `Arrow`.
    Arrow,
    /// `Less`.
    Less,
    /// `LessEqual`.
    LessEqual,
    /// `Greater`.
    Greater,
    /// `GreaterEqual`.
    GreaterEqual,
    /// `AmpAmp`.
    AmpAmp,
    /// `PipePipe`.
    PipePipe,
    /// Identifier.
    Identifier(String),
    /// Numeric literal, as its source text.
    Number(String),
    /// String literal, escapes resolved.
    String(String),
    /// Template literal text.
    Template(String),
    /// Keyword.
    Keyword(Keyword),
    /// End of input.
    Eof,
}

/// Model of a token kind.
pub enum KindView {
    LParen,
    RParen,
    LBrace,
    RBrace,
    LBracket,
    RBracket,
    Dot,
    Comma,
    Semicolon,
    Colon,
    Question,
    Tilde,
    Plus,
    PlusPlus,
    PlusEqual,
    Minus,
    MinusMinus,
    MinusEqual,
    Star,
    StarEqual,
    Percent,
    PercentEqual,
    Slash,
    SlashEqual,
    Bang,
    BangEqual,
    BangEqualEqual,
    Equal,
    EqualEqual,
    EqualEqualEqual,
    Arrow,
    Less,
    LessEqual,
    Greater,
    GreaterEqual,
    AmpAmp,
    PipePipe,
    Identifier(Seq<char>),
    Number(Seq<char>),
    String(Seq<char>),
    Template(Seq<char>),
    Keyword(Keyword),
    Eof,
}

impl View for TokenKind {
    type V = KindView;

    open spec fn view(&self) -> KindView {
        match self {
            TokenKind::LParen => KindView::LParen,
            TokenKind::RParen => KindView::RParen,
            TokenKind::LBrace => KindView::LBrace,
            TokenKind::RBrace => KindView::RBrace,
            TokenKind::LBracket => KindView::LBracket,
            TokenKind::RBracket => KindView::RBracket,
            TokenKind::Dot => KindView::Dot,
            TokenKind::Comma => KindView::Comma,
            TokenKind::Semicolon => KindView::Semicolon,
            TokenKind::Colon => KindView::Colon,
            TokenKind::Question => KindView::Question,
            TokenKind::Tilde => KindView::Tilde,
            TokenKind::Plus => KindView::Plus,
            TokenKind::PlusPlus => KindView::PlusPlus,
            TokenKind::PlusEqual => KindView::PlusEqual,
            TokenKind::Minus => KindView::Minus,
            TokenKind::MinusMinus => KindView::MinusMinus,
            TokenKind::MinusEqual => KindView::MinusEqual,
            TokenKind::Star => KindView::Star,
            TokenKind::StarEqual => KindView::StarEqual,
            TokenKind::Percent => KindView::Percent,
            TokenKind::PercentEqual => KindView::PercentEqual,
            TokenKind::Slash => KindView::Slash,
            TokenKind::SlashEqual => KindView::SlashEqual,
            TokenKind::Bang => KindView::Bang,
            TokenKind::BangEqual => KindView::BangEqual,
            TokenKind::BangEqualEqual => KindView::BangEqualEqual,
            TokenKind::Equal => KindView::Equal,
            TokenKind::EqualEqual => KindView::EqualEqual,
            TokenKind::EqualEqualEqual => KindView::EqualEqualEqual,
            TokenKind::Arrow => KindView::Arrow,
            TokenKind::Less => KindView::Less,
            TokenKind::LessEqual => KindView::LessEqual,
            TokenKind::Greater => KindView::Greater,
            TokenKind::GreaterEqual => KindView::GreaterEqual,
            TokenKind::AmpAmp => KindView::AmpAmp,
            TokenKind::PipePipe => KindView::PipePipe,
            TokenKind::Identifier(t) => KindView::Identifier(t@),
            TokenKind::Number(t) => KindView::Number(t@),
            TokenKind::String(t) => KindView::String(t@),
            TokenKind::Template(t) => KindView::Template(t@),
            TokenKind::Keyword(k) => KindView::Keyword(*k),
            TokenKind::Eof => KindView::Eof,
        }
    }
}

/// Token with its byte span.
#[derive(Debug, Clone, PartialEq)]
pub struct Token {
    /// Kind.
    pub kind: TokenKind,
    /// Source span.
    pub span: Span,
}

impl Token {
    /// Creates a token.
    pub fn new(kind: TokenKind, span: Span) -> (t: Self)
        ensures
            t.kind == kind,
            t.span == span,
    {
        Token { kind, span }
    }
}

// ---------------------------------------------------------------------------
// The lexical grammar, over the characters of the source
// ---------------------------------------------------------------------------

/// A diagnostic of the model: message and character positions.
pub struct LexErr {
    pub message: Seq<char>,
    pub start: int,
    pub end: int,
}

/// A diagnostic at character positions `start..end`.
pub open spec fn lex_err(message: Seq<char>, start: int, end: int) -> LexErr {
    LexErr { message, start, end }
}

/// Characters that may start an identifier.
pub open spec fn ident_start(c: char) -> bool {
    c == '_' || c == '$' || ('a' <= c && c <= 'z') || ('A' <= c && c <= 'Z')
}

/// ASCII digits.
pub open spec fn is_digit(c: char) -> bool {
    '0' <= c && c <= '9'
}

/// Characters that may continue an identifier.
pub open spec fn ident_continue(c: char) -> bool {
    ident_start(c) || is_digit(c)
}

/// Character `ch` stands at `i`.
pub open spec fn at(cs: Seq<char>, i: int, ch: char) -> bool {
    0 <= i < cs.len() && cs[i] == ch
}

/// End of the identifier characters from `i`.
pub open spec fn ident_end(cs: Seq<char>, i: int) -> int
    decreases cs.len() - i,
{
    if 0 <= i < cs.len() && ident_continue(cs[i]) {
        ident_end(cs, i + 1)
    } else {
        i
    }
}

/// End of the digits from `i`.
pub open spec fn digits_end(cs: Seq<char>, i: int) -> int
    decreases cs.len() - i,
{
    if 0 <= i < cs.len() && is_digit(cs[i]) {
        digits_end(cs, i + 1)
    } else {
        i
    }
}

/// End of the digits and (at most one) decimal point from `i`.
pub open spec fn mantissa_end(cs: Seq<char>, i: int, seen_dot: bool) -> int
    decreases cs.len() - i,
{
    if 0 <= i < cs.len() && is_digit(cs[i]) {
        mantissa_end(cs, i + 1, seen_dot)
    } else if 0 <= i < cs.len() && cs[i] == '.' && !seen_dot {
        mantissa_end(cs, i + 1, true)
    } else {
        i
    }
}

/// A numeric literal whose first digit stands at `i`: its end, and its
/// diagnostics (an exponent marker needs digits).
pub open spec fn number_scan(cs: Seq<char>, i: int) -> (int, Seq<LexErr>) {
    let j = mantissa_end(cs, i + 1, false);
    if at(cs, j, 'e') || at(cs, j, 'E') {
        let k = if at(cs, j + 1, '+') || at(cs, j + 1, '-') {
            j + 2
        } else {
            j + 1
        };
        let m = digits_end(cs, k);
        if m == k {
            (
                m,
                seq![
                    lex_err("expected exponent digits"@, i, m),
                    lex_err("invalid numeric literal `"@ + cs.subrange(i, m) + "`"@, i, m),
                ],
            )
        } else {
            (m, Seq::empty())
        }
    } else {
        (j, Seq::empty())
    }
}

/// The character an escape `\c` stands for.
pub open spec fn escaped(c: char) -> char {
    if c == 'n' {
        '\n'
    } else if c == 'r' {
        '\r'
    } else if c == 't' {
        '\t'
    } else if c == '0' {
        '\0'
    } else {
        c
    }
}

/// The rest of a string literal from `i`, opened at `start` with `quote`,
/// `acc` read so far: its value, its end, its diagnostics.
pub open spec fn string_scan(cs: Seq<char>, i: int, quote: char, start: int, acc: Seq<char>) -> (Seq<char>, int, Seq<LexErr>)
    decreases cs.len() - i,
{
    if i < 0 || i >= cs.len() {
        (acc, i, seq![lex_err("unterminated string literal"@, start, i)])
    } else if cs[i] == quote {
        (acc, i + 1, Seq::empty())
    } else if cs[i] == '\\' {
        if i + 1 >= cs.len() {
            (
                acc,
                i + 1,
                seq![
                    lex_err("unterminated escape sequence"@, start, i + 1),
                    lex_err("unterminated string literal"@, start, i + 1),
                ],
            )
        } else {
            string_scan(cs, i + 2, quote, start, acc.push(escaped(cs[i + 1])))
        }
    } else {
        string_scan(cs, i + 1, quote, start, acc.push(cs[i]))
    }
}

/// Inside a string literal, a backslash and the character after it add one
/// character to the value and the scan goes on after both: `\t` adds a tab,
/// `\n` a line feed, `\r` a carriage return, `\0` a NUL, and any other escaped
/// character (a quote or a backslash among them) stands for itself.
pub proof fn lemma_string_escape(cs: Seq<char>, i: int, quote: char, start: int, acc: Seq<char>)
    requires
        0 <= i,
        i + 1 < cs.len(),
        cs[i] == '\\',
        quote != '\\',
    ensures
        cs[i + 1] == 't' ==> string_scan(cs, i, quote, start, acc) == string_scan(
            cs,
            i + 2,
            quote,
            start,
            acc.push('\t'),
        ),
        cs[i + 1] == 'n' ==> string_scan(cs, i, quote, start, acc) == string_scan(
            cs,
            i + 2,
            quote,
            start,
            acc.push('\n'),
        ),
        cs[i + 1] == 'r' ==> string_scan(cs, i, quote, start, acc) == string_scan(
            cs,
            i + 2,
            quote,
            start,
            acc.push('\r'),
        ),
        cs[i + 1] == '0' ==> string_scan(cs, i, quote, start, acc) == string_scan(
            cs,
            i + 2,
            quote,
            start,
            acc.push('\0'),
        ),
        cs[i + 1] != 't' && cs[i + 1] != 'n' && cs[i + 1] != 'r' && cs[i + 1] != '0' ==> string_scan(
            cs,
            i,
            quote,
            start,
            acc,
        ) == string_scan(cs, i + 2, quote, start, acc.push(cs[i + 1])),
{
}

/// A string literal's value does not depend on what was read before: the
/// scan from `i` appends the same characters to whatever `acc` holds.
pub proof fn lemma_string_scan_appends(cs: Seq<char>, i: int, quote: char, start: int, acc: Seq<char>)
    ensures
        string_scan(cs, i, quote, start, acc).0 == acc + string_scan(cs, i, quote, start, Seq::empty()).0,
        string_scan(cs, i, quote, start, acc).1 == string_scan(cs, i, quote, start, Seq::empty()).1,
        string_scan(cs, i, quote, start, acc).2 == string_scan(cs, i, quote, start, Seq::empty()).2,
    decreases cs.len() - i,
{
    if i < 0 || i >= cs.len() {
        assert(acc + Seq::<char>::empty() =~= acc);
    } else if cs[i] == quote {
        assert(acc + Seq::<char>::empty() =~= acc);
    } else if cs[i] == '\\' {
        if i + 1 >= cs.len() {
            assert(acc + Seq::<char>::empty() =~= acc);
        } else {
            let c = escaped(cs[i + 1]);
            lemma_string_scan_appends(cs, i + 2, quote, start, acc.push(c));
            lemma_string_scan_appends(cs, i + 2, quote, start, seq![c]);
            assert(Seq::<char>::empty().push(c) =~= seq![c]);
            let r = string_scan(cs, i + 2, quote, start, Seq::empty()).0;
            assert(acc.push(c) + r =~= acc + (seq![c] + r));
        }
    } else {
        let c = cs[i];
        lemma_string_scan_appends(cs, i + 1, quote, start, acc.push(c));
        lemma_string_scan_appends(cs, i + 1, quote, start, seq![c]);
        assert(Seq::<char>::empty().push(c) =~= seq![c]);
        let r = string_scan(cs, i + 1, quote, start, Seq::empty()).0;
        assert(acc.push(c) + r =~= acc + (seq![c] + r));
    }
}

/// The rest of a template literal from `i`, opened at `start`.
pub open spec fn template_scan(cs: Seq<char>, i: int, start: int, acc: Seq<char>) -> (Seq<char>, int, Seq<LexErr>)
    decreases cs.len() - i,
{
    if i < 0 || i >= cs.len() {
        (acc, i, seq![lex_err("unterminated template literal"@, start, i)])
    } else if cs[i] == '`' {
        (acc, i + 1, Seq::empty())
    } else {
        let here: Seq<LexErr> = if cs[i] == '$' && at(cs, i + 1, '{') {
            seq![lex_err("template interpolation is not supported in SylJS Module 28"@, start, i + 1)]
        } else {
            Seq::empty()
        };
        let rest = template_scan(cs, i + 1, start, acc.push(cs[i]));
        (rest.0, rest.1, here + rest.2)
    }
}

/// End of a line comment's text from `i`.
pub open spec fn line_end(cs: Seq<char>, i: int) -> int
    decreases cs.len() - i,
{
    if 0 <= i < cs.len() && cs[i] != '\n' && cs[i] != '\r' {
        line_end(cs, i + 1)
    } else {
        i
    }
}

/// End of a block comment's text from `i`, and whether `*/` closed it.
pub open spec fn block_end(cs: Seq<char>, i: int) -> (int, bool)
    decreases cs.len() - i,
{
    if i < 0 || i >= cs.len() {
        (i, false)
    } else if cs[i] == '*' && at(cs, i + 1, '/') {
        (i + 2, true)
    } else {
        block_end(cs, i + 1)
    }
}

/// Whitespace and comments skipped from `i`: where the next token may start,
/// and the diagnostics of unterminated comments.
pub open spec fn skip_trivia(cs: Seq<char>, i: int) -> (int, Seq<LexErr>)
    decreases cs.len() - i,
{
    if 0 <= i < cs.len() && is_ws(cs[i]) {
        skip_trivia(cs, i + 1)
    } else if at(cs, i, '/') && at(cs, i + 1, '/') {
        let j = line_end(cs, i + 2);
        if i < j <= cs.len() {
            skip_trivia(cs, j)
        } else {
            (i, Seq::empty())
        }
    } else if at(cs, i, '/') && at(cs, i + 1, '*') {
        let (j, closed) = block_end(cs, i + 2);
        if i < j <= cs.len() {
            let here: Seq<LexErr> = if closed {
                Seq::empty()
            } else {
                seq![lex_err("unterminated block comment"@, i, j)]
            };
            let rest = skip_trivia(cs, j);
            (rest.0, here + rest.1)
        } else {
            (i, Seq::empty())
        }
    } else {
        (i, Seq::empty())
    }
}

/// A one- or two-character operator: `long` when `next` follows, else `short`.
pub open spec fn pick(cs: Seq<char>, n: int, next: char, long: KindView, short: KindView) -> (KindView, int, Seq<LexErr>) {
    if at(cs, n, next) {
        (long, n + 1, Seq::empty())
    } else {
        (short, n, Seq::empty())
    }
}

/// The token starting at `i` (which holds a character): its kind, its end
/// and its diagnostics.
pub open spec fn lex_token(cs: Seq<char>, i: int) -> (KindView, int, Seq<LexErr>) {
    let c = cs[i];
    let n = i + 1;
    if c == '(' {
        (KindView::LParen, n, Seq::empty())
    } else if c == ')' {
        (KindView::RParen, n, Seq::empty())
    } else if c == '{' {
        (KindView::LBrace, n, Seq::empty())
    } else if c == '}' {
        (KindView::RBrace, n, Seq::empty())
    } else if c == '[' {
        (KindView::LBracket, n, Seq::empty())
    } else if c == ']' {
        (KindView::RBracket, n, Seq::empty())
    } else if c == '.' {
        (KindView::Dot, n, Seq::empty())
    } else if c == ',' {
        (KindView::Comma, n, Seq::empty())
    } else if c == ';' {
        (KindView::Semicolon, n, Seq::empty())
    } else if c == ':' {
        (KindView::Colon, n, Seq::empty())
    } else if c == '?' {
        (KindView::Question, n, Seq::empty())
    } else if c == '~' {
        (KindView::Tilde, n, Seq::empty())
    } else if c == '+' {
        if at(cs, n, '+') {
            (KindView::PlusPlus, n + 1, Seq::empty())
        } else {
            pick(cs, n, '=', KindView::PlusEqual, KindView::Plus)
        }
    } else if c == '-' {
        if at(cs, n, '-') {
            (KindView::MinusMinus, n + 1, Seq::empty())
        } else {
            pick(cs, n, '=', KindView::MinusEqual, KindView::Minus)
        }
    } else if c == '*' {
        pick(cs, n, '=', KindView::StarEqual, KindView::Star)
    } else if c == '%' {
        pick(cs, n, '=', KindView::PercentEqual, KindView::Percent)
    } else if c == '/' {
        pick(cs, n, '=', KindView::SlashEqual, KindView::Slash)
    } else if c == '!' {
        if at(cs, n, '=') {
            pick(cs, n + 1, '=', KindView::BangEqualEqual, KindView::BangEqual)
        } else {
            (KindView::Bang, n, Seq::empty())
        }
    } else if c == '=' {
        if at(cs, n, '>') {
            (KindView::Arrow, n + 1, Seq::empty())
        } else if at(cs, n, '=') {
            pick(cs, n + 1, '=', KindView::EqualEqualEqual, KindView::EqualEqual)
        } else {
            (KindView::Equal, n, Seq::empty())
        }
    } else if c == '<' {
        pick(cs, n, '=', KindView::LessEqual, KindView::Less)
    } else if c == '>' {
        pick(cs, n, '=', KindView::GreaterEqual, KindView::Greater)
    } else if c == '&' {
        if at(cs, n, '&') {
            (KindView::AmpAmp, n + 1, Seq::empty())
        } else {
            (KindView::AmpAmp, n, seq![lex_err("single `&` is not supported in SylJS subset"@, i, n)])
        }
    } else if c == '|' {
        if at(cs, n, '|') {
            (KindView::PipePipe, n + 1, Seq::empty())
        } else {
            (KindView::PipePipe, n, seq![lex_err("single `|` is not supported in SylJS subset"@, i, n)])
        }
    } else if c == '"' || c == '\'' {
        let (v, e, es) = string_scan(cs, n, c, i, Seq::empty());
        (KindView::String(v), e, es)
    } else if c == '`' {
        let (v, e, es) = template_scan(cs, n, i, Seq::empty());
        (KindView::Template(v), e, es)
    } else if ident_start(c) {
        let e = ident_end(cs, n);
        let text = cs.subrange(i, e);
        match keyword_of(text) {
            Some(k) => (KindView::Keyword(k), e, Seq::empty()),
            None => (KindView::Identifier(text), e, Seq::empty()),
        }
    } else if is_digit(c) {
        let (e, es) = number_scan(cs, i);
        (KindView::Number(cs.subrange(i, e)), e, es)
    } else {
        (KindView::Eof, n, seq![lex_err("unexpected character `"@ + seq![c] + "`"@, i, n)])
    }
}

/// Every token from `i` to the end of input, closed by an end-of-input
/// token, each with its character span; and every diagnostic, in order.
pub open spec fn lex_from(cs: Seq<char>, i: int) -> (Seq<(KindView, int, int)>, Seq<LexErr>)
    decreases cs.len() - i,
{
    let eof = seq![(KindView::Eof, cs.len() as int, cs.len() as int)];
    if i < 0 || i >= cs.len() {
        (eof, Seq::empty())
    } else {
        let (j, e1) = skip_trivia(cs, i);
        if j < 0 || j >= cs.len() {
            (eof, e1)
        } else {
            let (k, end, e2) = lex_token(cs, j);
            if j < end <= cs.len() && i <= j {
                let rest = lex_from(cs, end);
                (seq![(k, j, end)] + rest.0, e1 + e2 + rest.1)
            } else {
                (eof, e1 + e2)
            }
        }
    }
}

// ---------------------------------------------------------------------------
// The scanner
// ---------------------------------------------------------------------------

struct ErrRec {
    message: String,
    start: usize,
    end: usize,
}

spec fn err_views(s: Seq<ErrRec>) -> Seq<LexErr> {
    s.map_values(|e: ErrRec| lex_err(e.message@, e.start as int, e.end as int))
}

fn push_err(errs: &mut Vec<ErrRec>, message: String, start: usize, end: usize)
    ensures
        err_views(final(errs)@) == err_views(old(errs)@).push(lex_err(message@, start as int, end as int)),
{
    let ghost m = message@;
    errs.push(ErrRec { message, start, end });
    assert(err_views(errs@) =~= err_views(old(errs)@).push(lex_err(m, start as int, end as int)));
}

fn ident_start_exec(c: char) -> (r: bool)
    ensures
        r == ident_start(c),
{
    c == '_' || c == '$' || ('a' <= c && c <= 'z') || ('A' <= c && c <= 'Z')
}

fn is_digit_exec(c: char) -> (r: bool)
    ensures
        r == is_digit(c),
{
    '0' <= c && c <= '9'
}

fn at_exec(cs: &[char], i: usize, ch: char) -> (r: bool)
    ensures
        r == at(cs@, i as int, ch),
{
    i < cs.len() && cs[i] == ch
}

fn ident_end_exec(cs: &[char], i: usize) -> (r: usize)
    requires
        i <= cs@.len(),
    ensures
        r as int == ident_end(cs@, i as int),
        i <= r <= cs@.len(),
{
    let mut j = i;
    while j < cs.len() && (ident_start_exec(cs[j]) || is_digit_exec(cs[j]))
        invariant
            i <= j <= cs@.len(),
            ident_end(cs@, j as int) == ident_end(cs@, i as int),
        decreases cs@.len() - j,
    {
        j = j + 1;
    }
    j
}

fn digits_end_exec(cs: &[char], i: usize) -> (r: usize)
    requires
        i <= cs@.len(),
    ensures
        r as int == digits_end(cs@, i as int),
        i <= r <= cs@.len(),
{
    let mut j = i;
    while j < cs.len() && is_digit_exec(cs[j])
        invariant
            i <= j <= cs@.len(),
            digits_end(cs@, j as int) == digits_end(cs@, i as int),
        decreases cs@.len() - j,
    {
        j = j + 1;
    }
    j
}

fn mantissa_end_exec(cs: &[char], i: usize) -> (r: usize)
    requires
        i <= cs@.len(),
    ensures
        r as int == mantissa_end(cs@, i as int, false),
        i <= r <= cs@.len(),
{
    let mut j = i;
    let mut seen = false;
    while j < cs.len() && (is_digit_exec(cs[j]) || (cs[j] == '.' && !seen))
        invariant
            i <= j <= cs@.len(),
            mantissa_end(cs@, j as int, seen) == mantissa_end(cs@, i as int, false),
        decreases cs@.len() - j,
    {
        if !is_digit_exec(cs[j]) {
            seen = true;
        }
        j = j + 1;
    }
    j
}

fn line_end_exec(cs: &[char], i: usize) -> (r: usize)
    requires
        i <= cs@.len(),
    ensures
        r as int == line_end(cs@, i as int),
        i <= r <= cs@.len(),
{
    let mut j = i;
    while j < cs.len() && cs[j] != '\n' && cs[j] != '\r'
        invariant
            i <= j <= cs@.len(),
            line_end(cs@, j as int) == line_end(cs@, i as int),
        decreases cs@.len() - j,
    {
        j = j + 1;
    }
    j
}

fn block_end_exec(cs: &[char], i: usize) -> (r: (usize, bool))
    requires
        i <= cs@.len(),
    ensures
        (r.0 as int, r.1) == block_end(cs@, i as int),
        i <= r.0 <= cs@.len(),
{
    let mut j = i;
    while j < cs.len()
        invariant
            i <= j <= cs@.len(),
            block_end(cs@, j as int) == block_end(cs@, i as int),
        decreases cs@.len() - j,
    {
        if cs[j] == '*' && at_exec(cs, j + 1, '/') {
            return (j + 2, true);
        }
        j = j + 1;
    }
    (j, false)
}

fn number_scan_exec(cs: &[char], i: usize, errs: &mut Vec<ErrRec>) -> (r: usize)
    requires
        i < cs@.len(),
    ensures
        r as int == number_scan(cs@, i as int).0,
        err_views(final(errs)@) == err_views(old(errs)@) + number_scan(cs@, i as int).1,
        i < r <= cs@.len(),
{
    assert(cs@.len() == cs.len());
    let j = mantissa_end_exec(cs, i + 1);
    if j < cs.len() && (cs[j] == 'e' || cs[j] == 'E') {
        let k = if j + 1 < cs.len() && (cs[j + 1] == '+' || cs[j + 1] == '-') {
            j + 2
        } else {
            j + 1
        };
        let m = digits_end_exec(cs, k);
        if m == k {
            push_err(errs, crate::text::owned("expected exponent digits"), i, m);
            let mut msg: Vec<char> = chars_of("invalid numeric literal `");
            let mut p = i;
            let ghost m0 = msg@;
            while p < m
                invariant
                    i <= p <= m,
                    m <= cs@.len(),
                    msg@ == m0 + cs@.subrange(i as int, p as int),
                decreases m - p,
            {
                msg.push(cs[p]);
                p = p + 1;
                assert(msg@ =~= m0 + cs@.subrange(i as int, p as int));
            }
            msg.push('`');
            let text = string_from(msg.as_slice());
            proof {
                reveal_strlit("`");
                assert(text@ =~= "invalid numeric literal `"@ + cs@.subrange(i as int, m as int) + "`"@);
            }
            let ghost e1 = err_views(errs@);
            push_err(errs, text, i, m);
            assert(err_views(errs@) =~= err_views(old(errs)@) + number_scan(cs@, i as int).1);
        } else {
            assert(err_views(errs@) =~= err_views(old(errs)@) + Seq::<LexErr>::empty());
        }
        m
    } else {
        assert(err_views(errs@) =~= err_views(old(errs)@) + Seq::<LexErr>::empty());
        j
    }
}

fn escaped_exec(c: char) -> (r: char)
    ensures
        r == escaped(c),
{
    if c == 'n' {
        '\n'
    } else if c == 'r' {
        '\r'
    } else if c == 't' {
        '\t'
    } else if c == '0' {
        '\0'
    } else {
        c
    }
}

fn string_scan_exec(cs: &[char], i: usize, quote: char, start: usize, errs: &mut Vec<ErrRec>) -> (r: (Vec<char>, usize))
    requires
        i <= cs@.len(),
    ensures
        (r.0@, r.1 as int) == (
            string_scan(cs@, i as int, quote, start as int, Seq::empty()).0,
            string_scan(cs@, i as int, quote, start as int, Seq::empty()).1,
        ),
        err_views(final(errs)@) == err_views(old(errs)@) + string_scan(cs@, i as int, quote, start as int, Seq::empty()).2,
        i <= r.1 <= cs@.len(),
{
    let ghost sc = string_scan(cs@, i as int, quote, start as int, Seq::empty());
    let mut acc: Vec<char> = Vec::new();
    let mut j = i;
    assert(acc@ =~= Seq::<char>::empty());
    loop
        invariant
            i <= j <= cs@.len(),
            string_scan(cs@, j as int, quote, start as int, acc@) == sc,
            sc == string_scan(cs@, i as int, quote, start as int, Seq::empty()),
            errs@ == old(errs)@,
        decreases cs@.len() - j,
    {
        if j >= cs.len() {
            push_err(errs, crate::text::owned("unterminated string literal"), start, j);
            assert(err_views(errs@) =~= err_views(old(errs)@) + sc.2);
            return (acc, j);
        }
        let c = cs[j];
        if c == quote {
            assert(err_views(errs@) =~= err_views(old(errs)@) + sc.2);
            return (acc, j + 1);
        }
        if c == '\\' {
            if j + 1 >= cs.len() {
                push_err(errs, crate::text::owned("unterminated escape sequence"), start, j + 1);
                push_err(errs, crate::text::owned("unterminated string literal"), start, j + 1);
                assert(err_views(errs@) =~= err_views(old(errs)@) + sc.2);
                return (acc, j + 1);
            }
            acc.push(escaped_exec(cs[j + 1]));
            j = j + 2;
        } else {
            acc.push(c);
            j = j + 1;
        }
    }
}

fn template_scan_exec(cs: &[char], i: usize, start: usize, errs: &mut Vec<ErrRec>) -> (r: (Vec<char>, usize))
    requires
        i <= cs@.len(),
    ensures
        (r.0@, r.1 as int) == (
            template_scan(cs@, i as int, start as int, Seq::empty()).0,
            template_scan(cs@, i as int, start as int, Seq::empty()).1,
        ),
        err_views(final(errs)@) == err_views(old(errs)@) + template_scan(cs@, i as int, start as int, Seq::empty()).2,
        i <= r.1 <= cs@.len(),
{
    let ghost sc = template_scan(cs@, i as int, start as int, Seq::empty());
    let mut acc: Vec<char> = Vec::new();
    let mut j = i;
    assert(acc@ =~= Seq::<char>::empty());
    assert(err_views(errs@) + sc.2 =~= err_views(old(errs)@) + sc.2);
    loop
        invariant
            i <= j <= cs@.len(),
            template_scan(cs@, j as int, start as int, acc@).0 == sc.0,
            sc == template_scan(cs@, i as int, start as int, Seq::empty()),
            template_scan(cs@, j as int, start as int, acc@).1 == sc.1,
            err_views(errs@) + template_scan(cs@, j as int, start as int, acc@).2 == err_views(old(errs)@) + sc.2,
        decreases cs@.len() - j,
    {
        let ghost before = err_views(errs@);
        if j >= cs.len() {
            push_err(errs, crate::text::owned("unterminated template literal"), start, j);
            assert(err_views(errs@) =~= before + template_scan(cs@, j as int, start as int, acc@).2);
            return (acc, j);
        }
        let c = cs[j];
        if c == '`' {
            assert(err_views(errs@) =~= before + template_scan(cs@, j as int, start as int, acc@).2);
            return (acc, j + 1);
        }
        let ghost t0 = template_scan(cs@, j as int, start as int, acc@);
        let ghost t1 = template_scan(cs@, j as int + 1, start as int, acc@.push(c));
        if c == '$' && at_exec(cs, j + 1, '{') {
            push_err(
                errs,
                crate::text::owned("template interpolation is not supported in SylJS Module 28"),
                start,
                j + 1,
            );
        }
        acc.push(c);
        j = j + 1;
        assert(err_views(errs@) + t1.2 =~= before + t0.2);
    }
}

fn skip_trivia_exec(cs: &[char], i: usize, errs: &mut Vec<ErrRec>) -> (r: usize)
    requires
        i <= cs@.len(),
    ensures
        r as int == skip_trivia(cs@, i as int).0,
        err_views(final(errs)@) == err_views(old(errs)@) + skip_trivia(cs@, i as int).1,
        i <= r <= cs@.len(),
{
    let ghost sc = skip_trivia(cs@, i as int);
    let mut j = i;
    assert(err_views(errs@) + sc.1 =~= err_views(old(errs)@) + sc.1);
    loop
        invariant
            i <= j <= cs@.len(),
            skip_trivia(cs@, j as int).0 == sc.0,
            sc == skip_trivia(cs@, i as int),
            err_views(errs@) + skip_trivia(cs@, j as int).1 == err_views(old(errs)@) + sc.1,
        decreases cs@.len() - j,
    {
        let ghost before = err_views(errs@);
        if j < cs.len() && is_ws_exec(cs[j]) {
            j = j + 1;
        } else if j < cs.len() && cs[j] == '/' && at_exec(cs, j + 1, '/') {
            j = line_end_exec(cs, j + 2);
        } else if j < cs.len() && cs[j] == '/' && at_exec(cs, j + 1, '*') {
            let ghost t0 = skip_trivia(cs@, j as int);
            let (k, closed) = block_end_exec(cs, j + 2);
            if !closed {
                push_err(errs, crate::text::owned("unterminated block comment"), j, k);
            }
            assert(err_views(errs@) + skip_trivia(cs@, k as int).1 =~= before + t0.1);
            j = k;
        } else {
            assert(err_views(errs@) =~= err_views(old(errs)@) + sc.1);
            return j;
        }
    }
}

fn pick_exec(cs: &[char], n: usize, next: char, long: TokenKind, short: TokenKind) -> (r: (TokenKind, usize))
    requires
        n <= cs@.len(),
    ensures
        (r.0@, r.1 as int, Seq::<LexErr>::empty()) == pick(cs@, n as int, next, long@, short@),
        n <= r.1 <= cs@.len(),
{
    if n < cs.len() && cs[n] == next {
        (long, n + 1)
    } else {
        (short, n)
    }
}

fn lex_token_exec(cs: &[char], i: usize, errs: &mut Vec<ErrRec>) -> (r: (TokenKind, usize))
    requires
        i < cs@.len(),
    ensures
        (r.0@, r.1 as int) == (lex_token(cs@, i as int).0, lex_token(cs@, i as int).1),
        err_views(final(errs)@) == err_views(old(errs)@) + lex_token(cs@, i as int).2,
        i < r.1 <= cs@.len(),
{
    let c = cs[i];
    let n = i + 1;
    let ghost e0 = err_views(errs@);
    assert(e0 + Seq::<LexErr>::empty() =~= e0);
    if c == '(' {
        (TokenKind::LParen, n)
    } else if c == ')' {
        (TokenKind::RParen, n)
    } else if c == '{' {
        (TokenKind::LBrace, n)
    } else if c == '}' {
        (TokenKind::RBrace, n)
    } else if c == '[' {
        (TokenKind::LBracket, n)
    } else if c == ']' {
        (TokenKind::RBracket, n)
    } else if c == '.' {
        (TokenKind::Dot, n)
    } else if c == ',' {
        (TokenKind::Comma, n)
    } else if c == ';' {
        (TokenKind::Semicolon, n)
    } else if c == ':' {
        (TokenKind::Colon, n)
    } else if c == '?' {
        (TokenKind::Question, n)
    } else if c == '~' {
        (TokenKind::Tilde, n)
    } else if c == '+' {
        if at_exec(cs, n, '+') {
            (TokenKind::PlusPlus, n + 1)
        } else {
            pick_exec(cs, n, '=', TokenKind::PlusEqual, TokenKind::Plus)
        }
    } else if c == '-' {
        if at_exec(cs, n, '-') {
            (TokenKind::MinusMinus, n + 1)
        } else {
            pick_exec(cs, n, '=', TokenKind::MinusEqual, TokenKind::Minus)
        }
    } else if c == '*' {
        pick_exec(cs, n, '=', TokenKind::StarEqual, TokenKind::Star)
    } else if c == '%' {
        pick_exec(cs, n, '=', TokenKind::PercentEqual, TokenKind::Percent)
    } else if c == '/' {
        pick_exec(cs, n, '=', TokenKind::SlashEqual, TokenKind::Slash)
    } else if c == '!' {
        if at_exec(cs, n, '=') {
            pick_exec(cs, n + 1, '=', TokenKind::BangEqualEqual, TokenKind::BangEqual)
        } else {
            (TokenKind::Bang, n)
        }
    } else if c == '=' {
        if at_exec(cs, n, '>') {
            (TokenKind::Arrow, n + 1)
        } else if at_exec(cs, n, '=') {
            pick_exec(cs, n + 1, '=', TokenKind::EqualEqualEqual, TokenKind::EqualEqual)
        } else {
            (TokenKind::Equal, n)
        }
    } else if c == '<' {
        pick_exec(cs, n, '=', TokenKind::LessEqual, TokenKind::Less)
    } else if c == '>' {
        pick_exec(cs, n, '=', TokenKind::GreaterEqual, TokenKind::Greater)
    } else if c == '&' {
        if at_exec(cs, n, '&') {
            (TokenKind::AmpAmp, n + 1)
        } else {
            push_err(errs, crate::text::owned("single `&` is not supported in SylJS subset"), i, n);
            (TokenKind::AmpAmp, n)
        }
    } else if c == '|' {
        if at_exec(cs, n, '|') {
            (TokenKind::PipePipe, n + 1)
        } else {
            push_err(errs, crate::text::owned("single `|` is not supported in SylJS subset"), i, n);
            (TokenKind::PipePipe, n)
        }
    } else if c == '"' || c == '\'' {
        let (v, e) = string_scan_exec(cs, n, c, i, errs);
        (TokenKind::String(string_from(v.as_slice())), e)
    } else if c == '`' {
        let (v, e) = template_scan_exec(cs, n, i, errs);
        (TokenKind::Template(string_from(v.as_slice())), e)
    } else if ident_start_exec(c) {
        let e = ident_end_exec(cs, n);
        let text = slice_chars(cs, i, e);
        match keyword_exec(text.as_slice()) {
            Some(k) => (TokenKind::Keyword(k), e),
            None => (TokenKind::Identifier(string_from(text.as_slice())), e),
        }
    } else if is_digit_exec(c) {
        let e = number_scan_exec(cs, i, errs);
        let text = slice_chars(cs, i, e);
        (TokenKind::Number(string_from(text.as_slice())), e)
    } else {
        let mut msg = chars_of("unexpected character `");
        let ghost m0 = msg@;
        msg.push(c);
        msg.push('`');
        let text = string_from(msg.as_slice());
        proof {
            reveal_strlit("`");
            assert(text@ =~= m0 + seq![c] + "`"@);
        }
        push_err(errs, text, i, n);
        (TokenKind::Eof, n)
    }
}

fn slice_chars(cs: &[char], a: usize, b: usize) -> (r: Vec<char>)
    requires
        a <= b <= cs@.len(),
    ensures
        r@ == cs@.subrange(a as int, b as int),
{
    let mut r: Vec<char> = Vec::new();
    let mut p = a;
    while p < b
        invariant
            a <= p <= b,
            b <= cs@.len(),
            r@ == cs@.subrange(a as int, p as int),
        decreases b - p,
    {
        r.push(cs[p]);
        p = p + 1;
        assert(r@ =~= cs@.subrange(a as int, p as int));
    }
    r
}

// ---------------------------------------------------------------------------
// Byte offsets and the token stream
// ---------------------------------------------------------------------------

/// UTF-8 width of a character.
pub open spec fn char_width(c: char) -> nat {
    if (c as u32) < 0x80 {
        1
    } else if (c as u32) < 0x800 {
        2
    } else if (c as u32) < 0x10000 {
        3
    } else {
        4
    }
}

/// Byte offset of character `i`.
pub open spec fn byte_offset(cs: Seq<char>, i: int) -> nat
    decreases i,
{
    if i <= 0 {
        0
    } else {
        byte_offset(cs, i - 1) + char_width(cs[i - 1])
    }
}

/// Byte offset of a character position (clamped to the end of input).
pub open spec fn pos_offset(cs: Seq<char>, p: int) -> usize {
    byte_offset(cs, if p <= cs.len() { p } else { cs.len() as int }) as usize
}

/// The byte span of character positions `a..b`.
pub open spec fn span_of(id: SourceId, cs: Seq<char>, a: int, b: int) -> Span {
    Span { source: id, start: pos_offset(cs, a), end: pos_offset(cs, b) }
}

proof fn lemma_offset_mono(cs: Seq<char>, i: int, j: int)
    requires
        0 <= i <= j,
    ensures
        byte_offset(cs, i) <= byte_offset(cs, j),
    decreases j - i,
{
    if i < j {
        lemma_offset_mono(cs, i, j - 1);
    }
}

fn copy_kind(k: &TokenKind) -> (r: TokenKind)
    ensures
        r@ == k@,
{
    match k {
        TokenKind::LParen => TokenKind::LParen,
        TokenKind::RParen => TokenKind::RParen,
        TokenKind::LBrace => TokenKind::LBrace,
        TokenKind::RBrace => TokenKind::RBrace,
        TokenKind::LBracket => TokenKind::LBracket,
        TokenKind::RBracket => TokenKind::RBracket,
        TokenKind::Dot => TokenKind::Dot,
        TokenKind::Comma => TokenKind::Comma,
        TokenKind::Semicolon => TokenKind::Semicolon,
        TokenKind::Colon => TokenKind::Colon,
        TokenKind::Question => TokenKind::Question,
        TokenKind::Tilde => TokenKind::Tilde,
        TokenKind::Plus => TokenKind::Plus,
        TokenKind::PlusPlus => TokenKind::PlusPlus,
        TokenKind::PlusEqual => TokenKind::PlusEqual,
        TokenKind::Minus => TokenKind::Minus,
        TokenKind::MinusMinus => TokenKind::MinusMinus,
        TokenKind::MinusEqual => TokenKind::MinusEqual,
        TokenKind::Star => TokenKind::Star,
        TokenKind::StarEqual => TokenKind::StarEqual,
        TokenKind::Percent => TokenKind::Percent,
        TokenKind::PercentEqual => TokenKind::PercentEqual,
        TokenKind::Slash => TokenKind::Slash,
        TokenKind::SlashEqual => TokenKind::SlashEqual,
        TokenKind::Bang => TokenKind::Bang,
        TokenKind::BangEqual => TokenKind::BangEqual,
        TokenKind::BangEqualEqual => TokenKind::BangEqualEqual,
        TokenKind::Equal => TokenKind::Equal,
        TokenKind::EqualEqual => TokenKind::EqualEqual,
        TokenKind::EqualEqualEqual => TokenKind::EqualEqualEqual,
        TokenKind::Arrow => TokenKind::Arrow,
        TokenKind::Less => TokenKind::Less,
        TokenKind::LessEqual => TokenKind::LessEqual,
        TokenKind::Greater => TokenKind::Greater,
        TokenKind::GreaterEqual => TokenKind::GreaterEqual,
        TokenKind::AmpAmp => TokenKind::AmpAmp,
        TokenKind::PipePipe => TokenKind::PipePipe,
        TokenKind::Identifier(t) => TokenKind::Identifier(t.clone()),
        TokenKind::Number(t) => TokenKind::Number(t.clone()),
        TokenKind::String(t) => TokenKind::String(t.clone()),
        TokenKind::Template(t) => TokenKind::Template(t.clone()),
        TokenKind::Keyword(k) => TokenKind::Keyword(*k),
        TokenKind::Eof => TokenKind::Eof,
    }
}

fn width_exec(c: char) -> (w: usize)
    ensures
        w == char_width(c),
{
    let u = c as u32;
    if u < 0x80 {
        1
    } else if u < 0x800 {
        2
    } else if u < 0x10000 {
        3
    } else {
        4
    }
}

fn byte_offsets(cs: &[char]) -> (r: Vec<usize>)
    requires
        byte_offset(cs@, cs@.len() as int) <= usize::MAX,
    ensures
        r@.len() == cs@.len() + 1,
        forall|i: int| 0 <= i <= cs@.len() ==> #[trigger] r@[i] == byte_offset(cs@, i),
{
    let mut r: Vec<usize> = Vec::new();
    let mut off: usize = 0;
    r.push(0);
    let mut i: usize = 0;
    while i < cs.len()
        invariant
            i <= cs@.len(),
            byte_offset(cs@, cs@.len() as int) <= usize::MAX,
            off == byte_offset(cs@, i as int),
            r@.len() == i + 1,
            forall|k: int| 0 <= k <= i ==> #[trigger] r@[k] == byte_offset(cs@, k),
        decreases cs@.len() - i,
    {
        proof {
            lemma_offset_mono(cs@, i as int + 1, cs@.len() as int);
        }
        off = off + width_exec(cs[i]);
        r.push(off);
        i = i + 1;
    }
    r
}

fn offset_at(offs: &Vec<usize>, p: usize, len: usize) -> (o: usize)
    requires
        offs@.len() == len + 1,
    ensures
        o == offs@[if p <= len { p as int } else { len as int }],
{
    if p <= len {
        offs[p]
    } else {
        offs[len]
    }
}

/// What `tokenize` gives for `cs`: the tokens with their byte spans when
/// lexing raised no diagnostic, else the error carrying every diagnostic
/// (the first gives its message and offsets).
pub open spec fn tokens_ok(id: SourceId, cs: Seq<char>, ts: Seq<Token>) -> bool {
    let lx = lex_from(cs, 0);
    &&& lx.1.len() == 0
    &&& ts.len() == lx.0.len()
    &&& forall|k: int|
        0 <= k < ts.len() ==> (#[trigger] ts[k]).kind@ == lx.0[k].0 && ts[k].span == span_of(id, cs, lx.0[k].1, lx.0[k].2)
}

/// The error `tokenize` gives for `cs`: every lexing diagnostic, in order.
pub open spec fn tokens_err(id: SourceId, cs: Seq<char>, e: SylJsError) -> bool {
    let lx = lex_from(cs, 0);
    &&& lx.1.len() > 0
    &&& e.diagnostics@.len() == lx.1.len()
    &&& forall|k: int|
        0 <= k < lx.1.len() ==> (#[trigger] e.diagnostics@[k]).kind == crate::diagnostic::DiagnosticKind::Lex
            && e.diagnostics@[k].message@ == lx.1[k].message && e.diagnostics@[k].span == span_of(
            id,
            cs,
            lx.1[k].start,
            lx.1[k].end,
        )
    &&& e.message@ == lx.1[0].message
    &&& e.start == pos_offset(cs, lx.1[0].start)
    &&& e.end == pos_offset(cs, lx.1[0].end)
}

spec fn ctok_views(s: Seq<(TokenKind, usize, usize)>) -> Seq<(KindView, int, int)> {
    s.map_values(|t: (TokenKind, usize, usize)| (t.0@, t.1 as int, t.2 as int))
}

/// Tokenizes `source`: skips whitespace and comments, reads tokens up to
/// the end of input, and closes with an end-of-input token; any lexing
/// diagnostic makes it an error that carries them all.
pub fn tokenize(source: &str, source_id: SourceId) -> (r: Result<Vec<Token>, SylJsError>)
    requires
        byte_offset(source@, source@.len() as int) <= usize::MAX,
    ensures
        match r {
            Ok(ts) => tokens_ok(source_id, source@, ts@),
            Err(e) => tokens_err(source_id, source@, e),
        },
{
    let cv = chars_of(source);
    let cs = cv.as_slice();
    let offs = byte_offsets(cs);
    let len = cs.len();
    let ghost lx = lex_from(cs@, 0);
    let mut ctoks: Vec<(TokenKind, usize, usize)> = Vec::new();
    let mut errs: Vec<ErrRec> = Vec::new();
    let mut pos: usize = 0;
    assert(ctok_views(ctoks@) + lx.0 =~= lx.0);
    assert(err_views(errs@) + lx.1 =~= lx.1);
    loop
        invariant
            pos <= len,
            len == cs@.len(),
            cs@ == source@,
            lx == lex_from(cs@, 0),
            ctok_views(ctoks@) + lex_from(cs@, pos as int).0 == lx.0,
            err_views(errs@) + lex_from(cs@, pos as int).1 == lx.1,
            offs@.len() == len + 1,
            forall|i: int| 0 <= i <= cs@.len() ==> #[trigger] offs@[i] == byte_offset(cs@, i),
        decreases len - pos,
    {
        let ghost t0 = ctok_views(ctoks@);
        let ghost e0 = err_views(errs@);
        let mut finished = pos >= len;
        if !finished {
            let j = skip_trivia_exec(cs, pos, &mut errs);
            if j >= len {
                finished = true;
                assert(err_views(errs@) + Seq::<LexErr>::empty() =~= lx.1);
            } else {
                let (k, end) = lex_token_exec(cs, j, &mut errs);
                let ghost kv = k@;
                ctoks.push((k, j, end));
                proof {
                    assert(ctok_views(ctoks@) =~= t0.push((kv, j as int, end as int)));
                    let rest = lex_from(cs@, end as int);
                    assert(lex_from(cs@, pos as int).0 == seq![(kv, j as int, end as int)] + rest.0);
                    assert(ctok_views(ctoks@) + rest.0 =~= t0 + lex_from(cs@, pos as int).0);
                    assert(err_views(errs@) + rest.1 =~= e0 + lex_from(cs@, pos as int).1);
                }
                pos = end;
            }
        } else {
            assert(err_views(errs@) + Seq::<LexErr>::empty() =~= lx.1);
        }
        if finished {
            let ghost eofs = seq![(KindView::Eof, len as int, len as int)];
            ctoks.push((TokenKind::Eof, len, len));
            assert(ctok_views(ctoks@) =~= lx.0);
            assert(err_views(errs@) =~= lx.1);
            if errs.len() == 0 {
                let mut ts: Vec<Token> = Vec::new();
                let mut q: usize = 0;
                while q < ctoks.len()
                    invariant
                        q <= ctoks@.len(),
                        ts@.len() == q,
                        offs@.len() == len + 1,
                        len == cs@.len(),
                        forall|i: int| 0 <= i <= cs@.len() ==> #[trigger] offs@[i] == byte_offset(cs@, i),
                        forall|k: int|
                            0 <= k < q ==> (#[trigger] ts@[k]).kind@ == ctoks@[k].0@ && ts@[k].span == span_of(
                                source_id,
                                cs@,
                                ctoks@[k].1 as int,
                                ctoks@[k].2 as int,
                            ),
                    decreases ctoks@.len() - q,
                {
                    let a = offset_at(&offs, ctoks[q].1, len);
                    let b = offset_at(&offs, ctoks[q].2, len);
                    let kind = copy_kind(&ctoks[q].0);
                    ts.push(Token::new(kind, Span::new(source_id, a, b)));
                    q = q + 1;
                }
                proof {
                    assert forall|k: int| 0 <= k < ts@.len() implies (#[trigger] ts@[k]).kind@ == lx.0[k].0 && ts@[k].span
                        == span_of(source_id, cs@, lx.0[k].1, lx.0[k].2) by {
                        assert(ctok_views(ctoks@)[k] == lx.0[k]);
                    }
                }
                return Ok(ts);
            } else {
                let mut ds: Vec<Diagnostic> = Vec::new();
                let mut q: usize = 0;
                while q < errs.len()
                    invariant
                        q <= errs@.len(),
                        ds@.len() == q,
                        offs@.len() == len + 1,
                        len == cs@.len(),
                        forall|i: int| 0 <= i <= cs@.len() ==> #[trigger] offs@[i] == byte_offset(cs@, i),
                        forall|k: int|
                            0 <= k < q ==> (#[trigger] ds@[k]).kind == crate::diagnostic::DiagnosticKind::Lex
                                && ds@[k].message@ == errs@[k].message@ && ds@[k].span == span_of(
                                source_id,
                                cs@,
                                errs@[k].start as int,
                                errs@[k].end as int,
                            ),
                    decreases errs@.len() - q,
                {
                    let a = offset_at(&offs, errs[q].start, len);
                    let b = offset_at(&offs, errs[q].end, len);
                    ds.push(Diagnostic::lex(errs[q].message.as_str(), Span::new(source_id, a, b)));
                    q = q + 1;
                }
                let e = SylJsError::from_diagnostics(ds);
                proof {
                    assert forall|k: int| 0 <= k < lx.1.len() implies (#[trigger] e.diagnostics@[k]).kind
                        == crate::diagnostic::DiagnosticKind::Lex && e.diagnostics@[k].message@ == lx.1[k].message
                        && e.diagnostics@[k].span == span_of(source_id, cs@, lx.1[k].start, lx.1[k].end) by {
                        assert(err_views(errs@)[k] == lx.1[k]);
                    }
                    assert(err_views(errs@)[0] == lx.1[0]);
                }
                return Err(e);
            }
        }
    }
}

/// Lexer over one source text.
pub struct Lexer<'a> {
    source: &'a str,
    source_id: SourceId,
}

impl<'a> Lexer<'a> {
    /// The text being lexed.
    pub closed spec fn text(&self) -> Seq<char> {
        self.source@
    }

    /// The source id its spans carry.
    pub closed spec fn id(&self) -> SourceId {
        self.source_id
    }

    /// A lexer for `source`, with source id 0.
    pub fn new(source: &'a str) -> (l: Self)
        ensures
            l.text() == source@,
            l.id() == SourceId(0),
    {
        Self { source, source_id: SourceId(0) }
    }

    /// A lexer for `source` with an explicit source id.
    pub fn with_source_id(source: &'a str, source_id: SourceId) -> (l: Self)
        ensures
            l.text() == source@,
            l.id() == source_id,
    {
        Self { source, source_id }
    }

    /// Tokenizes the whole text (see `tokenize`).
    pub fn tokenize(self) -> (r: Result<Vec<Token>, SylJsError>)
        requires
            byte_offset(self.text(), self.text().len() as int) <= usize::MAX,
        ensures
            match r {
                Ok(ts) => tokens_ok(self.id(), self.text(), ts@),
                Err(e) => tokens_err(self.id(), self.text(), e),
            },
    {
        tokenize(self.source, self.source_id)
    }
}

} // verus!
