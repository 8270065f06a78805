use vstd::prelude::*;

use crate::errors::{Error, ErrorView, LexerError, LexerErrorView};
use crate::text::{push_char, string_from_range};

verus! {

/// The kinds of tokens that the lexer produces.
#[derive(Debug, Clone, Copy, PartialEq, Eq, Structural)]
pub enum TokenType {
    Identifier,
    Newline,
    StringLiteral,
    LeftParen,
    RightParen,
    Equal,
    EqEqual,
    Gt,
    Lt,
    Gte,
    Lte,
    Neq,
    NumberLiteral,
    Def,
    End,
    Comma,
    Class,
    Dot,
    Comment,
    If,
    Import,
    Plus,
    Minus,
    While,
    Break,
    Return,
    Not,
    Raise,
}

/// A token with its text and the place where it starts.
#[derive(Debug, Clone, PartialEq)]
pub struct Token {
    pub kind: TokenType,
    pub value: String,
    pub line: usize,
    pub column: usize,
}

/// The mathematical value of a [`Token`].
pub struct TokenView {
    pub kind: TokenType,
    pub value: Seq<char>,
    pub line: usize,
    pub column: usize,
}

impl View for Token {
    type V = TokenView;

    open spec fn view(&self) -> TokenView {
        TokenView { kind: self.kind, value: self.value@, line: self.line, column: self.column }
    }
}

/// Splits source text into tokens, one call of [`Lexer::next_token`] at a time.
#[derive(Debug)]
pub struct Lexer {
    input: Vec<char>,
    position: usize,
    line: usize,
    column: usize,
}

/// Where the lexer stands in its input: the index of the next char, and the line and column
/// that the lexer counts for it.
pub struct LexState {
    pub position: nat,
    pub line: nat,
    pub column: nat,
}

/// What one step of the lexer yields.
pub enum LexOutcome {
    Token(TokenView),
    End,
    Failure(LexerErrorView),
}

// ----------------------------------------------------------------------------------------
// Classes of characters
// ----------------------------------------------------------------------------------------

/// Whether a char has the Unicode property `Alphabetic` (`char::is_alphabetic`).
pub uninterp spec fn char_alphabetic(c: char) -> bool;

/// `char::is_alphabetic`: true exactly for the chars with the Unicode property `Alphabetic`;
/// among the ASCII chars, those are the letters `a` to `z` and `A` to `Z`.
#[verifier::external_body]
fn char_is_alphabetic(c: char) -> (b: bool)
    ensures
        b == char_alphabetic(c),
        c <= '\x7f' ==> (b <==> ('a' <= c <= 'z' || 'A' <= c <= 'Z')),
{
    c.is_alphabetic()
}

pub open spec fn spec_is_newline(c: char) -> bool {
    c == '\n' || c == '\r'
}

pub open spec fn spec_is_whitespace(c: char) -> bool {
    c == ' ' || c == '\t' || c == '\r'
}

pub open spec fn spec_is_digit(c: char) -> bool {
    '0' <= c && c <= '9'
}

/// What `char::is_alphabetic` says of a char: among the ASCII chars, exactly the letters `a`
/// to `z` and `A` to `Z`; beyond them, the Unicode property `Alphabetic`.
pub open spec fn spec_is_alphabetic(c: char) -> bool {
    if c <= '\x7f' {
        ('a' <= c <= 'z') || ('A' <= c <= 'Z')
    } else {
        char_alphabetic(c)
    }
}

pub open spec fn spec_is_identifier_start(c: char) -> bool {
    c == '_' || spec_is_alphabetic(c)
}

pub open spec fn spec_is_identifier(c: char) -> bool {
    c == '_' || spec_is_alphabetic(c) || spec_is_digit(c)
}

pub open spec fn spec_is_string_literal(c: char) -> bool {
    c == '"' || c == '\''
}

pub open spec fn spec_is_comment(c: char) -> bool {
    c == '#'
}

fn is_newline(c: char) -> (b: bool)
    ensures
        b == spec_is_newline(c),
{
    c == '\n' || c == '\r'
}

fn is_whitespace(c: char) -> (b: bool)
    ensures
        b == spec_is_whitespace(c),
{
    c == ' ' || c == '\t' || c == '\r'
}

fn is_digit(c: char) -> (b: bool)
    ensures
        b == spec_is_digit(c),
{
    '0' <= c && c <= '9'
}

fn is_identifier(c: char) -> (b: bool)
    ensures
        b == spec_is_identifier(c),
{
    c == '_' || char_is_alphabetic(c) || is_digit(c)
}

fn is_identifier_start(c: char) -> (b: bool)
    ensures
        b == spec_is_identifier_start(c),
{
    c == '_' || char_is_alphabetic(c)
}

fn is_string_literal(c: char) -> (b: bool)
    ensures
        b == spec_is_string_literal(c),
{
    c == '"' || c == '\''
}

fn is_number_literal(c: char) -> (b: bool)
    ensures
        b == spec_is_digit(c),
{
    is_digit(c)
}

fn is_comment(c: char) -> (b: bool)
    ensures
        b == spec_is_comment(c),
{
    c == '#'
}

// ----------------------------------------------------------------------------------------
// The table of symbols and keywords
// ----------------------------------------------------------------------------------------

pub open spec fn one_char_symbol(c: char) -> Option<TokenType> {
    if c == '(' {
        Some(TokenType::LeftParen)
    } else if c == ')' {
        Some(TokenType::RightParen)
    } else if c == '=' {
        Some(TokenType::Equal)
    } else if c == '>' {
        Some(TokenType::Gt)
    } else if c == '<' {
        Some(TokenType::Lt)
    } else if c == ',' {
        Some(TokenType::Comma)
    } else if c == '.' {
        Some(TokenType::Dot)
    } else if c == '+' {
        Some(TokenType::Plus)
    } else if c == '-' {
        Some(TokenType::Minus)
    } else if c == '!' {
        Some(TokenType::Not)
    } else {
        None
    }
}

pub open spec fn two_char_symbol(a: char, b: char) -> Option<TokenType> {
    if a == '=' && b == '=' {
        Some(TokenType::EqEqual)
    } else if a == '>' && b == '=' {
        Some(TokenType::Gte)
    } else if a == '<' && b == '=' {
        Some(TokenType::Lte)
    } else if a == '!' && b == '=' {
        Some(TokenType::Neq)
    } else if a == 'i' && b == 'f' {
        Some(TokenType::If)
    } else {
        None
    }
}

pub open spec fn three_char_keyword(a: char, b: char, c: char) -> Option<TokenType> {
    if a == 'd' && b == 'e' && c == 'f' {
        Some(TokenType::Def)
    } else if a == 'e' && b == 'n' && c == 'd' {
        Some(TokenType::End)
    } else {
        None
    }
}

pub open spec fn five_char_keyword(s: Seq<char>) -> Option<TokenType> {
    if s[0] == 'c' && s[1] == 'l' && s[2] == 'a' && s[3] == 's' && s[4] == 's' {
        Some(TokenType::Class)
    } else if s[0] == 'w' && s[1] == 'h' && s[2] == 'i' && s[3] == 'l' && s[4] == 'e' {
        Some(TokenType::While)
    } else if s[0] == 'b' && s[1] == 'r' && s[2] == 'e' && s[3] == 'a' && s[4] == 'k' {
        Some(TokenType::Break)
    } else if s[0] == 'r' && s[1] == 'a' && s[2] == 'i' && s[3] == 's' && s[4] == 'e' {
        Some(TokenType::Raise)
    } else {
        None
    }
}

pub open spec fn six_char_keyword(s: Seq<char>) -> Option<TokenType> {
    if s[0] == 'i' && s[1] == 'm' && s[2] == 'p' && s[3] == 'o' && s[4] == 'r' && s[5] == 't' {
        Some(TokenType::Import)
    } else if s[0] == 'r' && s[1] == 'e' && s[2] == 't' && s[3] == 'u' && s[4] == 'r' && s[5]
        == 'n' {
        Some(TokenType::Return)
    } else {
        None
    }
}

/// The table of symbols and keywords: the token kind of a text, where it is one.
pub open spec fn symbol_kind(s: Seq<char>) -> Option<TokenType> {
    if s.len() == 1 {
        one_char_symbol(s[0])
    } else if s.len() == 2 {
        two_char_symbol(s[0], s[1])
    } else if s.len() == 3 {
        three_char_keyword(s[0], s[1], s[2])
    } else if s.len() == 5 {
        five_char_keyword(s)
    } else if s.len() == 6 {
        six_char_keyword(s)
    } else {
        None
    }
}

/// Looks up `input[from..to]` in the table of symbols and keywords.
fn lookup_range(input: &Vec<char>, from: usize, to: usize) -> (r: Option<TokenType>)
    requires
        from <= to <= input@.len(),
    ensures
        r == symbol_kind(input@.subrange(from as int, to as int)),
{
    let ghost s = input@.subrange(from as int, to as int);
    let n = to - from;
    if n == 1 {
        let c = input[from];
        if c == '(' {
            Some(TokenType::LeftParen)
        } else if c == ')' {
            Some(TokenType::RightParen)
        } else if c == '=' {
            Some(TokenType::Equal)
        } else if c == '>' {
            Some(TokenType::Gt)
        } else if c == '<' {
            Some(TokenType::Lt)
        } else if c == ',' {
            Some(TokenType::Comma)
        } else if c == '.' {
            Some(TokenType::Dot)
        } else if c == '+' {
            Some(TokenType::Plus)
        } else if c == '-' {
            Some(TokenType::Minus)
        } else if c == '!' {
            Some(TokenType::Not)
        } else {
            None
        }
    } else if n == 2 {
        let a = input[from];
        let b = input[from + 1];
        assert(s[0] == a && s[1] == b);
        if a == '=' && b == '=' {
            Some(TokenType::EqEqual)
        } else if a == '>' && b == '=' {
            Some(TokenType::Gte)
        } else if a == '<' && b == '=' {
            Some(TokenType::Lte)
        } else if a == '!' && b == '=' {
            Some(TokenType::Neq)
        } else if a == 'i' && b == 'f' {
            Some(TokenType::If)
        } else {
            None
        }
    } else if n == 3 {
        let a = input[from];
        let b = input[from + 1];
        let c = input[from + 2];
        assert(s[0] == a && s[1] == b && s[2] == c);
        if a == 'd' && b == 'e' && c == 'f' {
            Some(TokenType::Def)
        } else if a == 'e' && b == 'n' && c == 'd' {
            Some(TokenType::End)
        } else {
            None
        }
    } else if n == 5 {
        let c0 = input[from];
        let c1 = input[from + 1];
        let c2 = input[from + 2];
        let c3 = input[from + 3];
        let c4 = input[from + 4];
        assert(s[0] == c0 && s[1] == c1 && s[2] == c2 && s[3] == c3 && s[4] == c4);
        if c0 == 'c' && c1 == 'l' && c2 == 'a' && c3 == 's' && c4 == 's' {
            Some(TokenType::Class)
        } else if c0 == 'w' && c1 == 'h' && c2 == 'i' && c3 == 'l' && c4 == 'e' {
            Some(TokenType::While)
        } else if c0 == 'b' && c1 == 'r' && c2 == 'e' && c3 == 'a' && c4 == 'k' {
            Some(TokenType::Break)
        } else if c0 == 'r' && c1 == 'a' && c2 == 'i' && c3 == 's' && c4 == 'e' {
            Some(TokenType::Raise)
        } else {
            None
        }
    } else if n == 6 {
        let c0 = input[from];
        let c1 = input[from + 1];
        let c2 = input[from + 2];
        let c3 = input[from + 3];
        let c4 = input[from + 4];
        let c5 = input[from + 5];
        assert(s[0] == c0 && s[1] == c1 && s[2] == c2 && s[3] == c3 && s[4] == c4 && s[5] == c5);
        if c0 == 'i' && c1 == 'm' && c2 == 'p' && c3 == 'o' && c4 == 'r' && c5 == 't' {
            Some(TokenType::Import)
        } else if c0 == 'r' && c1 == 'e' && c2 == 't' && c3 == 'u' && c4 == 'r' && c5 == 'n' {
            Some(TokenType::Return)
        } else {
            None
        }
    } else {
        None
    }
}

/// Whether `c` on its own is a symbol.
fn is_symbol(c: char) -> (b: bool)
    ensures
        b == one_char_symbol(c).is_some(),
{
    c == '(' || c == ')' || c == '=' || c == '>' || c == '<' || c == ',' || c == '.' || c == '+'
        || c == '-' || c == '!'
}

// ----------------------------------------------------------------------------------------
// Escapes in string literals
// ----------------------------------------------------------------------------------------

/// Replaces, from left to right, each backslash followed by `e` with `r`.
pub open spec fn replace_escape(s: Seq<char>, e: char, r: char) -> Seq<char>
    decreases s.len(),
{
    if s.len() < 2 {
        s
    } else if s[0] == '\\' && s[1] == e {
        seq![r] + replace_escape(s.skip(2), e, r)
    } else {
        seq![s[0]] + replace_escape(s.skip(1), e, r)
    }
}

/// The text of a string literal: `\n`, then `\t`, then `\r` replaced by the chars they name.
pub open spec fn unescape(s: Seq<char>) -> Seq<char> {
    replace_escape(replace_escape(replace_escape(s, 'n', '\n'), 't', '\t'), 'r', '\r')
}

fn replace_escape_vec(v: &Vec<char>, e: char, r: char) -> (out: Vec<char>)
    ensures
        out@ == replace_escape(v@, e, r),
{
    let mut out: Vec<char> = Vec::new();
    let mut i: usize = 0;
    let n = v.len();
    assert(v@.subrange(0, n as int) =~= v@);
    assert(out@ + v@ =~= v@);
    while i < n
        invariant
            n == v@.len(),
            i <= n,
            replace_escape(v@, e, r) == out@ + replace_escape(v@.subrange(i as int, n as int), e, r),
        decreases n - i,
    {
        let ghost rest = v@.subrange(i as int, n as int);
        if i + 1 < n && v[i] == '\\' && v[i + 1] == e {
            assert(rest.skip(2) =~= v@.subrange(i + 2, n as int));
            out.push(r);
            i = i + 2;
        } else {
            if i + 1 < n {
                assert(rest.skip(1) =~= v@.subrange(i + 1, n as int));
            } else {
                assert(rest.len() < 2);
                assert(rest =~= seq![v@[i as int]]);
                assert(v@.subrange(i + 1, n as int) =~= Seq::<char>::empty());
            }
            out.push(v[i]);
            i = i + 1;
        }
    }
    assert(v@.subrange(n as int, n as int) =~= Seq::<char>::empty());
    assert(out@ + Seq::<char>::empty() =~= out@);
    out
}

fn unescape_chars(content: &Vec<char>) -> (s: String)
    ensures
        s@ == unescape(content@),
{
    let a = replace_escape_vec(content, 'n', '\n');
    let b = replace_escape_vec(&a, 't', '\t');
    let c = replace_escape_vec(&b, 'r', '\r');
    string_from_range(&c, 0, c.len())
}

/// Replaces the escapes `\n`, `\t` and `\r` in a string literal's text by the chars they name.
pub fn unescape_string_literal(s: &str) -> (r: String)
    ensures
        r@ == unescape(s@),
{
    let chars = crate::text::chars_of(s);
    unescape_chars(&chars)
}

// ----------------------------------------------------------------------------------------
// The lexer, as mathematics
// ----------------------------------------------------------------------------------------

/// The first index from `i` on that holds a newline, or the end of `s`.
pub open spec fn comment_end(s: Seq<char>, i: int) -> int
    decreases s.len() - i,
{
    if 0 <= i < s.len() && !spec_is_newline(s[i]) {
        comment_end(s, i + 1)
    } else {
        i
    }
}

/// The first index from `i` on that holds `q`, or the end of `s`.
pub open spec fn find_char(s: Seq<char>, i: int, q: char) -> int
    decreases s.len() - i,
{
    if 0 <= i < s.len() && s[i] != q {
        find_char(s, i + 1, q)
    } else {
        i
    }
}

/// Scans a number literal from `i` on: where it ends, and whether it ends on a second dot.
pub open spec fn number_scan(s: Seq<char>, i: int, dot_seen: bool) -> (int, bool)
    decreases s.len() - i,
{
    if 0 <= i < s.len() {
        if spec_is_digit(s[i]) {
            number_scan(s, i + 1, dot_seen)
        } else if s[i] == '.' && !dot_seen {
            number_scan(s, i + 1, true)
        } else if s[i] == '.' && dot_seen {
            (i, true)
        } else {
            (i, false)
        }
    } else {
        (i, false)
    }
}

/// Scans a symbol that starts at `start`: it grows one char at a time for as long as the
/// longer text is still in the table.
pub open spec fn symbol_scan(s: Seq<char>, start: int, i: int) -> int
    decreases s.len() - i,
{
    if 0 <= start <= i < s.len() && symbol_kind(s.subrange(start, i + 1)).is_some() {
        symbol_scan(s, start, i + 1)
    } else {
        i
    }
}

/// Scans an identifier that starts at `start`; it stops early, with the keyword's kind, as
/// soon as the text read so far is a keyword.
pub open spec fn identifier_scan(s: Seq<char>, start: int, i: int) -> (int, Option<TokenType>)
    decreases s.len() - i,
{
    if 0 <= start <= i < s.len() && spec_is_identifier(s[i]) {
        if symbol_kind(s.subrange(start, i + 1)).is_some() {
            (i + 1, symbol_kind(s.subrange(start, i + 1)))
        } else {
            identifier_scan(s, start, i + 1)
        }
    } else {
        (i, None)
    }
}

pub open spec fn moved(st: LexState, to: int) -> LexState {
    LexState { position: to as nat, line: st.line, column: (st.column + (to - st.position)) as nat }
}

pub open spec fn token_at(kind: TokenType, value: Seq<char>, st: LexState) -> LexOutcome {
    LexOutcome::Token(TokenView { kind, value, line: st.line as usize, column: st.column as usize })
}

pub open spec fn failure_at(message: Seq<char>, st: LexState) -> LexOutcome {
    LexOutcome::Failure(
        LexerErrorView { message, line: st.line as usize, column: st.column as usize },
    )
}

pub open spec fn unterminated_message() -> Seq<char> {
    "Unterminated string literal"@
}

pub open spec fn invalid_number_message() -> Seq<char> {
    "Invalid number literal"@
}

pub open spec fn invalid_symbol_message(c: char) -> Seq<char> {
    "Invalid symbol: "@.push(c)
}

/// A string literal that starts at the lexer's position.
pub open spec fn string_step(s: Seq<char>, st: LexState) -> (LexOutcome, LexState) {
    let p = st.position as int;
    let e = find_char(s, p + 1, s[p]);
    if e < s.len() {
        (token_at(TokenType::StringLiteral, unescape(s.subrange(p + 1, e)), st), moved(st, e + 1))
    } else {
        (failure_at(unterminated_message(), st), moved(st, s.len() as int))
    }
}

/// A number literal that starts at the lexer's position.
pub open spec fn number_step(s: Seq<char>, st: LexState) -> (LexOutcome, LexState) {
    let p = st.position as int;
    let (e, bad) = number_scan(s, p, false);
    if bad {
        (failure_at(invalid_number_message(), st), moved(st, e))
    } else {
        (token_at(TokenType::NumberLiteral, s.subrange(p, e), st), moved(st, e))
    }
}

/// A symbol that starts at the lexer's position.
pub open spec fn symbol_step(s: Seq<char>, st: LexState) -> (LexOutcome, LexState) {
    let p = st.position as int;
    let e = symbol_scan(s, p, p);
    (token_at(symbol_kind(s.subrange(p, e)).unwrap(), s.subrange(p, e), st), moved(st, e))
}

/// An identifier or keyword that starts at the lexer's position.
pub open spec fn identifier_step(s: Seq<char>, st: LexState) -> (LexOutcome, LexState) {
    let p = st.position as int;
    let (e, keyword) = identifier_scan(s, p, p);
    let kind = match keyword {
        Some(k) => k,
        None => TokenType::Identifier,
    };
    (token_at(kind, s.subrange(p, e), st), moved(st, e))
}

/// One call of `next_token`: what it yields, and where the lexer stands after it.
pub open spec fn lex_step(s: Seq<char>, st: LexState) -> (LexOutcome, LexState)
    decreases s.len() - st.position,
{
    if st.position >= s.len() {
        (LexOutcome::End, st)
    } else {
        let p = st.position as int;
        let c = s[p];
        if spec_is_whitespace(c) {
            lex_step(s, moved(st, p + 1))
        } else if spec_is_newline(c) {
            (
                LexOutcome::Token(
                    TokenView {
                        kind: TokenType::Newline,
                        value: seq![c],
                        line: (st.line + 1) as usize,
                        column: 1,
                    },
                ),
                LexState { position: (p + 1) as nat, line: st.line + 1, column: 1 },
            )
        } else if spec_is_comment(c) {
            let e = comment_end(s, p + 1);
            if p < e <= s.len() {
                lex_step(s, moved(st, e))
            } else {
                (LexOutcome::End, st)
            }
        } else if spec_is_string_literal(c) {
            string_step(s, st)
        } else if spec_is_digit(c) {
            number_step(s, st)
        } else if one_char_symbol(c).is_some() {
            symbol_step(s, st)
        } else if spec_is_identifier_start(c) {
            identifier_step(s, st)
        } else {
            (failure_at(invalid_symbol_message(c), st), st)
        }
    }
}

/// Whether what `next_token` returned is what the lexer yields as mathematics.
pub open spec fn outcome_matches(r: Result<Option<Token>, Error>, o: LexOutcome) -> bool {
    match o {
        LexOutcome::Token(t) => r matches Ok(Some(tok)) && tok@ == t,
        LexOutcome::End => r matches Ok(None),
        LexOutcome::Failure(e) => r matches Err(err) && err@ == ErrorView::LexerError(e),
    }
}

/// A comment ends at or after where it is read from, and inside the text.
pub proof fn lemma_comment_end_ge(s: Seq<char>, i: int)
    requires
        0 <= i <= s.len(),
    ensures
        i <= comment_end(s, i) <= s.len(),
    decreases s.len() - i,
{
    if 0 <= i < s.len() && !spec_is_newline(s[i]) {
        lemma_comment_end_ge(s, i + 1);
    }
}

proof fn lemma_find_char_range(s: Seq<char>, i: int, q: char)
    requires
        0 <= i <= s.len(),
    ensures
        i <= find_char(s, i, q) <= s.len(),
        find_char(s, i, q) < s.len() ==> s[find_char(s, i, q)] == q,
    decreases s.len() - i,
{
    if i < s.len() && s[i] != q {
        lemma_find_char_range(s, i + 1, q);
    }
}

proof fn lemma_number_scan_range(s: Seq<char>, i: int, dot_seen: bool)
    requires
        0 <= i <= s.len(),
    ensures
        i <= number_scan(s, i, dot_seen).0 <= s.len(),
        number_scan(s, i, dot_seen).1 ==> number_scan(s, i, dot_seen).0 < s.len(),
    decreases s.len() - i,
{
    if i < s.len() {
        if spec_is_digit(s[i]) {
            lemma_number_scan_range(s, i + 1, dot_seen);
        } else if s[i] == '.' && !dot_seen {
            lemma_number_scan_range(s, i + 1, true);
        }
    }
}

proof fn lemma_symbol_scan_range(s: Seq<char>, start: int, i: int)
    requires
        0 <= start <= i <= s.len(),
        i == start || symbol_kind(s.subrange(start, i)).is_some(),
    ensures
        i <= symbol_scan(s, start, i) <= s.len(),
        symbol_scan(s, start, i) == start || symbol_kind(
            s.subrange(start, symbol_scan(s, start, i)),
        ).is_some(),
    decreases s.len() - i,
{
    if i < s.len() && symbol_kind(s.subrange(start, i + 1)).is_some() {
        lemma_symbol_scan_range(s, start, i + 1);
    }
}

proof fn lemma_identifier_scan_range(s: Seq<char>, start: int, i: int)
    requires
        0 <= start <= i <= s.len(),
    ensures
        i <= identifier_scan(s, start, i).0 <= s.len(),
    decreases s.len() - i,
{
    if i < s.len() && spec_is_identifier(s[i]) && !symbol_kind(s.subrange(start, i + 1)).is_some() {
        lemma_identifier_scan_range(s, start, i + 1);
    }
}

// ----------------------------------------------------------------------------------------
// The lexer
// ----------------------------------------------------------------------------------------

impl Lexer {
    #[verifier::type_invariant]
    spec fn inv(self) -> bool {
        &&& self.input@.len() < usize::MAX
        &&& self.position <= self.input@.len()
        &&& 1 <= self.line <= self.position + 1
        &&& 1 <= self.column <= self.position + 1
    }

    /// The text that this lexer splits.
    pub closed spec fn text(&self) -> Seq<char> {
        self.input@
    }

    /// Where this lexer stands in its text.
    pub closed spec fn state(&self) -> LexState {
        LexState { position: self.position as nat, line: self.line as nat, column: self.column as nat }
    }

    /// Whether the lexer has read all of its text; it never stands past the end.
    pub fn is_at_end(&self) -> (b: bool)
        ensures
            b == (self.state().position == self.text().len()),
            self.state().position <= self.text().len(),
    {
        proof {
            use_type_invariant(self);
        }
        self.position == self.input.len()
    }

    /// A lexer at the start of `input`, on line 1, column 1.
    pub fn new(input: String) -> (lexer: Self)
        requires
            input@.len() < usize::MAX,
        ensures
            lexer.text() == input@,
            lexer.state() == (LexState { position: 0, line: 1, column: 1 }),
    {
        let chars = crate::text::chars_of(input.as_str());
        Lexer { input: chars, position: 0, line: 1, column: 1 }
    }

    /// Reads the next token; `None` at the end of the input.
    pub fn next_token(&mut self) -> (r: Result<Option<Token>, Error>)
        ensures
            final(self).text() == old(self).text(),
            outcome_matches(r, lex_step(old(self).text(), old(self).state()).0),
            final(self).state() == lex_step(old(self).text(), old(self).state()).1,
    {
        self.skip_trivia();
        proof {
            use_type_invariant(&*self);
        }
        if self.position >= self.input.len() {
            return Ok(None);
        }
        let c = self.input[self.position];
        if is_newline(c) {
            let t = self.read_newline();
            return Ok(Some(t));
        }
        if is_string_literal(c) {
            return self.read_string_literal();
        }
        if is_number_literal(c) {
            return self.read_number_literal();
        }
        if is_symbol(c) {
            let t = self.read_symbol();
            return Ok(Some(t));
        }
        if is_identifier_start(c) {
            let t = self.read_identifier();
            return Ok(Some(t));
        }
        let mut message = "Invalid symbol: ".to_string();
        push_char(&mut message, c);
        Err(Error::LexerError(LexerError::new(message, self.line, self.column)))
    }

    /// Moves past whitespace and comments.
    fn skip_trivia(&mut self)
        ensures
            final(self).input@ == old(self).input@,
            lex_step(final(self).input@, final(self).state()) == lex_step(
                old(self).input@,
                old(self).state(),
            ),
            final(self).position < final(self).input@.len() ==> !spec_is_whitespace(
                final(self).input@[final(self).position as int],
            ) && !spec_is_comment(final(self).input@[final(self).position as int]),
    {
        proof {
            use_type_invariant(&*self);
        }
        let ghost s = self.input@;
        let ghost goal = lex_step(s, self.state());
        let mut done = false;
        while !done && self.position < self.input.len()
            invariant
                self.input@ == s,
                lex_step(s, self.state()) == goal,
                done ==> self.position < s.len() && !spec_is_whitespace(s[self.position as int])
                    && !spec_is_comment(s[self.position as int]),
            decreases (s.len() - self.position) + (if done { 0int } else { 1int }),
        {
            proof {
                use_type_invariant(&*self);
            }
            let c = self.input[self.position];
            if is_whitespace(c) {
                self.skip_whitespace();
            } else if is_comment(c) {
                proof {
                    lemma_comment_end_ge(s, self.position + 1);
                }
                self.read_comment();
            } else {
                done = true;
            }
            proof {
                use_type_invariant(&*self);
            }
        }
    }

    /// Moves past one char.
    fn advance(&mut self)
        requires
            old(self).position < old(self).input@.len(),
        ensures
            final(self).input@ == old(self).input@,
            final(self).position == old(self).position + 1,
            final(self).column == old(self).column + 1,
            final(self).line == old(self).line,
    {
        proof {
            use_type_invariant(&*self);
        }
        self.position = self.position + 1;
        self.column = self.column + 1;
    }

    /// Moves to index `to` of the input, counting one column for each char passed.
    fn move_to(&mut self, to: usize)
        requires
            old(self).position <= to <= old(self).input@.len(),
        ensures
            final(self).input@ == old(self).input@,
            final(self).state() == moved(old(self).state(), to as int),
    {
        while self.position < to
            invariant
                self.position <= to <= self.input@.len(),
                self.input@ == old(self).input@,
                self.line == old(self).line,
                self.column == old(self).column + (self.position - old(self).position),
            decreases to - self.position,
        {
            self.advance();
        }
    }

    /// The char at the lexer's position, if there is one.
    fn peek(&self) -> (r: Option<char>)
        ensures
            r == (if self.position < self.input@.len() {
                Some(self.input@[self.position as int])
            } else {
                None::<char>
            }),
    {
        if self.position < self.input.len() {
            Some(self.input[self.position])
        } else {
            None
        }
    }

    fn read_newline(&mut self) -> (t: Token)
        requires
            old(self).position < old(self).input@.len(),
            spec_is_newline(old(self).input@[old(self).position as int]),
            !spec_is_whitespace(old(self).input@[old(self).position as int]),
        ensures
            final(self).input@ == old(self).input@,
            lex_step(old(self).input@, old(self).state()) == (
            LexOutcome::Token(t@),
            final(self).state(),
            ),
    {
        proof {
            use_type_invariant(&*self);
        }
        let c = self.input[self.position];
        self.advance();
        self.line = self.line + 1;
        self.column = 1;
        let mut value = String::new();
        push_char(&mut value, c);
        proof {
            assert(value@ =~= seq![c]);
        }
        Token { kind: TokenType::Newline, value, line: self.line, column: self.column }
    }

    fn read_symbol(&mut self) -> (t: Token)
        requires
            old(self).position < old(self).input@.len(),
            one_char_symbol(old(self).input@[old(self).position as int]).is_some(),
        ensures
            final(self).input@ == old(self).input@,
            symbol_step(old(self).input@, old(self).state()) == (
            LexOutcome::Token(t@),
            final(self).state(),
            ),
    {
        proof {
            use_type_invariant(&*self);
        }
        let ghost s = self.input@;
        let start = self.position;
        let n = self.input.len();
        let mut i = start;
        proof {
            assert(s.subrange(start as int, start + 1) =~= seq![s[start as int]]);
        }
        while i < n && lookup_range(&self.input, start, i + 1).is_some()
            invariant
                self.input@ == s,
                n == s.len(),
                start <= i <= n,
                symbol_scan(s, start as int, i as int) == symbol_scan(s, start as int, start as int),
                i == start || symbol_kind(s.subrange(start as int, i as int)).is_some(),
                i == start ==> symbol_kind(s.subrange(start as int, start + 1)).is_some(),
            decreases n - i,
        {
            i = i + 1;
        }
        proof {
            if i == start {
                assert(i < n);
            }
        }
        let kind = lookup_range(&self.input, start, i).unwrap();
        let value = string_from_range(&self.input, start, i);
        let line = self.line;
        let column = self.column;
        self.move_to(i);
        Token { kind, value, line, column }
    }

    fn read_identifier(&mut self) -> (t: Token)
        requires
            old(self).position < old(self).input@.len(),
            spec_is_identifier_start(old(self).input@[old(self).position as int]),
        ensures
            final(self).input@ == old(self).input@,
            identifier_step(old(self).input@, old(self).state()) == (
            LexOutcome::Token(t@),
            final(self).state(),
            ),
    {
        proof {
            use_type_invariant(&*self);
        }
        let ghost s = self.input@;
        let start = self.position;
        let n = self.input.len();
        let mut i = start;
        let mut keyword: Option<TokenType> = None;
        let mut done = false;
        while !done && i < n
            invariant
                self.input@ == s,
                n == s.len(),
                start <= i <= n,
                !done ==> keyword.is_none(),
                !done ==> identifier_scan(s, start as int, i as int) == identifier_scan(
                    s,
                    start as int,
                    start as int,
                ),
                done ==> identifier_scan(s, start as int, start as int) == (i as int, keyword),
            decreases (n - i) as int + (if done { 0int } else { 1int }),
        {
            let c = self.input[i];
            if is_identifier(c) {
                let k = lookup_range(&self.input, start, i + 1);
                if k.is_some() {
                    keyword = k;
                    done = true;
                }
                i = i + 1;
            } else {
                done = true;
            }
        }
        assert(identifier_scan(s, start as int, start as int) == (i as int, keyword));
        let kind = match keyword {
            Some(k) => k,
            None => TokenType::Identifier,
        };
        let value = string_from_range(&self.input, start, i);
        let line = self.line;
        let column = self.column;
        self.move_to(i);
        Token { kind, value, line, column }
    }

    fn read_string_literal(&mut self) -> (r: Result<Option<Token>, Error>)
        requires
            old(self).position < old(self).input@.len(),
            spec_is_string_literal(old(self).input@[old(self).position as int]),
        ensures
            final(self).input@ == old(self).input@,
            outcome_matches(r, string_step(old(self).input@, old(self).state()).0),
            final(self).state() == string_step(old(self).input@, old(self).state()).1,
    {
        proof {
            use_type_invariant(&*self);
        }
        let ghost s = self.input@;
        let start = self.position;
        let n = self.input.len();
        let quote = self.input[start];
        let mut i = start + 1;
        while i < n && self.input[i] != quote
            invariant
                self.input@ == s,
                n == s.len(),
                start < i <= n,
                quote == s[start as int],
                find_char(s, i as int, quote) == find_char(s, start + 1, quote),
            decreases n - i,
        {
            i = i + 1;
        }
        let line = self.line;
        let column = self.column;
        if i >= n {
            self.move_to(n);
            let message = "Unterminated string literal".to_string();
            return Err(Error::LexerError(LexerError::new(message, line, column)));
        }
        let content = crate::text::vec_from_range(&self.input, start + 1, i);
        let value = unescape_chars(&content);
        self.move_to(i + 1);
        Ok(Some(Token { kind: TokenType::StringLiteral, value, line, column }))
    }

    fn read_number_literal(&mut self) -> (r: Result<Option<Token>, Error>)
        requires
            old(self).position < old(self).input@.len(),
            spec_is_digit(old(self).input@[old(self).position as int]),
        ensures
            final(self).input@ == old(self).input@,
            outcome_matches(r, number_step(old(self).input@, old(self).state()).0),
            final(self).state() == number_step(old(self).input@, old(self).state()).1,
    {
        proof {
            use_type_invariant(&*self);
        }
        let ghost s = self.input@;
        let start = self.position;
        let n = self.input.len();
        let mut i = start;
        let mut dot_seen = false;
        let mut bad = false;
        let mut done = false;
        while !done && i < n
            invariant
                self.input@ == s,
                n == s.len(),
                start <= i <= n,
                !done ==> !bad,
                !done ==> number_scan(s, i as int, dot_seen) == number_scan(s, start as int, false),
                done ==> number_scan(s, start as int, false) == (i as int, bad),
            decreases (n - i) as int + (if done { 0int } else { 1int }),
        {
            let c = self.input[i];
            if is_digit(c) {
                i = i + 1;
            } else if c == '.' && !dot_seen {
                dot_seen = true;
                i = i + 1;
            } else if c == '.' && dot_seen {
                bad = true;
                done = true;
            } else {
                done = true;
            }
        }
        assert(number_scan(s, start as int, false) == (i as int, bad));
        let line = self.line;
        let column = self.column;
        if bad {
            self.move_to(i);
            let message = "Invalid number literal".to_string();
            return Err(Error::LexerError(LexerError::new(message, line, column)));
        }
        let value = string_from_range(&self.input, start, i);
        self.move_to(i);
        Ok(Some(Token { kind: TokenType::NumberLiteral, value, line, column }))
    }

    fn read_comment(&mut self)
        requires
            old(self).position < old(self).input@.len(),
        ensures
            final(self).input@ == old(self).input@,
            final(self).state() == moved(
                old(self).state(),
                comment_end(old(self).input@, old(self).position + 1),
            ),
    {
        proof {
            use_type_invariant(&*self);
        }
        let ghost s = self.input@;
        let n = self.input.len();
        let mut i = self.position + 1;
        while i < n && !is_newline(self.input[i])
            invariant
                self.input@ == s,
                n == s.len(),
                self.position < i <= n,
                comment_end(s, i as int) == comment_end(s, self.position + 1),
            decreases n - i,
        {
            i = i + 1;
        }
        self.move_to(i);
    }

    fn skip_whitespace(&mut self)
        requires
            old(self).position < old(self).input@.len(),
            spec_is_whitespace(old(self).input@[old(self).position as int]),
        ensures
            final(self).input@ == old(self).input@,
            final(self).position > old(self).position,
            lex_step(final(self).input@, final(self).state()) == lex_step(
                old(self).input@,
                old(self).state(),
            ),
    {
        let ghost s = self.input@;
        let ghost goal = lex_step(s, self.state());
        self.advance();
        while self.position < self.input.len() && is_whitespace(self.input[self.position])
            invariant
                self.input@ == s,
                self.position <= s.len(),
                self.position > old(self).position,
                lex_step(s, self.state()) == goal,
            decreases s.len() - self.position,
        {
            self.advance();
        }
    }
}


// ----------------------------------------------------------------------------------------
// Lexing a whole text
// ----------------------------------------------------------------------------------------

/// The tokens that repeated calls of `next_token` yield from `st` on, up to the end of the
/// text or to the first error; and whether an error ended them.
pub open spec fn lex_all(s: Seq<char>, st: LexState) -> (Seq<TokenView>, bool)
    decreases s.len() - st.position,
{
    if st.position > s.len() {
        (Seq::empty(), false)
    } else {
        let (o, next) = lex_step(s, st);
        match o {
            LexOutcome::Token(t) => if st.position < next.position <= s.len() {
                let (rest, failed) = lex_all(s, next);
                (seq![t] + rest, failed)
            } else {
                (seq![t], false)
            },
            LexOutcome::End => (Seq::empty(), false),
            LexOutcome::Failure(_) => (Seq::empty(), true),
        }
    }
}

/// Each token that the lexer yields moves it forward, and never past the end of its text.
pub proof fn lemma_lex_step_progress(s: Seq<char>, st: LexState)
    requires
        st.position <= s.len(),
    ensures
        lex_step(s, st).0 is Token ==> st.position < lex_step(s, st).1.position,
        st.position <= lex_step(s, st).1.position <= s.len(),
    decreases s.len() - st.position,
{
    if st.position < s.len() {
        let p = st.position as int;
        let c = s[p];
        if spec_is_whitespace(c) {
            lemma_lex_step_progress(s, moved(st, p + 1));
        } else if spec_is_newline(c) {
        } else if spec_is_comment(c) {
            lemma_comment_end_ge(s, p + 1);
            let e = comment_end(s, p + 1);
            if p < e <= s.len() {
                lemma_lex_step_progress(s, moved(st, e));
            }
        } else if spec_is_string_literal(c) {
            lemma_find_char_range(s, p + 1, c);
        } else if spec_is_digit(c) {
            lemma_number_scan_range(s, p + 1, false);
        } else if one_char_symbol(c).is_some() {
            assert(s.subrange(p, p + 1)[0] == c);
            lemma_symbol_scan_range(s, p, p + 1);
        } else if spec_is_identifier_start(c) {
            if !symbol_kind(s.subrange(p, p + 1)).is_some() {
                lemma_identifier_scan_range(s, p, p + 1);
            }
        }
    }
}

/// Text without a backslash is left as it is by each replacement of an escape.
proof fn lemma_replace_escape_plain(s: Seq<char>, e: char, r: char)
    requires
        !s.contains('\\'),
    ensures
        replace_escape(s, e, r) == s,
    decreases s.len(),
{
    if s.len() >= 2 {
        assert(s[0] != '\\') by {
            assert(s.contains(s[0]) ==> s[0] != '\\');
        }
        let t = s.skip(1);
        assert(!t.contains('\\')) by {
            if t.contains('\\') {
                let k = choose|k: int| 0 <= k < t.len() && t[k] == '\\';
                assert(s[k + 1] == '\\');
            }
        }
        lemma_replace_escape_plain(t, e, r);
        assert(seq![s[0]] + t =~= s);
    }
}

/// A string literal without a backslash means its text as written.
pub proof fn law_unescape_plain(s: Seq<char>)
    requires
        !s.contains('\\'),
    ensures
        unescape(s) == s,
{
    lemma_replace_escape_plain(s, 'n', '\n');
    lemma_replace_escape_plain(s, 't', '\t');
    lemma_replace_escape_plain(s, 'r', '\r');
}

/// Once the lexer reports the end of its text, it stands at the end, and every further call
/// reports the end again without moving.
pub proof fn law_end_is_final(s: Seq<char>, st: LexState)
    requires
        st.position <= s.len(),
    ensures
        lex_step(s, st).0 is End ==> {
            let after = lex_step(s, st).1;
            &&& after.position == s.len()
            &&& lex_step(s, after).0 is End
            &&& lex_step(s, after).1 == after
        },
    decreases s.len() - st.position,
{
    if st.position < s.len() {
        let p = st.position as int;
        let c = s[p];
        if spec_is_whitespace(c) {
            law_end_is_final(s, moved(st, p + 1));
        } else if spec_is_newline(c) {
        } else if spec_is_comment(c) {
            lemma_comment_end_ge(s, p + 1);
            law_end_is_final(s, moved(st, comment_end(s, p + 1)));
        }
    }
}

/// From `i` on, the text holds only blanks (spaces, tabs, carriage returns) and comments.
pub open spec fn only_blanks_and_comments(s: Seq<char>, i: int) -> bool
    decreases s.len() - i,
{
    if i < 0 || i >= s.len() {
        true
    } else if spec_is_whitespace(s[i]) {
        only_blanks_and_comments(s, i + 1)
    } else if spec_is_comment(s[i]) {
        proof {
            lemma_comment_end_ge(s, i + 1);
        }
        only_blanks_and_comments(s, comment_end(s, i + 1))
    } else {
        false
    }
}

/// The lexer reports the end of its text exactly when only blanks and comments are left
/// (with [`law_end_is_final`]: and from then on, it reports the end at every call).
pub proof fn law_end_iff_only_blanks(s: Seq<char>, st: LexState)
    requires
        st.position <= s.len(),
    ensures
        lex_step(s, st).0 is End <==> only_blanks_and_comments(s, st.position as int),
    decreases s.len() - st.position,
{
    if st.position < s.len() {
        let p = st.position as int;
        let c = s[p];
        if spec_is_whitespace(c) {
            law_end_iff_only_blanks(s, moved(st, p + 1));
        } else if spec_is_newline(c) {
        } else if spec_is_comment(c) {
            lemma_comment_end_ge(s, p + 1);
            law_end_iff_only_blanks(s, moved(st, comment_end(s, p + 1)));
        } else {
            assert(!(lex_step(s, st).0 is End)) by {
                lemma_lex_step_not_end(s, st);
            }
        }
    }
}

/// A char that is neither a blank, a newline nor a comment starts a token or an error.
proof fn lemma_lex_step_not_end(s: Seq<char>, st: LexState)
    requires
        st.position < s.len(),
        !spec_is_whitespace(s[st.position as int]),
        !spec_is_newline(s[st.position as int]),
        !spec_is_comment(s[st.position as int]),
    ensures
        !(lex_step(s, st).0 is End),
{
}

/// No `\` in `s` is followed by `e`.
pub open spec fn no_escape(s: Seq<char>, e: char) -> bool {
    forall|i: int| 0 <= i < s.len() - 1 ==> !(#[trigger] s[i] == '\\' && s[i + 1] == e)
}

/// Without an escape to replace, replacing escapes changes nothing.
proof fn lemma_replace_without_escape(s: Seq<char>, e: char, r: char)
    requires
        no_escape(s, e),
    ensures
        replace_escape(s, e, r) == s,
    decreases s.len(),
{
    if s.len() >= 2 {
        assert(!(s[0] == '\\' && s[1] == e));
        let t = s.skip(1);
        assert forall|i: int| 0 <= i < t.len() - 1 implies !(#[trigger] t[i] == '\\' && t[i + 1] == e) by {
            assert(t[i] == s[i + 1] && t[i + 1] == s[i + 2]);
        }
        lemma_replace_without_escape(t, e, r);
        assert(seq![s[0]] + t =~= s);
    }
}

/// The first char of a replacement: the replacing char where the text starts with an escape,
/// and the text's first char otherwise.
proof fn lemma_replace_first(s: Seq<char>, e: char, r: char)
    requires
        s.len() > 0,
    ensures
        replace_escape(s, e, r).len() > 0,
        replace_escape(s, e, r)[0] == (if s.len() >= 2 && s[0] == '\\' && s[1] == e { r } else { s[0] }),
{
}

/// Replacing the escapes `\e` leaves none, and it makes no escape `\f` where there was
/// none, as long as the replacing char is neither a backslash nor `e` nor `f`.
proof fn lemma_replace_leaves_no_escape(s: Seq<char>, e: char, f: char, r: char)
    requires
        r != '\\',
        r != e,
        r != f,
        f == e || no_escape(s, f),
    ensures
        no_escape(replace_escape(s, e, r), e),
        no_escape(replace_escape(s, e, r), f),
    decreases s.len(),
{
    let out = replace_escape(s, e, r);
    if s.len() >= 2 {
        if s[0] == '\\' && s[1] == e {
            let t = s.skip(2);
            if f != e {
                assert forall|i: int| 0 <= i < t.len() - 1 implies !(#[trigger] t[i] == '\\' && t[i + 1] == f) by {
                    assert(t[i] == s[i + 2] && t[i + 1] == s[i + 3]);
                }
            }
            lemma_replace_leaves_no_escape(t, e, f, r);
            let rest = replace_escape(t, e, r);
            assert(out == seq![r] + rest);
            assert forall|i: int| 0 <= i < out.len() - 1 implies !(#[trigger] out[i] == '\\' && out[i + 1] == e) by {
                if i > 0 {
                    assert(out[i] == rest[i - 1] && out[i + 1] == rest[i]);
                }
            }
            assert forall|i: int| 0 <= i < out.len() - 1 implies !(#[trigger] out[i] == '\\' && out[i + 1] == f) by {
                if i > 0 {
                    assert(out[i] == rest[i - 1] && out[i + 1] == rest[i]);
                }
            }
        } else {
            let t = s.skip(1);
            if f != e {
                assert forall|i: int| 0 <= i < t.len() - 1 implies !(#[trigger] t[i] == '\\' && t[i + 1] == f) by {
                    assert(t[i] == s[i + 1] && t[i + 1] == s[i + 2]);
                }
            }
            lemma_replace_leaves_no_escape(t, e, f, r);
            lemma_replace_first(t, e, r);
            let rest = replace_escape(t, e, r);
            assert(out == seq![s[0]] + rest);
            assert forall|i: int| 0 <= i < out.len() - 1 implies !(#[trigger] out[i] == '\\' && out[i + 1] == e) by {
                if i > 0 {
                    assert(out[i] == rest[i - 1] && out[i + 1] == rest[i]);
                } else {
                    assert(out[1] == rest[0]);
                }
            }
            assert forall|i: int| 0 <= i < out.len() - 1 implies !(#[trigger] out[i] == '\\' && out[i + 1] == f) by {
                if i > 0 {
                    assert(out[i] == rest[i - 1] && out[i + 1] == rest[i]);
                } else {
                    assert(out[1] == rest[0]);
                    if f != e {
                        assert(!(s[0] == '\\' && s[1] == f));
                    }
                }
            }
        }
    }
}

/// Unescaping the text of a string literal a second time changes nothing: unescaping leaves
/// no `\n`, `\t` or `\r`, and makes none.
pub proof fn law_unescape_idempotent(s: Seq<char>)
    ensures
        unescape(unescape(s)) == unescape(s),
{
    let a = replace_escape(s, 'n', '\n');
    lemma_replace_leaves_no_escape(s, 'n', 'n', '\n');
    let b = replace_escape(a, 't', '\t');
    lemma_replace_leaves_no_escape(a, 't', 'n', '\t');
    lemma_replace_leaves_no_escape(a, 't', 't', '\t');
    let c = replace_escape(b, 'r', '\r');
    lemma_replace_leaves_no_escape(b, 'r', 'n', '\r');
    lemma_replace_leaves_no_escape(b, 'r', 't', '\r');
    lemma_replace_leaves_no_escape(b, 'r', 'r', '\r');
    lemma_replace_without_escape(c, 'n', '\n');
    lemma_replace_without_escape(c, 't', '\t');
    lemma_replace_without_escape(c, 'r', '\r');
}

/// Looking for `q` from `i` on finds the first `q` at or after `i`: the index `j`, when the
/// chars from `i` up to `j` differ from `q` and `s[j]` is `q`.
proof fn lemma_find_char_first(s: Seq<char>, i: int, j: int, q: char)
    requires
        0 <= i <= j < s.len(),
        s[j] == q,
        forall|k: int| i <= k < j ==> s[k] != q,
    ensures
        find_char(s, i, q) == j,
    decreases j - i,
{
    if i < j {
        lemma_find_char_first(s, i + 1, j, q);
    }
}

/// A string literal runs from its opening quote to the next occurrence of that same quote,
/// whatever else it holds (the other kind of quote among it): on `q`, a text `b` free of `q`,
/// and `q` again, the lexer yields a string literal whose value is `b` unescaped, placed where
/// the opening quote stands, and moves to just after the closing quote.
pub proof fn law_string_literal(pre: Seq<char>, q: char, b: Seq<char>, rest: Seq<char>, st: LexState)
    requires
        q == '"' || q == '\'',
        !b.contains(q),
        st.position == pre.len(),
    ensures
        ({
            let s = pre + seq![q] + b + seq![q] + rest;
            let step = lex_step(s, st);
            &&& step.0 == LexOutcome::Token(
                TokenView {
                    kind: TokenType::StringLiteral,
                    value: unescape(b),
                    line: st.line as usize,
                    column: st.column as usize,
                },
            )
            &&& step.1.position == pre.len() + b.len() + 2
            &&& step.1.line == st.line
            &&& step.1.column == st.column + b.len() + 2
        }),
{
    let s = pre + seq![q] + b + seq![q] + rest;
    let p = pre.len() as int;
    let e = p + 1 + b.len();
    assert(s[p] == q);
    assert(s[e] == q);
    assert forall|k: int| p + 1 <= k < e implies s[k] != q by {
        assert(s[k] == b[k - p - 1]);
        if s[k] == q {
            assert(b.contains(q));
        }
    }
    lemma_find_char_first(s, p + 1, e, q);
    assert(s.subrange(p + 1, e) =~= b);
}

/// The table of symbols and keywords gives each kind to one text only, so the kind of a symbol
/// or keyword token tells its text.
pub proof fn law_symbol_kind_one_text(s: Seq<char>, t: Seq<char>)
    ensures
        symbol_kind(s) is Some && symbol_kind(s) == symbol_kind(t) ==> s == t,
{
    if symbol_kind(s) is Some && symbol_kind(s) == symbol_kind(t) {
        assert(s.len() == t.len());
        assert(s =~= t);
    }
}

/// Scanning a run of digits with at most one dot (and none if one was seen before it) goes to
/// its end, having seen a dot if one was seen before or the run holds one.
proof fn lemma_number_scan_run(s: Seq<char>, i: int, e: int, dot_seen: bool)
    requires
        0 <= i <= e <= s.len(),
        forall|k: int| i <= k < e ==> spec_is_digit(#[trigger] s[k]) || s[k] == '.',
        dot_seen ==> forall|k: int| i <= k < e ==> #[trigger] s[k] != '.',
        forall|k1: int, k2: int| i <= k1 < k2 < e ==> !(#[trigger] s[k1] == '.' && #[trigger] s[k2] == '.'),
    ensures
        number_scan(s, i, dot_seen) == number_scan(
            s,
            e,
            dot_seen || exists|k: int| i <= k < e && #[trigger] s[k] == '.',
        ),
    decreases e - i,
{
    if i < e {
        if spec_is_digit(s[i]) {
            lemma_number_scan_run(s, i + 1, e, dot_seen);
            assert((exists|k: int| i <= k < e && #[trigger] s[k] == '.') == (exists|k: int|
                i + 1 <= k < e && #[trigger] s[k] == '.')) by {
                if exists|k: int| i <= k < e && #[trigger] s[k] == '.' {
                    let k = choose|k: int| i <= k < e && #[trigger] s[k] == '.';
                    assert(k != i);
                }
            }
        } else {
            assert(s[i] == '.');
            assert forall|k: int| i + 1 <= k < e implies #[trigger] s[k] != '.' by {
                if s[k] == '.' {
                    assert(s[i] == '.' && s[k] == '.');
                }
            }
            lemma_number_scan_run(s, i + 1, e, true);
        }
    }
}

/// A number literal is the longest run of digits with at most one dot: on a digit, more
/// digits and at most one dot, followed by the end of the text or a char that is neither digit
/// nor dot, the lexer yields a number literal of exactly that run, placed where it starts, and
/// moves to its end; where a second dot follows the run, the lexer reports an invalid number
/// literal.
pub proof fn law_number_literal(pre: Seq<char>, d: Seq<char>, rest: Seq<char>, st: LexState)
    requires
        st.position == pre.len(),
        d.len() > 0,
        spec_is_digit(d[0]),
        forall|k: int| 0 <= k < d.len() ==> spec_is_digit(#[trigger] d[k]) || d[k] == '.',
        forall|k1: int, k2: int|
            0 <= k1 < k2 < d.len() ==> !(#[trigger] d[k1] == '.' && #[trigger] d[k2] == '.'),
    ensures
        ({
            let s = pre + d + rest;
            let step = lex_step(s, st);
            &&& (rest.len() == 0 || (!spec_is_digit(rest[0]) && rest[0] != '.')) ==> {
                &&& step.0 == LexOutcome::Token(
                    TokenView {
                        kind: TokenType::NumberLiteral,
                        value: d,
                        line: st.line as usize,
                        column: st.column as usize,
                    },
                )
                &&& step.1.position == pre.len() + d.len()
                &&& step.1.line == st.line
                &&& step.1.column == st.column + d.len()
            }
            &&& (d.contains('.') && rest.len() > 0 && rest[0] == '.') ==> step.0 == LexOutcome::Failure(
                LexerErrorView {
                    message: invalid_number_message(),
                    line: st.line as usize,
                    column: st.column as usize,
                },
            )
        }),
{
    let s = pre + d + rest;
    let p = pre.len() as int;
    let e = p + d.len();
    assert forall|k: int| p <= k < e implies spec_is_digit(#[trigger] s[k]) || s[k] == '.' by {
        assert(s[k] == d[k - p]);
    }
    assert forall|k1: int, k2: int| p <= k1 < k2 < e implies !(#[trigger] s[k1] == '.'
        && #[trigger] s[k2] == '.') by {
        assert(s[k1] == d[k1 - p]);
        assert(s[k2] == d[k2 - p]);
    }
    lemma_number_scan_run(s, p, e, false);
    let dot = exists|k: int| p <= k < e && #[trigger] s[k] == '.';
    if d.contains('.') {
        let k = choose|k: int| 0 <= k < d.len() && d[k] == '.';
        assert(s[p + k] == d[k]);
        assert(dot);
    }
    if rest.len() > 0 {
        assert(s[e] == rest[0]);
    }
    assert(s[p] == d[0]);
    assert(s.subrange(p, e) =~= d);
}

/// Scanning a run of identifier chars none of whose prefixes (from `start`) is a keyword goes
/// to the end of the run.
proof fn lemma_identifier_scan_run(s: Seq<char>, start: int, i: int, e: int)
    requires
        0 <= start <= i <= e <= s.len(),
        forall|k: int| start <= k < e ==> spec_is_identifier(#[trigger] s[k]),
        forall|k: int| start <= k < e ==> #[trigger] symbol_kind(s.subrange(start, k + 1)) is None,
    ensures
        identifier_scan(s, start, i) == identifier_scan(s, start, e),
    decreases e - i,
{
    if i < e {
        assert(symbol_kind(s.subrange(start, i + 1)) is None);
        lemma_identifier_scan_run(s, start, i + 1, e);
    }
}

/// An identifier is read as far as identifier chars go, and stops early at a keyword: on a
/// letter or `_` followed by identifier chars, forming a text `w` none of whose shorter
/// prefixes is a keyword, the lexer yields, placed where `w` starts and moving to its end,
/// the keyword's token where `w` is a keyword (whatever follows it), and otherwise an
/// identifier `w` where the text ends after `w` or goes on with a char that cannot be part of
/// an identifier.
pub proof fn law_identifier(pre: Seq<char>, w: Seq<char>, rest: Seq<char>, st: LexState)
    requires
        st.position == pre.len(),
        w.len() > 0,
        spec_is_identifier_start(w[0]),
        forall|k: int| 0 <= k < w.len() ==> spec_is_identifier(#[trigger] w[k]),
        forall|k: int| 1 <= k < w.len() ==> #[trigger] symbol_kind(w.take(k)) is None,
    ensures
        ({
            let s = pre + w + rest;
            let step = lex_step(s, st);
            let kind = match symbol_kind(w) {
                Some(k) => k,
                None => TokenType::Identifier,
            };
            &&& (symbol_kind(w) is Some || rest.len() == 0 || !spec_is_identifier(rest[0])) ==> {
                &&& step.0 == LexOutcome::Token(
                    TokenView {
                        kind,
                        value: w,
                        line: st.line as usize,
                        column: st.column as usize,
                    },
                )
                &&& step.1.position == pre.len() + w.len()
                &&& step.1.line == st.line
                &&& step.1.column == st.column + w.len()
            }
        }),
{
    let s = pre + w + rest;
    let p = pre.len() as int;
    let e = p + w.len();
    assert(s[p] == w[0]);
    assert forall|k: int| p <= k < e implies spec_is_identifier(#[trigger] s[k]) by {
        assert(s[k] == w[k - p]);
    }
    assert forall|k: int| p <= k < e - 1 implies #[trigger] symbol_kind(s.subrange(p, k + 1)) is None by {
        assert(s.subrange(p, k + 1) =~= w.take(k + 1 - p));
    }
    assert(s.subrange(p, e) =~= w);
    lemma_identifier_scan_run(s, p, p, e - 1);
    if rest.len() > 0 {
        assert(s[e] == rest[0]);
    }
    if symbol_kind(w) is None {
        lemma_identifier_scan_run(s, p, e - 1, e);
    }
}

/// Scanning a symbol whose every longer prefix up to `e` is in the table goes on to `e`.
proof fn lemma_symbol_scan_run(s: Seq<char>, start: int, i: int, e: int)
    requires
        0 <= start <= i <= e < s.len(),
        forall|k: int| i <= k < e ==> #[trigger] symbol_kind(s.subrange(start, k + 1)) is Some,
    ensures
        symbol_scan(s, start, i) == symbol_scan(s, start, e),
    decreases e - i,
{
    if i < e {
        assert(symbol_kind(s.subrange(start, i + 1)) is Some);
        lemma_symbol_scan_run(s, start, i + 1, e);
    }
}

/// A symbol is the longest text of the table that starts there: on a symbol text `t` whose
/// every prefix is in the table, followed by the end of the text or by a char that would make
/// a text outside the table, the lexer yields the token of `t`, placed where `t` starts, and
/// moves to its end.
pub proof fn law_symbol(pre: Seq<char>, t: Seq<char>, rest: Seq<char>, st: LexState)
    requires
        st.position == pre.len(),
        t.len() > 0,
        one_char_symbol(t[0]) is Some,
        forall|k: int| 1 <= k <= t.len() ==> #[trigger] symbol_kind(t.take(k)) is Some,
        rest.len() == 0 || symbol_kind(t.push(rest[0])) is None,
    ensures
        ({
            let s = pre + t + rest;
            let step = lex_step(s, st);
            &&& step.0 == LexOutcome::Token(
                TokenView {
                    kind: symbol_kind(t).unwrap(),
                    value: t,
                    line: st.line as usize,
                    column: st.column as usize,
                },
            )
            &&& step.1.position == pre.len() + t.len()
            &&& step.1.line == st.line
            &&& step.1.column == st.column + t.len()
        }),
{
    let s = pre + t + rest;
    let p = pre.len() as int;
    let e = p + t.len();
    assert(s[p] == t[0]);
    assert forall|k: int| p <= k < e implies #[trigger] symbol_kind(s.subrange(p, k + 1)) is Some by {
        assert(s.subrange(p, k + 1) =~= t.take(k + 1 - p));
    }
    assert(t.take(t.len() as int) =~= t);
    assert(s.subrange(p, e) =~= t);
    if rest.len() > 0 {
        assert(s.subrange(p, e + 1) =~= t.push(rest[0]));
        lemma_symbol_scan_run(s, p, p, e);
        assert(symbol_scan(s, p, e) == e);
    } else {
        lemma_symbol_scan_run(s, p, p, e - 1);
        assert(symbol_kind(s.subrange(p, e)) is Some);
        assert(symbol_scan(s, p, e) == e);
        assert(symbol_scan(s, p, e - 1) == e);
    }
    assert(symbol_scan(s, p, p) == e);
    assert(symbol_step(s, st).0 == token_at(symbol_kind(t).unwrap(), t, st));
}

} // verus!
