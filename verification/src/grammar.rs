//! The lexical grammar, as functions on sequences of characters.
//!
//! A position is a character index into the source. The functions here say
//! where whitespace and comments end, which unit of text begins at a position
//! and where it ends, and which items a scan from a position yields. The
//! scanner is verified against them.

use crate::error::LexError;
use crate::text::byte_offset;
use crate::token::{TokenKind, TokenView};
use vstd::prelude::*;

verus! {

/// Characters with the Unicode property `White_Space`.
pub open spec fn is_whitespace(c: char) -> bool {
    let v = c as u32;
    ||| 0x09 <= v <= 0x0D
    ||| v == 0x20
    ||| v == 0x85
    ||| v == 0xA0
    ||| v == 0x1680
    ||| 0x2000 <= v <= 0x200A
    ||| v == 0x2028
    ||| v == 0x2029
    ||| v == 0x202F
    ||| v == 0x205F
    ||| v == 0x3000
}

/// The ASCII digits.
pub open spec fn is_digit(c: char) -> bool {
    '0' <= c <= '9'
}

/// The characters with which a name may begin: ASCII letters and `_`.
pub open spec fn is_ident_start(c: char) -> bool {
    ('a' <= c <= 'z') || ('A' <= c <= 'Z') || c == '_'
}

/// The characters of which a name is made: ASCII letters, digits and `_`.
pub open spec fn is_ident_char(c: char) -> bool {
    is_ident_start(c) || is_digit(c)
}

/// The kind of the token that a punctuation character is by itself.
pub open spec fn punctuation(c: char) -> Option<TokenKind> {
    if c == '(' {
        Some(TokenKind::LeftParen)
    } else if c == ')' {
        Some(TokenKind::RightParen)
    } else if c == '{' {
        Some(TokenKind::LeftBrace)
    } else if c == '}' {
        Some(TokenKind::RightBrace)
    } else if c == ',' {
        Some(TokenKind::Comma)
    } else if c == '.' {
        Some(TokenKind::Dot)
    } else if c == '-' {
        Some(TokenKind::Minus)
    } else if c == '+' {
        Some(TokenKind::Plus)
    } else if c == ';' {
        Some(TokenKind::Semicolon)
    } else if c == '*' {
        Some(TokenKind::Star)
    } else if c == '/' {
        Some(TokenKind::Slash)
    } else {
        None
    }
}

/// The kind of the operator that begins with `c`, alone or followed by `=`.
pub open spec fn operator(c: char, with_equal: bool) -> Option<TokenKind> {
    if c == '!' {
        Some(if with_equal { TokenKind::BangEqual } else { TokenKind::Bang })
    } else if c == '=' {
        Some(if with_equal { TokenKind::EqualEqual } else { TokenKind::Equal })
    } else if c == '>' {
        Some(if with_equal { TokenKind::GreaterEqual } else { TokenKind::Greater })
    } else if c == '<' {
        Some(if with_equal { TokenKind::LessEqual } else { TokenKind::Less })
    } else {
        None
    }
}

/// The kind that a reserved word stands for; `None` for any other text.
pub open spec fn keyword(word: Seq<char>) -> Option<TokenKind> {
    if word == "and"@ {
        Some(TokenKind::And)
    } else if word == "class"@ {
        Some(TokenKind::Class)
    } else if word == "else"@ {
        Some(TokenKind::Else)
    } else if word == "false"@ {
        Some(TokenKind::False)
    } else if word == "for"@ {
        Some(TokenKind::For)
    } else if word == "fun"@ {
        Some(TokenKind::Fun)
    } else if word == "if"@ {
        Some(TokenKind::If)
    } else if word == "nil"@ {
        Some(TokenKind::Nil)
    } else if word == "or"@ {
        Some(TokenKind::Or)
    } else if word == "print"@ {
        Some(TokenKind::Print)
    } else if word == "return"@ {
        Some(TokenKind::Return)
    } else if word == "super"@ {
        Some(TokenKind::Super)
    } else if word == "this"@ {
        Some(TokenKind::This)
    } else if word == "true"@ {
        Some(TokenKind::True)
    } else if word == "var"@ {
        Some(TokenKind::Var)
    } else if word == "while"@ {
        Some(TokenKind::While)
    } else {
        None
    }
}

/// The kind of a name: that of the reserved word it is, else `Identifier`.
pub open spec fn word_kind(word: Seq<char>) -> TokenKind {
    match keyword(word) {
        Some(kind) => kind,
        None => TokenKind::Identifier,
    }
}

/// Whether a kind is one of the sixteen reserved words.
pub open spec fn is_keyword_kind(kind: TokenKind) -> bool {
    ||| kind == TokenKind::And
    ||| kind == TokenKind::Class
    ||| kind == TokenKind::Else
    ||| kind == TokenKind::False
    ||| kind == TokenKind::For
    ||| kind == TokenKind::Fun
    ||| kind == TokenKind::If
    ||| kind == TokenKind::Nil
    ||| kind == TokenKind::Or
    ||| kind == TokenKind::Print
    ||| kind == TokenKind::Return
    ||| kind == TokenKind::Super
    ||| kind == TokenKind::This
    ||| kind == TokenKind::True
    ||| kind == TokenKind::Var
    ||| kind == TokenKind::While
}

/// Whether `c` has the Unicode property `White_Space`.
pub fn char_is_whitespace(c: char) -> (b: bool)
    ensures
        b == is_whitespace(c),
{
    let v: u32 = c as u32;
    (0x09 <= v && v <= 0x0D) || v == 0x20 || v == 0x85 || v == 0xA0 || v == 0x1680 || (0x2000 <= v
        && v <= 0x200A) || v == 0x2028 || v == 0x2029 || v == 0x202F || v == 0x205F || v == 0x3000
}

/// Whether `c` is an ASCII digit.
pub fn char_is_digit(c: char) -> (b: bool)
    ensures
        b == is_digit(c),
{
    '0' <= c && c <= '9'
}

/// Whether a name may begin with `c`.
pub fn char_is_ident_start(c: char) -> (b: bool)
    ensures
        b == is_ident_start(c),
{
    ('a' <= c && c <= 'z') || ('A' <= c && c <= 'Z') || c == '_'
}

/// Whether `c` may stand in a name.
pub fn char_is_ident_char(c: char) -> (b: bool)
    ensures
        b == is_ident_char(c),
{
    char_is_ident_start(c) || char_is_digit(c)
}

/// The first position at or after `i` that holds no digit.
pub open spec fn digits_end(s: Seq<char>, i: int) -> int
    decreases s.len() - i,
{
    if 0 <= i < s.len() && is_digit(s[i]) {
        digits_end(s, i + 1)
    } else {
        i
    }
}

/// The first position at or after `i` that holds no character of a name.
pub open spec fn ident_end(s: Seq<char>, i: int) -> int
    decreases s.len() - i,
{
    if 0 <= i < s.len() && is_ident_char(s[i]) {
        ident_end(s, i + 1)
    } else {
        i
    }
}

/// The position of the first `"` at or after `i`; the length of `s` if there
/// is none.
pub open spec fn quote_at(s: Seq<char>, i: int) -> int
    decreases s.len() - i,
{
    if 0 <= i < s.len() && s[i] != '"' {
        quote_at(s, i + 1)
    } else {
        i
    }
}

/// The position just behind the first line feed at or after `i`; the length
/// of `s` if there is none.
pub open spec fn line_end(s: Seq<char>, i: int) -> int
    decreases s.len() - i,
{
    if 0 <= i < s.len() {
        if s[i] == '\n' {
            i + 1
        } else {
            line_end(s, i + 1)
        }
    } else {
        i
    }
}

/// Whether a line comment begins at `i`.
pub open spec fn comment_at(s: Seq<char>, i: int) -> bool {
    0 <= i && i + 1 < s.len() && s[i] == '/' && s[i + 1] == '/'
}

/// The position at which the whitespace and the line comments that begin at
/// `i` end: the next position that holds something else, or the end.
pub open spec fn trivia_end(s: Seq<char>, i: int) -> int
    decreases s.len() - i,
    via trivia_end_decreases
{
    if 0 <= i < s.len() && is_whitespace(s[i]) {
        trivia_end(s, i + 1)
    } else if comment_at(s, i) {
        trivia_end(s, line_end(s, i))
    } else {
        i
    }
}

#[via_fn]
proof fn trivia_end_decreases(s: Seq<char>, i: int) {
    if 0 <= i < s.len() {
        lemma_line_end_bounds(s, i);
    }
}

/// Where a number that begins before `i` ends: behind the digits at `i` and,
/// if a `.` and a digit follow them, behind the digits of the fraction.
pub open spec fn number_end(s: Seq<char>, i: int) -> int {
    let d = digits_end(s, i);
    if d + 1 < s.len() && s[d] == '.' && is_digit(s[d + 1]) {
        digits_end(s, d + 2)
    } else {
        d
    }
}

/// One unit of the source: a token or an error, and the positions between
/// which it lies.
pub struct Unit {
    pub outcome: Result<TokenKind, LexError>,
    pub start: int,
    pub end: int,
}

impl Unit {
    /// Where the lexeme begins: behind the opening quote for a string, else
    /// where the unit begins.
    pub open spec fn lexeme_start(self) -> int {
        if self.outcome == Ok::<TokenKind, LexError>(TokenKind::String) {
            self.start + 1
        } else {
            self.start
        }
    }

    /// Where the lexeme ends: before the closing quote for a string, else
    /// where the unit ends.
    pub open spec fn lexeme_end(self) -> int {
        if self.outcome == Ok::<TokenKind, LexError>(TokenKind::String) {
            self.end - 1
        } else {
            self.end
        }
    }
}

/// The unit that begins at `j`, a position that holds neither whitespace nor
/// the start of a comment.
pub open spec fn unit_at(s: Seq<char>, j: int) -> Unit
    recommends
        0 <= j < s.len(),
{
    let c = s[j];
    if punctuation(c) is Some {
        Unit { outcome: Ok(punctuation(c)->0), start: j, end: j + 1 }
    } else if operator(c, false) is Some {
        if j + 1 < s.len() && s[j + 1] == '=' {
            Unit { outcome: Ok(operator(c, true)->0), start: j, end: j + 2 }
        } else {
            Unit { outcome: Ok(operator(c, false)->0), start: j, end: j + 1 }
        }
    } else if c == '"' {
        let q = quote_at(s, j + 1);
        if q < s.len() {
            Unit { outcome: Ok(TokenKind::String), start: j, end: q + 1 }
        } else {
            Unit { outcome: Err(LexError::UnterminatedString), start: j, end: s.len() as int }
        }
    } else if is_ident_start(c) {
        let e = ident_end(s, j + 1);
        Unit { outcome: Ok(word_kind(s.subrange(j, e))), start: j, end: e }
    } else if is_digit(c) {
        Unit { outcome: Ok(TokenKind::Number), start: j, end: number_end(s, j + 1) }
    } else {
        Unit { outcome: Err(LexError::UnexpectedCharacter(c)), start: j, end: j + 1 }
    }
}

/// The unit that ends every scan: the `EOF` token at the end of the source.
pub open spec fn eof_unit(s: Seq<char>) -> Unit {
    Unit { outcome: Ok(TokenKind::EOF), start: s.len() as int, end: s.len() as int }
}

/// What a scan yields: a token or an error.
pub type Item = Result<TokenView, LexError>;

/// The item that is yielded for a unit: for a token its kind, its lexeme and
/// the byte offset at which the unit begins; for an error the error.
pub open spec fn item_of(s: Seq<char>, unit: Unit) -> Item {
    match unit.outcome {
        Ok(kind) => Ok(
            TokenView {
                kind,
                lexeme: s.subrange(unit.lexeme_start(), unit.lexeme_end()),
                offset: byte_offset(s, unit.start),
            },
        ),
        Err(error) => Err(error),
    }
}

/// The units of the source from position `i` on, the closing `EOF` included.
pub open spec fn units_from(s: Seq<char>, i: int) -> Seq<Unit>
    decreases s.len() - i,
    via units_from_decreases
{
    let j = trivia_end(s, i);
    if 0 <= j < s.len() {
        seq![unit_at(s, j)] + units_from(s, unit_at(s, j).end)
    } else {
        seq![eof_unit(s)]
    }
}

#[via_fn]
proof fn units_from_decreases(s: Seq<char>, i: int) {
    let j = trivia_end(s, i);
    if 0 <= j < s.len() {
        lemma_trivia_end_bounds(s, i);
        lemma_unit_bounds(s, j);
    }
}

/// The items that a scan of the source from position `i` on yields.
pub open spec fn items_from(s: Seq<char>, i: int) -> Seq<Item> {
    units_from(s, i).map_values(|unit: Unit| item_of(s, unit))
}

/// The items that a scan of the whole source yields.
pub open spec fn scan(s: Seq<char>) -> Seq<Item> {
    items_from(s, 0)
}

/// The digits that begin at `i` reach up to `digits_end`, and no further.
pub proof fn lemma_digits_end(s: Seq<char>, i: int)
    requires
        0 <= i <= s.len(),
    ensures
        i <= digits_end(s, i) <= s.len(),
        forall|k: int| i <= k < digits_end(s, i) ==> is_digit(#[trigger] s[k]),
        digits_end(s, i) < s.len() ==> !is_digit(s[digits_end(s, i)]),
    decreases s.len() - i,
{
    if i < s.len() && is_digit(s[i]) {
        lemma_digits_end(s, i + 1);
    }
}

/// The characters of a name that begin at `i` reach up to `ident_end`, and
/// no further.
pub proof fn lemma_ident_end(s: Seq<char>, i: int)
    requires
        0 <= i <= s.len(),
    ensures
        i <= ident_end(s, i) <= s.len(),
        forall|k: int| i <= k < ident_end(s, i) ==> is_ident_char(#[trigger] s[k]),
        ident_end(s, i) < s.len() ==> !is_ident_char(s[ident_end(s, i)]),
    decreases s.len() - i,
{
    if i < s.len() && is_ident_char(s[i]) {
        lemma_ident_end(s, i + 1);
    }
}

/// No `"` stands between `i` and `quote_at`; one stands there unless that is
/// the end of the source.
pub proof fn lemma_quote_at(s: Seq<char>, i: int)
    requires
        0 <= i <= s.len(),
    ensures
        i <= quote_at(s, i) <= s.len(),
        forall|k: int| i <= k < quote_at(s, i) ==> #[trigger] s[k] != '"',
        quote_at(s, i) < s.len() ==> s[quote_at(s, i)] == '"',
    decreases s.len() - i,
{
    if i < s.len() && s[i] != '"' {
        lemma_quote_at(s, i + 1);
    }
}

/// A line ends within the source, behind at least one character if any is
/// left.
pub proof fn lemma_line_end_bounds(s: Seq<char>, i: int)
    requires
        0 <= i <= s.len(),
    ensures
        i <= line_end(s, i) <= s.len(),
        i < s.len() ==> i < line_end(s, i),
    decreases s.len() - i,
{
    if i < s.len() && s[i] != '\n' {
        lemma_line_end_bounds(s, i + 1);
    }
}

/// Whitespace and comments end within the source, where neither begins.
pub proof fn lemma_trivia_end_bounds(s: Seq<char>, i: int)
    requires
        0 <= i <= s.len(),
    ensures
        i <= trivia_end(s, i) <= s.len(),
        trivia_end(s, i) < s.len() ==> !is_whitespace(s[trivia_end(s, i)]) && !comment_at(
            s,
            trivia_end(s, i),
        ),
        trivia_end(s, trivia_end(s, i)) == trivia_end(s, i),
    decreases s.len() - i,
{
    if i < s.len() && is_whitespace(s[i]) {
        lemma_trivia_end_bounds(s, i + 1);
    } else if comment_at(s, i) {
        lemma_line_end_bounds(s, i);
        lemma_trivia_end_bounds(s, line_end(s, i));
    }
}

/// A number ends within the source.
pub proof fn lemma_number_end(s: Seq<char>, i: int)
    requires
        0 <= i <= s.len(),
    ensures
        i <= number_end(s, i) <= s.len(),
{
    lemma_digits_end(s, i);
    let d = digits_end(s, i);
    if d + 1 < s.len() {
        lemma_digits_end(s, d + 2);
    }
}

/// A unit is not empty and ends within the source; a string holds both of
/// its quotes.
pub proof fn lemma_unit_bounds(s: Seq<char>, j: int)
    requires
        0 <= j < s.len(),
    ensures
        unit_at(s, j).start == j,
        j < unit_at(s, j).end <= s.len(),
        j <= unit_at(s, j).lexeme_start() <= unit_at(s, j).lexeme_end() <= unit_at(s, j).end,
        unit_at(s, j).outcome != Ok::<TokenKind, LexError>(TokenKind::EOF),
{
    lemma_quote_at(s, j + 1);
    lemma_ident_end(s, j + 1);
    lemma_number_end(s, j + 1);
    lemma_word_kind(s.subrange(j, ident_end(s, j + 1)));
}

/// A scan from `i` yields the item of the unit behind the whitespace and
/// comments at `i`, then what a scan from the end of that unit yields; at the
/// end of the source it yields the closing `EOF` alone.
pub proof fn lemma_items_from_unfold(s: Seq<char>, i: int)
    requires
        0 <= i <= s.len(),
    ensures
        items_from(s, i).len() >= 1,
        trivia_end(s, i) < s.len() ==> items_from(s, i) == seq![
            item_of(s, unit_at(s, trivia_end(s, i))),
        ] + items_from(s, unit_at(s, trivia_end(s, i)).end),
        trivia_end(s, i) >= s.len() ==> items_from(s, i) == seq![item_of(s, eof_unit(s))],
{
    lemma_trivia_end_bounds(s, i);
    let j = trivia_end(s, i);
    if j < s.len() {
        let unit = unit_at(s, j);
        assert(units_from(s, i) == seq![unit] + units_from(s, unit.end));
    }
}

/// The kind of a name is `Identifier` or a reserved word.
pub proof fn lemma_word_kind(word: Seq<char>)
    ensures
        word_kind(word) == TokenKind::Identifier || is_keyword_kind(word_kind(word)),
        word_kind(word) != TokenKind::EOF,
        word_kind(word) != TokenKind::String,
        word_kind(word) != TokenKind::Number,
{
}

} // verus!
