//! The scanner: it walks a source text once and hands out its tokens.

use crate::error::LexError;
use crate::grammar::{
    char_is_digit, char_is_ident_char, char_is_whitespace, digits_end, ident_end, is_digit,
    is_ident_start, item_of, items_from, keyword, lemma_items_from_unfold,
    lemma_line_end_bounds, lemma_number_end, lemma_trivia_end_bounds, lemma_unit_bounds,
    line_end, quote_at, scan, trivia_end, unit_at, Item,
};
use crate::text::{
    byte_len, byte_offset, first_char, lemma_byte_offset_monotone, lemma_byte_offset_step,
    lemma_encode_injective, lemma_encode_split, lemma_offset_is_boundary, same_text,
    second_char, slice, utf8_width,
};
use crate::token::{Token, TokenKind, TokenView};
use vstd::prelude::*;
use vstd::string::*;
use vstd::utf8::*;

verus! {

/// A scan in progress over a borrowed source text.
pub struct Scanner<'src> {
    source: &'src str,
    rest: &'src str,
    // byte offset of 'rest' relative to 'source'
    byte_offset: usize,
    eof_emitted: bool,
}

impl<'src> Scanner<'src> {
    /// The text that is scanned.
    pub closed spec fn source(&self) -> Seq<char> {
        self.source@
    }

    /// The number of characters that the scan has passed.
    pub closed spec fn position(&self) -> int {
        self.source@.len() - self.rest@.len()
    }

    /// Whether the closing `EOF` has been handed out.
    pub closed spec fn finished(&self) -> bool {
        self.eof_emitted
    }

    /// The byte offset that the scan has reached.
    pub closed spec fn offset(&self) -> int {
        self.byte_offset as int
    }

    /// The invariant of a scanner: what is left is a suffix of the source, the
    /// byte offset is that of the position, and once `EOF` has been handed out
    /// nothing is left.
    pub closed spec fn wf(&self) -> bool {
        &&& self.rest@.len() <= self.source@.len()
        &&& self.rest@ == self.source@.subrange(self.position(), self.source@.len() as int)
        &&& self.byte_offset == byte_offset(self.source@, self.position())
        &&& encode_utf8(self.source@).len() <= usize::MAX
        &&& self.eof_emitted ==> self.rest@.len() == 0
    }

    /// The items that the scanner has yet to yield.
    pub open spec fn remaining(&self) -> Seq<Item> {
        if self.finished() {
            Seq::empty()
        } else {
            items_from(self.source(), self.position())
        }
    }

    /// A scanner at the start of `source`.
    pub fn new(source: &'src str) -> (scanner: Self)
        ensures
            scanner.wf(),
            scanner.source() == source@,
            scanner.position() == 0,
            !scanner.finished(),
            scanner.remaining() == scan(source@),
    {
        // the length of a text in bytes fits a `usize`
        let _ = byte_len(source);
        proof {
            assert(source@.subrange(0, source@.len() as int) =~= source@);
        }
        Self { source, rest: source, byte_offset: 0, eof_emitted: false }
    }

    /// A well-formed scanner stands within its source, at the byte offset of
    /// its position; a finished one stands at the end.
    pub proof fn lemma_wf(&self)
        requires
            self.wf(),
        ensures
            0 <= self.position() <= self.source().len(),
            self.offset() == byte_offset(self.source(), self.position()),
            self.offset() + encode_utf8(
                self.source().subrange(self.position(), self.source().len() as int),
            ).len() == encode_utf8(self.source()).len(),
            self.finished() ==> self.position() == self.source().len(),
    {
        lemma_encode_split(self.source@, self.position());
    }

    /// Returns the next character without consuming it
    fn peek(&self) -> (r: Option<char>)
        requires
            self.wf(),
        ensures
            r == (if self.position() < self.source().len() {
                Some(self.source()[self.position()])
            } else {
                None
            }),
    {
        first_char(self.rest)
    }

    /// Returns character after the next one without consuming it (lookahead 1)
    fn peek_next(&self) -> (r: Option<char>)
        requires
            self.wf(),
        ensures
            r == (if self.position() + 1 < self.source().len() {
                Some(self.source()[self.position() + 1])
            } else {
                None
            }),
    {
        second_char(self.rest)
    }

    /// Consumes the next character and returns it
    fn advance(&mut self) -> (r: Option<char>)
        requires
            old(self).wf(),
        ensures
            final(self).wf(),
            final(self).source() == old(self).source(),
            final(self).finished() == old(self).finished(),
            match r {
                Some(c) => {
                    &&& old(self).position() < old(self).source().len()
                    &&& c == old(self).source()[old(self).position()]
                    &&& final(self).position() == old(self).position() + 1
                },
                None => {
                    &&& old(self).position() == old(self).source().len()
                    &&& final(self).position() == old(self).position()
                },
            },
    {
        let c = match first_char(self.rest) {
            Some(c) => c,
            None => {
                return None;
            },
        };
        let n = utf8_width(c);
        let ghost pos = self.position();
        proof {
            lemma_byte_offset_step(self.rest@, 0);
            lemma_offset_is_boundary(self.rest@, 1);
            lemma_byte_offset_step(self.source@, pos);
            lemma_byte_offset_monotone(self.source@, pos + 1, self.source@.len() as int);
        }
        let (_, tail) = self.rest.split_at(n);
        proof {
            lemma_encode_split(self.rest@, 1);
            lemma_encode_injective(tail@, self.rest@.subrange(1, self.rest@.len() as int));
            assert(tail@ =~= self.source@.subrange(pos + 1, self.source@.len() as int));
        }
        self.rest = tail;
        self.byte_offset += n;
        Some(c)
    }

    /// Conditional advance
    fn matches(&mut self, expected: char) -> (r: bool)
        requires
            old(self).wf(),
        ensures
            final(self).wf(),
            final(self).source() == old(self).source(),
            final(self).finished() == old(self).finished(),
            r == (old(self).position() < old(self).source().len() && old(self).source()[old(
                self,
            ).position()] == expected),
            final(self).position() == old(self).position() + (if r {
                1int
            } else {
                0int
            }),
    {
        match self.peek() {
            Some(c) => {
                if c == expected {
                    self.advance();
                    return true;
                }
                false
            },
            None => false,
        }
    }
}

/// What a yielded value is: a token as its view, an error as itself.
pub open spec fn item_view(item: Result<Token<'_>, LexError>) -> Item {
    match item {
        Ok(token) => Ok(token@),
        Err(error) => Err(error),
    }
}

/// What a list of yielded values is, one by one.
pub open spec fn items_view(items: Seq<Result<Token<'_>, LexError>>) -> Seq<Item> {
    items.map_values(|item: Result<Token<'_>, LexError>| item_view(item))
}

/// The position that the scanner reaches by yielding one item from `i`.
pub open spec fn position_after(s: Seq<char>, i: int) -> int {
    let j = trivia_end(s, i);
    if j < s.len() {
        unit_at(s, j).end
    } else {
        s.len() as int
    }
}

impl<'src> Scanner<'src> {
    /// Consumes whitespace and line comments until something else, or the
    /// end of the source, is next.
    fn skip_whitespace(&mut self)
        requires
            old(self).wf(),
        ensures
            final(self).wf(),
            final(self).source() == old(self).source(),
            final(self).finished() == old(self).finished(),
            final(self).position() == trivia_end(old(self).source(), old(self).position()),
    {
        loop
            invariant
                self.wf(),
                self.source() == old(self).source(),
                self.finished() == old(self).finished(),
                0 <= self.position() <= self.source().len(),
                trivia_end(self.source(), self.position()) == trivia_end(
                    old(self).source(),
                    old(self).position(),
                ),
            ensures
                self.position() == trivia_end(old(self).source(), old(self).position()),
            decreases self.source().len() - self.position(),
        {
            match self.peek() {
                Some(c) => {
                    if char_is_whitespace(c) {
                        self.advance();
                    } else if c == '/' && self.peek_next() == Some('/') {
                        let ghost from = self.position();
                        loop
                            invariant_except_break
                                line_end(self.source(), self.position()) == line_end(
                                    self.source(),
                                    from,
                                ),
                            invariant
                                self.wf(),
                                self.source() == old(self).source(),
                                self.finished() == old(self).finished(),
                                from <= self.position() <= self.source().len(),
                                from < self.source().len(),
                            ensures
                                self.position() == line_end(self.source(), from),
                            decreases self.source().len() - self.position(),
                        {
                            match self.advance() {
                                Some(d) => {
                                    if d == '\n' {
                                        break ;
                                    }
                                },
                                None => {
                                    break ;
                                },
                            }
                        }
                        proof {
                            lemma_line_end_bounds(self.source(), from);
                        }
                    } else {
                        break ;
                    }
                },
                None => {
                    break ;
                },
            }
        }
    }

    /// The token of the given kind that lies between the position `start`,
    /// whose byte offset is `start_offset`, and the position reached.
    fn make_token(&self, kind: TokenKind, start_offset: usize, Ghost(start): Ghost<int>) -> (r:
        Option<Result<Token<'src>, LexError>>)
        requires
            self.wf(),
            0 <= start <= self.position(),
            start_offset == byte_offset(self.source(), start),
        ensures
            r matches Some(Ok(token)) && token@ == (TokenView {
                kind,
                lexeme: self.source().subrange(start, self.position()),
                offset: byte_offset(self.source(), start),
            }),
    {
        let lexeme = slice(
            self.source,
            start_offset,
            self.byte_offset,
            Ghost(start),
            Ghost(self.position()),
        );
        Some(Ok(Token::new(kind, lexeme, start_offset)))
    }

    /// Consumes the digits that are next, if any.
    fn consume_digits(&mut self)
        requires
            old(self).wf(),
        ensures
            final(self).wf(),
            final(self).source() == old(self).source(),
            final(self).finished() == old(self).finished(),
            final(self).position() == digits_end(old(self).source(), old(self).position()),
    {
        loop
            invariant
                self.wf(),
                self.source() == old(self).source(),
                self.finished() == old(self).finished(),
                0 <= self.position() <= self.source().len(),
                digits_end(self.source(), self.position()) == digits_end(
                    old(self).source(),
                    old(self).position(),
                ),
            ensures
                self.position() == digits_end(old(self).source(), old(self).position()),
            decreases self.source().len() - self.position(),
        {
            match self.peek() {
                Some(c) => {
                    if char_is_digit(c) {
                        self.advance();
                    } else {
                        break ;
                    }
                },
                None => {
                    break ;
                },
            }
        }
    }

    /// Consumes the letters, digits and `_` that are next, if any.
    fn consume_ident(&mut self)
        requires
            old(self).wf(),
        ensures
            final(self).wf(),
            final(self).source() == old(self).source(),
            final(self).finished() == old(self).finished(),
            final(self).position() == ident_end(old(self).source(), old(self).position()),
    {
        loop
            invariant
                self.wf(),
                self.source() == old(self).source(),
                self.finished() == old(self).finished(),
                0 <= self.position() <= self.source().len(),
                ident_end(self.source(), self.position()) == ident_end(
                    old(self).source(),
                    old(self).position(),
                ),
            ensures
                self.position() == ident_end(old(self).source(), old(self).position()),
            decreases self.source().len() - self.position(),
        {
            match self.peek() {
                Some(c) => {
                    if char_is_ident_char(c) {
                        self.advance();
                    } else {
                        break ;
                    }
                },
                None => {
                    break ;
                },
            }
        }
    }
}

impl<'src> Scanner<'src> {
    /// Scans a string whose opening quote, at the byte offset `start_offset`,
    /// has just been consumed.
    fn scan_string_literal(&mut self, start_offset: usize) -> (r: Option<
        Result<Token<'src>, LexError>,
    >)
        requires
            old(self).wf(),
            old(self).position() >= 1,
            old(self).source()[old(self).position() - 1] == '"',
            start_offset == byte_offset(old(self).source(), old(self).position() - 1),
        ensures
            final(self).wf(),
            final(self).source() == old(self).source(),
            final(self).finished() == old(self).finished(),
            final(self).position() == unit_at(old(self).source(), old(self).position() - 1).end,
            r matches Some(item) && item_view(item) == item_of(
                old(self).source(),
                unit_at(old(self).source(), old(self).position() - 1),
            ),
    {
        let content_offset = self.byte_offset;
        let ghost content = self.position();
        loop
            invariant
                self.wf(),
                self.source() == old(self).source(),
                self.finished() == old(self).finished(),
                content == old(self).position(),
                content >= 1,
                self.source()[content - 1] == '"',
                start_offset == byte_offset(self.source(), content - 1),
                content_offset == byte_offset(self.source(), content),
                content <= self.position() <= self.source().len(),
                quote_at(self.source(), self.position()) == quote_at(self.source(), content),
            decreases self.source().len() - self.position(),
        {
            let end_offset = self.byte_offset;
            let ghost end = self.position();
            match self.advance() {
                Some(c) => {
                    if c == '"' {
                        let lexeme = slice(
                            self.source,
                            content_offset,
                            end_offset,
                            Ghost(content),
                            Ghost(end),
                        );
                        return Some(Ok(Token::new(TokenKind::String, lexeme, start_offset)));
                    }
                },
                None => {
                    return Some(Err(LexError::UnterminatedString));
                },
            }
        }
    }

    /// Scans a number whose first digit, at the byte offset `start_offset`,
    /// has just been consumed.
    fn scan_number(&mut self, start_offset: usize) -> (r: Option<Result<Token<'src>, LexError>>)
        requires
            old(self).wf(),
            old(self).position() >= 1,
            is_digit(old(self).source()[old(self).position() - 1]),
            start_offset == byte_offset(old(self).source(), old(self).position() - 1),
        ensures
            final(self).wf(),
            final(self).source() == old(self).source(),
            final(self).finished() == old(self).finished(),
            final(self).position() == unit_at(old(self).source(), old(self).position() - 1).end,
            r matches Some(item) && item_view(item) == item_of(
                old(self).source(),
                unit_at(old(self).source(), old(self).position() - 1),
            ),
    {
        let ghost start = self.position() - 1;
        proof {
            lemma_number_end(self.source(), start + 1);
        }
        self.consume_digits();

        let dot = match self.peek() {
            Some(c) => c == '.',
            None => false,
        };
        let digit = match self.peek_next() {
            Some(c) => char_is_digit(c),
            None => false,
        };
        if dot && digit {
            self.advance();  // consume '.'
            self.consume_digits();
        }
        self.make_token(TokenKind::Number, start_offset, Ghost(start))
    }

    /// Scans a name whose first character, at the byte offset `start_offset`,
    /// has just been consumed.
    fn scan_ident(&mut self, start_offset: usize) -> (r: Option<Result<Token<'src>, LexError>>)
        requires
            old(self).wf(),
            old(self).position() >= 1,
            is_ident_start(old(self).source()[old(self).position() - 1]),
            start_offset == byte_offset(old(self).source(), old(self).position() - 1),
        ensures
            final(self).wf(),
            final(self).source() == old(self).source(),
            final(self).finished() == old(self).finished(),
            final(self).position() == unit_at(old(self).source(), old(self).position() - 1).end,
            r matches Some(item) && item_view(item) == item_of(
                old(self).source(),
                unit_at(old(self).source(), old(self).position() - 1),
            ),
    {
        let ghost start = self.position() - 1;
        proof {
            lemma_unit_bounds(self.source(), start);
        }
        self.consume_ident();
        let lexeme = slice(
            self.source,
            start_offset,
            self.byte_offset,
            Ghost(start),
            Ghost(self.position()),
        );
        let kind = match Self::get_keyword_kind(lexeme) {
            Some(kind) => kind,
            None => TokenKind::Identifier,
        };
        Some(Ok(Token::new(kind, lexeme, start_offset)))
    }

    /// The kind of the reserved word that `lexeme` is, if it is one.
    fn get_keyword_kind(lexeme: &str) -> (r: Option<TokenKind>)
        ensures
            r == keyword(lexeme@),
    {
        if same_text(lexeme, "and") {
            Some(TokenKind::And)
        } else if same_text(lexeme, "class") {
            Some(TokenKind::Class)
        } else if same_text(lexeme, "else") {
            Some(TokenKind::Else)
        } else if same_text(lexeme, "false") {
            Some(TokenKind::False)
        } else if same_text(lexeme, "for") {
            Some(TokenKind::For)
        } else if same_text(lexeme, "fun") {
            Some(TokenKind::Fun)
        } else if same_text(lexeme, "if") {
            Some(TokenKind::If)
        } else if same_text(lexeme, "nil") {
            Some(TokenKind::Nil)
        } else if same_text(lexeme, "or") {
            Some(TokenKind::Or)
        } else if same_text(lexeme, "print") {
            Some(TokenKind::Print)
        } else if same_text(lexeme, "return") {
            Some(TokenKind::Return)
        } else if same_text(lexeme, "super") {
            Some(TokenKind::Super)
        } else if same_text(lexeme, "this") {
            Some(TokenKind::This)
        } else if same_text(lexeme, "true") {
            Some(TokenKind::True)
        } else if same_text(lexeme, "var") {
            Some(TokenKind::Var)
        } else if same_text(lexeme, "while") {
            Some(TokenKind::While)
        } else {
            None
        }
    }
}

impl<'src> Scanner<'src> {
    /// Yields the next item of the scan: a token, or the error found in its
    /// place; `None` once the closing `EOF` has been yielded, and from then on.
    ///
    /// An error ends only the unit in which it was found. The scan goes on
    /// behind an unexpected character; an unterminated string takes the rest
    /// of the source. After any error the closing `EOF` is still yielded.
    pub fn next(&mut self) -> (r: Option<Result<Token<'src>, LexError>>)
        requires
            old(self).wf(),
        ensures
            final(self).wf(),
            final(self).source() == old(self).source(),
            old(self).position() <= final(self).position() <= old(self).source().len(),
            r is None <==> old(self).finished(),
            old(self).finished() ==> final(self).finished() && final(self).position() == old(
                self,
            ).position(),
            !old(self).finished() ==> ({
                &&& r matches Some(item)
                &&& item_view(item) == old(self).remaining()[0]
                &&& final(self).remaining() == old(self).remaining().drop_first()
                &&& final(self).position() == position_after(
                    old(self).source(),
                    old(self).position(),
                )
                &&& final(self).finished() == (trivia_end(old(self).source(), old(self).position())
                    >= old(self).source().len())
            }),
    {
        proof {
            old(self).lemma_wf();
            lemma_trivia_end_bounds(self.source(), self.position());
            lemma_items_from_unfold(self.source(), self.position());
        }
        self.skip_whitespace();

        if self.eof_emitted {
            return None;
        }
        if self.rest.is_empty() {
            self.eof_emitted = true;
            proof {
                reveal_strlit("");
                assert(""@ =~= self.source().subrange(
                    self.source().len() as int,
                    self.source().len() as int,
                ));
            }
            return Some(Ok(Token::new(TokenKind::EOF, "", self.byte_offset)));
        }
        let start_offset = self.byte_offset;
        let ghost start = self.position();
        proof {
            lemma_unit_bounds(self.source(), start);
        }

        let c = match self.advance() {
            Some(c) => c,
            None => {
                return None;
            },
        };
        match c {
            '(' => self.make_token(TokenKind::LeftParen, start_offset, Ghost(start)),
            ')' => self.make_token(TokenKind::RightParen, start_offset, Ghost(start)),
            '{' => self.make_token(TokenKind::LeftBrace, start_offset, Ghost(start)),
            '}' => self.make_token(TokenKind::RightBrace, start_offset, Ghost(start)),
            ',' => self.make_token(TokenKind::Comma, start_offset, Ghost(start)),
            '.' => self.make_token(TokenKind::Dot, start_offset, Ghost(start)),
            '-' => self.make_token(TokenKind::Minus, start_offset, Ghost(start)),
            '+' => self.make_token(TokenKind::Plus, start_offset, Ghost(start)),
            ';' => self.make_token(TokenKind::Semicolon, start_offset, Ghost(start)),
            '*' => self.make_token(TokenKind::Star, start_offset, Ghost(start)),
            '/' => self.make_token(TokenKind::Slash, start_offset, Ghost(start)),
            '!' => {
                let kind = if self.matches('=') {
                    TokenKind::BangEqual
                } else {
                    TokenKind::Bang
                };
                self.make_token(kind, start_offset, Ghost(start))
            },
            '=' => {
                let kind = if self.matches('=') {
                    TokenKind::EqualEqual
                } else {
                    TokenKind::Equal
                };
                self.make_token(kind, start_offset, Ghost(start))
            },
            '>' => {
                let kind = if self.matches('=') {
                    TokenKind::GreaterEqual
                } else {
                    TokenKind::Greater
                };
                self.make_token(kind, start_offset, Ghost(start))
            },
            '<' => {
                let kind = if self.matches('=') {
                    TokenKind::LessEqual
                } else {
                    TokenKind::Less
                };
                self.make_token(kind, start_offset, Ghost(start))
            },
            '"' => self.scan_string_literal(start_offset),
            'a'..='z' | 'A'..='Z' | '_' => self.scan_ident(start_offset),
            '0'..='9' => self.scan_number(start_offset),
            c => Some(Err(LexError::UnexpectedCharacter(c))),
        }
    }

    /// Runs the scan to its end and returns everything it yields, in order.
    pub fn collect(self) -> (items: Vec<Result<Token<'src>, LexError>>)
        requires
            self.wf(),
        ensures
            items_view(items@) == self.remaining(),
    {
        let mut scanner = self;
        let mut items: Vec<Result<Token<'src>, LexError>> = Vec::new();
        loop
            invariant
                scanner.wf(),
                items_view(items@) + scanner.remaining() == self.remaining(),
            ensures
                items_view(items@) == self.remaining(),
            decreases scanner.remaining().len(),
        {
            match scanner.next() {
                Some(item) => {
                    items.push(item);
                },
                None => {
                    break ;
                },
            }
        }
        items
    }
}

} // verus!
