//! What holds of every scan.

use crate::error::LexError;
use crate::grammar::{
    comment_at, digits_end, eof_unit, is_digit, is_ident_char, is_ident_start, is_keyword_kind,
    is_whitespace, item_of, items_from, keyword, lemma_digits_end, lemma_ident_end,
    lemma_quote_at, lemma_trivia_end_bounds, lemma_unit_bounds, scan, trivia_end, unit_at,
    units_from, word_kind, Item, Unit,
};
use crate::scanner::Scanner;
use crate::text::{lemma_byte_offset_ends, lemma_encode_subrange};
use crate::token::{TokenKind, TokenView};
use vstd::prelude::*;
use vstd::utf8::encode_utf8;

verus! {

/// The units of a scan of the whole source; `scan` yields their items.
pub open spec fn units(s: Seq<char>) -> Seq<Unit> {
    units_from(s, 0)
}

/// Whether an item is the `EOF` token.
pub open spec fn is_eof(item: Item) -> bool {
    item matches Ok(token) && token.kind == TokenKind::EOF
}

/// The text of the source that an item was made from: the lexeme of a token,
/// with the quotes around it for a string; the character that was not
/// expected. Of an unterminated string nothing is kept.
pub open spec fn spelling(item: Item) -> Seq<char> {
    match item {
        Ok(token) => if token.kind == TokenKind::String {
            seq!['"'] + token.lexeme + seq!['"']
        } else {
            token.lexeme
        },
        Err(LexError::UnexpectedCharacter(c)) => seq![c],
        Err(LexError::UnterminatedString) => Seq::empty(),
    }
}

/// The text that the items spell when the whitespace and comments that the
/// source holds before each of them are put back, starting at position `from`.
pub open spec fn reassemble(s: Seq<char>, items: Seq<Item>, from: int) -> Seq<char>
    decreases items.len(),
{
    if items.len() == 0 {
        Seq::empty()
    } else {
        let j = trivia_end(s, from);
        let text = spelling(items[0]);
        s.subrange(from, j) + text + reassemble(s, items.drop_first(), j + text.len())
    }
}

/// Whether `text` is one or more digits, alone or followed by `.` and one or
/// more digits.
pub open spec fn is_decimal(text: Seq<char>) -> bool {
    let d = digits_end(text, 0);
    &&& d >= 1
    &&& d == text.len() || (d + 1 < text.len() && text[d] == '.' && digits_end(text, d + 1)
        == text.len())
}

/// Whether `text` is a letter or `_`, followed by letters, digits and `_`.
pub open spec fn is_word(text: Seq<char>) -> bool {
    &&& text.len() >= 1
    &&& is_ident_start(text[0])
    &&& forall|k: int| 0 <= k < text.len() ==> is_ident_char(#[trigger] text[k])
}

/// The place of each unit in a scan from `i`: the last one is the closing
/// `EOF`; every other one is the unit that begins at its start, where neither
/// whitespace nor a comment begins, and the next unit begins behind the
/// whitespace and comments that follow it.
pub proof fn lemma_unit_of_scan(s: Seq<char>, i: int, k: int)
    requires
        0 <= i <= s.len(),
        0 <= k < units_from(s, i).len(),
    ensures
        ({
            let all = units_from(s, i);
            let unit = all[k];
            &&& items_from(s, i).len() == all.len()
            &&& items_from(s, i)[k] == item_of(s, unit)
            &&& i <= unit.start <= unit.end <= s.len()
            &&& k == 0 ==> unit.start == trivia_end(s, i)
            &&& k == all.len() - 1 ==> unit == eof_unit(s)
            &&& k < all.len() - 1 ==> {
                &&& unit.start < s.len()
                &&& unit == unit_at(s, unit.start)
                &&& !is_whitespace(s[unit.start])
                &&& !comment_at(s, unit.start)
                &&& all[k + 1].start == trivia_end(s, unit.end)
            }
        }),
    decreases s.len() - i,
{
    lemma_trivia_end_bounds(s, i);
    let j = trivia_end(s, i);
    if j < s.len() {
        let first = unit_at(s, j);
        lemma_unit_bounds(s, j);
        if k == 0 {
            lemma_unit_of_scan(s, first.end, 0);
        } else {
            lemma_unit_of_scan(s, first.end, k - 1);
        }
    }
}

/// Every scan yields the `EOF` token exactly once, as its last item. That
/// token has an empty lexeme and stands at the end of the source.
pub proof fn law_one_eof_at_the_end(s: Seq<char>)
    ensures
        scan(s).len() >= 1,
        scan(s).last() == Ok::<TokenView, LexError>(
            TokenView {
                kind: TokenKind::EOF,
                lexeme: Seq::empty(),
                offset: encode_utf8(s).len() as int,
            },
        ),
        forall|k: int| 0 <= k < scan(s).len() - 1 ==> !is_eof(#[trigger] scan(s)[k]),
{
    lemma_unit_of_scan(s, 0, scan(s).len() - 1);
    lemma_byte_offset_ends(s);
    assert(s.subrange(s.len() as int, s.len() as int) =~= Seq::<char>::empty());
    assert forall|k: int| 0 <= k < scan(s).len() - 1 implies !is_eof(#[trigger] scan(s)[k]) by {
        lemma_unit_of_scan(s, 0, k);
    }
}

/// The lexeme of every token is a piece of the source: its bytes are those
/// of the source from the token's offset on, behind the opening quote for a
/// string. The lexeme of a token other than `EOF` and a string is not empty.
pub proof fn law_lexeme_is_in_source(s: Seq<char>, k: int)
    requires
        0 <= k < scan(s).len(),
        scan(s)[k] is Ok,
    ensures
        ({
            let token = scan(s)[k]->Ok_0;
            let bytes = encode_utf8(s);
            let at = token.offset + if token.kind == TokenKind::String {
                1int
            } else {
                0int
            };
            &&& 0 <= token.offset <= at
            &&& at + encode_utf8(token.lexeme).len() <= bytes.len()
            &&& bytes.subrange(at, at + encode_utf8(token.lexeme).len()) == encode_utf8(
                token.lexeme,
            )
            &&& token.kind != TokenKind::EOF && token.kind != TokenKind::String
                ==> token.lexeme.len() > 0
        }),
{
    lemma_unit_of_scan(s, 0, k);
    let unit = units(s)[k];
    if k < units(s).len() - 1 {
        lemma_unit_bounds(s, unit.start);
    }
    lemma_encode_subrange(s, unit.start, unit.lexeme_start());
    lemma_encode_subrange(s, unit.lexeme_start(), unit.lexeme_end());
    if unit.lexeme_start() == unit.start + 1 {
        // the opening quote is one byte
        reveal_with_fuel(encode_utf8, 2);
    }
}

/// The text between two positions is what the units between them spell, as
/// long as no string is left open.
proof fn lemma_reassemble(s: Seq<char>, i: int)
    requires
        0 <= i <= s.len(),
        forall|k: int|
            0 <= k < items_from(s, i).len() ==> #[trigger] items_from(s, i)[k] != Err::<
                TokenView,
                LexError,
            >(LexError::UnterminatedString),
    ensures
        reassemble(s, items_from(s, i), i) == s.subrange(i, s.len() as int),
    decreases s.len() - i,
{
    lemma_trivia_end_bounds(s, i);
    let j = trivia_end(s, i);
    let items = items_from(s, i);
    if j < s.len() {
        let unit = unit_at(s, j);
        lemma_unit_bounds(s, j);
        lemma_quote_at(s, j + 1);
        let rest = items_from(s, unit.end);
        assert(items.drop_first() =~= rest);
        assert forall|k: int| 0 <= k < rest.len() implies #[trigger] rest[k] != Err::<
            TokenView,
            LexError,
        >(LexError::UnterminatedString) by {}
        lemma_reassemble(s, unit.end);
        assert(s.subrange(i, j) + s.subrange(j, unit.end) + s.subrange(unit.end, s.len() as int)
            =~= s.subrange(i, s.len() as int));
    } else {
        assert(reassemble(s, items.drop_first(), j) =~= Seq::<char>::empty());
        assert(s.subrange(i, j) + Seq::<char>::empty() + Seq::<char>::empty() =~= s.subrange(
            i,
            s.len() as int,
        ));
    }
}

/// Nothing of the source is lost or doubled: the lexemes of a scan in which
/// no string is left open, each behind the whitespace and comments that the
/// source holds before it, spell the source. A string is taken with its two
/// quotes, an unexpected character as itself.
pub proof fn law_scan_spells_source(s: Seq<char>)
    requires
        forall|k: int|
            0 <= k < scan(s).len() ==> #[trigger] scan(s)[k] != Err::<TokenView, LexError>(
                LexError::UnterminatedString,
            ),
    ensures
        reassemble(s, scan(s), 0) == s,
{
    assert forall|k: int| 0 <= k < items_from(s, 0).len() implies #[trigger] items_from(s, 0)[k]
        != Err::<TokenView, LexError>(LexError::UnterminatedString) by {
        assert(scan(s)[k] != Err::<TokenView, LexError>(LexError::UnterminatedString));
    }
    lemma_reassemble(s, 0);
}

/// Two scanners that stand at the same place in the same source have the
/// same items left to yield; two fresh ones yield the scan of their source.
pub proof fn law_rescan_yields_the_same(a: Scanner<'_>, b: Scanner<'_>)
    requires
        a.source() == b.source(),
        a.position() == b.position(),
        a.finished() == b.finished(),
    ensures
        a.remaining() == b.remaining(),
        a.position() == 0 && !a.finished() ==> a.remaining() == scan(a.source()),
{
}

/// A number is never malformed: its lexeme is one or more digits, alone or
/// followed by `.` and one or more digits. It takes every digit it can: no
/// digit follows it, nor, where it has no fraction, a `.` with a digit behind
/// it.
pub proof fn law_number_is_decimal(s: Seq<char>, k: int)
    requires
        0 <= k < scan(s).len(),
        scan(s)[k] matches Ok(token) && token.kind == TokenKind::Number,
    ensures
        ({
            let token = scan(s)[k]->Ok_0;
            let unit = units(s)[k];
            &&& is_decimal(token.lexeme)
            &&& token.lexeme == s.subrange(unit.start, unit.end)
            &&& unit.end < s.len() ==> !is_digit(s[unit.end])
            &&& digits_end(token.lexeme, 0) == token.lexeme.len() && unit.end + 1 < s.len()
                && s[unit.end] == '.' ==> !is_digit(s[unit.end + 1])
        }),
{
    lemma_unit_of_scan(s, 0, k);
    let unit = units(s)[k];
    let j = unit.start;
    lemma_digits_end(s, j + 1);
    let d = digits_end(s, j + 1);
    let text = s.subrange(j, unit.end);
    if d + 1 < s.len() && s[d] == '.' && is_digit(s[d + 1]) {
        lemma_digits_end(s, d + 2);
        assert forall|k: int| 0 <= k < d - j implies is_digit(#[trigger] text[k]) by {}
        assert forall|k: int| d + 1 - j <= k < unit.end - j implies is_digit(
            #[trigger] text[k],
        ) by {}
        lemma_digits_end_of_run(text, 0, d - j);
        lemma_digits_end_of_run(text, d + 1 - j, unit.end - j);
    } else {
        assert forall|k: int| 0 <= k < d - j implies is_digit(#[trigger] text[k]) by {}
        lemma_digits_end_of_run(text, 0, d - j);
    }
}

/// A stretch of digits that is followed by no digit ends where it ends.
proof fn lemma_digits_end_of_run(t: Seq<char>, from: int, to: int)
    requires
        0 <= from <= to <= t.len(),
        forall|k: int| from <= k < to ==> is_digit(#[trigger] t[k]),
        to < t.len() ==> !is_digit(t[to]),
    ensures
        digits_end(t, from) == to,
    decreases to - from,
{
    if from < to {
        lemma_digits_end_of_run(t, from + 1, to);
    }
}

/// A name is never cut short: the lexeme of an identifier or a keyword is a
/// letter or `_` followed by letters, digits and `_`, and no such character
/// follows it. It is a keyword exactly when the whole lexeme is a reserved
/// word.
pub proof fn law_word_is_whole(s: Seq<char>, k: int)
    requires
        0 <= k < scan(s).len(),
        scan(s)[k] matches Ok(token) && (token.kind == TokenKind::Identifier || is_keyword_kind(
            token.kind,
        )),
    ensures
        ({
            let token = scan(s)[k]->Ok_0;
            let unit = units(s)[k];
            &&& is_word(token.lexeme)
            &&& token.lexeme == s.subrange(unit.start, unit.end)
            &&& unit.end < s.len() ==> !is_ident_char(s[unit.end])
            &&& token.kind == word_kind(token.lexeme)
            &&& is_keyword_kind(token.kind) <==> keyword(token.lexeme) is Some
        }),
{
    lemma_unit_of_scan(s, 0, k);
    let unit = units(s)[k];
    let j = unit.start;
    lemma_ident_end(s, j + 1);
}

} // verus!
