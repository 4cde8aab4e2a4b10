//! Characters, byte offsets and borrowed slices of UTF-8 text.
//!
//! Text is modelled as a sequence of characters. A position in it is a
//! character index; the byte offset that belongs to a position is the length
//! of the UTF-8 encoding of everything before it.

use vstd::prelude::*;
use vstd::string::*;
use vstd::utf8::*;

verus! {

/// The number of bytes that the first `i` characters of `s` occupy in UTF-8.
pub open spec fn byte_offset(s: Seq<char>, i: int) -> int {
    encode_utf8(s.subrange(0, i)).len() as int
}

/// The number of bytes in the UTF-8 encoding of `c`.
pub open spec fn char_width(c: char) -> int {
    encode_scalar(c as u32).len() as int
}

/// Encoding distributes over concatenation.
pub proof fn lemma_encode_concat(a: Seq<char>, b: Seq<char>)
    ensures
        encode_utf8(a + b) == encode_utf8(a) + encode_utf8(b),
    decreases a.len(),
{
    if a.len() == 0 {
    } else {
        lemma_encode_concat(a.drop_first(), b);
        assert((a + b).drop_first() =~= a.drop_first() + b);
    }
}

/// Two texts with the same encoding are the same text.
pub proof fn lemma_encode_injective(a: Seq<char>, b: Seq<char>)
    requires
        encode_utf8(a) == encode_utf8(b),
    ensures
        a == b,
{
    encode_utf8_decode_utf8(a);
    encode_utf8_decode_utf8(b);
}

/// The encoding of a text splits, at the byte offset of a position, into the
/// encodings of what lies before and behind that position.
pub proof fn lemma_encode_split(s: Seq<char>, i: int)
    requires
        0 <= i <= s.len(),
    ensures
        0 <= byte_offset(s, i) <= encode_utf8(s).len(),
        encode_utf8(s).subrange(0, byte_offset(s, i)) == encode_utf8(s.subrange(0, i)),
        encode_utf8(s).subrange(byte_offset(s, i), encode_utf8(s).len() as int) == encode_utf8(
            s.subrange(i, s.len() as int),
        ),
{
    let head = s.subrange(0, i);
    let tail = s.subrange(i, s.len() as int);
    assert(head + tail =~= s);
    lemma_encode_concat(head, tail);
    assert(encode_utf8(s).subrange(byte_offset(s, i), encode_utf8(s).len() as int)
        =~= encode_utf8(tail));
}

/// A byte offset grows by the width of the character passed.
pub proof fn lemma_byte_offset_step(s: Seq<char>, i: int)
    requires
        0 <= i < s.len(),
    ensures
        byte_offset(s, i + 1) == byte_offset(s, i) + char_width(s[i]),
{
    let head = s.subrange(0, i);
    let one = seq![s[i]];
    assert(head + one =~= s.subrange(0, i + 1));
    lemma_encode_concat(head, one);
    reveal_with_fuel(encode_utf8, 2);
}

/// Byte offsets start at zero and end at the length of the encoding.
pub proof fn lemma_byte_offset_ends(s: Seq<char>)
    ensures
        byte_offset(s, 0) == 0,
        byte_offset(s, s.len() as int) == encode_utf8(s).len(),
{
    assert(s.subrange(0, s.len() as int) =~= s);
}

/// Byte offsets grow with positions, by at least one byte for each character.
pub proof fn lemma_byte_offset_monotone(s: Seq<char>, i: int, j: int)
    requires
        0 <= i <= j <= s.len(),
    ensures
        byte_offset(s, i) + (j - i) <= byte_offset(s, j),
        byte_offset(s, j) <= encode_utf8(s).len(),
    decreases j - i,
{
    lemma_encode_split(s, j);
    if i < j {
        lemma_byte_offset_monotone(s, i, j - 1);
        lemma_byte_offset_step(s, j - 1);
    }
}

/// The bytes between the offsets of two positions encode the characters
/// between the positions.
pub proof fn lemma_encode_subrange(s: Seq<char>, i: int, j: int)
    requires
        0 <= i <= j <= s.len(),
    ensures
        byte_offset(s, i) <= byte_offset(s, j) <= encode_utf8(s).len(),
        encode_utf8(s).subrange(byte_offset(s, i), byte_offset(s, j)) == encode_utf8(
            s.subrange(i, j),
        ),
{
    lemma_encode_split(s, j);
    let front = s.subrange(0, j);
    assert(front.subrange(0, i) =~= s.subrange(0, i));
    assert(front.subrange(i, j) =~= s.subrange(i, j));
    lemma_encode_split(front, i);
    assert(encode_utf8(s).subrange(byte_offset(s, i), byte_offset(s, j)) =~= encode_utf8(
        front,
    ).subrange(byte_offset(front, i), encode_utf8(front).len() as int));
}

/// The byte offset of every position is a character boundary of the encoding.
pub proof fn lemma_offset_is_boundary(s: Seq<char>, i: int)
    requires
        0 <= i <= s.len(),
    ensures
        is_char_boundary(encode_utf8(s), byte_offset(s, i)),
    decreases i,
{
    let bytes = encode_utf8(s);
    encode_utf8_valid_utf8(s);
    if i > 0 {
        let rest = s.drop_first();
        encode_utf8_first_scalar(s);
        assert(pop_first_scalar(bytes) =~= encode_utf8(rest));
        lemma_offset_is_boundary(rest, i - 1);
        // the offset of `i` in `s` is one character further than that of
        // `i - 1` in the rest
        let first = seq![s[0]];
        assert(first + rest.subrange(0, i - 1) =~= s.subrange(0, i));
        lemma_encode_concat(first, rest.subrange(0, i - 1));
        reveal_with_fuel(encode_utf8, 2);
    }
}

/// The first character of `s`, if it has one.
pub fn first_char(s: &str) -> (r: Option<char>)
    ensures
        r == (if s@.len() > 0 {
            Some(s@[0])
        } else {
            None
        }),
{
    broadcast use group_string_axioms;

    let mut it = s.chars();
    it.next()
}

/// The second character of `s`, if it has one.
pub fn second_char(s: &str) -> (r: Option<char>)
    ensures
        r == (if s@.len() > 1 {
            Some(s@[1])
        } else {
            None
        }),
{
    broadcast use group_string_axioms;

    let mut it = s.chars();
    let _ = it.next();
    it.next()
}

/// The number of bytes that `c` occupies in UTF-8.
pub fn utf8_width(c: char) -> (n: usize)
    ensures
        n == char_width(c),
        1 <= n <= 4,
{
    let v: u32 = c as u32;
    if v < 0x80 {
        1
    } else if v < 0x800 {
        2
    } else if v < 0x10000 {
        3
    } else {
        4
    }
}

/// The length of `s` in bytes.
pub fn byte_len(s: &str) -> (n: usize)
    ensures
        n == encode_utf8(s@).len(),
        n == byte_offset(s@, s@.len() as int),
{
    proof {
        lemma_byte_offset_ends(s@);
    }
    s.as_bytes().len()
}

/// The part of `s` between two positions, given by their byte offsets.
pub(crate) fn slice<'a>(s: &'a str, from: usize, to: usize, Ghost(i): Ghost<int>, Ghost(j): Ghost<int>) -> (r:
    &'a str)
    requires
        0 <= i <= j <= s@.len(),
        from == byte_offset(s@, i),
        to == byte_offset(s@, j),
    ensures
        r@ == s@.subrange(i, j),
{
    proof {
        lemma_offset_is_boundary(s@, j);
    }
    let (front, _) = s.split_at(to);
    proof {
        lemma_encode_split(s@, j);
        lemma_encode_injective(front@, s@.subrange(0, j));
        assert(s@.subrange(0, j).subrange(0, i) =~= s@.subrange(0, i));
        lemma_offset_is_boundary(front@, i);
    }
    let (_, r) = front.split_at(from);
    proof {
        lemma_encode_split(front@, i);
        lemma_encode_injective(r@, front@.subrange(i, j));
    }
    r
}

/// Whether two texts are the same, character for character.
pub fn same_text(a: &str, b: &str) -> (r: bool)
    ensures
        r == (a@ == b@),
{
    let x = a.as_bytes();
    let y = b.as_bytes();
    if x.len() != y.len() {
        return false;
    }
    let mut k: usize = 0;
    while k < x.len()
        invariant
            x@.len() == y@.len(),
            x@ == encode_utf8(a@),
            y@ == encode_utf8(b@),
            0 <= k <= x@.len(),
            forall|j: int| 0 <= j < k ==> x@[j] == y@[j],
        decreases x@.len() - k,
    {
        if x[k] != y[k] {
            return false;
        }
        k += 1;
    }
    proof {
        assert(x@ =~= y@);
        lemma_encode_injective(a@, b@);
    }
    true
}

} // verus!
