//! Walking over a string slice one character at a time.
//!
//! A [`Source`] is a `&str` seen both as characters and as UTF-8 bytes, and a [`Mark`]
//! is a place in it: the index of a character together with the number of bytes before
//! that character. Stepping from mark to mark only looks at the first byte of each
//! character, and [`Source::slice`] borrows the stretch between two marks without
//! decoding anything.
//!
//! All contracts are stated over the characters of the text, `text@`; the bytes only
//! appear in the lemmas that justify them.

use vstd::prelude::*;
use vstd::string::*;
use vstd::utf8::*;

verus! {

broadcast use vstd::string::group_string_axioms;

/// Number of bytes that the UTF-8 encoding of `c` takes.
pub open spec fn utf8_width(c: char) -> int {
    encode_scalar(c as u32).len() as int
}

/// Number of bytes that come before the `k`-th character of `chars` in the UTF-8
/// encoding of `chars`.
pub open spec fn byte_offset(chars: Seq<char>, k: int) -> int {
    encode_utf8(chars.take(k)).len() as int
}

/// Encoding a concatenation is concatenating the encodings.
pub proof fn lemma_encode_concat(a: Seq<char>, b: Seq<char>)
    ensures
        encode_utf8(a + b) == encode_utf8(a) + encode_utf8(b),
    decreases a.len(),
{
    if a.len() > 0 {
        assert((a + b).drop_first() =~= a.drop_first() + b);
        lemma_encode_concat(a.drop_first(), b);
    }
}

/// The encoding of a text of one character.
pub proof fn lemma_encode_one(c: char)
    ensures
        encode_utf8(seq![c]) == encode_scalar(c as u32),
{
    reveal_with_fuel(encode_utf8, 2);
}

/// A text has at most as many characters as bytes.
pub proof fn lemma_encode_len(chars: Seq<char>)
    ensures
        chars.len() <= encode_utf8(chars).len(),
    decreases chars.len(),
{
    if chars.len() > 0 {
        lemma_encode_len(chars.drop_first());
    }
}

/// The encoding of a text is the encoding of its first `k` characters followed by
/// the encoding of the others.
pub proof fn lemma_encode_split(chars: Seq<char>, k: int)
    requires
        0 <= k <= chars.len(),
    ensures
        encode_utf8(chars) == encode_utf8(chars.take(k)) + encode_utf8(chars.skip(k)),
        k <= byte_offset(chars, k) <= encode_utf8(chars).len(),
{
    assert(chars =~= chars.take(k) + chars.skip(k));
    lemma_encode_concat(chars.take(k), chars.skip(k));
    lemma_encode_len(chars.take(k));
}

/// The offsets of the first and of the one-past-the-last character.
pub proof fn lemma_offset_ends(chars: Seq<char>)
    ensures
        byte_offset(chars, 0) == 0,
        byte_offset(chars, chars.len() as int) == encode_utf8(chars).len(),
{
    assert(chars.take(chars.len() as int) =~= chars);
}

/// Stepping over one character moves the offset by that character's width.
pub proof fn lemma_offset_step(chars: Seq<char>, k: int)
    requires
        0 <= k < chars.len(),
    ensures
        byte_offset(chars, k + 1) == byte_offset(chars, k) + utf8_width(chars[k]),
        1 <= utf8_width(chars[k]) <= 4,
{
    let one = seq![chars[k]];
    assert(chars.take(k + 1) =~= chars.take(k) + one);
    lemma_encode_concat(chars.take(k), one);
    lemma_encode_one(chars[k]);
}

/// Offsets grow with the index.
pub proof fn lemma_offset_monotonic(chars: Seq<char>, a: int, b: int)
    requires
        0 <= a <= b <= chars.len(),
    ensures
        byte_offset(chars, a) <= byte_offset(chars, b),
        byte_offset(chars.take(b), a) == byte_offset(chars, a),
{
    assert(chars.take(b).take(a) =~= chars.take(a));
    lemma_encode_split(chars.take(b), a);
}

/// The offset of every character, and the length of the encoding, is a place where the
/// encoding may be cut.
pub proof fn lemma_offset_is_boundary(chars: Seq<char>, k: int)
    requires
        0 <= k <= chars.len(),
    ensures
        is_char_boundary(encode_utf8(chars), byte_offset(chars, k)),
    decreases k,
{
    let bytes = encode_utf8(chars);
    encode_utf8_valid_utf8(chars);
    if k > 0 {
        let tail = chars.drop_first();
        encode_utf8_first_scalar(chars);
        assert(pop_first_scalar(bytes) =~= encode_utf8(tail));
        assert(chars.take(k).drop_first() =~= tail.take(k - 1));
        lemma_offset_is_boundary(tail, k - 1);
    }
}

/// A text whose encoding is the stretch of the encoding of `chars` between the offsets
/// of two characters is the stretch of `chars` between these characters.
pub proof fn lemma_stretch(chars: Seq<char>, a: int, b: int, piece: Seq<char>)
    requires
        0 <= a <= b <= chars.len(),
        encode_utf8(piece) == encode_utf8(chars).subrange(
            byte_offset(chars, a),
            byte_offset(chars, b),
        ),
    ensures
        piece == chars.subrange(a, b),
{
    let middle = chars.subrange(a, b);
    lemma_encode_split(chars, b);
    assert(chars.take(b) =~= chars.take(a) + middle);
    lemma_encode_concat(chars.take(a), middle);
    assert(encode_utf8(chars).subrange(byte_offset(chars, a), byte_offset(chars, b))
        =~= encode_utf8(middle));
    encode_utf8_decode_utf8(piece);
    encode_utf8_decode_utf8(middle);
}

/// Tells whether two string slices hold the same characters.
pub fn same_text(a: &str, b: &str) -> (same: bool)
    ensures
        same == (a@ == b@),
{
    let x = a.as_bytes();
    let y = b.as_bytes();
    proof {
        encode_utf8_decode_utf8(a@);
        encode_utf8_decode_utf8(b@);
    }
    if x.len() != y.len() {
        return false;
    }
    let mut i: usize = 0;
    while i < x.len()
        invariant
            i <= x.len() == y.len(),
            x@ == encode_utf8(a@),
            y@ == encode_utf8(b@),
            forall|j: int| 0 <= j < i ==> x@[j] == y@[j],
        decreases x.len() - i,
    {
        if x[i] != y[i] {
            return false;
        }
        i = i + 1;
    }
    assert(x@ =~= y@);
    true
}

/// The first byte of the UTF-8 encoding of `c`.
pub open spec fn first_byte(c: char) -> u8 {
    encode_scalar(c as u32)[0]
}

/// The first byte of a character tells a character below 128 from the others, and
/// is that character where it is below 128.
pub proof fn lemma_first_byte(c: char)
    ensures
        first_byte(c) < 0x80 <==> (c as u32) < 0x80,
        first_byte(c) < 0x80 ==> first_byte(c) as char == c,
        1 <= utf8_width(c) <= 4,
        utf8_width(c) == if first_byte(c) < 0x80 {
            1int
        } else if first_byte(c) < 0xE0 {
            2int
        } else if first_byte(c) < 0xF0 {
            3int
        } else {
            4int
        },
{
    let one = seq![c];
    let bytes = encode_utf8(one);
    encode_utf8_first_scalar(one);
    let b = bytes[0];
    if b < 0x80 {
        assert(b & 0x7F == b) by (bit_vector)
            requires
                b < 0x80,
        ;
    }
}

/// A place in a text: the index of a character, or the length of the text, together
/// with the number of bytes before it.
#[derive(Clone, Copy)]
pub struct Mark {
    index: usize,
    offset: usize,
}

impl Mark {
    /// The index of the character that the mark stands on.
    pub closed spec fn at(self) -> int {
        self.index as int
    }

    /// Whether the mark is a place in `chars`.
    pub closed spec fn within(self, chars: Seq<char>) -> bool {
        &&& self.index <= chars.len()
        &&& self.offset == byte_offset(chars, self.index as int)
    }

    /// The index of the character that the mark stands on.
    pub fn index(&self) -> (i: usize)
        ensures
            i == self.at(),
    {
        self.index
    }
}

/// A string slice together with its bytes.
pub struct Source<'a> {
    text: &'a str,
    bytes: &'a [u8],
}

impl<'a> Source<'a> {
    /// The characters of the text.
    pub closed spec fn chars(&self) -> Seq<char> {
        self.text@
    }

    /// The bytes are those of the text.
    pub closed spec fn wf(&self) -> bool {
        self.bytes@ == encode_utf8(self.text@)
    }

    /// The text `text`, ready to be walked over.
    pub fn new(text: &'a str) -> (source: Self)
        ensures
            source.wf(),
            source.chars() == text@,
    {
        Source { text, bytes: text.as_bytes() }
    }

    /// A place in the text lies between its first character and its end.
    pub proof fn lemma_mark_bounds(&self, m: Mark)
        requires
            m.within(self.chars()),
        ensures
            0 <= m.at() <= self.chars().len(),
    {
    }

    /// The place of the first character.
    pub fn start(&self) -> (m: Mark)
        ensures
            m.within(self.chars()),
            m.at() == 0,
    {
        Mark { index: 0, offset: 0 }
    }

    /// The first byte of the character at `m`, or `None` where `m` is the end of the
    /// text.
    pub fn peek(&self, m: Mark) -> (b: Option<u8>)
        requires
            self.wf(),
            m.within(self.chars()),
        ensures
            0 <= m.at() <= self.chars().len(),
            b == if m.at() < self.chars().len() {
                Some(first_byte(self.chars()[m.at()]))
            } else {
                None
            },
            b matches Some(byte) ==> if byte < 0x80 {
                self.chars()[m.at()] == byte as char
            } else {
                self.chars()[m.at()] as u32 >= 0x80
            },
    {
        let ghost chars = self.text@;
        let ghost i = m.index as int;
        proof {
            lemma_encode_split(chars, i);
            if i < chars.len() {
                lemma_first_byte(chars[i]);
            }
        }
        if m.offset < self.bytes.len() {
            Some(self.bytes[m.offset])
        } else {
            None
        }
    }

    /// Whether the character at `m` is the one with the code `code`, for a code below
    /// 128. At the end of the text there is no character.
    pub fn holds(&self, m: Mark, code: u8) -> (found: bool)
        requires
            self.wf(),
            m.within(self.chars()),
            code < 0x80,
        ensures
            0 <= m.at() <= self.chars().len(),
            found == (m.at() < self.chars().len() && self.chars()[m.at()] == code as char),
    {
        match self.peek(m) {
            Some(b) => b == code,
            None => false,
        }
    }

    /// The place of the character after the one at `m`.
    pub fn next(&self, m: Mark) -> (n: Mark)
        requires
            self.wf(),
            m.within(self.chars()),
            m.at() < self.chars().len(),
        ensures
            n.within(self.chars()),
            n.at() == m.at() + 1,
    {
        let ghost chars = self.text@;
        let ghost i = m.index as int;
        proof {
            lemma_first_byte(chars[i]);
            lemma_offset_step(chars, i);
            lemma_encode_split(chars, i + 1);
        }
        assert(self.bytes@.len() == self.bytes.len());
        let b = match self.peek(m) {
            Some(b) => b,
            None => 0,
        };
        let w: usize = if b < 0x80 {
            1
        } else if b < 0xE0 {
            2
        } else if b < 0xF0 {
            3
        } else {
            4
        };
        Mark { index: m.index + 1, offset: m.offset + w }
    }

    /// The stretch of the text from `from` up to, and without, `to`.
    pub fn slice(&self, from: Mark, to: Mark) -> (piece: &'a str)
        requires
            self.wf(),
            from.within(self.chars()),
            to.within(self.chars()),
            from.at() <= to.at(),
        ensures
            piece@ == self.chars().subrange(from.at(), to.at()),
    {
        let ghost chars = self.text@;
        let ghost a = from.index as int;
        let ghost b = to.index as int;
        proof {
            lemma_offset_is_boundary(chars, b);
            lemma_offset_monotonic(chars, a, b);
            lemma_encode_split(chars, b);
            lemma_offset_is_boundary(chars.take(b), a);
        }
        let (front, _) = self.text.split_at(to.offset);
        proof {
            assert(encode_utf8(chars).subrange(0, byte_offset(chars, b)) =~= encode_utf8(
                chars.take(b),
            ));
        }
        let (_, piece) = front.split_at(from.offset);
        proof {
            lemma_offset_ends(chars.take(b));
            lemma_stretch(chars.take(b), a, b, piece@);
        }
        piece
    }
}

} // verus!
