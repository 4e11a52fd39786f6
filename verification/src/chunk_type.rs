//! The four-byte type code of a PNG chunk.
use crate::text::push_char;
use std::str::FromStr;
use vstd::prelude::*;
use vstd::std_specs::cmp::PartialEqSpecImpl;
use vstd::std_specs::convert::TryFromSpecImpl;

verus! {

/// Why a text is not a chunk type code.
#[derive(Debug, Clone, Copy, PartialEq, Eq, Structural)]
pub enum ChunkTypeError {
    /// The text is not exactly four ASCII letters.
    InvalidTypeString,
}

/// A chunk type code: four bytes, stored as they are.
///
/// Bit 5 of each byte carries one property of the chunk. For a letter that
/// bit is the case of the letter: clear for upper case, set for lower case.
#[derive(Debug, Clone, Copy)]
pub struct ChunkType {
    pub bytes: [u8; 4],
}

impl View for ChunkType {
    type V = Seq<u8>;

    open spec fn view(&self) -> Seq<u8> {
        self.bytes@
    }
}

/// `b` is an ASCII letter, `A` to `Z` or `a` to `z`.
pub open spec fn is_letter(b: u8) -> bool {
    (0x41 <= b <= 0x5a) || (0x61 <= b <= 0x7a)
}

/// Bit 5 of `b` is 0.
pub open spec fn bit5_clear(b: u8) -> bool {
    b & 0x20 == 0
}

/// All four bytes of a type code are ASCII letters.
pub open spec fn all_letters(code: Seq<u8>) -> bool {
    forall|i: int| 0 <= i < 4 ==> is_letter(#[trigger] code[i])
}

/// A type code that a conforming PNG file may carry: four ASCII letters, the
/// third of them with bit 5 clear.
pub open spec fn valid_code(code: Seq<u8>) -> bool {
    all_letters(code) && bit5_clear(code[2])
}

/// `c` is an ASCII letter.
pub open spec fn is_letter_char(c: char) -> bool {
    ('A' <= c <= 'Z') || ('a' <= c <= 'z')
}

/// A text that names a type code: exactly four characters, all of them ASCII
/// letters.
pub open spec fn is_code_text(text: Seq<char>) -> bool {
    text.len() == 4 && forall|i: int| 0 <= i < 4 ==> is_letter_char(#[trigger] text[i])
}

/// The text of a type code: each byte read as the character with that
/// number. It always has four characters.
pub open spec fn code_text(code: Seq<u8>) -> Seq<char> {
    Seq::new(4, |i: int| code[i] as char)
}

/// The type code that a text names: each character's number as a byte.
pub open spec fn text_code(text: Seq<char>) -> Seq<u8> {
    Seq::new(4, |i: int| text[i] as u8)
}

fn byte_is_letter(b: u8) -> (r: bool)
    ensures
        r == is_letter(b),
{
    (0x41 <= b && b <= 0x5a) || (0x61 <= b && b <= 0x7a)
}

fn byte_bit5_clear(b: u8) -> (r: bool)
    ensures
        r == bit5_clear(b),
{
    b & 0x20 == 0
}

impl ChunkType {
    /// The four bytes of the code.
    pub fn bytes(&self) -> (r: [u8; 4])
        ensures
            r == self.bytes,
    {
        self.bytes
    }

    /// The code as a text of four characters, each byte read as the
    /// character with that number. A code that is not made of letters may
    /// give a text that does not print.
    pub fn to_string(&self) -> (r: String)
        ensures
            r@ == code_text(self@),
    {
        let mut r = String::new();
        push_char(&mut r, self.bytes[0] as char);
        push_char(&mut r, self.bytes[1] as char);
        push_char(&mut r, self.bytes[2] as char);
        push_char(&mut r, self.bytes[3] as char);
        assert(r@ =~= code_text(self@));
        r
    }

    /// Whether the code is four ASCII letters with the reserved bit clear.
    pub fn is_valid(&self) -> (r: bool)
        ensures
            r == valid_code(self@),
    {
        byte_is_letter(self.bytes[0]) && byte_is_letter(self.bytes[1]) && byte_is_letter(
            self.bytes[2],
        ) && byte_is_letter(self.bytes[3]) && self.is_reserved_bit_valid()
    }

    /// Whether a decoder must understand the chunk: bit 5 of byte 0 is 0.
    pub fn is_critical(&self) -> (r: bool)
        ensures
            r == bit5_clear(self@[0]),
    {
        byte_bit5_clear(self.bytes[0])
    }

    /// Whether the chunk is publicly defined: bit 5 of byte 1 is 0.
    pub fn is_public(&self) -> (r: bool)
        ensures
            r == bit5_clear(self@[1]),
    {
        byte_bit5_clear(self.bytes[1])
    }

    /// Whether the reserved bit, bit 5 of byte 2, is 0 as PNG demands.
    pub fn is_reserved_bit_valid(&self) -> (r: bool)
        ensures
            r == bit5_clear(self@[2]),
    {
        byte_bit5_clear(self.bytes[2])
    }

    /// Whether an editor that does not know the chunk may copy it: bit 5 of
    /// byte 3 is 1.
    pub fn is_safe_to_copy(&self) -> (r: bool)
        ensures
            r == !bit5_clear(self@[3]),
    {
        !byte_bit5_clear(self.bytes[3])
    }
}

impl TryFrom<[u8; 4]> for ChunkType {
    type Error = ChunkTypeError;

    /// The type code with the given bytes. No byte is refused: a code read
    /// from a file is kept as it is, and `is_valid` tells whether it conforms.
    fn try_from(bytes: [u8; 4]) -> (r: Result<ChunkType, ChunkTypeError>)
        ensures
            r == Ok::<ChunkType, ChunkTypeError>(ChunkType { bytes }),
    {
        Ok(ChunkType { bytes })
    }
}

impl TryFromSpecImpl<[u8; 4]> for ChunkType {
    open spec fn obeys_try_from_spec() -> bool {
        true
    }

    open spec fn try_from_spec(bytes: [u8; 4]) -> Result<Self, Self::Error> {
        Ok(ChunkType { bytes })
    }
}

impl FromStr for ChunkType {
    type Err = ChunkTypeError;

    /// The type code that a text names. The text must be four ASCII letters;
    /// the reserved bit is not looked at.
    fn from_str(s: &str) -> (r: Result<ChunkType, ChunkTypeError>)
        ensures
            r is Ok <==> is_code_text(s@),
            r matches Ok(t) ==> t@ == text_code(s@) && code_text(t@) == s@ && all_letters(t@),
    {
        if !s.is_ascii() {
            proof {
                if is_code_text(s@) {
                    assert forall|i: int| 0 <= i < s@.len() implies '\0' <= #[trigger] s@[i]
                        <= '\u{7f}' by {
                        assert(is_letter_char(s@[i]));
                    }
                }
            }
            return Err(ChunkTypeError::InvalidTypeString);
        }
        let raw = s.as_bytes();
        proof {
            vstd::utf8::is_ascii_chars_encode_utf8(s@);
        }
        if raw.len() != 4 {
            return Err(ChunkTypeError::InvalidTypeString);
        }
        let bytes = [raw[0], raw[1], raw[2], raw[3]];
        if !(byte_is_letter(bytes[0]) && byte_is_letter(bytes[1]) && byte_is_letter(bytes[2])
            && byte_is_letter(bytes[3])) {
            return Err(ChunkTypeError::InvalidTypeString);
        }
        let t = ChunkType { bytes };
        assert(t@ =~= text_code(s@));
        assert(code_text(t@) =~= s@);
        Ok(t)
    }
}

impl PartialEq for ChunkType {
    /// Two type codes are equal when their bytes are.
    fn eq(&self, other: &Self) -> (r: bool) {
        let r = self.bytes[0] == other.bytes[0] && self.bytes[1] == other.bytes[1] && self.bytes[2]
            == other.bytes[2] && self.bytes[3] == other.bytes[3];
        assert(r == (self@ =~= other@));
        r
    }
}

impl PartialEqSpecImpl for ChunkType {
    open spec fn obeys_eq_spec() -> bool {
        true
    }

    open spec fn eq_spec(&self, other: &Self) -> bool {
        self@ == other@
    }
}

impl Eq for ChunkType {

}

/// For a letter, bit 5 is the case: it is 0 exactly for an upper-case letter
/// and 1 exactly for a lower-case one.
pub proof fn lemma_bit5_is_case(b: u8)
    requires
        is_letter(b),
    ensures
        bit5_clear(b) <==> 0x41 <= b <= 0x5a,
        !bit5_clear(b) <==> 0x61 <= b <= 0x7a,
{
    assert(((0x41 <= b <= 0x5a) || (0x61 <= b <= 0x7a)) ==> ((b & 0x20 == 0) <==> (0x41 <= b
        <= 0x5a))) by (bit_vector);
}

} // verus!
