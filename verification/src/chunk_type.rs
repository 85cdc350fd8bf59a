//! The four-letter type of a chunk and the flags that its letters' case
//! encodes.

use std::str::FromStr;
use vstd::prelude::*;
use vstd::std_specs::convert::TryFromSpecImpl;
use vstd::string::StringSliceAdditionalSpecFns;

use crate::text::{ascii_to_string, lemma_ascii_is_utf8, lemma_text_of_encoding, text_of};

verus! {

/// The bit of a type byte that carries its flag. On a letter it is the bit
/// that tells lower case from upper case.
pub const CHECK_BIT: u8 = 32;

/// Why a chunk type could not be made.
#[derive(PartialEq, Eq, Structural, Debug, Clone, Copy)]
pub enum ChunkTypeError {
    /// The text is not exactly four bytes long.
    BytesLengthError,
    /// One of the four bytes is not an ASCII letter.
    NotASCIILetters,
}

/// `b` is one of `A`-`Z` or `a`-`z`.
pub open spec fn is_ascii_letter(b: u8) -> bool {
    (0x41 <= b && b <= 0x5a) || (0x61 <= b && b <= 0x7a)
}

/// Every byte of `s` is an ASCII letter.
pub open spec fn all_ascii_letters(s: Seq<u8>) -> bool {
    forall|i: int| 0 <= i < s.len() ==> is_ascii_letter(#[trigger] s[i])
}

/// The flag bit of `b` is set.
pub open spec fn flag_set(b: u8) -> bool {
    b & CHECK_BIT != 0
}

/// The type bytes that `text` gives, or why it gives none: the text must
/// encode to four bytes, and they must be letters.
pub open spec fn type_of_text(text: Seq<char>) -> Result<Seq<u8>, ChunkTypeError> {
    let bytes = vstd::utf8::encode_utf8(text);
    if bytes.len() != 4 {
        Err(ChunkTypeError::BytesLengthError)
    } else if !all_ascii_letters(bytes) {
        Err(ChunkTypeError::NotASCIILetters)
    } else {
        Ok(bytes)
    }
}

/// A chunk type: four ASCII letters.
#[derive(PartialEq, Eq, Structural, Debug, Clone, Copy)]
pub struct ChunkType(u8, u8, u8, u8);

impl View for ChunkType {
    type V = Seq<u8>;

    /// The four bytes, in order.
    closed spec fn view(&self) -> Seq<u8> {
        seq![self.0, self.1, self.2, self.3]
    }
}

impl ChunkType {
    /// What holds of every chunk type: it has four bytes, all of them
    /// letters.
    #[verifier::type_invariant]
    pub open spec fn wf(self) -> bool {
        self@.len() == 4 && all_ascii_letters(self@)
    }

    /// The type is critical: the flag of the first byte is clear.
    pub open spec fn spec_is_critical(self) -> bool {
        !flag_set(self@[0])
    }

    /// The type is public: the flag of the second byte is clear.
    pub open spec fn spec_is_public(self) -> bool {
        !flag_set(self@[1])
    }

    /// The reserved bit is as the PNG specification wants it: the flag of
    /// the third byte is clear.
    pub open spec fn spec_is_reserved_bit_valid(self) -> bool {
        !flag_set(self@[2])
    }

    /// The chunk may be copied by editors that do not know it: the flag of
    /// the fourth byte is set.
    pub open spec fn spec_is_safe_to_copy(self) -> bool {
        flag_set(self@[3])
    }

    /// The type is valid: four letters, and the reserved bit is clear.
    pub open spec fn spec_is_valid(self) -> bool {
        self.spec_is_reserved_bit_valid() && all_ascii_letters(self@)
    }

    /// The four bytes of the type.
    pub fn bytes(&self) -> (r: [u8; 4])
        ensures
            r@ == self@,
    {
        let r: [u8; 4] = [self.0, self.1, self.2, self.3];
        assert(r@ =~= self@);
        r
    }

    /// Whether the type is valid: all four bytes are letters and the
    /// reserved bit is clear.
    pub fn is_valid(&self) -> (r: bool)
        ensures
            r == self.spec_is_valid(),
            r == self.spec_is_reserved_bit_valid(),
    {
        proof {
            use_type_invariant(self);
        }
        if !self.is_reserved_bit_valid() || !self.is_valid_ascii() {
            false
        } else {
            true
        }
    }

    /// Whether the chunk is critical, that is, whether the first letter is
    /// upper case.
    pub fn is_critical(&self) -> (r: bool)
        ensures
            r == self.spec_is_critical(),
            r == (0x41 <= self@[0] <= 0x5a),
    {
        proof {
            use_type_invariant(self);
            lemma_flag_is_case(self.0);
        }
        (self.0 & CHECK_BIT) == 0
    }

    /// Whether the chunk is public, that is, whether the second letter is
    /// upper case.
    pub fn is_public(&self) -> (r: bool)
        ensures
            r == self.spec_is_public(),
            r == (0x41 <= self@[1] <= 0x5a),
    {
        proof {
            use_type_invariant(self);
            lemma_flag_is_case(self.1);
        }
        (self.1 & CHECK_BIT) == 0
    }

    /// Whether the reserved bit is valid, that is, whether the third letter
    /// is upper case.
    pub fn is_reserved_bit_valid(&self) -> (r: bool)
        ensures
            r == self.spec_is_reserved_bit_valid(),
            r == (0x41 <= self@[2] <= 0x5a),
    {
        proof {
            use_type_invariant(self);
            lemma_flag_is_case(self.2);
        }
        (self.2 & CHECK_BIT) == 0
    }

    /// Whether the chunk is safe to copy, that is, whether the fourth letter
    /// is lower case.
    pub fn is_safe_to_copy(&self) -> (r: bool)
        ensures
            r == self.spec_is_safe_to_copy(),
            r == (0x61 <= self@[3] <= 0x7a),
    {
        proof {
            use_type_invariant(self);
            lemma_flag_is_case(self.3);
        }
        (self.3 & CHECK_BIT) > 0
    }

    /// Whether all four bytes are ASCII letters. Every chunk type that this
    /// crate hands out is made of letters, so the answer is always yes.
    pub fn is_valid_ascii(&self) -> (r: bool)
        ensures
            r == all_ascii_letters(self@),
            r,
    {
        proof {
            use_type_invariant(self);
        }
        let bytes = self.bytes();
        let mut i: usize = 0;
        while i < 4
            invariant
                i <= 4,
                bytes@.len() == 4,
                bytes@ == self@,
                all_ascii_letters(self@),
            decreases 4 - i,
        {
            if !is_letter(bytes[i]) {
                return false;
            }
            i += 1;
        }
        true
    }

    /// Makes a chunk type of four bytes. Fails with `NotASCIILetters`
    /// exactly when one of them is not a letter. A type whose reserved bit
    /// is set is made all the same: `is_valid` tells.
    pub fn from_bytes(value: [u8; 4]) -> (r: Result<ChunkType, ChunkTypeError>)
        ensures
            match r {
                Ok(t) => all_ascii_letters(value@) && t@ == value@,
                Err(e) => !all_ascii_letters(value@) && e == ChunkTypeError::NotASCIILetters,
            },
    {
        if is_letter(value[0]) && is_letter(value[1]) && is_letter(value[2]) && is_letter(
            value[3],
        ) {
            let t = ChunkType(value[0], value[1], value[2], value[3]);
            assert(t@ =~= value@);
            Ok(t)
        } else {
            Err(ChunkTypeError::NotASCIILetters)
        }
    }

    /// Makes a chunk type of a text. Fails with `BytesLengthError` exactly
    /// when the text is not four bytes long, and with `NotASCIILetters`
    /// exactly when it is, but one of the four is not a letter.
    pub fn from_text(s: &str) -> (r: Result<ChunkType, ChunkTypeError>)
        ensures
            match r {
                Ok(t) => s.spec_bytes().len() == 4 && all_ascii_letters(s.spec_bytes()) && t@
                    == s.spec_bytes() && s@ == text_of(t@),
                Err(ChunkTypeError::BytesLengthError) => s.spec_bytes().len() != 4,
                Err(ChunkTypeError::NotASCIILetters) => s.spec_bytes().len() == 4
                    && !all_ascii_letters(s.spec_bytes()),
            },
    {
        let value = s.as_bytes();
        if value.len() == 4 {
            let arr: [u8; 4] = [value[0], value[1], value[2], value[3]];
            assert(arr@ =~= value@);
            let r = ChunkType::from_bytes(arr);
            proof {
                if all_ascii_letters(arr@) {
                    lemma_text_of_encoding(s@);
                }
            }
            r
        } else {
            Err(ChunkTypeError::BytesLengthError)
        }
    }

    /// The type as text: each byte as the character with that code.
    pub fn to_string(&self) -> (r: String)
        ensures
            r@ == text_of(self@),
            r@.len() == 4,
    {
        proof {
            use_type_invariant(self);
        }
        let mut bytes: Vec<u8> = Vec::new();
        bytes.push(self.0);
        bytes.push(self.1);
        bytes.push(self.2);
        bytes.push(self.3);
        assert(bytes@ =~= self@);
        ascii_to_string(bytes)
    }

    /// Whether `text` is this type as text.
    pub fn is_text(&self, text: &str) -> (r: bool)
        ensures
            r == (text@ == text_of(self@)),
    {
        let bytes = text.as_bytes();
        let r = bytes.len() == 4 && bytes[0] == self.0 && bytes[1] == self.1 && bytes[2]
            == self.2 && bytes[3] == self.3;
        proof {
            use_type_invariant(self);
            if r {
                assert(text.spec_bytes() =~= self@);
                lemma_text_of_encoding(text@);
            }
            if text@ == text_of(self@) {
                lemma_ascii_is_utf8(self@);
                assert(text.spec_bytes() == self@);
            }
        }
        r
    }

    /// The chunk type with the first four bytes of `s`.
    pub closed spec fn of_bytes(s: Seq<u8>) -> ChunkType {
        ChunkType(s[0], s[1], s[2], s[3])
    }

    /// `of_bytes` gives the type whose view is the four bytes it was given.
    pub proof fn lemma_of_bytes(s: Seq<u8>)
        requires
            s.len() == 4,
        ensures
            Self::of_bytes(s)@ == s,
    {
        assert(Self::of_bytes(s)@ =~= s);
    }

    /// A chunk type has four bytes, and it is the only one with them.
    pub proof fn lemma_view(self)
        ensures
            self@.len() == 4,
            Self::of_bytes(self@) == self,
    {
    }

    /// Two chunk types with the same bytes are the same.
    pub proof fn lemma_view_injective(self, other: ChunkType)
        requires
            self@ == other@,
        ensures
            self == other,
    {
        self.lemma_view();
        other.lemma_view();
    }
}

impl TryFrom<[u8; 4]> for ChunkType {
    type Error = ChunkTypeError;

    /// As `ChunkType::from_bytes`.
    fn try_from(value: [u8; 4]) -> (r: Result<Self, Self::Error>)
        ensures
            match r {
                Ok(t) => all_ascii_letters(value@) && t@ == value@,
                Err(e) => !all_ascii_letters(value@) && e == ChunkTypeError::NotASCIILetters,
            },
    {
        let r = ChunkType::from_bytes(value);
        proof {
            if let Ok(t) = r {
                t.lemma_view();
            }
        }
        r
    }
}

impl TryFromSpecImpl<[u8; 4]> for ChunkType {
    open spec fn obeys_try_from_spec() -> bool {
        true
    }

    open spec fn try_from_spec(value: [u8; 4]) -> Result<Self, Self::Error> {
        if all_ascii_letters(value@) {
            Ok(ChunkType::of_bytes(value@))
        } else {
            Err(ChunkTypeError::NotASCIILetters)
        }
    }
}

impl FromStr for ChunkType {
    type Err = ChunkTypeError;

    /// As `ChunkType::from_text`.
    fn from_str(s: &str) -> (r: Result<Self, Self::Err>)
        ensures
            match r {
                Ok(t) => s.spec_bytes().len() == 4 && all_ascii_letters(s.spec_bytes()) && t@
                    == s.spec_bytes() && s@ == text_of(t@),
                Err(ChunkTypeError::BytesLengthError) => s.spec_bytes().len() != 4,
                Err(ChunkTypeError::NotASCIILetters) => s.spec_bytes().len() == 4
                    && !all_ascii_letters(s.spec_bytes()),
            },
    {
        ChunkType::from_text(s)
    }
}

/// Whether `b` is an ASCII letter.
fn is_letter(b: u8) -> (r: bool)
    ensures
        r == is_ascii_letter(b),
{
    (0x41 <= b && b <= 0x5a) || (0x61 <= b && b <= 0x7a)
}

/// On a letter the flag bit is the case bit: set on lower case, clear on
/// upper case.
pub proof fn lemma_flag_is_case(b: u8)
    requires
        is_ascii_letter(b),
    ensures
        flag_set(b) <==> 0x61 <= b <= 0x7a,
        !flag_set(b) <==> 0x41 <= b <= 0x5a,
{
    assert((b & 32 != 0) <==> (0x61 <= b && b <= 0x7a)) by (bit_vector)
        requires
            (0x41 <= b && b <= 0x5a) || (0x61 <= b && b <= 0x7a),
    ;
}

} // verus!
