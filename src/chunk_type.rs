use vstd::prelude::*;
use vstd::utf8::{decode_utf8, valid_utf8};
use vstd::string::StringSliceAdditionalSpecFns;

use crate::error::PngError;

verus! {

/// `b` is an ASCII upper-case letter.
pub open spec fn is_upper(b: u8) -> bool {
    65 <= b <= 90
}

/// `b` is an ASCII lower-case letter.
pub open spec fn is_lower(b: u8) -> bool {
    97 <= b <= 122
}

/// `b` is an ASCII letter, the only bytes a type code may hold.
pub open spec fn is_letter(b: u8) -> bool {
    is_upper(b) || is_lower(b)
}

/// Every byte of `s` is an ASCII letter.
pub open spec fn all_letters(s: Seq<u8>) -> bool {
    forall|i: int| 0 <= i < s.len() ==> is_letter(#[trigger] s[i])
}

/// The four-byte code that names what a chunk holds.
///
/// The constructors accept only ASCII letters; a code read from a file is kept
/// as it stands, and `is_valid` tells whether it is well formed.
#[derive(Debug, Clone, Copy)]
pub struct ChunkType {
    bytes: [u8; 4],
}

impl View for ChunkType {
    type V = Seq<u8>;

    closed spec fn view(&self) -> Seq<u8> {
        self.bytes@
    }
}

/// A type code is four bytes long.
pub broadcast proof fn lemma_type_len(t: ChunkType)
    ensures
        #[trigger] t@.len() == 4,
{
}

/// Two codes are equal when their bytes are.
impl PartialEq for ChunkType {
    fn eq(&self, other: &ChunkType) -> (r: bool) {
        let r = self.bytes[0] == other.bytes[0] && self.bytes[1] == other.bytes[1]
            && self.bytes[2] == other.bytes[2] && self.bytes[3] == other.bytes[3];
        proof {
            if r {
                assert(self@ =~= other@);
            }
        }
        r
    }
}

impl vstd::std_specs::cmp::PartialEqSpecImpl for ChunkType {
    open spec fn obeys_eq_spec() -> bool {
        true
    }

    open spec fn eq_spec(&self, other: &ChunkType) -> bool {
        self@ == other@
    }
}

impl Eq for ChunkType {}

/// Bytes below 128 are valid UTF-8, each standing for the character of that code.
pub proof fn lemma_ascii_text(b: Seq<u8>)
    requires
        forall|i: int| 0 <= i < b.len() ==> #[trigger] b[i] < 128,
    ensures
        valid_utf8(b),
        decode_utf8(b) == b.map_values(|x: u8| x as char),
    decreases b.len(),
{
    if b.len() > 0 {
        let b0 = b[0];
        assert(b0 < 128);
        assert((b0 & 0x7f) as u32 == b0 as u32) by (bit_vector)
            requires
                b0 < 128,
        ;
        let rest = b.subrange(1, b.len() as int);
        assert forall|i: int| 0 <= i < rest.len() implies #[trigger] rest[i] < 128 by {
            assert(rest[i] == b[i + 1]);
        }
        lemma_ascii_text(rest);
        assert(decode_utf8(b) =~= b.map_values(|x: u8| x as char));
    } else {
        assert(decode_utf8(b) =~= b.map_values(|x: u8| x as char));
    }
}

/// Relies on `String::from_utf8`: it succeeds exactly on valid UTF-8, and
/// the string then holds the characters that the bytes encode.
#[verifier::external_body]
pub(crate) fn text_from_utf8(b: Vec<u8>) -> (r: Option<String>)
    ensures
        r is Some <==> valid_utf8(b@),
        r matches Some(s) ==> s@ == decode_utf8(b@),
{
    String::from_utf8(b).ok()
}

impl std::str::FromStr for ChunkType {
    type Err = PngError;

    fn from_str(s: &str) -> Result<ChunkType, PngError> {
        ChunkType::from_string(s)
    }
}

fn upper(b: u8) -> (r: bool)
    ensures
        r == is_upper(b),
{
    65 <= b && b <= 90
}

fn lower(b: u8) -> (r: bool)
    ensures
        r == is_lower(b),
{
    97 <= b && b <= 122
}

fn letter(b: u8) -> (r: bool)
    ensures
        r == is_letter(b),
{
    (65 <= b && b <= 90) || (97 <= b && b <= 122)
}

impl ChunkType {
    /// Builds a code from four bytes, which must all be ASCII letters.
    pub fn from_bytes(bytes: [u8; 4]) -> (r: Result<ChunkType, PngError>)
        ensures
            all_letters(bytes@) ==> (r matches Ok(t) && t@ == bytes@),
            !all_letters(bytes@) ==> r == Err::<ChunkType, PngError>(PngError::InvalidTypeCode),
    {
        let mut i: usize = 0;
        while i < 4
            invariant
                i <= 4,
                bytes@.len() == 4,
                forall|j: int| 0 <= j < i ==> is_letter(#[trigger] bytes@[j]),
            decreases 4 - i,
        {
            if !letter(bytes[i]) {
                return Err(PngError::InvalidTypeCode);
            }
            i = i + 1;
        }
        Ok(ChunkType { bytes })
    }

    /// Builds a code from the bytes of `s`, which must be exactly four ASCII letters.
    pub fn from_string(s: &str) -> (r: Result<ChunkType, PngError>)
        ensures
            s.spec_bytes().len() == 4 && all_letters(s.spec_bytes()) ==> (r matches Ok(t)
                && t@ == s.spec_bytes()),
            !(s.spec_bytes().len() == 4 && all_letters(s.spec_bytes())) ==> r == Err::<
                ChunkType,
                PngError,
            >(PngError::InvalidTypeCode),
    {
        let b = s.as_bytes();
        if b.len() != 4 {
            return Err(PngError::InvalidTypeCode);
        }
        let bytes: [u8; 4] = [b[0], b[1], b[2], b[3]];
        assert(bytes@ =~= b@);
        ChunkType::from_bytes(bytes)
    }

    /// Keeps four bytes as a code without checking them, as read from a file.
    pub(crate) fn from_raw(bytes: [u8; 4]) -> (r: ChunkType)
        ensures
            r@ == bytes@,
    {
        ChunkType { bytes }
    }

    /// The four bytes of the code.
    pub fn bytes(&self) -> (r: [u8; 4])
        ensures
            r@ == self@,
    {
        self.bytes
    }

    /// The first byte is upper case: a decoder may not ignore the chunk.
    pub fn is_critical(&self) -> (r: bool)
        ensures
            r == is_upper(self@[0]),
    {
        upper(self.bytes[0])
    }

    /// The second byte is upper case: the type is a standard, public one.
    pub fn is_public(&self) -> (r: bool)
        ensures
            r == is_upper(self@[1]),
    {
        upper(self.bytes[1])
    }

    /// The third byte is upper case, as every conforming file has it.
    pub fn is_reserved_bit_valid(&self) -> (r: bool)
        ensures
            r == is_upper(self@[2]),
    {
        upper(self.bytes[2])
    }

    /// The fourth byte is lower case: editors that do not know the chunk may copy it.
    pub fn is_safe_to_copy(&self) -> (r: bool)
        ensures
            r == is_lower(self@[3]),
    {
        lower(self.bytes[3])
    }

    /// The reserved bit holds and every byte is an ASCII letter.
    pub fn is_valid(&self) -> (r: bool)
        ensures
            r == (is_upper(self@[2]) && all_letters(self@)),
    {
        let mut i: usize = 0;
        while i < 4
            invariant
                i <= 4,
                self@.len() == 4,
                forall|j: int| 0 <= j < i ==> is_letter(#[trigger] self@[j]),
            decreases 4 - i,
        {
            if !letter(self.bytes[i]) {
                return false;
            }
            i = i + 1;
        }
        self.is_reserved_bit_valid()
    }

    /// The code as text: its four bytes, each read as an ASCII character.
    pub fn to_string(&self) -> (r: String)
        requires
            all_letters(self@),
        ensures
            r@ == self@.map_values(|x: u8| x as char),
    {
        let mut v: Vec<u8> = Vec::new();
        let mut i: usize = 0;
        while i < 4
            invariant
                i <= 4,
                self@.len() == 4,
                v@ == self@.subrange(0, i as int),
            decreases 4 - i,
        {
            v.push(self.bytes[i]);
            i = i + 1;
        }
        assert(v@ =~= self@);
        proof {
            assert forall|j: int| 0 <= j < v@.len() implies #[trigger] v@[j] < 128 by {
                assert(is_letter(self@[j]));
            }
            lemma_ascii_text(v@);
        }
        let text = text_from_utf8(v);
        match text {
            Some(t) => t,
            None => String::new(),
        }
    }
}

} // verus!
