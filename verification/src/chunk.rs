//! A chunk: a type, a payload, and the checksum that guards both; and the
//! wire layout that carries it.
//!
//! ```text
//! length (4 bytes, big-endian) | type (4 bytes) | payload | CRC-32 (4 bytes, big-endian)
//! ```

use vstd::prelude::*;
use vstd::std_specs::convert::TryFromSpecImpl;
use vstd::utf8::{decode_utf8, valid_utf8};

use crate::byte_order::{
    be_bytes, be_value, extend, lemma_be_bytes_of_be_value, lemma_be_value_of_be_bytes,
    u32_from_be_bytes, u32_to_be_bytes,
};
use crate::checksum::{checksum, crc32_iso_hdlc};
use crate::chunk_type::{all_ascii_letters, ChunkType};
use crate::text::string_from_utf8;

verus! {

/// Why bytes are not a chunk, or why a payload is not text.
#[derive(PartialEq, Eq, Structural, Debug, Clone, Copy)]
pub enum ChunkError {
    /// The bytes end before the chunk that they announce does.
    Malformed,
    /// The four type bytes are not all ASCII letters.
    InvalidChunkType,
    /// The stored checksum is not the checksum of the type and the payload.
    CrcMismatch,
    /// The payload is not valid UTF-8.
    PayloadNotUtf8,
}

/// What a chunk is, as mathematics: the bytes of its type and its payload.
/// Length and checksum follow from these.
pub struct ChunkView {
    pub chunk_type: Seq<u8>,
    pub data: Seq<u8>,
}

impl ChunkView {
    /// The type is four ASCII letters.
    pub open spec fn wf(self) -> bool {
        self.chunk_type.len() == 4 && all_ascii_letters(self.chunk_type)
    }

    /// The length field: the number of payload bytes, as far as 32 bits
    /// hold it.
    pub open spec fn length(self) -> u32 {
        (self.data.len() % 0x1_0000_0000) as u32
    }

    /// The checksum: CRC-32 over the type bytes followed by the payload.
    pub open spec fn crc(self) -> u32 {
        crc32_iso_hdlc(self.chunk_type + self.data)
    }

    /// The chunk on the wire: length, type, payload, checksum.
    pub open spec fn wire_bytes(self) -> Seq<u8> {
        be_bytes(self.length()) + self.chunk_type + self.data + be_bytes(self.crc())
    }

    /// The number of bytes that the chunk takes on the wire.
    pub open spec fn wire_len(self) -> int {
        12 + self.data.len() as int
    }

    /// The chunk at the start of `bytes`, or why there is none. Bytes that
    /// follow the chunk are not looked at.
    pub open spec fn parse(bytes: Seq<u8>) -> Result<ChunkView, ChunkError> {
        if bytes.len() < 12 {
            Err(ChunkError::Malformed)
        } else {
            let len = be_value(bytes.subrange(0, 4)) as int;
            if bytes.len() < 12 + len {
                Err(ChunkError::Malformed)
            } else {
                let chunk_type = bytes.subrange(4, 8);
                let data = bytes.subrange(8, 8 + len);
                let stored = be_value(bytes.subrange(8 + len, 12 + len));
                if !all_ascii_letters(chunk_type) {
                    Err(ChunkError::InvalidChunkType)
                } else if stored != crc32_iso_hdlc(chunk_type + data) {
                    Err(ChunkError::CrcMismatch)
                } else {
                    Ok(ChunkView { chunk_type, data })
                }
            }
        }
    }
}

/// A chunk: its type, its payload, and the length and checksum that were
/// computed from them when it was made.
pub struct Chunk {
    chunk_type: ChunkType,
    data: Vec<u8>,
    length: usize,
    crc: u32,
}

impl View for Chunk {
    type V = ChunkView;

    closed spec fn view(&self) -> ChunkView {
        ChunkView { chunk_type: self.chunk_type@, data: self.data@ }
    }
}

impl Chunk {
    /// The stored length and checksum are those of the type and payload.
    #[verifier::type_invariant]
    closed spec fn inv(self) -> bool {
        &&& self.chunk_type.wf()
        &&& self.length == self.data@.len()
        &&& self.crc == crc32_iso_hdlc(self.chunk_type@ + self.data@)
    }

    /// Makes a chunk of a type and a payload, and computes its checksum.
    pub fn new(chunk_type: ChunkType, data: Vec<u8>) -> (c: Chunk)
        ensures
            c@ == (ChunkView { chunk_type: chunk_type@, data: data@ }),
            c@.wf(),
    {
        proof {
            use_type_invariant(&chunk_type);
        }
        let bytes = Chunk::_as_bytes(&chunk_type, data.as_slice());
        let crc = checksum(bytes.as_slice());
        let length = data.len();
        Chunk { chunk_type, data, length, crc }
    }

    /// The length field of the chunk: the number of payload bytes, as far
    /// as 32 bits hold it.
    pub fn length(&self) -> (r: u32)
        ensures
            r == self@.length(),
            self@.data.len() <= u32::MAX ==> r == self@.data.len(),
    {
        proof {
            use_type_invariant(self);
        }
        ((self.length as u64) % 0x1_0000_0000) as u32
    }

    /// The type of the chunk.
    pub fn chunk_type(&self) -> (r: &ChunkType)
        ensures
            r@ == self@.chunk_type,
            self@.wf(),
    {
        proof {
            use_type_invariant(self);
        }
        &self.chunk_type
    }

    /// The payload.
    pub fn data(&self) -> (r: &[u8])
        ensures
            r@ == self@.data,
    {
        self.data.as_slice()
    }

    /// The checksum of the type and the payload.
    pub fn crc(&self) -> (r: u32)
        ensures
            r == self@.crc(),
    {
        proof {
            use_type_invariant(self);
        }
        self.crc
    }

    /// The payload as text. Fails with `PayloadNotUtf8` exactly when the
    /// payload is not valid UTF-8.
    pub fn data_as_string(&self) -> (r: Result<String, ChunkError>)
        ensures
            match r {
                Ok(s) => valid_utf8(self@.data) && s@ == decode_utf8(self@.data),
                Err(e) => !valid_utf8(self@.data) && e == ChunkError::PayloadNotUtf8,
            },
    {
        let mut bytes: Vec<u8> = Vec::new();
        extend(&mut bytes, self.data.as_slice());
        match string_from_utf8(bytes) {
            Ok(s) => Ok(s),
            Err(_) => Err(ChunkError::PayloadNotUtf8),
        }
    }

    /// The bytes that the checksum covers: the type, then the payload.
    fn _as_bytes(chunk_type: &ChunkType, data: &[u8]) -> (r: Vec<u8>)
        ensures
            r@ == chunk_type@ + data@,
    {
        let tag = chunk_type.bytes();
        let mut r: Vec<u8> = Vec::new();
        extend(&mut r, tag.as_slice());
        extend(&mut r, data);
        r
    }

    /// The chunk on the wire: length, type, payload, checksum.
    pub fn as_bytes(&self) -> (r: Vec<u8>)
        ensures
            r@ == self@.wire_bytes(),
    {
        let bytes = Chunk::_as_bytes(self.chunk_type(), self.data());
        let crc = self.crc();
        let length = u32_to_be_bytes(self.length());
        let sum = u32_to_be_bytes(crc);
        let mut r: Vec<u8> = Vec::new();
        extend(&mut r, length.as_slice());
        extend(&mut r, bytes.as_slice());
        extend(&mut r, sum.as_slice());
        assert(r@ =~= self@.wire_bytes());
        r
    }

    /// The payload as text, for display.
    pub fn to_string(&self) -> (r: String)
        requires
            valid_utf8(self@.data),
        ensures
            r@ == decode_utf8(self@.data),
    {
        match self.data_as_string() {
            Ok(s) => s,
            Err(_) => String::new(),
        }
    }

    /// Reads the chunk at the start of `bytes`: four bytes of length, four
    /// of type, as many of payload as the length says, four of checksum.
    /// What follows is not looked at.
    ///
    /// Fails with `Malformed` when the bytes end too early, else with
    /// `InvalidChunkType` when the type is not four letters, else with
    /// `CrcMismatch` when the stored checksum is not that of type and
    /// payload.
    pub fn parse(bytes: &[u8]) -> (r: Result<Chunk, ChunkError>)
        ensures
            match r {
                Ok(c) => ChunkView::parse(bytes@) == Ok::<ChunkView, ChunkError>(c@),
                Err(e) => ChunkView::parse(bytes@) == Err::<ChunkView, ChunkError>(e),
            },
    {
        if bytes.len() < 12 {
            return Err(ChunkError::Malformed);
        }
        let length_bytes: [u8; 4] = [bytes[0], bytes[1], bytes[2], bytes[3]];
        assert(length_bytes@ =~= bytes@.subrange(0, 4));
        let declared = u32_from_be_bytes(length_bytes);
        if (bytes.len() as u64) < 12 + (declared as u64) {
            return Err(ChunkError::Malformed);
        }
        let data_length = declared as usize;
        let chunk_type_bytes: [u8; 4] = [bytes[4], bytes[5], bytes[6], bytes[7]];
        assert(chunk_type_bytes@ =~= bytes@.subrange(4, 8));
        let mut message_bytes: Vec<u8> = Vec::new();
        extend(&mut message_bytes, vstd::slice::slice_subrange(bytes, 8, 8 + data_length));
        let crc_bytes: [u8; 4] = [
            bytes[8 + data_length],
            bytes[8 + data_length + 1],
            bytes[8 + data_length + 2],
            bytes[8 + data_length + 3],
        ];
        assert(crc_bytes@ =~= bytes@.subrange(8 + data_length, 12 + data_length));
        let crc = u32_from_be_bytes(crc_bytes);
        match ChunkType::from_bytes(chunk_type_bytes) {
            Ok(chunk_type) => {
                let chunk = Chunk::new(chunk_type, message_bytes);
                if chunk.crc() == crc {
                    Ok(chunk)
                } else {
                    Err(ChunkError::CrcMismatch)
                }
            },
            Err(_) => Err(ChunkError::InvalidChunkType),
        }
    }
}

impl TryFrom<&[u8]> for Chunk {
    type Error = ChunkError;

    /// As `Chunk::parse`.
    fn try_from(bytes: &[u8]) -> (r: Result<Self, Self::Error>)
        ensures
            match r {
                Ok(c) => ChunkView::parse(bytes@) == Ok::<ChunkView, ChunkError>(c@),
                Err(e) => ChunkView::parse(bytes@) == Err::<ChunkView, ChunkError>(e),
            },
    {
        Chunk::parse(bytes)
    }
}

impl TryFromSpecImpl<&[u8]> for Chunk {
    /// A chunk owns its payload, so no specification function can name the
    /// chunk that parsing returns; the contract of `try_from` speaks of its
    /// view instead.
    open spec fn obeys_try_from_spec() -> bool {
        false
    }

    open spec fn try_from_spec(bytes: &[u8]) -> Result<Self, Self::Error> {
        Err(ChunkError::Malformed)
    }
}

/// Parsing undoes serialising: the wire bytes of a chunk, whatever follows
/// them, parse to that chunk. The payload must be short enough for the
/// length field.
pub proof fn lemma_parse_wire_bytes(v: ChunkView, rest: Seq<u8>)
    requires
        v.wf(),
        v.data.len() <= u32::MAX,
    ensures
        ChunkView::parse(v.wire_bytes() + rest) == Ok::<ChunkView, ChunkError>(v),
        v.wire_bytes().len() == v.wire_len(),
{
    let bytes = v.wire_bytes() + rest;
    let len = v.data.len() as int;
    lemma_be_value_of_be_bytes(v.length());
    lemma_be_value_of_be_bytes(v.crc());
    assert(bytes.subrange(0, 4) =~= be_bytes(v.length()));
    assert(bytes.subrange(4, 8) =~= v.chunk_type);
    assert(bytes.subrange(8, 8 + len) =~= v.data);
    assert(bytes.subrange(8 + len, 12 + len) =~= be_bytes(v.crc()));
}

/// Serialising undoes parsing: bytes that parse to a chunk start with the
/// wire bytes of that chunk.
pub proof fn lemma_wire_bytes_of_parsed(bytes: Seq<u8>)
    requires
        ChunkView::parse(bytes) is Ok,
    ensures
        ({
            let v = ChunkView::parse(bytes)->Ok_0;
            &&& v.wf()
            &&& v.data.len() <= u32::MAX
            &&& v.wire_len() <= bytes.len()
            &&& bytes.subrange(0, v.wire_len()) == v.wire_bytes()
        }),
{
    let v = ChunkView::parse(bytes)->Ok_0;
    let len = be_value(bytes.subrange(0, 4)) as int;
    lemma_be_bytes_of_be_value(bytes.subrange(0, 4));
    lemma_be_bytes_of_be_value(bytes.subrange(8 + len, 12 + len));
    assert(bytes.subrange(0, v.wire_len()) =~= v.wire_bytes());
}

/// The stored checksum is checked: a chunk on the wire whose last four
/// bytes are replaced by anything else is refused with `CrcMismatch`.
pub proof fn lemma_stored_crc_is_checked(v: ChunkView, stored: Seq<u8>, rest: Seq<u8>)
    requires
        v.wf(),
        v.data.len() <= u32::MAX,
        stored.len() == 4,
        stored != be_bytes(v.crc()),
    ensures
        ChunkView::parse(be_bytes(v.length()) + v.chunk_type + v.data + stored + rest) == Err::<
            ChunkView,
            ChunkError,
        >(ChunkError::CrcMismatch),
{
    let bytes = be_bytes(v.length()) + v.chunk_type + v.data + stored + rest;
    let len = v.data.len() as int;
    lemma_be_value_of_be_bytes(v.length());
    assert(bytes.subrange(0, 4) =~= be_bytes(v.length()));
    assert(bytes.subrange(4, 8) =~= v.chunk_type);
    assert(bytes.subrange(8, 8 + len) =~= v.data);
    assert(bytes.subrange(8 + len, 12 + len) =~= stored);
    if be_value(stored) == v.crc() {
        lemma_be_bytes_of_be_value(stored);
    }
}

/// Flipping one bit of the stored checksum of a chunk on the wire makes
/// parsing fail with `CrcMismatch`.
pub proof fn lemma_crc_bit_flip_detected(v: ChunkView, i: int, bit: u8)
    requires
        v.wf(),
        v.data.len() <= u32::MAX,
        8 + v.data.len() <= i < 12 + v.data.len(),
        bit < 8,
    ensures
        ChunkView::parse(v.wire_bytes().update(i, v.wire_bytes()[i] ^ (1u8 << bit))) == Err::<
            ChunkView,
            ChunkError,
        >(ChunkError::CrcMismatch),
{
    lemma_be_value_of_be_bytes(v.length());
    lemma_be_value_of_be_bytes(v.crc());
    let wire = v.wire_bytes();
    let flipped = wire.update(i, wire[i] ^ (1u8 << bit));
    let len = v.data.len() as int;
    let stored = flipped.subrange(8 + len, 12 + len);
    let b = wire[i];
    assert(b ^ (1u8 << bit) != b) by (bit_vector)
        requires
            bit < 8,
    ;
    assert(stored[i - 8 - len] != be_bytes(v.crc())[i - 8 - len]);
    assert(flipped =~= be_bytes(v.length()) + v.chunk_type + v.data + stored + Seq::<u8>::empty());
    lemma_stored_crc_is_checked(v, stored, Seq::<u8>::empty());
}

} // verus!
