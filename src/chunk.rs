use vstd::prelude::*;
use vstd::utf8::{decode_utf8, valid_utf8};

use crate::chunk_type::{lemma_type_len, text_from_utf8, ChunkType};
use crate::error::PngError;

verus! {

broadcast use lemma_type_len;

/// The CRC-32 (ISO-HDLC) of a byte sequence.
pub uninterp spec fn crc32_of(b: Seq<u8>) -> u32;

/// Relies on `crc::Crc::<u32>::checksum` with the `CRC_32_ISO_HDLC` algorithm:
/// the checksum depends on the bytes alone.
#[verifier::external_body]
fn checksum(b: &[u8]) -> (r: u32)
    ensures
        r == crc32_of(b@),
{
    crc::Crc::<u32>::new(&crc::CRC_32_ISO_HDLC).checksum(b)
}

/// The number that four bytes hold, most significant first.
pub open spec fn be_value4(b0: u8, b1: u8, b2: u8, b3: u8) -> u32 {
    ((b0 as u32) << 24u32) | ((b1 as u32) << 16u32) | ((b2 as u32) << 8u32) | (b3 as u32)
}

/// The number that the first four bytes of `b` hold, most significant first.
pub open spec fn be_value(b: Seq<u8>) -> u32 {
    be_value4(b[0], b[1], b[2], b[3])
}

/// The four bytes of `x`, most significant first.
pub open spec fn be_bytes(x: u32) -> Seq<u8> {
    seq![(x >> 24u32) as u8, (x >> 16u32) as u8, (x >> 8u32) as u8, x as u8]
}

/// Reading back the bytes of a number gives the number.
pub proof fn lemma_be_value_of_bytes(x: u32)
    ensures
        be_value(be_bytes(x)) == x,
{
    let b = be_bytes(x);
    assert(be_value4((x >> 24u32) as u8, (x >> 16u32) as u8, (x >> 8u32) as u8, x as u8) == x)
        by (bit_vector);
}

/// Writing out the number that four bytes hold gives those bytes.
pub proof fn lemma_be_bytes_of_value(b: Seq<u8>)
    requires
        b.len() == 4,
    ensures
        be_bytes(be_value(b)) == b,
{
    let (b0, b1, b2, b3) = (b[0], b[1], b[2], b[3]);
    let v = be_value4(b0, b1, b2, b3);
    assert((v >> 24u32) as u8 == b0 && (v >> 16u32) as u8 == b1 && (v >> 8u32) as u8 == b2
        && v as u8 == b3) by (bit_vector)
        requires
            v == be_value4(b0, b1, b2, b3),
    ;
    assert(be_bytes(be_value(b)) =~= b);
}

/// The bytes of one chunk: payload length, type code, payload, and the
/// checksum over type code and payload.
#[verifier::opaque]
pub open spec fn frame(type_code: Seq<u8>, data: Seq<u8>) -> Seq<u8> {
    be_bytes(data.len() as u32) + type_code + data + be_bytes(crc32_of(type_code + data))
}

/// What decoding the chunk at the start of `buf` gives: its type code and
/// payload, or the reason it fails.
#[verifier::opaque]
pub open spec fn decode_frame(buf: Seq<u8>) -> Result<(Seq<u8>, Seq<u8>), PngError> {
    if buf.len() < 12 {
        Err(PngError::Truncated)
    } else {
        let n = be_value(buf) as int;
        if 12 + n > buf.len() {
            Err(PngError::Truncated)
        } else {
            let type_code = buf.subrange(4, 8);
            let data = buf.subrange(8, 8 + n);
            let stored = be_value(buf.subrange(8 + n, 12 + n));
            let actual = crc32_of(type_code + data);
            if stored != actual {
                Err(PngError::CrcMismatch { expected: stored, actual })
            } else {
                Ok((type_code, data))
            }
        }
    }
}

/// How many bytes the chunk at the start of `buf` takes, once it decodes.
pub open spec fn frame_len(buf: Seq<u8>) -> int {
    12 + be_value(buf) as int
}

fn u32_from_be(b0: u8, b1: u8, b2: u8, b3: u8) -> (r: u32)
    ensures
        r == be_value4(b0, b1, b2, b3),
{
    ((b0 as u32) << 24u32) | ((b1 as u32) << 16u32) | ((b2 as u32) << 8u32) | (b3 as u32)
}

fn push_be(v: &mut Vec<u8>, x: u32)
    ensures
        final(v)@ == old(v)@ + be_bytes(x),
{
    v.push((x >> 24u32) as u8);
    v.push((x >> 16u32) as u8);
    v.push((x >> 8u32) as u8);
    v.push(x as u8);
    assert(final(v)@ =~= old(v)@ + be_bytes(x));
}

fn push_all(v: &mut Vec<u8>, src: &[u8])
    ensures
        final(v)@ == old(v)@ + src@,
{
    let ghost start = v@;
    let mut i: usize = 0;
    while i < src.len()
        invariant
            i <= src@.len(),
            v@ == start + src@.subrange(0, i as int),
        decreases src@.len() - i,
    {
        v.push(src[i]);
        i = i + 1;
        assert(v@ =~= start + src@.subrange(0, i as int));
    }
    assert(src@.subrange(0, i as int) =~= src@);
}

/// The CRC-32 (ISO-HDLC) over a type code followed by a payload.
pub fn crc32(type_bytes: [u8; 4], payload: &[u8]) -> (r: u32)
    ensures
        r == crc32_of(type_bytes@ + payload@),
{
    let mut input: Vec<u8> = Vec::new();
    push_all(&mut input, type_bytes.as_slice());
    push_all(&mut input, payload);
    checksum(input.as_slice())
}

pub(crate) fn copy_bytes(src: &[u8]) -> (r: Vec<u8>)
    ensures
        r@ == src@,
{
    let mut v: Vec<u8> = Vec::new();
    push_all(&mut v, src);
    assert(v@ =~= src@);
    v
}

/// One framed unit of a PNG file: a type code, an opaque payload, and the
/// checksum over both.
#[derive(Debug)]
pub struct Chunk {
    length: u32,
    chunk_type: ChunkType,
    chunk_data: Vec<u8>,
    crc: u32,
}

impl View for Chunk {
    /// The type code and the payload.
    type V = (Seq<u8>, Seq<u8>);

    closed spec fn view(&self) -> (Seq<u8>, Seq<u8>) {
        (self.chunk_type@, self.chunk_data@)
    }
}

/// A chunk's type code is four bytes long.
pub broadcast proof fn lemma_chunk_type_len(c: Chunk)
    ensures
        #[trigger] c@.0.len() == 4,
{
}

impl Chunk {
    /// The length field counts the payload, and the checksum covers type code and payload.
    #[verifier::type_invariant]
    spec fn well_formed(&self) -> bool {
        &&& self.length as int == self.chunk_data@.len()
        &&& self.crc == crc32_of(self.chunk_type@ + self.chunk_data@)
    }

    /// A chunk of the given type holding `data`, with its length and checksum.
    pub fn new(chunk_type: ChunkType, data: Vec<u8>) -> (r: Chunk)
        requires
            data@.len() <= u32::MAX,
        ensures
            r@ == (chunk_type@, data@),
    {
        let length = data.len() as u32;
        let crc = crc32(chunk_type.bytes(), data.as_slice());
        Chunk { length, chunk_type, chunk_data: data, crc }
    }

    /// Decodes the chunk at the start of `buf` and checks its checksum.
    /// Bytes after the chunk are ignored.
    pub fn from_bytes(buf: &[u8]) -> (r: Result<Chunk, PngError>)
        ensures
            decode_frame(buf@) matches Ok(m) ==> (r matches Ok(c) && c@ == m),
            decode_frame(buf@) matches Err(e) ==> r == Err::<Chunk, PngError>(e),
    {
        reveal(decode_frame);
        if buf.len() < 12 {
            return Err(PngError::Truncated);
        }
        let length = u32_from_be(buf[0], buf[1], buf[2], buf[3]);
        if length as usize > buf.len() - 12 {
            return Err(PngError::Truncated);
        }
        let end: usize = 8 + length as usize;
        let type_bytes: [u8; 4] = [buf[4], buf[5], buf[6], buf[7]];
        let data = copy_bytes(&buf[8..end]);
        let stored = u32_from_be(buf[end], buf[end + 1], buf[end + 2], buf[end + 3]);
        let actual = crc32(type_bytes, data.as_slice());
        proof {
            assert(type_bytes@ =~= buf@.subrange(4, 8));
            assert(buf@.subrange(8 + length as int, 12 + length as int)[0] == buf@[end as int]);
            assert(buf@.subrange(8 + length as int, 12 + length as int)[1] == buf@[end + 1]);
            assert(buf@.subrange(8 + length as int, 12 + length as int)[2] == buf@[end + 2]);
            assert(buf@.subrange(8 + length as int, 12 + length as int)[3] == buf@[end + 3]);
        }
        if stored != actual {
            return Err(PngError::CrcMismatch { expected: stored, actual });
        }
        let chunk_type = ChunkType::from_raw(type_bytes);
        Ok(Chunk { length, chunk_type, chunk_data: data, crc: stored })
    }

    /// The payload length in bytes.
    pub fn length(&self) -> (r: u32)
        ensures
            r as int == self@.1.len(),
    {
        proof {
            use_type_invariant(self);
        }
        self.length
    }

    /// The checksum over type code and payload.
    pub fn crc(&self) -> (r: u32)
        ensures
            r == crc32_of(self@.0 + self@.1),
    {
        proof {
            use_type_invariant(self);
        }
        self.crc
    }

    /// The type code.
    pub fn chunk_type(&self) -> (r: ChunkType)
        ensures
            r@ == self@.0,
    {
        self.chunk_type
    }

    /// The payload as text, when it is valid UTF-8.
    pub fn data_as_string(&self) -> (r: Result<String, PngError>)
        ensures
            valid_utf8(self@.1) ==> (r matches Ok(s) && s@ == decode_utf8(self@.1)),
            !valid_utf8(self@.1) ==> r == Err::<String, PngError>(PngError::Utf8DecodeError),
    {
        let bytes = copy_bytes(self.chunk_data.as_slice());
        match text_from_utf8(bytes) {
            Some(s) => Ok(s),
            None => Err(PngError::Utf8DecodeError),
        }
    }

    /// The chunk as it stands in a file: length, type code, payload, checksum.
    pub fn as_bytes(&self) -> (r: Vec<u8>)
        ensures
            r@ == frame(self@.0, self@.1),
            self@.1.len() <= u32::MAX,
    {
        proof {
            use_type_invariant(self);
            reveal(frame);
        }
        let mut out: Vec<u8> = Vec::new();
        push_be(&mut out, self.length);
        push_all(&mut out, self.chunk_type.bytes().as_slice());
        push_all(&mut out, self.chunk_data.as_slice());
        push_be(&mut out, self.crc);
        out
    }
}

/// Decoding the bytes of a chunk gives back its type code and payload, and
/// the decoder takes exactly those bytes.
pub proof fn lemma_chunk_round_trip(type_code: Seq<u8>, data: Seq<u8>)
    requires
        type_code.len() == 4,
        data.len() <= u32::MAX,
    ensures
        decode_frame(frame(type_code, data)) == Ok::<(Seq<u8>, Seq<u8>), PngError>((type_code, data)),
        frame_len(frame(type_code, data)) == frame(type_code, data).len(),
{
    reveal(frame);
    reveal(decode_frame);
    let f = frame(type_code, data);
    let n = data.len() as int;
    lemma_be_value_of_bytes(data.len() as u32);
    lemma_be_value_of_bytes(crc32_of(type_code + data));
    assert(f.subrange(0, 4) =~= be_bytes(data.len() as u32));
    assert(be_value(f) == be_value(f.subrange(0, 4)));
    assert(f.subrange(4, 8) =~= type_code);
    assert(f.subrange(8, 8 + n) =~= data);
    assert(f.subrange(8 + n, 12 + n) =~= be_bytes(crc32_of(type_code + data)));
}

/// Changing one bit of a chunk's type code or payload leaves its framing
/// intact: decoding then fails with a checksum mismatch exactly when the
/// checksum over the altered bytes differs from the one stored.
pub proof fn lemma_flipped_bit_decided_by_checksum(
    type_code: Seq<u8>,
    data: Seq<u8>,
    pos: int,
    bit: u8,
)
    requires
        type_code.len() == 4,
        data.len() <= u32::MAX,
        4 <= pos < 8 + data.len(),
        bit < 8,
    ensures
        ({
            let f = frame(type_code, data);
            let g = f.update(pos, f[pos] ^ (1u8 << bit));
            let stored = crc32_of(type_code + data);
            let actual = crc32_of(g.subrange(4, 8 + data.len() as int));
            &&& g.subrange(4, 8 + data.len() as int) != type_code + data
            &&& stored != actual ==> decode_frame(g) == Err::<(Seq<u8>, Seq<u8>), PngError>(
                PngError::CrcMismatch { expected: stored, actual },
            )
            &&& stored == actual ==> decode_frame(g) is Ok
        }),
{
    reveal(frame);
    reveal(decode_frame);
    let f = frame(type_code, data);
    let n = data.len() as int;
    let g = f.update(pos, f[pos] ^ (1u8 << bit));
    lemma_be_value_of_bytes(data.len() as u32);
    lemma_be_value_of_bytes(crc32_of(type_code + data));
    let x = f[pos];
    assert(x ^ (1u8 << bit) != x) by (bit_vector)
        requires
            bit < 8,
    ;
    assert(g.subrange(0, 4) =~= f.subrange(0, 4));
    assert(f.subrange(0, 4) =~= be_bytes(data.len() as u32));
    assert(be_value(g) == be_value(g.subrange(0, 4)));
    assert(be_value(f) == be_value(f.subrange(0, 4)));
    assert(g.subrange(8 + n, 12 + n) =~= f.subrange(8 + n, 12 + n));
    assert(f.subrange(8 + n, 12 + n) =~= be_bytes(crc32_of(type_code + data)));
    assert(f.subrange(4, 8 + n) =~= type_code + data);
    assert(g.subrange(4, 8 + n)[pos - 4] != (type_code + data)[pos - 4]);
    assert(g.subrange(4, 8) + g.subrange(8, 8 + n) =~= g.subrange(4, 8 + n));
}

} // verus!
