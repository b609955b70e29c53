use vstd::prelude::*;
use vstd::string::StringSliceAdditionalSpecFns;

use crate::chunk::{
    be_value, decode_frame, frame, frame_len, lemma_be_bytes_of_value, lemma_chunk_type_len, Chunk,
};
use crate::error::PngError;

verus! {

broadcast use lemma_chunk_type_len;

/// The eight bytes every PNG file starts with.
pub const SIGNATURE: [u8; 8] = [0x89, 0x50, 0x4E, 0x47, 0x0D, 0x0A, 0x1A, 0x0A];

/// The signature as a sequence.
pub open spec fn signature() -> Seq<u8> {
    seq![0x89u8, 0x50u8, 0x4Eu8, 0x47u8, 0x0Du8, 0x0Au8, 0x1Au8, 0x0Au8]
}

/// A chunk as this library models it: its type code and its payload.
pub type ChunkModel = (Seq<u8>, Seq<u8>);

/// The bytes of a list of chunks, one after the other.
pub open spec fn frames(cs: Seq<ChunkModel>) -> Seq<u8>
    decreases cs.len(),
{
    if cs.len() == 0 {
        Seq::empty()
    } else {
        frame(cs[0].0, cs[0].1) + frames(cs.drop_first())
    }
}

/// The bytes of a whole file holding `cs`.
pub open spec fn file_bytes(cs: Seq<ChunkModel>) -> Seq<u8> {
    signature() + frames(cs)
}

/// Puts `done` in front of the chunks of a scan, or passes its error on.
pub open spec fn prepend(done: Seq<ChunkModel>, r: Result<Seq<ChunkModel>, PngError>) -> Result<
    Seq<ChunkModel>,
    PngError,
> {
    match r {
        Ok(cs) => Ok(done + cs),
        Err(e) => Err(e),
    }
}

/// The chunks that fill `rest` exactly, or the first reason one of them fails to decode.
pub open spec fn scan(rest: Seq<u8>) -> Result<Seq<ChunkModel>, PngError>
    decreases rest.len(),
{
    if rest.len() == 0 {
        Ok(Seq::empty())
    } else {
        match decode_frame(rest) {
            Err(e) => Err(e),
            Ok(m) => if 0 < frame_len(rest) <= rest.len() {
                prepend(seq![m], scan(rest.subrange(frame_len(rest), rest.len() as int)))
            } else {
                Err(PngError::Truncated)
            },
        }
    }
}

/// What parsing a whole file gives: its chunks in file order, or the reason it fails.
pub open spec fn parse_file(buf: Seq<u8>) -> Result<Seq<ChunkModel>, PngError> {
    if buf.len() < 8 || buf.subrange(0, 8) != signature() {
        Err(PngError::BadSignature)
    } else {
        scan(buf.subrange(8, buf.len() as int))
    }
}

/// A chunk that decodes takes its own bytes and at least twelve of them.
proof fn lemma_decoded_frame(rest: Seq<u8>)
    requires
        decode_frame(rest) is Ok,
    ensures
        12 <= frame_len(rest) <= rest.len(),
        ({
            let m = decode_frame(rest)->Ok_0;
            &&& m.1.len() <= u32::MAX
            &&& frame_len(rest) == 12 + m.1.len()
            &&& m.0.len() == 4
            &&& rest.subrange(0, frame_len(rest)) == frame(m.0, m.1)
        }),
{
    reveal(frame);
    reveal(decode_frame);
    let m = decode_frame(rest)->Ok_0;
    let n = be_value(rest) as int;
    lemma_be_bytes_of_value(rest.subrange(0, 4));
    lemma_be_bytes_of_value(rest.subrange(8 + n, 12 + n));
    assert(be_value(rest.subrange(0, 4)) == be_value(rest));
    assert(m.1.len() == n);
    assert(rest.subrange(0, frame_len(rest)) =~= frame(m.0, m.1));
}

/// Adding a chunk at the end adds its bytes at the end.
pub proof fn lemma_frames_push(cs: Seq<ChunkModel>, m: ChunkModel)
    ensures
        frames(cs.push(m)) == frames(cs) + frame(m.0, m.1),
    decreases cs.len(),
{
    if cs.len() == 0 {
        assert(cs.push(m).drop_first() =~= Seq::<ChunkModel>::empty());
        assert(frames(Seq::<ChunkModel>::empty()) == Seq::<u8>::empty());
        assert(frames(cs.push(m)) =~= frame(m.0, m.1));
    } else {
        lemma_frames_push(cs.drop_first(), m);
        assert(cs.push(m).drop_first() =~= cs.drop_first().push(m));
        assert(frames(cs.push(m)) =~= frames(cs) + frame(m.0, m.1));
    }
}

/// The chunks that a scan finds, written out again, are the bytes scanned.
proof fn lemma_scan_frames(rest: Seq<u8>)
    requires
        scan(rest) is Ok,
    ensures
        frames(scan(rest)->Ok_0) == rest,
    decreases rest.len(),
{
    if rest.len() > 0 {
        lemma_decoded_frame(rest);
        let m = decode_frame(rest)->Ok_0;
        let tail = rest.subrange(frame_len(rest), rest.len() as int);
        lemma_scan_frames(tail);
        let cs = scan(rest)->Ok_0;
        assert(cs.drop_first() =~= scan(tail)->Ok_0);
        assert(rest =~= rest.subrange(0, frame_len(rest)) + tail);
    }
}

/// Parsing a file and writing its chunks out again gives back the file, byte for byte.
pub proof fn lemma_parse_serialize_round_trip(buf: Seq<u8>)
    requires
        parse_file(buf) is Ok,
    ensures
        file_bytes(parse_file(buf)->Ok_0) == buf,
{
    lemma_scan_frames(buf.subrange(8, buf.len() as int));
    assert(buf =~= buf.subrange(0, 8) + buf.subrange(8, buf.len() as int));
}

/// `i` is the first position in `cs` of a chunk whose type code is `code`.
pub open spec fn is_first_match(cs: Seq<ChunkModel>, code: Seq<u8>, i: int) -> bool {
    &&& 0 <= i < cs.len()
    &&& cs[i].0 == code
    &&& forall|j: int| 0 <= j < i ==> (#[trigger] cs[j]).0 != code
}

/// No chunk in `cs` has the type code `code`.
pub open spec fn no_match(cs: Seq<ChunkModel>, code: Seq<u8>) -> bool {
    forall|j: int| 0 <= j < cs.len() ==> (#[trigger] cs[j]).0 != code
}

/// A PNG file: the signature and an ordered list of chunks.
#[derive(Debug)]
pub struct Png {
    chunks: Vec<Chunk>,
}

impl View for Png {
    /// The chunks in file order.
    type V = Seq<ChunkModel>;

    closed spec fn view(&self) -> Seq<ChunkModel> {
        self.chunks@.map_values(|c: Chunk| c@)
    }
}

/// The type code of `c` is the bytes of `code`.
fn has_type(c: &Chunk, code: &[u8]) -> (r: bool)
    ensures
        r == (c@.0 == code@),
{
    if code.len() != 4 {
        return false;
    }
    let t = c.chunk_type().bytes();
    let r = t[0] == code[0] && t[1] == code[1] && t[2] == code[2] && t[3] == code[3];
    proof {
        if r {
            assert(t@ =~= code@);
        }
    }
    r
}

impl Png {
    /// A file holding the given chunks, in that order.
    pub fn from_chunks(chunks: Vec<Chunk>) -> (r: Png)
        ensures
            r@ == chunks@.map_values(|c: Chunk| c@),
    {
        Png { chunks }
    }

    /// The chunks in file order.
    pub fn chunks(&self) -> (r: &[Chunk])
        ensures
            r@.map_values(|c: Chunk| c@) == self@,
    {
        self.chunks.as_slice()
    }

    /// Parses a whole file: the signature, then chunks up to the last byte.
    pub fn parse(buf: &[u8]) -> (r: Result<Png, PngError>)
        ensures
            parse_file(buf@) matches Ok(cs) ==> (r matches Ok(p) && p@ == cs),
            parse_file(buf@) matches Err(e) ==> r == Err::<Png, PngError>(e),
    {
        if buf.len() < 8 {
            return Err(PngError::BadSignature);
        }
        let mut k: usize = 0;
        while k < 8
            invariant
                k <= 8 <= buf@.len(),
                forall|j: int| 0 <= j < k ==> buf@[j] == #[trigger] signature()[j],
            decreases 8 - k,
        {
            if buf[k] != SIGNATURE[k] {
                assert(buf@.subrange(0, 8)[k as int] != signature()[k as int]);
                return Err(PngError::BadSignature);
            }
            k = k + 1;
        }
        assert(buf@.subrange(0, 8) =~= signature());
        let ghost body = buf@.subrange(8, buf@.len() as int);
        let mut chunks: Vec<Chunk> = Vec::new();
        let mut pos: usize = 8;
        while pos < buf.len()
            invariant
                8 <= pos <= buf@.len(),
                body == buf@.subrange(8, buf@.len() as int),
                buf@.subrange(0, 8) == signature(),
                scan(body) == prepend(
                    chunks@.map_values(|c: Chunk| c@),
                    scan(buf@.subrange(pos as int, buf@.len() as int)),
                ),
            decreases buf@.len() - pos,
        {
            let ghost rest = buf@.subrange(pos as int, buf@.len() as int);
            let ghost done = chunks@.map_values(|c: Chunk| c@);
            match Chunk::from_bytes(&buf[pos..buf.len()]) {
                Err(e) => {
                    assert(scan(rest) == Err::<Seq<ChunkModel>, PngError>(e));
                    return Err(e);
                },
                Ok(c) => {
                    proof {
                        lemma_decoded_frame(rest);
                    }
                    let n = c.length() as usize;
                    pos = pos + 12 + n;
                    chunks.push(c);
                    proof {
                        let m = decode_frame(rest)->Ok_0;
                        let tail = buf@.subrange(pos as int, buf@.len() as int);
                        assert(rest.subrange(frame_len(rest), rest.len() as int) =~= tail);
                        assert(chunks@.map_values(|c: Chunk| c@) =~= done.push(m));
                        match scan(tail) {
                            Ok(cs) => {
                                assert(done + (seq![m] + cs) =~= done.push(m) + cs);
                            },
                            Err(e) => {},
                        }
                    }
                },
            }
        }
        assert(buf@.subrange(pos as int, buf@.len() as int) =~= Seq::<u8>::empty());
        assert(chunks@.map_values(|c: Chunk| c@) + Seq::<ChunkModel>::empty() =~= chunks@.map_values(
            |c: Chunk| c@,
        ));
        Ok(Png { chunks })
    }

    /// The whole file: the signature, then each chunk's bytes in order.
    pub fn serialize(&self) -> (r: Vec<u8>)
        ensures
            r@ == file_bytes(self@),
    {
        let mut out: Vec<u8> = Vec::new();
        let mut k: usize = 0;
        while k < 8
            invariant
                k <= 8,
                out@ == signature().subrange(0, k as int),
            decreases 8 - k,
        {
            out.push(SIGNATURE[k]);
            k = k + 1;
            assert(out@ =~= signature().subrange(0, k as int));
        }
        let mut i: usize = 0;
        while i < self.chunks.len()
            invariant
                i <= self.chunks@.len(),
                out@ == signature() + frames(self@.subrange(0, i as int)),
            decreases self.chunks@.len() - i,
        {
            let bytes = self.chunks[i].as_bytes();
            let mut j: usize = 0;
            let ghost before = out@;
            while j < bytes.len()
                invariant
                    j <= bytes@.len(),
                    out@ == before + bytes@.subrange(0, j as int),
                decreases bytes@.len() - j,
            {
                out.push(bytes[j]);
                j = j + 1;
                assert(out@ =~= before + bytes@.subrange(0, j as int));
            }
            proof {
                lemma_frames_push(self@.subrange(0, i as int), self@[i as int]);
                assert(self@.subrange(0, i as int).push(self@[i as int]) =~= self@.subrange(
                    0,
                    i as int + 1,
                ));
                assert(bytes@.subrange(0, j as int) =~= bytes@);
            }
            i = i + 1;
            assert(out@ =~= signature() + frames(self@.subrange(0, i as int)));
        }
        assert(self@.subrange(0, i as int) =~= self@);
        out
    }

    /// Adds a chunk after the last one.
    pub fn append(&mut self, chunk: Chunk)
        ensures
            final(self)@ == old(self)@.push(chunk@),
    {
        self.chunks.push(chunk);
        assert(self@ =~= old(self)@.push(chunk@));
    }

    /// The first chunk whose type code is the bytes of `code`.
    pub fn find_by_type(&self, code: &str) -> (r: Option<&Chunk>)
        ensures
            r matches Some(c) ==> exists|i: int|
                is_first_match(self@, code.spec_bytes(), i) && c@ == self@[i],
            r is None ==> no_match(self@, code.spec_bytes()),
    {
        let wanted = code.as_bytes();
        let mut i: usize = 0;
        while i < self.chunks.len()
            invariant
                i <= self.chunks@.len(),
                wanted@ == code.spec_bytes(),
                forall|j: int| 0 <= j < i ==> (#[trigger] self@[j]).0 != wanted@,
            decreases self.chunks@.len() - i,
        {
            if has_type(&self.chunks[i], wanted) {
                assert(is_first_match(self@, wanted@, i as int));
                assert(self@[i as int] == self.chunks@[i as int]@);
                let found = &self.chunks[i];
                assert(is_first_match(self@, code.spec_bytes(), i as int) && found@ == self@[i as int]);
                return Some(found);
            }
            i = i + 1;
        }
        None
    }

    /// Takes out the first chunk whose type code is the bytes of `code`; the
    /// others keep their order.
    pub fn remove_by_type(&mut self, code: &str) -> (r: Result<Chunk, PngError>)
        ensures
            r matches Ok(c) ==> exists|i: int|
                is_first_match(old(self)@, code.spec_bytes(), i) && c@ == old(self)@[i]
                    && final(self)@ == old(self)@.remove(i),
            r matches Err(e) ==> e == PngError::NotFound && no_match(old(self)@, code.spec_bytes())
                && final(self)@ == old(self)@,
    {
        let wanted = code.as_bytes();
        let mut i: usize = 0;
        while i < self.chunks.len()
            invariant
                i <= self.chunks@.len(),
                self@ == old(self)@,
                wanted@ == code.spec_bytes(),
                forall|j: int| 0 <= j < i ==> (#[trigger] self@[j]).0 != wanted@,
            decreases self.chunks@.len() - i,
        {
            if has_type(&self.chunks[i], wanted) {
                assert(is_first_match(self@, wanted@, i as int));
                assert(self@[i as int] == self.chunks@[i as int]@);
                let c = self.chunks.remove(i);
                assert(self@ =~= old(self)@.remove(i as int));
                assert(is_first_match(old(self)@, code.spec_bytes(), i as int) && c@ == old(self)@[i as int]);
                return Ok(c);
            }
            i = i + 1;
        }
        Err(PngError::NotFound)
    }
}

} // verus!
