//! Length-prefixed, checksummed binary records: identifier + payload + CRC.
use crate::checksum::{crc32_ieee, crc32_of};
use crate::chunk_type::{all_letters, ChunkType, ChunkTypeError};
use crate::text::bytes_to_string;
use crate::wire::{
    lemma_u32_be_bytes_roundtrip, push_u32_be, read_u32_be, spec_u32_from_be_bytes,
    spec_u32_to_be_bytes,
};
use vstd::prelude::*;
use vstd::utf8::{decode_utf8, valid_utf8};

verus! {

/// The mathematical content of a chunk: its identifier bytes and its payload
/// bytes. Length and checksum are derived from these, never stored.
pub ghost struct ChunkModel {
    pub t: Seq<u8>,
    pub d: Seq<u8>,
}

impl ChunkModel {
    /// Four-letter identifier, and a payload whose length fits the four-byte
    /// wire length field.
    pub open spec fn wf(self) -> bool {
        &&& self.t.len() == 4
        &&& all_letters(self.t)
        &&& self.d.len() <= u32::MAX
    }
}

/// Why a byte slice was rejected as a chunk.
#[derive(Debug, Clone, Copy, PartialEq, Eq)]
pub enum ChunkDecodeError {
    /// Fewer than the 12 bytes that even an empty chunk occupies.
    Truncated,
    /// The slice length does not equal the declared payload length plus 12.
    LengthMismatch,
    /// The identifier bytes are not four ASCII letters.
    InvalidIdentifier(ChunkTypeError),
    /// The stored checksum differs from the one recomputed over
    /// identifier and payload.
    ChecksumMismatch,
}

/// Failure to read a payload as UTF-8 text.
#[derive(Debug, Clone, Copy, PartialEq, Eq)]
pub struct Utf8DecodeFailure;

/// The serialized form of a chunk: payload length (4 bytes, big-endian),
/// identifier, payload, then the CRC-32 of identifier ++ payload
/// (4 bytes, big-endian).
pub open spec fn spec_chunk_bytes(t: Seq<u8>, d: Seq<u8>) -> Seq<u8> {
    spec_u32_to_be_bytes(d.len() as u32) + t + d + spec_u32_to_be_bytes(crc32_of(t + d))
}

/// The number of bytes a chunk occupies on the wire.
pub open spec fn spec_chunk_wire_len(d: Seq<u8>) -> int {
    12 + d.len() as int
}

/// The outcome of decoding one chunk from a byte slice, exactly as
/// `Chunk::parse_from_bytes` behaves: truncation, then length, then
/// identifier, then checksum.
pub open spec fn spec_parse_chunk(b: Seq<u8>) -> Result<ChunkModel, ChunkDecodeError> {
    if b.len() < 12 {
        Err(ChunkDecodeError::Truncated)
    } else {
        let l = spec_u32_from_be_bytes(b.subrange(0, 4)) as int;
        if b.len() != l + 12 {
            Err(ChunkDecodeError::LengthMismatch)
        } else {
            let t = b.subrange(4, 8);
            let d = b.subrange(8, 8 + l);
            if !all_letters(t) {
                Err(ChunkDecodeError::InvalidIdentifier(ChunkTypeError::InvalidByte))
            } else if spec_u32_from_be_bytes(b.subrange(8 + l, 12 + l)) != crc32_of(t + d) {
                Err(ChunkDecodeError::ChecksumMismatch)
            } else {
                Ok(ChunkModel { t, d })
            }
        }
    }
}

/// A chunk: an identifier and an arbitrary payload. A value of this type is
/// well-formed by construction; the length field and checksum exist only on
/// the wire and are recomputed, never trusted.
#[derive(Debug)]
pub struct Chunk {
    chunk_type: ChunkType,
    data: Vec<u8>,
}

impl View for Chunk {
    type V = ChunkModel;

    closed spec fn view(&self) -> ChunkModel {
        ChunkModel { t: self.chunk_type@, d: self.data@ }
    }
}

impl Clone for Chunk {
    /// A clone carries the same identifier and payload.
    fn clone(&self) -> (r: Self)
        ensures
            r@ == self@,
    {
        Chunk {
            chunk_type: self.chunk_type,
            data: vstd::slice::slice_to_vec(self.data.as_slice()),
        }
    }
}

impl Chunk {
    /// Trusted constructor: any identifier and payload, no validation.
    pub fn new(chunk_type: ChunkType, data: Vec<u8>) -> (r: Chunk)
        ensures
            r@ == (ChunkModel { t: chunk_type@, d: data@ }),
    {
        Chunk { chunk_type, data }
    }

    /// The payload's byte count, recomputed from the payload itself.
    pub fn length(&self) -> (r: usize)
        ensures
            r == self@.d.len(),
    {
        self.data.len()
    }

    /// The chunk's identifier.
    pub fn chunk_type(&self) -> (r: &ChunkType)
        ensures
            r@ == self@.t,
    {
        &self.chunk_type
    }

    /// The payload bytes, unchanged.
    pub fn data(&self) -> (r: &[u8])
        ensures
            r@ == self@.d,
    {
        self.data.as_slice()
    }

    /// The CRC-32 (IEEE polynomial) over identifier ++ payload, recomputed
    /// on every call.
    pub fn crc(&self) -> (r: u32)
        ensures
            r == crc32_of(self@.t + self@.d),
    {
        let tb = self.chunk_type.bytes();
        let mut v: Vec<u8> = Vec::new();
        v.push(tb[0]);
        v.push(tb[1]);
        v.push(tb[2]);
        v.push(tb[3]);
        let mut i: usize = 0;
        while i < self.data.len()
            invariant
                i <= self.data@.len(),
                v@ == self@.t.subrange(0, 4) + self@.d.subrange(0, i as int),
            decreases self.data@.len() - i,
        {
            v.push(self.data[i]);
            proof {
                assert(v@ =~= self@.t.subrange(0, 4) + self@.d.subrange(0, i + 1));
            }
            i += 1;
        }
        proof {
            assert(v@ =~= self@.t + self@.d);
        }
        crc32_ieee(&v)
    }

    /// The payload read as UTF-8 text: succeeds exactly when the payload is
    /// valid UTF-8, with no loss or substitution.
    pub fn data_as_string(&self) -> (r: Result<String, Utf8DecodeFailure>)
        ensures
            match r {
                Ok(s) => valid_utf8(self@.d) && s@ == decode_utf8(self@.d),
                Err(e) => !valid_utf8(self@.d) && e == Utf8DecodeFailure,
            },
    {
        match bytes_to_string(&self.data) {
            Some(s) => Ok(s),
            None => Err(Utf8DecodeFailure),
        }
    }

    /// Serializes the chunk: length, identifier, payload, checksum.
    pub fn as_bytes(&self) -> (r: Vec<u8>)
        requires
            self@.d.len() <= u32::MAX,
        ensures
            r@ == spec_chunk_bytes(self@.t, self@.d),
            r@.len() == spec_chunk_wire_len(self@.d),
    {
        let mut out: Vec<u8> = Vec::new();
        let len32 = self.data.len() as u32;
        push_u32_be(&mut out, len32);
        let tb = self.chunk_type.bytes();
        out.push(tb[0]);
        out.push(tb[1]);
        out.push(tb[2]);
        out.push(tb[3]);
        proof {
            assert(out@ =~= spec_u32_to_be_bytes(self@.d.len() as u32) + self@.t);
        }
        let mut i: usize = 0;
        while i < self.data.len()
            invariant
                i <= self.data@.len(),
                self@.d == self.data@,
                out@ == spec_u32_to_be_bytes(self@.d.len() as u32) + self@.t + self@.d.subrange(
                    0,
                    i as int,
                ),
            decreases self.data@.len() - i,
        {
            out.push(self.data[i]);
            proof {
                assert(out@ =~= spec_u32_to_be_bytes(self@.d.len() as u32) + self@.t
                    + self@.d.subrange(0, i + 1));
            }
            i += 1;
        }
        let crc = self.crc();
        push_u32_be(&mut out, crc);
        proof {
            assert(self@.d.subrange(0, self@.d.len() as int) =~= self@.d);
            assert(out@ =~= spec_chunk_bytes(self@.t, self@.d));
        }
        out
    }

    /// Decodes one chunk from a slice that must hold exactly that chunk.
    /// The outcome is `spec_parse_chunk` of the slice: `Truncated` under 12
    /// bytes, `LengthMismatch` unless the slice is the declared payload
    /// length plus 12, `InvalidIdentifier` unless the identifier is four
    /// letters, `ChecksumMismatch` unless the stored checksum equals the one
    /// recomputed over identifier and payload.
    pub fn parse_from_bytes(bytes: &[u8]) -> (r: Result<Chunk, ChunkDecodeError>)
        ensures
            match r {
                Ok(c) => spec_parse_chunk(bytes@) == Ok::<ChunkModel, ChunkDecodeError>(c@)
                    && c@.wf(),
                Err(e) => spec_parse_chunk(bytes@) == Err::<ChunkModel, ChunkDecodeError>(e),
            },
            bytes@.len() < 12 ==> (r matches Err(e) && e == ChunkDecodeError::Truncated),
    {
        let n = bytes.len();
        if n < 12 {
            return Err(ChunkDecodeError::Truncated);
        }
        let l = read_u32_be(bytes, 0);
        if (n as u64) != (l as u64) + 12 {
            return Err(ChunkDecodeError::LengthMismatch);
        }
        let l_usize = l as usize;
        let raw_type: [u8; 4] = [
            *vstd::slice::slice_index_get(bytes, 4),
            *vstd::slice::slice_index_get(bytes, 5),
            *vstd::slice::slice_index_get(bytes, 6),
            *vstd::slice::slice_index_get(bytes, 7),
        ];
        proof {
            assert(raw_type@ =~= bytes@.subrange(4, 8));
        }
        let chunk_type = match ChunkType::parse_from_bytes(raw_type) {
            Ok(t) => t,
            Err(e) => {
                return Err(ChunkDecodeError::InvalidIdentifier(e));
            },
        };
        let payload: Vec<u8> = vstd::slice::slice_to_vec(
            vstd::slice::slice_subrange(bytes, 8, 8 + l_usize),
        );
        let chunk = Chunk { chunk_type, data: payload };
        let declared = read_u32_be(bytes, 8 + l_usize);
        let computed = chunk.crc();
        if declared != computed {
            return Err(ChunkDecodeError::ChecksumMismatch);
        }
        proof {
            assert(bytes@.subrange(8 + l as int, 12 + l as int) =~= bytes@.subrange(
                8 + l as int,
                8 + l as int + 4,
            ));
        }
        Ok(chunk)
    }
}

/// Round trip: parsing a well-formed chunk's serialized bytes yields the
/// same identifier and payload.
pub proof fn lemma_chunk_round_trip(t: Seq<u8>, d: Seq<u8>)
    requires
        t.len() == 4,
        all_letters(t),
        d.len() <= u32::MAX,
    ensures
        spec_parse_chunk(spec_chunk_bytes(t, d)) == Ok::<ChunkModel, ChunkDecodeError>(
            ChunkModel { t, d },
        ),
{
    let b = spec_chunk_bytes(t, d);
    let len32 = d.len() as u32;
    let crc = crc32_of(t + d);
    lemma_u32_be_bytes_roundtrip(len32);
    lemma_u32_be_bytes_roundtrip(crc);
    assert(b.len() == 12 + d.len());
    assert(b.subrange(0, 4) =~= spec_u32_to_be_bytes(len32));
    assert(spec_u32_from_be_bytes(b.subrange(0, 4)) == len32);
    assert(b.subrange(4, 8) =~= t);
    assert(b.subrange(8, 8 + d.len() as int) =~= d);
    assert(b.subrange(8 + d.len() as int, 12 + d.len() as int) =~= spec_u32_to_be_bytes(crc));
    assert(spec_u32_from_be_bytes(b.subrange(8 + d.len() as int, 12 + d.len() as int)) == crc);
}

} // verus!
