//! The core entry points the surrounding tooling calls with already-loaded
//! byte buffers: embed a payload chunk, look one up, remove one, or inspect
//! the whole container. Each call is a pure function of its inputs; the
//! caller reads and writes files only around these.
use crate::chunk::{Chunk, ChunkModel};
use crate::chunk_type::{ChunkType, ChunkTypeError};
use crate::png::{
    spec_append, spec_find_idx, spec_parse_png, spec_png_bytes, Png, PngDecodeError,
};
use vstd::prelude::*;
use vstd::string::StringSliceAdditionalSpecFns;

verus! {

/// Why an entry point failed.
#[derive(Debug, PartialEq, Eq)]
pub enum LibError {
    /// No chunk carries the requested identifier; holds that identifier's
    /// text.
    ChunkNotFound(String),
    /// The container bytes did not decode.
    InvalidContainer(PngDecodeError),
    /// The identifier text did not parse.
    InvalidChunkType(ChunkTypeError),
}

/// What `encode` hands back when both its inputs decode: the container with
/// a chunk of the given identifier and payload inserted before the terminal
/// marker, re-serialized.
pub open spec fn spec_encode_ok(
    cs: Seq<ChunkModel>,
    t: Seq<u8>,
    payload: Seq<u8>,
) -> Seq<u8> {
    spec_png_bytes(spec_append(cs, ChunkModel { t, d: payload }))
}

/// Decodes the container, builds a chunk from the identifier text and the
/// payload, inserts it before the terminal marker, and re-serializes.
/// Nothing is handed back unless the whole transformation succeeds.
pub fn encode(png_bytes: &[u8], chunk_type_text: &str, payload: Vec<u8>) -> (r: Result<
    Vec<u8>,
    LibError,
>)
    requires
        payload@.len() <= u32::MAX,
    ensures
        match r {
            Ok(out) => spec_parse_png(png_bytes@) matches Ok(cs)
                && chunk_type_text.spec_bytes().len() == 4
                && crate::chunk_type::all_letters(chunk_type_text.spec_bytes())
                && out@ == spec_encode_ok(cs, chunk_type_text.spec_bytes(), payload@),
            Err(e) => match e {
                LibError::InvalidContainer(pe) => spec_parse_png(png_bytes@) == Err::<
                    Seq<ChunkModel>,
                    PngDecodeError,
                >(pe),
                LibError::InvalidChunkType(te) => spec_parse_png(png_bytes@) is Ok && (
                chunk_type_text.spec_bytes().len() != 4 || !crate::chunk_type::all_letters(
                    chunk_type_text.spec_bytes(),
                )) && te == (if chunk_type_text.spec_bytes().len() != 4 {
                    ChunkTypeError::InvalidLength
                } else {
                    ChunkTypeError::InvalidByte
                }),
                LibError::ChunkNotFound(_) => false,
            },
        },
{
    let mut png = match Png::parse_from_bytes(png_bytes) {
        Ok(p) => p,
        Err(e) => {
            return Err(LibError::InvalidContainer(e));
        },
    };
    let chunk_type = match ChunkType::parse_from_text(chunk_type_text) {
        Ok(t) => t,
        Err(e) => {
            return Err(LibError::InvalidChunkType(e));
        },
    };
    let chunk = Chunk::new(chunk_type, payload);
    png.append_chunk(chunk);
    proof {
        assert(png.wf());
    }
    Ok(png.as_bytes())
}

/// Decodes the container and returns a copy of the first chunk carrying the
/// given identifier, or `ChunkNotFound` with that identifier's text.
pub fn decode(png_bytes: &[u8], chunk_type_text: &str) -> (r: Result<Chunk, LibError>)
    ensures
        match r {
            Ok(c) => spec_parse_png(png_bytes@) matches Ok(cs) && spec_find_idx(
                cs,
                chunk_type_text.spec_bytes(),
            ) >= 0 && c@ == cs[spec_find_idx(cs, chunk_type_text.spec_bytes())],
            Err(e) => match e {
                LibError::InvalidContainer(pe) => spec_parse_png(png_bytes@) == Err::<
                    Seq<ChunkModel>,
                    PngDecodeError,
                >(pe),
                LibError::InvalidChunkType(_) => spec_parse_png(png_bytes@) is Ok && (
                chunk_type_text.spec_bytes().len() != 4 || !crate::chunk_type::all_letters(
                    chunk_type_text.spec_bytes(),
                )),
                LibError::ChunkNotFound(s) => spec_parse_png(png_bytes@) matches Ok(cs)
                    && spec_find_idx(cs, chunk_type_text.spec_bytes()) == -1 && s@
                    == chunk_type_text@,
            },
        },
{
    let png = match Png::parse_from_bytes(png_bytes) {
        Ok(p) => p,
        Err(e) => {
            return Err(LibError::InvalidContainer(e));
        },
    };
    let chunk_type = match ChunkType::parse_from_text(chunk_type_text) {
        Ok(t) => t,
        Err(e) => {
            return Err(LibError::InvalidChunkType(e));
        },
    };
    match png.chunk_by_type(&chunk_type) {
        Some(c) => Ok(c.clone()),
        None => Err(LibError::ChunkNotFound(chunk_type_text.to_owned())),
    }
}

/// Decodes the container, removes the first chunk carrying the given
/// identifier, and hands back the re-serialized container without it,
/// together with the removed chunk. The bytes are produced only after the
/// whole transformation has succeeded.
pub fn remove(png_bytes: &[u8], chunk_type_text: &str) -> (r: Result<(Vec<u8>, Chunk), LibError>)
    ensures
        match r {
            Ok((out, c)) => spec_parse_png(png_bytes@) matches Ok(cs) && spec_find_idx(
                cs,
                chunk_type_text.spec_bytes(),
            ) >= 0 && c@ == cs[spec_find_idx(cs, chunk_type_text.spec_bytes())] && out@
                == spec_png_bytes(cs.remove(spec_find_idx(cs, chunk_type_text.spec_bytes()))),
            Err(e) => match e {
                LibError::InvalidContainer(pe) => spec_parse_png(png_bytes@) == Err::<
                    Seq<ChunkModel>,
                    PngDecodeError,
                >(pe),
                LibError::InvalidChunkType(_) => spec_parse_png(png_bytes@) is Ok && (
                chunk_type_text.spec_bytes().len() != 4 || !crate::chunk_type::all_letters(
                    chunk_type_text.spec_bytes(),
                )),
                LibError::ChunkNotFound(_) => spec_parse_png(png_bytes@) matches Ok(cs)
                    && spec_find_idx(cs, chunk_type_text.spec_bytes()) == -1,
            },
        },
{
    let mut png = match Png::parse_from_bytes(png_bytes) {
        Ok(p) => p,
        Err(e) => {
            return Err(LibError::InvalidContainer(e));
        },
    };
    let chunk_type = match ChunkType::parse_from_text(chunk_type_text) {
        Ok(t) => t,
        Err(e) => {
            return Err(LibError::InvalidChunkType(e));
        },
    };
    let ghost cs = png@;
    let chunk = match png.remove_chunk(&chunk_type) {
        Ok(c) => c,
        Err(e) => {
            return Err(e);
        },
    };
    proof {
        let idx = spec_find_idx(cs, chunk_type@);
        crate::png::lemma_find_idx_in_range(cs, chunk_type@);
        cs.remove_ensures(idx);
        assert(forall|i: int| 0 <= i < png@.len() ==> (#[trigger] png@[i]).wf());
    }
    let out = png.as_bytes();
    Ok((out, chunk))
}

/// Decodes the container for display.
pub fn print(png_bytes: &[u8]) -> (r: Result<Png, LibError>)
    ensures
        match r {
            Ok(p) => spec_parse_png(png_bytes@) == Ok::<Seq<ChunkModel>, PngDecodeError>(p@)
                && p.wf(),
            Err(e) => e matches LibError::InvalidContainer(pe) && spec_parse_png(png_bytes@)
                == Err::<Seq<ChunkModel>, PngDecodeError>(pe),
        },
{
    match Png::parse_from_bytes(png_bytes) {
        Ok(p) => Ok(p),
        Err(e) => Err(LibError::InvalidContainer(e)),
    }
}

} // verus!
