//! The container: an ordered sequence of chunks bracketed by a fixed
//! eight-byte signature and closed by a terminal marker chunk.
use crate::chunk::{spec_chunk_bytes, spec_parse_chunk, Chunk, ChunkDecodeError, ChunkModel};
use crate::chunk_type::{spec_terminal_id, ChunkType};
use crate::commands::LibError;
use crate::wire::{read_u32_be, spec_u32_from_be_bytes};
use vstd::prelude::*;

verus! {

/// The fixed eight-byte signature that opens every container.
pub open spec fn spec_sig() -> Seq<u8> {
    seq![137u8, 80u8, 78u8, 71u8, 13u8, 10u8, 26u8, 10u8]
}

/// Why a byte buffer was rejected as a container.
#[derive(Debug, Clone, Copy, PartialEq, Eq)]
pub enum PngDecodeError {
    /// The buffer does not begin with the eight-byte signature.
    SignatureMismatch,
    /// Some chunk failed to decode; carries that chunk's failure.
    InvalidChunk(ChunkDecodeError),
}

/// The models of a sequence of chunk values.
pub open spec fn spec_models(cs: Seq<Chunk>) -> Seq<ChunkModel> {
    Seq::new(cs.len(), |i: int| cs[i]@)
}

/// The concatenated serialized forms of the chunks, in order.
pub open spec fn spec_chunks_bytes(cs: Seq<ChunkModel>) -> Seq<u8>
    decreases cs.len(),
{
    if cs.len() == 0 {
        Seq::empty()
    } else {
        spec_chunk_bytes(cs[0].t, cs[0].d) + spec_chunks_bytes(cs.drop_first())
    }
}

/// The serialized container: signature, then every chunk in order.
pub open spec fn spec_png_bytes(cs: Seq<ChunkModel>) -> Seq<u8> {
    spec_sig() + spec_chunks_bytes(cs)
}

/// Decoding a run of chunks: repeatedly take one chunk of declared size off
/// the front, until the terminal identifier is consumed or the input is
/// exhausted; the first failure aborts the whole decode.
pub open spec fn spec_parse_chunks(b: Seq<u8>) -> Result<Seq<ChunkModel>, ChunkDecodeError>
    decreases b.len(),
{
    if b.len() == 0 {
        Ok(Seq::empty())
    } else if b.len() < 12 {
        Err(ChunkDecodeError::Truncated)
    } else {
        let l = spec_u32_from_be_bytes(b.subrange(0, 4)) as int;
        if b.len() < l + 12 {
            Err(ChunkDecodeError::LengthMismatch)
        } else {
            match spec_parse_chunk(b.subrange(0, l + 12)) {
                Err(e) => Err(e),
                Ok(m) => if m.t == spec_terminal_id() {
                    Ok(seq![m])
                } else {
                    match spec_parse_chunks(b.subrange(l + 12, b.len() as int)) {
                        Err(e) => Err(e),
                        Ok(rest) => Ok(seq![m] + rest),
                    }
                },
            }
        }
    }
}

/// Decoding a whole container: the signature byte-for-byte, then the chunks.
pub open spec fn spec_parse_png(b: Seq<u8>) -> Result<Seq<ChunkModel>, PngDecodeError> {
    if b.len() < 8 || b.subrange(0, 8) != spec_sig() {
        Err(PngDecodeError::SignatureMismatch)
    } else {
        match spec_parse_chunks(b.subrange(8, b.len() as int)) {
            Ok(cs) => Ok(cs),
            Err(e) => Err(PngDecodeError::InvalidChunk(e)),
        }
    }
}

/// Where a new chunk lands: immediately before a terminal marker that closes
/// the sequence, or at the end if none does.
pub open spec fn spec_append(cs: Seq<ChunkModel>, c: ChunkModel) -> Seq<ChunkModel> {
    if cs.len() > 0 && cs.last().t == spec_terminal_id() {
        cs.subrange(0, cs.len() - 1) + seq![c] + seq![cs.last()]
    } else {
        cs.push(c)
    }
}

/// The index of the first chunk carrying `id`, or -1 if none does.
pub open spec fn spec_find_idx(cs: Seq<ChunkModel>, id: Seq<u8>) -> int
    decreases cs.len(),
{
    if cs.len() == 0 {
        -1
    } else if cs[0].t == id {
        0
    } else {
        let r = spec_find_idx(cs.drop_first(), id);
        if r < 0 {
            -1
        } else {
            r + 1
        }
    }
}

/// When no chunk carries `id`, the lookup index is -1.
pub proof fn lemma_find_idx_none(cs: Seq<ChunkModel>, id: Seq<u8>)
    requires
        forall|j: int| 0 <= j < cs.len() ==> (#[trigger] cs[j]).t != id,
    ensures
        spec_find_idx(cs, id) == -1,
    decreases cs.len(),
{
    if cs.len() > 0 {
        lemma_find_idx_none(cs.drop_first(), id);
    }
}

/// The lookup index is -1 or a position within the sequence.
pub proof fn lemma_find_idx_in_range(cs: Seq<ChunkModel>, id: Seq<u8>)
    ensures
        -1 <= spec_find_idx(cs, id) < cs.len(),
    decreases cs.len(),
{
    if cs.len() > 0 && cs[0].t != id {
        lemma_find_idx_in_range(cs.drop_first(), id);
    }
}

/// When `i` is the first index carrying `id`, the lookup index is `i`.
pub proof fn lemma_find_idx_at(cs: Seq<ChunkModel>, id: Seq<u8>, i: int)
    requires
        0 <= i < cs.len(),
        cs[i].t == id,
        forall|j: int| 0 <= j < i ==> (#[trigger] cs[j]).t != id,
    ensures
        spec_find_idx(cs, id) == i,
    decreases cs.len(),
{
    if i > 0 {
        lemma_find_idx_at(cs.drop_first(), id, i - 1);
    }
}

/// Composition of an already-parsed prefix with the outcome of parsing the
/// rest: failures pass through, successes concatenate.
pub open spec fn spec_compose(
    pre: Seq<ChunkModel>,
    r: Result<Seq<ChunkModel>, ChunkDecodeError>,
) -> Result<Seq<ChunkModel>, ChunkDecodeError> {
    match r {
        Ok(s) => Ok(pre + s),
        Err(e) => Err(e),
    }
}

/// A container. The chunk sequence is ordered; a decoded container ends with
/// the terminal marker chunk.
#[derive(Debug)]
pub struct Png {
    chunks: Vec<Chunk>,
}

impl View for Png {
    type V = Seq<ChunkModel>;

    closed spec fn view(&self) -> Seq<ChunkModel> {
        spec_models(self.chunks@)
    }
}

impl Png {
    /// Every chunk is well-formed: four-letter identifier, payload within
    /// the wire length field's range.
    pub open spec fn wf(&self) -> bool {
        forall|i: int| 0 <= i < self@.len() ==> (#[trigger] self@[i]).wf()
    }

    /// A container over the given chunks, in the given order.
    pub fn from_chunks(chunks: Vec<Chunk>) -> (r: Png)
        ensures
            r@ == spec_models(chunks@),
    {
        Png { chunks }
    }

    /// The chunks, in sequence order.
    pub fn chunks(&self) -> (r: &Vec<Chunk>)
        ensures
            r@.len() == self@.len(),
            forall|i: int| 0 <= i < self@.len() ==> (#[trigger] r@[i])@ == self@[i],
    {
        &self.chunks
    }

    /// Decodes a container. Fails with `SignatureMismatch` unless the buffer
    /// begins with the eight-byte signature, whatever follows; afterwards the
    /// outcome is `spec_parse_png` of the buffer, each chunk failure wrapped
    /// and propagated immediately.
    pub fn parse_from_bytes(bytes: &[u8]) -> (r: Result<Png, PngDecodeError>)
        ensures
            match r {
                Ok(p) => spec_parse_png(bytes@) == Ok::<Seq<ChunkModel>, PngDecodeError>(p@)
                    && p.wf(),
                Err(e) => spec_parse_png(bytes@) == Err::<Seq<ChunkModel>, PngDecodeError>(e),
            },
            (bytes@.len() < 8 || bytes@.subrange(0, 8) != spec_sig()) ==> r == Err::<
                Png,
                PngDecodeError,
            >(PngDecodeError::SignatureMismatch),
    {
        let n = bytes.len();
        if n < 8 {
            return Err(PngDecodeError::SignatureMismatch);
        }
        let sig_ok = *vstd::slice::slice_index_get(bytes, 0) == 137
            && *vstd::slice::slice_index_get(bytes, 1) == 80
            && *vstd::slice::slice_index_get(bytes, 2) == 78
            && *vstd::slice::slice_index_get(bytes, 3) == 71
            && *vstd::slice::slice_index_get(bytes, 4) == 13
            && *vstd::slice::slice_index_get(bytes, 5) == 10
            && *vstd::slice::slice_index_get(bytes, 6) == 26
            && *vstd::slice::slice_index_get(bytes, 7) == 10;
        proof {
            if sig_ok {
                assert(bytes@.subrange(0, 8) =~= spec_sig());
            } else {
                if bytes@.subrange(0, 8) == spec_sig() {
                    assert(forall|i: int|
                        0 <= i < 8 ==> bytes@[i] == #[trigger] bytes@.subrange(0, 8)[i]);
                    assert(false);
                }
            }
        }
        if !sig_ok {
            return Err(PngDecodeError::SignatureMismatch);
        }
        let ghost whole = bytes@.subrange(8, n as int);
        let mut chunks: Vec<Chunk> = Vec::new();
        let mut off: usize = 8;
        let mut done = false;
        while !done && off < n
            invariant
                8 <= off <= n,
                n == bytes@.len(),
                bytes@.subrange(0, 8) == spec_sig(),
                whole == bytes@.subrange(8, n as int),
                forall|i: int| 0 <= i < spec_models(chunks@).len() ==> (#[trigger] spec_models(
                    chunks@,
                )[i]).wf(),
                !done ==> spec_parse_chunks(whole) == spec_compose(
                    spec_models(chunks@),
                    spec_parse_chunks(bytes@.subrange(off as int, n as int)),
                ),
                done ==> spec_parse_chunks(whole) == Ok::<Seq<ChunkModel>, ChunkDecodeError>(
                    spec_models(chunks@),
                ),
            decreases n - off + (if done { 0int } else { 1int }),
        {
            let ghost rest = bytes@.subrange(off as int, n as int);
            let r_len = n - off;
            if r_len < 12 {
                assert(spec_parse_chunks(rest) == Err::<Seq<ChunkModel>, ChunkDecodeError>(
                    ChunkDecodeError::Truncated,
                ));
                return Err(PngDecodeError::InvalidChunk(ChunkDecodeError::Truncated));
            }
            let l = read_u32_be(bytes, off);
            proof {
                assert(rest.subrange(0, 4) =~= bytes@.subrange(off as int, off as int + 4));
            }
            if (l as u64) + 12 > (r_len as u64) {
                assert(spec_parse_chunks(rest) == Err::<Seq<ChunkModel>, ChunkDecodeError>(
                    ChunkDecodeError::LengthMismatch,
                ));
                return Err(PngDecodeError::InvalidChunk(ChunkDecodeError::LengthMismatch));
            }
            let end = off + 12 + (l as usize);
            let sub = vstd::slice::slice_subrange(bytes, off, end);
            proof {
                assert(sub@ =~= rest.subrange(0, l as int + 12));
            }
            match Chunk::parse_from_bytes(sub) {
                Err(e) => {
                    assert(spec_parse_chunks(rest) == Err::<Seq<ChunkModel>, ChunkDecodeError>(e));
                    return Err(PngDecodeError::InvalidChunk(e));
                },
                Ok(c) => {
                    let is_term = c.chunk_type().is_terminal();
                    proof {
                        assert(spec_parse_chunk(rest.subrange(0, l as int + 12))
                            == Ok::<ChunkModel, ChunkDecodeError>(c@));
                        if is_term {
                            assert(spec_parse_chunks(rest) == Ok::<
                                Seq<ChunkModel>,
                                ChunkDecodeError,
                            >(seq![c@]));
                        } else {
                            assert(rest.subrange(l as int + 12, rest.len() as int) =~= bytes@
                                .subrange(end as int, n as int));
                            assert(spec_parse_chunks(rest) == spec_compose(
                                seq![c@],
                                spec_parse_chunks(bytes@.subrange(end as int, n as int)),
                            ));
                        }
                    }
                    let ghost pre = spec_models(chunks@);
                    chunks.push(c);
                    proof {
                        assert(spec_models(chunks@) =~= pre + seq![c@]);
                        if is_term {
                            assert(pre + seq![c@] =~= spec_models(chunks@));
                            assert(spec_parse_chunks(whole) == Ok::<
                                Seq<ChunkModel>,
                                ChunkDecodeError,
                            >(spec_models(chunks@)));
                        } else {
                            match spec_parse_chunks(bytes@.subrange(end as int, n as int)) {
                                Ok(s) => {
                                    assert(pre + (seq![c@] + s) =~= spec_models(chunks@) + s);
                                },
                                Err(_) => {},
                            }
                        }
                    }
                    if is_term {
                        done = true;
                    }
                    off = end;
                },
            }
        }
        proof {
            if !done {
                assert(off == n);
                assert(bytes@.subrange(off as int, n as int).len() == 0);
                assert(spec_parse_chunks(bytes@.subrange(off as int, n as int)) == Ok::<
                    Seq<ChunkModel>,
                    ChunkDecodeError,
                >(Seq::empty()));
                assert(spec_models(chunks@) + Seq::<ChunkModel>::empty() =~= spec_models(chunks@));
            }
        }
        let png = Png { chunks };
        Ok(png)
    }

    /// Serializes the container: the signature, then every chunk in order.
    pub fn as_bytes(&self) -> (r: Vec<u8>)
        requires
            self.wf(),
        ensures
            r@ == spec_png_bytes(self@),
    {
        let mut out: Vec<u8> = Vec::new();
        out.push(137);
        out.push(80);
        out.push(78);
        out.push(71);
        out.push(13);
        out.push(10);
        out.push(26);
        out.push(10);
        proof {
            assert(out@ =~= spec_sig());
            assert(self@.subrange(0, 0) =~= Seq::<ChunkModel>::empty());
        }
        let k = self.chunks.len();
        let mut i: usize = 0;
        while i < k
            invariant
                i <= k,
                k == self.chunks@.len(),
                self.wf(),
                out@ == spec_sig() + spec_chunks_bytes(self@.subrange(0, i as int)),
            decreases k - i,
        {
            proof {
                assert(self.chunks@[i as int]@ == self@[i as int]);
                assert(self@[i as int].wf());
            }
            let mut cb = self.chunks[i].as_bytes();
            out.append(&mut cb);
            proof {
                lemma_chunks_bytes_snoc(self@.subrange(0, i + 1));
                assert(self@.subrange(0, i + 1).drop_last() =~= self@.subrange(0, i as int));
                assert(out@ =~= spec_sig() + spec_chunks_bytes(self@.subrange(0, i + 1)));
            }
            i += 1;
        }
        proof {
            assert(self@.subrange(0, k as int) =~= self@);
        }
        out
    }

    /// Inserts `chunk` immediately before the terminal marker if one closes
    /// the sequence, else at the end.
    pub fn append_chunk(&mut self, chunk: Chunk)
        ensures
            final(self)@ == spec_append(old(self)@, chunk@),
    {
        let k = self.chunks.len();
        if k > 0 && self.chunks[k - 1].chunk_type().is_terminal() {
            self.chunks.insert(k - 1, chunk);
            proof {
                assert(self@ =~= spec_append(old(self)@, chunk@));
            }
        } else {
            self.chunks.push(chunk);
            proof {
                assert(self@ =~= spec_append(old(self)@, chunk@));
            }
        }
    }

    /// The first chunk, in sequence order, whose identifier equals `target`
    /// byte-for-byte; `None` if no chunk carries it.
    pub fn chunk_by_type(&self, target: &ChunkType) -> (r: Option<&Chunk>)
        ensures
            match r {
                Some(c) => spec_find_idx(self@, target@) >= 0 && c@ == self@[spec_find_idx(
                    self@,
                    target@,
                )],
                None => spec_find_idx(self@, target@) == -1,
            },
    {
        let k = self.chunks.len();
        let mut i: usize = 0;
        while i < k
            invariant
                i <= k,
                k == self.chunks@.len(),
                forall|j: int| 0 <= j < i ==> (#[trigger] self@[j]).t != target@,
            decreases k - i,
        {
            if self.chunks[i].chunk_type().eq_bytes(target) {
                proof {
                    lemma_find_idx_at(self@, target@, i as int);
                }
                return Some(&self.chunks[i]);
            }
            i += 1;
        }
        proof {
            lemma_find_idx_none(self@, target@);
        }
        None
    }

    /// Removes and returns the first chunk carrying `target`; the other
    /// chunks keep their relative order. Fails with `ChunkNotFound`, leaving
    /// the container unchanged, if no chunk carries it.
    pub fn remove_chunk(&mut self, target: &ChunkType) -> (r: Result<Chunk, LibError>)
        requires
            target.wf(),
        ensures
            ({
                let idx = spec_find_idx(old(self)@, target@);
                match r {
                    Ok(c) => idx >= 0 && c@ == old(self)@[idx] && final(self)@ == old(self)@.remove(
                        idx,
                    ),
                    Err(e) => idx == -1 && final(self)@ == old(self)@ && (e matches
                        LibError::ChunkNotFound(s) && s@ == target@.map_values(|b: u8| b as char)),
                }
            }),
    {
        let k = self.chunks.len();
        let mut i: usize = 0;
        while i < k
            invariant
                i <= k,
                *self == *old(self),
                k == self.chunks@.len(),
                forall|j: int| 0 <= j < i ==> (#[trigger] self@[j]).t != target@,
            decreases k - i,
        {
            if self.chunks[i].chunk_type().eq_bytes(target) {
                proof {
                    lemma_find_idx_at(self@, target@, i as int);
                }
                let c = self.chunks.remove(i);
                proof {
                    old(self).chunks@.remove_ensures(i as int);
                    old(self)@.remove_ensures(i as int);
                    assert(c@ == old(self)@[i as int]);
                    assert(self@ =~= old(self)@.remove(i as int));
                }
                return Ok(c);
            }
            i += 1;
        }
        proof {
            lemma_find_idx_none(self@, target@);
        }
        let s = target.text();
        proof {
            assert(s@ =~= target@.map_values(|b: u8| b as char));
        }
        Err(LibError::ChunkNotFound(s))
    }
}

/// A non-empty chunk sequence serializes to the serialization of all but the
/// last chunk, followed by the last chunk's serialization.
pub proof fn lemma_chunks_bytes_snoc(cs: Seq<ChunkModel>)
    requires
        cs.len() > 0,
    ensures
        spec_chunks_bytes(cs) == spec_chunks_bytes(cs.drop_last()) + spec_chunk_bytes(
            cs.last().t,
            cs.last().d,
        ),
    decreases cs.len(),
{
    if cs.len() == 1 {
        assert(cs.drop_last() =~= Seq::<ChunkModel>::empty());
        assert(cs.drop_first() =~= Seq::<ChunkModel>::empty());
        assert(spec_chunks_bytes(cs) =~= spec_chunks_bytes(cs.drop_last()) + spec_chunk_bytes(
            cs.last().t,
            cs.last().d,
        ));
    } else {
        lemma_chunks_bytes_snoc(cs.drop_first());
        assert(cs.drop_first().drop_last() =~= cs.drop_last().drop_first());
        assert(cs.drop_last()[0] == cs[0]);
        assert(spec_chunks_bytes(cs) =~= spec_chunks_bytes(cs.drop_last()) + spec_chunk_bytes(
            cs.last().t,
            cs.last().d,
        ));
    }
}

/// After appending a chunk whose identifier no present chunk carries, looking
/// that identifier up finds exactly the appended chunk, and a terminal marker
/// that closed the sequence still closes it.
pub proof fn lemma_append_then_find(cs: Seq<ChunkModel>, c: ChunkModel)
    requires
        forall|j: int| 0 <= j < cs.len() ==> (#[trigger] cs[j]).t != c.t,
    ensures
        ({
            let s2 = spec_append(cs, c);
            &&& spec_find_idx(s2, c.t) >= 0
            &&& s2[spec_find_idx(s2, c.t)] == c
            &&& (cs.len() > 0 && cs.last().t == spec_terminal_id() ==> s2.last() == cs.last())
        }),
{
    let s2 = spec_append(cs, c);
    if cs.len() > 0 && cs.last().t == spec_terminal_id() {
        assert(s2 =~= cs.subrange(0, cs.len() - 1) + seq![c] + seq![cs.last()]);
        let i = cs.len() - 1;
        assert(s2[i as int] == c);
        assert(forall|j: int| 0 <= j < i ==> s2[j] == cs[j]);
        lemma_find_idx_at(s2, c.t, i as int);
    } else {
        let i = cs.len();
        assert(s2[i as int] == c);
        assert(forall|j: int| 0 <= j < i ==> s2[j] == cs[j]);
        lemma_find_idx_at(s2, c.t, i as int);
    }
}

} // verus!
