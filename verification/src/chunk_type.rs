//! Four-letter chunk identifiers with case-encoded capability bits.
use crate::text::{bytes_to_string, lemma_ascii_bytes_valid_utf8};
use vstd::prelude::*;
use vstd::string::StringSliceAdditionalSpecFns;

verus! {

/// An ASCII upper-case letter.
pub open spec fn is_upper(b: u8) -> bool {
    65 <= b <= 90
}

/// An ASCII lower-case letter.
pub open spec fn is_lower(b: u8) -> bool {
    97 <= b <= 122
}

/// An ASCII letter of either case.
pub open spec fn is_letter(b: u8) -> bool {
    is_upper(b) || is_lower(b)
}

/// Every byte of the sequence is an ASCII letter.
pub open spec fn all_letters(s: Seq<u8>) -> bool {
    forall|i: int| 0 <= i < s.len() ==> is_letter(#[trigger] s[i])
}

/// The identifier of the terminal marker chunk that closes a container:
/// the letters `IEND`.
pub open spec fn spec_terminal_id() -> Seq<u8> {
    seq![73u8, 69u8, 78u8, 68u8]
}

/// Why a byte sequence or text was rejected as a chunk identifier.
#[derive(Debug, Clone, Copy, PartialEq, Eq)]
pub enum ChunkTypeError {
    /// The text does not hold exactly four bytes.
    InvalidLength,
    /// Some byte is not an ASCII letter.
    InvalidByte,
}

/// A four-letter chunk identifier. Each byte must be an ASCII letter; the
/// case of bytes 0, 1, 2 and 3 encodes the critical, public, reserved and
/// safe-to-copy bits respectively.
#[derive(Debug, Clone, Copy)]
pub struct ChunkType {
    value: [u8; 4],
}

impl View for ChunkType {
    type V = Seq<u8>;

    closed spec fn view(&self) -> Seq<u8> {
        self.value@
    }
}

/// Whether the byte is an ASCII letter.
fn byte_is_letter(b: u8) -> (r: bool)
    ensures
        r == is_letter(b),
{
    (65 <= b && b <= 90) || (97 <= b && b <= 122)
}

impl ChunkType {
    /// Always four ASCII letters.
    pub open spec fn wf(&self) -> bool {
        self@.len() == 4 && all_letters(self@)
    }

    /// Builds an identifier from four raw bytes. Succeeds exactly when all
    /// four bytes are ASCII letters; the reserved-bit rule is checked by
    /// `is_valid`, not here.
    pub fn parse_from_bytes(raw: [u8; 4]) -> (r: Result<ChunkType, ChunkTypeError>)
        ensures
            all_letters(raw@) ==> (r matches Ok(t) && t@ == raw@ && t.wf()),
            !all_letters(raw@) ==> r == Err::<ChunkType, ChunkTypeError>(
                ChunkTypeError::InvalidByte,
            ),
    {
        let mut i: usize = 0;
        while i < 4
            invariant
                i <= 4,
                forall|j: int| 0 <= j < i ==> is_letter(#[trigger] raw@[j]),
            decreases 4 - i,
        {
            if !byte_is_letter(raw[i]) {
                return Err(ChunkTypeError::InvalidByte);
            }
            i += 1;
        }
        Ok(ChunkType { value: raw })
    }

    /// Builds an identifier from text. Fails with `InvalidLength` unless the
    /// text is exactly four bytes, then with `InvalidByte` unless all four
    /// are ASCII letters.
    pub fn parse_from_text(s: &str) -> (r: Result<ChunkType, ChunkTypeError>)
        ensures
            s.spec_bytes().len() != 4 ==> r == Err::<ChunkType, ChunkTypeError>(
                ChunkTypeError::InvalidLength,
            ),
            s.spec_bytes().len() == 4 && !all_letters(s.spec_bytes()) ==> r == Err::<
                ChunkType,
                ChunkTypeError,
            >(ChunkTypeError::InvalidByte),
            s.spec_bytes().len() == 4 && all_letters(s.spec_bytes()) ==> (r matches Ok(t)
                && t@ == s.spec_bytes() && t.wf()),
    {
        let b = s.as_bytes();
        if b.len() != 4 {
            return Err(ChunkTypeError::InvalidLength);
        }
        let raw: [u8; 4] = [
            *vstd::slice::slice_index_get(b, 0),
            *vstd::slice::slice_index_get(b, 1),
            *vstd::slice::slice_index_get(b, 2),
            *vstd::slice::slice_index_get(b, 3),
        ];
        proof {
            assert(raw@ =~= s.spec_bytes());
        }
        Self::parse_from_bytes(raw)
    }

    /// The four identifier bytes, unchanged.
    pub fn bytes(&self) -> (r: [u8; 4])
        ensures
            r@ == self@,
    {
        self.value
    }

    /// Byte 0 upper-case: the chunk is critical to rendering; lower-case
    /// marks it ancillary.
    pub fn is_critical(&self) -> (r: bool)
        ensures
            r == is_upper(self@[0]),
    {
        65 <= self.value[0] && self.value[0] <= 90
    }

    /// Byte 1 upper-case: the chunk is public; lower-case marks it private.
    pub fn is_public(&self) -> (r: bool)
        ensures
            r == is_upper(self@[1]),
    {
        65 <= self.value[1] && self.value[1] <= 90
    }

    /// Byte 2 upper-case is the only value the format rules allow.
    pub fn is_reserved_bit_valid(&self) -> (r: bool)
        ensures
            r == is_upper(self@[2]),
    {
        65 <= self.value[2] && self.value[2] <= 90
    }

    /// Byte 3 lower-case: the chunk is safe to copy by editors that do not
    /// recognize it.
    pub fn is_safe_to_copy(&self) -> (r: bool)
        ensures
            r == is_lower(self@[3]),
    {
        97 <= self.value[3] && self.value[3] <= 122
    }

    /// The identifier obeys the format rules exactly when its reserved bit
    /// does: byte 2 must be upper-case.
    pub fn is_valid(&self) -> (r: bool)
        ensures
            r == is_upper(self@[2]),
    {
        self.is_reserved_bit_valid()
    }

    /// Whether this identifier is the terminal marker `IEND`.
    pub fn is_terminal(&self) -> (r: bool)
        ensures
            r == (self@ == spec_terminal_id()),
    {
        let r = self.value[0] == 73 && self.value[1] == 69 && self.value[2] == 78 && self.value[3]
            == 68;
        proof {
            if r {
                assert(self@ =~= spec_terminal_id());
            }
        }
        r
    }

    /// Byte-exact equality of two identifiers.
    pub fn eq_bytes(&self, other: &ChunkType) -> (r: bool)
        ensures
            r == (self@ == other@),
    {
        let r = self.value[0] == other.value[0] && self.value[1] == other.value[1] && self.value[2]
            == other.value[2] && self.value[3] == other.value[3];
        proof {
            if r {
                assert(self@ =~= other@);
            }
        }
        r
    }

    /// The identifier as text: its four letters, one character per byte.
    pub fn text(&self) -> (r: String)
        requires
            self.wf(),
        ensures
            r@.len() == 4,
            forall|i: int| 0 <= i < 4 ==> r@[i] == (#[trigger] self@[i]) as char,
    {
        let v: Vec<u8> = vstd::slice::slice_to_vec(self.value.as_slice());
        proof {
            lemma_ascii_bytes_valid_utf8(v@);
        }
        match bytes_to_string(&v) {
            Some(s) => s,
            None => {
                proof {
                    assert(false);
                }
                String::new()
            },
        }
    }
}

} // verus!
