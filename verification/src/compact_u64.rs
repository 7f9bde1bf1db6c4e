use vstd::prelude::*;

use crate::cursor::Cursor;
use crate::cursor::le_value;
use crate::cursor::lemma_le_value_bound;
use crate::cursor::lemma_pow256_mono;
use crate::cursor::lemma_pow256_values;
use crate::errors::DecodeError;

verus! {

/// How many trailing bytes each recognized non-inline tag kind selects.
pub open spec fn spec_trailing_len(kind: u8) -> int {
    if kind == 1 {
        1
    } else if kind == 2 {
        2
    } else if kind == 3 {
        4
    } else {
        8
    }
}

/// What decoding a compact integer at position p of s yields: the value and
/// the position after it, or the error that stops the decode.
///
/// The low three bits of the first byte select the encoding: 0 keeps the
/// value inline in the remaining five bits; 1 through 4 select 1, 2, 4 or 8
/// trailing little-endian bytes; 5 through 7 are not recognized.
pub open spec fn spec_parse_compact_u64(s: Seq<u8>, p: int) -> Result<(u64, int), DecodeError> {
    if p + 1 > s.len() {
        Err(DecodeError::UnexpectedEndOfStream)
    } else {
        let tag = s[p];
        let kind = tag & 7;
        if kind == 0 {
            Ok(((tag >> 3) as u64, p + 1))
        } else if kind <= 4 {
            let n = spec_trailing_len(kind);
            if p + 1 + n > s.len() {
                Err(DecodeError::UnexpectedEndOfStream)
            } else {
                Ok((le_value(s.subrange(p + 1, p + 1 + n)) as u64, p + 1 + n))
            }
        } else {
            Err(DecodeError::MalformedHeader)
        }
    }
}

/// A successful compact-integer decode moves the position forward, never
/// past the end.
pub proof fn lemma_compact_u64_advances(s: Seq<u8>, p: int)
    requires
        0 <= p,
        spec_parse_compact_u64(s, p) is Ok,
    ensures
        p < spec_parse_compact_u64(s, p)->Ok_0.1 <= s.len(),
{
}

/// A variable-width unsigned 64-bit integer.
#[derive(Debug, Clone, Copy, PartialEq, Eq, Structural)]
pub struct CompactU64(pub u64);

impl CompactU64 {
    pub fn value(self) -> (r: u64)
        ensures
            r == self.0,
    {
        self.0
    }

    /// Decodes one compact integer and advances past it.
    pub fn parse(c: &mut Cursor) -> (r: Result<CompactU64, DecodeError>)
        requires
            old(c).wf(),
        ensures
            final(c).wf(),
            final(c).data@ == old(c).data@,
            match r {
                Ok(v) => spec_parse_compact_u64(old(c).data@, old(c).pos as int) == Ok::<
                    (u64, int),
                    DecodeError,
                >((v.0, final(c).pos as int)),
                Err(e) => spec_parse_compact_u64(old(c).data@, old(c).pos as int) == Err::<
                    (u64, int),
                    DecodeError,
                >(e),
            },
    {
        let ghost s = old(c).data@;
        let ghost p = old(c).pos as int;
        let tag = match c.read_u8() {
            Ok(b) => b,
            Err(e) => {
                return Err(e);
            },
        };
        let kind = tag & 7;
        if kind == 0 {
            Ok(CompactU64((tag >> 3) as u64))
        } else if kind <= 4 {
            let n: usize = if kind == 1 {
                1
            } else if kind == 2 {
                2
            } else if kind == 3 {
                4
            } else {
                8
            };
            match c.read_le_u64(n) {
                Ok(v) => {
                    proof {
                        lemma_le_value_bound(s.subrange(p + 1, p + 1 + n));
                        lemma_pow256_values();
                        lemma_pow256_mono(n as nat, 8);
                    }
                    Ok(CompactU64(v))
                },
                Err(e) => Err(e),
            }
        } else {
            Err(DecodeError::MalformedHeader)
        }
    }
}

} // verus!
