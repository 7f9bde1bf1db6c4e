use vstd::prelude::*;

use crate::compact_u64::CompactU64;
use crate::compact_u64::spec_parse_compact_u64;
use crate::cursor::Cursor;
use crate::errors::DecodeError;

verus! {

/// What decoding a length-prefixed blob yields: a compact count, then that
/// many raw bytes.
pub open spec fn spec_parse_binary_item(s: Seq<u8>, p: int) -> Result<(Seq<u8>, int), DecodeError> {
    match spec_parse_compact_u64(s, p) {
        Ok((count, p1)) => if p1 + count <= s.len() {
            Ok((s.subrange(p1, p1 + count), p1 + count))
        } else {
            Err(DecodeError::UnexpectedEndOfStream)
        },
        Err(e) => Err(e),
    }
}

/// A successful blob decode moves the position forward, never past the end.
pub proof fn lemma_binary_item_advances(s: Seq<u8>, p: int)
    requires
        0 <= p,
        spec_parse_binary_item(s, p) is Ok,
    ensures
        p < spec_parse_binary_item(s, p)->Ok_0.1 <= s.len(),
{
    crate::compact_u64::lemma_compact_u64_advances(s, p);
}

/// A length-prefixed sequence of raw payload bytes.
#[derive(Debug, PartialEq, Eq)]
pub struct BinaryItem(pub Vec<u8>);

impl BinaryItem {
    pub fn value(self) -> (r: Vec<u8>)
        ensures
            r == self.0,
    {
        self.0
    }

    /// Decodes one length-prefixed blob and advances past it.
    pub fn parse(c: &mut Cursor) -> (r: Result<BinaryItem, DecodeError>)
        requires
            old(c).wf(),
        ensures
            final(c).wf(),
            final(c).data@ == old(c).data@,
            match r {
                Ok(v) => spec_parse_binary_item(old(c).data@, old(c).pos as int) == Ok::<
                    (Seq<u8>, int),
                    DecodeError,
                >((v.0@, final(c).pos as int)),
                Err(err) => spec_parse_binary_item(old(c).data@, old(c).pos as int) == Err::<
                    (Seq<u8>, int),
                    DecodeError,
                >(err),
            },
    {
        let count = match CompactU64::parse(c) {
            Ok(v) => v.value(),
            Err(e) => {
                return Err(e);
            },
        };
        let left = c.remaining();
        if count > left as u64 {
            return Err(DecodeError::UnexpectedEndOfStream);
        }
        match c.read_bytes(count as usize) {
            Ok(bytes) => Ok(BinaryItem(bytes)),
            Err(e) => Err(e),
        }
    }
}

} // verus!
