use vstd::prelude::*;

use crate::cursor::Cursor;
use crate::cursor::le_value;
use crate::cursor::lemma_le_value_bound;
use crate::cursor::lemma_pow256_values;
use crate::errors::DecodeError;
use crate::object_types::ObjectType;

verus! {

/// A decoded record header: what kind of sub-record follows, and whether
/// the record is compound.
#[derive(Debug, Clone, Copy, PartialEq, Eq, Structural)]
pub struct ObjectHeader {
    pub object_type: ObjectType,
    pub compound: bool,
}

/// The wide header form: a four-byte little-endian word whose low two bits
/// are 0b10, with a compound flag in bit 2 and a fourteen-bit type tag in
/// bits 3 to 16; the remaining bits are reserved and ignored.
pub open spec fn spec_parse_header_wide(s: Seq<u8>, p: int) -> Result<
    (ObjectHeader, int),
    DecodeError,
> {
    if p + 1 > s.len() {
        Err(DecodeError::UnexpectedEndOfStream)
    } else if s[p] & 3 != 2 {
        Err(DecodeError::MalformedHeader)
    } else if p + 4 > s.len() {
        Err(DecodeError::UnexpectedEndOfStream)
    } else {
        let w = le_value(s.subrange(p, p + 4)) as u32;
        match ObjectType::from_tag_spec(((w >> 3) & 0x3fff) as u16) {
            Some(t) => Ok(
                (ObjectHeader { object_type: t, compound: (w >> 2) & 1 == 1 }, p + 4),
            ),
            None => Err(DecodeError::MalformedHeader),
        }
    }
}

/// A record header read at p: the compact one-byte form (low bits 0b00, a
/// compound flag in bit 2, a five-bit type tag above it) or the wide
/// four-byte form (low bits 0b10). Any other low-bit pattern — an end
/// marker among them — is not a record header.
pub open spec fn spec_parse_header(s: Seq<u8>, p: int) -> Result<(ObjectHeader, int), DecodeError> {
    if p + 1 > s.len() {
        Err(DecodeError::UnexpectedEndOfStream)
    } else {
        let b = s[p];
        if b & 3 == 0 {
            match ObjectType::from_tag_spec((b >> 3) as u16) {
                Some(t) => Ok(
                    (ObjectHeader { object_type: t, compound: (b >> 2) & 1 == 1 }, p + 1),
                ),
                None => Err(DecodeError::MalformedHeader),
            }
        } else if b & 3 == 2 {
            spec_parse_header_wide(s, p)
        } else {
            Err(DecodeError::MalformedHeader)
        }
    }
}

/// An end marker read at p: one byte whose low two bits are 0b11, the
/// enclosing type's tag above them.
pub open spec fn spec_parse_end(s: Seq<u8>, p: int) -> Result<(ObjectType, int), DecodeError> {
    if p + 1 > s.len() {
        Err(DecodeError::UnexpectedEndOfStream)
    } else {
        let b = s[p];
        if b & 3 == 3 {
            match ObjectType::from_tag_spec((b >> 2) as u16) {
                Some(t) => Ok((t, p + 1)),
                None => Err(DecodeError::MalformedHeader),
            }
        } else {
            Err(DecodeError::MalformedHeader)
        }
    }
}

/// The conditional consume of an end marker for the enclosing type t: true
/// and one byte further when the next byte is exactly that end marker,
/// false and the position untouched otherwise.
pub open spec fn spec_try_end(s: Seq<u8>, p: int, t: ObjectType) -> Result<
    (bool, int),
    DecodeError,
> {
    if p + 1 > s.len() {
        Err(DecodeError::UnexpectedEndOfStream)
    } else {
        let b = s[p];
        if b & 3 == 3 && (b >> 2) as u16 == t.tag_spec() {
            Ok((true, p + 1))
        } else {
            Ok((false, p))
        }
    }
}

/// A successful header decode moves the position forward, never past the
/// end.
pub proof fn lemma_header_advances(s: Seq<u8>, p: int)
    requires
        0 <= p,
        spec_parse_header(s, p) is Ok,
    ensures
        p < spec_parse_header(s, p)->Ok_0.1 <= s.len(),
{
}

impl ObjectHeader {
    /// Decodes one record header of either width and advances past it.
    pub fn parse(c: &mut Cursor) -> (r: Result<ObjectHeader, DecodeError>)
        requires
            old(c).wf(),
        ensures
            final(c).wf(),
            final(c).data@ == old(c).data@,
            match r {
                Ok(h) => spec_parse_header(old(c).data@, old(c).pos as int) == Ok::<
                    (ObjectHeader, int),
                    DecodeError,
                >((h, final(c).pos as int)),
                Err(e) => spec_parse_header(old(c).data@, old(c).pos as int) == Err::<
                    (ObjectHeader, int),
                    DecodeError,
                >(e),
            },
    {
        let b = match c.peek_u8() {
            Some(b) => b,
            None => {
                return Err(DecodeError::UnexpectedEndOfStream);
            },
        };
        if b & 3 == 0 {
            match ObjectType::from_tag((b >> 3) as u16) {
                Some(t) => {
                    c.advance(1);
                    Ok(ObjectHeader { object_type: t, compound: (b >> 2) & 1 == 1 })
                },
                None => Err(DecodeError::MalformedHeader),
            }
        } else if b & 3 == 2 {
            Self::parse_wide(c)
        } else {
            Err(DecodeError::MalformedHeader)
        }
    }

    /// Decodes one wide-form record header and advances past it. The wide
    /// form is required for metadata entries, whose type tag does not fit
    /// the compact form.
    pub fn parse_wide(c: &mut Cursor) -> (r: Result<ObjectHeader, DecodeError>)
        requires
            old(c).wf(),
        ensures
            final(c).wf(),
            final(c).data@ == old(c).data@,
            match r {
                Ok(h) => spec_parse_header_wide(old(c).data@, old(c).pos as int) == Ok::<
                    (ObjectHeader, int),
                    DecodeError,
                >((h, final(c).pos as int)),
                Err(e) => spec_parse_header_wide(old(c).data@, old(c).pos as int) == Err::<
                    (ObjectHeader, int),
                    DecodeError,
                >(e),
            },
    {
        let ghost s = old(c).data@;
        let ghost p = old(c).pos as int;
        let b = match c.peek_u8() {
            Some(b) => b,
            None => {
                return Err(DecodeError::UnexpectedEndOfStream);
            },
        };
        if b & 3 != 2 {
            return Err(DecodeError::MalformedHeader);
        }
        let w64 = match c.read_le_u64(4) {
            Ok(v) => v,
            Err(e) => {
                return Err(e);
            },
        };
        proof {
            lemma_le_value_bound(s.subrange(p, p + 4));
            lemma_pow256_values();
        }
        let w = w64 as u32;
        match ObjectType::from_tag(((w >> 3) & 0x3fff) as u16) {
            Some(t) => Ok(ObjectHeader { object_type: t, compound: (w >> 2) & 1 == 1 }),
            None => Err(DecodeError::MalformedHeader),
        }
    }

    /// Decodes one end marker and returns the enclosing type it names.
    pub fn parse_end(c: &mut Cursor) -> (r: Result<ObjectType, DecodeError>)
        requires
            old(c).wf(),
        ensures
            final(c).wf(),
            final(c).data@ == old(c).data@,
            match r {
                Ok(t) => spec_parse_end(old(c).data@, old(c).pos as int) == Ok::<
                    (ObjectType, int),
                    DecodeError,
                >((t, final(c).pos as int)),
                Err(e) => spec_parse_end(old(c).data@, old(c).pos as int) == Err::<
                    (ObjectType, int),
                    DecodeError,
                >(e),
            },
    {
        let b = match c.read_u8() {
            Ok(b) => b,
            Err(e) => {
                return Err(e);
            },
        };
        if b & 3 == 3 {
            match ObjectType::from_tag((b >> 2) as u16) {
                Some(t) => Ok(t),
                None => Err(DecodeError::MalformedHeader),
            }
        } else {
            Err(DecodeError::MalformedHeader)
        }
    }

    /// Consumes the next byte only if it is exactly an end marker for the
    /// enclosing type t; otherwise the cursor is left exactly where it was,
    /// so the caller can decode the position as an ordinary record.
    pub fn try_parse_end(c: &mut Cursor, t: ObjectType) -> (r: Result<bool, DecodeError>)
        requires
            old(c).wf(),
        ensures
            final(c).wf(),
            final(c).data@ == old(c).data@,
            match r {
                Ok(b) => spec_try_end(old(c).data@, old(c).pos as int, t) == Ok::<
                    (bool, int),
                    DecodeError,
                >((b, final(c).pos as int)),
                Err(e) => spec_try_end(old(c).data@, old(c).pos as int, t) == Err::<
                    (bool, int),
                    DecodeError,
                >(e) && final(c).pos == old(c).pos,
            },
    {
        let b = match c.peek_u8() {
            Some(b) => b,
            None => {
                return Err(DecodeError::UnexpectedEndOfStream);
            },
        };
        if b & 3 == 3 && (b >> 2) as u16 == t.tag() {
            c.advance(1);
            Ok(true)
        } else {
            Ok(false)
        }
    }
}

} // verus!
