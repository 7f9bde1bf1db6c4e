use vstd::prelude::*;

use crate::compact_u64::CompactU64;
use crate::compact_u64::spec_parse_compact_u64;
use crate::cursor::Cursor;
use crate::cursor::le_value;
use crate::cursor::lemma_le_value_bound;
use crate::cursor::lemma_pow256_values;
use crate::errors::DecodeError;

verus! {

/// An extended identifier: a 128-bit identifier paired with a 32-bit
/// discriminator.
#[derive(Debug, Clone, Copy, PartialEq, Eq, Structural)]
pub struct ExGuid {
    pub guid: u128,
    pub value: u32,
}

/// What decoding one full identifier yields: 16 little-endian bytes for the
/// 128-bit part, then 4 for the discriminator.
pub open spec fn spec_parse_exguid(s: Seq<u8>, p: int) -> Result<(ExGuid, int), DecodeError> {
    if p + 20 <= s.len() {
        Ok(
            (
                ExGuid {
                    guid: le_value(s.subrange(p, p + 16)) as u128,
                    value: le_value(s.subrange(p + 16, p + 20)) as u32,
                },
                p + 20,
            ),
        )
    } else {
        Err(DecodeError::UnexpectedEndOfStream)
    }
}

/// One array entry: a flag byte, then either a full identifier, or — when
/// the flag asks for reuse — only the 4-byte discriminator, the 128-bit part
/// taken from the previous entry. prev is the previous entry's 128-bit part,
/// if there was a previous entry.
pub open spec fn spec_parse_exguid_entry(s: Seq<u8>, p: int, prev: Option<u128>) -> Result<
    (ExGuid, int),
    DecodeError,
> {
    if p + 1 > s.len() {
        Err(DecodeError::TruncatedArray)
    } else {
        let flag = s[p];
        if flag == 0 {
            if p + 21 <= s.len() {
                Ok(
                    (
                        ExGuid {
                            guid: le_value(s.subrange(p + 1, p + 17)) as u128,
                            value: le_value(s.subrange(p + 17, p + 21)) as u32,
                        },
                        p + 21,
                    ),
                )
            } else {
                Err(DecodeError::TruncatedArray)
            }
        } else if flag == 1 {
            match prev {
                Some(g) => if p + 5 <= s.len() {
                    Ok(
                        (
                            ExGuid { guid: g, value: le_value(s.subrange(p + 1, p + 5)) as u32 },
                            p + 5,
                        ),
                    )
                } else {
                    Err(DecodeError::TruncatedArray)
                },
                None => Err(DecodeError::MalformedHeader),
            }
        } else {
            Err(DecodeError::MalformedHeader)
        }
    }
}

/// The previous 128-bit part that the next array entry may reuse: that of
/// the last identifier decoded so far, if any.
pub open spec fn spec_prev_guid(es: Seq<ExGuid>) -> Option<u128> {
    if es.len() == 0 {
        None
    } else {
        Some(es[es.len() - 1].guid)
    }
}

/// n consecutive array entries starting at p, threading the reusable
/// 128-bit part from entry to entry.
pub open spec fn spec_parse_exguid_entries(s: Seq<u8>, p: int, n: nat, prev: Option<u128>) -> Result<
    (Seq<ExGuid>, int),
    DecodeError,
>
    decreases n,
{
    if n == 0 {
        Ok((Seq::empty(), p))
    } else {
        match spec_parse_exguid_entry(s, p, prev) {
            Ok((e, p1)) => match spec_parse_exguid_entries(s, p1, (n - 1) as nat, Some(e.guid)) {
                Ok((rest, p2)) => Ok((seq![e] + rest, p2)),
                Err(err) => Err(err),
            },
            Err(err) => Err(err),
        }
    }
}

/// A whole identifier array: a compact count, then that many entries. The
/// first entry has nothing to reuse, so its flag may not ask for reuse.
pub open spec fn spec_parse_exguid_array(s: Seq<u8>, p: int) -> Result<
    (Seq<ExGuid>, int),
    DecodeError,
> {
    match spec_parse_compact_u64(s, p) {
        Ok((count, p1)) => spec_parse_exguid_entries(s, p1, count as nat, Option::None),
        Err(e) => Err(e),
    }
}

/// A successful full-identifier decode moves the position forward, never
/// past the end.
pub proof fn lemma_exguid_advances(s: Seq<u8>, p: int)
    requires
        0 <= p,
        spec_parse_exguid(s, p) is Ok,
    ensures
        p < spec_parse_exguid(s, p)->Ok_0.1 <= s.len(),
{
}

/// Successfully decoded array entries end at or after where they start, and
/// never past the end.
pub proof fn lemma_exguid_entries_bounds(s: Seq<u8>, p: int, n: nat, prev: Option<u128>)
    requires
        0 <= p <= s.len(),
        spec_parse_exguid_entries(s, p, n, prev) is Ok,
    ensures
        p <= spec_parse_exguid_entries(s, p, n, prev)->Ok_0.1 <= s.len(),
    decreases n,
{
    if n > 0 {
        let (e, p1) = spec_parse_exguid_entry(s, p, prev)->Ok_0;
        lemma_exguid_entries_bounds(s, p1, (n - 1) as nat, Some(e.guid));
    }
}

/// A successful identifier-array decode moves the position forward, never
/// past the end.
pub proof fn lemma_exguid_array_advances(s: Seq<u8>, p: int)
    requires
        0 <= p,
        spec_parse_exguid_array(s, p) is Ok,
    ensures
        p < spec_parse_exguid_array(s, p)->Ok_0.1 <= s.len(),
{
    let (count, p1) = spec_parse_compact_u64(s, p)->Ok_0;
    crate::compact_u64::lemma_compact_u64_advances(s, p);
    lemma_exguid_entries_bounds(s, p1, count as nat, Option::None);
}

/// Law: when the second entry of a decoded identifier array asks for reuse
/// (its flag byte is 1), its 128-bit part equals the first entry's.
pub proof fn lemma_second_entry_reuses_guid(s: Seq<u8>, p: int, n: nat)
    requires
        n >= 2,
        spec_parse_exguid_entries(s, p, n, Option::None) is Ok,
        spec_parse_exguid_entry(s, p, Option::None) is Ok,
        s[spec_parse_exguid_entry(s, p, Option::None)->Ok_0.1] == 1,
    ensures
        ({
            let es = spec_parse_exguid_entries(s, p, n, Option::None)->Ok_0.0;
            es[1].guid == es[0].guid
        }),
{
    let (e0, p1) = spec_parse_exguid_entry(s, p, Option::None)->Ok_0;
    let rest1 = spec_parse_exguid_entries(s, p1, (n - 1) as nat, Some(e0.guid));
    assert(rest1 is Ok);
    let (e1, p2) = spec_parse_exguid_entry(s, p1, Some(e0.guid))->Ok_0;
    assert(e1.guid == e0.guid);
    let rest2 = spec_parse_exguid_entries(s, p2, (n - 2) as nat, Some(e1.guid));
    assert(rest2 is Ok);
    let es = spec_parse_exguid_entries(s, p, n, Option::None)->Ok_0.0;
    assert(es == seq![e0] + (seq![e1] + rest2->Ok_0.0));
    assert(es[0] == e0);
    assert(es[1] == (seq![e1] + rest2->Ok_0.0)[0]);
}

impl ExGuid {
    /// Decodes one full identifier and advances past it.
    pub fn parse(c: &mut Cursor) -> (r: Result<ExGuid, DecodeError>)
        requires
            old(c).wf(),
        ensures
            final(c).wf(),
            final(c).data@ == old(c).data@,
            match r {
                Ok(e) => spec_parse_exguid(old(c).data@, old(c).pos as int) == Ok::<
                    (ExGuid, int),
                    DecodeError,
                >((e, final(c).pos as int)),
                Err(err) => spec_parse_exguid(old(c).data@, old(c).pos as int) == Err::<
                    (ExGuid, int),
                    DecodeError,
                >(err),
            },
    {
        let ghost s = old(c).data@;
        let ghost p = old(c).pos as int;
        proof {
            lemma_pow256_values();
        }
        let guid = match c.read_le_u128(16) {
            Ok(v) => v,
            Err(e) => {
                return Err(e);
            },
        };
        let value = match c.read_le_u64(4) {
            Ok(v) => v,
            Err(e) => {
                return Err(e);
            },
        };
        proof {
            lemma_le_value_bound(s.subrange(p, p + 16));
            lemma_le_value_bound(s.subrange(p + 16, p + 20));
        }
        Ok(ExGuid { guid, value: value as u32 })
    }

    /// Decodes one array entry, reusing prev's 128-bit part when the flag
    /// asks for it.
    fn parse_array_entry(c: &mut Cursor, prev: Option<u128>) -> (r: Result<ExGuid, DecodeError>)
        requires
            old(c).wf(),
        ensures
            final(c).wf(),
            final(c).data@ == old(c).data@,
            match r {
                Ok(e) => spec_parse_exguid_entry(old(c).data@, old(c).pos as int, prev) == Ok::<
                    (ExGuid, int),
                    DecodeError,
                >((e, final(c).pos as int)),
                Err(err) => spec_parse_exguid_entry(old(c).data@, old(c).pos as int, prev) == Err::<
                    (ExGuid, int),
                    DecodeError,
                >(err),
            },
    {
        let ghost s = old(c).data@;
        let ghost p = old(c).pos as int;
        proof {
            lemma_pow256_values();
        }
        let flag = match c.read_u8() {
            Ok(b) => b,
            Err(_) => {
                return Err(DecodeError::TruncatedArray);
            },
        };
        if flag == 0 {
            let guid = match c.read_le_u128(16) {
                Ok(v) => v,
                Err(_) => {
                    return Err(DecodeError::TruncatedArray);
                },
            };
            let value = match c.read_le_u64(4) {
                Ok(v) => v,
                Err(_) => {
                    return Err(DecodeError::TruncatedArray);
                },
            };
            proof {
                lemma_le_value_bound(s.subrange(p + 1, p + 17));
                lemma_le_value_bound(s.subrange(p + 17, p + 21));
            }
            Ok(ExGuid { guid, value: value as u32 })
        } else if flag == 1 {
            match prev {
                Some(g) => {
                    let value = match c.read_le_u64(4) {
                        Ok(v) => v,
                        Err(_) => {
                            return Err(DecodeError::TruncatedArray);
                        },
                    };
                    proof {
                        lemma_le_value_bound(s.subrange(p + 1, p + 5));
                    }
                    Ok(ExGuid { guid: g, value: value as u32 })
                },
                None => Err(DecodeError::MalformedHeader),
            }
        } else {
            Err(DecodeError::MalformedHeader)
        }
    }

    /// Decodes a whole identifier array: the count, then that many entries.
    #[verifier::loop_isolation(false)]
    pub fn parse_array(c: &mut Cursor) -> (r: Result<Vec<ExGuid>, DecodeError>)
        requires
            old(c).wf(),
        ensures
            final(c).wf(),
            final(c).data@ == old(c).data@,
            match r {
                Ok(v) => spec_parse_exguid_array(old(c).data@, old(c).pos as int) == Ok::<
                    (Seq<ExGuid>, int),
                    DecodeError,
                >((v@, final(c).pos as int)),
                Err(err) => spec_parse_exguid_array(old(c).data@, old(c).pos as int) == Err::<
                    (Seq<ExGuid>, int),
                    DecodeError,
                >(err),
            },
    {
        let ghost s = old(c).data@;
        let count = match CompactU64::parse(c) {
            Ok(v) => v.value(),
            Err(e) => {
                return Err(e);
            },
        };
        let ghost pstart = c.pos as int;
        let mut out: Vec<ExGuid> = Vec::new();
        let mut i: u64 = 0;
        while i < count
            invariant
                c.wf(),
                c.data@ == s,
                i <= count,
                out@.len() == i,
                spec_parse_exguid_entries(s, pstart, count as nat, Option::None) == (
                match spec_parse_exguid_entries(
                    s,
                    c.pos as int,
                    (count - i) as nat,
                    spec_prev_guid(out@),
                ) {
                    Ok((rest, e)) => Ok::<(Seq<ExGuid>, int), DecodeError>((out@ + rest, e)),
                    Err(err) => Err::<(Seq<ExGuid>, int), DecodeError>(err),
                }),
            decreases count - i,
        {
            let prev: Option<u128> = if out.len() == 0 {
                None
            } else {
                Some(out[out.len() - 1].guid)
            };
            assert(prev == spec_prev_guid(out@));
            let ghost pcur = c.pos as int;
            let e = match Self::parse_array_entry(c, prev) {
                Ok(e) => e,
                Err(err) => {
                    return Err(err);
                },
            };
            let ghost out_before = out@;
            proof {
                let n_left = (count - i) as nat;
                assert(spec_parse_exguid_entries(s, pcur, n_left, prev) == (
                match spec_parse_exguid_entries(s, c.pos as int, (n_left - 1) as nat, Some(e.guid)) {
                    Ok((rest, p2)) => Ok::<(Seq<ExGuid>, int), DecodeError>((seq![e] + rest, p2)),
                    Err(err) => Err::<(Seq<ExGuid>, int), DecodeError>(err),
                }));
            }
            out.push(e);
            i = i + 1;
            proof {
                assert(out@ =~= out_before + seq![e]);
                assert(spec_prev_guid(out@) == Some(e.guid));
                match spec_parse_exguid_entries(
                    s,
                    c.pos as int,
                    (count - i) as nat,
                    Some(e.guid),
                ) {
                    Ok((rest, p2)) => {
                        assert((out_before + seq![e]) + rest =~= out_before + (seq![e] + rest));
                    },
                    Err(_) => {},
                }
            }
        }
        proof {
            assert(out@ + Seq::<ExGuid>::empty() =~= out@);
        }
        Ok(out)
    }
}

} // verus!
