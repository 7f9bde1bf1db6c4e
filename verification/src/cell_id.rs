use vstd::prelude::*;

use crate::compact_u64::CompactU64;
use crate::compact_u64::spec_parse_compact_u64;
use crate::cursor::Cursor;
use crate::errors::DecodeError;
use crate::exguid::ExGuid;
use crate::exguid::spec_parse_exguid;

verus! {

/// A cell identifier: a pair of extended identifiers naming a slot in a
/// revision or manifest structure.
#[derive(Debug, Clone, Copy, PartialEq, Eq, Structural)]
pub struct CellId {
    pub id: ExGuid,
    pub extra: ExGuid,
}

/// What decoding one cell identifier yields: two consecutive full extended
/// identifiers.
pub open spec fn spec_parse_cell_id(s: Seq<u8>, p: int) -> Result<(CellId, int), DecodeError> {
    match spec_parse_exguid(s, p) {
        Ok((a, p1)) => match spec_parse_exguid(s, p1) {
            Ok((b, p2)) => Ok((CellId { id: a, extra: b }, p2)),
            Err(e) => Err(e),
        },
        Err(e) => Err(e),
    }
}

/// One array entry: a cell identifier, with a read past the array's bytes
/// reported as a truncated array.
pub open spec fn spec_parse_cell_id_entry(s: Seq<u8>, p: int) -> Result<(CellId, int), DecodeError> {
    match spec_parse_cell_id(s, p) {
        Ok(ok) => Ok(ok),
        Err(_) => Err(DecodeError::TruncatedArray),
    }
}

/// n consecutive cell-identifier entries starting at p. Entries are not
/// compressed across each other.
pub open spec fn spec_parse_cell_id_entries(s: Seq<u8>, p: int, n: nat) -> Result<
    (Seq<CellId>, int),
    DecodeError,
>
    decreases n,
{
    if n == 0 {
        Ok((Seq::empty(), p))
    } else {
        match spec_parse_cell_id_entry(s, p) {
            Ok((e, p1)) => match spec_parse_cell_id_entries(s, p1, (n - 1) as nat) {
                Ok((rest, p2)) => Ok((seq![e] + rest, p2)),
                Err(err) => Err(err),
            },
            Err(err) => Err(err),
        }
    }
}

/// A whole cell-identifier array: a compact count, then that many entries.
pub open spec fn spec_parse_cell_id_array(s: Seq<u8>, p: int) -> Result<
    (Seq<CellId>, int),
    DecodeError,
> {
    match spec_parse_compact_u64(s, p) {
        Ok((count, p1)) => spec_parse_cell_id_entries(s, p1, count as nat),
        Err(e) => Err(e),
    }
}

/// Successfully decoded entries end at or after where they start, never
/// past the end.
pub proof fn lemma_cell_id_entries_bounds(s: Seq<u8>, p: int, n: nat)
    requires
        0 <= p <= s.len(),
        spec_parse_cell_id_entries(s, p, n) is Ok,
    ensures
        p <= spec_parse_cell_id_entries(s, p, n)->Ok_0.1 <= s.len(),
    decreases n,
{
    if n > 0 {
        let (e, p1) = spec_parse_cell_id_entry(s, p)->Ok_0;
        lemma_cell_id_entries_bounds(s, p1, (n - 1) as nat);
    }
}

/// A successful cell-identifier-array decode moves the position forward,
/// never past the end.
pub proof fn lemma_cell_id_array_advances(s: Seq<u8>, p: int)
    requires
        0 <= p,
        spec_parse_cell_id_array(s, p) is Ok,
    ensures
        p < spec_parse_cell_id_array(s, p)->Ok_0.1 <= s.len(),
{
    let (count, p1) = spec_parse_compact_u64(s, p)->Ok_0;
    crate::compact_u64::lemma_compact_u64_advances(s, p);
    lemma_cell_id_entries_bounds(s, p1, count as nat);
}

impl CellId {
    /// Decodes one cell identifier and advances past it.
    pub fn parse(c: &mut Cursor) -> (r: Result<CellId, DecodeError>)
        requires
            old(c).wf(),
        ensures
            final(c).wf(),
            final(c).data@ == old(c).data@,
            match r {
                Ok(v) => spec_parse_cell_id(old(c).data@, old(c).pos as int) == Ok::<
                    (CellId, int),
                    DecodeError,
                >((v, final(c).pos as int)),
                Err(err) => spec_parse_cell_id(old(c).data@, old(c).pos as int) == Err::<
                    (CellId, int),
                    DecodeError,
                >(err),
            },
    {
        let id = match ExGuid::parse(c) {
            Ok(v) => v,
            Err(e) => {
                return Err(e);
            },
        };
        let extra = match ExGuid::parse(c) {
            Ok(v) => v,
            Err(e) => {
                return Err(e);
            },
        };
        Ok(CellId { id, extra })
    }

    /// Decodes a whole cell-identifier array: the count, then that many
    /// entries.
    #[verifier::loop_isolation(false)]
    pub fn parse_array(c: &mut Cursor) -> (r: Result<Vec<CellId>, DecodeError>)
        requires
            old(c).wf(),
        ensures
            final(c).wf(),
            final(c).data@ == old(c).data@,
            match r {
                Ok(v) => spec_parse_cell_id_array(old(c).data@, old(c).pos as int) == Ok::<
                    (Seq<CellId>, int),
                    DecodeError,
                >((v@, final(c).pos as int)),
                Err(err) => spec_parse_cell_id_array(old(c).data@, old(c).pos as int) == Err::<
                    (Seq<CellId>, int),
                    DecodeError,
                >(err),
            },
    {
        let ghost s = old(c).data@;
        let count = match CompactU64::parse(c) {
            Ok(v) => v.value(),
            Err(e) => {
                return Err(e);
            },
        };
        let ghost pstart = c.pos as int;
        let mut out: Vec<CellId> = Vec::new();
        let mut i: u64 = 0;
        while i < count
            invariant
                c.wf(),
                c.data@ == s,
                i <= count,
                out@.len() == i,
                spec_parse_cell_id_entries(s, pstart, count as nat) == (
                match spec_parse_cell_id_entries(s, c.pos as int, (count - i) as nat) {
                    Ok((rest, e)) => Ok::<(Seq<CellId>, int), DecodeError>((out@ + rest, e)),
                    Err(err) => Err::<(Seq<CellId>, int), DecodeError>(err),
                }),
            decreases count - i,
        {
            let ghost pcur = c.pos as int;
            let e = match Self::parse(c) {
                Ok(e) => e,
                Err(_) => {
                    return Err(DecodeError::TruncatedArray);
                },
            };
            let ghost out_before = out@;
            proof {
                let n_left = (count - i) as nat;
                assert(spec_parse_cell_id_entries(s, pcur, n_left) == (
                match spec_parse_cell_id_entries(s, c.pos as int, (n_left - 1) as nat) {
                    Ok((rest, p2)) => Ok::<(Seq<CellId>, int), DecodeError>((seq![e] + rest, p2)),
                    Err(err) => Err::<(Seq<CellId>, int), DecodeError>(err),
                }));
            }
            out.push(e);
            i = i + 1;
            proof {
                assert(out@ =~= out_before + seq![e]);
                match spec_parse_cell_id_entries(s, c.pos as int, (count - i) as nat) {
                    Ok((rest, p2)) => {
                        assert((out_before + seq![e]) + rest =~= out_before + (seq![e] + rest));
                    },
                    Err(_) => {},
                }
            }
        }
        proof {
            assert(out@ + Seq::<CellId>::empty() =~= out@);
        }
        Ok(out)
    }
}

} // verus!
