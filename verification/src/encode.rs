//! Specification-level encoders for the object-group grammar, and the laws
//! proved with them: a well-formed synthetic byte sequence decodes back to
//! exactly the values it was built from.
//!
//! Nothing here runs: the encoders are ghost functions that pin down, one
//! construct at a time, which byte sequences the decoder must accept and
//! what it must return for them.

use vstd::arithmetic::div_mod::lemma_fundamental_div_mod;
use vstd::prelude::*;

use crate::compact_u64::spec_parse_compact_u64;
use crate::cursor::le_value;
use crate::cursor::lemma_pow256_values;
use crate::cursor::pow256;
use crate::cell_id::CellId;
use crate::errors::DecodeError;
use crate::exguid::ExGuid;
use crate::exguid::spec_parse_exguid;
use crate::object_group::ObjectChangeFrequency;
use crate::object_group::ObjectGroupDataView;
use crate::object_group::ObjectGroupDeclaration;
use crate::object_group::ObjectGroupMetadata;
use crate::object_group::ObjectGroupView;
use crate::object_group::spec_parse_data_list;
use crate::object_group::spec_parse_data_record;
use crate::object_group::spec_parse_declaration;
use crate::object_group::spec_parse_declaration_list;
use crate::object_group::spec_parse_declarations;
use crate::object_group::spec_parse_metadata_entry;
use crate::object_group::spec_parse_metadata_list;
use crate::object_group::spec_parse_object_group;
use crate::object_types::ObjectType;
use crate::stream_object::ObjectHeader;
use crate::stream_object::spec_parse_end;
use crate::stream_object::spec_parse_header;
use crate::stream_object::spec_parse_header_wide;
use crate::stream_object::spec_try_end;

verus! {

/// The n little-endian bytes of v.
pub open spec fn spec_le_bytes(v: nat, n: nat) -> Seq<u8>
    decreases n,
{
    if n == 0 {
        Seq::empty()
    } else {
        seq![(v % 256) as u8] + spec_le_bytes(v / 256, (n - 1) as nat)
    }
}

/// The little-endian bytes of a value that fits them read back as that
/// value.
pub proof fn lemma_le_bytes(v: nat, n: nat)
    requires
        v < pow256(n),
    ensures
        spec_le_bytes(v, n).len() == n,
        le_value(spec_le_bytes(v, n)) == v,
    decreases n,
{
    if n == 0 {
    } else {
        lemma_fundamental_div_mod(v as int, 256);
        assert(v / 256 < pow256((n - 1) as nat)) by {
            if v / 256 >= pow256((n - 1) as nat) {
                assert(256 * (v / 256) >= 256 * pow256((n - 1) as nat));
            }
        }
        lemma_le_bytes(v / 256, (n - 1) as nat);
        let s = spec_le_bytes(v, n);
        let tail = spec_le_bytes(v / 256, (n - 1) as nat);
        assert(s == seq![(v % 256) as u8] + tail);
        assert(s[0] == (v % 256) as u8);
        assert(s.subrange(1, s.len() as int) =~= tail);
        assert(le_value(s) == s[0] as nat + 256 * le_value(s.subrange(1, s.len() as int)));
    }
}

/// When a stretch of s holds the concatenation of a and b, its two halves
/// hold a and b.
pub proof fn lemma_subrange_split(s: Seq<u8>, p: int, a: Seq<u8>, b: Seq<u8>)
    requires
        0 <= p,
        p + a.len() + b.len() <= s.len(),
        s.subrange(p, p + a.len() + b.len()) == a + b,
    ensures
        s.subrange(p, p + a.len() as int) == a,
        s.subrange(p + a.len() as int, p + a.len() + b.len()) == b,
{
    let whole = s.subrange(p, p + a.len() + b.len());
    assert forall|i: int| 0 <= i < a.len() implies s[p + i] == a[i] by {
        assert(whole[i] == s[p + i]);
        assert((a + b)[i] == a[i]);
    }
    assert forall|i: int| 0 <= i < b.len() implies s[p + a.len() + i] == b[i] by {
        assert(whole[a.len() + i] == s[p + a.len() + i]);
        assert((a + b)[a.len() + i] == b[i]);
    }
    assert(s.subrange(p, p + a.len() as int) =~= a);
    assert(s.subrange(p + a.len() as int, p + a.len() + b.len()) =~= b);
}

/// The canonical compact encoding of an integer: the narrowest recognized
/// width that holds it.
pub open spec fn spec_encode_compact_u64(v: u64) -> Seq<u8> {
    if v < 32 {
        seq![(v * 8) as u8]
    } else if v < 0x100 {
        seq![1u8] + spec_le_bytes(v as nat, 1)
    } else if v < 0x10000 {
        seq![2u8] + spec_le_bytes(v as nat, 2)
    } else if v < 0x1_0000_0000 {
        seq![3u8] + spec_le_bytes(v as nat, 4)
    } else {
        seq![4u8] + spec_le_bytes(v as nat, 8)
    }
}

/// An encoded compact integer decodes back to its value.
pub proof fn lemma_compact_u64_round_trip(s: Seq<u8>, p: int, v: u64)
    requires
        0 <= p,
        p + spec_encode_compact_u64(v).len() <= s.len(),
        s.subrange(p, p + spec_encode_compact_u64(v).len()) == spec_encode_compact_u64(v),
    ensures
        spec_parse_compact_u64(s, p) == Ok::<(u64, int), DecodeError>(
            (v, p + spec_encode_compact_u64(v).len()),
        ),
{
    let enc = spec_encode_compact_u64(v);
    assert(s[p] == enc[0]) by {
        assert(s.subrange(p, p + enc.len() as int)[0] == s[p]);
    }
    lemma_pow256_values();
    if v < 32 {
        let b = (v * 8) as u8;
        assert(b & 7 == 0 && (b >> 3) as u64 == v) by (bit_vector)
            requires
                v < 32 && b == (v * 8) as u8,
        ;
    } else if v < 0x100 {
        lemma_subrange_split(s, p, seq![1u8], spec_le_bytes(v as nat, 1));
        lemma_le_bytes(v as nat, 1);
        assert(s[p] == 1);
        assert(1u8 & 7 == 1) by (bit_vector);
        assert(s.subrange(p + 1, p + 2) == spec_le_bytes(v as nat, 1));
    } else if v < 0x10000 {
        lemma_subrange_split(s, p, seq![2u8], spec_le_bytes(v as nat, 2));
        lemma_le_bytes(v as nat, 2);
        assert(s[p] == 2);
        assert(2u8 & 7 == 2) by (bit_vector);
        assert(s.subrange(p + 1, p + 3) == spec_le_bytes(v as nat, 2));
    } else if v < 0x1_0000_0000 {
        lemma_subrange_split(s, p, seq![3u8], spec_le_bytes(v as nat, 4));
        lemma_le_bytes(v as nat, 4);
        assert(s[p] == 3);
        assert(3u8 & 7 == 3) by (bit_vector);
        assert(s.subrange(p + 1, p + 5) == spec_le_bytes(v as nat, 4));
    } else {
        lemma_subrange_split(s, p, seq![4u8], spec_le_bytes(v as nat, 8));
        lemma_le_bytes(v as nat, 8);
        assert(s[p] == 4);
        assert(4u8 & 7 == 4) by (bit_vector);
        assert(s.subrange(p + 1, p + 9) == spec_le_bytes(v as nat, 8));
    }
}

/// The compact header byte for a record of type t, with the compound flag
/// clear. Only types whose tag fits five bits have a compact header.
pub open spec fn spec_encode_header(t: ObjectType) -> Seq<u8> {
    seq![(t.tag_spec() * 8) as u8]
}

/// The one-byte end marker closing a list whose enclosing type is t.
pub open spec fn spec_encode_end(t: ObjectType) -> Seq<u8> {
    seq![(t.tag_spec() * 4 + 3) as u8]
}

/// An encoded compact header decodes back to its type.
pub proof fn lemma_header_round_trip(s: Seq<u8>, p: int, t: ObjectType)
    requires
        0 <= p,
        p + 1 <= s.len(),
        s.subrange(p, p + 1) == spec_encode_header(t),
        t.tag_spec() < 32,
    ensures
        spec_parse_header(s, p) == Ok::<(ObjectHeader, int), DecodeError>(
            (ObjectHeader { object_type: t, compound: false }, p + 1),
        ),
{
    let tg = t.tag_spec();
    let b = (tg * 8) as u8;
    assert(s[p] == b) by {
        assert(s.subrange(p, p + 1)[0] == s[p]);
    }
    assert(b & 3 == 0 && (b >> 3) as u16 == tg && (b >> 2) & 1 == 0) by (bit_vector)
        requires
            tg < 32 && b == (tg * 8) as u8,
    ;
    crate::object_types::lemma_tag_inverse(t);
}

/// An encoded end marker decodes back to its enclosing type.
pub proof fn lemma_end_round_trip(s: Seq<u8>, p: int, t: ObjectType)
    requires
        0 <= p,
        p + 1 <= s.len(),
        s.subrange(p, p + 1) == spec_encode_end(t),
        t.tag_spec() < 64,
    ensures
        spec_parse_end(s, p) == Ok::<(ObjectType, int), DecodeError>((t, p + 1)),
        spec_try_end(s, p, t) == Ok::<(bool, int), DecodeError>((true, p + 1)),
{
    let tg = t.tag_spec();
    let b = (tg * 4 + 3) as u8;
    assert(s[p] == b) by {
        assert(s.subrange(p, p + 1)[0] == s[p]);
    }
    assert(b & 3 == 3 && (b >> 2) as u16 == tg) by (bit_vector)
        requires
            tg < 64 && b == (tg * 4 + 3) as u8,
    ;
    crate::object_types::lemma_tag_inverse(t);
}

/// At a compact record header, the conditional end-marker consume matches
/// nothing and stays put, whatever enclosing type it looks for.
pub proof fn lemma_try_end_skips_header(s: Seq<u8>, p: int, t: ObjectType, enclosing: ObjectType)
    requires
        0 <= p,
        p + 1 <= s.len(),
        s.subrange(p, p + 1) == spec_encode_header(t),
        t.tag_spec() < 32,
    ensures
        spec_try_end(s, p, enclosing) == Ok::<(bool, int), DecodeError>((false, p)),
{
    let tg = t.tag_spec();
    let b = (tg * 8) as u8;
    assert(s[p] == b) by {
        assert(s.subrange(p, p + 1)[0] == s[p]);
    }
    assert(b & 3 == 0) by (bit_vector)
        requires
            b == (tg * 8) as u8,
    ;
}

/// The full encoding of one extended identifier: 16 little-endian bytes of
/// the 128-bit part, then 4 of the discriminator.
pub open spec fn spec_encode_exguid(e: ExGuid) -> Seq<u8> {
    spec_le_bytes(e.guid as nat, 16) + spec_le_bytes(e.value as nat, 4)
}

/// An encoded extended identifier decodes back to its two parts.
pub proof fn lemma_exguid_round_trip(s: Seq<u8>, p: int, e: ExGuid)
    requires
        0 <= p,
        p + 20 <= s.len(),
        s.subrange(p, p + 20) == spec_encode_exguid(e),
    ensures
        spec_parse_exguid(s, p) == Ok::<(ExGuid, int), DecodeError>((e, p + 20)),
{
    lemma_pow256_values();
    lemma_le_bytes(e.guid as nat, 16);
    lemma_le_bytes(e.value as nat, 4);
    lemma_subrange_split(
        s,
        p,
        spec_le_bytes(e.guid as nat, 16),
        spec_le_bytes(e.value as nat, 4),
    );
}

/// The encoding of an identifier array's entries, each written in full
/// behind a clear reuse flag.
pub open spec fn spec_encode_exguid_entries(es: Seq<ExGuid>) -> Seq<u8>
    decreases es.len(),
{
    if es.len() == 0 {
        Seq::empty()
    } else {
        (seq![0u8] + spec_encode_exguid(es[0])) + spec_encode_exguid_entries(
            es.subrange(1, es.len() as int),
        )
    }
}

pub proof fn lemma_exguid_entries_len(es: Seq<ExGuid>)
    ensures
        spec_encode_exguid_entries(es).len() == 21 * es.len(),
    decreases es.len(),
{
    if es.len() > 0 {
        lemma_exguid_entries_len(es.subrange(1, es.len() as int));
        lemma_le_bytes_len_only(es[0].guid as nat, 16);
        lemma_le_bytes_len_only(es[0].value as nat, 4);
    }
}

/// The byte count of a little-endian encoding, whatever the value.
pub proof fn lemma_le_bytes_len_only(v: nat, n: nat)
    ensures
        spec_le_bytes(v, n).len() == n,
    decreases n,
{
    if n > 0 {
        lemma_le_bytes_len_only(v / 256, (n - 1) as nat);
    }
}

/// Encoded full entries decode back to the same identifiers, whatever was
/// available for reuse before them.
pub proof fn lemma_exguid_entries_round_trip(s: Seq<u8>, p: int, es: Seq<ExGuid>, prev: Option<
    u128,
>)
    requires
        0 <= p,
        p + 21 * es.len() <= s.len(),
        s.subrange(p, p + 21 * es.len()) == spec_encode_exguid_entries(es),
    ensures
        crate::exguid::spec_parse_exguid_entries(s, p, es.len(), prev) == Ok::<
            (Seq<ExGuid>, int),
            DecodeError,
        >((es, p + 21 * es.len())),
    decreases es.len(),
{
    if es.len() == 0 {
        assert(es =~= Seq::<ExGuid>::empty());
    } else {
        let e0 = es[0];
        let tail = es.subrange(1, es.len() as int);
        let first = seq![0u8] + spec_encode_exguid(e0);
        lemma_pow256_values();
        lemma_le_bytes(e0.guid as nat, 16);
        lemma_le_bytes(e0.value as nat, 4);
        lemma_exguid_entries_len(tail);
        assert(first.len() == 21);
        lemma_subrange_split(s, p, first, spec_encode_exguid_entries(tail));
        lemma_subrange_split(s, p, seq![0u8], spec_encode_exguid(e0));
        assert(s[p] == 0) by {
            assert(s.subrange(p, p + 1)[0] == s[p]);
        }
        lemma_subrange_split(
            s,
            p + 1,
            spec_le_bytes(e0.guid as nat, 16),
            spec_le_bytes(e0.value as nat, 4),
        );
        assert(crate::exguid::spec_parse_exguid_entry(s, p, prev) == Ok::<
            (ExGuid, int),
            DecodeError,
        >((e0, p + 21)));
        lemma_exguid_entries_round_trip(s, p + 21, tail, Some(e0.guid));
        assert(seq![e0] + tail =~= es);
    }
}

/// The encoding of a whole identifier array: the compact count, then the
/// entries in full.
pub open spec fn spec_encode_exguid_array(es: Seq<ExGuid>) -> Seq<u8> {
    spec_encode_compact_u64(es.len() as u64) + spec_encode_exguid_entries(es)
}

/// An encoded identifier array decodes back to its identifiers, in order.
pub proof fn lemma_exguid_array_round_trip(s: Seq<u8>, p: int, es: Seq<ExGuid>)
    requires
        0 <= p,
        es.len() < 0x1_0000_0000_0000_0000,
        p + spec_encode_exguid_array(es).len() <= s.len(),
        s.subrange(p, p + spec_encode_exguid_array(es).len()) == spec_encode_exguid_array(es),
    ensures
        crate::exguid::spec_parse_exguid_array(s, p) == Ok::<(Seq<ExGuid>, int), DecodeError>(
            (es, p + spec_encode_exguid_array(es).len()),
        ),
{
    let cnt = spec_encode_compact_u64(es.len() as u64);
    lemma_exguid_entries_len(es);
    lemma_subrange_split(s, p, cnt, spec_encode_exguid_entries(es));
    lemma_compact_u64_round_trip(s, p, es.len() as u64);
    lemma_exguid_entries_round_trip(s, p + cnt.len(), es, Option::None);
}

/// The encoding of one cell identifier: its two extended identifiers in
/// full.
pub open spec fn spec_encode_cell_id(cid: CellId) -> Seq<u8> {
    spec_encode_exguid(cid.id) + spec_encode_exguid(cid.extra)
}

/// An encoded cell identifier decodes back to its pair.
pub proof fn lemma_cell_id_round_trip(s: Seq<u8>, p: int, cid: CellId)
    requires
        0 <= p,
        p + 40 <= s.len(),
        s.subrange(p, p + 40) == spec_encode_cell_id(cid),
    ensures
        crate::cell_id::spec_parse_cell_id(s, p) == Ok::<(CellId, int), DecodeError>(
            (cid, p + 40),
        ),
{
    lemma_pow256_values();
    lemma_le_bytes(cid.id.guid as nat, 16);
    lemma_le_bytes(cid.id.value as nat, 4);
    lemma_le_bytes(cid.extra.guid as nat, 16);
    lemma_le_bytes(cid.extra.value as nat, 4);
    lemma_subrange_split(s, p, spec_encode_exguid(cid.id), spec_encode_exguid(cid.extra));
    lemma_exguid_round_trip(s, p, cid.id);
    lemma_exguid_round_trip(s, p + 20, cid.extra);
}

/// The encoding of a cell-identifier array's entries.
pub open spec fn spec_encode_cell_id_entries(cs: Seq<CellId>) -> Seq<u8>
    decreases cs.len(),
{
    if cs.len() == 0 {
        Seq::empty()
    } else {
        spec_encode_cell_id(cs[0]) + spec_encode_cell_id_entries(cs.subrange(1, cs.len() as int))
    }
}

pub proof fn lemma_cell_id_entries_len(cs: Seq<CellId>)
    ensures
        spec_encode_cell_id_entries(cs).len() == 40 * cs.len(),
    decreases cs.len(),
{
    if cs.len() > 0 {
        lemma_cell_id_entries_len(cs.subrange(1, cs.len() as int));
        lemma_le_bytes_len_only(cs[0].id.guid as nat, 16);
        lemma_le_bytes_len_only(cs[0].id.value as nat, 4);
        lemma_le_bytes_len_only(cs[0].extra.guid as nat, 16);
        lemma_le_bytes_len_only(cs[0].extra.value as nat, 4);
    }
}

/// Encoded cell-identifier entries decode back to the same pairs.
pub proof fn lemma_cell_id_entries_round_trip(s: Seq<u8>, p: int, cs: Seq<CellId>)
    requires
        0 <= p,
        p + 40 * cs.len() <= s.len(),
        s.subrange(p, p + 40 * cs.len()) == spec_encode_cell_id_entries(cs),
    ensures
        crate::cell_id::spec_parse_cell_id_entries(s, p, cs.len()) == Ok::<
            (Seq<CellId>, int),
            DecodeError,
        >((cs, p + 40 * cs.len())),
    decreases cs.len(),
{
    if cs.len() == 0 {
        assert(cs =~= Seq::<CellId>::empty());
    } else {
        let c0 = cs[0];
        let tail = cs.subrange(1, cs.len() as int);
        lemma_cell_id_entries_len(tail);
        lemma_le_bytes_len_only(c0.id.guid as nat, 16);
        lemma_le_bytes_len_only(c0.id.value as nat, 4);
        lemma_le_bytes_len_only(c0.extra.guid as nat, 16);
        lemma_le_bytes_len_only(c0.extra.value as nat, 4);
        lemma_subrange_split(s, p, spec_encode_cell_id(c0), spec_encode_cell_id_entries(tail));
        lemma_cell_id_round_trip(s, p, c0);
        lemma_cell_id_entries_round_trip(s, p + 40, tail);
        assert(seq![c0] + tail =~= cs);
    }
}

/// The encoding of a whole cell-identifier array: the compact count, then
/// the entries.
pub open spec fn spec_encode_cell_id_array(cs: Seq<CellId>) -> Seq<u8> {
    spec_encode_compact_u64(cs.len() as u64) + spec_encode_cell_id_entries(cs)
}

/// An encoded cell-identifier array decodes back to its pairs, in order.
pub proof fn lemma_cell_id_array_round_trip(s: Seq<u8>, p: int, cs: Seq<CellId>)
    requires
        0 <= p,
        cs.len() < 0x1_0000_0000_0000_0000,
        p + spec_encode_cell_id_array(cs).len() <= s.len(),
        s.subrange(p, p + spec_encode_cell_id_array(cs).len()) == spec_encode_cell_id_array(cs),
    ensures
        crate::cell_id::spec_parse_cell_id_array(s, p) == Ok::<(Seq<CellId>, int), DecodeError>(
            (cs, p + spec_encode_cell_id_array(cs).len()),
        ),
{
    let cnt = spec_encode_compact_u64(cs.len() as u64);
    lemma_cell_id_entries_len(cs);
    lemma_subrange_split(s, p, cnt, spec_encode_cell_id_entries(cs));
    lemma_compact_u64_round_trip(s, p, cs.len() as u64);
    lemma_cell_id_entries_round_trip(s, p + cnt.len(), cs);
}

/// The encoding of a length-prefixed blob: the compact count, then the raw
/// bytes themselves.
pub open spec fn spec_encode_binary_item(bytes: Seq<u8>) -> Seq<u8> {
    spec_encode_compact_u64(bytes.len() as u64) + bytes
}

/// An encoded blob decodes back to its bytes.
pub proof fn lemma_binary_item_round_trip(s: Seq<u8>, p: int, bytes: Seq<u8>)
    requires
        0 <= p,
        bytes.len() < 0x1_0000_0000_0000_0000,
        p + spec_encode_binary_item(bytes).len() <= s.len(),
        s.subrange(p, p + spec_encode_binary_item(bytes).len()) == spec_encode_binary_item(bytes),
    ensures
        crate::binary_item::spec_parse_binary_item(s, p) == Ok::<(Seq<u8>, int), DecodeError>(
            (bytes, p + spec_encode_binary_item(bytes).len()),
        ),
{
    let cnt = spec_encode_compact_u64(bytes.len() as u64);
    lemma_subrange_split(s, p, cnt, bytes);
    lemma_compact_u64_round_trip(s, p, bytes.len() as u64);
}


/// The encoding of one declaration record: its compact header, then its
/// fields in order.
pub open spec fn spec_encode_declaration(d: ObjectGroupDeclaration) -> Seq<u8> {
    match d {
        ObjectGroupDeclaration::Object {
            object_id,
            partition_id,
            data_size,
            object_reference_count,
            cell_reference_count,
        } => spec_encode_header(ObjectType::ObjectGroupObject) + (spec_encode_exguid(object_id) + (
        spec_encode_compact_u64(partition_id) + (spec_encode_compact_u64(data_size) + (
        spec_encode_compact_u64(object_reference_count) + spec_encode_compact_u64(
            cell_reference_count,
        ))))),
        ObjectGroupDeclaration::Blob {
            object_id,
            blob_id,
            partition_id,
            object_reference_count,
            cell_reference_count,
        } => spec_encode_header(ObjectType::ObjectGroupDataBlob) + (spec_encode_exguid(object_id)
            + (spec_encode_exguid(blob_id) + (spec_encode_compact_u64(partition_id) + (
        spec_encode_compact_u64(object_reference_count) + spec_encode_compact_u64(
            cell_reference_count,
        ))))),
    }
}

/// An encoded declaration decodes back to the same declaration.
pub proof fn lemma_declaration_round_trip(s: Seq<u8>, p: int, d: ObjectGroupDeclaration)
    requires
        0 <= p,
        p + spec_encode_declaration(d).len() <= s.len(),
        s.subrange(p, p + spec_encode_declaration(d).len()) == spec_encode_declaration(d),
    ensures
        spec_parse_declaration(s, p) == Ok::<(ObjectGroupDeclaration, int), DecodeError>(
            (d, p + spec_encode_declaration(d).len()),
        ),
{
    match d {
        ObjectGroupDeclaration::Object {
            object_id,
            partition_id,
            data_size,
            object_reference_count,
            cell_reference_count,
        } => {
            lemma_le_bytes_len_only(object_id.guid as nat, 16);
            lemma_le_bytes_len_only(object_id.value as nat, 4);
            let e1 = spec_encode_exguid(object_id);
            let e2 = spec_encode_compact_u64(partition_id);
            let e3 = spec_encode_compact_u64(data_size);
            let e4 = spec_encode_compact_u64(object_reference_count);
            let e5 = spec_encode_compact_u64(cell_reference_count);
            lemma_subrange_split(
                s,
                p,
                spec_encode_header(ObjectType::ObjectGroupObject),
                e1 + (e2 + (e3 + (e4 + e5))),
            );
            lemma_header_round_trip(s, p, ObjectType::ObjectGroupObject);
            let p1 = p + 1;
            lemma_subrange_split(s, p1, e1, e2 + (e3 + (e4 + e5)));
            lemma_exguid_round_trip(s, p1, object_id);
            let p2 = p1 + 20;
            lemma_subrange_split(s, p2, e2, e3 + (e4 + e5));
            lemma_compact_u64_round_trip(s, p2, partition_id);
            let p3 = p2 + e2.len();
            lemma_subrange_split(s, p3, e3, e4 + e5);
            lemma_compact_u64_round_trip(s, p3, data_size);
            let p4 = p3 + e3.len();
            lemma_subrange_split(s, p4, e4, e5);
            lemma_compact_u64_round_trip(s, p4, object_reference_count);
            let p5 = p4 + e4.len();
            assert(s.subrange(p5, p5 + e5.len() as int) == e5);
            lemma_compact_u64_round_trip(s, p5, cell_reference_count);
        },
        ObjectGroupDeclaration::Blob {
            object_id,
            blob_id,
            partition_id,
            object_reference_count,
            cell_reference_count,
        } => {
            lemma_le_bytes_len_only(object_id.guid as nat, 16);
            lemma_le_bytes_len_only(object_id.value as nat, 4);
            lemma_le_bytes_len_only(blob_id.guid as nat, 16);
            lemma_le_bytes_len_only(blob_id.value as nat, 4);
            let e1 = spec_encode_exguid(object_id);
            let e2 = spec_encode_exguid(blob_id);
            let e3 = spec_encode_compact_u64(partition_id);
            let e4 = spec_encode_compact_u64(object_reference_count);
            let e5 = spec_encode_compact_u64(cell_reference_count);
            lemma_subrange_split(
                s,
                p,
                spec_encode_header(ObjectType::ObjectGroupDataBlob),
                e1 + (e2 + (e3 + (e4 + e5))),
            );
            lemma_header_round_trip(s, p, ObjectType::ObjectGroupDataBlob);
            let p1 = p + 1;
            lemma_subrange_split(s, p1, e1, e2 + (e3 + (e4 + e5)));
            lemma_exguid_round_trip(s, p1, object_id);
            let p2 = p1 + 20;
            lemma_subrange_split(s, p2, e2, e3 + (e4 + e5));
            lemma_exguid_round_trip(s, p2, blob_id);
            let p3 = p2 + 20;
            lemma_subrange_split(s, p3, e3, e4 + e5);
            lemma_compact_u64_round_trip(s, p3, partition_id);
            let p4 = p3 + e3.len();
            lemma_subrange_split(s, p4, e4, e5);
            lemma_compact_u64_round_trip(s, p4, object_reference_count);
            let p5 = p4 + e4.len();
            assert(s.subrange(p5, p5 + e5.len() as int) == e5);
            lemma_compact_u64_round_trip(s, p5, cell_reference_count);
        },
    }
}

/// The encoding of a declaration list: the declarations one after another,
/// closed by the declarations block's end marker.
pub open spec fn spec_encode_decl_list(ds: Seq<ObjectGroupDeclaration>) -> Seq<u8>
    decreases ds.len(),
{
    if ds.len() == 0 {
        spec_encode_end(ObjectType::ObjectGroupDeclaration)
    } else {
        spec_encode_declaration(ds[0]) + spec_encode_decl_list(ds.subrange(1, ds.len() as int))
    }
}

/// An encoded declaration list decodes back to the same declarations.
pub proof fn lemma_decl_list_round_trip(s: Seq<u8>, p: int, ds: Seq<ObjectGroupDeclaration>)
    requires
        0 <= p,
        p + spec_encode_decl_list(ds).len() <= s.len(),
        s.subrange(p, p + spec_encode_decl_list(ds).len()) == spec_encode_decl_list(ds),
    ensures
        spec_parse_declaration_list(s, p) == Ok::<(Seq<ObjectGroupDeclaration>, int), DecodeError>(
            (ds, p + spec_encode_decl_list(ds).len()),
        ),
    decreases ds.len(),
{
    if ds.len() == 0 {
        lemma_end_round_trip(s, p, ObjectType::ObjectGroupDeclaration);
        assert(ds =~= Seq::<ObjectGroupDeclaration>::empty());
    } else {
        let d0 = ds[0];
        let tail = ds.subrange(1, ds.len() as int);
        let first = spec_encode_declaration(d0);
        lemma_subrange_split(s, p, first, spec_encode_decl_list(tail));
        let ht = match d0 {
            ObjectGroupDeclaration::Object { .. } => ObjectType::ObjectGroupObject,
            ObjectGroupDeclaration::Blob { .. } => ObjectType::ObjectGroupDataBlob,
        };
        assert(s.subrange(p, p + 1) =~= spec_encode_header(ht)) by {
            assert(s.subrange(p, p + first.len() as int)[0] == s[p]);
            assert(first[0] == spec_encode_header(ht)[0]);
            assert(s.subrange(p, p + 1)[0] == s[p]);
        }
        lemma_try_end_skips_header(s, p, ht, ObjectType::ObjectGroupDeclaration);
        lemma_declaration_round_trip(s, p, d0);
        lemma_decl_list_round_trip(s, p + first.len(), tail);
        assert(seq![d0] + tail =~= ds);
    }
}

/// Law: a byte sequence built by encoding any run of declarations decodes
/// back to exactly those declarations, in the same order, field for field.
pub proof fn lemma_declarations_round_trip(s: Seq<u8>, p: int, ds: Seq<ObjectGroupDeclaration>)
    requires
        0 <= p,
        p + 1 + spec_encode_decl_list(ds).len() <= s.len(),
        s.subrange(p, p + 1 + spec_encode_decl_list(ds).len()) == spec_encode_header(
            ObjectType::ObjectGroupDeclaration,
        ) + spec_encode_decl_list(ds),
    ensures
        spec_parse_declarations(s, p) == Ok::<(Seq<ObjectGroupDeclaration>, int), DecodeError>(
            (ds, p + 1 + spec_encode_decl_list(ds).len()),
        ),
{
    lemma_subrange_split(
        s,
        p,
        spec_encode_header(ObjectType::ObjectGroupDeclaration),
        spec_encode_decl_list(ds),
    );
    lemma_header_round_trip(s, p, ObjectType::ObjectGroupDeclaration);
    lemma_decl_list_round_trip(s, p + 1, ds);
}

/// The four wide-header bytes of a metadata entry.
pub open spec fn spec_encode_metadata_header() -> Seq<u8> {
    seq![2u8, 2u8, 0u8, 0u8]
}

/// The encoded wide header decodes back to the metadata entry type.
pub proof fn lemma_metadata_header_round_trip(s: Seq<u8>, p: int)
    requires
        0 <= p,
        p + 4 <= s.len(),
        s.subrange(p, p + 4) == spec_encode_metadata_header(),
    ensures
        spec_parse_header_wide(s, p) == Ok::<(ObjectHeader, int), DecodeError>(
            (ObjectHeader { object_type: ObjectType::ObjectGroupMetadata, compound: false }, p + 4),
        ),
{
    let e = spec_encode_metadata_header();
    let sub = s.subrange(p, p + 4);
    assert(s[p] == 2) by {
        assert(sub[0] == s[p]);
        assert(e[0] == 2);
    }
    assert(2u8 & 3 == 2) by (bit_vector);
    assert(le_value(sub) == 0x202) by {
        let t1 = sub.subrange(1, 4);
        let t2 = t1.subrange(1, 3);
        let t3 = t2.subrange(1, 2);
        let t4 = t3.subrange(1, 1);
        assert(sub[0] == 2 && sub[1] == 2 && sub[2] == 0 && sub[3] == 0);
        assert(t1[0] == 2 && t1[1] == 0 && t1[2] == 0 && t1.len() == 3);
        assert(t2[0] == 0 && t2[1] == 0 && t2.len() == 2);
        assert(t3[0] == 0 && t3.len() == 1);
        assert(t4.len() == 0);
        assert(le_value(t4) == 0);
        assert(le_value(t3) == t3[0] as nat + 256 * le_value(t3.subrange(1, 1)));
        assert(t3.subrange(1, 1) =~= t4);
        assert(le_value(t2) == t2[0] as nat + 256 * le_value(t2.subrange(1, 2)));
        assert(t2.subrange(1, 2) =~= t3);
        assert(le_value(t1) == t1[0] as nat + 256 * le_value(t1.subrange(1, 3)));
        assert(t1.subrange(1, 3) =~= t2);
        assert(le_value(sub) == sub[0] as nat + 256 * le_value(sub.subrange(1, 4)));
        assert(sub.subrange(1, 4) =~= t1);
    }
    let w: u32 = 0x202;
    assert(((w >> 3) & 0x3fff) as u16 == 0x40 && (w >> 2) & 1 == 0) by (bit_vector)
        requires
            w == 0x202u32,
    ;
}

/// The encoding of one metadata entry: the wide header, then the compact
/// integer of its change frequency.
pub open spec fn spec_encode_metadata(m: ObjectGroupMetadata) -> Seq<u8> {
    spec_encode_metadata_header() + spec_encode_compact_u64(m.change_frequency.value_spec())
}

/// An encoded metadata entry decodes back to the same entry.
pub proof fn lemma_metadata_round_trip(s: Seq<u8>, p: int, m: ObjectGroupMetadata)
    requires
        0 <= p,
        p + spec_encode_metadata(m).len() <= s.len(),
        s.subrange(p, p + spec_encode_metadata(m).len()) == spec_encode_metadata(m),
    ensures
        spec_parse_metadata_entry(s, p) == Ok::<(ObjectGroupMetadata, int), DecodeError>(
            (m, p + spec_encode_metadata(m).len()),
        ),
{
    let v = m.change_frequency.value_spec();
    lemma_subrange_split(s, p, spec_encode_metadata_header(), spec_encode_compact_u64(v));
    lemma_metadata_header_round_trip(s, p);
    lemma_compact_u64_round_trip(s, p + 4, v);
    assert(ObjectChangeFrequency::spec_from_value(v) == Some(m.change_frequency));
}

/// The encoding of a metadata list: the entries one after another, closed
/// by the metadata block's end marker.
pub open spec fn spec_encode_meta_list(ms: Seq<ObjectGroupMetadata>) -> Seq<u8>
    decreases ms.len(),
{
    if ms.len() == 0 {
        spec_encode_end(ObjectType::ObjectGroupMetadataBlock)
    } else {
        spec_encode_metadata(ms[0]) + spec_encode_meta_list(ms.subrange(1, ms.len() as int))
    }
}

/// An encoded metadata list decodes back to the same entries.
pub proof fn lemma_meta_list_round_trip(s: Seq<u8>, p: int, ms: Seq<ObjectGroupMetadata>)
    requires
        0 <= p,
        p + spec_encode_meta_list(ms).len() <= s.len(),
        s.subrange(p, p + spec_encode_meta_list(ms).len()) == spec_encode_meta_list(ms),
    ensures
        spec_parse_metadata_list(s, p) == Ok::<(Seq<ObjectGroupMetadata>, int), DecodeError>(
            (ms, p + spec_encode_meta_list(ms).len()),
        ),
    decreases ms.len(),
{
    if ms.len() == 0 {
        lemma_end_round_trip(s, p, ObjectType::ObjectGroupMetadataBlock);
        assert(ms =~= Seq::<ObjectGroupMetadata>::empty());
    } else {
        let m0 = ms[0];
        let tail = ms.subrange(1, ms.len() as int);
        let first = spec_encode_metadata(m0);
        lemma_subrange_split(s, p, first, spec_encode_meta_list(tail));
        assert(s[p] == 2) by {
            assert(s.subrange(p, p + first.len() as int)[0] == s[p]);
            assert(first[0] == spec_encode_metadata_header()[0]);
        }
        assert(2u8 & 3 != 3) by (bit_vector);
        lemma_metadata_round_trip(s, p, m0);
        lemma_meta_list_round_trip(s, p + first.len(), tail);
        assert(seq![m0] + tail =~= ms);
    }
}

/// Whether a data record's identifier lists and payload are small enough
/// for their counts to be carried by the compact integers of the format.
pub open spec fn spec_encodable_data(d: ObjectGroupDataView) -> bool {
    match d {
        ObjectGroupDataView::Object { group, cells, data } => group.len()
            < 0x1_0000_0000_0000_0000 && cells.len() < 0x1_0000_0000_0000_0000 && data.len()
            < 0x1_0000_0000_0000_0000,
        ObjectGroupDataView::ObjectExcluded { group, cells, .. } => group.len()
            < 0x1_0000_0000_0000_0000 && cells.len() < 0x1_0000_0000_0000_0000,
        ObjectGroupDataView::BlobReference { objects, cells, .. } => objects.len()
            < 0x1_0000_0000_0000_0000 && cells.len() < 0x1_0000_0000_0000_0000,
    }
}

/// The encoding of one data record: its compact header, its two identifier
/// arrays, then whichever third field its shape carries.
pub open spec fn spec_encode_data_record(d: ObjectGroupDataView) -> Seq<u8> {
    match d {
        ObjectGroupDataView::Object { group, cells, data } => spec_encode_header(
            ObjectType::ObjectGroupDataObject,
        ) + (spec_encode_exguid_array(group) + (spec_encode_cell_id_array(cells)
            + spec_encode_binary_item(data))),
        ObjectGroupDataView::ObjectExcluded { group, cells, size } => spec_encode_header(
            ObjectType::ObjectGroupDataExcluded,
        ) + (spec_encode_exguid_array(group) + (spec_encode_cell_id_array(cells)
            + spec_encode_compact_u64(size))),
        ObjectGroupDataView::BlobReference { objects, cells, blob } => spec_encode_header(
            ObjectType::ObjectGroupBlobReference,
        ) + (spec_encode_exguid_array(objects) + (spec_encode_cell_id_array(cells)
            + spec_encode_exguid(blob))),
    }
}

/// An encoded data record decodes back to the same record.
pub proof fn lemma_data_record_round_trip(s: Seq<u8>, p: int, d: ObjectGroupDataView)
    requires
        0 <= p,
        spec_encodable_data(d),
        p + spec_encode_data_record(d).len() <= s.len(),
        s.subrange(p, p + spec_encode_data_record(d).len()) == spec_encode_data_record(d),
    ensures
        spec_parse_data_record(s, p) == Ok::<(ObjectGroupDataView, int), DecodeError>(
            (d, p + spec_encode_data_record(d).len()),
        ),
{
    match d {
        ObjectGroupDataView::Object { group, cells, data } => {
            let e1 = spec_encode_exguid_array(group);
            let e2 = spec_encode_cell_id_array(cells);
            let e3 = spec_encode_binary_item(data);
            lemma_subrange_split(
                s,
                p,
                spec_encode_header(ObjectType::ObjectGroupDataObject),
                e1 + (e2 + e3),
            );
            lemma_header_round_trip(s, p, ObjectType::ObjectGroupDataObject);
            lemma_subrange_split(s, p + 1, e1, e2 + e3);
            lemma_exguid_array_round_trip(s, p + 1, group);
            let p2 = p + 1 + e1.len();
            lemma_subrange_split(s, p2, e2, e3);
            lemma_cell_id_array_round_trip(s, p2, cells);
            let p3 = p2 + e2.len();
            assert(s.subrange(p3, p3 + e3.len() as int) == e3);
            lemma_binary_item_round_trip(s, p3, data);
        },
        ObjectGroupDataView::ObjectExcluded { group, cells, size } => {
            let e1 = spec_encode_exguid_array(group);
            let e2 = spec_encode_cell_id_array(cells);
            let e3 = spec_encode_compact_u64(size);
            lemma_subrange_split(
                s,
                p,
                spec_encode_header(ObjectType::ObjectGroupDataExcluded),
                e1 + (e2 + e3),
            );
            lemma_header_round_trip(s, p, ObjectType::ObjectGroupDataExcluded);
            lemma_subrange_split(s, p + 1, e1, e2 + e3);
            lemma_exguid_array_round_trip(s, p + 1, group);
            let p2 = p + 1 + e1.len();
            lemma_subrange_split(s, p2, e2, e3);
            lemma_cell_id_array_round_trip(s, p2, cells);
            let p3 = p2 + e2.len();
            assert(s.subrange(p3, p3 + e3.len() as int) == e3);
            lemma_compact_u64_round_trip(s, p3, size);
        },
        ObjectGroupDataView::BlobReference { objects, cells, blob } => {
            lemma_le_bytes_len_only(blob.guid as nat, 16);
            lemma_le_bytes_len_only(blob.value as nat, 4);
            let e1 = spec_encode_exguid_array(objects);
            let e2 = spec_encode_cell_id_array(cells);
            let e3 = spec_encode_exguid(blob);
            lemma_subrange_split(
                s,
                p,
                spec_encode_header(ObjectType::ObjectGroupBlobReference),
                e1 + (e2 + e3),
            );
            lemma_header_round_trip(s, p, ObjectType::ObjectGroupBlobReference);
            lemma_subrange_split(s, p + 1, e1, e2 + e3);
            lemma_exguid_array_round_trip(s, p + 1, objects);
            let p2 = p + 1 + e1.len();
            lemma_subrange_split(s, p2, e2, e3);
            lemma_cell_id_array_round_trip(s, p2, cells);
            let p3 = p2 + e2.len();
            assert(s.subrange(p3, p3 + e3.len() as int) == e3);
            lemma_exguid_round_trip(s, p3, blob);
        },
    }
}

/// Whether every record of a data list is small enough to encode.
pub open spec fn spec_encodable_data_list(objs: Seq<ObjectGroupDataView>) -> bool {
    forall|i: int| 0 <= i < objs.len() ==> spec_encodable_data(#[trigger] objs[i])
}

/// The encoding of a data list: the records one after another, closed by
/// the data block's end marker.
pub open spec fn spec_encode_data_list(objs: Seq<ObjectGroupDataView>) -> Seq<u8>
    decreases objs.len(),
{
    if objs.len() == 0 {
        spec_encode_end(ObjectType::ObjectGroupData)
    } else {
        spec_encode_data_record(objs[0]) + spec_encode_data_list(
            objs.subrange(1, objs.len() as int),
        )
    }
}

/// An encoded data list decodes back to the same records.
#[verifier::rlimit(50)]
pub proof fn lemma_data_list_round_trip(s: Seq<u8>, p: int, objs: Seq<ObjectGroupDataView>)
    requires
        0 <= p,
        spec_encodable_data_list(objs),
        p + spec_encode_data_list(objs).len() <= s.len(),
        s.subrange(p, p + spec_encode_data_list(objs).len()) == spec_encode_data_list(objs),
    ensures
        spec_parse_data_list(s, p) == Ok::<(Seq<ObjectGroupDataView>, int), DecodeError>(
            (objs, p + spec_encode_data_list(objs).len()),
        ),
    decreases objs.len(),
{
    if objs.len() == 0 {
        lemma_end_round_trip(s, p, ObjectType::ObjectGroupData);
        assert(objs =~= Seq::<ObjectGroupDataView>::empty());
    } else {
        let d0 = objs[0];
        let tail = objs.subrange(1, objs.len() as int);
        let first = spec_encode_data_record(d0);
        lemma_subrange_split(s, p, first, spec_encode_data_list(tail));
        let ht = match d0 {
            ObjectGroupDataView::Object { .. } => ObjectType::ObjectGroupDataObject,
            ObjectGroupDataView::ObjectExcluded { .. } => ObjectType::ObjectGroupDataExcluded,
            ObjectGroupDataView::BlobReference { .. } => ObjectType::ObjectGroupBlobReference,
        };
        assert(s.subrange(p, p + 1) =~= spec_encode_header(ht)) by {
            assert(s.subrange(p, p + first.len() as int)[0] == s[p]);
            assert(first[0] == spec_encode_header(ht)[0]);
            assert(s.subrange(p, p + 1)[0] == s[p]);
        }
        lemma_try_end_skips_header(s, p, ht, ObjectType::ObjectGroupData);
        lemma_data_record_round_trip(s, p, d0);
        assert(spec_encodable_data_list(tail)) by {
            assert(forall|i: int| 0 <= i < tail.len() ==> #[trigger] tail[i] == objs[i + 1]);
        }
        lemma_data_list_round_trip(s, p + first.len(), tail);
        assert(seq![d0] + tail =~= objs);
    }
}

/// The encoding of the data block and the group's closing marker: the data
/// block's header, its records and end marker, then the end marker of the
/// outer data element.
pub open spec fn spec_encode_data_block(objs: Seq<ObjectGroupDataView>) -> Seq<u8> {
    spec_encode_header(ObjectType::ObjectGroupData) + (spec_encode_data_list(objs)
        + spec_encode_end(ObjectType::DataElement))
}

/// An encoded data block parses as the data block's header followed by a
/// finished group holding the given parts.
pub proof fn lemma_data_block_round_trip(
    s: Seq<u8>,
    p: int,
    objs: Seq<ObjectGroupDataView>,
    decls: Seq<ObjectGroupDeclaration>,
    metas: Seq<ObjectGroupMetadata>,
)
    requires
        0 <= p,
        spec_encodable_data_list(objs),
        p + spec_encode_data_block(objs).len() <= s.len(),
        s.subrange(p, p + spec_encode_data_block(objs).len()) == spec_encode_data_block(objs),
    ensures
        spec_parse_header(s, p) == Ok::<(ObjectHeader, int), DecodeError>(
            (ObjectHeader { object_type: ObjectType::ObjectGroupData, compound: false }, p + 1),
        ),
        crate::object_group::spec_finish_object_group(s, p + 1, decls, metas) == Ok::<
            (ObjectGroupView, int),
            DecodeError,
        >(
            (
                ObjectGroupView { declarations: decls, metadata: metas, objects: objs },
                p + spec_encode_data_block(objs).len(),
            ),
        ),
{
    let dl = spec_encode_data_list(objs);
    let en = spec_encode_end(ObjectType::DataElement);
    lemma_subrange_split(s, p, spec_encode_header(ObjectType::ObjectGroupData), dl + en);
    lemma_header_round_trip(s, p, ObjectType::ObjectGroupData);
    lemma_subrange_split(s, p + 1, dl, en);
    lemma_data_list_round_trip(s, p + 1, objs);
    lemma_end_round_trip(s, p + 1 + dl.len(), ObjectType::DataElement);
}

/// The encoding of a whole object group: the declarations block, the
/// metadata block only when there are entries, then the data block and the
/// outer end marker.
pub open spec fn spec_encode_object_group(g: ObjectGroupView) -> Seq<u8> {
    spec_encode_header(ObjectType::ObjectGroupDeclaration) + (spec_encode_decl_list(g.declarations)
        + (if g.metadata.len() == 0 {
        spec_encode_data_block(g.objects)
    } else {
        spec_encode_header(ObjectType::ObjectGroupMetadataBlock) + (spec_encode_meta_list(
            g.metadata,
        ) + spec_encode_data_block(g.objects))
    }))
}

/// Law: a well-formed synthetic byte sequence built by encoding a whole
/// group decodes back to that group, every part in the same order and with
/// the same field values. In particular the decode is total on encoded
/// input: it cannot fail on it, and cannot return anything else.
pub proof fn lemma_object_group_round_trip(s: Seq<u8>, p: int, g: ObjectGroupView)
    requires
        0 <= p,
        spec_encodable_data_list(g.objects),
        p + spec_encode_object_group(g).len() <= s.len(),
        s.subrange(p, p + spec_encode_object_group(g).len()) == spec_encode_object_group(g),
    ensures
        spec_parse_object_group(s, p) == Ok::<(ObjectGroupView, int), DecodeError>(
            (g, p + spec_encode_object_group(g).len()),
        ),
{
    let dl = spec_encode_decl_list(g.declarations);
    let restm = if g.metadata.len() == 0 {
        spec_encode_data_block(g.objects)
    } else {
        spec_encode_header(ObjectType::ObjectGroupMetadataBlock) + (spec_encode_meta_list(
            g.metadata,
        ) + spec_encode_data_block(g.objects))
    };
    lemma_subrange_split(s, p, spec_encode_header(ObjectType::ObjectGroupDeclaration), dl + restm);
    lemma_header_round_trip(s, p, ObjectType::ObjectGroupDeclaration);
    lemma_subrange_split(s, p + 1, dl, restm);
    lemma_decl_list_round_trip(s, p + 1, g.declarations);
    let p1 = p + 1 + dl.len();
    assert(g == ObjectGroupView {
        declarations: g.declarations,
        metadata: g.metadata,
        objects: g.objects,
    });
    if g.metadata.len() == 0 {
        assert(g.metadata =~= Seq::<ObjectGroupMetadata>::empty());
        lemma_data_block_round_trip(s, p1, g.objects, g.declarations, g.metadata);
    } else {
        let ml = spec_encode_meta_list(g.metadata);
        let db = spec_encode_data_block(g.objects);
        lemma_subrange_split(
            s,
            p1,
            spec_encode_header(ObjectType::ObjectGroupMetadataBlock),
            ml + db,
        );
        lemma_header_round_trip(s, p1, ObjectType::ObjectGroupMetadataBlock);
        lemma_subrange_split(s, p1 + 1, ml, db);
        lemma_meta_list_round_trip(s, p1 + 1, g.metadata);
        lemma_data_block_round_trip(s, p1 + 1 + ml.len(), g.objects, g.declarations, g.metadata);
    }
}

/// Whether a group respects the positional correspondence the wider
/// protocol promises: one data record per declaration, and metadata either
/// absent or one entry per declaration.
pub open spec fn spec_wf_group(g: ObjectGroupView) -> bool {
    g.objects.len() == g.declarations.len() && (g.metadata.len() == 0 || g.metadata.len()
        == g.declarations.len())
}

/// Law: on input encoding a well-formed group, decoding succeeds and yields
/// exactly as many data records as declarations, and a metadata sequence
/// either empty or matching the declarations one to one. The grammar holds
/// these counts through its end markers alone; this states them of every
/// well-formed encoded input.
pub proof fn lemma_group_counts(s: Seq<u8>, p: int, g: ObjectGroupView)
    requires
        0 <= p,
        spec_wf_group(g),
        spec_encodable_data_list(g.objects),
        p + spec_encode_object_group(g).len() <= s.len(),
        s.subrange(p, p + spec_encode_object_group(g).len()) == spec_encode_object_group(g),
    ensures
        match spec_parse_object_group(s, p) {
            Ok((out, _)) => out.objects.len() == out.declarations.len() && (out.metadata.len() == 0
                || out.metadata.len() == out.declarations.len()),
            Err(_) => false,
        },
{
    lemma_object_group_round_trip(s, p, g);
}

/// Law: decoding is deterministic. What a decode returns is a function of
/// the input bytes and the start position alone — the executable decoder's
/// contract pins its result to this function — so identical input bytes
/// always produce field-for-field identical output.
pub proof fn lemma_decode_deterministic(s1: Seq<u8>, p1: int, s2: Seq<u8>, p2: int)
    requires
        s1 == s2,
        p1 == p2,
    ensures
        spec_parse_object_group(s1, p1) == spec_parse_object_group(s2, p2),
{
}

} // verus!
