//! The truncation law: cutting a well-formed byte sequence at any byte
//! boundary before its final end marker makes decoding fail — never a
//! silently short result.
//!
//! Each lemma here relates decoding a stream to decoding one of its
//! prefixes: what a decode finished reading before the cut, it reads the
//! same way on the prefix; what it would have read past the cut makes the
//! prefix decode fail.

use vstd::prelude::*;

use crate::binary_item::spec_parse_binary_item;
use crate::cell_id::spec_parse_cell_id;
use crate::cell_id::spec_parse_cell_id_array;
use crate::cell_id::spec_parse_cell_id_entries;
use crate::cell_id::spec_parse_cell_id_entry;
use crate::compact_u64::spec_parse_compact_u64;
use crate::exguid::spec_parse_exguid;
use crate::object_group::ObjectGroupDataView;
use crate::object_group::ObjectGroupDeclaration;
use crate::object_group::ObjectGroupMetadata;
use crate::object_group::ObjectGroupView;
use crate::object_group::spec_finish_object_group;
use crate::object_group::spec_parse_data_list;
use crate::object_group::spec_parse_data_record;
use crate::object_group::spec_parse_declaration;
use crate::object_group::spec_parse_declaration_list;
use crate::object_group::spec_parse_declarations;
use crate::object_group::spec_parse_metadata_entry;
use crate::object_group::spec_parse_metadata_list;
use crate::object_group::spec_parse_object_group;
use crate::object_types::ObjectType;
use crate::stream_object::spec_try_end;
use crate::exguid::spec_parse_exguid_array;
use crate::exguid::spec_parse_exguid_entries;
use crate::exguid::spec_parse_exguid_entry;
use crate::stream_object::spec_parse_end;
use crate::stream_object::spec_parse_header;
use crate::stream_object::spec_parse_header_wide;

verus! {

/// Inside the cut, a subrange of the prefix is a subrange of the stream.
pub proof fn lemma_prefix_parts(s: Seq<u8>, k: int, a: int, b: int)
    requires
        0 <= a <= b <= k <= s.len(),
    ensures
        s.subrange(0, k).subrange(a, b) == s.subrange(a, b),
{
    assert(s.subrange(0, k).subrange(a, b) =~= s.subrange(a, b));
}

pub proof fn lemma_compact_u64_prefix(s: Seq<u8>, k: int, p: int)
    requires
        0 <= p <= k <= s.len(),
    ensures
        match spec_parse_compact_u64(s, p) {
            Ok((v, e)) => if e <= k {
                spec_parse_compact_u64(s.subrange(0, k), p) == Ok::<(u64, int), crate::errors::DecodeError>((v, e))
            } else {
                spec_parse_compact_u64(s.subrange(0, k), p) is Err
            },
            Err(_) => true,
        },
{
    let sp = s.subrange(0, k);
    if spec_parse_compact_u64(s, p) is Ok {
        let (v, e) = spec_parse_compact_u64(s, p)->Ok_0;
        let tag = s[p];
        let kind = tag & 7;
        if e <= k {
            assert(sp[p] == s[p]);
            if kind != 0 {
                lemma_prefix_parts(s, k, p + 1, e);
            }
        } else {
            if p < k {
                assert(sp[p] == s[p]);
            }
        }
    }
}

pub proof fn lemma_exguid_prefix(s: Seq<u8>, k: int, p: int)
    requires
        0 <= p <= k <= s.len(),
    ensures
        match spec_parse_exguid(s, p) {
            Ok((v, e)) => if e <= k {
                spec_parse_exguid(s.subrange(0, k), p) == Ok::<(crate::exguid::ExGuid, int), crate::errors::DecodeError>(
                    (v, e),
                )
            } else {
                spec_parse_exguid(s.subrange(0, k), p) is Err
            },
            Err(_) => true,
        },
{
    if spec_parse_exguid(s, p) is Ok {
        let (v, e) = spec_parse_exguid(s, p)->Ok_0;
        if e <= k {
            lemma_prefix_parts(s, k, p, p + 16);
            lemma_prefix_parts(s, k, p + 16, p + 20);
        }
    }
}

pub proof fn lemma_exguid_entry_prefix(s: Seq<u8>, k: int, p: int, prev: Option<u128>)
    requires
        0 <= p <= k <= s.len(),
    ensures
        match spec_parse_exguid_entry(s, p, prev) {
            Ok((v, e)) => if e <= k {
                spec_parse_exguid_entry(s.subrange(0, k), p, prev) == Ok::<
                    (crate::exguid::ExGuid, int),
                    crate::errors::DecodeError,
                >((v, e))
            } else {
                spec_parse_exguid_entry(s.subrange(0, k), p, prev) is Err
            },
            Err(_) => true,
        },
{
    let sp = s.subrange(0, k);
    if spec_parse_exguid_entry(s, p, prev) is Ok {
        let (v, e) = spec_parse_exguid_entry(s, p, prev)->Ok_0;
        let flag = s[p];
        if e <= k {
            assert(sp[p] == s[p]);
            if flag == 0 {
                lemma_prefix_parts(s, k, p + 1, p + 17);
                lemma_prefix_parts(s, k, p + 17, p + 21);
            } else {
                lemma_prefix_parts(s, k, p + 1, p + 5);
            }
        } else {
            if p < k {
                assert(sp[p] == s[p]);
            }
        }
    }
}

pub proof fn lemma_exguid_entries_prefix(s: Seq<u8>, k: int, p: int, n: nat, prev: Option<u128>)
    requires
        0 <= p <= k <= s.len(),
    ensures
        match spec_parse_exguid_entries(s, p, n, prev) {
            Ok((v, e)) => if e <= k {
                spec_parse_exguid_entries(s.subrange(0, k), p, n, prev) == Ok::<
                    (Seq<crate::exguid::ExGuid>, int),
                    crate::errors::DecodeError,
                >((v, e))
            } else {
                spec_parse_exguid_entries(s.subrange(0, k), p, n, prev) is Err
            },
            Err(_) => true,
        },
    decreases n,
{
    if n > 0 && spec_parse_exguid_entries(s, p, n, prev) is Ok {
        let (e0, p1) = spec_parse_exguid_entry(s, p, prev)->Ok_0;
        assert(p < p1 <= s.len());
        crate::exguid::lemma_exguid_entries_bounds(s, p1, (n - 1) as nat, Some(e0.guid));
        lemma_exguid_entry_prefix(s, k, p, prev);
        if p1 <= k {
            lemma_exguid_entries_prefix(s, k, p1, (n - 1) as nat, Some(e0.guid));
        }
    }
}

pub proof fn lemma_exguid_array_prefix(s: Seq<u8>, k: int, p: int)
    requires
        0 <= p <= k <= s.len(),
    ensures
        match spec_parse_exguid_array(s, p) {
            Ok((v, e)) => if e <= k {
                spec_parse_exguid_array(s.subrange(0, k), p) == Ok::<
                    (Seq<crate::exguid::ExGuid>, int),
                    crate::errors::DecodeError,
                >((v, e))
            } else {
                spec_parse_exguid_array(s.subrange(0, k), p) is Err
            },
            Err(_) => true,
        },
{
    if spec_parse_exguid_array(s, p) is Ok {
        let (count, p1) = spec_parse_compact_u64(s, p)->Ok_0;
        crate::compact_u64::lemma_compact_u64_advances(s, p);
        crate::exguid::lemma_exguid_entries_bounds(s, p1, count as nat, Option::None);
        lemma_compact_u64_prefix(s, k, p);
        if p1 <= k {
            lemma_exguid_entries_prefix(s, k, p1, count as nat, Option::None);
        }
    }
}

pub proof fn lemma_cell_id_prefix(s: Seq<u8>, k: int, p: int)
    requires
        0 <= p <= k <= s.len(),
    ensures
        match spec_parse_cell_id(s, p) {
            Ok((v, e)) => if e <= k {
                spec_parse_cell_id(s.subrange(0, k), p) == Ok::<(crate::cell_id::CellId, int), crate::errors::DecodeError>(
                    (v, e),
                )
            } else {
                spec_parse_cell_id(s.subrange(0, k), p) is Err
            },
            Err(_) => true,
        },
{
    if spec_parse_cell_id(s, p) is Ok {
        let (a, p1) = spec_parse_exguid(s, p)->Ok_0;
        crate::exguid::lemma_exguid_advances(s, p);
        lemma_exguid_prefix(s, k, p);
        if p1 <= k {
            lemma_exguid_prefix(s, k, p1);
        }
    }
}

pub proof fn lemma_cell_id_entries_prefix(s: Seq<u8>, k: int, p: int, n: nat)
    requires
        0 <= p <= k <= s.len(),
    ensures
        match spec_parse_cell_id_entries(s, p, n) {
            Ok((v, e)) => if e <= k {
                spec_parse_cell_id_entries(s.subrange(0, k), p, n) == Ok::<
                    (Seq<crate::cell_id::CellId>, int),
                    crate::errors::DecodeError,
                >((v, e))
            } else {
                spec_parse_cell_id_entries(s.subrange(0, k), p, n) is Err
            },
            Err(_) => true,
        },
    decreases n,
{
    if n > 0 && spec_parse_cell_id_entries(s, p, n) is Ok {
        let (e0, p1) = spec_parse_cell_id_entry(s, p)->Ok_0;
        crate::exguid::lemma_exguid_advances(s, p);
        crate::exguid::lemma_exguid_advances(s, spec_parse_exguid(s, p)->Ok_0.1);
        assert(p < p1 <= s.len());
        crate::cell_id::lemma_cell_id_entries_bounds(s, p1, (n - 1) as nat);
        lemma_cell_id_prefix(s, k, p);
        if p1 <= k {
            lemma_cell_id_entries_prefix(s, k, p1, (n - 1) as nat);
        }
    }
}

pub proof fn lemma_cell_id_array_prefix(s: Seq<u8>, k: int, p: int)
    requires
        0 <= p <= k <= s.len(),
    ensures
        match spec_parse_cell_id_array(s, p) {
            Ok((v, e)) => if e <= k {
                spec_parse_cell_id_array(s.subrange(0, k), p) == Ok::<
                    (Seq<crate::cell_id::CellId>, int),
                    crate::errors::DecodeError,
                >((v, e))
            } else {
                spec_parse_cell_id_array(s.subrange(0, k), p) is Err
            },
            Err(_) => true,
        },
{
    if spec_parse_cell_id_array(s, p) is Ok {
        let (count, p1) = spec_parse_compact_u64(s, p)->Ok_0;
        crate::compact_u64::lemma_compact_u64_advances(s, p);
        crate::cell_id::lemma_cell_id_entries_bounds(s, p1, count as nat);
        lemma_compact_u64_prefix(s, k, p);
        if p1 <= k {
            lemma_cell_id_entries_prefix(s, k, p1, count as nat);
        }
    }
}

pub proof fn lemma_binary_item_prefix(s: Seq<u8>, k: int, p: int)
    requires
        0 <= p <= k <= s.len(),
    ensures
        match spec_parse_binary_item(s, p) {
            Ok((v, e)) => if e <= k {
                spec_parse_binary_item(s.subrange(0, k), p) == Ok::<(Seq<u8>, int), crate::errors::DecodeError>((v, e))
            } else {
                spec_parse_binary_item(s.subrange(0, k), p) is Err
            },
            Err(_) => true,
        },
{
    if spec_parse_binary_item(s, p) is Ok {
        let (count, p1) = spec_parse_compact_u64(s, p)->Ok_0;
        crate::compact_u64::lemma_compact_u64_advances(s, p);
        lemma_compact_u64_prefix(s, k, p);
        if p1 + count <= k {
            lemma_prefix_parts(s, k, p1, p1 + count);
        }
    }
}

pub proof fn lemma_header_prefix(s: Seq<u8>, k: int, p: int)
    requires
        0 <= p <= k <= s.len(),
    ensures
        match spec_parse_header(s, p) {
            Ok((v, e)) => if e <= k {
                spec_parse_header(s.subrange(0, k), p) == Ok::<
                    (crate::stream_object::ObjectHeader, int),
                    crate::errors::DecodeError,
                >((v, e))
            } else {
                spec_parse_header(s.subrange(0, k), p) is Err
            },
            Err(_) => true,
        },
{
    let sp = s.subrange(0, k);
    if spec_parse_header(s, p) is Ok {
        let (v, e) = spec_parse_header(s, p)->Ok_0;
        if e <= k {
            assert(sp[p] == s[p]);
            if s[p] & 3 == 2 {
                lemma_prefix_parts(s, k, p, p + 4);
            }
        } else {
            if p < k {
                assert(sp[p] == s[p]);
            }
        }
    }
}

pub proof fn lemma_header_wide_prefix(s: Seq<u8>, k: int, p: int)
    requires
        0 <= p <= k <= s.len(),
    ensures
        match spec_parse_header_wide(s, p) {
            Ok((v, e)) => if e <= k {
                spec_parse_header_wide(s.subrange(0, k), p) == Ok::<
                    (crate::stream_object::ObjectHeader, int),
                    crate::errors::DecodeError,
                >((v, e))
            } else {
                spec_parse_header_wide(s.subrange(0, k), p) is Err
            },
            Err(_) => true,
        },
{
    let sp = s.subrange(0, k);
    if spec_parse_header_wide(s, p) is Ok {
        let (v, e) = spec_parse_header_wide(s, p)->Ok_0;
        if e <= k {
            assert(sp[p] == s[p]);
            lemma_prefix_parts(s, k, p, p + 4);
        } else {
            if p < k {
                assert(sp[p] == s[p]);
            }
        }
    }
}

pub proof fn lemma_end_prefix(s: Seq<u8>, k: int, p: int)
    requires
        0 <= p <= k <= s.len(),
    ensures
        match spec_parse_end(s, p) {
            Ok((v, e)) => if e <= k {
                spec_parse_end(s.subrange(0, k), p) == Ok::<
                    (crate::object_types::ObjectType, int),
                    crate::errors::DecodeError,
                >((v, e))
            } else {
                spec_parse_end(s.subrange(0, k), p) is Err
            },
            Err(_) => true,
        },
{
    let sp = s.subrange(0, k);
    if p < k {
        assert(sp[p] == s[p]);
    }
}

/// A successfully decoded declaration list ends at or after its start,
/// never past the end.
pub proof fn lemma_decl_list_bounds(s: Seq<u8>, p: int)
    requires
        0 <= p <= s.len(),
        spec_parse_declaration_list(s, p) is Ok,
    ensures
        p <= spec_parse_declaration_list(s, p)->Ok_0.1 <= s.len(),
    decreases s.len() - p,
{
    let (b, pe) = spec_try_end(s, p, ObjectType::ObjectGroupDeclaration)->Ok_0;
    if !b {
        let (d, p1) = spec_parse_declaration(s, p)->Ok_0;
        lemma_decl_list_bounds(s, p1);
    }
}

/// A successfully decoded metadata list ends at or after its start, never
/// past the end.
pub proof fn lemma_meta_list_bounds(s: Seq<u8>, p: int)
    requires
        0 <= p <= s.len(),
        spec_parse_metadata_list(s, p) is Ok,
    ensures
        p <= spec_parse_metadata_list(s, p)->Ok_0.1 <= s.len(),
    decreases s.len() - p,
{
    let (b, pe) = spec_try_end(s, p, ObjectType::ObjectGroupMetadataBlock)->Ok_0;
    if !b {
        let (m, p1) = spec_parse_metadata_entry(s, p)->Ok_0;
        lemma_meta_list_bounds(s, p1);
    }
}

/// A successfully decoded data list ends at or after its start, never past
/// the end.
pub proof fn lemma_data_list_bounds(s: Seq<u8>, p: int)
    requires
        0 <= p <= s.len(),
        spec_parse_data_list(s, p) is Ok,
    ensures
        p <= spec_parse_data_list(s, p)->Ok_0.1 <= s.len(),
    decreases s.len() - p,
{
    let (b, pe) = spec_try_end(s, p, ObjectType::ObjectGroupData)->Ok_0;
    if !b {
        let (d, p1) = spec_parse_data_record(s, p)->Ok_0;
        lemma_data_list_bounds(s, p1);
    }
}

#[verifier::rlimit(50)]
pub proof fn lemma_declaration_prefix(s: Seq<u8>, k: int, p: int)
    requires
        0 <= p <= k <= s.len(),
    ensures
        match spec_parse_declaration(s, p) {
            Ok((v, e)) => if e <= k {
                spec_parse_declaration(s.subrange(0, k), p) == Ok::<
                    (ObjectGroupDeclaration, int),
                    crate::errors::DecodeError,
                >((v, e))
            } else {
                spec_parse_declaration(s.subrange(0, k), p) is Err
            },
            Err(_) => true,
        },
{
    if spec_parse_declaration(s, p) is Ok {
        let (h, p1) = spec_parse_header(s, p)->Ok_0;
        crate::stream_object::lemma_header_advances(s, p);
        lemma_header_prefix(s, k, p);
        if p1 <= k {
            if h.object_type == ObjectType::ObjectGroupObject {
                let (_, p2) = spec_parse_exguid(s, p1)->Ok_0;
                crate::exguid::lemma_exguid_advances(s, p1);
                lemma_exguid_prefix(s, k, p1);
                if p2 <= k {
                    let (_, p3) = spec_parse_compact_u64(s, p2)->Ok_0;
                    crate::compact_u64::lemma_compact_u64_advances(s, p2);
                    lemma_compact_u64_prefix(s, k, p2);
                    if p3 <= k {
                        let (_, p4) = spec_parse_compact_u64(s, p3)->Ok_0;
                        crate::compact_u64::lemma_compact_u64_advances(s, p3);
                        lemma_compact_u64_prefix(s, k, p3);
                        if p4 <= k {
                            let (_, p5) = spec_parse_compact_u64(s, p4)->Ok_0;
                            crate::compact_u64::lemma_compact_u64_advances(s, p4);
                            crate::compact_u64::lemma_compact_u64_advances(s, p5);
                            lemma_compact_u64_prefix(s, k, p4);
                            if p5 <= k {
                                lemma_compact_u64_prefix(s, k, p5);
                            }
                        }
                    }
                }
            } else {
                let (_, p2) = spec_parse_exguid(s, p1)->Ok_0;
                crate::exguid::lemma_exguid_advances(s, p1);
                lemma_exguid_prefix(s, k, p1);
                if p2 <= k {
                    let (_, p3) = spec_parse_exguid(s, p2)->Ok_0;
                    crate::exguid::lemma_exguid_advances(s, p2);
                    lemma_exguid_prefix(s, k, p2);
                    if p3 <= k {
                        let (_, p4) = spec_parse_compact_u64(s, p3)->Ok_0;
                        crate::compact_u64::lemma_compact_u64_advances(s, p3);
                        lemma_compact_u64_prefix(s, k, p3);
                        if p4 <= k {
                            let (_, p5) = spec_parse_compact_u64(s, p4)->Ok_0;
                            crate::compact_u64::lemma_compact_u64_advances(s, p4);
                            crate::compact_u64::lemma_compact_u64_advances(s, p5);
                            lemma_compact_u64_prefix(s, k, p4);
                            if p5 <= k {
                                lemma_compact_u64_prefix(s, k, p5);
                            }
                        }
                    }
                }
            }
        }
    }
}

pub proof fn lemma_metadata_entry_prefix(s: Seq<u8>, k: int, p: int)
    requires
        0 <= p <= k <= s.len(),
    ensures
        match spec_parse_metadata_entry(s, p) {
            Ok((v, e)) => if e <= k {
                spec_parse_metadata_entry(s.subrange(0, k), p) == Ok::<
                    (ObjectGroupMetadata, int),
                    crate::errors::DecodeError,
                >((v, e))
            } else {
                spec_parse_metadata_entry(s.subrange(0, k), p) is Err
            },
            Err(_) => true,
        },
{
    if spec_parse_metadata_entry(s, p) is Ok {
        let (h, p1) = spec_parse_header_wide(s, p)->Ok_0;
        lemma_header_wide_prefix(s, k, p);
        if p1 <= k {
            lemma_compact_u64_prefix(s, k, p1);
        }
    }
}

#[verifier::rlimit(50)]
pub proof fn lemma_data_record_prefix(s: Seq<u8>, k: int, p: int)
    requires
        0 <= p <= k <= s.len(),
    ensures
        match spec_parse_data_record(s, p) {
            Ok((v, e)) => if e <= k {
                spec_parse_data_record(s.subrange(0, k), p) == Ok::<
                    (ObjectGroupDataView, int),
                    crate::errors::DecodeError,
                >((v, e))
            } else {
                spec_parse_data_record(s.subrange(0, k), p) is Err
            },
            Err(_) => true,
        },
{
    let sp = s.subrange(0, k);
    if spec_parse_data_record(s, p) is Ok {
        let (v, e) = spec_parse_data_record(s, p)->Ok_0;
        let (h, p1) = spec_parse_header(s, p)->Ok_0;
        crate::stream_object::lemma_header_advances(s, p);
        let (g, p2) = spec_parse_exguid_array(s, p1)->Ok_0;
        crate::exguid::lemma_exguid_array_advances(s, p1);
        let (cs, p3) = spec_parse_cell_id_array(s, p2)->Ok_0;
        crate::cell_id::lemma_cell_id_array_advances(s, p2);
        if h.object_type == ObjectType::ObjectGroupDataExcluded {
            crate::compact_u64::lemma_compact_u64_advances(s, p3);
        } else if h.object_type == ObjectType::ObjectGroupDataObject {
            crate::binary_item::lemma_binary_item_advances(s, p3);
        } else {
            crate::exguid::lemma_exguid_advances(s, p3);
        }
        if e <= k {
            lemma_header_prefix(s, k, p);
            lemma_exguid_array_prefix(s, k, p1);
            lemma_cell_id_array_prefix(s, k, p2);
            assert(spec_parse_header(sp, p) == Ok::<
                (crate::stream_object::ObjectHeader, int),
                crate::errors::DecodeError,
            >((h, p1)));
            assert(spec_parse_exguid_array(sp, p1) == Ok::<
                (Seq<crate::exguid::ExGuid>, int),
                crate::errors::DecodeError,
            >((g, p2)));
            assert(spec_parse_cell_id_array(sp, p2) == Ok::<
                (Seq<crate::cell_id::CellId>, int),
                crate::errors::DecodeError,
            >((cs, p3)));
            if h.object_type == ObjectType::ObjectGroupDataExcluded {
                lemma_compact_u64_prefix(s, k, p3);
                assert(spec_parse_compact_u64(sp, p3) is Ok);
            } else if h.object_type == ObjectType::ObjectGroupDataObject {
                lemma_binary_item_prefix(s, k, p3);
                assert(spec_parse_binary_item(sp, p3) is Ok);
            } else {
                lemma_exguid_prefix(s, k, p3);
                assert(spec_parse_exguid(sp, p3) is Ok);
            }
            assert(spec_parse_data_record(sp, p) == Ok::<
                (ObjectGroupDataView, int),
                crate::errors::DecodeError,
            >((v, e)));
        } else {
            lemma_header_prefix(s, k, p);
            if p1 <= k {
                lemma_exguid_array_prefix(s, k, p1);
                if p2 <= k {
                    lemma_cell_id_array_prefix(s, k, p2);
                    if p3 <= k {
                        if h.object_type == ObjectType::ObjectGroupDataExcluded {
                            lemma_compact_u64_prefix(s, k, p3);
                        } else if h.object_type == ObjectType::ObjectGroupDataObject {
                            lemma_binary_item_prefix(s, k, p3);
                        } else {
                            lemma_exguid_prefix(s, k, p3);
                        }
                    }
                }
            }
        }
    }
}

pub proof fn lemma_decl_list_prefix(s: Seq<u8>, k: int, p: int)
    requires
        0 <= p <= k <= s.len(),
    ensures
        match spec_parse_declaration_list(s, p) {
            Ok((v, e)) => if e <= k {
                spec_parse_declaration_list(s.subrange(0, k), p) == Ok::<
                    (Seq<ObjectGroupDeclaration>, int),
                    crate::errors::DecodeError,
                >((v, e))
            } else {
                spec_parse_declaration_list(s.subrange(0, k), p) is Err
            },
            Err(_) => true,
        },
    decreases s.len() - p,
{
    let sp = s.subrange(0, k);
    if spec_parse_declaration_list(s, p) is Ok {
        let (v, e) = spec_parse_declaration_list(s, p)->Ok_0;
        let (b, pe) = spec_try_end(s, p, ObjectType::ObjectGroupDeclaration)->Ok_0;
        if p < k {
            assert(sp[p] == s[p]);
        }
        if b {
        } else {
            let (d, p1) = spec_parse_declaration(s, p)->Ok_0;
            crate::object_group::lemma_declaration_advances(s, p);
            lemma_decl_list_bounds(s, p1);
            lemma_declaration_prefix(s, k, p);
            if p1 <= k {
                lemma_decl_list_prefix(s, k, p1);
            }
        }
    }
}

pub proof fn lemma_meta_list_prefix(s: Seq<u8>, k: int, p: int)
    requires
        0 <= p <= k <= s.len(),
    ensures
        match spec_parse_metadata_list(s, p) {
            Ok((v, e)) => if e <= k {
                spec_parse_metadata_list(s.subrange(0, k), p) == Ok::<
                    (Seq<ObjectGroupMetadata>, int),
                    crate::errors::DecodeError,
                >((v, e))
            } else {
                spec_parse_metadata_list(s.subrange(0, k), p) is Err
            },
            Err(_) => true,
        },
    decreases s.len() - p,
{
    let sp = s.subrange(0, k);
    if spec_parse_metadata_list(s, p) is Ok {
        let (v, e) = spec_parse_metadata_list(s, p)->Ok_0;
        let (b, pe) = spec_try_end(s, p, ObjectType::ObjectGroupMetadataBlock)->Ok_0;
        if p < k {
            assert(sp[p] == s[p]);
        }
        if b {
        } else {
            let (m, p1) = spec_parse_metadata_entry(s, p)->Ok_0;
            crate::object_group::lemma_metadata_entry_advances(s, p);
            lemma_meta_list_bounds(s, p1);
            lemma_metadata_entry_prefix(s, k, p);
            if p1 <= k {
                lemma_meta_list_prefix(s, k, p1);
            }
        }
    }
}

pub proof fn lemma_data_list_prefix(s: Seq<u8>, k: int, p: int)
    requires
        0 <= p <= k <= s.len(),
    ensures
        match spec_parse_data_list(s, p) {
            Ok((v, e)) => if e <= k {
                spec_parse_data_list(s.subrange(0, k), p) == Ok::<
                    (Seq<ObjectGroupDataView>, int),
                    crate::errors::DecodeError,
                >((v, e))
            } else {
                spec_parse_data_list(s.subrange(0, k), p) is Err
            },
            Err(_) => true,
        },
    decreases s.len() - p,
{
    let sp = s.subrange(0, k);
    if spec_parse_data_list(s, p) is Ok {
        let (v, e) = spec_parse_data_list(s, p)->Ok_0;
        let (b, pe) = spec_try_end(s, p, ObjectType::ObjectGroupData)->Ok_0;
        if p < k {
            assert(sp[p] == s[p]);
        }
        if b {
        } else {
            let (d, p1) = spec_parse_data_record(s, p)->Ok_0;
            crate::object_group::lemma_data_record_advances(s, p);
            lemma_data_list_bounds(s, p1);
            lemma_data_record_prefix(s, k, p);
            if p1 <= k {
                lemma_data_list_prefix(s, k, p1);
            }
        }
    }
}

/// A successfully decoded declarations block ends after its start, never
/// past the end.
pub proof fn lemma_declarations_bounds(s: Seq<u8>, p: int)
    requires
        0 <= p,
        spec_parse_declarations(s, p) is Ok,
    ensures
        p < spec_parse_declarations(s, p)->Ok_0.1 <= s.len(),
{
    crate::stream_object::lemma_header_advances(s, p);
    let (h, pd) = spec_parse_header(s, p)->Ok_0;
    lemma_decl_list_bounds(s, pd);
}

pub proof fn lemma_declarations_prefix(s: Seq<u8>, k: int, p: int)
    requires
        0 <= p <= k <= s.len(),
    ensures
        match spec_parse_declarations(s, p) {
            Ok((v, e)) => if e <= k {
                spec_parse_declarations(s.subrange(0, k), p) == Ok::<
                    (Seq<ObjectGroupDeclaration>, int),
                    crate::errors::DecodeError,
                >((v, e))
            } else {
                spec_parse_declarations(s.subrange(0, k), p) is Err
            },
            Err(_) => true,
        },
{
    if spec_parse_declarations(s, p) is Ok {
        let (h, pd) = spec_parse_header(s, p)->Ok_0;
        crate::stream_object::lemma_header_advances(s, p);
        lemma_decl_list_bounds(s, pd);
        lemma_header_prefix(s, k, p);
        if pd <= k {
            lemma_decl_list_prefix(s, k, pd);
        }
    }
}

#[verifier::rlimit(100)]
pub proof fn lemma_object_group_prefix(s: Seq<u8>, k: int, p: int)
    requires
        0 <= p <= k <= s.len(),
    ensures
        match spec_parse_object_group(s, p) {
            Ok((v, e)) => if e <= k {
                spec_parse_object_group(s.subrange(0, k), p) == Ok::<
                    (ObjectGroupView, int),
                    crate::errors::DecodeError,
                >((v, e))
            } else {
                spec_parse_object_group(s.subrange(0, k), p) is Err
            },
            Err(_) => true,
        },
{
    let sp = s.subrange(0, k);
    if spec_parse_object_group(s, p) is Ok {
        let (v, e) = spec_parse_object_group(s, p)->Ok_0;
        let (decls, p1) = spec_parse_declarations(s, p)->Ok_0;
        lemma_declarations_bounds(s, p);
        let (h, p2) = spec_parse_header(s, p1)->Ok_0;
        crate::stream_object::lemma_header_advances(s, p1);
        if h.object_type == ObjectType::ObjectGroupMetadataBlock {
            let (metas, p3) = spec_parse_metadata_list(s, p2)->Ok_0;
            lemma_meta_list_bounds(s, p2);
            let (h2, p4) = spec_parse_header(s, p3)->Ok_0;
            crate::stream_object::lemma_header_advances(s, p3);
            let (objs, pe) = spec_parse_data_list(s, p4)->Ok_0;
            lemma_data_list_bounds(s, p4);
            if e <= k {
                lemma_declarations_prefix(s, k, p);
                assert(spec_parse_declarations(sp, p) == Ok::<
                    (Seq<ObjectGroupDeclaration>, int),
                    crate::errors::DecodeError,
                >((decls, p1)));
                lemma_header_prefix(s, k, p1);
                lemma_meta_list_prefix(s, k, p2);
                assert(spec_parse_metadata_list(sp, p2) == Ok::<
                    (Seq<ObjectGroupMetadata>, int),
                    crate::errors::DecodeError,
                >((metas, p3)));
                lemma_header_prefix(s, k, p3);
                lemma_finish_prefix(s, k, p4, decls, metas);
                assert(spec_finish_object_group(sp, p4, decls, metas) == Ok::<
                    (ObjectGroupView, int),
                    crate::errors::DecodeError,
                >((v, e)));
                assert(spec_parse_object_group(sp, p) == Ok::<
                    (ObjectGroupView, int),
                    crate::errors::DecodeError,
                >((v, e)));
            } else {
                lemma_declarations_prefix(s, k, p);
                if p1 <= k {
                    lemma_header_prefix(s, k, p1);
                    if p2 <= k {
                        lemma_meta_list_prefix(s, k, p2);
                        if p3 <= k {
                            lemma_header_prefix(s, k, p3);
                            if p4 <= k {
                                lemma_finish_prefix(s, k, p4, decls, metas);
                            }
                        }
                    }
                }
            }
        } else {
            let (objs, pe) = spec_parse_data_list(s, p2)->Ok_0;
            lemma_data_list_bounds(s, p2);
            if e <= k {
                lemma_declarations_prefix(s, k, p);
                assert(spec_parse_declarations(sp, p) == Ok::<
                    (Seq<ObjectGroupDeclaration>, int),
                    crate::errors::DecodeError,
                >((decls, p1)));
                lemma_header_prefix(s, k, p1);
                lemma_finish_prefix(s, k, p2, decls, Seq::empty());
                assert(spec_finish_object_group(sp, p2, decls, Seq::empty()) == Ok::<
                    (ObjectGroupView, int),
                    crate::errors::DecodeError,
                >((v, e)));
                assert(spec_parse_object_group(sp, p) == Ok::<
                    (ObjectGroupView, int),
                    crate::errors::DecodeError,
                >((v, e)));
            } else {
                lemma_declarations_prefix(s, k, p);
                if p1 <= k {
                    lemma_header_prefix(s, k, p1);
                    if p2 <= k {
                        lemma_finish_prefix(s, k, p2, decls, Seq::empty());
                    }
                }
            }
        }
    }
}

pub proof fn lemma_finish_prefix(
    s: Seq<u8>,
    k: int,
    p: int,
    decls: Seq<ObjectGroupDeclaration>,
    metas: Seq<ObjectGroupMetadata>,
)
    requires
        0 <= p <= k <= s.len(),
    ensures
        match spec_finish_object_group(s, p, decls, metas) {
            Ok((v, e)) => if e <= k {
                spec_finish_object_group(s.subrange(0, k), p, decls, metas) == Ok::<
                    (ObjectGroupView, int),
                    crate::errors::DecodeError,
                >((v, e))
            } else {
                spec_finish_object_group(s.subrange(0, k), p, decls, metas) is Err
            },
            Err(_) => true,
        },
{
    if spec_finish_object_group(s, p, decls, metas) is Ok {
        let (objs, p1) = spec_parse_data_list(s, p)->Ok_0;
        lemma_data_list_bounds(s, p);
        lemma_data_list_prefix(s, k, p);
        if p1 <= k {
            lemma_end_prefix(s, k, p1);
        }
    }
}

/// Law: truncating a well-formed byte sequence at any byte boundary before
/// its final end marker makes the decode fail; a short input can never
/// yield a silently short result.
pub proof fn lemma_truncation_fails(s: Seq<u8>, p: int, k: int)
    requires
        0 <= p <= k <= s.len(),
        spec_parse_object_group(s, p) is Ok,
        k < spec_parse_object_group(s, p)->Ok_0.1,
    ensures
        spec_parse_object_group(s.subrange(0, k), p) is Err,
{
    lemma_object_group_prefix(s, k, p);
}

} // verus!
