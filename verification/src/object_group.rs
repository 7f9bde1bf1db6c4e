use vstd::prelude::*;

use crate::binary_item::BinaryItem;
use crate::binary_item::lemma_binary_item_advances;
use crate::binary_item::spec_parse_binary_item;
use crate::cell_id::CellId;
use crate::cell_id::lemma_cell_id_array_advances;
use crate::cell_id::spec_parse_cell_id_array;
use crate::compact_u64::CompactU64;
use crate::compact_u64::lemma_compact_u64_advances;
use crate::compact_u64::spec_parse_compact_u64;
use crate::cursor::Cursor;
use crate::errors::DecodeError;
use crate::exguid::ExGuid;
use crate::exguid::lemma_exguid_advances;
use crate::exguid::lemma_exguid_array_advances;
use crate::exguid::spec_parse_exguid;
use crate::exguid::spec_parse_exguid_array;
use crate::object_types::ObjectType;
use crate::stream_object::ObjectHeader;
use crate::stream_object::lemma_header_advances;
use crate::stream_object::spec_parse_end;
use crate::stream_object::spec_parse_header;
use crate::stream_object::spec_parse_header_wide;
use crate::stream_object::spec_try_end;

verus! {

/// A decoded object group: what objects exist, optional caching hints for
/// them, and their data records. Nothing is mutated after construction.
#[derive(Debug)]
pub struct ObjectGroup {
    pub declarations: Vec<ObjectGroupDeclaration>,
    pub metadata: Vec<ObjectGroupMetadata>,
    pub objects: Vec<ObjectGroupData>,
}

/// One declaration: either an object carried in this stream, or an object
/// stored as an out-of-band blob.
#[derive(Debug, Clone, Copy, PartialEq, Eq, Structural)]
pub enum ObjectGroupDeclaration {
    Object {
        object_id: ExGuid,
        partition_id: u64,
        data_size: u64,
        object_reference_count: u64,
        cell_reference_count: u64,
    },
    Blob {
        object_id: ExGuid,
        blob_id: ExGuid,
        partition_id: u64,
        object_reference_count: u64,
        cell_reference_count: u64,
    },
}

impl ObjectGroupDeclaration {
    pub open spec fn partition_id_spec(self) -> u64 {
        match self {
            ObjectGroupDeclaration::Object { partition_id, .. } => partition_id,
            ObjectGroupDeclaration::Blob { partition_id, .. } => partition_id,
        }
    }

    pub open spec fn object_id_spec(self) -> ExGuid {
        match self {
            ObjectGroupDeclaration::Object { object_id, .. } => object_id,
            ObjectGroupDeclaration::Blob { object_id, .. } => object_id,
        }
    }

    /// The partition number of the declared object, whichever shape it has.
    pub fn partition_id(&self) -> (r: u64)
        ensures
            r == self.partition_id_spec(),
    {
        match self {
            ObjectGroupDeclaration::Object { partition_id, .. } => *partition_id,
            ObjectGroupDeclaration::Blob { partition_id, .. } => *partition_id,
        }
    }

    /// The identifier of the declared object, whichever shape it has.
    pub fn object_id(&self) -> (r: ExGuid)
        ensures
            r == self.object_id_spec(),
    {
        match self {
            ObjectGroupDeclaration::Object { object_id, .. } => *object_id,
            ObjectGroupDeclaration::Blob { object_id, .. } => *object_id,
        }
    }
}

/// One metadata entry: a caching hint for the declaration at the same
/// position.
#[derive(Debug, Clone, Copy, PartialEq, Eq, Structural)]
pub struct ObjectGroupMetadata {
    pub change_frequency: ObjectChangeFrequency,
}

/// How often the consuming system should expect an object to change.
#[derive(Debug, Clone, Copy, PartialEq, Eq, Structural)]
pub enum ObjectChangeFrequency {
    Unknown,
    Frequent,
    Infrequent,
    Independent,
    Custom,
}

impl ObjectChangeFrequency {
    /// The change frequency a decoded integer stands for, if any.
    pub open spec fn spec_from_value(value: u64) -> Option<ObjectChangeFrequency> {
        if value == 0 {
            Some(ObjectChangeFrequency::Unknown)
        } else if value == 1 {
            Some(ObjectChangeFrequency::Frequent)
        } else if value == 2 {
            Some(ObjectChangeFrequency::Infrequent)
        } else if value == 3 {
            Some(ObjectChangeFrequency::Independent)
        } else if value == 4 {
            Some(ObjectChangeFrequency::Custom)
        } else {
            None
        }
    }

    /// The integer that stands for this change frequency.
    pub open spec fn value_spec(self) -> u64 {
        match self {
            ObjectChangeFrequency::Unknown => 0,
            ObjectChangeFrequency::Frequent => 1,
            ObjectChangeFrequency::Infrequent => 2,
            ObjectChangeFrequency::Independent => 3,
            ObjectChangeFrequency::Custom => 4,
        }
    }

    /// Maps a decoded integer to a change frequency; any integer outside
    /// the five recognized values is an invalid enum value.
    pub fn parse(value: u64) -> (r: Result<ObjectChangeFrequency, DecodeError>)
        ensures
            match Self::spec_from_value(value) {
                Some(f) => r == Ok::<ObjectChangeFrequency, DecodeError>(f),
                None => r == Err::<ObjectChangeFrequency, DecodeError>(
                    DecodeError::InvalidEnumValue,
                ),
            },
    {
        if value == 0 {
            Ok(ObjectChangeFrequency::Unknown)
        } else if value == 1 {
            Ok(ObjectChangeFrequency::Frequent)
        } else if value == 2 {
            Ok(ObjectChangeFrequency::Infrequent)
        } else if value == 3 {
            Ok(ObjectChangeFrequency::Independent)
        } else if value == 4 {
            Ok(ObjectChangeFrequency::Custom)
        } else {
            Err(DecodeError::InvalidEnumValue)
        }
    }
}

/// One data record: an inline payload, a payload intentionally omitted from
/// this stream, or a reference to an out-of-band blob. Each carries the
/// identifiers of the objects it depends on and the cells it belongs to.
#[derive(Debug, PartialEq, Eq)]
pub enum ObjectGroupData {
    Object { group: Vec<ExGuid>, cells: Vec<CellId>, data: Vec<u8> },
    ObjectExcluded { group: Vec<ExGuid>, cells: Vec<CellId>, size: u64 },
    BlobReference { objects: Vec<ExGuid>, cells: Vec<CellId>, blob: ExGuid },
}

/// The mathematical shape of one data record.
pub enum ObjectGroupDataView {
    Object { group: Seq<ExGuid>, cells: Seq<CellId>, data: Seq<u8> },
    ObjectExcluded { group: Seq<ExGuid>, cells: Seq<CellId>, size: u64 },
    BlobReference { objects: Seq<ExGuid>, cells: Seq<CellId>, blob: ExGuid },
}

impl View for ObjectGroupData {
    type V = ObjectGroupDataView;

    open spec fn view(&self) -> ObjectGroupDataView {
        match self {
            ObjectGroupData::Object { group, cells, data } => ObjectGroupDataView::Object {
                group: group@,
                cells: cells@,
                data: data@,
            },
            ObjectGroupData::ObjectExcluded { group, cells, size } => {
                ObjectGroupDataView::ObjectExcluded { group: group@, cells: cells@, size: *size }
            },
            ObjectGroupData::BlobReference { objects, cells, blob } => {
                ObjectGroupDataView::BlobReference { objects: objects@, cells: cells@, blob: *blob }
            },
        }
    }
}

/// The views of a sequence of data records, in order.
pub open spec fn spec_data_views(v: Seq<ObjectGroupData>) -> Seq<ObjectGroupDataView> {
    v.map_values(|o: ObjectGroupData| o@)
}

/// The mathematical shape of a whole decoded group.
pub struct ObjectGroupView {
    pub declarations: Seq<ObjectGroupDeclaration>,
    pub metadata: Seq<ObjectGroupMetadata>,
    pub objects: Seq<ObjectGroupDataView>,
}

impl View for ObjectGroup {
    type V = ObjectGroupView;

    open spec fn view(&self) -> ObjectGroupView {
        ObjectGroupView {
            declarations: self.declarations@,
            metadata: self.metadata@,
            objects: spec_data_views(self.objects@),
        }
    }
}

/// What decoding one declaration record yields. An object declaration is
/// its identifier, partition, declared size and two reference counts; a
/// blob declaration names the out-of-band blob instead of a size.
pub open spec fn spec_parse_declaration(s: Seq<u8>, p: int) -> Result<
    (ObjectGroupDeclaration, int),
    DecodeError,
> {
    match spec_parse_header(s, p) {
        Ok((h, p1)) => if h.object_type == ObjectType::ObjectGroupObject {
            match spec_parse_exguid(s, p1) {
                Ok((object_id, p2)) => match spec_parse_compact_u64(s, p2) {
                    Ok((partition_id, p3)) => match spec_parse_compact_u64(s, p3) {
                        Ok((data_size, p4)) => match spec_parse_compact_u64(s, p4) {
                            Ok((object_reference_count, p5)) => match spec_parse_compact_u64(
                                s,
                                p5,
                            ) {
                                Ok((cell_reference_count, p6)) => Ok(
                                    (
                                        ObjectGroupDeclaration::Object {
                                            object_id,
                                            partition_id,
                                            data_size,
                                            object_reference_count,
                                            cell_reference_count,
                                        },
                                        p6,
                                    ),
                                ),
                                Err(e) => Err(e),
                            },
                            Err(e) => Err(e),
                        },
                        Err(e) => Err(e),
                    },
                    Err(e) => Err(e),
                },
                Err(e) => Err(e),
            }
        } else if h.object_type == ObjectType::ObjectGroupDataBlob {
            match spec_parse_exguid(s, p1) {
                Ok((object_id, p2)) => match spec_parse_exguid(s, p2) {
                    Ok((blob_id, p3)) => match spec_parse_compact_u64(s, p3) {
                        Ok((partition_id, p4)) => match spec_parse_compact_u64(s, p4) {
                            Ok((object_reference_count, p5)) => match spec_parse_compact_u64(
                                s,
                                p5,
                            ) {
                                Ok((cell_reference_count, p6)) => Ok(
                                    (
                                        ObjectGroupDeclaration::Blob {
                                            object_id,
                                            blob_id,
                                            partition_id,
                                            object_reference_count,
                                            cell_reference_count,
                                        },
                                        p6,
                                    ),
                                ),
                                Err(e) => Err(e),
                            },
                            Err(e) => Err(e),
                        },
                        Err(e) => Err(e),
                    },
                    Err(e) => Err(e),
                },
                Err(e) => Err(e),
            }
        } else {
            Err(DecodeError::UnexpectedObjectType)
        },
        Err(e) => Err(e),
    }
}

/// A successful declaration decode moves the position forward, never past
/// the end.
pub proof fn lemma_declaration_advances(s: Seq<u8>, p: int)
    requires
        0 <= p,
        spec_parse_declaration(s, p) is Ok,
    ensures
        p < spec_parse_declaration(s, p)->Ok_0.1 <= s.len(),
{
    lemma_header_advances(s, p);
    let (h, p1) = spec_parse_header(s, p)->Ok_0;
    if h.object_type == ObjectType::ObjectGroupObject {
        lemma_exguid_advances(s, p1);
        let (_, p2) = spec_parse_exguid(s, p1)->Ok_0;
        lemma_compact_u64_advances(s, p2);
        let (_, p3) = spec_parse_compact_u64(s, p2)->Ok_0;
        lemma_compact_u64_advances(s, p3);
        let (_, p4) = spec_parse_compact_u64(s, p3)->Ok_0;
        lemma_compact_u64_advances(s, p4);
        let (_, p5) = spec_parse_compact_u64(s, p4)->Ok_0;
        lemma_compact_u64_advances(s, p5);
    } else {
        lemma_exguid_advances(s, p1);
        let (_, p2) = spec_parse_exguid(s, p1)->Ok_0;
        lemma_exguid_advances(s, p2);
        let (_, p3) = spec_parse_exguid(s, p2)->Ok_0;
        lemma_compact_u64_advances(s, p3);
        let (_, p4) = spec_parse_compact_u64(s, p3)->Ok_0;
        lemma_compact_u64_advances(s, p4);
        let (_, p5) = spec_parse_compact_u64(s, p4)->Ok_0;
        lemma_compact_u64_advances(s, p5);
    }
}

/// Declarations repeated until the declarations block's end marker; no
/// count is sent, the marker alone ends the list.
pub open spec fn spec_parse_declaration_list(s: Seq<u8>, p: int) -> Result<
    (Seq<ObjectGroupDeclaration>, int),
    DecodeError,
>
    decreases s.len() - p,
{
    match spec_try_end(s, p, ObjectType::ObjectGroupDeclaration) {
        Ok((true, p1)) => Ok((Seq::empty(), p1)),
        Ok((false, _)) => match spec_parse_declaration(s, p) {
            Ok((d, p1)) => if p < p1 <= s.len() {
                match spec_parse_declaration_list(s, p1) {
                    Ok((rest, p2)) => Ok((seq![d] + rest, p2)),
                    Err(e) => Err(e),
                }
            } else {
                Err(DecodeError::MalformedHeader)
            },
            Err(e) => Err(e),
        },
        Err(e) => Err(e),
    }
}

/// The whole declarations block: its header, then the list.
pub open spec fn spec_parse_declarations(s: Seq<u8>, p: int) -> Result<
    (Seq<ObjectGroupDeclaration>, int),
    DecodeError,
> {
    match spec_parse_header(s, p) {
        Ok((h, p1)) => if h.object_type == ObjectType::ObjectGroupDeclaration {
            spec_parse_declaration_list(s, p1)
        } else {
            Err(DecodeError::UnexpectedObjectType)
        },
        Err(e) => Err(e),
    }
}

/// What decoding one metadata entry yields: a wide-form header naming the
/// metadata entry type, then a compact integer that must map to a change
/// frequency.
pub open spec fn spec_parse_metadata_entry(s: Seq<u8>, p: int) -> Result<
    (ObjectGroupMetadata, int),
    DecodeError,
> {
    match spec_parse_header_wide(s, p) {
        Ok((h, p1)) => if h.object_type == ObjectType::ObjectGroupMetadata {
            match spec_parse_compact_u64(s, p1) {
                Ok((v, p2)) => match ObjectChangeFrequency::spec_from_value(v) {
                    Some(f) => Ok((ObjectGroupMetadata { change_frequency: f }, p2)),
                    None => Err(DecodeError::InvalidEnumValue),
                },
                Err(e) => Err(e),
            }
        } else {
            Err(DecodeError::UnexpectedObjectType)
        },
        Err(e) => Err(e),
    }
}

/// A successful metadata-entry decode moves the position forward, never
/// past the end.
pub proof fn lemma_metadata_entry_advances(s: Seq<u8>, p: int)
    requires
        0 <= p,
        spec_parse_metadata_entry(s, p) is Ok,
    ensures
        p < spec_parse_metadata_entry(s, p)->Ok_0.1 <= s.len(),
{
    let (h, p1) = spec_parse_header_wide(s, p)->Ok_0;
    lemma_compact_u64_advances(s, p1);
}

/// Metadata entries repeated until the metadata block's end marker.
pub open spec fn spec_parse_metadata_list(s: Seq<u8>, p: int) -> Result<
    (Seq<ObjectGroupMetadata>, int),
    DecodeError,
>
    decreases s.len() - p,
{
    match spec_try_end(s, p, ObjectType::ObjectGroupMetadataBlock) {
        Ok((true, p1)) => Ok((Seq::empty(), p1)),
        Ok((false, _)) => match spec_parse_metadata_entry(s, p) {
            Ok((m, p1)) => if p < p1 <= s.len() {
                match spec_parse_metadata_list(s, p1) {
                    Ok((rest, p2)) => Ok((seq![m] + rest, p2)),
                    Err(e) => Err(e),
                }
            } else {
                Err(DecodeError::MalformedHeader)
            },
            Err(e) => Err(e),
        },
        Err(e) => Err(e),
    }
}

/// What decoding one data record yields. Every shape carries an identifier
/// array and a cell-identifier array; then an excluded record carries its
/// declared size, an object record its payload, and a blob reference the
/// identifier of the out-of-band blob.
pub open spec fn spec_parse_data_record(s: Seq<u8>, p: int) -> Result<
    (ObjectGroupDataView, int),
    DecodeError,
> {
    match spec_parse_header(s, p) {
        Ok((h, p1)) => if h.object_type == ObjectType::ObjectGroupDataExcluded {
            match spec_parse_exguid_array(s, p1) {
                Ok((group, p2)) => match spec_parse_cell_id_array(s, p2) {
                    Ok((cells, p3)) => match spec_parse_compact_u64(s, p3) {
                        Ok((size, p4)) => Ok(
                            (ObjectGroupDataView::ObjectExcluded { group, cells, size }, p4),
                        ),
                        Err(e) => Err(e),
                    },
                    Err(e) => Err(e),
                },
                Err(e) => Err(e),
            }
        } else if h.object_type == ObjectType::ObjectGroupDataObject {
            match spec_parse_exguid_array(s, p1) {
                Ok((group, p2)) => match spec_parse_cell_id_array(s, p2) {
                    Ok((cells, p3)) => match spec_parse_binary_item(s, p3) {
                        Ok((data, p4)) => Ok(
                            (ObjectGroupDataView::Object { group, cells, data }, p4),
                        ),
                        Err(e) => Err(e),
                    },
                    Err(e) => Err(e),
                },
                Err(e) => Err(e),
            }
        } else if h.object_type == ObjectType::ObjectGroupBlobReference {
            match spec_parse_exguid_array(s, p1) {
                Ok((objects, p2)) => match spec_parse_cell_id_array(s, p2) {
                    Ok((cells, p3)) => match spec_parse_exguid(s, p3) {
                        Ok((blob, p4)) => Ok(
                            (ObjectGroupDataView::BlobReference { objects, cells, blob }, p4),
                        ),
                        Err(e) => Err(e),
                    },
                    Err(e) => Err(e),
                },
                Err(e) => Err(e),
            }
        } else {
            Err(DecodeError::UnexpectedObjectType)
        },
        Err(e) => Err(e),
    }
}

/// A successful data-record decode moves the position forward, never past
/// the end.
pub proof fn lemma_data_record_advances(s: Seq<u8>, p: int)
    requires
        0 <= p,
        spec_parse_data_record(s, p) is Ok,
    ensures
        p < spec_parse_data_record(s, p)->Ok_0.1 <= s.len(),
{
    lemma_header_advances(s, p);
    let (h, p1) = spec_parse_header(s, p)->Ok_0;
    lemma_exguid_array_advances(s, p1);
    let (_, p2) = spec_parse_exguid_array(s, p1)->Ok_0;
    lemma_cell_id_array_advances(s, p2);
    let (_, p3) = spec_parse_cell_id_array(s, p2)->Ok_0;
    if h.object_type == ObjectType::ObjectGroupDataExcluded {
        lemma_compact_u64_advances(s, p3);
    } else if h.object_type == ObjectType::ObjectGroupDataObject {
        lemma_binary_item_advances(s, p3);
    } else {
        lemma_exguid_advances(s, p3);
    }
}

/// Data records repeated until the data block's end marker.
pub open spec fn spec_parse_data_list(s: Seq<u8>, p: int) -> Result<
    (Seq<ObjectGroupDataView>, int),
    DecodeError,
>
    decreases s.len() - p,
{
    match spec_try_end(s, p, ObjectType::ObjectGroupData) {
        Ok((true, p1)) => Ok((Seq::empty(), p1)),
        Ok((false, _)) => match spec_parse_data_record(s, p) {
            Ok((d, p1)) => if p < p1 <= s.len() {
                match spec_parse_data_list(s, p1) {
                    Ok((rest, p2)) => Ok((seq![d] + rest, p2)),
                    Err(e) => Err(e),
                }
            } else {
                Err(DecodeError::MalformedHeader)
            },
            Err(e) => Err(e),
        },
        Err(e) => Err(e),
    }
}

/// The data records and the closing end marker of the outer data element,
/// assembled with the parts already decoded into the finished group.
pub open spec fn spec_finish_object_group(
    s: Seq<u8>,
    p: int,
    decls: Seq<ObjectGroupDeclaration>,
    metas: Seq<ObjectGroupMetadata>,
) -> Result<(ObjectGroupView, int), DecodeError> {
    match spec_parse_data_list(s, p) {
        Ok((objs, p1)) => match spec_parse_end(s, p1) {
            Ok((t, p2)) => if t == ObjectType::DataElement {
                Ok((ObjectGroupView { declarations: decls, metadata: metas, objects: objs }, p2))
            } else {
                Err(DecodeError::UnexpectedObjectType)
            },
            Err(e) => Err(e),
        },
        Err(e) => Err(e),
    }
}

/// What decoding a whole object group at p yields: the declarations block,
/// then either a metadata block followed by the data block's header or the
/// data block's header directly, then the data records, then the end marker
/// of the outer data element.
pub open spec fn spec_parse_object_group(s: Seq<u8>, p: int) -> Result<
    (ObjectGroupView, int),
    DecodeError,
> {
    match spec_parse_declarations(s, p) {
        Ok((decls, p1)) => match spec_parse_header(s, p1) {
            Ok((h, p2)) => if h.object_type == ObjectType::ObjectGroupMetadataBlock {
                match spec_parse_metadata_list(s, p2) {
                    Ok((metas, p3)) => match spec_parse_header(s, p3) {
                        Ok((h2, p4)) => if h2.object_type == ObjectType::ObjectGroupData {
                            spec_finish_object_group(s, p4, decls, metas)
                        } else {
                            Err(DecodeError::UnexpectedObjectType)
                        },
                        Err(e) => Err(e),
                    },
                    Err(e) => Err(e),
                }
            } else if h.object_type == ObjectType::ObjectGroupData {
                spec_finish_object_group(s, p2, decls, Seq::empty())
            } else {
                Err(DecodeError::UnexpectedObjectType)
            },
            Err(e) => Err(e),
        },
        Err(e) => Err(e),
    }
}

/// The caller-facing variant container: the outer stream decoder
/// dispatches each data element's payload to a parser such as this one and
/// keeps the result in a value of this type.
#[derive(Debug)]
pub enum DataElementValue {
    ObjectGroup(ObjectGroup),
}

impl DataElementValue {
    /// Decodes one declaration record.
    fn parse_declaration(reader: &mut Cursor) -> (r: Result<ObjectGroupDeclaration, DecodeError>)
        requires
            old(reader).wf(),
        ensures
            final(reader).wf(),
            final(reader).data@ == old(reader).data@,
            match r {
                Ok(d) => spec_parse_declaration(old(reader).data@, old(reader).pos as int) == Ok::<
                    (ObjectGroupDeclaration, int),
                    DecodeError,
                >((d, final(reader).pos as int)),
                Err(e) => spec_parse_declaration(old(reader).data@, old(reader).pos as int)
                    == Err::<(ObjectGroupDeclaration, int), DecodeError>(e),
            },
    {
        let header = match ObjectHeader::parse(reader) {
            Ok(h) => h,
            Err(e) => {
                return Err(e);
            },
        };
        if header.object_type == ObjectType::ObjectGroupObject {
            let object_id = match ExGuid::parse(reader) {
                Ok(v) => v,
                Err(e) => {
                    return Err(e);
                },
            };
            let partition_id = match CompactU64::parse(reader) {
                Ok(v) => v.value(),
                Err(e) => {
                    return Err(e);
                },
            };
            let data_size = match CompactU64::parse(reader) {
                Ok(v) => v.value(),
                Err(e) => {
                    return Err(e);
                },
            };
            let object_reference_count = match CompactU64::parse(reader) {
                Ok(v) => v.value(),
                Err(e) => {
                    return Err(e);
                },
            };
            let cell_reference_count = match CompactU64::parse(reader) {
                Ok(v) => v.value(),
                Err(e) => {
                    return Err(e);
                },
            };
            Ok(
                ObjectGroupDeclaration::Object {
                    object_id,
                    partition_id,
                    data_size,
                    object_reference_count,
                    cell_reference_count,
                },
            )
        } else if header.object_type == ObjectType::ObjectGroupDataBlob {
            let object_id = match ExGuid::parse(reader) {
                Ok(v) => v,
                Err(e) => {
                    return Err(e);
                },
            };
            let blob_id = match ExGuid::parse(reader) {
                Ok(v) => v,
                Err(e) => {
                    return Err(e);
                },
            };
            let partition_id = match CompactU64::parse(reader) {
                Ok(v) => v.value(),
                Err(e) => {
                    return Err(e);
                },
            };
            let object_reference_count = match CompactU64::parse(reader) {
                Ok(v) => v.value(),
                Err(e) => {
                    return Err(e);
                },
            };
            let cell_reference_count = match CompactU64::parse(reader) {
                Ok(v) => v.value(),
                Err(e) => {
                    return Err(e);
                },
            };
            Ok(
                ObjectGroupDeclaration::Blob {
                    object_id,
                    blob_id,
                    partition_id,
                    object_reference_count,
                    cell_reference_count,
                },
            )
        } else {
            Err(DecodeError::UnexpectedObjectType)
        }
    }

    /// Decodes the declarations block: its header, then declarations until
    /// its end marker.
    #[verifier::loop_isolation(false)]
    pub fn parse_object_group_declarations(reader: &mut Cursor) -> (r: Result<
        Vec<ObjectGroupDeclaration>,
        DecodeError,
    >)
        requires
            old(reader).wf(),
        ensures
            final(reader).wf(),
            final(reader).data@ == old(reader).data@,
            match r {
                Ok(v) => spec_parse_declarations(old(reader).data@, old(reader).pos as int) == Ok::<
                    (Seq<ObjectGroupDeclaration>, int),
                    DecodeError,
                >((v@, final(reader).pos as int)),
                Err(e) => spec_parse_declarations(old(reader).data@, old(reader).pos as int)
                    == Err::<(Seq<ObjectGroupDeclaration>, int), DecodeError>(e),
            },
    {
        let ghost s = old(reader).data@;
        let header = match ObjectHeader::parse(reader) {
            Ok(h) => h,
            Err(e) => {
                return Err(e);
            },
        };
        if header.object_type != ObjectType::ObjectGroupDeclaration {
            return Err(DecodeError::UnexpectedObjectType);
        }
        let ghost pstart = reader.pos as int;
        let mut out: Vec<ObjectGroupDeclaration> = Vec::new();
        loop
            invariant
                reader.wf(),
                reader.data@ == s,
                pstart <= reader.pos as int,
                spec_parse_declaration_list(s, pstart) == (
                match spec_parse_declaration_list(s, reader.pos as int) {
                    Ok((rest, e)) => Ok::<(Seq<ObjectGroupDeclaration>, int), DecodeError>(
                        (out@ + rest, e),
                    ),
                    Err(err) => Err::<(Seq<ObjectGroupDeclaration>, int), DecodeError>(err),
                }),
            decreases s.len() - reader.pos,
        {
            match ObjectHeader::try_parse_end(reader, ObjectType::ObjectGroupDeclaration) {
                Ok(true) => {
                    proof {
                        assert(out@ + Seq::<ObjectGroupDeclaration>::empty() =~= out@);
                    }
                    return Ok(out);
                },
                Ok(false) => {},
                Err(e) => {
                    return Err(e);
                },
            }
            let ghost pcur = reader.pos as int;
            let d = match Self::parse_declaration(reader) {
                Ok(d) => d,
                Err(e) => {
                    return Err(e);
                },
            };
            let ghost out_before = out@;
            proof {
                lemma_declaration_advances(s, pcur);
                assert(spec_parse_declaration_list(s, pcur) == (
                match spec_parse_declaration_list(s, reader.pos as int) {
                    Ok((rest, p2)) => Ok::<(Seq<ObjectGroupDeclaration>, int), DecodeError>(
                        (seq![d] + rest, p2),
                    ),
                    Err(err) => Err::<(Seq<ObjectGroupDeclaration>, int), DecodeError>(err),
                }));
            }
            out.push(d);
            proof {
                assert(out@ =~= out_before + seq![d]);
                match spec_parse_declaration_list(s, reader.pos as int) {
                    Ok((rest, p2)) => {
                        assert((out_before + seq![d]) + rest =~= out_before + (seq![d] + rest));
                    },
                    Err(_) => {},
                }
            }
        }
    }

    /// Decodes metadata entries until the metadata block's end marker. The
    /// block's own header has already been read by the caller that chose
    /// this path.
    #[verifier::loop_isolation(false)]
    pub fn parse_object_group_metadata(reader: &mut Cursor) -> (r: Result<
        Vec<ObjectGroupMetadata>,
        DecodeError,
    >)
        requires
            old(reader).wf(),
        ensures
            final(reader).wf(),
            final(reader).data@ == old(reader).data@,
            match r {
                Ok(v) => spec_parse_metadata_list(old(reader).data@, old(reader).pos as int)
                    == Ok::<(Seq<ObjectGroupMetadata>, int), DecodeError>(
                    (v@, final(reader).pos as int),
                ),
                Err(e) => spec_parse_metadata_list(old(reader).data@, old(reader).pos as int)
                    == Err::<(Seq<ObjectGroupMetadata>, int), DecodeError>(e),
            },
    {
        let ghost s = old(reader).data@;
        let ghost pstart = reader.pos as int;
        let mut out: Vec<ObjectGroupMetadata> = Vec::new();
        loop
            invariant
                reader.wf(),
                reader.data@ == s,
                pstart <= reader.pos as int,
                spec_parse_metadata_list(s, pstart) == (
                match spec_parse_metadata_list(s, reader.pos as int) {
                    Ok((rest, e)) => Ok::<(Seq<ObjectGroupMetadata>, int), DecodeError>(
                        (out@ + rest, e),
                    ),
                    Err(err) => Err::<(Seq<ObjectGroupMetadata>, int), DecodeError>(err),
                }),
            decreases s.len() - reader.pos,
        {
            match ObjectHeader::try_parse_end(reader, ObjectType::ObjectGroupMetadataBlock) {
                Ok(true) => {
                    proof {
                        assert(out@ + Seq::<ObjectGroupMetadata>::empty() =~= out@);
                    }
                    return Ok(out);
                },
                Ok(false) => {},
                Err(e) => {
                    return Err(e);
                },
            }
            let ghost pcur = reader.pos as int;
            let header = match ObjectHeader::parse_wide(reader) {
                Ok(h) => h,
                Err(e) => {
                    return Err(e);
                },
            };
            if header.object_type != ObjectType::ObjectGroupMetadata {
                return Err(DecodeError::UnexpectedObjectType);
            }
            let frequency = match CompactU64::parse(reader) {
                Ok(v) => v.value(),
                Err(e) => {
                    return Err(e);
                },
            };
            let change_frequency = match ObjectChangeFrequency::parse(frequency) {
                Ok(f) => f,
                Err(e) => {
                    return Err(e);
                },
            };
            let m = ObjectGroupMetadata { change_frequency };
            let ghost out_before = out@;
            proof {
                assert(spec_parse_metadata_entry(s, pcur) == Ok::<
                    (ObjectGroupMetadata, int),
                    DecodeError,
                >((m, reader.pos as int)));
                lemma_metadata_entry_advances(s, pcur);
                assert(spec_parse_metadata_list(s, pcur) == (
                match spec_parse_metadata_list(s, reader.pos as int) {
                    Ok((rest, p2)) => Ok::<(Seq<ObjectGroupMetadata>, int), DecodeError>(
                        (seq![m] + rest, p2),
                    ),
                    Err(err) => Err::<(Seq<ObjectGroupMetadata>, int), DecodeError>(err),
                }));
            }
            out.push(m);
            proof {
                assert(out@ =~= out_before + seq![m]);
                match spec_parse_metadata_list(s, reader.pos as int) {
                    Ok((rest, p2)) => {
                        assert((out_before + seq![m]) + rest =~= out_before + (seq![m] + rest));
                    },
                    Err(_) => {},
                }
            }
        }
    }

    /// Decodes one data record.
    fn parse_data_record(reader: &mut Cursor) -> (r: Result<ObjectGroupData, DecodeError>)
        requires
            old(reader).wf(),
        ensures
            final(reader).wf(),
            final(reader).data@ == old(reader).data@,
            match r {
                Ok(d) => spec_parse_data_record(old(reader).data@, old(reader).pos as int) == Ok::<
                    (ObjectGroupDataView, int),
                    DecodeError,
                >((d@, final(reader).pos as int)),
                Err(e) => spec_parse_data_record(old(reader).data@, old(reader).pos as int)
                    == Err::<(ObjectGroupDataView, int), DecodeError>(e),
            },
    {
        let header = match ObjectHeader::parse(reader) {
            Ok(h) => h,
            Err(e) => {
                return Err(e);
            },
        };
        if header.object_type == ObjectType::ObjectGroupDataExcluded {
            let group = match ExGuid::parse_array(reader) {
                Ok(v) => v,
                Err(e) => {
                    return Err(e);
                },
            };
            let cells = match CellId::parse_array(reader) {
                Ok(v) => v,
                Err(e) => {
                    return Err(e);
                },
            };
            let size = match CompactU64::parse(reader) {
                Ok(v) => v.value(),
                Err(e) => {
                    return Err(e);
                },
            };
            Ok(ObjectGroupData::ObjectExcluded { group, cells, size })
        } else if header.object_type == ObjectType::ObjectGroupDataObject {
            let group = match ExGuid::parse_array(reader) {
                Ok(v) => v,
                Err(e) => {
                    return Err(e);
                },
            };
            let cells = match CellId::parse_array(reader) {
                Ok(v) => v,
                Err(e) => {
                    return Err(e);
                },
            };
            let data = match BinaryItem::parse(reader) {
                Ok(v) => v.value(),
                Err(e) => {
                    return Err(e);
                },
            };
            Ok(ObjectGroupData::Object { group, cells, data })
        } else if header.object_type == ObjectType::ObjectGroupBlobReference {
            let objects = match ExGuid::parse_array(reader) {
                Ok(v) => v,
                Err(e) => {
                    return Err(e);
                },
            };
            let cells = match CellId::parse_array(reader) {
                Ok(v) => v,
                Err(e) => {
                    return Err(e);
                },
            };
            let blob = match ExGuid::parse(reader) {
                Ok(v) => v,
                Err(e) => {
                    return Err(e);
                },
            };
            Ok(ObjectGroupData::BlobReference { objects, cells, blob })
        } else {
            Err(DecodeError::UnexpectedObjectType)
        }
    }

    /// Decodes data records until the data block's end marker. The block's
    /// own header has already been read by the caller.
    #[verifier::loop_isolation(false)]
    pub fn parse_object_group_data(reader: &mut Cursor) -> (r: Result<
        Vec<ObjectGroupData>,
        DecodeError,
    >)
        requires
            old(reader).wf(),
        ensures
            final(reader).wf(),
            final(reader).data@ == old(reader).data@,
            match r {
                Ok(v) => spec_parse_data_list(old(reader).data@, old(reader).pos as int) == Ok::<
                    (Seq<ObjectGroupDataView>, int),
                    DecodeError,
                >((spec_data_views(v@), final(reader).pos as int)),
                Err(e) => spec_parse_data_list(old(reader).data@, old(reader).pos as int) == Err::<
                    (Seq<ObjectGroupDataView>, int),
                    DecodeError,
                >(e),
            },
    {
        let ghost s = old(reader).data@;
        let ghost pstart = reader.pos as int;
        let mut out: Vec<ObjectGroupData> = Vec::new();
        loop
            invariant
                reader.wf(),
                reader.data@ == s,
                pstart <= reader.pos as int,
                spec_parse_data_list(s, pstart) == (
                match spec_parse_data_list(s, reader.pos as int) {
                    Ok((rest, e)) => Ok::<(Seq<ObjectGroupDataView>, int), DecodeError>(
                        (spec_data_views(out@) + rest, e),
                    ),
                    Err(err) => Err::<(Seq<ObjectGroupDataView>, int), DecodeError>(err),
                }),
            decreases s.len() - reader.pos,
        {
            match ObjectHeader::try_parse_end(reader, ObjectType::ObjectGroupData) {
                Ok(true) => {
                    proof {
                        assert(spec_data_views(out@) + Seq::<ObjectGroupDataView>::empty()
                            =~= spec_data_views(out@));
                    }
                    return Ok(out);
                },
                Ok(false) => {},
                Err(e) => {
                    return Err(e);
                },
            }
            let ghost pcur = reader.pos as int;
            let d = match Self::parse_data_record(reader) {
                Ok(d) => d,
                Err(e) => {
                    return Err(e);
                },
            };
            let ghost out_before = out@;
            proof {
                lemma_data_record_advances(s, pcur);
                assert(spec_parse_data_list(s, pcur) == (
                match spec_parse_data_list(s, reader.pos as int) {
                    Ok((rest, p2)) => Ok::<(Seq<ObjectGroupDataView>, int), DecodeError>(
                        (seq![d@] + rest, p2),
                    ),
                    Err(err) => Err::<(Seq<ObjectGroupDataView>, int), DecodeError>(err),
                }));
            }
            out.push(d);
            proof {
                assert(spec_data_views(out@) =~= spec_data_views(out_before) + seq![d@]);
                match spec_parse_data_list(s, reader.pos as int) {
                    Ok((rest, p2)) => {
                        assert((spec_data_views(out_before) + seq![d@]) + rest =~= spec_data_views(
                            out_before,
                        ) + (seq![d@] + rest));
                    },
                    Err(_) => {},
                }
            }
        }
    }

    /// Decodes a whole object group and wraps it as a data element value.
    /// This is the sole entry point: the cursor must stand exactly at the
    /// first byte of the declarations block's header.
    pub fn parse_object_group(reader: &mut Cursor) -> (r: Result<DataElementValue, DecodeError>)
        requires
            old(reader).wf(),
        ensures
            final(reader).wf(),
            final(reader).data@ == old(reader).data@,
            match r {
                Ok(v) => (v matches DataElementValue::ObjectGroup(g) && spec_parse_object_group(
                    old(reader).data@,
                    old(reader).pos as int,
                ) == Ok::<(ObjectGroupView, int), DecodeError>((g@, final(reader).pos as int))),
                Err(e) => spec_parse_object_group(old(reader).data@, old(reader).pos as int)
                    == Err::<(ObjectGroupView, int), DecodeError>(e),
            },
    {
        let declarations = match Self::parse_object_group_declarations(reader) {
            Ok(v) => v,
            Err(e) => {
                return Err(e);
            },
        };
        let header = match ObjectHeader::parse(reader) {
            Ok(h) => h,
            Err(e) => {
                return Err(e);
            },
        };
        let mut metadata: Vec<ObjectGroupMetadata> = Vec::new();
        if header.object_type == ObjectType::ObjectGroupMetadataBlock {
            metadata = match Self::parse_object_group_metadata(reader) {
                Ok(v) => v,
                Err(e) => {
                    return Err(e);
                },
            };
            let header2 = match ObjectHeader::parse(reader) {
                Ok(h) => h,
                Err(e) => {
                    return Err(e);
                },
            };
            if header2.object_type != ObjectType::ObjectGroupData {
                return Err(DecodeError::UnexpectedObjectType);
            }
        } else if header.object_type == ObjectType::ObjectGroupData {
        } else {
            return Err(DecodeError::UnexpectedObjectType);
        }
        let objects = match Self::parse_object_group_data(reader) {
            Ok(v) => v,
            Err(e) => {
                return Err(e);
            },
        };
        let end = match ObjectHeader::parse_end(reader) {
            Ok(t) => t,
            Err(e) => {
                return Err(e);
            },
        };
        if end != ObjectType::DataElement {
            return Err(DecodeError::UnexpectedObjectType);
        }
        Ok(DataElementValue::ObjectGroup(ObjectGroup { declarations, metadata, objects }))
    }
}

} // verus!
