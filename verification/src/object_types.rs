use vstd::prelude::*;

verus! {

/// The record kinds that appear inside an object group, plus the outer
/// envelope kind whose end marker closes the whole group.
#[derive(Debug, Clone, Copy, PartialEq, Eq, Structural)]
pub enum ObjectType {
    /// The outer envelope: a data element record. Only its end marker is
    /// read here; it terminates the group.
    DataElement,
    /// Start of the declarations block.
    ObjectGroupDeclaration,
    /// One declaration of an object with inline data.
    ObjectGroupObject,
    /// One declaration of an object stored as an out-of-band blob.
    ObjectGroupDataBlob,
    /// Start of the optional metadata block.
    ObjectGroupMetadataBlock,
    /// One metadata entry; appears only in the wide header form.
    ObjectGroupMetadata,
    /// Start of the data block.
    ObjectGroupData,
    /// One data record whose payload is intentionally omitted.
    ObjectGroupDataExcluded,
    /// One data record with an inline payload.
    ObjectGroupDataObject,
    /// One data record that names an out-of-band blob.
    ObjectGroupBlobReference,
}

impl ObjectType {
    /// The numeric tag that headers carry for this type. Tags up to 31 fit
    /// the compact header form; the metadata entry tag is larger on purpose,
    /// so that it can only appear in the wide form.
    pub open spec fn tag_spec(self) -> u16 {
        match self {
            ObjectType::DataElement => 0x01,
            ObjectType::ObjectGroupDeclaration => 0x02,
            ObjectType::ObjectGroupObject => 0x03,
            ObjectType::ObjectGroupDataBlob => 0x04,
            ObjectType::ObjectGroupMetadataBlock => 0x05,
            ObjectType::ObjectGroupData => 0x06,
            ObjectType::ObjectGroupDataExcluded => 0x07,
            ObjectType::ObjectGroupDataObject => 0x08,
            ObjectType::ObjectGroupBlobReference => 0x09,
            ObjectType::ObjectGroupMetadata => 0x40,
        }
    }

    /// The type a tag stands for, if any.
    pub open spec fn from_tag_spec(tag: u16) -> Option<ObjectType> {
        if tag == 0x01 {
            Some(ObjectType::DataElement)
        } else if tag == 0x02 {
            Some(ObjectType::ObjectGroupDeclaration)
        } else if tag == 0x03 {
            Some(ObjectType::ObjectGroupObject)
        } else if tag == 0x04 {
            Some(ObjectType::ObjectGroupDataBlob)
        } else if tag == 0x05 {
            Some(ObjectType::ObjectGroupMetadataBlock)
        } else if tag == 0x06 {
            Some(ObjectType::ObjectGroupData)
        } else if tag == 0x07 {
            Some(ObjectType::ObjectGroupDataExcluded)
        } else if tag == 0x08 {
            Some(ObjectType::ObjectGroupDataObject)
        } else if tag == 0x09 {
            Some(ObjectType::ObjectGroupBlobReference)
        } else if tag == 0x40 {
            Some(ObjectType::ObjectGroupMetadata)
        } else {
            None
        }
    }

    pub fn tag(self) -> (r: u16)
        ensures
            r == self.tag_spec(),
    {
        match self {
            ObjectType::DataElement => 0x01,
            ObjectType::ObjectGroupDeclaration => 0x02,
            ObjectType::ObjectGroupObject => 0x03,
            ObjectType::ObjectGroupDataBlob => 0x04,
            ObjectType::ObjectGroupMetadataBlock => 0x05,
            ObjectType::ObjectGroupData => 0x06,
            ObjectType::ObjectGroupDataExcluded => 0x07,
            ObjectType::ObjectGroupDataObject => 0x08,
            ObjectType::ObjectGroupBlobReference => 0x09,
            ObjectType::ObjectGroupMetadata => 0x40,
        }
    }

    pub fn from_tag(tag: u16) -> (r: Option<ObjectType>)
        ensures
            r == Self::from_tag_spec(tag),
    {
        if tag == 0x01 {
            Some(ObjectType::DataElement)
        } else if tag == 0x02 {
            Some(ObjectType::ObjectGroupDeclaration)
        } else if tag == 0x03 {
            Some(ObjectType::ObjectGroupObject)
        } else if tag == 0x04 {
            Some(ObjectType::ObjectGroupDataBlob)
        } else if tag == 0x05 {
            Some(ObjectType::ObjectGroupMetadataBlock)
        } else if tag == 0x06 {
            Some(ObjectType::ObjectGroupData)
        } else if tag == 0x07 {
            Some(ObjectType::ObjectGroupDataExcluded)
        } else if tag == 0x08 {
            Some(ObjectType::ObjectGroupDataObject)
        } else if tag == 0x09 {
            Some(ObjectType::ObjectGroupBlobReference)
        } else if tag == 0x40 {
            Some(ObjectType::ObjectGroupMetadata)
        } else {
            None
        }
    }
}

/// Every type's tag maps back to that type.
pub proof fn lemma_tag_inverse(t: ObjectType)
    ensures
        ObjectType::from_tag_spec(t.tag_spec()) == Some(t),
{
}

} // verus!
