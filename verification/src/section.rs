use vstd::prelude::*;

use crate::exguid::ExGuid;

verus! {

/// One stored object, as the downstream document model reads it: the
/// display name and the page-series identifiers that section parsing needs.
/// Interpreting an object's payload bytes into these fields belongs to the
/// property-set layer above this crate; the store hands them in ready-made.
pub struct SectionObject {
    pub display_name: Option<String>,
    pub page_series: Vec<ExGuid>,
}

/// The addressable store that a decoded object group populates: objects
/// keyed by their declared identifiers, plus the two distinguished roots a
/// section hangs from.
pub struct ObjectSpace {
    pub content_root: Option<ExGuid>,
    pub metadata_root: Option<ExGuid>,
    pub objects: Vec<(ExGuid, SectionObject)>,
}

/// The first object stored under the given identifier, if any.
pub open spec fn spec_lookup(entries: Seq<(ExGuid, SectionObject)>, id: ExGuid) -> Option<
    SectionObject,
>
    decreases entries.len(),
{
    if entries.len() == 0 {
        None
    } else if entries[0].0 == id {
        Some(entries[0].1)
    } else {
        spec_lookup(entries.subrange(1, entries.len() as int), id)
    }
}

/// The content-root object the store resolves to, if the root is set and
/// present.
pub open spec fn spec_content_object(space: ObjectSpace) -> Option<SectionObject> {
    match space.content_root {
        Some(id) => spec_lookup(space.objects@, id),
        None => None,
    }
}

/// The metadata-root object the store resolves to, if the root is set and
/// present.
pub open spec fn spec_metadata_object(space: ObjectSpace) -> Option<SectionObject> {
    match space.metadata_root {
        Some(id) => spec_lookup(space.objects@, id),
        None => None,
    }
}

impl ObjectSpace {
    pub fn content_root(&self) -> (r: Option<ExGuid>)
        ensures
            r == self.content_root,
    {
        self.content_root
    }

    pub fn metadata_root(&self) -> (r: Option<ExGuid>)
        ensures
            r == self.metadata_root,
    {
        self.metadata_root
    }

    /// Fetches the object stored under the given identifier, if any.
    #[verifier::loop_isolation(false)]
    pub fn get_object(&self, id: ExGuid) -> (r: Option<&SectionObject>)
        ensures
            match r {
                Some(o) => spec_lookup(self.objects@, id) == Some(*o),
                None => spec_lookup(self.objects@, id) is None,
            },
    {
        let ghost entries = self.objects@;
        proof {
            assert(entries.subrange(0, entries.len() as int) =~= entries);
        }
        let mut i: usize = 0;
        while i < self.objects.len()
            invariant
                i <= entries.len(),
                spec_lookup(entries, id) == spec_lookup(
                    entries.subrange(i as int, entries.len() as int),
                    id,
                ),
            decreases entries.len() - i,
        {
            let ghost tail = entries.subrange(i as int, entries.len() as int);
            proof {
                assert(tail[0] == entries[i as int]);
                assert(tail.subrange(1, tail.len() as int) =~= entries.subrange(
                    i as int + 1,
                    entries.len() as int,
                ));
            }
            if self.objects[i].0 == id {
                return Some(&self.objects[i].1);
            }
            i = i + 1;
        }
        proof {
            assert(entries.subrange(entries.len() as int, entries.len() as int).len() == 0);
        }
        None
    }
}

/// A section of the downstream document model: its display name and the
/// page series it contains, by identifier. Resolving those identifiers to
/// page content is a later stage's work.
#[derive(Debug)]
pub struct Section {
    pub display_name: Option<String>,
    pub page_series: Vec<ExGuid>,
}

/// Fetches the section's content object: the one the content root names.
/// None when the root is missing or does not resolve.
pub fn parse_content(space: &ObjectSpace) -> (r: Option<&SectionObject>)
    ensures
        match r {
            Some(o) => spec_content_object(*space) == Some(*o),
            None => spec_content_object(*space) is None,
        },
{
    match space.content_root() {
        Some(id) => space.get_object(id),
        None => None,
    }
}

/// Fetches the section's metadata object: the one the metadata root names.
/// None when the root is missing or does not resolve.
pub fn parse_metadata(space: &ObjectSpace) -> (r: Option<&SectionObject>)
    ensures
        match r {
            Some(o) => spec_metadata_object(*space) == Some(*o),
            None => spec_metadata_object(*space) is None,
        },
{
    match space.metadata_root() {
        Some(id) => space.get_object(id),
        None => None,
    }
}

/// Assembles a section from the store: the display name from the metadata
/// root's object, the page-series identifiers from the content root's
/// object. None when either root is missing or does not resolve.
pub fn parse_section(space: &ObjectSpace) -> (r: Option<Section>)
    ensures
        match (spec_content_object(*space), spec_metadata_object(*space)) {
            (Some(c), Some(m)) => (r matches Some(sec) && sec.display_name == m.display_name
                && sec.page_series@ == c.page_series@),
            _ => r is None,
        },
{
    let content = match parse_content(space) {
        Some(o) => o,
        None => {
            return None;
        },
    };
    let metadata = match parse_metadata(space) {
        Some(o) => o,
        None => {
            return None;
        },
    };
    let display_name: Option<String> = match &metadata.display_name {
        Some(name) => Some(name.clone()),
        None => None,
    };
    let mut page_series: Vec<ExGuid> = Vec::new();
    let mut i: usize = 0;
    while i < content.page_series.len()
        invariant
            i <= content.page_series@.len(),
            page_series@ == content.page_series@.subrange(0, i as int),
        decreases content.page_series@.len() - i,
    {
        page_series.push(content.page_series[i]);
        proof {
            assert(page_series@ =~= content.page_series@.subrange(0, i as int + 1));
        }
        i = i + 1;
    }
    proof {
        assert(content.page_series@.subrange(0, content.page_series@.len() as int)
            =~= content.page_series@);
    }
    Some(Section { display_name, page_series })
}

} // verus!
