//! Decoder for the "Object Group" binary container: a batch of
//! identity-tagged object declarations, optional caching metadata, and data
//! records, carried inside a file-synchronization protocol stream.
//!
//! The decoder walks a sequence of nested, type-tagged sub-records from an
//! in-memory byte buffer and produces a fully typed, immutable value. Every
//! structural decision — when a list ends, which variant a tag selects, how
//! much to read — is implicit in the byte stream; the specification functions
//! in each module state that grammar exactly, and every executable decoder is
//! proved to return precisely what the specification says.

pub mod binary_item;
pub mod cell_id;
pub mod compact_u64;
pub mod cursor;
pub mod encode;
pub mod errors;
pub mod exguid;
pub mod object_group;
pub mod object_types;
pub mod section;
pub mod stream_object;
pub mod truncation;
