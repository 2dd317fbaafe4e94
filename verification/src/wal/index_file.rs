//! Persisted offset indexes: the shape of an index file that stores a
//! sealed segment's name and its offset list.

use vstd::prelude::*;

use crate::wal::offset::Offset;

verus! {

/// The offset index file of a sealed segment.
pub struct IndexFile;

/// One sealed segment's recorded index: its name and offsets.
pub struct Index {
    pub name: String,
    pub offsets: Vec<Offset>,
}

} // verus!
