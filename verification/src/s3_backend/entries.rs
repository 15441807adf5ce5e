//! The entries of a listed collection.
use crate::s3_backend::metadata::{MetaView, S3MetaData};
use crate::text::copy_text;
use vstd::prelude::*;
use vstd::string::StrSliceExecFns;

verus! {

/// One entry of a collection: its name below the collection and its record.
#[derive(Debug)]
pub struct S3DirEntry {
    pub metadata: S3MetaData,
    pub name: String,
}

/// An entry as plain values.
pub struct EntryView {
    pub metadata: MetaView,
    pub name: Seq<char>,
}

impl View for S3DirEntry {
    type V = EntryView;

    open spec fn view(&self) -> EntryView {
        EntryView { metadata: self.metadata@, name: self.name@ }
    }
}

/// The entries of a sequence, as plain values.
pub open spec fn entries_view(entries: Seq<S3DirEntry>) -> Seq<EntryView> {
    entries.map_values(|e: S3DirEntry| e@)
}

impl S3DirEntry {
    /// The entry with the given record and name.
    pub fn new(metadata: S3MetaData, name: &str) -> (r: S3DirEntry)
        ensures
            r@ == (EntryView { metadata: metadata@, name: name@ }),
    {
        S3DirEntry { metadata, name: copy_text(name) }
    }

    /// The name as bytes.
    pub fn name(&self) -> (r: Vec<u8>)
        ensures
            r@ == vstd::utf8::encode_utf8(self.name@),
    {
        self.name.as_str().as_bytes_vec()
    }

    /// A copy of the entry's record.
    pub fn metadata(&self) -> (r: S3MetaData)
        ensures
            r@ == self.metadata@,
    {
        self.metadata.clone()
    }

    /// Whether the entry is a collection.
    pub fn is_dir(&self) -> (b: bool)
        ensures
            b == self.metadata.is_dir,
    {
        self.metadata.is_dir
    }
}

} // verus!
