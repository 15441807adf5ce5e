//! The property store, whichever kind it is.
use crate::error::FsError;
use crate::normalized_path::NormalizedPath;
use crate::prop_storages::kv::{
    bucket_get, kv_listed, kv_patched, kv_transferred, kv_value, kv_without, kv_without_each,
    path_key, Kv, KvView,
};
use crate::prop_storages::mem::Memory;
use crate::prop_storages::props::{
    any_under, copied, moves, patched, props_under, props_view, renamed, value_of, without_under,
    without_value, DavProp, PropEntry, PropView,
};
use crate::prop_storages::stub::Stub;
use crate::prop_storages::yaml::Yaml;
use crate::text::ends_with_char;
use vstd::prelude::*;

verus! {

/// A property store of one of the kinds.
#[derive(Debug)]
pub enum PropStore {
    /// Kept in memory, lost when the process ends.
    Memory(Memory),
    /// Kept in memory and mirrored in a file.
    Yaml(Yaml),
    /// Kept in the two buckets of a key-value store.
    Kv(Kv),
    /// Not kept at all.
    Stub(Stub),
}

/// A property store as plain values.
pub enum PropStoreView {
    Memory(Seq<PropEntry>),
    Yaml(Seq<char>, Seq<PropEntry>),
    Kv(KvView),
    Stub,
}

impl View for PropStore {
    type V = PropStoreView;

    open spec fn view(&self) -> PropStoreView {
        match *self {
            PropStore::Memory(m) => PropStoreView::Memory(m@),
            PropStore::Yaml(y) => PropStoreView::Yaml(y.filepath@, y.mem@),
            PropStore::Kv(k) => PropStoreView::Kv(k@),
            PropStore::Stub(_) => PropStoreView::Stub,
        }
    }
}

/// Whether the store has anything for the path.
pub open spec fn store_have(s: PropStoreView, path: Seq<char>) -> bool {
    match s {
        PropStoreView::Memory(m) => any_under(m, path),
        PropStoreView::Yaml(_, m) => any_under(m, path),
        PropStoreView::Kv(kv) => ends_with_char(path, '/') || bucket_get(
            kv.existence,
            path_key(path),
        ) is Some,
        PropStoreView::Stub => false,
    }
}

/// The store after a patch, with the answer: the status 200 and the
/// property, without its value where the store is one in memory.
pub open spec fn store_patch(s: PropStoreView, path: Seq<char>, set: bool, p: PropView) -> (
    PropStoreView,
    Result<(u16, PropView), FsError>,
) {
    match s {
        PropStoreView::Memory(m) => (
            PropStoreView::Memory(patched(m, path, set, p)),
            Ok((200u16, without_value(p))),
        ),
        PropStoreView::Yaml(file, m) => (
            PropStoreView::Yaml(file, patched(m, path, set, p)),
            Ok((200u16, without_value(p))),
        ),
        PropStoreView::Kv(kv) => (
            PropStoreView::Kv(kv_patched(kv, path_key(path), set, p)),
            Ok((200u16, p)),
        ),
        PropStoreView::Stub => (s, Err(FsError::GeneralFailure)),
    }
}

/// The value of a property of a path.
pub open spec fn store_value(s: PropStoreView, path: Seq<char>, p: PropView) -> Result<
    Seq<u8>,
    FsError,
> {
    match s {
        PropStoreView::Memory(m) => value_of(m, path, p),
        PropStoreView::Yaml(_, m) => value_of(m, path, p),
        PropStoreView::Kv(kv) => kv_value(kv, path_key(path), p),
        PropStoreView::Stub => Err(FsError::GeneralFailure),
    }
}

/// The properties of a path and of what lies below it.
pub open spec fn store_list(s: PropStoreView, path: Seq<char>, content: bool) -> Result<
    Seq<PropView>,
    FsError,
> {
    match s {
        PropStoreView::Memory(m) => Ok(props_under(m, path, content)),
        PropStoreView::Yaml(_, m) => Ok(props_under(m, path, content)),
        PropStoreView::Kv(kv) => kv_listed(kv.values, kv.existence, path_key(path), content),
        PropStoreView::Stub => Err(FsError::GeneralFailure),
    }
}

/// The store after the properties of a removed resource were forgotten.
pub open spec fn store_remove_file(s: PropStoreView, path: Seq<char>) -> (
    PropStoreView,
    Result<(), FsError>,
) {
    match s {
        PropStoreView::Memory(m) => (PropStoreView::Memory(without_under(m, path)), Ok(())),
        PropStoreView::Yaml(file, m) => (
            PropStoreView::Yaml(file, without_under(m, path)),
            Ok(()),
        ),
        PropStoreView::Kv(kv) => (PropStoreView::Kv(kv_without(kv, path_key(path))), Ok(())),
        PropStoreView::Stub => (s, Err(FsError::GeneralFailure)),
    }
}

/// The store after the properties of a removed collection were
/// forgotten.
pub open spec fn store_remove_dir(s: PropStoreView, path: Seq<char>) -> (
    PropStoreView,
    Result<(), FsError>,
) {
    match s {
        PropStoreView::Memory(m) => (PropStoreView::Memory(without_under(m, path)), Ok(())),
        PropStoreView::Yaml(file, m) => (
            PropStoreView::Yaml(file, without_under(m, path)),
            Ok(()),
        ),
        PropStoreView::Kv(kv) => (
            PropStoreView::Kv(kv_without_each(kv, kv.existence, path_key(path))),
            Ok(()),
        ),
        PropStoreView::Stub => (s, Err(FsError::GeneralFailure)),
    }
}

/// The store after the properties have followed a move.
pub open spec fn store_rename(s: PropStoreView, from: Seq<char>, to: Seq<char>) -> (
    PropStoreView,
    Result<(), FsError>,
) {
    match s {
        PropStoreView::Memory(m) => (
            PropStoreView::Memory(renamed(m, moves(m, from, to))),
            Ok(()),
        ),
        PropStoreView::Yaml(file, m) => (
            PropStoreView::Yaml(file, renamed(m, moves(m, from, to))),
            Ok(()),
        ),
        PropStoreView::Kv(kv) => (
            PropStoreView::Kv(kv_transferred(kv, path_key(from), path_key(to), true).0),
            kv_transferred(kv, path_key(from), path_key(to), true).1,
        ),
        PropStoreView::Stub => (s, Err(FsError::GeneralFailure)),
    }
}

/// The store after the properties have followed a copy.
pub open spec fn store_copy(s: PropStoreView, from: Seq<char>, to: Seq<char>) -> (
    PropStoreView,
    Result<(), FsError>,
) {
    match s {
        PropStoreView::Memory(m) => (PropStoreView::Memory(copied(m, moves(m, from, to))), Ok(())),
        PropStoreView::Yaml(file, m) => (
            PropStoreView::Yaml(file, copied(m, moves(m, from, to))),
            Ok(()),
        ),
        PropStoreView::Kv(kv) => (
            PropStoreView::Kv(kv_transferred(kv, path_key(from), path_key(to), false).0),
            kv_transferred(kv, path_key(from), path_key(to), false).1,
        ),
        PropStoreView::Stub => (s, Err(FsError::GeneralFailure)),
    }
}

/// The view of the answer to a patch.
pub open spec fn patch_result_view(r: Result<(u16, DavProp), FsError>) -> Result<
    (u16, PropView),
    FsError,
> {
    match r {
        Ok((code, p)) => Ok((code, p@)),
        Err(e) => Err(e),
    }
}

/// The view of a list of properties, or of the error in its place.
pub open spec fn list_result_view(r: Result<Vec<DavProp>, FsError>) -> Result<
    Seq<PropView>,
    FsError,
> {
    match r {
        Ok(v) => Ok(props_view(v@)),
        Err(e) => Err(e),
    }
}

/// The view of a value, or of the error in its place.
pub open spec fn value_result_view(r: Result<Vec<u8>, FsError>) -> Result<Seq<u8>, FsError> {
    match r {
        Ok(v) => Ok(v@),
        Err(e) => Err(e),
    }
}

impl PropStore {
    /// Whether the store has anything for the path.
    pub fn have_props(&self, path: &NormalizedPath) -> (r: bool)
        ensures
            r == store_have(self@, path@),
    {
        match self {
            PropStore::Memory(m) => m.have_props(path),
            PropStore::Yaml(y) => y.have_props(path),
            PropStore::Kv(k) => k.have_props(path),
            PropStore::Stub(s) => s.have_props(path),
        }
    }

    /// Sets a property of a path, or removes it.
    pub fn patch_prop(&mut self, path: &NormalizedPath, set: bool, prop: DavProp) -> (r: Result<
        (u16, DavProp),
        FsError,
    >)
        ensures
            (final(self)@, patch_result_view(r)) == store_patch(old(self)@, path@, set, prop@),
    {
        match self {
            PropStore::Memory(m) => m.patch_prop(path, set, prop),
            PropStore::Yaml(y) => y.patch_prop(path, set, prop),
            PropStore::Kv(k) => k.patch_prop(path, set, prop),
            PropStore::Stub(s) => s.patch_prop(path, set, prop),
        }
    }

    /// The value of a property of a path.
    pub fn get_prop(&self, path: &NormalizedPath, prop: &DavProp) -> (r: Result<Vec<u8>, FsError>)
        ensures
            value_result_view(r) == store_value(self@, path@, prop@),
    {
        match self {
            PropStore::Memory(m) => m.get_prop(path, prop),
            PropStore::Yaml(y) => y.get_prop(path, prop),
            PropStore::Kv(k) => k.get_prop(path, prop),
            PropStore::Stub(s) => s.get_prop(path, prop),
        }
    }

    /// The properties of the path and of what lies below it.
    pub fn get_props(&self, path: &NormalizedPath, do_content: bool) -> (r: Result<
        Vec<DavProp>,
        FsError,
    >)
        ensures
            list_result_view(r) == store_list(self@, path@, do_content),
    {
        match self {
            PropStore::Memory(m) => m.get_props(path, do_content),
            PropStore::Yaml(y) => y.get_props(path, do_content),
            PropStore::Kv(k) => k.get_props(path, do_content),
            PropStore::Stub(s) => s.get_props(path, do_content),
        }
    }

    /// Forgets the properties of a removed resource.
    pub fn remove_file(&mut self, path: &NormalizedPath) -> (r: Result<(), FsError>)
        ensures
            (final(self)@, r) == store_remove_file(old(self)@, path@),
    {
        match self {
            PropStore::Memory(m) => m.remove_file(path),
            PropStore::Yaml(y) => y.remove_file(path),
            PropStore::Kv(k) => k.remove_file(path),
            PropStore::Stub(s) => s.remove_file(path),
        }
    }

    /// Forgets the properties of a removed collection.
    pub fn remove_dir(&mut self, path: &NormalizedPath) -> (r: Result<(), FsError>)
        ensures
            (final(self)@, r) == store_remove_dir(old(self)@, path@),
    {
        match self {
            PropStore::Memory(m) => m.remove_dir(path),
            PropStore::Yaml(y) => y.remove_dir(path),
            PropStore::Kv(k) => k.remove_dir(path),
            PropStore::Stub(s) => s.remove_dir(path),
        }
    }

    /// Lets the properties follow a move.
    pub fn rename(&mut self, from: &NormalizedPath, to: &NormalizedPath) -> (r: Result<
        (),
        FsError,
    >)
        ensures
            (final(self)@, r) == store_rename(old(self)@, from@, to@),
    {
        match self {
            PropStore::Memory(m) => m.rename(from, to),
            PropStore::Yaml(y) => y.rename(from, to),
            PropStore::Kv(k) => k.rename(from, to),
            PropStore::Stub(s) => s.rename(from, to),
        }
    }

    /// Lets the properties follow a copy.
    pub fn copy(&mut self, from: &NormalizedPath, to: &NormalizedPath) -> (r: Result<(), FsError>)
        ensures
            (final(self)@, r) == store_copy(old(self)@, from@, to@),
    {
        match self {
            PropStore::Memory(m) => m.copy(from, to),
            PropStore::Yaml(y) => y.copy(from, to),
            PropStore::Kv(k) => k.copy(from, to),
            PropStore::Stub(s) => s.copy(from, to),
        }
    }
}

} // verus!
