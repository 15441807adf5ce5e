//! The property store that keeps nothing.
use crate::error::FsError;
use crate::normalized_path::NormalizedPath;
use crate::prop_storages::props::DavProp;
use vstd::prelude::*;

verus! {

/// A store without properties: it has none and fails every other call.
#[derive(Clone, Copy, Debug, PartialEq, Eq, Structural)]
pub struct Stub;

impl Stub {
    /// The store.
    pub fn new() -> (r: Stub) {
        Stub
    }

    /// There are no properties.
    pub fn have_props(&self, path: &NormalizedPath) -> (r: bool)
        ensures
            !r,
    {
        false
    }

    /// Nothing can be set or removed.
    pub fn patch_prop(&self, path: &NormalizedPath, set: bool, prop: DavProp) -> (r: Result<
        (u16, DavProp),
        FsError,
    >)
        ensures
            r is Err,
            r->Err_0 == FsError::GeneralFailure,
    {
        Err(FsError::GeneralFailure)
    }

    /// Nothing can be read.
    pub fn get_prop(&self, path: &NormalizedPath, prop: &DavProp) -> (r: Result<Vec<u8>, FsError>)
        ensures
            r == Err::<Vec<u8>, FsError>(FsError::GeneralFailure),
    {
        Err(FsError::GeneralFailure)
    }

    /// Nothing can be listed.
    pub fn get_props(&self, path: &NormalizedPath, do_content: bool) -> (r: Result<
        Vec<DavProp>,
        FsError,
    >)
        ensures
            r is Err,
            r->Err_0 == FsError::GeneralFailure,
    {
        Err(FsError::GeneralFailure)
    }

    /// Nothing can be forgotten.
    pub fn remove_file(&self, path: &NormalizedPath) -> (r: Result<(), FsError>)
        ensures
            r == Err::<(), FsError>(FsError::GeneralFailure),
    {
        Err(FsError::GeneralFailure)
    }

    /// Nothing can be forgotten.
    pub fn remove_dir(&self, path: &NormalizedPath) -> (r: Result<(), FsError>)
        ensures
            r == Err::<(), FsError>(FsError::GeneralFailure),
    {
        Err(FsError::GeneralFailure)
    }

    /// Nothing can be moved.
    pub fn rename(&self, from: &NormalizedPath, to: &NormalizedPath) -> (r: Result<(), FsError>)
        ensures
            r == Err::<(), FsError>(FsError::GeneralFailure),
    {
        Err(FsError::GeneralFailure)
    }

    /// Nothing can be copied.
    pub fn copy(&self, from: &NormalizedPath, to: &NormalizedPath) -> (r: Result<(), FsError>)
        ensures
            r == Err::<(), FsError>(FsError::GeneralFailure),
    {
        Err(FsError::GeneralFailure)
    }
}

} // verus!
