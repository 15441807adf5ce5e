//! Setting up the adapter for one bucket.
use crate::configuration::{Filesystem, S3Authentication};
use crate::error::FsError;
use crate::normalized_path::NormalizedPath;
use crate::prop_storages::props::DavProp;
use crate::s3_backend::filesystem::{
    new_copy_op, new_create_dir_op, new_metadata_op, new_open_op, new_read_dir_op,
    new_remove_dir_op, new_remove_file_op, new_rename_op, CopyOp, CreateDirOp, MetadataOp, Op,
    OpenOp, ReadDirOp, RemoveDirOp, RemoveFileOp, RenameOp,
};
use crate::s3_backend::protocol::{Reply, ReplyView, Request, RequestView};
use crate::s3_backend::simple_open_file::OpenOptions;
use vstd::prelude::*;
use vstd::string::StringExecFns;

verus! {

/// Why the adapter could not be set up.
#[derive(Clone, Copy, Debug, PartialEq, Eq, Structural)]
pub enum BootstrapError {
    /// The configuration is not one of an object store.
    UnsupportedConfig,
    /// The store refused to create the bucket, and the bucket cannot be
    /// written to.
    Unsuccessful,
    /// The store could not be asked to create the bucket, and the bucket
    /// cannot be written to.
    CannotCreate,
}

/// What the set-up waits for.
#[derive(Clone, Copy, Debug, PartialEq, Eq, Structural)]
pub enum BootstrapStage {
    Start,
    Create,
    ProbePut,
    ProbeDelete,
}

/// The set-up of a bucket.
#[derive(Clone, Copy, Debug, PartialEq, Eq, Structural)]
pub struct Bootstrap {
    pub ensure_bucket: bool,
    pub stage: BootstrapStage,
    pub reason: BootstrapError,
}

/// What the set-up asks for next.
#[derive(Debug)]
pub enum BootstrapStep {
    Send(Bootstrap, Request),
    Done(Result<(), BootstrapError>),
}

/// A set-up step as plain values.
pub enum BootstrapStepView {
    Send(Bootstrap, RequestView),
    Done(Result<(), BootstrapError>),
}

impl View for BootstrapStep {
    type V = BootstrapStepView;

    open spec fn view(&self) -> BootstrapStepView {
        match *self {
            BootstrapStep::Send(b, r) => BootstrapStepView::Send(b, r@),
            BootstrapStep::Done(r) => BootstrapStepView::Done(r),
        }
    }
}

/// The status of a request that the store has honoured.
pub open spec fn is_success(code: u16) -> bool {
    200 <= code < 300
}

/// The key of the object that is written and deleted to see whether the
/// bucket can be used.
pub open spec fn check_key() -> Seq<char> {
    ".check"@
}

/// The upload of the probe object.
pub open spec fn probe_put(b: Bootstrap, reason: BootstrapError) -> BootstrapStepView {
    BootstrapStepView::Send(
        Bootstrap { stage: BootstrapStage::ProbePut, reason, ..b },
        RequestView::PutObject { key: check_key(), body: Seq::empty() },
    )
}

/// One step of the set-up.
///
/// Where the bucket is to be ensured, the store is asked to create it; a
/// bucket that is there already is as good as a new one. Where that fails
/// the bucket is tried out: a small object is written and deleted. Where
/// that fails too, the set-up fails with the reason for which the
/// creation had failed.
pub open spec fn bootstrap_step(b: Bootstrap, reply: Option<ReplyView>) -> BootstrapStepView {
    match (b.stage, reply) {
        (BootstrapStage::Start, None) => if b.ensure_bucket {
            BootstrapStepView::Send(
                Bootstrap { stage: BootstrapStage::Create, ..b },
                RequestView::CreateBucket,
            )
        } else {
            BootstrapStepView::Done(Ok(()))
        },
        (BootstrapStage::Create, Some(ReplyView::Status { code })) => if is_success(code) || code
            == 409 {
            BootstrapStepView::Done(Ok(()))
        } else {
            probe_put(b, BootstrapError::Unsuccessful)
        },
        (BootstrapStage::Create, Some(_)) => probe_put(b, BootstrapError::CannotCreate),
        (BootstrapStage::ProbePut, Some(ReplyView::Status { code })) => if code == 200 {
            BootstrapStepView::Send(
                Bootstrap { stage: BootstrapStage::ProbeDelete, ..b },
                RequestView::DeleteObject { key: check_key() },
            )
        } else {
            BootstrapStepView::Done(Err(b.reason))
        },
        (BootstrapStage::ProbeDelete, Some(ReplyView::Status { code })) => if code == 204 {
            BootstrapStepView::Done(Ok(()))
        } else {
            BootstrapStepView::Done(Err(b.reason))
        },
        _ => BootstrapStepView::Done(Err(b.reason)),
    }
}

impl Bootstrap {
    /// The set-up, not yet begun.
    pub fn new(ensure_bucket: bool) -> (r: Bootstrap)
        ensures
            r == (Bootstrap {
                ensure_bucket,
                stage: BootstrapStage::Start,
                reason: BootstrapError::CannotCreate,
            }),
    {
        Bootstrap {
            ensure_bucket,
            stage: BootstrapStage::Start,
            reason: BootstrapError::CannotCreate,
        }
    }

    fn probe(self, reason: BootstrapError) -> (r: BootstrapStep)
        ensures
            r@ == probe_put(self, reason),
    {
        BootstrapStep::Send(
            Bootstrap { stage: BootstrapStage::ProbePut, reason, ..self },
            Request::PutObject { key: String::from_str(".check"), body: Vec::new() },
        )
    }

    /// Takes the set-up one step further: `reply` is `None` at first,
    /// then the store's reply to the request of the last step.
    pub fn step(self, reply: Option<Reply>) -> (r: BootstrapStep)
        ensures
            r@ == bootstrap_step(
                self,
                match reply {
                    Some(reply) => Some(reply@),
                    None => None,
                },
            ),
    {
        match (self.stage, reply) {
            (BootstrapStage::Start, None) => {
                if self.ensure_bucket {
                    BootstrapStep::Send(
                        Bootstrap { stage: BootstrapStage::Create, ..self },
                        Request::CreateBucket,
                    )
                } else {
                    BootstrapStep::Done(Ok(()))
                }
            },
            (BootstrapStage::Create, Some(Reply::Status { code })) => {
                if (200 <= code && code < 300) || code == 409 {
                    BootstrapStep::Done(Ok(()))
                } else {
                    self.probe(BootstrapError::Unsuccessful)
                }
            },
            (BootstrapStage::Create, Some(_)) => self.probe(BootstrapError::CannotCreate),
            (BootstrapStage::ProbePut, Some(Reply::Status { code })) => {
                if code == 200 {
                    BootstrapStep::Send(
                        Bootstrap { stage: BootstrapStage::ProbeDelete, ..self },
                        Request::DeleteObject { key: String::from_str(".check") },
                    )
                } else {
                    BootstrapStep::Done(Err(self.reason))
                }
            },
            (BootstrapStage::ProbeDelete, Some(Reply::Status { code })) => {
                if code == 204 {
                    BootstrapStep::Done(Ok(()))
                } else {
                    BootstrapStep::Done(Err(self.reason))
                }
            },
            _ => BootstrapStep::Done(Err(self.reason)),
        }
    }
}

/// The adapter for one bucket: how the bucket is reached.
#[derive(Debug)]
pub struct S3Backend {
    pub bucket: String,
    pub region: String,
    pub url: String,
    pub path_style: bool,
    pub auth: S3Authentication,
}

impl S3Backend {
    /// The adapter for the given configuration and the set-up of its
    /// bucket. Only the configuration of an object store is taken.
    pub fn new(config: Filesystem) -> (r: Result<(S3Backend, Bootstrap), BootstrapError>)
        ensures
            match config {
                Filesystem::S3 { bucket, region, url, path_style, ensure_bucket, auth } => r is Ok
                    && r->Ok_0.0.bucket@ == bucket@ && r->Ok_0.0.region@ == region@
                    && r->Ok_0.0.url@ == url@ && r->Ok_0.0.path_style == path_style
                    && r->Ok_0.0.auth == auth && r->Ok_0.1 == (Bootstrap {
                    ensure_bucket,
                    stage: BootstrapStage::Start,
                    reason: BootstrapError::CannotCreate,
                }),
                _ => r == Err::<(S3Backend, Bootstrap), BootstrapError>(
                    BootstrapError::UnsupportedConfig,
                ),
            },
    {
        match config {
            Filesystem::S3 { bucket, region, url, path_style, ensure_bucket, auth } => Ok(
                (S3Backend { bucket, region, url, path_style, auth }, Bootstrap::new(ensure_bucket)),
            ),
            _ => Err(BootstrapError::UnsupportedConfig),
        }
    }

    /// Opens the resource `path`.
    pub fn open(&self, path: NormalizedPath, options: OpenOptions) -> (r: Op)
        ensures
            r@ == new_open_op(path@, options),
    {
        OpenOp::new(path, options)
    }

    /// Lists the collection `path`.
    pub fn read_dir(&self, path: NormalizedPath) -> (r: Op)
        ensures
            r@ == new_read_dir_op(path@),
    {
        ReadDirOp::new(path)
    }

    /// Finds out what `path` names.
    pub fn metadata(&self, path: NormalizedPath) -> (r: Op)
        ensures
            r@ == new_metadata_op(path@),
    {
        MetadataOp::new(path)
    }

    /// Creates the collection `path`.
    pub fn create_dir(&self, path: NormalizedPath) -> (r: Op)
        ensures
            r@ == new_create_dir_op(path@),
    {
        CreateDirOp::new(path)
    }

    /// Removes the resource `path`; a collection is not removed.
    pub fn remove_file(&self, path: NormalizedPath) -> (r: Op)
        ensures
            r@ == new_remove_file_op(path@, true),
    {
        RemoveFileOp::new(path, true)
    }

    /// Removes the collection `path`, and nothing below it.
    pub fn remove_dir(&self, path: NormalizedPath) -> (r: Op)
        ensures
            r@ == new_remove_dir_op(path@),
    {
        RemoveDirOp::new(path)
    }

    /// Moves `from` to `to`.
    pub fn rename(&self, from: NormalizedPath, to: NormalizedPath) -> (r: Op)
        ensures
            r@ == new_rename_op(from@, to@),
    {
        RenameOp::new(from, to)
    }

    /// Copies `from` to `to`.
    pub fn copy(&self, from: NormalizedPath, to: NormalizedPath) -> (r: Op)
        ensures
            r@ == new_copy_op(from@, to@),
    {
        CopyOp::new(from, to)
    }

    /// The adapter keeps no properties itself, but lets clients ask.
    pub fn have_props(&self, path: &NormalizedPath) -> (r: bool)
        ensures
            r,
    {
        true
    }

    /// The adapter keeps no properties: patching is not offered.
    pub fn patch_props(&self, path: &NormalizedPath, patch: Vec<(bool, DavProp)>) -> (r: Result<
        Vec<(u16, DavProp)>,
        FsError,
    >)
        ensures
            r is Err,
            r->Err_0 == FsError::NotImplemented,
    {
        Err(FsError::NotImplemented)
    }

    /// The adapter keeps no properties: none can be read.
    pub fn get_prop(&self, path: &NormalizedPath, prop: DavProp) -> (r: Result<Vec<u8>, FsError>)
        ensures
            r == Err::<Vec<u8>, FsError>(FsError::NotImplemented),
    {
        Err(FsError::NotImplemented)
    }

    /// The adapter keeps no properties: none can be listed.
    pub fn get_props(&self, path: &NormalizedPath, do_content: bool) -> (r: Result<
        Vec<DavProp>,
        FsError,
    >)
        ensures
            r is Err,
            r->Err_0 == FsError::NotImplemented,
    {
        Err(FsError::NotImplemented)
    }
}

} // verus!
