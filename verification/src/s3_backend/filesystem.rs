//! The adapter that maps collections and resources to objects.
//!
//! A collection `d/` is the object `d/.dir`; a resource `r` is the object
//! `r`; the root of the bucket needs no object. Each operation is a small
//! machine: given what came back for its last request, it says what to send
//! next, which other operation to run first, or how it ended. Sending the
//! requests and running the machines is the caller's part.
use crate::error::FsError;
use crate::normalized_path::{
    as_dir_spec, as_file_spec, dirs_parent_spec, join_dir_spec, join_file_spec, normalize,
    parent_spec, root, strip_prefix_spec, NormalizedPath,
};
use crate::s3_backend::entries::{entries_view, EntryView, S3DirEntry};
use crate::s3_backend::metadata::{date_seconds, meta_of_head, MetaView, S3MetaData, UnixTime};
use crate::s3_backend::partial_open_file::{multipart_opened, MultipartView, PartialOpenFile};
use crate::s3_backend::protocol::{Reply, ReplyView, Request, RequestView};
use crate::s3_backend::simple_open_file::{
    options_valid, simple_opened, OpenOptions, S3SimpleOpenFile, SimpleView,
};
use crate::serde_types::{HeadView, ListPageView};
use crate::text::{dot_dir, ends_with_char, starts_with_char};
use vstd::prelude::*;

verus! {

/// An open file of either kind.
#[derive(Debug)]
pub enum S3File {
    Simple(S3SimpleOpenFile),
    Multipart(PartialOpenFile),
}

/// An open file as plain values.
pub enum FileView {
    Simple(SimpleView),
    Multipart(MultipartView),
}

impl View for S3File {
    type V = FileView;

    open spec fn view(&self) -> FileView {
        match *self {
            S3File::Simple(f) => FileView::Simple(f@),
            S3File::Multipart(f) => FileView::Multipart(f@),
        }
    }
}

/// The views of a sequence of pairs of paths.
pub open spec fn path_pairs_view(pairs: Seq<(NormalizedPath, NormalizedPath)>) -> Seq<
    (Seq<char>, Seq<char>),
> {
    pairs.map_values(|p: (NormalizedPath, NormalizedPath)| (p.0@, p.1@))
}

/// The views of a sequence of paths.
pub open spec fn paths_view(paths: Seq<NormalizedPath>) -> Seq<Seq<char>> {
    paths.map_values(|p: NormalizedPath| p@)
}

/// What lies below a collection: the collections, the one walked from
/// first and each before those below it, and the resources. Each comes
/// with the place that mirrors it below another collection.
#[derive(Debug)]
pub struct Tree {
    pub dirs: Vec<(NormalizedPath, NormalizedPath)>,
    pub files: Vec<(NormalizedPath, NormalizedPath)>,
}

/// A tree as plain values.
pub struct TreeView {
    pub dirs: Seq<(Seq<char>, Seq<char>)>,
    pub files: Seq<(Seq<char>, Seq<char>)>,
}

impl View for Tree {
    type V = TreeView;

    open spec fn view(&self) -> TreeView {
        TreeView { dirs: path_pairs_view(self.dirs@), files: path_pairs_view(self.files@) }
    }
}

/// How an operation ended.
#[derive(Debug)]
pub enum Outcome {
    Meta(Result<S3MetaData, FsError>),
    Entries(Result<Vec<S3DirEntry>, FsError>),
    Unit(Result<(), FsError>),
    Tree(Result<Tree, FsError>),
    File(Result<S3File, FsError>),
}

/// An outcome as plain values.
pub enum OutcomeView {
    Meta(Result<MetaView, FsError>),
    Entries(Result<Seq<EntryView>, FsError>),
    Unit(Result<(), FsError>),
    Tree(Result<TreeView, FsError>),
    File(Result<FileView, FsError>),
}

impl View for Outcome {
    type V = OutcomeView;

    open spec fn view(&self) -> OutcomeView {
        match *self {
            Outcome::Meta(Ok(m)) => OutcomeView::Meta(Ok(m@)),
            Outcome::Meta(Err(e)) => OutcomeView::Meta(Err(e)),
            Outcome::Entries(Ok(v)) => OutcomeView::Entries(Ok(entries_view(v@))),
            Outcome::Entries(Err(e)) => OutcomeView::Entries(Err(e)),
            Outcome::Unit(r) => OutcomeView::Unit(r),
            Outcome::Tree(Ok(t)) => OutcomeView::Tree(Ok(t@)),
            Outcome::Tree(Err(e)) => OutcomeView::Tree(Err(e)),
            Outcome::File(Ok(f)) => OutcomeView::File(Ok(f@)),
            Outcome::File(Err(e)) => OutcomeView::File(Err(e)),
        }
    }
}

/// What an operation is resumed with.
#[derive(Debug)]
pub enum Event {
    /// Nothing yet: the operation begins.
    Start,
    /// The store's reply to the request the operation asked for.
    Reply(Reply),
    /// The outcome of the operation it asked to be run.
    Returned(Outcome),
}

/// An event as plain values.
pub enum EventView {
    Start,
    Reply(ReplyView),
    Returned(OutcomeView),
}

impl View for Event {
    type V = EventView;

    open spec fn view(&self) -> EventView {
        match *self {
            Event::Start => EventView::Start,
            Event::Reply(r) => EventView::Reply(r@),
            Event::Returned(o) => EventView::Returned(o@),
        }
    }
}

#[derive(Clone, Copy, Debug, PartialEq, Eq, Structural)]
pub enum ProbeStage {
    Start,
    Sentinel,
    Resource,
}

/// Finds out what a path names: a collection, a resource, or nothing.
#[derive(Debug)]
pub struct MetadataOp {
    pub path: NormalizedPath,
    pub stage: ProbeStage,
}

pub struct MetadataOpView {
    pub path: Seq<char>,
    pub stage: ProbeStage,
}

#[derive(Clone, Copy, Debug, PartialEq, Eq, Structural)]
pub enum ReadDirStage {
    Start,
    Probe,
    List,
    Each,
}

/// Lists a collection.
#[derive(Debug)]
pub struct ReadDirOp {
    pub path: NormalizedPath,
    pub stage: ReadDirStage,
    pub targets: Vec<NormalizedPath>,
    pub index: usize,
    pub entries: Vec<S3DirEntry>,
}

pub struct ReadDirOpView {
    pub path: Seq<char>,
    pub stage: ReadDirStage,
    pub targets: Seq<Seq<char>>,
    pub index: nat,
    pub entries: Seq<EntryView>,
}

#[derive(Clone, Copy, Debug, PartialEq, Eq, Structural)]
pub enum RemoveFileStage {
    Start,
    Probe,
    Delete,
}

/// Deletes the object of a resource.
#[derive(Debug)]
pub struct RemoveFileOp {
    pub path: NormalizedPath,
    pub dir_check: bool,
    pub stage: RemoveFileStage,
}

pub struct RemoveFileOpView {
    pub path: Seq<char>,
    pub dir_check: bool,
    pub stage: RemoveFileStage,
}

#[derive(Clone, Copy, Debug, PartialEq, Eq, Structural)]
pub enum RemoveDirStage {
    Start,
    Probe,
    Sentinel,
}

/// Deletes the object that marks a collection, and nothing below it.
#[derive(Debug)]
pub struct RemoveDirOp {
    pub path: NormalizedPath,
    pub stage: RemoveDirStage,
}

pub struct RemoveDirOpView {
    pub path: Seq<char>,
    pub stage: RemoveDirStage,
}

#[derive(Clone, Copy, Debug, PartialEq, Eq, Structural)]
pub enum CreateDirStage {
    Start,
    Probe,
    Parent,
    Put,
}

/// Creates a collection below one that exists.
#[derive(Debug)]
pub struct CreateDirOp {
    pub path: NormalizedPath,
    pub stage: CreateDirStage,
}

pub struct CreateDirOpView {
    pub path: Seq<char>,
    pub stage: CreateDirStage,
}

#[derive(Clone, Copy, Debug, PartialEq, Eq, Structural)]
pub enum CopyStage {
    Start,
    Parent,
    MakeParent,
    Copy,
}

/// Copies one object inside the store.
#[derive(Debug)]
pub struct CopyOp {
    pub from: NormalizedPath,
    pub to: NormalizedPath,
    pub stage: CopyStage,
}

pub struct CopyOpView {
    pub from: Seq<char>,
    pub to: Seq<char>,
    pub stage: CopyStage,
}

#[derive(Clone, Copy, Debug, PartialEq, Eq, Structural)]
pub enum WalkStage {
    Start,
    List,
}

/// Walks a collection breadth first and gathers what lies below it.
#[derive(Debug)]
pub struct WalkOp {
    pub tree: Tree,
    pub index: usize,
    pub stage: WalkStage,
}

pub struct WalkOpView {
    pub tree: TreeView,
    pub index: nat,
    pub stage: WalkStage,
}

#[derive(Clone, Copy, Debug, PartialEq, Eq, Structural)]
pub enum RemoveTreeStage {
    Start,
    Walk,
    Files,
    Dirs,
}

/// Deletes a collection with all that lies below it.
#[derive(Debug)]
pub struct RemoveTreeOp {
    pub path: NormalizedPath,
    pub tree: Tree,
    pub index: usize,
    pub stage: RemoveTreeStage,
}

pub struct RemoveTreeOpView {
    pub path: Seq<char>,
    pub tree: TreeView,
    pub index: nat,
    pub stage: RemoveTreeStage,
}

#[derive(Clone, Copy, Debug, PartialEq, Eq, Structural)]
pub enum RenameStage {
    Start,
    TargetProbe,
    TargetRemove,
    FileCopy,
    FileRemove,
    TargetFileRemove,
    Walk,
    Create,
    Copy,
    Remove,
    Drop,
}

/// Moves a resource, or a collection with all that lies below it.
#[derive(Debug)]
pub struct RenameOp {
    pub from: NormalizedPath,
    pub to: NormalizedPath,
    pub tree: Tree,
    pub index: usize,
    pub stage: RenameStage,
}

pub struct RenameOpView {
    pub from: Seq<char>,
    pub to: Seq<char>,
    pub tree: TreeView,
    pub index: nat,
    pub stage: RenameStage,
}

#[derive(Clone, Copy, Debug, PartialEq, Eq, Structural)]
pub enum OpenStage {
    Start,
    Probe,
    Head,
    Get,
    Initiate,
}

/// Opens a resource.
#[derive(Debug)]
pub struct OpenOp {
    pub path: NormalizedPath,
    pub options: OpenOptions,
    pub metadata: Option<S3MetaData>,
    pub stage: OpenStage,
}

pub struct OpenOpView {
    pub path: Seq<char>,
    pub options: OpenOptions,
    pub metadata: Option<MetaView>,
    pub stage: OpenStage,
}

/// The view of an optional record.
pub open spec fn opt_meta_view(m: Option<S3MetaData>) -> Option<MetaView> {
    match m {
        Some(m) => Some(m@),
        None => None,
    }
}

/// An operation of the adapter, at some point of its course.
#[derive(Debug)]
pub enum Op {
    Metadata(MetadataOp),
    ReadDir(ReadDirOp),
    RemoveFile(RemoveFileOp),
    RemoveDir(RemoveDirOp),
    CreateDir(CreateDirOp),
    Copy(CopyOp),
    Walk(WalkOp),
    RemoveTree(RemoveTreeOp),
    Rename(RenameOp),
    Open(OpenOp),
}

/// An operation as plain values.
pub enum OpView {
    Metadata(MetadataOpView),
    ReadDir(ReadDirOpView),
    RemoveFile(RemoveFileOpView),
    RemoveDir(RemoveDirOpView),
    CreateDir(CreateDirOpView),
    Copy(CopyOpView),
    Walk(WalkOpView),
    RemoveTree(RemoveTreeOpView),
    Rename(RenameOpView),
    Open(OpenOpView),
}

impl View for MetadataOp {
    type V = MetadataOpView;

    open spec fn view(&self) -> MetadataOpView {
        MetadataOpView { path: self.path@, stage: self.stage }
    }
}

impl View for ReadDirOp {
    type V = ReadDirOpView;

    open spec fn view(&self) -> ReadDirOpView {
        ReadDirOpView {
            path: self.path@,
            stage: self.stage,
            targets: paths_view(self.targets@),
            index: self.index as nat,
            entries: entries_view(self.entries@),
        }
    }
}

impl View for RemoveFileOp {
    type V = RemoveFileOpView;

    open spec fn view(&self) -> RemoveFileOpView {
        RemoveFileOpView { path: self.path@, dir_check: self.dir_check, stage: self.stage }
    }
}

impl View for RemoveDirOp {
    type V = RemoveDirOpView;

    open spec fn view(&self) -> RemoveDirOpView {
        RemoveDirOpView { path: self.path@, stage: self.stage }
    }
}

impl View for CreateDirOp {
    type V = CreateDirOpView;

    open spec fn view(&self) -> CreateDirOpView {
        CreateDirOpView { path: self.path@, stage: self.stage }
    }
}

impl View for CopyOp {
    type V = CopyOpView;

    open spec fn view(&self) -> CopyOpView {
        CopyOpView { from: self.from@, to: self.to@, stage: self.stage }
    }
}

impl View for WalkOp {
    type V = WalkOpView;

    open spec fn view(&self) -> WalkOpView {
        WalkOpView { tree: self.tree@, index: self.index as nat, stage: self.stage }
    }
}

impl View for RemoveTreeOp {
    type V = RemoveTreeOpView;

    open spec fn view(&self) -> RemoveTreeOpView {
        RemoveTreeOpView {
            path: self.path@,
            tree: self.tree@,
            index: self.index as nat,
            stage: self.stage,
        }
    }
}

impl View for RenameOp {
    type V = RenameOpView;

    open spec fn view(&self) -> RenameOpView {
        RenameOpView {
            from: self.from@,
            to: self.to@,
            tree: self.tree@,
            index: self.index as nat,
            stage: self.stage,
        }
    }
}

impl View for OpenOp {
    type V = OpenOpView;

    open spec fn view(&self) -> OpenOpView {
        OpenOpView {
            path: self.path@,
            options: self.options,
            metadata: opt_meta_view(self.metadata),
            stage: self.stage,
        }
    }
}

impl View for Op {
    type V = OpView;

    open spec fn view(&self) -> OpView {
        match *self {
            Op::Metadata(o) => OpView::Metadata(o@),
            Op::ReadDir(o) => OpView::ReadDir(o@),
            Op::RemoveFile(o) => OpView::RemoveFile(o@),
            Op::RemoveDir(o) => OpView::RemoveDir(o@),
            Op::CreateDir(o) => OpView::CreateDir(o@),
            Op::Copy(o) => OpView::Copy(o@),
            Op::Walk(o) => OpView::Walk(o@),
            Op::RemoveTree(o) => OpView::RemoveTree(o@),
            Op::Rename(o) => OpView::Rename(o@),
            Op::Open(o) => OpView::Open(o@),
        }
    }
}

/// What an operation asks for next.
#[derive(Debug)]
pub enum Step {
    /// Send the request, and resume the operation with the reply.
    Send(Op, Request),
    /// Run the second operation to its end, and resume the first with its
    /// outcome.
    Call(Op, Op),
    /// The operation has ended.
    Done(Outcome),
}

/// A step as plain values.
pub enum StepView {
    Send(OpView, RequestView),
    Call(OpView, OpView),
    Done(OutcomeView),
}

impl View for Step {
    type V = StepView;

    open spec fn view(&self) -> StepView {
        match *self {
            Step::Send(o, r) => StepView::Send(o@, r@),
            Step::Call(p, c) => StepView::Call(p@, c@),
            Step::Done(o) => StepView::Done(o@),
        }
    }
}

// ---------------------------------------------------------------------
// What each operation does
// ---------------------------------------------------------------------
/// The root of the bucket, which exists without an object of its own.
pub open spec fn is_bucket_root(p: Seq<char>) -> bool {
    starts_with_char(p, '/') && ends_with_char(p, '/')
}

/// The key of the object that marks the collection `p`.
pub open spec fn sentinel_key(p: Seq<char>) -> Seq<char> {
    join_file_spec(p, dot_dir())
}

/// The length a head reply tells; zero where it tells none.
pub open spec fn head_len(h: HeadView) -> u64 {
    match h.content_length {
        Some(n) => if n >= 0 {
            n as u64
        } else {
            0
        },
        None => 0,
    }
}

/// The record of `path` made from a head reply.
pub open spec fn meta_from_head(path: Seq<char>, is_dir: bool, h: HeadView, now: UnixTime) -> MetaView {
    meta_of_head(
        head_len(h),
        path,
        is_dir,
        h.e_tag,
        date_seconds(h.last_modified),
        now,
    )
}

/// The record of the root of the bucket.
pub open spec fn root_meta(now: UnixTime) -> MetaView {
    meta_of_head(0, Seq::empty(), true, None, None, now)
}

pub open spec fn new_metadata_op(path: Seq<char>) -> OpView {
    OpView::Metadata(MetadataOpView { path, stage: ProbeStage::Start })
}

pub open spec fn new_read_dir_op(path: Seq<char>) -> OpView {
    OpView::ReadDir(
        ReadDirOpView {
            path,
            stage: ReadDirStage::Start,
            targets: Seq::empty(),
            index: 0,
            entries: Seq::empty(),
        },
    )
}

pub open spec fn new_remove_file_op(path: Seq<char>, dir_check: bool) -> OpView {
    OpView::RemoveFile(RemoveFileOpView { path, dir_check, stage: RemoveFileStage::Start })
}

pub open spec fn new_remove_dir_op(path: Seq<char>) -> OpView {
    OpView::RemoveDir(RemoveDirOpView { path, stage: RemoveDirStage::Start })
}

pub open spec fn new_create_dir_op(path: Seq<char>) -> OpView {
    OpView::CreateDir(CreateDirOpView { path, stage: CreateDirStage::Start })
}

pub open spec fn new_copy_op(from: Seq<char>, to: Seq<char>) -> OpView {
    OpView::Copy(CopyOpView { from, to, stage: CopyStage::Start })
}

pub open spec fn empty_tree() -> TreeView {
    TreeView { dirs: Seq::empty(), files: Seq::empty() }
}

pub open spec fn new_walk_op(from: Seq<char>, to: Seq<char>) -> OpView {
    OpView::Walk(
        WalkOpView {
            tree: TreeView { dirs: seq![(from, to)], files: Seq::empty() },
            index: 0,
            stage: WalkStage::Start,
        },
    )
}

pub open spec fn new_remove_tree_op(path: Seq<char>) -> OpView {
    OpView::RemoveTree(
        RemoveTreeOpView { path, tree: empty_tree(), index: 0, stage: RemoveTreeStage::Start },
    )
}

pub open spec fn new_rename_op(from: Seq<char>, to: Seq<char>) -> OpView {
    OpView::Rename(
        RenameOpView { from, to, tree: empty_tree(), index: 0, stage: RenameStage::Start },
    )
}

pub open spec fn new_open_op(path: Seq<char>, options: OpenOptions) -> OpView {
    OpView::Open(OpenOpView { path, options, metadata: None, stage: OpenStage::Start })
}

/// One step of the probe of a path.
///
/// The root of the bucket is a collection. Elsewhere the object that
/// marks a collection is asked for first, so that a collection wins where
/// both objects exist, then the object of the resource. Where neither is
/// there, nothing is found.
pub open spec fn metadata_step(op: MetadataOpView, ev: EventView, now: UnixTime) -> StepView {
    let failed = StepView::Done(OutcomeView::Meta(Err(FsError::GeneralFailure)));
    match op.stage {
        ProbeStage::Start => match ev {
            EventView::Start => if is_bucket_root(op.path) {
                StepView::Done(OutcomeView::Meta(Ok(root_meta(now))))
            } else {
                StepView::Send(
                    OpView::Metadata(MetadataOpView { stage: ProbeStage::Sentinel, ..op }),
                    RequestView::HeadObject { key: sentinel_key(op.path) },
                )
            },
            _ => failed,
        },
        ProbeStage::Sentinel => match ev {
            EventView::Reply(ReplyView::Head { code, head }) => if code == 200 {
                StepView::Done(OutcomeView::Meta(Ok(meta_from_head(op.path, true, head, now))))
            } else {
                StepView::Send(
                    OpView::Metadata(MetadataOpView { stage: ProbeStage::Resource, ..op }),
                    RequestView::HeadObject { key: op.path },
                )
            },
            _ => failed,
        },
        ProbeStage::Resource => match ev {
            EventView::Reply(ReplyView::Head { code, head }) => if code == 200 {
                StepView::Done(OutcomeView::Meta(Ok(meta_from_head(op.path, false, head, now))))
            } else {
                StepView::Done(OutcomeView::Meta(Err(FsError::NotFound)))
            },
            _ => failed,
        },
    }
}

/// The paths of the prefixes of a page.
pub open spec fn prefix_targets(prefixes: Seq<Seq<char>>) -> Seq<Seq<char>>
    decreases prefixes.len(),
{
    if prefixes.len() == 0 {
        Seq::empty()
    } else {
        prefix_targets(prefixes.drop_last()).push(normalize(prefixes.last()))
    }
}

/// The paths of the keys of a page, but those of the objects that mark
/// collections.
pub open spec fn key_targets(keys: Seq<Seq<char>>) -> Seq<Seq<char>>
    decreases keys.len(),
{
    if keys.len() == 0 {
        Seq::empty()
    } else {
        let path = normalize(keys.last());
        if dot_dir().is_suffix_of(path) {
            key_targets(keys.drop_last())
        } else {
            key_targets(keys.drop_last()).push(path)
        }
    }
}

/// What one page of a listing asks to be probed: its prefixes, then its
/// keys but those of the objects that mark collections.
pub open spec fn page_targets(page: ListPageView) -> Seq<Seq<char>> {
    prefix_targets(page.common_prefixes) + key_targets(page.keys)
}

/// What a listing asks to be probed, page after page.
pub open spec fn listing_targets(pages: Seq<ListPageView>) -> Seq<Seq<char>>
    decreases pages.len(),
{
    if pages.len() == 0 {
        Seq::empty()
    } else {
        listing_targets(pages.drop_last()) + page_targets(pages.last())
    }
}

/// The prefix to list for a collection: nothing for the root.
pub open spec fn list_prefix(path: Seq<char>) -> Seq<char> {
    if path == root() {
        Seq::empty()
    } else {
        path
    }
}

/// Probes the next target of a listing, or ends with the entries.
pub open spec fn read_dir_next(op: ReadDirOpView) -> StepView {
    if op.index < op.targets.len() {
        StepView::Call(
            OpView::ReadDir(ReadDirOpView { stage: ReadDirStage::Each, ..op }),
            new_metadata_op(op.targets[op.index as int]),
        )
    } else {
        StepView::Done(OutcomeView::Entries(Ok(op.entries)))
    }
}

/// One step of the listing of a collection.
///
/// The path must name a collection. The store lists what lies directly
/// below it; each prefix and each key is probed, and what is found becomes
/// an entry named by what follows the path. What cannot be probed is left
/// out.
pub open spec fn read_dir_step(op: ReadDirOpView, ev: EventView, now: UnixTime) -> StepView {
    let failed = StepView::Done(OutcomeView::Entries(Err(FsError::GeneralFailure)));
    match op.stage {
        ReadDirStage::Start => match ev {
            EventView::Start => StepView::Call(
                OpView::ReadDir(ReadDirOpView { stage: ReadDirStage::Probe, ..op }),
                new_metadata_op(op.path),
            ),
            _ => failed,
        },
        ReadDirStage::Probe => match ev {
            EventView::Returned(OutcomeView::Meta(Err(e))) => StepView::Done(
                OutcomeView::Entries(Err(e)),
            ),
            EventView::Returned(OutcomeView::Meta(Ok(m))) => if !m.is_dir {
                StepView::Done(OutcomeView::Entries(Err(FsError::Forbidden)))
            } else {
                StepView::Send(
                    OpView::ReadDir(ReadDirOpView { stage: ReadDirStage::List, ..op }),
                    RequestView::List { prefix: list_prefix(op.path), delimiter: root() },
                )
            },
            _ => failed,
        },
        ReadDirStage::List => match ev {
            EventView::Reply(ReplyView::Listing { pages }) => read_dir_next(
                ReadDirOpView {
                    targets: listing_targets(pages),
                    index: 0,
                    entries: Seq::empty(),
                    ..op
                },
            ),
            _ => failed,
        },
        ReadDirStage::Each => match ev {
            EventView::Returned(OutcomeView::Meta(r)) => if op.index < op.targets.len() {
                let entries = match r {
                    Ok(m) => op.entries.push(
                        EntryView {
                            metadata: m,
                            name: strip_prefix_spec(op.targets[op.index as int], op.path),
                        },
                    ),
                    Err(_) => op.entries,
                };
                read_dir_next(ReadDirOpView { index: op.index + 1, entries, ..op })
            } else {
                failed
            },
            _ => failed,
        },
    }
}

/// One step of the removal of a resource.
///
/// The path must name something, and with `dir_check` no collection. The
/// store must answer the deletion with 204.
pub open spec fn remove_file_step(op: RemoveFileOpView, ev: EventView, now: UnixTime) -> StepView {
    let failed = StepView::Done(OutcomeView::Unit(Err(FsError::GeneralFailure)));
    match op.stage {
        RemoveFileStage::Start => match ev {
            EventView::Start => StepView::Call(
                OpView::RemoveFile(RemoveFileOpView { stage: RemoveFileStage::Probe, ..op }),
                new_metadata_op(op.path),
            ),
            _ => failed,
        },
        RemoveFileStage::Probe => match ev {
            EventView::Returned(OutcomeView::Meta(Err(e))) => StepView::Done(
                OutcomeView::Unit(Err(e)),
            ),
            EventView::Returned(OutcomeView::Meta(Ok(m))) => if m.is_dir && op.dir_check {
                StepView::Done(OutcomeView::Unit(Err(FsError::Forbidden)))
            } else {
                StepView::Send(
                    OpView::RemoveFile(RemoveFileOpView { stage: RemoveFileStage::Delete, ..op }),
                    RequestView::DeleteObject { key: op.path },
                )
            },
            _ => failed,
        },
        RemoveFileStage::Delete => match ev {
            EventView::Reply(ReplyView::Status { code }) => if code == 204 {
                StepView::Done(OutcomeView::Unit(Ok(())))
            } else {
                failed
            },
            _ => failed,
        },
    }
}

/// One step of the removal of a collection.
///
/// The path must name a collection. Only the object that marks it is
/// deleted: what lies below stays.
pub open spec fn remove_dir_step(op: RemoveDirOpView, ev: EventView, now: UnixTime) -> StepView {
    let failed = StepView::Done(OutcomeView::Unit(Err(FsError::GeneralFailure)));
    match op.stage {
        RemoveDirStage::Start => match ev {
            EventView::Start => StepView::Call(
                OpView::RemoveDir(RemoveDirOpView { stage: RemoveDirStage::Probe, ..op }),
                new_metadata_op(op.path),
            ),
            _ => failed,
        },
        RemoveDirStage::Probe => match ev {
            EventView::Returned(OutcomeView::Meta(Err(e))) => StepView::Done(
                OutcomeView::Unit(Err(e)),
            ),
            EventView::Returned(OutcomeView::Meta(Ok(m))) => if !m.is_dir {
                StepView::Done(OutcomeView::Unit(Err(FsError::Forbidden)))
            } else {
                StepView::Call(
                    OpView::RemoveDir(RemoveDirOpView { stage: RemoveDirStage::Sentinel, ..op }),
                    new_remove_file_op(sentinel_key(op.path), false),
                )
            },
            _ => failed,
        },
        RemoveDirStage::Sentinel => match ev {
            EventView::Returned(OutcomeView::Unit(r)) => StepView::Done(OutcomeView::Unit(r)),
            _ => failed,
        },
    }
}

/// The path above the collection `p`, in the form of a resource, so
/// that its probe tells a collection from a resource of the same name.
pub open spec fn path_above(p: Seq<char>) -> Seq<char> {
    as_file_spec(dirs_parent_spec(sentinel_key(p)))
}

/// One step of the creation of a collection.
///
/// The root of the bucket is there already. A collection that exists is
/// not created again. The path above must name a collection: where it
/// names nothing, nothing is found, and where it names a resource the
/// creation is forbidden. Then an empty object marks the new collection.
pub open spec fn create_dir_step(op: CreateDirOpView, ev: EventView, now: UnixTime) -> StepView {
    let failed = StepView::Done(OutcomeView::Unit(Err(FsError::GeneralFailure)));
    match op.stage {
        CreateDirStage::Start => match ev {
            EventView::Start => if is_bucket_root(op.path) {
                StepView::Done(OutcomeView::Unit(Ok(())))
            } else {
                StepView::Call(
                    OpView::CreateDir(CreateDirOpView { stage: CreateDirStage::Probe, ..op }),
                    new_metadata_op(op.path),
                )
            },
            _ => failed,
        },
        CreateDirStage::Probe => match ev {
            EventView::Returned(OutcomeView::Meta(r)) => if r is Ok && r->Ok_0.is_dir {
                StepView::Done(OutcomeView::Unit(Err(FsError::Exists)))
            } else {
                StepView::Call(
                    OpView::CreateDir(CreateDirOpView { stage: CreateDirStage::Parent, ..op }),
                    new_metadata_op(path_above(op.path)),
                )
            },
            _ => failed,
        },
        CreateDirStage::Parent => match ev {
            EventView::Returned(OutcomeView::Meta(Err(e))) => StepView::Done(
                OutcomeView::Unit(Err(e)),
            ),
            EventView::Returned(OutcomeView::Meta(Ok(m))) => if !m.is_dir {
                StepView::Done(OutcomeView::Unit(Err(FsError::Forbidden)))
            } else {
                StepView::Send(
                    OpView::CreateDir(CreateDirOpView { stage: CreateDirStage::Put, ..op }),
                    RequestView::PutObject { key: sentinel_key(op.path), body: Seq::empty() },
                )
            },
            _ => failed,
        },
        CreateDirStage::Put => match ev {
            EventView::Reply(ReplyView::Status { code }) => if code == 200 {
                StepView::Done(OutcomeView::Unit(Ok(())))
            } else {
                failed
            },
            _ => failed,
        },
    }
}

/// The source key of a copy: a collection is copied by the object that
/// marks it.
pub open spec fn copy_source(from: Seq<char>, to: Seq<char>) -> Seq<char> {
    if ends_with_char(from, '/') && ends_with_char(copy_target_form(from, to), '/') {
        sentinel_key(from)
    } else {
        from
    }
}

/// Where a copy goes before keys are made: a resource copied onto a
/// collection takes the collection's name as a resource.
pub open spec fn copy_target_form(from: Seq<char>, to: Seq<char>) -> Seq<char> {
    if !ends_with_char(from, '/') && ends_with_char(to, '/') {
        as_file_spec(to)
    } else {
        to
    }
}

/// The destination key of a copy.
pub open spec fn copy_target(from: Seq<char>, to: Seq<char>) -> Seq<char> {
    let to = copy_target_form(from, to);
    if ends_with_char(from, '/') && ends_with_char(to, '/') {
        sentinel_key(to)
    } else {
        to
    }
}

/// One step of a copy.
///
/// The keys are made first. Where the collection above the destination
/// is missing it is created. Then the store copies; it must answer 200.
pub open spec fn copy_step(op: CopyOpView, ev: EventView, now: UnixTime) -> StepView {
    let failed = StepView::Done(OutcomeView::Unit(Err(FsError::GeneralFailure)));
    let send = StepView::Send(
        OpView::Copy(CopyOpView { stage: CopyStage::Copy, ..op }),
        RequestView::CopyObject { from: op.from, to: op.to },
    );
    match op.stage {
        CopyStage::Start => match ev {
            EventView::Start => {
                let from = copy_source(op.from, op.to);
                let to = copy_target(op.from, op.to);
                StepView::Call(
                    OpView::Copy(CopyOpView { from, to, stage: CopyStage::Parent }),
                    new_metadata_op(parent_spec(to)),
                )
            },
            _ => failed,
        },
        CopyStage::Parent => match ev {
            EventView::Returned(OutcomeView::Meta(Err(_))) => StepView::Call(
                OpView::Copy(CopyOpView { stage: CopyStage::MakeParent, ..op }),
                new_create_dir_op(parent_spec(op.to)),
            ),
            EventView::Returned(OutcomeView::Meta(Ok(_))) => send,
            _ => failed,
        },
        CopyStage::MakeParent => match ev {
            EventView::Returned(OutcomeView::Unit(Err(e))) => StepView::Done(
                OutcomeView::Unit(Err(e)),
            ),
            EventView::Returned(OutcomeView::Unit(Ok(_))) => send,
            _ => failed,
        },
        CopyStage::Copy => match ev {
            EventView::Reply(ReplyView::Status { code }) => if code == 200 {
                StepView::Done(OutcomeView::Unit(Ok(())))
            } else {
                failed
            },
            _ => failed,
        },
    }
}

/// The tree with the entries of the collection `src`, mirrored at `dst`,
/// added to it: collections to `dirs`, resources to `files`.
pub open spec fn walk_add(tree: TreeView, src: Seq<char>, dst: Seq<char>, entries: Seq<EntryView>) -> TreeView
    decreases entries.len(),
{
    if entries.len() == 0 {
        tree
    } else {
        let t = walk_add(tree, src, dst, entries.drop_last());
        let e = entries.last();
        let name = normalize(e.name);
        if e.metadata.is_dir {
            TreeView { dirs: t.dirs.push((join_dir_spec(src, name), join_dir_spec(dst, name))), ..t }
        } else {
            TreeView {
                files: t.files.push((join_file_spec(src, name), join_file_spec(dst, name))),
                ..t
            }
        }
    }
}

/// Lists the next collection of a walk, or ends with the tree.
pub open spec fn walk_next(op: WalkOpView) -> StepView {
    if op.index < op.tree.dirs.len() {
        StepView::Call(
            OpView::Walk(WalkOpView { stage: WalkStage::List, ..op }),
            new_read_dir_op(op.tree.dirs[op.index as int].0),
        )
    } else {
        StepView::Done(OutcomeView::Tree(Ok(op.tree)))
    }
}

/// One step of a walk.
///
/// The collections are listed in the order in which they were found, so
/// that each comes before those below it. A listing that fails ends the
/// walk.
pub open spec fn walk_step(op: WalkOpView, ev: EventView, now: UnixTime) -> StepView {
    let failed = StepView::Done(OutcomeView::Tree(Err(FsError::GeneralFailure)));
    match op.stage {
        WalkStage::Start => match ev {
            EventView::Start => walk_next(op),
            _ => failed,
        },
        WalkStage::List => match ev {
            EventView::Returned(OutcomeView::Entries(Err(e))) => StepView::Done(
                OutcomeView::Tree(Err(e)),
            ),
            EventView::Returned(OutcomeView::Entries(Ok(entries))) => if op.index
                < op.tree.dirs.len() {
                let (src, dst) = op.tree.dirs[op.index as int];
                walk_next(
                    WalkOpView {
                        tree: walk_add(op.tree, src, dst, entries),
                        index: op.index + 1,
                        ..op
                    },
                )
            } else {
                failed
            },
            _ => failed,
        },
    }
}

/// Removes the next resource of a tree, then its collections.
pub open spec fn remove_tree_next_file(op: RemoveTreeOpView) -> StepView {
    if op.index < op.tree.files.len() {
        StepView::Call(
            OpView::RemoveTree(RemoveTreeOpView { stage: RemoveTreeStage::Files, ..op }),
            new_remove_file_op(op.tree.files[op.index as int].0, true),
        )
    } else {
        remove_tree_next_dir(
            RemoveTreeOpView { index: op.tree.dirs.len(), stage: RemoveTreeStage::Dirs, ..op },
        )
    }
}

/// Removes the last collection of a tree that is still there.
pub open spec fn remove_tree_next_dir(op: RemoveTreeOpView) -> StepView {
    if 0 < op.index <= op.tree.dirs.len() {
        StepView::Call(
            OpView::RemoveTree(RemoveTreeOpView { stage: RemoveTreeStage::Dirs, ..op }),
            new_remove_dir_op(op.tree.dirs[op.index - 1].0),
        )
    } else {
        StepView::Done(OutcomeView::Unit(Ok(())))
    }
}

/// One step of the removal of a collection with all below it.
///
/// The collection is walked; its resources are removed in the order in
/// which they were found, then its collections from the last found to the
/// first. The first failure ends the removal.
pub open spec fn remove_tree_step(op: RemoveTreeOpView, ev: EventView, now: UnixTime) -> StepView {
    let failed = StepView::Done(OutcomeView::Unit(Err(FsError::GeneralFailure)));
    match op.stage {
        RemoveTreeStage::Start => match ev {
            EventView::Start => StepView::Call(
                OpView::RemoveTree(RemoveTreeOpView { stage: RemoveTreeStage::Walk, ..op }),
                new_walk_op(op.path, op.path),
            ),
            _ => failed,
        },
        RemoveTreeStage::Walk => match ev {
            EventView::Returned(OutcomeView::Tree(Err(e))) => StepView::Done(
                OutcomeView::Unit(Err(e)),
            ),
            EventView::Returned(OutcomeView::Tree(Ok(tree))) => remove_tree_next_file(
                RemoveTreeOpView { tree, index: 0, ..op },
            ),
            _ => failed,
        },
        RemoveTreeStage::Files => match ev {
            EventView::Returned(OutcomeView::Unit(Err(e))) => StepView::Done(
                OutcomeView::Unit(Err(e)),
            ),
            EventView::Returned(OutcomeView::Unit(Ok(_))) => if op.index < op.tree.files.len() {
                remove_tree_next_file(RemoveTreeOpView { index: op.index + 1, ..op })
            } else {
                failed
            },
            _ => failed,
        },
        RemoveTreeStage::Dirs => match ev {
            EventView::Returned(OutcomeView::Unit(Err(e))) => StepView::Done(
                OutcomeView::Unit(Err(e)),
            ),
            EventView::Returned(OutcomeView::Unit(Ok(_))) => if op.index > 0 {
                remove_tree_next_dir(RemoveTreeOpView { index: (op.index - 1) as nat, ..op })
            } else {
                failed
            },
            _ => failed,
        },
    }
}

/// The move proper, once a resource is not moved onto a collection any
/// more: a resource is copied and removed; a collection is walked, after
/// a resource in its way was removed.
pub open spec fn rename_begin(op: RenameOpView) -> StepView {
    if !ends_with_char(op.from, '/') && !ends_with_char(op.to, '/') {
        StepView::Call(
            OpView::Rename(RenameOpView { stage: RenameStage::FileCopy, ..op }),
            new_copy_op(op.from, op.to),
        )
    } else if ends_with_char(op.from, '/') && !ends_with_char(op.to, '/') {
        StepView::Call(
            OpView::Rename(RenameOpView { stage: RenameStage::TargetFileRemove, ..op }),
            new_remove_file_op(op.to, true),
        )
    } else {
        StepView::Call(
            OpView::Rename(RenameOpView { stage: RenameStage::Walk, ..op }),
            new_walk_op(op.from, op.to),
        )
    }
}

/// Creates the next collection at the destination, then moves the files.
pub open spec fn rename_next_create(op: RenameOpView) -> StepView {
    if op.index < op.tree.dirs.len() {
        StepView::Call(
            OpView::Rename(RenameOpView { stage: RenameStage::Create, ..op }),
            new_create_dir_op(op.tree.dirs[op.index as int].1),
        )
    } else {
        rename_next_copy(RenameOpView { index: 0, ..op })
    }
}

/// Copies the next resource to the destination, then drops the source
/// collections.
pub open spec fn rename_next_copy(op: RenameOpView) -> StepView {
    if op.index < op.tree.files.len() {
        StepView::Call(
            OpView::Rename(RenameOpView { stage: RenameStage::Copy, ..op }),
            new_copy_op(op.tree.files[op.index as int].0, op.tree.files[op.index as int].1),
        )
    } else {
        rename_next_drop(RenameOpView { index: op.tree.dirs.len(), ..op })
    }
}

/// Removes the last source collection that is still there.
pub open spec fn rename_next_drop(op: RenameOpView) -> StepView {
    if 0 < op.index <= op.tree.dirs.len() {
        StepView::Call(
            OpView::Rename(RenameOpView { stage: RenameStage::Drop, ..op }),
            new_remove_dir_op(op.tree.dirs[op.index - 1].0),
        )
    } else {
        StepView::Done(OutcomeView::Unit(Ok(())))
    }
}

/// One step of a move.
///
/// A resource moved onto a collection first removes what is there, with
/// all below it, and takes its place as a resource. A resource is then
/// copied and its source removed. A collection moved onto a resource
/// removes that resource; then the source is walked, every collection
/// found is created at the mirrored place, every resource is copied and
/// removed, and the source collections are removed from the last found to
/// the first. The first failure ends the move; nothing is undone.
pub open spec fn rename_step(op: RenameOpView, ev: EventView, now: UnixTime) -> StepView {
    let failed = StepView::Done(OutcomeView::Unit(Err(FsError::GeneralFailure)));
    match op.stage {
        RenameStage::Start => match ev {
            EventView::Start => if !ends_with_char(op.from, '/') && ends_with_char(op.to, '/') {
                StepView::Call(
                    OpView::Rename(RenameOpView { stage: RenameStage::TargetProbe, ..op }),
                    new_metadata_op(op.to),
                )
            } else {
                rename_begin(op)
            },
            _ => failed,
        },
        RenameStage::TargetProbe => match ev {
            EventView::Returned(OutcomeView::Meta(Ok(_))) => StepView::Call(
                OpView::Rename(RenameOpView { stage: RenameStage::TargetRemove, ..op }),
                new_remove_tree_op(op.to),
            ),
            EventView::Returned(OutcomeView::Meta(Err(_))) => rename_begin(
                RenameOpView { to: as_file_spec(op.to), ..op },
            ),
            _ => failed,
        },
        RenameStage::TargetRemove => match ev {
            EventView::Returned(OutcomeView::Unit(Err(e))) => StepView::Done(
                OutcomeView::Unit(Err(e)),
            ),
            EventView::Returned(OutcomeView::Unit(Ok(_))) => rename_begin(
                RenameOpView { to: as_file_spec(op.to), ..op },
            ),
            _ => failed,
        },
        RenameStage::FileCopy => match ev {
            EventView::Returned(OutcomeView::Unit(Err(e))) => StepView::Done(
                OutcomeView::Unit(Err(e)),
            ),
            EventView::Returned(OutcomeView::Unit(Ok(_))) => StepView::Call(
                OpView::Rename(RenameOpView { stage: RenameStage::FileRemove, ..op }),
                new_remove_file_op(op.from, true),
            ),
            _ => failed,
        },
        RenameStage::FileRemove => match ev {
            EventView::Returned(OutcomeView::Unit(r)) => StepView::Done(OutcomeView::Unit(r)),
            _ => failed,
        },
        RenameStage::TargetFileRemove => match ev {
            EventView::Returned(OutcomeView::Unit(_)) => StepView::Call(
                OpView::Rename(
                    RenameOpView { to: as_dir_spec(op.to), stage: RenameStage::Walk, ..op },
                ),
                new_walk_op(op.from, as_dir_spec(op.to)),
            ),
            _ => failed,
        },
        RenameStage::Walk => match ev {
            EventView::Returned(OutcomeView::Tree(Err(e))) => StepView::Done(
                OutcomeView::Unit(Err(e)),
            ),
            EventView::Returned(OutcomeView::Tree(Ok(tree))) => rename_next_create(
                RenameOpView { tree, index: 0, ..op },
            ),
            _ => failed,
        },
        RenameStage::Create => match ev {
            EventView::Returned(OutcomeView::Unit(Err(e))) => StepView::Done(
                OutcomeView::Unit(Err(e)),
            ),
            EventView::Returned(OutcomeView::Unit(Ok(_))) => if op.index < op.tree.dirs.len() {
                rename_next_create(RenameOpView { index: op.index + 1, ..op })
            } else {
                failed
            },
            _ => failed,
        },
        RenameStage::Copy => match ev {
            EventView::Returned(OutcomeView::Unit(Err(e))) => StepView::Done(
                OutcomeView::Unit(Err(e)),
            ),
            EventView::Returned(OutcomeView::Unit(Ok(_))) => if op.index < op.tree.files.len() {
                StepView::Call(
                    OpView::Rename(RenameOpView { stage: RenameStage::Remove, ..op }),
                    new_remove_file_op(op.tree.files[op.index as int].0, true),
                )
            } else {
                failed
            },
            _ => failed,
        },
        RenameStage::Remove => match ev {
            EventView::Returned(OutcomeView::Unit(Err(e))) => StepView::Done(
                OutcomeView::Unit(Err(e)),
            ),
            EventView::Returned(OutcomeView::Unit(Ok(_))) => if op.index < op.tree.files.len() {
                rename_next_copy(RenameOpView { index: op.index + 1, ..op })
            } else {
                failed
            },
            _ => failed,
        },
        RenameStage::Drop => match ev {
            EventView::Returned(OutcomeView::Unit(Err(e))) => StepView::Done(
                OutcomeView::Unit(Err(e)),
            ),
            EventView::Returned(OutcomeView::Unit(Ok(_))) => if op.index > 0 {
                rename_next_drop(RenameOpView { index: (op.index - 1) as nat, ..op })
            } else {
                failed
            },
            _ => failed,
        },
    }
}

/// Once the object's record is known: a file to create is written in
/// parts, and the store is asked to start the upload; any other file is
/// held in memory with the bytes `data`.
pub open spec fn open_finish(op: OpenOpView, metadata: MetaView, data: Seq<u8>) -> StepView {
    if op.options.create {
        StepView::Send(
            OpView::Open(
                OpenOpView { metadata: Some(metadata), stage: OpenStage::Initiate, ..op },
            ),
            RequestView::CreateMultipartUpload { key: op.path },
        )
    } else {
        StepView::Done(
            OutcomeView::File(
                Ok(FileView::Simple(simple_opened(metadata, data, op.options, op.path))),
            ),
        )
    }
}

/// One step of opening a resource.
///
/// Options that contradict each other open nothing. A collection cannot
/// be opened; a resource that is there cannot be created anew; one that
/// is not there is opened only to be created. The record is made from the
/// store's head reply. A file to read is fetched whole.
pub open spec fn open_step(op: OpenOpView, ev: EventView, now: UnixTime) -> StepView {
    let failed = StepView::Done(OutcomeView::File(Err(FsError::GeneralFailure)));
    let head = StepView::Send(
        OpView::Open(OpenOpView { stage: OpenStage::Head, ..op }),
        RequestView::HeadObject { key: op.path },
    );
    match op.stage {
        OpenStage::Start => match ev {
            EventView::Start => if !options_valid(op.options) {
                failed
            } else {
                StepView::Call(
                    OpView::Open(OpenOpView { stage: OpenStage::Probe, ..op }),
                    new_metadata_op(op.path),
                )
            },
            _ => failed,
        },
        OpenStage::Probe => match ev {
            EventView::Returned(OutcomeView::Meta(Ok(m))) => if m.is_dir {
                StepView::Done(OutcomeView::File(Err(FsError::Forbidden)))
            } else if op.options.create_new {
                StepView::Done(OutcomeView::File(Err(FsError::Exists)))
            } else {
                head
            },
            EventView::Returned(OutcomeView::Meta(Err(e))) => if e == FsError::NotFound {
                if op.options.create {
                    head
                } else {
                    StepView::Done(OutcomeView::File(Err(FsError::NotFound)))
                }
            } else {
                StepView::Done(OutcomeView::File(Err(e)))
            },
            _ => failed,
        },
        OpenStage::Head => match ev {
            EventView::Reply(ReplyView::Head { code, head }) => {
                let metadata = meta_from_head(op.path, false, head, now);
                if code == 200 && !op.options.create {
                    StepView::Send(
                        OpView::Open(
                            OpenOpView { metadata: Some(metadata), stage: OpenStage::Get, ..op },
                        ),
                        RequestView::GetObject { key: op.path },
                    )
                } else {
                    open_finish(op, metadata, Seq::empty())
                }
            },
            _ => failed,
        },
        OpenStage::Get => match ev {
            EventView::Reply(ReplyView::Body { code, data }) => if code == 200
                && op.metadata is Some {
                open_finish(op, op.metadata->Some_0, data)
            } else {
                failed
            },
            _ => failed,
        },
        OpenStage::Initiate => match ev {
            EventView::Reply(ReplyView::Initiated { code, upload_id }) => if code == 200
                && op.metadata is Some {
                StepView::Done(
                    OutcomeView::File(
                        Ok(
                            FileView::Multipart(
                                multipart_opened(
                                    op.metadata->Some_0,
                                    op.options,
                                    op.path,
                                    upload_id,
                                ),
                            ),
                        ),
                    ),
                )
            } else {
                failed
            },
            _ => failed,
        },
    }
}

/// One step of any operation.
#[verifier::opaque]
pub open spec fn op_step(op: OpView, ev: EventView, now: UnixTime) -> StepView {
    match op {
        OpView::Metadata(o) => metadata_step(o, ev, now),
        OpView::ReadDir(o) => read_dir_step(o, ev, now),
        OpView::RemoveFile(o) => remove_file_step(o, ev, now),
        OpView::RemoveDir(o) => remove_dir_step(o, ev, now),
        OpView::CreateDir(o) => create_dir_step(o, ev, now),
        OpView::Copy(o) => copy_step(o, ev, now),
        OpView::Walk(o) => walk_step(o, ev, now),
        OpView::RemoveTree(o) => remove_tree_step(o, ev, now),
        OpView::Rename(o) => rename_step(o, ev, now),
        OpView::Open(o) => open_step(o, ev, now),
    }
}

} // verus!
