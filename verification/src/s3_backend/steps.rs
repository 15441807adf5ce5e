//! The executable steps of the adapter's operations.
use crate::error::FsError;
use crate::normalized_path::{root, NormalizedPath};
use crate::s3_backend::entries::{entries_view, S3DirEntry};
use crate::s3_backend::filesystem::{
    copy_step, create_dir_step, empty_tree, is_bucket_root, key_targets, listing_targets,
    meta_from_head, metadata_step, new_copy_op, new_create_dir_op, new_metadata_op, new_open_op,
    new_read_dir_op, new_remove_dir_op, new_remove_file_op, new_remove_tree_op, new_rename_op,
    new_walk_op, op_step, open_finish, open_step, page_targets, path_pairs_view, paths_view,
    prefix_targets, read_dir_next, read_dir_step, remove_dir_step, remove_file_step,
    remove_tree_next_dir, remove_tree_next_file, remove_tree_step, rename_begin, rename_next_copy,
    rename_next_create, rename_next_drop, rename_step, sentinel_key, walk_add, walk_next, walk_step,
    CopyOp, CopyOpView, CopyStage, CreateDirOp, CreateDirStage, Event, MetadataOp, Op, OpView,
    OpenOp, OpenOpView, OpenStage, Outcome, ProbeStage, ReadDirOp, ReadDirStage, RemoveDirOp,
    RemoveDirStage, RemoveFileOp, RemoveFileStage, RemoveTreeOp, RemoveTreeStage, RenameOp,
    RenameStage, S3File, Step, StepView, Tree, TreeView, WalkOp, WalkStage,
};
use crate::s3_backend::metadata::{S3MetaData, UnixTime};
use crate::s3_backend::partial_open_file::PartialOpenFile;
use crate::s3_backend::protocol::{Reply, Request, RequestView};
use crate::s3_backend::simple_open_file::{OpenOptions, S3SimpleOpenFile};
use crate::serde_types::{pages_view, HeadObjectResult, ListBucketResult};
use crate::text::{chars_of, copy_opt_text, copy_text, dot_dir, dot_dir_chars, has_suffix};
use vstd::prelude::*;

verus! {

/// The key of the object that marks the collection `path`.
pub fn sentinel_of(path: &NormalizedPath) -> (r: NormalizedPath)
    ensures
        r@ == sentinel_key(path@),
{
    proof {
        reveal_strlit(".dir");
        assert(".dir"@ =~= dot_dir());
    }
    path.join_file(".dir")
}

/// The path as a key of the store.
pub fn key_of(path: &NormalizedPath) -> (r: String)
    ensures
        r@ == path@,
{
    copy_text(path.as_str())
}

/// Whether the path is the root of the bucket.
pub fn is_root_of_bucket(path: &NormalizedPath) -> (b: bool)
    ensures
        b == is_bucket_root(path@),
{
    let v = chars_of(path.as_str());
    v[0] == '/' && v[v.len() - 1] == '/'
}

/// The record of `path` made from a head reply.
pub fn meta_of(path: &NormalizedPath, is_dir: bool, head: &HeadObjectResult, now: UnixTime) -> (r:
    S3MetaData)
    ensures
        r@ == meta_from_head(path@, is_dir, head@, now),
{
    let len: u64 = match head.content_length {
        Some(n) => if n >= 0 {
            n as u64
        } else {
            0
        },
        None => 0,
    };
    S3MetaData::extract_from_tags(
        len,
        key_of(path),
        is_dir,
        copy_opt_text(&head.e_tag),
        copy_opt_text(&head.last_modified),
        now,
    )
}

/// The paths that a listing asks to be probed.
pub fn targets_of(pages: &Vec<ListBucketResult>) -> (r: Vec<NormalizedPath>)
    ensures
        paths_view(r@) == listing_targets(pages_view(pages@)),
{
    let mut r: Vec<NormalizedPath> = Vec::new();
    let ghost all = pages_view(pages@);
    let suffix = dot_dir_chars();
    let mut i: usize = 0;
    assert(all.take(0) =~= Seq::empty());
    assert(paths_view(r@) =~= Seq::<Seq<char>>::empty());
    while i < pages.len()
        invariant
            i <= pages.len(),
            all == pages_view(pages@),
            suffix@ == dot_dir(),
            paths_view(r@) == listing_targets(all.take(i as int)),
        decreases pages.len() - i,
    {
        let page = &pages[i];
        let ghost before = paths_view(r@);
        proof {
            assert(all.take(i + 1).drop_last() =~= all.take(i as int));
            assert(all.take(i + 1).last() == page@);
        }
        let ghost prefixes = page@.common_prefixes;
        let mut j: usize = 0;
        assert(prefixes.take(0) =~= Seq::empty());
        assert(before + prefix_targets(prefixes.take(0)) =~= before);
        while j < page.common_prefixes.len()
            invariant
                j <= page.common_prefixes.len(),
                prefixes == page@.common_prefixes,
                paths_view(r@) == before + prefix_targets(prefixes.take(j as int)),
            decreases page.common_prefixes.len() - j,
        {
            let p = NormalizedPath::from_text(page.common_prefixes[j].prefix.as_str());
            proof {
                assert(prefixes.take(j + 1).drop_last() =~= prefixes.take(j as int));
                assert(prefixes.take(j + 1).last() == page.common_prefixes[j as int].prefix@);
            }
            let ghost old_r = paths_view(r@);
            r.push(p);
            assert(paths_view(r@) =~= old_r.push(p@));
            assert(paths_view(r@) =~= before + prefix_targets(prefixes.take(j + 1)));
            j += 1;
        }
        assert(prefixes.take(prefixes.len() as int) =~= prefixes);
        let ghost mid = paths_view(r@);
        let ghost keys = page@.keys;
        let mut k: usize = 0;
        assert(keys.take(0) =~= Seq::empty());
        assert(mid + key_targets(keys.take(0)) =~= mid);
        while k < page.contents.len()
            invariant
                k <= page.contents.len(),
                keys == page@.keys,
                suffix@ == dot_dir(),
                paths_view(r@) == mid + key_targets(keys.take(k as int)),
            decreases page.contents.len() - k,
        {
            let p = NormalizedPath::from_text(page.contents[k].key.as_str());
            proof {
                assert(keys.take(k + 1).drop_last() =~= keys.take(k as int));
                assert(keys.take(k + 1).last() == page.contents[k as int].key@);
            }
            let chars = chars_of(p.as_str());
            if !has_suffix(&chars, &suffix) {
                let ghost old_r = paths_view(r@);
                r.push(p);
                assert(paths_view(r@) =~= old_r.push(p@));
                assert(paths_view(r@) =~= mid + key_targets(keys.take(k + 1)));
            }
            k += 1;
        }
        assert(keys.take(keys.len() as int) =~= keys);
        assert(paths_view(r@) =~= before + page_targets(page@));
        i += 1;
    }
    assert(all.take(all.len() as int) =~= all);
    r
}

impl MetadataOp {
    /// The probe of `path`, not yet begun.
    pub fn new(path: NormalizedPath) -> (r: Op)
        ensures
            r@ == new_metadata_op(path@),
    {
        Op::Metadata(MetadataOp { path, stage: ProbeStage::Start })
    }

    /// Takes the probe one step further.
    pub fn step(self, event: Event, now: UnixTime) -> (r: Step)
        ensures
            r@ == metadata_step(self@, event@, now),
    {
        match (self.stage, event) {
            (ProbeStage::Start, Event::Start) => {
                if is_root_of_bucket(&self.path) {
                    let m = S3MetaData::with_times(0, String::new(), true, None, None, now);
                    Step::Done(Outcome::Meta(Ok(m)))
                } else {
                    let key = sentinel_of(&self.path).into_string();
                    Step::Send(
                        Op::Metadata(MetadataOp { path: self.path, stage: ProbeStage::Sentinel }),
                        Request::HeadObject { key },
                    )
                }
            },
            (ProbeStage::Sentinel, Event::Reply(Reply::Head { code, head })) => {
                if code == 200 {
                    Step::Done(Outcome::Meta(Ok(meta_of(&self.path, true, &head, now))))
                } else {
                    let key = key_of(&self.path);
                    Step::Send(
                        Op::Metadata(MetadataOp { path: self.path, stage: ProbeStage::Resource }),
                        Request::HeadObject { key },
                    )
                }
            },
            (ProbeStage::Resource, Event::Reply(Reply::Head { code, head })) => {
                if code == 200 {
                    Step::Done(Outcome::Meta(Ok(meta_of(&self.path, false, &head, now))))
                } else {
                    Step::Done(Outcome::Meta(Err(FsError::NotFound)))
                }
            },
            _ => Step::Done(Outcome::Meta(Err(FsError::GeneralFailure))),
        }
    }
}

impl ReadDirOp {
    /// The listing of `path`, not yet begun.
    pub fn new(path: NormalizedPath) -> (r: Op)
        ensures
            r@ == new_read_dir_op(path@),
    {
        let op = ReadDirOp {
            path,
            stage: ReadDirStage::Start,
            targets: Vec::new(),
            index: 0,
            entries: Vec::new(),
        };
        assert(paths_view(op.targets@) =~= Seq::empty());
        assert(entries_view(op.entries@) =~= Seq::empty());
        Op::ReadDir(op)
    }

    fn next(self) -> (r: Step)
        ensures
            r@ == read_dir_next(self@),
    {
        if self.index < self.targets.len() {
            let target = self.targets[self.index].clone();
            Step::Call(
                Op::ReadDir(ReadDirOp { stage: ReadDirStage::Each, ..self }),
                MetadataOp::new(target),
            )
        } else {
            Step::Done(Outcome::Entries(Ok(self.entries)))
        }
    }

    /// Takes the listing one step further.
    pub fn step(self, event: Event, now: UnixTime) -> (r: Step)
        ensures
            r@ == read_dir_step(self@, event@, now),
    {
        match (self.stage, event) {
            (ReadDirStage::Start, Event::Start) => {
                let path = self.path.clone();
                Step::Call(
                    Op::ReadDir(ReadDirOp { stage: ReadDirStage::Probe, ..self }),
                    MetadataOp::new(path),
                )
            },
            (ReadDirStage::Probe, Event::Returned(Outcome::Meta(Err(e)))) => Step::Done(
                Outcome::Entries(Err(e)),
            ),
            (ReadDirStage::Probe, Event::Returned(Outcome::Meta(Ok(m)))) => {
                if !m.is_dir {
                    Step::Done(Outcome::Entries(Err(FsError::Forbidden)))
                } else {
                    let prefix = if self.path.is_root() {
                        String::new()
                    } else {
                        key_of(&self.path)
                    };
                    let mut delimiter = String::new();
                    delimiter.push('/');
                    assert(delimiter@ =~= root());
                    Step::Send(
                        Op::ReadDir(ReadDirOp { stage: ReadDirStage::List, ..self }),
                        Request::List { prefix, delimiter },
                    )
                }
            },
            (ReadDirStage::List, Event::Reply(Reply::Listing { pages })) => {
                let targets = targets_of(&pages);
                let op = ReadDirOp { targets, index: 0, entries: Vec::new(), ..self };
                assert(entries_view(op.entries@) =~= Seq::empty());
                op.next()
            },
            (ReadDirStage::Each, Event::Returned(Outcome::Meta(r))) => {
                if self.index < self.targets.len() {
                    let mut entries = self.entries;
                    let ghost before = entries_view(entries@);
                    match r {
                        Ok(m) => {
                            let name = self.targets[self.index].strip_prefix(
                                &self.path,
                            ).into_string();
                            let entry = S3DirEntry { metadata: m, name };
                            entries.push(entry);
                            assert(entries_view(entries@) =~= before.push(entry@));
                        },
                        Err(_) => {},
                    }
                    let op = ReadDirOp {
                        path: self.path,
                        stage: self.stage,
                        targets: self.targets,
                        index: self.index + 1,
                        entries,
                    };
                    op.next()
                } else {
                    Step::Done(Outcome::Entries(Err(FsError::GeneralFailure)))
                }
            },
            _ => Step::Done(Outcome::Entries(Err(FsError::GeneralFailure))),
        }
    }
}

impl RemoveFileOp {
    /// The removal of the resource `path`, not yet begun. With
    /// `dir_check`, a collection is not removed.
    pub fn new(path: NormalizedPath, dir_check: bool) -> (r: Op)
        ensures
            r@ == new_remove_file_op(path@, dir_check),
    {
        Op::RemoveFile(RemoveFileOp { path, dir_check, stage: RemoveFileStage::Start })
    }

    /// Takes the removal one step further.
    pub fn step(self, event: Event, now: UnixTime) -> (r: Step)
        ensures
            r@ == remove_file_step(self@, event@, now),
    {
        match (self.stage, event) {
            (RemoveFileStage::Start, Event::Start) => {
                let path = self.path.clone();
                Step::Call(
                    Op::RemoveFile(RemoveFileOp { stage: RemoveFileStage::Probe, ..self }),
                    MetadataOp::new(path),
                )
            },
            (RemoveFileStage::Probe, Event::Returned(Outcome::Meta(Err(e)))) => Step::Done(
                Outcome::Unit(Err(e)),
            ),
            (RemoveFileStage::Probe, Event::Returned(Outcome::Meta(Ok(m)))) => {
                if m.is_dir && self.dir_check {
                    Step::Done(Outcome::Unit(Err(FsError::Forbidden)))
                } else {
                    let key = key_of(&self.path);
                    Step::Send(
                        Op::RemoveFile(RemoveFileOp { stage: RemoveFileStage::Delete, ..self }),
                        Request::DeleteObject { key },
                    )
                }
            },
            (RemoveFileStage::Delete, Event::Reply(Reply::Status { code })) => {
                if code == 204 {
                    Step::Done(Outcome::Unit(Ok(())))
                } else {
                    Step::Done(Outcome::Unit(Err(FsError::GeneralFailure)))
                }
            },
            _ => Step::Done(Outcome::Unit(Err(FsError::GeneralFailure))),
        }
    }
}

impl RemoveDirOp {
    /// The removal of the collection `path`, not yet begun.
    pub fn new(path: NormalizedPath) -> (r: Op)
        ensures
            r@ == new_remove_dir_op(path@),
    {
        Op::RemoveDir(RemoveDirOp { path, stage: RemoveDirStage::Start })
    }

    /// Takes the removal one step further.
    pub fn step(self, event: Event, now: UnixTime) -> (r: Step)
        ensures
            r@ == remove_dir_step(self@, event@, now),
    {
        match (self.stage, event) {
            (RemoveDirStage::Start, Event::Start) => {
                let path = self.path.clone();
                Step::Call(
                    Op::RemoveDir(RemoveDirOp { stage: RemoveDirStage::Probe, ..self }),
                    MetadataOp::new(path),
                )
            },
            (RemoveDirStage::Probe, Event::Returned(Outcome::Meta(Err(e)))) => Step::Done(
                Outcome::Unit(Err(e)),
            ),
            (RemoveDirStage::Probe, Event::Returned(Outcome::Meta(Ok(m)))) => {
                if !m.is_dir {
                    Step::Done(Outcome::Unit(Err(FsError::Forbidden)))
                } else {
                    let sentinel = sentinel_of(&self.path);
                    Step::Call(
                        Op::RemoveDir(RemoveDirOp { stage: RemoveDirStage::Sentinel, ..self }),
                        RemoveFileOp::new(sentinel, false),
                    )
                }
            },
            (RemoveDirStage::Sentinel, Event::Returned(Outcome::Unit(r))) => Step::Done(
                Outcome::Unit(r),
            ),
            _ => Step::Done(Outcome::Unit(Err(FsError::GeneralFailure))),
        }
    }
}

impl CreateDirOp {
    /// The creation of the collection `path`, not yet begun.
    pub fn new(path: NormalizedPath) -> (r: Op)
        ensures
            r@ == new_create_dir_op(path@),
    {
        Op::CreateDir(CreateDirOp { path, stage: CreateDirStage::Start })
    }

    /// Takes the creation one step further.
    pub fn step(self, event: Event, now: UnixTime) -> (r: Step)
        ensures
            r@ == create_dir_step(self@, event@, now),
    {
        match (self.stage, event) {
            (CreateDirStage::Start, Event::Start) => {
                if is_root_of_bucket(&self.path) {
                    Step::Done(Outcome::Unit(Ok(())))
                } else {
                    let path = self.path.clone();
                    Step::Call(
                        Op::CreateDir(CreateDirOp { stage: CreateDirStage::Probe, ..self }),
                        MetadataOp::new(path),
                    )
                }
            },
            (CreateDirStage::Probe, Event::Returned(Outcome::Meta(r))) => {
                let exists = match &r {
                    Ok(m) => m.is_dir,
                    Err(_) => false,
                };
                if exists {
                    Step::Done(Outcome::Unit(Err(FsError::Exists)))
                } else {
                    let parent = sentinel_of(&self.path).dirs_parent().as_file();
                    Step::Call(
                        Op::CreateDir(CreateDirOp { stage: CreateDirStage::Parent, ..self }),
                        MetadataOp::new(parent),
                    )
                }
            },
            (CreateDirStage::Parent, Event::Returned(Outcome::Meta(Err(e)))) => Step::Done(
                Outcome::Unit(Err(e)),
            ),
            (CreateDirStage::Parent, Event::Returned(Outcome::Meta(Ok(m)))) => {
                if !m.is_dir {
                    Step::Done(Outcome::Unit(Err(FsError::Forbidden)))
                } else {
                    let key = sentinel_of(&self.path).into_string();
                    Step::Send(
                        Op::CreateDir(CreateDirOp { stage: CreateDirStage::Put, ..self }),
                        Request::PutObject { key, body: Vec::new() },
                    )
                }
            },
            (CreateDirStage::Put, Event::Reply(Reply::Status { code })) => {
                if code == 200 {
                    Step::Done(Outcome::Unit(Ok(())))
                } else {
                    Step::Done(Outcome::Unit(Err(FsError::GeneralFailure)))
                }
            },
            _ => Step::Done(Outcome::Unit(Err(FsError::GeneralFailure))),
        }
    }
}

impl CopyOp {
    /// The copy of `from` to `to`, not yet begun.
    pub fn new(from: NormalizedPath, to: NormalizedPath) -> (r: Op)
        ensures
            r@ == new_copy_op(from@, to@),
    {
        Op::Copy(CopyOp { from, to, stage: CopyStage::Start })
    }

    fn send(self) -> (r: Step)
        ensures
            r@ == StepView::Send(
                OpView::Copy(CopyOpView { stage: CopyStage::Copy, ..self@ }),
                RequestView::CopyObject { from: self@.from, to: self@.to },
            ),
    {
        let from = key_of(&self.from);
        let to = key_of(&self.to);
        Step::Send(
            Op::Copy(CopyOp { stage: CopyStage::Copy, ..self }),
            Request::CopyObject { from, to },
        )
    }

    /// Takes the copy one step further.
    pub fn step(self, event: Event, now: UnixTime) -> (r: Step)
        ensures
            r@ == copy_step(self@, event@, now),
    {
        match (self.stage, event) {
            (CopyStage::Start, Event::Start) => {
                let form = if !self.from.is_collection() && self.to.is_collection() {
                    self.to.as_file()
                } else {
                    self.to
                };
                let (from, to) = if self.from.is_collection() && form.is_collection() {
                    (sentinel_of(&self.from), sentinel_of(&form))
                } else {
                    (self.from, form)
                };
                let parent = to.parent();
                Step::Call(
                    Op::Copy(CopyOp { from, to, stage: CopyStage::Parent }),
                    MetadataOp::new(parent),
                )
            },
            (CopyStage::Parent, Event::Returned(Outcome::Meta(Err(_)))) => {
                let parent = self.to.parent();
                Step::Call(
                    Op::Copy(CopyOp { stage: CopyStage::MakeParent, ..self }),
                    CreateDirOp::new(parent),
                )
            },
            (CopyStage::Parent, Event::Returned(Outcome::Meta(Ok(_)))) => self.send(),
            (CopyStage::MakeParent, Event::Returned(Outcome::Unit(Err(e)))) => Step::Done(
                Outcome::Unit(Err(e)),
            ),
            (CopyStage::MakeParent, Event::Returned(Outcome::Unit(Ok(_)))) => self.send(),
            (CopyStage::Copy, Event::Reply(Reply::Status { code })) => {
                if code == 200 {
                    Step::Done(Outcome::Unit(Ok(())))
                } else {
                    Step::Done(Outcome::Unit(Err(FsError::GeneralFailure)))
                }
            },
            _ => Step::Done(Outcome::Unit(Err(FsError::GeneralFailure))),
        }
    }
}

/// A copy of one pair of paths.
fn copy_pair(pair: &(NormalizedPath, NormalizedPath)) -> (r: (NormalizedPath, NormalizedPath))
    ensures
        r.0@ == pair.0@,
        r.1@ == pair.1@,
{
    (pair.0.clone(), pair.1.clone())
}

/// Adds the entries of the collection `src`, mirrored at `dst`, to the tree.
fn add_entries(tree: Tree, src: &NormalizedPath, dst: &NormalizedPath, entries: &Vec<S3DirEntry>) -> (r:
    Tree)
    ensures
        r@ == walk_add(tree@, src@, dst@, entries_view(entries@)),
{
    let mut dirs = tree.dirs;
    let mut files = tree.files;
    let ghost all = entries_view(entries@);
    let ghost start = tree@;
    let mut i: usize = 0;
    assert(all.take(0) =~= Seq::empty());
    while i < entries.len()
        invariant
            i <= entries.len(),
            all == entries_view(entries@),
            (TreeView { dirs: path_pairs_view(dirs@), files: path_pairs_view(files@) }) == walk_add(
                start,
                src@,
                dst@,
                all.take(i as int),
            ),
        decreases entries.len() - i,
    {
        let e = &entries[i];
        proof {
            assert(all.take(i + 1).drop_last() =~= all.take(i as int));
            assert(all.take(i + 1).last() == e@);
        }
        let name = NormalizedPath::from_text(e.name.as_str());
        if e.metadata.is_dir {
            let pair = (src.join_dir(name.as_str()), dst.join_dir(name.as_str()));
            let ghost before = path_pairs_view(dirs@);
            dirs.push(pair);
            assert(path_pairs_view(dirs@) =~= before.push((pair.0@, pair.1@)));
        } else {
            let pair = (src.join_file(name.as_str()), dst.join_file(name.as_str()));
            let ghost before = path_pairs_view(files@);
            files.push(pair);
            assert(path_pairs_view(files@) =~= before.push((pair.0@, pair.1@)));
        }
        i += 1;
    }
    assert(all.take(all.len() as int) =~= all);
    Tree { dirs, files }
}

impl Tree {
    /// The tree with nothing in it.
    pub fn new() -> (r: Tree)
        ensures
            r@ == empty_tree(),
    {
        let r = Tree { dirs: Vec::new(), files: Vec::new() };
        assert(path_pairs_view(r.dirs@) =~= Seq::empty());
        assert(path_pairs_view(r.files@) =~= Seq::empty());
        r
    }
}

impl WalkOp {
    /// The walk of the collection `from`, mirrored at `to`, not yet begun.
    pub fn new(from: NormalizedPath, to: NormalizedPath) -> (r: Op)
        ensures
            r@ == new_walk_op(from@, to@),
    {
        let mut dirs: Vec<(NormalizedPath, NormalizedPath)> = Vec::new();
        dirs.push((from, to));
        let tree = Tree { dirs, files: Vec::new() };
        assert(path_pairs_view(tree.dirs@) =~= seq![(from@, to@)]);
        assert(path_pairs_view(tree.files@) =~= Seq::empty());
        Op::Walk(WalkOp { tree, index: 0, stage: WalkStage::Start })
    }

    fn next(self) -> (r: Step)
        ensures
            r@ == walk_next(self@),
    {
        if self.index < self.tree.dirs.len() {
            let dir = self.tree.dirs[self.index].0.clone();
            Step::Call(Op::Walk(WalkOp { stage: WalkStage::List, ..self }), ReadDirOp::new(dir))
        } else {
            Step::Done(Outcome::Tree(Ok(self.tree)))
        }
    }

    /// Takes the walk one step further.
    pub fn step(self, event: Event, now: UnixTime) -> (r: Step)
        ensures
            r@ == walk_step(self@, event@, now),
    {
        match (self.stage, event) {
            (WalkStage::Start, Event::Start) => self.next(),
            (WalkStage::List, Event::Returned(Outcome::Entries(Err(e)))) => Step::Done(
                Outcome::Tree(Err(e)),
            ),
            (WalkStage::List, Event::Returned(Outcome::Entries(Ok(entries)))) => {
                if self.index < self.tree.dirs.len() {
                    let (src, dst) = copy_pair(&self.tree.dirs[self.index]);
                    let tree = add_entries(self.tree, &src, &dst, &entries);
                    let op = WalkOp { tree, index: self.index + 1, stage: self.stage };
                    op.next()
                } else {
                    Step::Done(Outcome::Tree(Err(FsError::GeneralFailure)))
                }
            },
            _ => Step::Done(Outcome::Tree(Err(FsError::GeneralFailure))),
        }
    }
}

impl RemoveTreeOp {
    /// The removal of the collection `path` with all below it, not yet
    /// begun.
    pub fn new(path: NormalizedPath) -> (r: Op)
        ensures
            r@ == new_remove_tree_op(path@),
    {
        Op::RemoveTree(
            RemoveTreeOp { path, tree: Tree::new(), index: 0, stage: RemoveTreeStage::Start },
        )
    }

    fn next_file(self) -> (r: Step)
        ensures
            r@ == remove_tree_next_file(self@),
    {
        if self.index < self.tree.files.len() {
            let file = self.tree.files[self.index].0.clone();
            Step::Call(
                Op::RemoveTree(RemoveTreeOp { stage: RemoveTreeStage::Files, ..self }),
                RemoveFileOp::new(file, true),
            )
        } else {
            let index = self.tree.dirs.len();
            let op = RemoveTreeOp { index, stage: RemoveTreeStage::Dirs, ..self };
            op.next_dir()
        }
    }

    fn next_dir(self) -> (r: Step)
        ensures
            r@ == remove_tree_next_dir(self@),
    {
        if 0 < self.index && self.index <= self.tree.dirs.len() {
            let dir = self.tree.dirs[self.index - 1].0.clone();
            Step::Call(
                Op::RemoveTree(RemoveTreeOp { stage: RemoveTreeStage::Dirs, ..self }),
                RemoveDirOp::new(dir),
            )
        } else {
            Step::Done(Outcome::Unit(Ok(())))
        }
    }

    /// Takes the removal one step further.
    pub fn step(self, event: Event, now: UnixTime) -> (r: Step)
        ensures
            r@ == remove_tree_step(self@, event@, now),
    {
        match (self.stage, event) {
            (RemoveTreeStage::Start, Event::Start) => {
                let from = self.path.clone();
                let to = self.path.clone();
                Step::Call(
                    Op::RemoveTree(RemoveTreeOp { stage: RemoveTreeStage::Walk, ..self }),
                    WalkOp::new(from, to),
                )
            },
            (RemoveTreeStage::Walk, Event::Returned(Outcome::Tree(Err(e)))) => Step::Done(
                Outcome::Unit(Err(e)),
            ),
            (RemoveTreeStage::Walk, Event::Returned(Outcome::Tree(Ok(tree)))) => {
                let op = RemoveTreeOp { tree, index: 0, ..self };
                op.next_file()
            },
            (RemoveTreeStage::Files, Event::Returned(Outcome::Unit(Err(e)))) => Step::Done(
                Outcome::Unit(Err(e)),
            ),
            (RemoveTreeStage::Files, Event::Returned(Outcome::Unit(Ok(_)))) => {
                if self.index < self.tree.files.len() {
                    let op = RemoveTreeOp { index: self.index + 1, ..self };
                    op.next_file()
                } else {
                    Step::Done(Outcome::Unit(Err(FsError::GeneralFailure)))
                }
            },
            (RemoveTreeStage::Dirs, Event::Returned(Outcome::Unit(Err(e)))) => Step::Done(
                Outcome::Unit(Err(e)),
            ),
            (RemoveTreeStage::Dirs, Event::Returned(Outcome::Unit(Ok(_)))) => {
                if self.index > 0 {
                    let op = RemoveTreeOp { index: self.index - 1, ..self };
                    op.next_dir()
                } else {
                    Step::Done(Outcome::Unit(Err(FsError::GeneralFailure)))
                }
            },
            _ => Step::Done(Outcome::Unit(Err(FsError::GeneralFailure))),
        }
    }
}

impl RenameOp {
    /// The move of `from` to `to`, not yet begun.
    pub fn new(from: NormalizedPath, to: NormalizedPath) -> (r: Op)
        ensures
            r@ == new_rename_op(from@, to@),
    {
        Op::Rename(RenameOp { from, to, tree: Tree::new(), index: 0, stage: RenameStage::Start })
    }

    fn begin(self) -> (r: Step)
        ensures
            r@ == rename_begin(self@),
    {
        let from = self.from.clone();
        let to = self.to.clone();
        if !self.from.is_collection() && !self.to.is_collection() {
            Step::Call(
                Op::Rename(RenameOp { stage: RenameStage::FileCopy, ..self }),
                CopyOp::new(from, to),
            )
        } else if self.from.is_collection() && !self.to.is_collection() {
            Step::Call(
                Op::Rename(RenameOp { stage: RenameStage::TargetFileRemove, ..self }),
                RemoveFileOp::new(to, true),
            )
        } else {
            Step::Call(
                Op::Rename(RenameOp { stage: RenameStage::Walk, ..self }),
                WalkOp::new(from, to),
            )
        }
    }

    fn next_create(self) -> (r: Step)
        ensures
            r@ == rename_next_create(self@),
    {
        if self.index < self.tree.dirs.len() {
            let dir = self.tree.dirs[self.index].1.clone();
            Step::Call(
                Op::Rename(RenameOp { stage: RenameStage::Create, ..self }),
                CreateDirOp::new(dir),
            )
        } else {
            let op = RenameOp { index: 0, ..self };
            op.next_copy()
        }
    }

    fn next_copy(self) -> (r: Step)
        ensures
            r@ == rename_next_copy(self@),
    {
        if self.index < self.tree.files.len() {
            let (from, to) = copy_pair(&self.tree.files[self.index]);
            Step::Call(
                Op::Rename(RenameOp { stage: RenameStage::Copy, ..self }),
                CopyOp::new(from, to),
            )
        } else {
            let index = self.tree.dirs.len();
            let op = RenameOp { index, ..self };
            op.next_drop()
        }
    }

    fn next_drop(self) -> (r: Step)
        ensures
            r@ == rename_next_drop(self@),
    {
        if 0 < self.index && self.index <= self.tree.dirs.len() {
            let dir = self.tree.dirs[self.index - 1].0.clone();
            Step::Call(
                Op::Rename(RenameOp { stage: RenameStage::Drop, ..self }),
                RemoveDirOp::new(dir),
            )
        } else {
            Step::Done(Outcome::Unit(Ok(())))
        }
    }

    /// Takes the move one step further.
    pub fn step(self, event: Event, now: UnixTime) -> (r: Step)
        ensures
            r@ == rename_step(self@, event@, now),
    {
        match (self.stage, event) {
            (RenameStage::Start, Event::Start) => {
                if !self.from.is_collection() && self.to.is_collection() {
                    let to = self.to.clone();
                    Step::Call(
                        Op::Rename(RenameOp { stage: RenameStage::TargetProbe, ..self }),
                        MetadataOp::new(to),
                    )
                } else {
                    self.begin()
                }
            },
            (RenameStage::TargetProbe, Event::Returned(Outcome::Meta(Ok(_)))) => {
                let to = self.to.clone();
                Step::Call(
                    Op::Rename(RenameOp { stage: RenameStage::TargetRemove, ..self }),
                    RemoveTreeOp::new(to),
                )
            },
            (RenameStage::TargetProbe, Event::Returned(Outcome::Meta(Err(_)))) => {
                let to = self.to.as_file();
                let op = RenameOp { to, ..self };
                op.begin()
            },
            (RenameStage::TargetRemove, Event::Returned(Outcome::Unit(Err(e)))) => Step::Done(
                Outcome::Unit(Err(e)),
            ),
            (RenameStage::TargetRemove, Event::Returned(Outcome::Unit(Ok(_)))) => {
                let to = self.to.as_file();
                let op = RenameOp { to, ..self };
                op.begin()
            },
            (RenameStage::FileCopy, Event::Returned(Outcome::Unit(Err(e)))) => Step::Done(
                Outcome::Unit(Err(e)),
            ),
            (RenameStage::FileCopy, Event::Returned(Outcome::Unit(Ok(_)))) => {
                let from = self.from.clone();
                Step::Call(
                    Op::Rename(RenameOp { stage: RenameStage::FileRemove, ..self }),
                    RemoveFileOp::new(from, true),
                )
            },
            (RenameStage::FileRemove, Event::Returned(Outcome::Unit(r))) => Step::Done(
                Outcome::Unit(r),
            ),
            (RenameStage::TargetFileRemove, Event::Returned(Outcome::Unit(_))) => {
                let to = self.to.as_dir();
                let from = self.from.clone();
                let target = to.clone();
                Step::Call(
                    Op::Rename(RenameOp { to, stage: RenameStage::Walk, ..self }),
                    WalkOp::new(from, target),
                )
            },
            (RenameStage::Walk, Event::Returned(Outcome::Tree(Err(e)))) => Step::Done(
                Outcome::Unit(Err(e)),
            ),
            (RenameStage::Walk, Event::Returned(Outcome::Tree(Ok(tree)))) => {
                let op = RenameOp { tree, index: 0, ..self };
                op.next_create()
            },
            (RenameStage::Create, Event::Returned(Outcome::Unit(Err(e)))) => Step::Done(
                Outcome::Unit(Err(e)),
            ),
            (RenameStage::Create, Event::Returned(Outcome::Unit(Ok(_)))) => {
                if self.index < self.tree.dirs.len() {
                    let op = RenameOp { index: self.index + 1, ..self };
                    op.next_create()
                } else {
                    Step::Done(Outcome::Unit(Err(FsError::GeneralFailure)))
                }
            },
            (RenameStage::Copy, Event::Returned(Outcome::Unit(Err(e)))) => Step::Done(
                Outcome::Unit(Err(e)),
            ),
            (RenameStage::Copy, Event::Returned(Outcome::Unit(Ok(_)))) => {
                if self.index < self.tree.files.len() {
                    let from = self.tree.files[self.index].0.clone();
                    Step::Call(
                        Op::Rename(RenameOp { stage: RenameStage::Remove, ..self }),
                        RemoveFileOp::new(from, true),
                    )
                } else {
                    Step::Done(Outcome::Unit(Err(FsError::GeneralFailure)))
                }
            },
            (RenameStage::Remove, Event::Returned(Outcome::Unit(Err(e)))) => Step::Done(
                Outcome::Unit(Err(e)),
            ),
            (RenameStage::Remove, Event::Returned(Outcome::Unit(Ok(_)))) => {
                if self.index < self.tree.files.len() {
                    let op = RenameOp { index: self.index + 1, ..self };
                    op.next_copy()
                } else {
                    Step::Done(Outcome::Unit(Err(FsError::GeneralFailure)))
                }
            },
            (RenameStage::Drop, Event::Returned(Outcome::Unit(Err(e)))) => Step::Done(
                Outcome::Unit(Err(e)),
            ),
            (RenameStage::Drop, Event::Returned(Outcome::Unit(Ok(_)))) => {
                if self.index > 0 {
                    let op = RenameOp { index: self.index - 1, ..self };
                    op.next_drop()
                } else {
                    Step::Done(Outcome::Unit(Err(FsError::GeneralFailure)))
                }
            },
            _ => Step::Done(Outcome::Unit(Err(FsError::GeneralFailure))),
        }
    }
}

impl OpenOp {
    /// The opening of `path`, not yet begun.
    pub fn new(path: NormalizedPath, options: OpenOptions) -> (r: Op)
        ensures
            r@ == new_open_op(path@, options),
    {
        Op::Open(OpenOp { path, options, metadata: None, stage: OpenStage::Start })
    }

    fn head(self) -> (r: Step)
        ensures
            r@ == StepView::Send(
                OpView::Open(OpenOpView { stage: OpenStage::Head, ..self@ }),
                RequestView::HeadObject { key: self@.path },
            ),
    {
        let key = key_of(&self.path);
        Step::Send(Op::Open(OpenOp { stage: OpenStage::Head, ..self }), Request::HeadObject { key })
    }

    fn finish(self, metadata: S3MetaData, data: Vec<u8>) -> (r: Step)
        ensures
            r@ == open_finish(self@, metadata@, data@),
    {
        let key = key_of(&self.path);
        if self.options.create {
            Step::Send(
                Op::Open(
                    OpenOp {
                        path: self.path,
                        options: self.options,
                        metadata: Some(metadata),
                        stage: OpenStage::Initiate,
                    },
                ),
                Request::CreateMultipartUpload { key },
            )
        } else {
            Step::Done(
                Outcome::File(
                    Ok(S3File::Simple(S3SimpleOpenFile::new(metadata, data, self.options, key))),
                ),
            )
        }
    }

    /// Takes the opening one step further.
    pub fn step(self, event: Event, now: UnixTime) -> (r: Step)
        ensures
            r@ == open_step(self@, event@, now),
    {
        match (self.stage, event) {
            (OpenStage::Start, Event::Start) => {
                if !self.options.is_valid() {
                    Step::Done(Outcome::File(Err(FsError::GeneralFailure)))
                } else {
                    let path = self.path.clone();
                    Step::Call(
                        Op::Open(OpenOp { stage: OpenStage::Probe, ..self }),
                        MetadataOp::new(path),
                    )
                }
            },
            (OpenStage::Probe, Event::Returned(Outcome::Meta(Ok(m)))) => {
                if m.is_dir {
                    Step::Done(Outcome::File(Err(FsError::Forbidden)))
                } else if self.options.create_new {
                    Step::Done(Outcome::File(Err(FsError::Exists)))
                } else {
                    self.head()
                }
            },
            (OpenStage::Probe, Event::Returned(Outcome::Meta(Err(e)))) => {
                if e == FsError::NotFound {
                    if self.options.create {
                        self.head()
                    } else {
                        Step::Done(Outcome::File(Err(FsError::NotFound)))
                    }
                } else {
                    Step::Done(Outcome::File(Err(e)))
                }
            },
            (OpenStage::Head, Event::Reply(Reply::Head { code, head })) => {
                let metadata = meta_of(&self.path, false, &head, now);
                if code == 200 && !self.options.create {
                    let key = key_of(&self.path);
                    Step::Send(
                        Op::Open(
                            OpenOp {
                                path: self.path,
                                options: self.options,
                                metadata: Some(metadata),
                                stage: OpenStage::Get,
                            },
                        ),
                        Request::GetObject { key },
                    )
                } else {
                    self.finish(metadata, Vec::new())
                }
            },
            (OpenStage::Get, Event::Reply(Reply::Body { code, data })) => {
                if code == 200 && self.metadata.is_some() {
                    let metadata = self.metadata.as_ref().unwrap().clone();
                    self.finish(metadata, data)
                } else {
                    Step::Done(Outcome::File(Err(FsError::GeneralFailure)))
                }
            },
            (OpenStage::Initiate, Event::Reply(Reply::Initiated { code, upload_id })) => {
                if code == 200 && self.metadata.is_some() {
                    let metadata = self.metadata.as_ref().unwrap().clone();
                    let key = key_of(&self.path);
                    Step::Done(
                        Outcome::File(
                            Ok(
                                S3File::Multipart(
                                    PartialOpenFile::new(metadata, self.options, key, upload_id),
                                ),
                            ),
                        ),
                    )
                } else {
                    Step::Done(Outcome::File(Err(FsError::GeneralFailure)))
                }
            },
            _ => Step::Done(Outcome::File(Err(FsError::GeneralFailure))),
        }
    }
}

impl Op {
    /// Takes the operation one step further: `event` is `Start` at first,
    /// then the reply to the request or the outcome of the operation that
    /// the last step asked for. `now` is the time of the call.
    pub fn step(self, event: Event, now: UnixTime) -> (r: Step)
        ensures
            r@ == op_step(self@, event@, now),
    {
        proof {
            reveal(op_step);
        }
        match self {
            Op::Metadata(o) => o.step(event, now),
            Op::ReadDir(o) => o.step(event, now),
            Op::RemoveFile(o) => o.step(event, now),
            Op::RemoveDir(o) => o.step(event, now),
            Op::CreateDir(o) => o.step(event, now),
            Op::Copy(o) => o.step(event, now),
            Op::Walk(o) => o.step(event, now),
            Op::RemoveTree(o) => o.step(event, now),
            Op::Rename(o) => o.step(event, now),
            Op::Open(o) => o.step(event, now),
        }
    }
}

} // verus!
