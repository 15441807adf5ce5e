//! What the adapter's operations come to when they are run against an
//! object store.
//!
//! The store is modelled by what it holds: a finite map from keys to
//! bodies, and the multipart uploads that are under way. A run hands
//! each request of an operation to the store and each reply back to the
//! operation until the operation has ended.
use crate::aggregate::segment_end;
use crate::error::FsError;
use crate::normalized_path::{normalize, root, strip_prefix_spec, trim_token_spec};
use crate::s3_backend::entries::EntryView;
use crate::s3_backend::filesystem::{
    is_bucket_root, key_targets, list_prefix, listing_targets, meta_from_head, new_create_dir_op,
    new_metadata_op, new_read_dir_op, op_step, page_targets, path_above, prefix_targets,
    read_dir_next, root_meta, sentinel_key, CreateDirOpView, CreateDirStage, EventView, OpView,
    OutcomeView, ReadDirOpView, ReadDirStage, StepView,
};
use crate::s3_backend::metadata::{MetaView, UnixTime};
use crate::s3_backend::protocol::{ReplyView, RequestView};
use crate::serde_types::{HeadView, ListPageView, PartView};
use crate::text::{decimal, dot_dir, ends_with_char};
use vstd::prelude::*;

verus! {

/// A multipart upload under way: the key it is for and the parts that
/// were stored, by their numbers.
pub struct UploadModel {
    pub key: Seq<char>,
    pub parts: Map<u32, Seq<u8>>,
}

/// What an object store holds.
pub struct StoreModel {
    pub objects: Map<Seq<char>, Seq<u8>>,
    pub uploads: Map<Seq<char>, UploadModel>,
    pub started: nat,
}

/// What the store tells of an object that holds `body`.
pub open spec fn head_of(body: Seq<u8>) -> HeadView {
    HeadView { content_length: Some(body.len() as i64), e_tag: None, last_modified: None }
}

/// What the store tells where there is no object.
pub open spec fn no_head() -> HeadView {
    HeadView { content_length: None, e_tag: None, last_modified: None }
}

/// Whether `key` shows in a listing of `prefix` as it is: it begins with
/// the prefix and has no slash after it.
pub open spec fn is_listed_key(key: Seq<char>, prefix: Seq<char>) -> bool {
    prefix.is_prefix_of(key) && segment_end(key, prefix.len() as int) >= key.len()
}

/// Whether `key` is rolled up in a listing of `prefix`: it begins with
/// the prefix and has a slash after it.
pub open spec fn is_rolled_up(key: Seq<char>, prefix: Seq<char>) -> bool {
    prefix.is_prefix_of(key) && segment_end(key, prefix.len() as int) < key.len()
}

/// The prefix that stands for a rolled-up key: the key up to the first
/// slash after `prefix`, the slash counted in.
pub open spec fn rolled_prefix(key: Seq<char>, prefix: Seq<char>) -> Seq<char> {
    key.take(segment_end(key, prefix.len() as int) + 1)
}

/// The keys that a listing with the delimiter `/` shows as they are.
pub open spec fn listed_keys(store: StoreModel, prefix: Seq<char>) -> Set<Seq<char>> {
    store.objects.dom().filter(|k: Seq<char>| is_listed_key(k, prefix))
}

/// The prefixes that a listing with the delimiter `/` shows in the place
/// of the keys that have a slash after `prefix`.
pub open spec fn listed_prefixes(store: StoreModel, prefix: Seq<char>) -> Set<Seq<char>> {
    store.objects.dom().filter(|k: Seq<char>| is_rolled_up(k, prefix)).map(
        |k: Seq<char>| rolled_prefix(k, prefix),
    )
}

/// The pages of a listing: one page with the prefixes and the keys, each
/// once, in some order.
pub open spec fn listing_pages(store: StoreModel, prefix: Seq<char>) -> Seq<ListPageView> {
    seq![
        ListPageView {
            common_prefixes: listed_prefixes(store, prefix).to_seq(),
            keys: listed_keys(store, prefix).to_seq(),
        },
    ]
}

/// The bodies of the listed parts, one after the other; `None` where a
/// listed part was not stored.
pub open spec fn assembled(upload: UploadModel, parts: Seq<PartView>) -> Option<Seq<u8>>
    decreases parts.len(),
{
    if parts.len() == 0 {
        Some(Seq::empty())
    } else {
        match assembled(upload, parts.drop_last()) {
            None => None,
            Some(body) => if upload.parts.contains_key(parts.last().part_number) {
                Some(body + upload.parts[parts.last().part_number])
            } else {
                None
            },
        }
    }
}

/// The store after a request, with its reply.
pub open spec fn respond(store: StoreModel, request: RequestView) -> (StoreModel, ReplyView) {
    match request {
        RequestView::HeadObject { key } => if store.objects.contains_key(key) {
            (store, ReplyView::Head { code: 200, head: head_of(store.objects[key]) })
        } else {
            (store, ReplyView::Head { code: 404, head: no_head() })
        },
        RequestView::GetObject { key } => if store.objects.contains_key(key) {
            (store, ReplyView::Body { code: 200, data: store.objects[key] })
        } else {
            (store, ReplyView::Body { code: 404, data: Seq::empty() })
        },
        RequestView::PutObject { key, body } => (
            StoreModel { objects: store.objects.insert(key, body), ..store },
            ReplyView::Status { code: 200 },
        ),
        RequestView::DeleteObject { key } => (
            StoreModel { objects: store.objects.remove(key), ..store },
            ReplyView::Status { code: 204 },
        ),
        RequestView::CopyObject { from, to } => if store.objects.contains_key(from) {
            (
                StoreModel { objects: store.objects.insert(to, store.objects[from]), ..store },
                ReplyView::Status { code: 200 },
            )
        } else {
            (store, ReplyView::Status { code: 404 })
        },
        RequestView::List { prefix, delimiter } => (
            store,
            ReplyView::Listing { pages: listing_pages(store, prefix) },
        ),
        RequestView::PutObjectTagging { key, tags } => if store.objects.contains_key(key) {
            (store, ReplyView::Status { code: 200 })
        } else {
            (store, ReplyView::Status { code: 404 })
        },
        RequestView::CreateMultipartUpload { key } => {
            let id = decimal(store.started);
            (
                StoreModel {
                    uploads: store.uploads.insert(id, UploadModel { key, parts: Map::empty() }),
                    started: store.started + 1,
                    ..store
                },
                ReplyView::Initiated { code: 200, upload_id: id },
            )
        },
        RequestView::UploadPart { key, upload_id, part_number, body } => if store.uploads.contains_key(
            upload_id,
        ) && store.uploads[upload_id].key == key {
            let upload = store.uploads[upload_id];
            (
                StoreModel {
                    uploads: store.uploads.insert(
                        upload_id,
                        UploadModel { parts: upload.parts.insert(part_number, body), ..upload },
                    ),
                    ..store
                },
                ReplyView::PartStored { code: 200, etag: decimal(part_number as nat) },
            )
        } else {
            (store, ReplyView::PartStored { code: 404, etag: Seq::empty() })
        },
        RequestView::CompleteMultipartUpload { key, upload_id, parts } => if store.uploads.contains_key(
            upload_id,
        ) && store.uploads[upload_id].key == key && assembled(store.uploads[upload_id], parts)
            is Some {
            (
                StoreModel {
                    objects: store.objects.insert(
                        key,
                        assembled(store.uploads[upload_id], parts)->Some_0,
                    ),
                    uploads: store.uploads.remove(upload_id),
                    ..store
                },
                ReplyView::Status { code: 200 },
            )
        } else {
            (store, ReplyView::Status { code: 400 })
        },
        RequestView::AbortMultipartUpload { key, upload_id } => (
            StoreModel { uploads: store.uploads.remove(upload_id), ..store },
            ReplyView::Status { code: 204 },
        ),
        RequestView::CreateBucket => (store, ReplyView::Status { code: 409 }),
    }
}

/// The store and the outcome after a step was followed to the end of
/// its operation, in at most `fuel` requests and calls; `None` where
/// that is not enough.
pub open spec fn run_step(step: StepView, store: StoreModel, now: UnixTime, fuel: nat) -> Option<
    (StoreModel, OutcomeView),
>
    decreases fuel,
{
    match step {
        StepView::Done(outcome) => Some((store, outcome)),
        StepView::Send(op, request) => if fuel == 0 {
            None
        } else {
            let (after, reply) = respond(store, request);
            run_step(op_step(op, EventView::Reply(reply), now), after, now, (fuel - 1) as nat)
        },
        StepView::Call(parent, child) => if fuel == 0 {
            None
        } else {
            match run_step(op_step(child, EventView::Start, now), store, now, (fuel - 1) as nat) {
                None => None,
                Some((after, outcome)) => run_step(
                    op_step(parent, EventView::Returned(outcome), now),
                    after,
                    now,
                    (fuel - 1) as nat,
                ),
            }
        },
    }
}

/// The store and the outcome after an operation was run from its start.
pub open spec fn run(op: OpView, store: StoreModel, now: UnixTime, fuel: nat) -> Option<
    (StoreModel, OutcomeView),
> {
    run_step(op_step(op, EventView::Start, now), store, now, fuel)
}

/// What a path names in a store: the root of the bucket is a collection;
/// elsewhere a collection where the object that marks one is there, else
/// a resource where its object is there, else nothing.
pub open spec fn metadata_of(store: StoreModel, path: Seq<char>, now: UnixTime) -> Result<
    MetaView,
    FsError,
> {
    if is_bucket_root(path) {
        Ok(root_meta(now))
    } else if store.objects.contains_key(sentinel_key(path)) {
        Ok(meta_from_head(path, true, head_of(store.objects[sentinel_key(path)]), now))
    } else if store.objects.contains_key(path) {
        Ok(meta_from_head(path, false, head_of(store.objects[path]), now))
    } else {
        Err(FsError::NotFound)
    }
}

/// The probe of a path tells what the path names in the store and leaves
/// the store as it is, however many steps it is given beyond the two
/// requests it needs.
pub proof fn law_probe_tells_what_is_stored(
    store: StoreModel,
    path: Seq<char>,
    now: UnixTime,
    fuel: nat,
)
    ensures
        fuel >= 2 ==> run(new_metadata_op(path), store, now, fuel) == Some(
            (store, OutcomeView::Meta(metadata_of(store, path, now))),
        ),
        run(new_metadata_op(path), store, now, fuel) is Some ==> run(
            new_metadata_op(path),
            store,
            now,
            fuel,
        ) == Some((store, OutcomeView::Meta(metadata_of(store, path, now)))),
{
    reveal(op_step);
    reveal_with_fuel(run_step, 4);
}

/// A run that has ended stays as it is.
pub proof fn lemma_run_done(outcome: OutcomeView, store: StoreModel, now: UnixTime, fuel: nat)
    ensures
        run_step(StepView::Done(outcome), store, now, fuel) == Some((store, outcome)),
{
}

/// What a run comes to at a call: the called operation is run first, and
/// the calling operation is resumed with its outcome.
pub proof fn lemma_run_call(
    parent: OpView,
    child: OpView,
    store: StoreModel,
    now: UnixTime,
    fuel: nat,
)
    ensures
        run_step(StepView::Call(parent, child), store, now, fuel) == if fuel == 0 {
            None
        } else {
            match run(child, store, now, (fuel - 1) as nat) {
                None => None,
                Some((after, outcome)) => run_step(
                    op_step(parent, EventView::Returned(outcome), now),
                    after,
                    now,
                    (fuel - 1) as nat,
                ),
            }
        },
{
}

/// What a run comes to at a request: the store replies, and the
/// operation is resumed with the reply.
pub proof fn lemma_run_send(
    op: OpView,
    request: RequestView,
    store: StoreModel,
    now: UnixTime,
    fuel: nat,
)
    ensures
        run_step(StepView::Send(op, request), store, now, fuel) == if fuel == 0 {
            None
        } else {
            run_step(
                op_step(op, EventView::Reply(respond(store, request).1), now),
                respond(store, request).0,
                now,
                (fuel - 1) as nat,
            )
        },
{
}

/// The store with the object that marks the collection `path`.
pub open spec fn with_marker(store: StoreModel, path: Seq<char>) -> StoreModel {
    StoreModel { objects: store.objects.insert(sentinel_key(path), Seq::empty()), ..store }
}

/// What the creation of a collection comes to in a store: nothing is to
/// do for the root of the bucket; a collection that is there is not
/// created again; the collection above must be one; then the object that
/// marks the collection is stored.
pub open spec fn create_dir_of(store: StoreModel, path: Seq<char>, now: UnixTime) -> (
    StoreModel,
    Result<(), FsError>,
) {
    let found = metadata_of(store, path, now);
    let above = metadata_of(store, path_above(path), now);
    if is_bucket_root(path) {
        (store, Ok(()))
    } else if found is Ok && found->Ok_0.is_dir {
        (store, Err(FsError::Exists))
    } else {
        match above {
            Err(e) => (store, Err(e)),
            Ok(m) => if !m.is_dir {
                (store, Err(FsError::Forbidden))
            } else {
                (with_marker(store, path), Ok(()))
            },
        }
    }
}

/// The steps of the creation of a collection, one by one.
pub proof fn lemma_create_dir_steps(
    path: Seq<char>,
    found: Result<MetaView, FsError>,
    above: Result<MetaView, FsError>,
    code: u16,
    now: UnixTime,
)
    ensures
        op_step(new_create_dir_op(path), EventView::Start, now) == if is_bucket_root(path) {
            StepView::Done(OutcomeView::Unit(Ok(())))
        } else {
            StepView::Call(
                OpView::CreateDir(CreateDirOpView { path, stage: CreateDirStage::Probe }),
                new_metadata_op(path),
            )
        },
        op_step(
            OpView::CreateDir(CreateDirOpView { path, stage: CreateDirStage::Probe }),
            EventView::Returned(OutcomeView::Meta(found)),
            now,
        ) == if found is Ok && found->Ok_0.is_dir {
            StepView::Done(OutcomeView::Unit(Err(FsError::Exists)))
        } else {
            StepView::Call(
                OpView::CreateDir(CreateDirOpView { path, stage: CreateDirStage::Parent }),
                new_metadata_op(path_above(path)),
            )
        },
        op_step(
            OpView::CreateDir(CreateDirOpView { path, stage: CreateDirStage::Parent }),
            EventView::Returned(OutcomeView::Meta(above)),
            now,
        ) == match above {
            Err(e) => StepView::Done(OutcomeView::Unit(Err(e))),
            Ok(m) => if !m.is_dir {
                StepView::Done(OutcomeView::Unit(Err(FsError::Forbidden)))
            } else {
                StepView::Send(
                    OpView::CreateDir(CreateDirOpView { path, stage: CreateDirStage::Put }),
                    RequestView::PutObject { key: sentinel_key(path), body: Seq::empty() },
                )
            },
        },
        op_step(
            OpView::CreateDir(CreateDirOpView { path, stage: CreateDirStage::Put }),
            EventView::Reply(ReplyView::Status { code }),
            now,
        ) == if code == 200 {
            StepView::Done(OutcomeView::Unit(Ok(())))
        } else {
            StepView::Done(OutcomeView::Unit(Err(FsError::GeneralFailure)))
        },
{
    reveal(op_step);
}

/// The creation of a collection, run against a store, comes to what
/// `create_dir_of` says, whenever it is given steps enough to end; four
/// are enough.
pub proof fn law_creation_does_what_it_says(
    store: StoreModel,
    path: Seq<char>,
    now: UnixTime,
    fuel: nat,
)
    requires
        run(new_create_dir_op(path), store, now, fuel) is Some || fuel >= 4,
    ensures
        run(new_create_dir_op(path), store, now, fuel) == Some(
            (
                create_dir_of(store, path, now).0,
                OutcomeView::Unit(create_dir_of(store, path, now).1),
            ),
        ),
{
    let found = metadata_of(store, path, now);
    let parent = path_above(path);
    let above = metadata_of(store, parent, now);
    lemma_create_dir_steps(path, found, above, 200, now);
    let probing = OpView::CreateDir(CreateDirOpView { path, stage: CreateDirStage::Probe });
    let asking = OpView::CreateDir(CreateDirOpView { path, stage: CreateDirStage::Parent });
    let putting = OpView::CreateDir(CreateDirOpView { path, stage: CreateDirStage::Put });
    if is_bucket_root(path) {
        lemma_run_done(OutcomeView::Unit(Ok(())), store, now, fuel);
    } else {
        let one = (fuel - 1) as nat;
        lemma_run_call(probing, new_metadata_op(path), store, now, fuel);
        law_probe_tells_what_is_stored(store, path, now, one);
        if found is Ok && found->Ok_0.is_dir {
            lemma_run_done(OutcomeView::Unit(Err(FsError::Exists)), store, now, one);
        } else {
            let two = (one - 1) as nat;
            lemma_run_call(asking, new_metadata_op(parent), store, now, one);
            law_probe_tells_what_is_stored(store, parent, now, two);
            match above {
                Err(e) => {
                    lemma_run_done(OutcomeView::Unit(Err(e)), store, now, two);
                },
                Ok(m) => {
                    if !m.is_dir {
                        lemma_run_done(OutcomeView::Unit(Err(FsError::Forbidden)), store, now, two);
                    } else {
                        let request = RequestView::PutObject {
                            key: sentinel_key(path),
                            body: Seq::empty(),
                        };
                        lemma_run_send(putting, request, store, now, two);
                        lemma_run_done(
                            OutcomeView::Unit(Ok(())),
                            with_marker(store, path),
                            now,
                            (two - 1) as nat,
                        );
                    }
                },
            }
        }
    }
}

/// After a collection was created, the probe of its path finds a
/// collection.
pub proof fn law_created_collection_is_found(
    store: StoreModel,
    path: Seq<char>,
    now: UnixTime,
    fuel: nat,
)
    requires
        run(new_create_dir_op(path), store, now, fuel) is Some,
        run(new_create_dir_op(path), store, now, fuel)->Some_0.1 == OutcomeView::Unit(Ok(())),
    ensures
        ({
            let after = run(new_create_dir_op(path), store, now, fuel)->Some_0.0;
            &&& metadata_of(after, path, now) is Ok
            &&& metadata_of(after, path, now)->Ok_0.is_dir
            &&& is_bucket_root(path) || after.objects.contains_key(sentinel_key(path))
            &&& store.objects.dom().finite() ==> after.objects.dom().finite()
            &&& run(new_metadata_op(path), after, now, 2) == Some(
                (after, OutcomeView::Meta(metadata_of(after, path, now))),
            )
        }),
{
    law_creation_does_what_it_says(store, path, now, fuel);
    let after = create_dir_of(store, path, now).0;
    law_probe_tells_what_is_stored(after, path, now, 2);
}

/// The entries for the targets of a listing: one for each target that
/// the probe finds, named by what follows the listed path.
pub open spec fn listed_entries(
    store: StoreModel,
    targets: Seq<Seq<char>>,
    path: Seq<char>,
    now: UnixTime,
) -> Seq<EntryView>
    decreases targets.len(),
{
    if targets.len() == 0 {
        Seq::empty()
    } else {
        let rest = listed_entries(store, targets.drop_last(), path, now);
        match metadata_of(store, targets.last(), now) {
            Ok(m) => rest.push(
                EntryView { metadata: m, name: strip_prefix_spec(targets.last(), path) },
            ),
            Err(_) => rest,
        }
    }
}

/// What the listing of a path gives in a store: the path must name a
/// collection; the entries are those of what the store lists below it.
pub open spec fn read_dir_of(store: StoreModel, path: Seq<char>, now: UnixTime) -> Result<
    Seq<EntryView>,
    FsError,
> {
    match metadata_of(store, path, now) {
        Err(e) => Err(e),
        Ok(m) => if !m.is_dir {
            Err(FsError::Forbidden)
        } else {
            Ok(
                listed_entries(
                    store,
                    listing_targets(listing_pages(store, list_prefix(path))),
                    path,
                    now,
                ),
            )
        },
    }
}

/// The listing after the probe of the target at `op.index` came back.
pub open spec fn after_probe(
    op: ReadDirOpView,
    found: Result<MetaView, FsError>,
) -> ReadDirOpView {
    ReadDirOpView {
        stage: ReadDirStage::Each,
        index: op.index + 1,
        entries: match found {
            Ok(m) => op.entries.push(
                EntryView {
                    metadata: m,
                    name: strip_prefix_spec(op.targets[op.index as int], op.path),
                },
            ),
            Err(_) => op.entries,
        },
        ..op
    }
}

/// A listing that is resumed with the outcome of a probe goes on with the
/// next target.
pub proof fn lemma_listing_resumes(op: ReadDirOpView, found: Result<MetaView, FsError>, now: UnixTime)
    requires
        op.index < op.targets.len(),
    ensures
        read_dir_next(op) == StepView::Call(
            OpView::ReadDir(ReadDirOpView { stage: ReadDirStage::Each, ..op }),
            new_metadata_op(op.targets[op.index as int]),
        ),
        op_step(
            OpView::ReadDir(ReadDirOpView { stage: ReadDirStage::Each, ..op }),
            EventView::Returned(OutcomeView::Meta(found)),
            now,
        ) == read_dir_next(after_probe(op, found)),
{
    reveal(op_step);
}

/// The probes of a listing, from the target at `op.index` on, end with
/// the entries of all targets.
pub proof fn lemma_listing_probes_all(
    store: StoreModel,
    op: ReadDirOpView,
    now: UnixTime,
    fuel: nat,
)
    requires
        op.index <= op.targets.len(),
        op.entries == listed_entries(store, op.targets.take(op.index as int), op.path, now),
        run_step(read_dir_next(op), store, now, fuel) is Some || fuel >= op.targets.len()
            - op.index + 2,
    ensures
        run_step(read_dir_next(op), store, now, fuel) == Some(
            (store, OutcomeView::Entries(Ok(listed_entries(store, op.targets, op.path, now)))),
        ),
    decreases op.targets.len() - op.index,
{
    if op.index < op.targets.len() {
        let target = op.targets[op.index as int];
        let each = ReadDirOpView { stage: ReadDirStage::Each, ..op };
        let found = metadata_of(store, target, now);
        let next = after_probe(op, found);
        let less = (fuel - 1) as nat;
        lemma_listing_resumes(op, found, now);
        lemma_run_call(OpView::ReadDir(each), new_metadata_op(target), store, now, fuel);
        law_probe_tells_what_is_stored(store, target, now, less);
        let upto = op.targets.take(op.index + 1 as int);
        assert(upto.drop_last() =~= op.targets.take(op.index as int));
        assert(upto.last() == target);
        assert(next.index == op.index + 1);
        assert(next.entries == listed_entries(store, upto, op.path, now));
        lemma_listing_probes_all(store, next, now, less);
    } else {
        assert(op.targets.take(op.index as int) =~= op.targets);
    }
}

/// A listing gives the entries of what the store lists below the path,
/// and leaves the store as it is, whenever it is given steps enough to
/// end; four more than the store lists are enough.
pub proof fn law_listing_tells_what_is_stored(
    store: StoreModel,
    path: Seq<char>,
    now: UnixTime,
    fuel: nat,
)
    requires
        run(new_read_dir_op(path), store, now, fuel) is Some || fuel >= listing_targets(
            listing_pages(store, list_prefix(path)),
        ).len() + 4,
    ensures
        run(new_read_dir_op(path), store, now, fuel) == Some(
            (store, OutcomeView::Entries(read_dir_of(store, path, now))),
        ),
{
    reveal(op_step);
    reveal_with_fuel(run_step, 3);
    law_probe_tells_what_is_stored(store, path, now, (fuel - 1) as nat);
    let found = metadata_of(store, path, now);
    if found is Ok && found->Ok_0.is_dir {
        let targets = listing_targets(listing_pages(store, list_prefix(path)));
        let op = ReadDirOpView {
            path,
            stage: ReadDirStage::List,
            targets,
            index: 0,
            entries: Seq::empty(),
        };
        assert(targets.take(0) =~= Seq::empty());
        lemma_listing_probes_all(store, op, now, (fuel - 2) as nat);
    }
}

/// The segment that starts at `start` ends at the first slash after it.
pub proof fn lemma_segment_ends_at_slash(key: Seq<char>, start: int, end: int)
    requires
        0 <= start <= end < key.len(),
        key[end] == '/',
        forall|i: int| start <= i < end ==> key[i] != '/',
    ensures
        segment_end(key, start) == end,
    decreases end - start,
{
    if start < end {
        lemma_segment_ends_at_slash(key, start + 1, end);
    }
}

/// Where a segment ends before the end of the key, a slash stands.
pub proof fn lemma_segment_end_is_slash(key: Seq<char>, start: int)
    requires
        0 <= start <= key.len(),
    ensures
        start <= segment_end(key, start) <= key.len(),
        segment_end(key, start) < key.len() ==> key[segment_end(key, start)] == '/',
    decreases key.len() - start,
{
    if start < key.len() && key[start] != '/' {
        lemma_segment_end_is_slash(key, start + 1);
    }
}

/// What a finite store lists is finite, and the listing holds exactly
/// what the store lists.
pub proof fn lemma_listing_is_exact(store: StoreModel, prefix: Seq<char>)
    requires
        store.objects.dom().finite(),
    ensures
        listed_keys(store, prefix).finite(),
        listed_prefixes(store, prefix).finite(),
        forall|c: Seq<char>|
            listed_prefixes(store, prefix).to_seq().contains(c) <==> listed_prefixes(
                store,
                prefix,
            ).contains(c),
        forall|k: Seq<char>|
            listed_keys(store, prefix).to_seq().contains(k) <==> listed_keys(
                store,
                prefix,
            ).contains(k),
{
    let dom = store.objects.dom();
    let keys = listed_keys(store, prefix);
    let rolled = dom.filter(|k: Seq<char>| is_rolled_up(k, prefix));
    vstd::set_lib::lemma_len_subset(keys, dom);
    vstd::set_lib::lemma_len_subset(rolled, dom);
    rolled.lemma_map_finite(|k: Seq<char>| rolled_prefix(k, prefix));
    let prefixes = listed_prefixes(store, prefix);
    prefixes.lemma_to_seq_to_set_id();
    keys.lemma_to_seq_to_set_id();
    assert forall|c: Seq<char>| prefixes.to_seq().contains(c) <==> prefixes.contains(c) by {
        assert(prefixes.to_seq().to_set().contains(c) <==> prefixes.contains(c));
    }
    assert forall|k: Seq<char>| keys.to_seq().contains(k) <==> keys.contains(k) by {
        assert(keys.to_seq().to_set().contains(k) <==> keys.contains(k));
    }
}

/// The targets of the prefixes of a page are the prefixes, stored as
/// paths.
pub proof fn lemma_prefix_targets(prefixes: Seq<Seq<char>>)
    ensures
        prefix_targets(prefixes).len() == prefixes.len(),
        forall|i: int|
            0 <= i < prefixes.len() ==> #[trigger] prefix_targets(prefixes)[i] == normalize(
                prefixes[i],
            ),
    decreases prefixes.len(),
{
    if prefixes.len() > 0 {
        lemma_prefix_targets(prefixes.drop_last());
        assert forall|i: int| 0 <= i < prefixes.len() implies #[trigger] prefix_targets(
            prefixes,
        )[i] == normalize(prefixes[i]) by {
            if i < prefixes.len() - 1 {
                assert(prefixes.drop_last()[i] == prefixes[i]);
            }
        }
    }
}

/// No target of the keys of a page ends with `.dir`.
pub proof fn lemma_key_targets(keys: Seq<Seq<char>>)
    ensures
        forall|i: int|
            0 <= i < key_targets(keys).len() ==> !dot_dir().is_suffix_of(
                #[trigger] key_targets(keys)[i],
            ),
    decreases keys.len(),
{
    if keys.len() > 0 {
        lemma_key_targets(keys.drop_last());
        let rest = key_targets(keys.drop_last());
        let all = key_targets(keys);
        assert forall|i: int| 0 <= i < all.len() implies !dot_dir().is_suffix_of(
            #[trigger] all[i],
        ) by {
            if i < rest.len() {
                assert(all[i] == rest[i]);
            }
        }
    }
}

/// A path that ends with a slash, or does not end with `.dir`, is not
/// listed under the name `.dir`.
pub proof fn lemma_name_is_no_marker(target: Seq<char>, path: Seq<char>)
    requires
        ends_with_char(target, '/') || !dot_dir().is_suffix_of(target),
    ensures
        strip_prefix_spec(target, path) != dot_dir(),
{
    let name = strip_prefix_spec(target, path);
    assert(dot_dir().len() == 4 && dot_dir()[3] == 'r');
    if name == dot_dir() {
        if path.is_prefix_of(target) {
            let rest = target.skip(path.len() as int);
            assert(rest.len() > 0);
            if rest.len() > 1 && rest[0] == '/' {
                assert(rest.skip(1) == dot_dir());
                assert(rest.len() == 5);
                assert(target.last() == rest.skip(1)[3]);
                assert(target.subrange(target.len() - 4, target.len() as int) =~= rest.skip(1));
            } else {
                assert(rest == dot_dir());
                assert(target.last() == rest[3]);
                assert(target.subrange(target.len() - 4, target.len() as int) =~= rest);
            }
        } else {
            assert(target.subrange(target.len() - 4, target.len() as int) =~= target);
        }
    }
}

/// Every entry of a listing comes from a target that the probe found,
/// and is named by what follows the listed path in it.
pub proof fn lemma_entry_has_target(
    store: StoreModel,
    targets: Seq<Seq<char>>,
    path: Seq<char>,
    now: UnixTime,
    j: int,
) -> (i: int)
    requires
        0 <= j < listed_entries(store, targets, path, now).len(),
    ensures
        0 <= i < targets.len(),
        metadata_of(store, targets[i], now) == Ok::<MetaView, FsError>(
            listed_entries(store, targets, path, now)[j].metadata,
        ),
        listed_entries(store, targets, path, now)[j].name == strip_prefix_spec(targets[i], path),
    decreases targets.len(),
{
    let rest = listed_entries(store, targets.drop_last(), path, now);
    if j < rest.len() {
        let i = lemma_entry_has_target(store, targets.drop_last(), path, now, j);
        assert(targets.drop_last()[i] == targets[i]);
        i
    } else {
        targets.len() - 1
    }
}

/// Every target that the probe finds has its entry in the listing.
pub proof fn lemma_target_has_entry(
    store: StoreModel,
    targets: Seq<Seq<char>>,
    path: Seq<char>,
    now: UnixTime,
    i: int,
) -> (j: int)
    requires
        0 <= i < targets.len(),
        metadata_of(store, targets[i], now) is Ok,
    ensures
        0 <= j < listed_entries(store, targets, path, now).len(),
        listed_entries(store, targets, path, now)[j] == (EntryView {
            metadata: metadata_of(store, targets[i], now)->Ok_0,
            name: strip_prefix_spec(targets[i], path),
        }),
    decreases targets.len(),
{
    let rest = listed_entries(store, targets.drop_last(), path, now);
    if i < targets.len() - 1 {
        assert(targets.drop_last()[i] == targets[i]);
        lemma_target_has_entry(store, targets.drop_last(), path, now, i)
    } else {
        rest.len() as int
    }
}

/// The targets of a listing: the prefixes, then the keys but those of
/// the objects that mark collections.
pub proof fn lemma_targets_of_listing(store: StoreModel, prefix: Seq<char>)
    ensures
        listing_targets(listing_pages(store, prefix)) == prefix_targets(
            listed_prefixes(store, prefix).to_seq(),
        ) + key_targets(listed_keys(store, prefix).to_seq()),
{
    let pages = listing_pages(store, prefix);
    assert(pages.drop_last() =~= Seq::<ListPageView>::empty());
    assert(listing_targets(pages.drop_last()) =~= Seq::<Seq<char>>::empty());
    assert(listing_targets(pages) =~= page_targets(pages.last()));
}

/// A listing never shows the object that marks a collection: no entry is
/// named `.dir`.
pub proof fn law_listing_hides_markers(store: StoreModel, path: Seq<char>, now: UnixTime)
    requires
        store.objects.dom().finite(),
        read_dir_of(store, path, now) is Ok,
    ensures
        forall|j: int|
            0 <= j < read_dir_of(store, path, now)->Ok_0.len() ==> (#[trigger] read_dir_of(
                store,
                path,
                now,
            )->Ok_0[j]).name != dot_dir(),
{
    let prefix = list_prefix(path);
    let targets = listing_targets(listing_pages(store, prefix));
    let entries = read_dir_of(store, path, now)->Ok_0;
    let prefixes = listed_prefixes(store, prefix).to_seq();
    let keys = listed_keys(store, prefix).to_seq();
    lemma_targets_of_listing(store, prefix);
    lemma_listing_is_exact(store, prefix);
    lemma_prefix_targets(prefixes);
    lemma_key_targets(keys);
    assert forall|j: int| 0 <= j < entries.len() implies (#[trigger] entries[j]).name
        != dot_dir() by {
        let i = lemma_entry_has_target(store, targets, path, now, j);
        let target = targets[i];
        if i < prefixes.len() {
            let c = prefixes[i];
            assert(target == normalize(c));
            assert(prefixes.contains(c));
            assert(listed_prefixes(store, prefix).contains(c));
            let k = choose|k: Seq<char>|
                store.objects.dom().filter(|k: Seq<char>| is_rolled_up(k, prefix)).contains(k)
                    && c == rolled_prefix(k, prefix);
            lemma_segment_end_is_slash(k, prefix.len() as int);
            assert(c.last() == '/');
            assert(ends_with_char(target, '/'));
        } else {
            assert(target == key_targets(keys)[i - prefixes.len()]);
        }
        lemma_name_is_no_marker(target, path);
    }
}

/// A collection that was created right below the root shows in the
/// listing of the root, under its name with a slash, as a collection.
pub proof fn law_created_collection_is_listed(store: StoreModel, name: Seq<char>, now: UnixTime)
    requires
        store.objects.dom().finite(),
        name.len() > 0,
        forall|i: int| 0 <= i < name.len() ==> name[i] != '/',
        store.objects.contains_key(sentinel_key(name + root())),
    ensures
        read_dir_of(store, root(), now) is Ok,
        exists|j: int|
            0 <= j < read_dir_of(store, root(), now)->Ok_0.len() && (#[trigger] read_dir_of(
                store,
                root(),
                now,
            )->Ok_0[j]).name == name + root() && read_dir_of(
                store,
                root(),
                now,
            )->Ok_0[j].metadata.is_dir,
{
    let path = name + root();
    let key = path + dot_dir();
    assert(trim_token_spec(dot_dir()) =~= dot_dir());
    assert(key[0] == name[0]);
    assert(sentinel_key(path) == key);
    let prefix = list_prefix(root());
    assert(prefix =~= Seq::<char>::empty());
    assert(key.subrange(0, 0) =~= prefix);
    assert forall|i: int| 0 <= i < name.len() implies key[i] != '/' by {
        assert(key[i] == name[i]);
    }
    lemma_segment_ends_at_slash(key, 0, name.len() as int);
    assert(is_rolled_up(key, prefix));
    assert(rolled_prefix(key, prefix) =~= path);
    let rolled = store.objects.dom().filter(|k: Seq<char>| is_rolled_up(k, prefix));
    assert(rolled.contains(key));
    assert(listed_prefixes(store, prefix).contains(path));
    lemma_listing_is_exact(store, prefix);
    let prefixes = listed_prefixes(store, prefix).to_seq();
    let keys = listed_keys(store, prefix).to_seq();
    assert(prefixes.contains(path));
    let i = choose|i: int| 0 <= i < prefixes.len() && prefixes[i] == path;
    lemma_prefix_targets(prefixes);
    lemma_targets_of_listing(store, prefix);
    let targets = listing_targets(listing_pages(store, prefix));
    assert(path[0] == name[0]);
    assert(normalize(path) == path);
    assert(targets[i] == path);
    assert(!is_bucket_root(path));
    assert(metadata_of(store, path, now) is Ok);
    let j = lemma_target_has_entry(store, targets, root(), now, i);
    assert(!root().is_prefix_of(path)) by {
        if root().is_prefix_of(path) {
            assert(path.subrange(0, 1)[0] == root()[0]);
        }
    }
    assert(strip_prefix_spec(path, root()) == path);
    assert(is_bucket_root(root()));
    let entries = read_dir_of(store, root(), now)->Ok_0;
    assert(entries[j].name == path && entries[j].metadata.is_dir);
}

} // verus!
