//! What the move of a collection comes to in a store.
//!
//! The move is described in two layers. The first says what each
//! operation that the move is made of does to a store, in one step each,
//! and that a run of the operation comes to just that. The second follows
//! the move through the tree that its walk finds.
use crate::error::FsError;
use crate::normalized_path::parent_spec;
use crate::s3_backend::filesystem::{
    copy_source, copy_target, new_copy_op, new_create_dir_op, new_metadata_op, new_read_dir_op,
    new_remove_dir_op, new_remove_file_op, new_rename_op, new_walk_op, op_step, rename_next_copy,
    rename_next_create, rename_next_drop, sentinel_key, walk_add, walk_next, CopyOpView, CopyStage,
    EventView, OpView, OutcomeView, RemoveDirOpView, RemoveDirStage, RemoveFileOpView,
    RemoveFileStage, RenameOpView, RenameStage, StepView, TreeView, WalkOpView, WalkStage,
};
use crate::s3_backend::metadata::UnixTime;
use crate::s3_backend::model::{
    create_dir_of, law_creation_does_what_it_says, law_listing_tells_what_is_stored,
    law_probe_tells_what_is_stored, lemma_run_call, lemma_run_done, lemma_run_send, metadata_of,
    read_dir_of, run, run_step, StoreModel,
};
use crate::s3_backend::moving::with_copy;
use crate::s3_backend::protocol::{ReplyView, RequestView};
use crate::text::ends_with_char;
use vstd::prelude::*;

verus! {

/// What the removal of a resource comes to in a store: the path must name
/// something, and with `dir_check` no collection; then its object goes.
pub open spec fn remove_file_of(store: StoreModel, path: Seq<char>, dir_check: bool, now: UnixTime) -> (
    StoreModel,
    Result<(), FsError>,
) {
    match metadata_of(store, path, now) {
        Err(e) => (store, Err(e)),
        Ok(m) => if m.is_dir && dir_check {
            (store, Err(FsError::Forbidden))
        } else {
            (StoreModel { objects: store.objects.remove(path), ..store }, Ok(()))
        },
    }
}

/// What the removal of a collection comes to in a store: the path must
/// name a collection; then the object that marks it goes.
pub open spec fn remove_dir_of(store: StoreModel, path: Seq<char>, now: UnixTime) -> (
    StoreModel,
    Result<(), FsError>,
) {
    match metadata_of(store, path, now) {
        Err(e) => (store, Err(e)),
        Ok(m) => if !m.is_dir {
            (store, Err(FsError::Forbidden))
        } else {
            remove_file_of(store, sentinel_key(path), false, now)
        },
    }
}

/// What the store does with a copy from one key to another.
pub open spec fn copy_sent(store: StoreModel, from: Seq<char>, to: Seq<char>) -> (
    StoreModel,
    Result<(), FsError>,
) {
    if store.objects.contains_key(from) {
        (with_copy(store, from, to), Ok(()))
    } else {
        (store, Err(FsError::GeneralFailure))
    }
}

/// What a copy comes to in a store: the collection above the destination
/// is created where the probe does not find it; then the store copies.
pub open spec fn copy_of(store: StoreModel, from: Seq<char>, to: Seq<char>, now: UnixTime) -> (
    StoreModel,
    Result<(), FsError>,
) {
    let source = copy_source(from, to);
    let target = copy_target(from, to);
    let above = parent_spec(target);
    match metadata_of(store, above, now) {
        Ok(_) => copy_sent(store, source, target),
        Err(_) => {
            let (made, r) = create_dir_of(store, above, now);
            match r {
                Err(e) => (made, Err(e)),
                Ok(_) => copy_sent(made, source, target),
            }
        },
    }
}

/// The removal of a resource, run against a store, comes to what
/// `remove_file_of` says, whenever it is given steps enough to end; three
/// are enough.
pub proof fn lemma_removal_runs(
    store: StoreModel,
    path: Seq<char>,
    dir_check: bool,
    now: UnixTime,
    fuel: nat,
)
    requires
        run(new_remove_file_op(path, dir_check), store, now, fuel) is Some || fuel >= 3,
    ensures
        run(new_remove_file_op(path, dir_check), store, now, fuel) == Some(
            (
                remove_file_of(store, path, dir_check, now).0,
                OutcomeView::Unit(remove_file_of(store, path, dir_check, now).1),
            ),
        ),
{
    let probing = RemoveFileOpView { path, dir_check, stage: RemoveFileStage::Probe };
    let deleting = RemoveFileOpView { path, dir_check, stage: RemoveFileStage::Delete };
    let found = metadata_of(store, path, now);
    assert(op_step(new_remove_file_op(path, dir_check), EventView::Start, now) == StepView::Call(
        OpView::RemoveFile(probing),
        new_metadata_op(path),
    )) by {
        reveal(op_step);
    }
    let one = (fuel - 1) as nat;
    lemma_run_call(OpView::RemoveFile(probing), new_metadata_op(path), store, now, fuel);
    law_probe_tells_what_is_stored(store, path, now, one);
    let next = op_step(
        OpView::RemoveFile(probing),
        EventView::Returned(OutcomeView::Meta(found)),
        now,
    );
    assert(next == match found {
        Err(e) => StepView::Done(OutcomeView::Unit(Err(e))),
        Ok(m) => if m.is_dir && dir_check {
            StepView::Done(OutcomeView::Unit(Err(FsError::Forbidden)))
        } else {
            StepView::Send(OpView::RemoveFile(deleting), RequestView::DeleteObject { key: path })
        },
    }) by {
        reveal(op_step);
    }
    match found {
        Err(e) => {
            lemma_run_done(OutcomeView::Unit(Err(e)), store, now, one);
        },
        Ok(m) => {
            if m.is_dir && dir_check {
                lemma_run_done(OutcomeView::Unit(Err(FsError::Forbidden)), store, now, one);
            } else {
                let gone = StoreModel { objects: store.objects.remove(path), ..store };
                lemma_run_send(
                    OpView::RemoveFile(deleting),
                    RequestView::DeleteObject { key: path },
                    store,
                    now,
                    one,
                );
                assert(op_step(
                    OpView::RemoveFile(deleting),
                    EventView::Reply(ReplyView::Status { code: 204 }),
                    now,
                ) == StepView::Done(OutcomeView::Unit(Ok(())))) by {
                    reveal(op_step);
                }
                lemma_run_done(OutcomeView::Unit(Ok(())), gone, now, (one - 1) as nat);
            }
        },
    }
}

/// The removal of a collection, run against a store, comes to what
/// `remove_dir_of` says, whenever it is given steps enough to end; five
/// are enough.
pub proof fn lemma_dir_removal_runs(store: StoreModel, path: Seq<char>, now: UnixTime, fuel: nat)
    requires
        run(new_remove_dir_op(path), store, now, fuel) is Some || fuel >= 5,
    ensures
        run(new_remove_dir_op(path), store, now, fuel) == Some(
            (remove_dir_of(store, path, now).0, OutcomeView::Unit(remove_dir_of(store, path, now).1)),
        ),
{
    let probing = RemoveDirOpView { path, stage: RemoveDirStage::Probe };
    let marking = RemoveDirOpView { path, stage: RemoveDirStage::Sentinel };
    let found = metadata_of(store, path, now);
    let marker = sentinel_key(path);
    assert(op_step(new_remove_dir_op(path), EventView::Start, now) == StepView::Call(
        OpView::RemoveDir(probing),
        new_metadata_op(path),
    )) by {
        reveal(op_step);
    }
    let one = (fuel - 1) as nat;
    lemma_run_call(OpView::RemoveDir(probing), new_metadata_op(path), store, now, fuel);
    law_probe_tells_what_is_stored(store, path, now, one);
    assert(op_step(OpView::RemoveDir(probing), EventView::Returned(OutcomeView::Meta(found)), now)
        == match found {
        Err(e) => StepView::Done(OutcomeView::Unit(Err(e))),
        Ok(m) => if !m.is_dir {
            StepView::Done(OutcomeView::Unit(Err(FsError::Forbidden)))
        } else {
            StepView::Call(OpView::RemoveDir(marking), new_remove_file_op(marker, false))
        },
    }) by {
        reveal(op_step);
    }
    match found {
        Err(e) => {
            lemma_run_done(OutcomeView::Unit(Err(e)), store, now, one);
        },
        Ok(m) => {
            if !m.is_dir {
                lemma_run_done(OutcomeView::Unit(Err(FsError::Forbidden)), store, now, one);
            } else {
                let two = (one - 1) as nat;
                lemma_run_call(
                    OpView::RemoveDir(marking),
                    new_remove_file_op(marker, false),
                    store,
                    now,
                    one,
                );
                lemma_removal_runs(store, marker, false, now, two);
                let (after, r) = remove_file_of(store, marker, false, now);
                assert(op_step(
                    OpView::RemoveDir(marking),
                    EventView::Returned(OutcomeView::Unit(r)),
                    now,
                ) == StepView::Done(OutcomeView::Unit(r))) by {
                    reveal(op_step);
                }
                lemma_run_done(OutcomeView::Unit(r), after, now, two);
            }
        },
    }
}

/// A copy that is sent to the store comes to what `copy_sent` says.
proof fn lemma_copy_is_sent(
    store: StoreModel,
    from: Seq<char>,
    to: Seq<char>,
    now: UnixTime,
    fuel: nat,
)
    requires
        fuel > 0,
    ensures
        run_step(
            StepView::Send(
                OpView::Copy(CopyOpView { from, to, stage: CopyStage::Copy }),
                RequestView::CopyObject { from, to },
            ),
            store,
            now,
            fuel,
        ) == Some((copy_sent(store, from, to).0, OutcomeView::Unit(copy_sent(store, from, to).1))),
{
    let copying = OpView::Copy(CopyOpView { from, to, stage: CopyStage::Copy });
    lemma_run_send(copying, RequestView::CopyObject { from, to }, store, now, fuel);
    let one = (fuel - 1) as nat;
    assert(forall|code: u16|
        #[trigger] op_step(copying, EventView::Reply(ReplyView::Status { code }), now) == if code
            == 200 {
            StepView::Done(OutcomeView::Unit(Ok(())))
        } else {
            StepView::Done(OutcomeView::Unit(Err(FsError::GeneralFailure)))
        }) by {
        reveal(op_step);
    }
    if store.objects.contains_key(from) {
        lemma_run_done(OutcomeView::Unit(Ok(())), with_copy(store, from, to), now, one);
    } else {
        lemma_run_done(OutcomeView::Unit(Err(FsError::GeneralFailure)), store, now, one);
    }
}

/// A copy, run against a store, comes to what `copy_of` says, whenever
/// it is given steps enough to end; six are enough.
pub proof fn lemma_copy_runs(
    store: StoreModel,
    from: Seq<char>,
    to: Seq<char>,
    now: UnixTime,
    fuel: nat,
)
    requires
        run(new_copy_op(from, to), store, now, fuel) is Some || fuel >= 6,
    ensures
        run(new_copy_op(from, to), store, now, fuel) == Some(
            (copy_of(store, from, to, now).0, OutcomeView::Unit(copy_of(store, from, to, now).1)),
        ),
{
    let source = copy_source(from, to);
    let target = copy_target(from, to);
    let above = parent_spec(target);
    let asking = OpView::Copy(CopyOpView { from: source, to: target, stage: CopyStage::Parent });
    let making = OpView::Copy(
        CopyOpView { from: source, to: target, stage: CopyStage::MakeParent },
    );
    let copying = OpView::Copy(CopyOpView { from: source, to: target, stage: CopyStage::Copy });
    let send = StepView::Send(copying, RequestView::CopyObject { from: source, to: target });
    assert(op_step(new_copy_op(from, to), EventView::Start, now) == StepView::Call(
        asking,
        new_metadata_op(above),
    )) by {
        reveal(op_step);
    }
    let found = metadata_of(store, above, now);
    assert(op_step(asking, EventView::Returned(OutcomeView::Meta(found)), now) == match found {
        Ok(_) => send,
        Err(_) => StepView::Call(making, new_create_dir_op(above)),
    }) by {
        reveal(op_step);
    }
    assert(forall|r: Result<(), FsError>|
        #[trigger] op_step(making, EventView::Returned(OutcomeView::Unit(r)), now) == match r {
            Err(e) => StepView::Done(OutcomeView::Unit(Err(e))),
            Ok(_) => send,
        }) by {
        reveal(op_step);
    }
    let one = (fuel - 1) as nat;
    lemma_run_call(asking, new_metadata_op(above), store, now, fuel);
    law_probe_tells_what_is_stored(store, above, now, one);
    match found {
        Ok(_) => {
            lemma_copy_is_sent(store, source, target, now, one);
        },
        Err(_) => {
            let two = (one - 1) as nat;
            lemma_run_call(making, new_create_dir_op(above), store, now, one);
            law_creation_does_what_it_says(store, above, now, two);
            let (made, r) = create_dir_of(store, above, now);
            match r {
                Err(e) => {
                    lemma_run_done(OutcomeView::Unit(Err(e)), made, now, two);
                },
                Ok(_) => {
                    lemma_copy_is_sent(made, source, target, now, two);
                },
            }
        },
    }
}

/// The end of a move: the source collections from the `i`-th back to the
/// first are removed; the first failure ends it.
pub open spec fn drop_from(store: StoreModel, tree: TreeView, i: nat, now: UnixTime) -> (
    StoreModel,
    Result<(), FsError>,
)
    decreases i,
{
    if i == 0 || i > tree.dirs.len() {
        (store, Ok(()))
    } else {
        let (s, r) = remove_dir_of(store, tree.dirs[i - 1].0, now);
        match r {
            Err(e) => (s, Err(e)),
            Ok(_) => drop_from(s, tree, (i - 1) as nat, now),
        }
    }
}

/// The middle of a move: the resources from the `i`-th on are copied to
/// their new places and removed from their old ones; then the source
/// collections are dropped.
pub open spec fn carry_from(store: StoreModel, tree: TreeView, i: nat, now: UnixTime) -> (
    StoreModel,
    Result<(), FsError>,
)
    decreases tree.files.len() - i,
{
    if i >= tree.files.len() {
        drop_from(store, tree, tree.dirs.len(), now)
    } else {
        let (s, r) = copy_of(store, tree.files[i as int].0, tree.files[i as int].1, now);
        match r {
            Err(e) => (s, Err(e)),
            Ok(_) => {
                let (t, q) = remove_file_of(s, tree.files[i as int].0, true, now);
                match q {
                    Err(e) => (t, Err(e)),
                    Ok(_) => carry_from(t, tree, i + 1, now),
                }
            },
        }
    }
}

/// The move of a tree: the collections from the `i`-th on are created at
/// their new places; then the resources are carried over.
pub open spec fn create_from(store: StoreModel, tree: TreeView, i: nat, now: UnixTime) -> (
    StoreModel,
    Result<(), FsError>,
)
    decreases tree.dirs.len() - i,
{
    if i >= tree.dirs.len() {
        carry_from(store, tree, 0, now)
    } else {
        let (s, r) = create_dir_of(store, tree.dirs[i as int].1, now);
        match r {
            Err(e) => (s, Err(e)),
            Ok(_) => create_from(s, tree, i + 1, now),
        }
    }
}

/// The last part of a move, run against a store, comes to what
/// `drop_from` says, whenever it is given steps enough to end; five more
/// than there are collections to drop are enough.
pub proof fn lemma_drop_runs(op: RenameOpView, store: StoreModel, now: UnixTime, fuel: nat)
    requires
        op.index <= op.tree.dirs.len(),
        run_step(rename_next_drop(op), store, now, fuel) is Some || fuel >= op.index + 5,
    ensures
        run_step(rename_next_drop(op), store, now, fuel) == Some(
            (
                drop_from(store, op.tree, op.index, now).0,
                OutcomeView::Unit(drop_from(store, op.tree, op.index, now).1),
            ),
        ),
    decreases op.index,
{
    if op.index == 0 {
        lemma_run_done(OutcomeView::Unit(Ok(())), store, now, fuel);
    } else {
        let path = op.tree.dirs[op.index - 1].0;
        let dropping = RenameOpView { stage: RenameStage::Drop, ..op };
        let one = (fuel - 1) as nat;
        lemma_run_call(OpView::Rename(dropping), new_remove_dir_op(path), store, now, fuel);
        lemma_dir_removal_runs(store, path, now, one);
        let (s, r) = remove_dir_of(store, path, now);
        let less = RenameOpView { index: (op.index - 1) as nat, ..dropping };
        assert(op_step(OpView::Rename(dropping), EventView::Returned(OutcomeView::Unit(r)), now)
            == match r {
            Err(e) => StepView::Done(OutcomeView::Unit(Err(e))),
            Ok(_) => rename_next_drop(less),
        }) by {
            reveal(op_step);
        }
        match r {
            Err(e) => {
                lemma_run_done(OutcomeView::Unit(Err(e)), s, now, one);
            },
            Ok(_) => {
                lemma_drop_runs(less, s, now, one);
            },
        }
    }
}

/// The middle part of a move, run against a store, comes to what
/// `carry_from` says, whenever it is given steps enough to end; two for
/// each resource to carry, one for each collection, and five more are
/// enough.
pub proof fn lemma_carry_runs(op: RenameOpView, store: StoreModel, now: UnixTime, fuel: nat)
    requires
        op.index <= op.tree.files.len(),
        run_step(rename_next_copy(op), store, now, fuel) is Some || fuel >= 2 * (
        op.tree.files.len() - op.index) + op.tree.dirs.len() + 5,
    ensures
        run_step(rename_next_copy(op), store, now, fuel) == Some(
            (
                carry_from(store, op.tree, op.index, now).0,
                OutcomeView::Unit(carry_from(store, op.tree, op.index, now).1),
            ),
        ),
    decreases op.tree.files.len() - op.index,
{
    if op.index >= op.tree.files.len() {
        lemma_drop_runs(
            RenameOpView { index: op.tree.dirs.len(), ..op },
            store,
            now,
            fuel,
        );
    } else {
        let (src, dst) = op.tree.files[op.index as int];
        let copying = RenameOpView { stage: RenameStage::Copy, ..op };
        let removing = RenameOpView { stage: RenameStage::Remove, ..op };
        let more = RenameOpView { index: op.index + 1, ..removing };
        let one = (fuel - 1) as nat;
        lemma_run_call(OpView::Rename(copying), new_copy_op(src, dst), store, now, fuel);
        lemma_copy_runs(store, src, dst, now, one);
        let (s, r) = copy_of(store, src, dst, now);
        assert(op_step(OpView::Rename(copying), EventView::Returned(OutcomeView::Unit(r)), now)
            == match r {
            Err(e) => StepView::Done(OutcomeView::Unit(Err(e))),
            Ok(_) => StepView::Call(OpView::Rename(removing), new_remove_file_op(src, true)),
        }) by {
            reveal(op_step);
        }
        assert(forall|q: Result<(), FsError>|
            #[trigger] op_step(
                OpView::Rename(removing),
                EventView::Returned(OutcomeView::Unit(q)),
                now,
            ) == match q {
                Err(e) => StepView::Done(OutcomeView::Unit(Err(e))),
                Ok(_) => rename_next_copy(more),
            }) by {
            reveal(op_step);
        }
        match r {
            Err(e) => {
                lemma_run_done(OutcomeView::Unit(Err(e)), s, now, one);
            },
            Ok(_) => {
                let two = (one - 1) as nat;
                lemma_run_call(
                    OpView::Rename(removing),
                    new_remove_file_op(src, true),
                    s,
                    now,
                    one,
                );
                lemma_removal_runs(s, src, true, now, two);
                let (t, q) = remove_file_of(s, src, true, now);
                match q {
                    Err(e) => {
                        lemma_run_done(OutcomeView::Unit(Err(e)), t, now, two);
                    },
                    Ok(_) => {
                        lemma_carry_runs(more, t, now, two);
                    },
                }
            },
        }
    }
}

/// The move of a tree, run against a store, comes to what `create_from`
/// says, whenever it is given steps enough to end; one for each
/// collection to create, one for each collection, two for each resource,
/// and five more are enough.
pub proof fn lemma_create_runs(op: RenameOpView, store: StoreModel, now: UnixTime, fuel: nat)
    requires
        op.index <= op.tree.dirs.len(),
        run_step(rename_next_create(op), store, now, fuel) is Some || fuel >= 2 * op.tree.dirs.len()
            - op.index + 2 * op.tree.files.len() + 5,
    ensures
        run_step(rename_next_create(op), store, now, fuel) == Some(
            (
                create_from(store, op.tree, op.index, now).0,
                OutcomeView::Unit(create_from(store, op.tree, op.index, now).1),
            ),
        ),
    decreases op.tree.dirs.len() - op.index,
{
    if op.index >= op.tree.dirs.len() {
        lemma_carry_runs(RenameOpView { index: 0, ..op }, store, now, fuel);
    } else {
        let path = op.tree.dirs[op.index as int].1;
        let creating = RenameOpView { stage: RenameStage::Create, ..op };
        let more = RenameOpView { index: op.index + 1, ..creating };
        let one = (fuel - 1) as nat;
        lemma_run_call(OpView::Rename(creating), new_create_dir_op(path), store, now, fuel);
        law_creation_does_what_it_says(store, path, now, one);
        let (s, r) = create_dir_of(store, path, now);
        assert(op_step(OpView::Rename(creating), EventView::Returned(OutcomeView::Unit(r)), now)
            == match r {
            Err(e) => StepView::Done(OutcomeView::Unit(Err(e))),
            Ok(_) => rename_next_create(more),
        }) by {
            reveal(op_step);
        }
        match r {
            Err(e) => {
                lemma_run_done(OutcomeView::Unit(Err(e)), s, now, one);
            },
            Ok(_) => {
                lemma_create_runs(more, s, now, one);
            },
        }
    }
}

/// The tree that a walk starts with: the collection to walk and its
/// mirror.
pub open spec fn first_tree(from: Seq<char>, to: Seq<char>) -> TreeView {
    TreeView { dirs: seq![(from, to)], files: Seq::empty() }
}

/// The tree with what the listing of its `i`-th collection adds to it.
pub open spec fn grown(store: StoreModel, tree: TreeView, i: nat, now: UnixTime) -> TreeView {
    walk_add(
        tree,
        tree.dirs[i as int].0,
        tree.dirs[i as int].1,
        read_dir_of(store, tree.dirs[i as int].0, now)->Ok_0,
    )
}

/// What a walk comes to in a store: the collections of the tree are
/// listed from the `i`-th on, in at most `n` listings, and what each
/// listing finds is added to the tree. A listing that fails ends the walk.
pub open spec fn walk_from(store: StoreModel, tree: TreeView, i: nat, now: UnixTime, n: nat) -> Option<
    Result<TreeView, FsError>,
>
    decreases n,
{
    if i >= tree.dirs.len() {
        Some(Ok(tree))
    } else if n == 0 {
        None
    } else {
        match read_dir_of(store, tree.dirs[i as int].0, now) {
            Err(e) => Some(Err(e)),
            Ok(_) => walk_from(store, grown(store, tree, i, now), i + 1, now, (n - 1) as nat),
        }
    }
}

/// A walk, run against a store, leaves the store as it is and comes to
/// what `walk_from` says.
pub proof fn lemma_walk_runs(op: WalkOpView, store: StoreModel, now: UnixTime, fuel: nat)
    requires
        run_step(walk_next(op), store, now, fuel) is Some,
    ensures
        walk_from(store, op.tree, op.index, now, fuel) is Some,
        run_step(walk_next(op), store, now, fuel) == Some(
            (store, OutcomeView::Tree(walk_from(store, op.tree, op.index, now, fuel)->Some_0)),
        ),
    decreases fuel,
{
    if op.index >= op.tree.dirs.len() {
        lemma_run_done(OutcomeView::Tree(Ok(op.tree)), store, now, fuel);
    } else {
        let (src, dst) = op.tree.dirs[op.index as int];
        let listing = WalkOpView { stage: WalkStage::List, ..op };
        let one = (fuel - 1) as nat;
        lemma_run_call(OpView::Walk(listing), new_read_dir_op(src), store, now, fuel);
        law_listing_tells_what_is_stored(store, src, now, one);
        let found = read_dir_of(store, src, now);
        let more = WalkOpView {
            tree: grown(store, op.tree, op.index, now),
            index: op.index + 1,
            ..listing
        };
        assert(op_step(OpView::Walk(listing), EventView::Returned(OutcomeView::Entries(found)), now)
            == match found {
            Err(e) => StepView::Done(OutcomeView::Tree(Err(e))),
            Ok(_) => walk_next(more),
        }) by {
            reveal(op_step);
        }
        match found {
            Err(e) => {
                lemma_run_done(OutcomeView::Tree(Err(e)), store, now, one);
            },
            Ok(_) => {
                lemma_walk_runs(more, store, now, one);
            },
        }
    }
}

/// What the move of one collection onto another comes to in a store: the
/// source is walked, in at most `n` listings, and the tree that is found
/// is moved. `None` where `n` listings are not enough.
pub open spec fn move_of(store: StoreModel, from: Seq<char>, to: Seq<char>, now: UnixTime, n: nat) -> Option<
    (StoreModel, Result<(), FsError>),
> {
    match walk_from(store, first_tree(from, to), 0, now, n) {
        None => None,
        Some(Err(e)) => Some((store, Err(e))),
        Some(Ok(tree)) => Some(create_from(store, tree, 0, now)),
    }
}

/// The move of one collection onto another, run against a store, comes
/// to what `move_of` says.
pub proof fn law_move_does_what_it_says(
    store: StoreModel,
    from: Seq<char>,
    to: Seq<char>,
    now: UnixTime,
    fuel: nat,
)
    requires
        ends_with_char(from, '/'),
        ends_with_char(to, '/'),
        run(new_rename_op(from, to), store, now, fuel) is Some,
    ensures
        move_of(store, from, to, now, (fuel - 1) as nat) is Some,
        run(new_rename_op(from, to), store, now, fuel) == Some(
            (
                move_of(store, from, to, now, (fuel - 1) as nat)->Some_0.0,
                OutcomeView::Unit(move_of(store, from, to, now, (fuel - 1) as nat)->Some_0.1),
            ),
        ),
{
    let none = TreeView { dirs: Seq::empty(), files: Seq::empty() };
    let walking = RenameOpView { from, to, tree: none, index: 0, stage: RenameStage::Walk };
    let start = WalkOpView { tree: first_tree(from, to), index: 0, stage: WalkStage::Start };
    assert(op_step(new_rename_op(from, to), EventView::Start, now) == StepView::Call(
        OpView::Rename(walking),
        new_walk_op(from, to),
    )) by {
        reveal(op_step);
    }
    assert(op_step(new_walk_op(from, to), EventView::Start, now) == walk_next(start)) by {
        reveal(op_step);
    }
    assert(forall|r: Result<TreeView, FsError>|
        #[trigger] op_step(
            OpView::Rename(walking),
            EventView::Returned(OutcomeView::Tree(r)),
            now,
        ) == match r {
            Err(e) => StepView::Done(OutcomeView::Unit(Err(e))),
            Ok(tree) => rename_next_create(RenameOpView { tree, index: 0, ..walking }),
        }) by {
        reveal(op_step);
    }
    let one = (fuel - 1) as nat;
    lemma_run_call(OpView::Rename(walking), new_walk_op(from, to), store, now, fuel);
    lemma_walk_runs(start, store, now, one);
    match walk_from(store, first_tree(from, to), 0, now, one)->Some_0 {
        Err(e) => {
            lemma_run_done(OutcomeView::Unit(Err(e)), store, now, one);
        },
        Ok(tree) => {
            lemma_create_runs(RenameOpView { tree, index: 0, ..walking }, store, now, one);
        },
    }
}

} // verus!
