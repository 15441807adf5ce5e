//! What a move of a resource comes to in a store.
use crate::error::FsError;
use crate::normalized_path::parent_spec;
use crate::s3_backend::filesystem::{
    is_bucket_root, new_copy_op, new_metadata_op, new_remove_file_op, new_rename_op, op_step,
    sentinel_key, CopyOpView, CopyStage, EventView, OpView, OutcomeView, RemoveFileOpView,
    RemoveFileStage, RenameOpView, RenameStage, StepView, TreeView,
};
use crate::s3_backend::metadata::{MetaView, UnixTime};
use crate::s3_backend::model::{
    law_probe_tells_what_is_stored, lemma_run_call, lemma_run_done, lemma_run_send, metadata_of,
    run, StoreModel,
};
use crate::s3_backend::protocol::{ReplyView, RequestView};
use crate::text::ends_with_char;
use vstd::prelude::*;

verus! {

/// The steps of the copy of one resource onto another, one by one.
pub proof fn lemma_copy_steps(
    from: Seq<char>,
    to: Seq<char>,
    above: Result<MetaView, FsError>,
    code: u16,
    now: UnixTime,
)
    requires
        !ends_with_char(from, '/'),
        !ends_with_char(to, '/'),
    ensures
        op_step(new_copy_op(from, to), EventView::Start, now) == StepView::Call(
            OpView::Copy(CopyOpView { from, to, stage: CopyStage::Parent }),
            new_metadata_op(parent_spec(to)),
        ),
        above is Ok ==> op_step(
            OpView::Copy(CopyOpView { from, to, stage: CopyStage::Parent }),
            EventView::Returned(OutcomeView::Meta(above)),
            now,
        ) == StepView::Send(
            OpView::Copy(CopyOpView { from, to, stage: CopyStage::Copy }),
            RequestView::CopyObject { from, to },
        ),
        op_step(
            OpView::Copy(CopyOpView { from, to, stage: CopyStage::Copy }),
            EventView::Reply(ReplyView::Status { code }),
            now,
        ) == if code == 200 {
            StepView::Done(OutcomeView::Unit(Ok(())))
        } else {
            StepView::Done(OutcomeView::Unit(Err(FsError::GeneralFailure)))
        },
{
    reveal(op_step);
}

/// The steps of the removal of a resource, one by one.
pub proof fn lemma_remove_file_steps(
    path: Seq<char>,
    dir_check: bool,
    found: Result<MetaView, FsError>,
    code: u16,
    now: UnixTime,
)
    ensures
        op_step(new_remove_file_op(path, dir_check), EventView::Start, now) == StepView::Call(
            OpView::RemoveFile(
                RemoveFileOpView { path, dir_check, stage: RemoveFileStage::Probe },
            ),
            new_metadata_op(path),
        ),
        op_step(
            OpView::RemoveFile(RemoveFileOpView { path, dir_check, stage: RemoveFileStage::Probe }),
            EventView::Returned(OutcomeView::Meta(found)),
            now,
        ) == match found {
            Err(e) => StepView::Done(OutcomeView::Unit(Err(e))),
            Ok(m) => if m.is_dir && dir_check {
                StepView::Done(OutcomeView::Unit(Err(FsError::Forbidden)))
            } else {
                StepView::Send(
                    OpView::RemoveFile(
                        RemoveFileOpView { path, dir_check, stage: RemoveFileStage::Delete },
                    ),
                    RequestView::DeleteObject { key: path },
                )
            },
        },
        op_step(
            OpView::RemoveFile(
                RemoveFileOpView { path, dir_check, stage: RemoveFileStage::Delete },
            ),
            EventView::Reply(ReplyView::Status { code }),
            now,
        ) == if code == 204 {
            StepView::Done(OutcomeView::Unit(Ok(())))
        } else {
            StepView::Done(OutcomeView::Unit(Err(FsError::GeneralFailure)))
        },
{
    reveal(op_step);
}

/// The steps of the move of one resource onto another, one by one.
pub proof fn lemma_rename_file_steps(
    from: Seq<char>,
    to: Seq<char>,
    done: Result<(), FsError>,
    now: UnixTime,
)
    requires
        !ends_with_char(from, '/'),
        !ends_with_char(to, '/'),
    ensures
        op_step(new_rename_op(from, to), EventView::Start, now) == StepView::Call(
            OpView::Rename(
                RenameOpView {
                    from,
                    to,
                    tree: TreeView { dirs: Seq::empty(), files: Seq::empty() },
                    index: 0,
                    stage: RenameStage::FileCopy,
                },
            ),
            new_copy_op(from, to),
        ),
        op_step(
            OpView::Rename(
                RenameOpView {
                    from,
                    to,
                    tree: TreeView { dirs: Seq::empty(), files: Seq::empty() },
                    index: 0,
                    stage: RenameStage::FileCopy,
                },
            ),
            EventView::Returned(OutcomeView::Unit(Ok(()))),
            now,
        ) == StepView::Call(
            OpView::Rename(
                RenameOpView {
                    from,
                    to,
                    tree: TreeView { dirs: Seq::empty(), files: Seq::empty() },
                    index: 0,
                    stage: RenameStage::FileRemove,
                },
            ),
            new_remove_file_op(from, true),
        ),
        op_step(
            OpView::Rename(
                RenameOpView {
                    from,
                    to,
                    tree: TreeView { dirs: Seq::empty(), files: Seq::empty() },
                    index: 0,
                    stage: RenameStage::FileRemove,
                },
            ),
            EventView::Returned(OutcomeView::Unit(done)),
            now,
        ) == StepView::Done(OutcomeView::Unit(done)),
{
    reveal(op_step);
}

/// The store after the object of `from` was copied to `to`.
pub open spec fn with_copy(store: StoreModel, from: Seq<char>, to: Seq<char>) -> StoreModel {
    StoreModel { objects: store.objects.insert(to, store.objects[from]), ..store }
}

/// The store after the object of `from` was moved to `to`.
pub open spec fn with_move(store: StoreModel, from: Seq<char>, to: Seq<char>) -> StoreModel {
    StoreModel { objects: store.objects.insert(to, store.objects[from]).remove(from), ..store }
}

/// Two paths of which neither is the other, nor the object that marks
/// the other as a collection.
pub open spec fn apart(from: Seq<char>, to: Seq<char>) -> bool {
    &&& from != to
    &&& sentinel_key(from) != to
    &&& sentinel_key(to) != from
}

/// A resource that is there, copied to a place below a collection that
/// is there, is stored at both places.
pub proof fn law_copy_of_resource(
    store: StoreModel,
    from: Seq<char>,
    to: Seq<char>,
    now: UnixTime,
    fuel: nat,
)
    requires
        !ends_with_char(from, '/'),
        !ends_with_char(to, '/'),
        store.objects.contains_key(from),
        metadata_of(store, parent_spec(to), now) is Ok,
        fuel >= 4,
    ensures
        run(new_copy_op(from, to), store, now, fuel) == Some(
            (with_copy(store, from, to), OutcomeView::Unit(Ok(()))),
        ),
{
    let above = metadata_of(store, parent_spec(to), now);
    lemma_copy_steps(from, to, above, 200, now);
    let asking = OpView::Copy(CopyOpView { from, to, stage: CopyStage::Parent });
    let copying = OpView::Copy(CopyOpView { from, to, stage: CopyStage::Copy });
    let one = (fuel - 1) as nat;
    lemma_run_call(asking, new_metadata_op(parent_spec(to)), store, now, fuel);
    law_probe_tells_what_is_stored(store, parent_spec(to), now, one);
    lemma_run_send(copying, RequestView::CopyObject { from, to }, store, now, one);
    lemma_run_done(OutcomeView::Unit(Ok(())), with_copy(store, from, to), now, (fuel - 2) as nat);
}

/// A resource that is there and is no collection is removed with its
/// object.
pub proof fn law_removal_of_resource(store: StoreModel, path: Seq<char>, now: UnixTime, fuel: nat)
    requires
        !is_bucket_root(path),
        !store.objects.contains_key(sentinel_key(path)),
        store.objects.contains_key(path),
        fuel >= 4,
    ensures
        run(new_remove_file_op(path, true), store, now, fuel) == Some(
            (
                StoreModel { objects: store.objects.remove(path), ..store },
                OutcomeView::Unit(Ok(())),
            ),
        ),
{
    let found = metadata_of(store, path, now);
    lemma_remove_file_steps(path, true, found, 204, now);
    let probing = OpView::RemoveFile(
        RemoveFileOpView { path, dir_check: true, stage: RemoveFileStage::Probe },
    );
    let deleting = OpView::RemoveFile(
        RemoveFileOpView { path, dir_check: true, stage: RemoveFileStage::Delete },
    );
    let one = (fuel - 1) as nat;
    lemma_run_call(probing, new_metadata_op(path), store, now, fuel);
    law_probe_tells_what_is_stored(store, path, now, one);
    lemma_run_send(deleting, RequestView::DeleteObject { key: path }, store, now, one);
    lemma_run_done(
        OutcomeView::Unit(Ok(())),
        StoreModel { objects: store.objects.remove(path), ..store },
        now,
        (fuel - 2) as nat,
    );
}

/// A resource that was moved is found no more at the place it left, and
/// at the place it went to it is found as a resource of the same length.
pub proof fn law_moved_resource_follows(
    store: StoreModel,
    from: Seq<char>,
    to: Seq<char>,
    now: UnixTime,
    fuel: nat,
)
    requires
        !ends_with_char(from, '/'),
        !ends_with_char(to, '/'),
        !is_bucket_root(from),
        !is_bucket_root(to),
        apart(from, to),
        store.objects.contains_key(from),
        !store.objects.contains_key(sentinel_key(from)),
        !store.objects.contains_key(sentinel_key(to)),
        metadata_of(store, parent_spec(to), now) is Ok,
        fuel >= 9,
    ensures
        run(new_rename_op(from, to), store, now, fuel) == Some(
            (with_move(store, from, to), OutcomeView::Unit(Ok(()))),
        ),
        metadata_of(with_move(store, from, to), from, now) == Err::<MetaView, FsError>(
            FsError::NotFound,
        ),
        metadata_of(with_move(store, from, to), to, now) is Ok,
        !metadata_of(with_move(store, from, to), to, now)->Ok_0.is_dir,
        metadata_of(with_move(store, from, to), to, now)->Ok_0.len == metadata_of(
            store,
            from,
            now,
        )->Ok_0.len,
{
    lemma_rename_file_steps(from, to, Ok(()), now);
    let none = TreeView { dirs: Seq::empty(), files: Seq::empty() };
    let copying = OpView::Rename(
        RenameOpView { from, to, tree: none, index: 0, stage: RenameStage::FileCopy },
    );
    let removing = OpView::Rename(
        RenameOpView { from, to, tree: none, index: 0, stage: RenameStage::FileRemove },
    );
    let one = (fuel - 1) as nat;
    let copied = with_copy(store, from, to);
    lemma_run_call(copying, new_copy_op(from, to), store, now, fuel);
    law_copy_of_resource(store, from, to, now, one);
    lemma_run_call(removing, new_remove_file_op(from, true), copied, now, one);
    law_removal_of_resource(copied, from, now, (one - 1) as nat);
    let moved = StoreModel { objects: copied.objects.remove(from), ..copied };
    assert(moved == with_move(store, from, to));
    lemma_run_done(OutcomeView::Unit(Ok(())), moved, now, (one - 1) as nat);
}

} // verus!
