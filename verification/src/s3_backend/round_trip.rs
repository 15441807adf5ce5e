//! What is written to a resource through its file is what is read back.
use crate::error::FsError;
use crate::s3_backend::filesystem::{
    is_bucket_root, meta_from_head, new_metadata_op, new_open_op, op_step, open_finish,
    sentinel_key, EventView, FileView, OpView, OpenOpView, OpenStage, OutcomeView, StepView,
};
use crate::s3_backend::metadata::{MetaView, UnixTime};
use crate::s3_backend::model::{
    assembled, head_of, law_probe_tells_what_is_stored, lemma_run_call, lemma_run_done,
    lemma_run_send, metadata_of, no_head, respond, run, StoreModel, UploadModel,
};
use crate::s3_backend::partial_open_file::{
    multipart_flush, multipart_opened, multipart_resume, multipart_write, parts_of, MultipartStage,
    MultipartView,
};
use crate::s3_backend::protocol::{ReplyView, RequestView};
use crate::s3_backend::simple_open_file::{
    options_valid, read_data, simple_opened, FileStepView, OpenOptions,
};
use crate::serde_types::{HeadView, PartView};
use crate::text::{decimal, dot_dir};
use vstd::prelude::*;

verus! {

/// The options with which a resource is written anew.
pub open spec fn for_writing() -> OpenOptions {
    OpenOptions {
        read: false,
        write: true,
        append: false,
        truncate: true,
        create: true,
        create_new: false,
    }
}

/// The options with which a resource is read.
pub open spec fn for_reading() -> OpenOptions {
    OpenOptions {
        read: true,
        write: false,
        append: false,
        truncate: false,
        create: false,
        create_new: false,
    }
}

/// The file, the store and the result after a step of a multipart file
/// was followed to the end of the call, in at most `fuel` requests.
pub open spec fn file_run(
    file: MultipartView,
    step: FileStepView,
    store: StoreModel,
    now: UnixTime,
    fuel: nat,
) -> Option<(MultipartView, StoreModel, Result<(), FsError>)>
    decreases fuel,
{
    match step {
        FileStepView::Done(result) => Some((file, store, result)),
        FileStepView::Send(request) => if fuel == 0 {
            None
        } else {
            let (after, reply) = respond(store, request);
            let (next, then) = multipart_resume(file, reply, now);
            file_run(next, then, after, now, (fuel - 1) as nat)
        },
    }
}

/// The head that the store tells of a key.
pub open spec fn head_in(store: StoreModel, key: Seq<char>) -> HeadView {
    if store.objects.contains_key(key) {
        head_of(store.objects[key])
    } else {
        no_head()
    }
}

/// The steps of opening a resource, one by one.
pub proof fn lemma_open_steps(
    path: Seq<char>,
    options: OpenOptions,
    found: Result<MetaView, FsError>,
    code: u16,
    head: HeadView,
    kept: MetaView,
    data: Seq<u8>,
    upload_id: Seq<char>,
    now: UnixTime,
)
    requires
        options_valid(options),
    ensures
        op_step(new_open_op(path, options), EventView::Start, now) == StepView::Call(
            OpView::Open(OpenOpView { path, options, metadata: None, stage: OpenStage::Probe }),
            new_metadata_op(path),
        ),
        (found is Ok && !found->Ok_0.is_dir && !options.create_new) || (found == Err::<
            MetaView,
            FsError,
        >(FsError::NotFound) && options.create) ==> op_step(
            OpView::Open(OpenOpView { path, options, metadata: None, stage: OpenStage::Probe }),
            EventView::Returned(OutcomeView::Meta(found)),
            now,
        ) == StepView::Send(
            OpView::Open(OpenOpView { path, options, metadata: None, stage: OpenStage::Head }),
            RequestView::HeadObject { key: path },
        ),
        op_step(
            OpView::Open(OpenOpView { path, options, metadata: None, stage: OpenStage::Head }),
            EventView::Reply(ReplyView::Head { code, head }),
            now,
        ) == if code == 200 && !options.create {
            StepView::Send(
                OpView::Open(
                    OpenOpView {
                        path,
                        options,
                        metadata: Some(meta_from_head(path, false, head, now)),
                        stage: OpenStage::Get,
                    },
                ),
                RequestView::GetObject { key: path },
            )
        } else {
            open_finish(
                OpenOpView { path, options, metadata: None, stage: OpenStage::Head },
                meta_from_head(path, false, head, now),
                Seq::empty(),
            )
        },
        op_step(
            OpView::Open(
                OpenOpView { path, options, metadata: Some(kept), stage: OpenStage::Get },
            ),
            EventView::Reply(ReplyView::Body { code: 200, data }),
            now,
        ) == open_finish(
            OpenOpView { path, options, metadata: Some(kept), stage: OpenStage::Get },
            kept,
            data,
        ),
        op_step(
            OpView::Open(
                OpenOpView { path, options, metadata: Some(kept), stage: OpenStage::Initiate },
            ),
            EventView::Reply(ReplyView::Initiated { code: 200, upload_id }),
            now,
        ) == StepView::Done(
            OutcomeView::File(
                Ok(FileView::Multipart(multipart_opened(kept, options, path, upload_id))),
            ),
        ),
{
    reveal(op_step);
}

/// The store after an upload for `path` was started.
pub open spec fn with_upload(store: StoreModel, path: Seq<char>) -> StoreModel {
    StoreModel {
        uploads: store.uploads.insert(
            decimal(store.started),
            UploadModel { key: path, parts: Map::empty() },
        ),
        started: store.started + 1,
        ..store
    }
}

/// The file that opening `path` for writing gives.
pub open spec fn opened_for_writing(store: StoreModel, path: Seq<char>, now: UnixTime) -> MultipartView {
    multipart_opened(
        meta_from_head(path, false, head_in(store, path), now),
        for_writing(),
        path,
        decimal(store.started),
    )
}

/// Opening a path that names no collection for writing starts an upload
/// and gives a multipart file for it.
pub proof fn law_open_for_writing(store: StoreModel, path: Seq<char>, now: UnixTime, fuel: nat)
    requires
        !is_bucket_root(path),
        !store.objects.contains_key(sentinel_key(path)),
        fuel >= 4,
    ensures
        run(new_open_op(path, for_writing()), store, now, fuel) == Some(
            (
                with_upload(store, path),
                OutcomeView::File(Ok(FileView::Multipart(opened_for_writing(store, path, now)))),
            ),
        ),
{
    let options = for_writing();
    let found = metadata_of(store, path, now);
    let head = head_in(store, path);
    let code: u16 = if store.objects.contains_key(path) {
        200
    } else {
        404
    };
    let kept = meta_from_head(path, false, head, now);
    let id = decimal(store.started);
    lemma_open_steps(path, options, found, code, head, kept, Seq::empty(), id, now);
    let probing = OpView::Open(
        OpenOpView { path, options, metadata: None, stage: OpenStage::Probe },
    );
    let heading = OpView::Open(OpenOpView { path, options, metadata: None, stage: OpenStage::Head });
    let starting = OpView::Open(
        OpenOpView { path, options, metadata: Some(kept), stage: OpenStage::Initiate },
    );
    let one = (fuel - 1) as nat;
    let two = (fuel - 2) as nat;
    let three = (fuel - 3) as nat;
    lemma_run_call(probing, new_metadata_op(path), store, now, fuel);
    law_probe_tells_what_is_stored(store, path, now, one);
    lemma_run_send(heading, RequestView::HeadObject { key: path }, store, now, one);
    lemma_run_send(starting, RequestView::CreateMultipartUpload { key: path }, store, now, two);
    lemma_run_done(
        OutcomeView::File(Ok(FileView::Multipart(opened_for_writing(store, path, now)))),
        with_upload(store, path),
        now,
        three,
    );
}

/// Opening a resource for reading fetches it whole and gives a simple
/// file over its bytes, with the cursor at the start.
pub proof fn law_open_for_reading(store: StoreModel, path: Seq<char>, now: UnixTime, fuel: nat)
    requires
        !is_bucket_root(path),
        !store.objects.contains_key(sentinel_key(path)),
        store.objects.contains_key(path),
        fuel >= 4,
    ensures
        run(new_open_op(path, for_reading()), store, now, fuel) == Some(
            (
                store,
                OutcomeView::File(
                    Ok(
                        FileView::Simple(
                            simple_opened(
                                meta_from_head(path, false, head_of(store.objects[path]), now),
                                store.objects[path],
                                for_reading(),
                                path,
                            ),
                        ),
                    ),
                ),
            ),
        ),
{
    let options = for_reading();
    let found = metadata_of(store, path, now);
    let head = head_of(store.objects[path]);
    let kept = meta_from_head(path, false, head, now);
    let data = store.objects[path];
    lemma_open_steps(path, options, found, 200, head, kept, data, Seq::empty(), now);
    let probing = OpView::Open(
        OpenOpView { path, options, metadata: None, stage: OpenStage::Probe },
    );
    let heading = OpView::Open(OpenOpView { path, options, metadata: None, stage: OpenStage::Head });
    let getting = OpView::Open(
        OpenOpView { path, options, metadata: Some(kept), stage: OpenStage::Get },
    );
    let one = (fuel - 1) as nat;
    let two = (fuel - 2) as nat;
    let three = (fuel - 3) as nat;
    lemma_run_call(probing, new_metadata_op(path), store, now, fuel);
    law_probe_tells_what_is_stored(store, path, now, one);
    lemma_run_send(heading, RequestView::HeadObject { key: path }, store, now, one);
    lemma_run_send(getting, RequestView::GetObject { key: path }, store, now, two);
    lemma_run_done(
        OutcomeView::File(Ok(FileView::Simple(simple_opened(kept, data, options, path)))),
        store,
        now,
        three,
    );
}

/// A file that was just opened for `path`, with its upload in the store.
pub open spec fn fresh_upload(file: MultipartView, store: StoreModel) -> bool {
    &&& file.stage == MultipartStage::Idle
    &&& file.buffer.len() == 0
    &&& file.etags.len() == 0
    &&& store.uploads.contains_key(file.upload_id)
    &&& store.uploads[file.upload_id].key == file.path
}

/// The store after the upload of a file was completed with `data`.
pub open spec fn completed(store: StoreModel, file: MultipartView, data: Seq<u8>) -> StoreModel {
    StoreModel {
        objects: store.objects.insert(file.path, data),
        uploads: store.uploads.remove(file.upload_id),
        ..store
    }
}

/// Writing bytes to a fresh multipart file and flushing it stores the
/// bytes under the path of the file, whether they went out as a part
/// when they were written or as the last part when the file was flushed.
pub proof fn law_flush_stores_what_was_written(
    file: MultipartView,
    store: StoreModel,
    data: Seq<u8>,
    now: UnixTime,
)
    requires
        fresh_upload(file, store),
        data.len() <= usize::MAX,
        file.metadata.len + data.len() <= u64::MAX,
    ensures
        ({
            let written = file_run(
                multipart_write(file, data).0,
                multipart_write(file, data).1,
                store,
                now,
                1,
            );
            &&& written is Some
            &&& written->Some_0.2 == Ok::<(), FsError>(())
            &&& ({
                let flushed = file_run(
                    multipart_flush(written->Some_0.0).0,
                    multipart_flush(written->Some_0.0).1,
                    written->Some_0.1,
                    now,
                    3,
                );
                &&& flushed is Some
                &&& flushed->Some_0.2 == Ok::<(), FsError>(())
                &&& flushed->Some_0.1 == completed(store, file, data)
            })
        }),
{
    reveal_with_fuel(file_run, 5);
    let part = PartView { part_number: 1, etag: decimal(1) };
    let one = seq![decimal(1)];
    assert(parts_of(one) =~= seq![part]);
    assert(parts_of(Seq::<Seq<char>>::empty()) =~= Seq::<PartView>::empty());
    assert(Seq::<u8>::empty() + data =~= data);
    assert(file.buffer + data =~= data);
    let upload = store.uploads[file.upload_id];
    let stored = UploadModel { parts: upload.parts.insert(1u32, data), ..upload };
    assert(seq![part].drop_last() =~= Seq::<PartView>::empty());
    assert(assembled(stored, seq![part]) == Some(data)) by {
        assert(assembled(stored, Seq::<PartView>::empty()) == Some(Seq::<u8>::empty()));
        assert(seq![part].last() == part);
    }
    assert(assembled(upload, Seq::<PartView>::empty()) == Some(Seq::<u8>::empty()));
    assert(file.etags =~= Seq::<Seq<char>>::empty());
    assert(file.etags.push(decimal(1)) =~= one);
    let with_part = StoreModel { uploads: store.uploads.insert(file.upload_id, stored), ..store };
    assert(with_part.uploads.remove(file.upload_id) =~= store.uploads.remove(file.upload_id));
    if data.len() == 0 {
        assert(data =~= Seq::<u8>::empty());
    }
}

/// What was written to a resource and flushed is read back: after a path
/// that names no collection was opened for writing, the bytes written
/// and the file flushed, opening the path for reading and reading as
/// many bytes gives the bytes that were written, and the probe of the
/// path finds a resource of as many bytes.
pub proof fn law_written_is_read_back(store: StoreModel, path: Seq<char>, data: Seq<u8>, now: UnixTime)
    requires
        !is_bucket_root(path),
        !store.objects.contains_key(sentinel_key(path)),
        data.len() <= usize::MAX,
        meta_from_head(path, false, head_in(store, path), now).len + data.len() <= u64::MAX,
    ensures
        ({
            let file = opened_for_writing(store, path, now);
            let opened = with_upload(store, path);
            let written = file_run(
                multipart_write(file, data).0,
                multipart_write(file, data).1,
                opened,
                now,
                1,
            );
            let flushed = file_run(
                multipart_flush(written->Some_0.0).0,
                multipart_flush(written->Some_0.0).1,
                written->Some_0.1,
                now,
                3,
            );
            let after = flushed->Some_0.1;
            let reopened = run(new_open_op(path, for_reading()), after, now, 4);
            &&& run(new_open_op(path, for_writing()), store, now, 4) == Some(
                (opened, OutcomeView::File(Ok(FileView::Multipart(file)))),
            )
            &&& written is Some && written->Some_0.2 == Ok::<(), FsError>(())
            &&& flushed is Some && flushed->Some_0.2 == Ok::<(), FsError>(())
            &&& after.objects == store.objects.insert(path, data)
            &&& reopened is Some
            &&& reopened->Some_0.1 matches OutcomeView::File(Ok(FileView::Simple(reader)))
            &&& reader.buffer == data
            &&& read_data(reader, data.len() as usize) == data
            &&& run(new_metadata_op(path), after, now, 2) == Some(
                (after, OutcomeView::Meta(metadata_of(after, path, now))),
            )
            &&& metadata_of(after, path, now) matches Ok(m)
            &&& !m.is_dir
            &&& data.len() <= i64::MAX ==> m.len == data.len()
        }),
{
    let file = opened_for_writing(store, path, now);
    let opened = with_upload(store, path);
    law_open_for_writing(store, path, now, 4);
    law_flush_stores_what_was_written(file, opened, data, now);
    let after = completed(opened, file, data);
    law_open_for_reading(after, path, now, 4);
    assert(data.subrange(0, data.len() as int) =~= data);
    law_probe_tells_what_is_stored(after, path, now, 2);
    lemma_marker_is_another_key(path);
}

/// The key of the object that marks a path as a collection is not the
/// path itself.
pub proof fn lemma_marker_is_another_key(path: Seq<char>)
    ensures
        sentinel_key(path) != path,
{
    crate::normalized_path::lemma_token_has_no_slash_at_its_ends(dot_dir());
    assert(dot_dir().len() == 4);
    assert(crate::normalized_path::trim_token_spec(dot_dir()) =~= dot_dir());
    assert(sentinel_key(path).len() > path.len());
}

} // verus!
