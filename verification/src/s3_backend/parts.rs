//! What is written to a multipart file in several writes goes out in
//! parts and is stored whole.
use crate::error::FsError;
use crate::s3_backend::metadata::UnixTime;
use crate::s3_backend::model::{assembled, StoreModel, UploadModel};
use crate::s3_backend::partial_open_file::{
    multipart_flush, multipart_write, parts_of, MultipartStage, MultipartView, CHUNK_SIZE,
};
use crate::s3_backend::round_trip::{completed, file_run, fresh_upload};
use crate::serde_types::PartView;
use vstd::prelude::*;

verus! {

/// The bytes of some writes, one after the other.
pub open spec fn joined(writes: Seq<Seq<u8>>) -> Seq<u8>
    decreases writes.len(),
{
    if writes.len() == 0 {
        Seq::empty()
    } else {
        joined(writes.drop_last()) + writes.last()
    }
}

/// The file and the store after the writes, one after the other, each
/// followed to its end; `None` where a write fails.
pub open spec fn written_all(
    file: MultipartView,
    store: StoreModel,
    writes: Seq<Seq<u8>>,
    now: UnixTime,
) -> Option<(MultipartView, StoreModel)>
    decreases writes.len(),
{
    if writes.len() == 0 {
        Some((file, store))
    } else {
        match written_all(file, store, writes.drop_last(), now) {
            None => None,
            Some((f, s)) => {
                let first = multipart_write(f, writes.last());
                match file_run(first.0, first.1, s, now, 1) {
                    Some((g, t, Ok(_))) => Some((g, t)),
                    _ => None,
                }
            },
        }
    }
}

/// How many parts the store holds once the file is flushed: those that
/// went out with the writes, and one more for what is still buffered.
pub open spec fn parts_after_flush(file: MultipartView) -> nat {
    if file.buffer.len() > 0 {
        file.etags.len() + 1
    } else {
        file.etags.len()
    }
}

/// A multipart file between two writes, after `data` was written to it
/// in all: it waits for nothing; its upload is in the store; the parts
/// that went out are numbered from one without a gap, each holds
/// `CHUNK_SIZE` bytes or more and fewer than `most`; what is buffered is
/// less than `CHUNK_SIZE`; and the parts in their order, followed by the
/// buffer, are `data`.
pub open spec fn uploading(
    file: MultipartView,
    store: StoreModel,
    data: Seq<u8>,
    base: nat,
    most: nat,
) -> bool {
    let upload = store.uploads[file.upload_id];
    &&& file.stage == MultipartStage::Idle
    &&& store.uploads.contains_key(file.upload_id)
    &&& upload.key == file.path
    &&& file.buffer.len() < CHUNK_SIZE
    &&& file.metadata.len + file.buffer.len() == base + data.len()
    &&& forall|i: int|
        0 <= i < file.etags.len() ==> #[trigger] upload.parts.contains_key((i + 1) as u32)
            && CHUNK_SIZE <= upload.parts[(i + 1) as u32].len() < most
    &&& assembled(upload, parts_of(file.etags)) is Some
    &&& assembled(upload, parts_of(file.etags))->Some_0 + file.buffer == data
}

/// A part that is stored under a number that is not among those of some
/// parts leaves what these parts are put together to.
proof fn lemma_assembled_ignores(upload: UploadModel, k: u32, body: Seq<u8>, parts: Seq<PartView>)
    requires
        forall|i: int| 0 <= i < parts.len() ==> (#[trigger] parts[i]).part_number != k,
    ensures
        assembled(UploadModel { parts: upload.parts.insert(k, body), ..upload }, parts)
            == assembled(upload, parts),
    decreases parts.len(),
{
    if parts.len() > 0 {
        assert forall|i: int| 0 <= i < parts.drop_last().len() implies (
        #[trigger] parts.drop_last()[i]).part_number != k by {
            assert(parts.drop_last()[i] == parts[i]);
        }
        lemma_assembled_ignores(upload, k, body, parts.drop_last());
        assert(parts.last() == parts[parts.len() - 1]);
    }
}

/// The parts of an upload once one more part, with the bytes `sent`, was
/// stored behind them.
proof fn lemma_part_joins(
    upload: UploadModel,
    etags: Seq<Seq<char>>,
    etag: Seq<char>,
    sent: Seq<u8>,
)
    requires
        etags.len() + 1 <= u32::MAX,
        assembled(upload, parts_of(etags)) is Some,
    ensures
        ({
            let k = (etags.len() + 1) as u32;
            let more = UploadModel { parts: upload.parts.insert(k, sent), ..upload };
            assembled(more, parts_of(etags.push(etag))) == Some(
                assembled(upload, parts_of(etags))->Some_0 + sent,
            )
        }),
{
    let k = (etags.len() + 1) as u32;
    let more = UploadModel { parts: upload.parts.insert(k, sent), ..upload };
    let parts = parts_of(etags);
    let longer = parts_of(etags.push(etag));
    assert(longer.drop_last() =~= parts);
    assert(longer.last() == PartView { part_number: k, etag });
    assert forall|i: int| 0 <= i < parts.len() implies (#[trigger] parts[i]).part_number != k by {
        assert(parts[i].part_number == (i + 1) as u32);
    }
    lemma_assembled_ignores(upload, k, sent, parts);
}

/// One more write to a file between two writes leaves it between two
/// writes, with the bytes of the write behind those that were written;
/// the objects of the store stay as they are. The write sends a part
/// where the buffer comes to hold `CHUNK_SIZE` bytes or more, and that
/// part is all that was buffered.
pub proof fn lemma_write_keeps_uploading(
    file: MultipartView,
    store: StoreModel,
    data: Seq<u8>,
    write: Seq<u8>,
    base: nat,
    most: nat,
    now: UnixTime,
)
    requires
        uploading(file, store, data, base, most),
        file.etags.len() + 1 <= u32::MAX,
        file.buffer.len() + write.len() <= usize::MAX,
        file.buffer.len() + write.len() < most,
        base + data.len() + write.len() <= u64::MAX,
    ensures
        ({
            let first = multipart_write(file, write);
            let r = file_run(first.0, first.1, store, now, 1);
            &&& r is Some
            &&& r->Some_0.2 == Ok::<(), FsError>(())
            &&& uploading(r->Some_0.0, r->Some_0.1, data + write, base, most)
            &&& r->Some_0.1.objects == store.objects
            &&& r->Some_0.0.path == file.path
            &&& r->Some_0.0.upload_id == file.upload_id
            &&& r->Some_0.0.etags.len() == if file.buffer.len() + write.len() >= CHUNK_SIZE {
                file.etags.len() + 1
            } else {
                file.etags.len()
            }
            &&& file.buffer.len() + write.len() >= CHUNK_SIZE ==> r->Some_0.0.buffer.len() == 0
        }),
{
    reveal_with_fuel(file_run, 3);
    let upload = store.uploads[file.upload_id];
    let body = assembled(upload, parts_of(file.etags))->Some_0;
    let held = file.buffer + write;
    let first = multipart_write(file, write);
    let r = file_run(first.0, first.1, store, now, 1);
    assert(body + held =~= data + write);
    if held.len() >= CHUNK_SIZE {
        let k = (file.etags.len() + 1) as u32;
        let etag = crate::text::decimal(k as nat);
        let more = UploadModel { parts: upload.parts.insert(k, held), ..upload };
        lemma_part_joins(upload, file.etags, etag, held);
        let after = StoreModel { uploads: store.uploads.insert(file.upload_id, more), ..store };
        assert(r is Some);
        let fin = r->Some_0.0;
        assert(r->Some_0.1 == after);
        assert(fin.etags == file.etags.push(etag));
        assert(fin.buffer =~= Seq::<u8>::empty());
        assert(after.uploads[fin.upload_id] == more);
        assert(body + held + fin.buffer =~= data + write);
        assert forall|i: int| 0 <= i < fin.etags.len() implies #[trigger] more.parts.contains_key(
            (i + 1) as u32,
        ) && CHUNK_SIZE <= more.parts[(i + 1) as u32].len() < most by {
            if i < file.etags.len() {
                assert(upload.parts.contains_key((i + 1) as u32));
            }
        }
        assert(uploading(fin, after, data + write, base, most));
    } else {
        assert(r is Some);
        let fin = r->Some_0.0;
        assert(r->Some_0.1 == store);
        assert(fin.etags == file.etags);
        assert(fin.buffer == held);
        assert forall|i: int| 0 <= i < fin.etags.len() implies #[trigger] upload.parts.contains_key(
            (i + 1) as u32,
        ) && CHUNK_SIZE <= upload.parts[(i + 1) as u32].len() < most by {}
        assert(uploading(fin, store, data + write, base, most));
    }
}

/// Writes to a file that was just opened leave it between two writes,
/// with the bytes of all writes, in their order, in the parts that went
/// out and in the buffer. No more parts went out than there were writes.
pub proof fn law_writes_go_out_in_parts(
    file: MultipartView,
    store: StoreModel,
    writes: Seq<Seq<u8>>,
    most: nat,
    now: UnixTime,
)
    requires
        fresh_upload(file, store),
        writes.len() < u32::MAX,
        joined(writes).len() <= usize::MAX,
        file.metadata.len + joined(writes).len() <= u64::MAX,
        forall|i: int| 0 <= i < writes.len() ==> CHUNK_SIZE + (#[trigger] writes[i]).len() <= most,
    ensures
        written_all(file, store, writes, now) is Some,
        uploading(
            written_all(file, store, writes, now)->Some_0.0,
            written_all(file, store, writes, now)->Some_0.1,
            joined(writes),
            file.metadata.len as nat,
            most,
        ),
        written_all(file, store, writes, now)->Some_0.1.objects == store.objects,
        written_all(file, store, writes, now)->Some_0.0.path == file.path,
        written_all(file, store, writes, now)->Some_0.0.upload_id == file.upload_id,
        written_all(file, store, writes, now)->Some_0.0.etags.len() <= writes.len(),
    decreases writes.len(),
{
    if writes.len() == 0 {
        assert(parts_of(file.etags) =~= Seq::<PartView>::empty());
        assert(Seq::<u8>::empty() + file.buffer =~= joined(writes));
    } else {
        let front = writes.drop_last();
        assert(joined(writes) == joined(front) + writes.last());
        assert forall|i: int| 0 <= i < front.len() implies CHUNK_SIZE + (#[trigger] front[i]).len()
            <= most by {
            assert(front[i] == writes[i]);
        }
        law_writes_go_out_in_parts(file, store, front, most, now);
        let (f, s) = written_all(file, store, front, now)->Some_0;
        assert(writes.last() == writes[writes.len() - 1]);
        lemma_write_keeps_uploading(
            f,
            s,
            joined(front),
            writes.last(),
            file.metadata.len as nat,
            most,
            now,
        );
    }
}

/// A file between two writes that is flushed sends what is buffered as
/// the last part, however small, and completes the upload with the parts
/// in their order: the store then holds, under the path of the file, all
/// that was written, and the upload is no more.
pub proof fn law_flush_stores_all_writes(
    file: MultipartView,
    store: StoreModel,
    data: Seq<u8>,
    base: nat,
    most: nat,
    now: UnixTime,
)
    requires
        uploading(file, store, data, base, most),
        file.etags.len() + 1 <= u32::MAX,
        base + data.len() <= u64::MAX,
    ensures
        ({
            let first = multipart_flush(file);
            let r = file_run(first.0, first.1, store, now, 3);
            &&& r is Some
            &&& r->Some_0.2 == Ok::<(), FsError>(())
            &&& r->Some_0.1 == completed(store, file, data)
            &&& r->Some_0.0.etags.len() == parts_after_flush(file)
        }),
{
    reveal_with_fuel(file_run, 5);
    let upload = store.uploads[file.upload_id];
    let body = assembled(upload, parts_of(file.etags))->Some_0;
    if file.buffer.len() > 0 {
        let k = (file.etags.len() + 1) as u32;
        let etag = crate::text::decimal(k as nat);
        let more = UploadModel { parts: upload.parts.insert(k, file.buffer), ..upload };
        lemma_part_joins(upload, file.etags, etag, file.buffer);
        let after = StoreModel { uploads: store.uploads.insert(file.upload_id, more), ..store };
        assert(after.uploads.remove(file.upload_id) =~= store.uploads.remove(file.upload_id));
    } else {
        assert(body + file.buffer =~= body);
    }
}

/// Writes of fewer than `CHUNK_SIZE` bytes each that come to twice
/// `CHUNK_SIZE` bytes or more go out in two parts or more: the store sees
/// a second part at the latest when the file is flushed.
pub proof fn law_long_body_goes_out_in_parts(
    file: MultipartView,
    store: StoreModel,
    writes: Seq<Seq<u8>>,
    now: UnixTime,
)
    requires
        fresh_upload(file, store),
        writes.len() < u32::MAX,
        joined(writes).len() <= usize::MAX,
        file.metadata.len + joined(writes).len() <= u64::MAX,
        forall|i: int| 0 <= i < writes.len() ==> (#[trigger] writes[i]).len() < CHUNK_SIZE,
        joined(writes).len() >= 2 * CHUNK_SIZE,
    ensures
        written_all(file, store, writes, now) is Some,
        parts_after_flush(written_all(file, store, writes, now)->Some_0.0) >= 2,
{
    let most = (2 * CHUNK_SIZE) as nat;
    law_writes_go_out_in_parts(file, store, writes, most, now);
    let (f, s) = written_all(file, store, writes, now)->Some_0;
    let upload = s.uploads[f.upload_id];
    let parts = parts_of(f.etags);
    if f.etags.len() == 0 {
        assert(parts =~= Seq::<PartView>::empty());
    } else if f.etags.len() == 1 {
        assert(parts.drop_last() =~= Seq::<PartView>::empty());
        assert(assembled(upload, parts.drop_last()) == Some(Seq::<u8>::empty()));
        assert(parts.last().part_number == 1u32);
        assert(upload.parts.contains_key((0 + 1) as u32));
        assert(assembled(upload, parts)->Some_0 =~= upload.parts[1u32]);
    }
}

/// Writes to a file that was just opened, followed by a flush, store
/// the bytes of all writes, in their order, under the path of the file:
/// every write and the flush end well, whatever the writes hold.
pub proof fn law_several_writes_are_stored(
    file: MultipartView,
    store: StoreModel,
    writes: Seq<Seq<u8>>,
    now: UnixTime,
)
    requires
        fresh_upload(file, store),
        writes.len() < u32::MAX,
        joined(writes).len() <= usize::MAX,
        file.metadata.len + joined(writes).len() <= u64::MAX,
    ensures
        ({
            let written = written_all(file, store, writes, now);
            let first = multipart_flush(written->Some_0.0);
            let flushed = file_run(first.0, first.1, written->Some_0.1, now, 3);
            &&& written is Some
            &&& flushed is Some
            &&& flushed->Some_0.2 == Ok::<(), FsError>(())
            &&& flushed->Some_0.1.objects == store.objects.insert(file.path, joined(writes))
            &&& !flushed->Some_0.1.uploads.contains_key(file.upload_id)
            &&& flushed->Some_0.0.etags.len() == parts_after_flush(written->Some_0.0)
        }),
{
    let most = (CHUNK_SIZE + joined(writes).len() + 1) as nat;
    assert forall|i: int| 0 <= i < writes.len() implies CHUNK_SIZE + (#[trigger] writes[i]).len()
        <= most by {
        lemma_write_is_in_the_whole(writes, i);
    }
    law_writes_go_out_in_parts(file, store, writes, most, now);
    let (f, s) = written_all(file, store, writes, now)->Some_0;
    law_flush_stores_all_writes(f, s, joined(writes), file.metadata.len as nat, most, now);
}

/// No write is longer than all writes together.
proof fn lemma_write_is_in_the_whole(writes: Seq<Seq<u8>>, i: int)
    requires
        0 <= i < writes.len(),
    ensures
        writes[i].len() <= joined(writes).len(),
    decreases writes.len(),
{
    if i < writes.len() - 1 {
        lemma_write_is_in_the_whole(writes.drop_last(), i);
        assert(writes.drop_last()[i] == writes[i]);
    }
}

} // verus!
