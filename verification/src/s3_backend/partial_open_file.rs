//! An open file that streams its content to the store in parts.
use crate::error::FsError;
use crate::s3_backend::metadata::{tags_of, MetaView, S3MetaData, UnixTime};
use crate::s3_backend::protocol::{Reply, ReplyView, Request, RequestView};
use crate::s3_backend::simple_open_file::{FileStep, FileStepView, OpenOptions, SeekFrom};
use crate::serde_types::{parts_view, Part, PartView};
use crate::text::{copy_bytes, copy_text, texts_view};
use vstd::prelude::*;

verus! {

/// The size from which the buffered bytes are sent as one part: 10 MiB.
/// The store takes no part under 5 MiB but the last.
pub const CHUNK_SIZE: u64 = 10485760;

/// What a multipart file waits for.
#[derive(Clone, Copy, Debug, PartialEq, Eq, Structural)]
pub enum MultipartStage {
    /// Nothing: the file can be written and flushed.
    Idle,
    /// The answer to a part sent while writing.
    Part,
    /// The answer to the rest sent as the last part, while flushing.
    LastPart,
    /// The answer to the request that completes the upload.
    Complete,
    /// The answer to the request that gives the upload up.
    Abort,
    /// The answer to the upload of the tags.
    Tagging,
}

/// An open file that is written in parts. It cannot be read or sought.
#[derive(Debug)]
pub struct PartialOpenFile {
    pub path: String,
    pub options: OpenOptions,
    pub metadata: S3MetaData,
    pub etags: Vec<String>,
    pub upload_id: String,
    pub buffer: Vec<u8>,
    pub stage: MultipartStage,
}

/// A multipart file as plain values.
pub struct MultipartView {
    pub path: Seq<char>,
    pub options: OpenOptions,
    pub metadata: MetaView,
    pub etags: Seq<Seq<char>>,
    pub upload_id: Seq<char>,
    pub buffer: Seq<u8>,
    pub stage: MultipartStage,
}

impl View for PartialOpenFile {
    type V = MultipartView;

    open spec fn view(&self) -> MultipartView {
        MultipartView {
            path: self.path@,
            options: self.options,
            metadata: self.metadata@,
            etags: texts_view(self.etags@),
            upload_id: self.upload_id@,
            buffer: self.buffer@,
            stage: self.stage,
        }
    }
}

/// The file right after the store has started the upload `upload_id`.
pub open spec fn multipart_opened(
    metadata: MetaView,
    options: OpenOptions,
    path: Seq<char>,
    upload_id: Seq<char>,
) -> MultipartView {
    MultipartView {
        path,
        options,
        metadata,
        etags: Seq::empty(),
        upload_id,
        buffer: Seq::empty(),
        stage: MultipartStage::Idle,
    }
}

impl PartialOpenFile {
    /// A file for the upload `upload_id`, with no part sent yet.
    pub fn new(metadata: S3MetaData, opts: OpenOptions, path: String, upload_id: String) -> (r:
        PartialOpenFile)
        ensures
            r@ == multipart_opened(metadata@, opts, path@, upload_id@),
    {
        let r = PartialOpenFile {
            path,
            options: opts,
            metadata,
            etags: Vec::new(),
            upload_id,
            buffer: Vec::new(),
            stage: MultipartStage::Idle,
        };
        assert(texts_view(r.etags@) =~= Seq::<Seq<char>>::empty());
        r
    }
}

/// The parts of an upload: the tags in the order in which the parts were
/// sent, numbered from one.
pub open spec fn parts_of(etags: Seq<Seq<char>>) -> Seq<PartView> {
    Seq::new(etags.len(), |i: int| PartView { part_number: (i + 1) as u32, etag: etags[i] })
}

/// The request that sends the buffered bytes as the next part.
pub open spec fn upload_request(f: MultipartView) -> RequestView {
    RequestView::UploadPart {
        key: f.path,
        upload_id: f.upload_id,
        part_number: (f.etags.len() + 1) as u32,
        body: f.buffer,
    }
}

/// The request that completes the upload.
pub open spec fn complete_request(f: MultipartView) -> RequestView {
    RequestView::CompleteMultipartUpload {
        key: f.path,
        upload_id: f.upload_id,
        parts: parts_of(f.etags),
    }
}

/// The request that gives the upload up.
pub open spec fn abort_request(f: MultipartView) -> RequestView {
    RequestView::AbortMultipartUpload { key: f.path, upload_id: f.upload_id }
}

/// The file that gives the upload up.
pub open spec fn aborting(f: MultipartView) -> (MultipartView, FileStepView) {
    (MultipartView { stage: MultipartStage::Abort, ..f }, FileStepView::Send(abort_request(f)))
}

/// The file that has failed and waits for nothing.
pub open spec fn failing(f: MultipartView) -> (MultipartView, FileStepView) {
    (
        MultipartView { stage: MultipartStage::Idle, ..f },
        FileStepView::Done(Err(FsError::GeneralFailure)),
    )
}

/// Sends the buffered bytes as the next part, as long as parts can still
/// be numbered.
pub open spec fn send_part(f: MultipartView, stage: MultipartStage) -> (
    MultipartView,
    FileStepView,
) {
    if f.etags.len() + 1 <= u32::MAX {
        (MultipartView { stage, ..f }, FileStepView::Send(upload_request(f)))
    } else {
        failing(f)
    }
}

/// Asks the store to complete the upload.
pub open spec fn send_complete(f: MultipartView) -> (MultipartView, FileStepView) {
    if f.etags.len() <= u32::MAX {
        (
            MultipartView { stage: MultipartStage::Complete, ..f },
            FileStepView::Send(complete_request(f)),
        )
    } else {
        aborting(f)
    }
}

/// A write: the bytes join the buffer; once it holds `CHUNK_SIZE` bytes
/// or more it is sent as the next part.
pub open spec fn multipart_write(f: MultipartView, data: Seq<u8>) -> (MultipartView, FileStepView) {
    if f.stage != MultipartStage::Idle || f.buffer.len() + data.len() > usize::MAX {
        (f, FileStepView::Done(Err(FsError::GeneralFailure)))
    } else {
        let g = MultipartView { buffer: f.buffer + data, ..f };
        if g.buffer.len() < CHUNK_SIZE {
            (g, FileStepView::Done(Ok(())))
        } else {
            send_part(g, MultipartStage::Part)
        }
    }
}

/// The start of a flush: what is buffered is sent as the last part,
/// however small; with nothing buffered the upload is completed at once.
pub open spec fn multipart_flush(f: MultipartView) -> (MultipartView, FileStepView) {
    if f.stage != MultipartStage::Idle {
        failing(f)
    } else if f.buffer.len() > 0 {
        send_part(f, MultipartStage::LastPart)
    } else {
        send_complete(f)
    }
}

/// The file after the store has taken the buffered bytes as a part with
/// the tag `etag`, at the time `now`.
pub open spec fn part_stored(f: MultipartView, etag: Seq<char>, now: UnixTime) -> MultipartView {
    MultipartView {
        etags: f.etags.push(etag),
        metadata: MetaView {
            len: (f.metadata.len + f.buffer.len()) as u64,
            modified: now,
            ..f.metadata
        },
        buffer: Seq::empty(),
        ..f
    }
}

/// Whether a reply says that the buffered bytes were stored as a part.
pub open spec fn stored_tag(f: MultipartView, reply: ReplyView) -> Option<Seq<char>> {
    match reply {
        ReplyView::PartStored { code, etag } => if code == 200 && f.metadata.len + f.buffer.len()
            <= u64::MAX {
            Some(etag)
        } else {
            None
        },
        _ => None,
    }
}

/// One step with the store's reply.
///
/// A part that the store did not take gives the upload up. After the
/// last part the upload is completed with the parts in their order; a
/// completion that fails gives the upload up as well. Then the tags are
/// stored. Once the upload is given up the call fails.
pub open spec fn multipart_resume(f: MultipartView, reply: ReplyView, now: UnixTime) -> (
    MultipartView,
    FileStepView,
) {
    match f.stage {
        MultipartStage::Part => match stored_tag(f, reply) {
            Some(etag) => (
                MultipartView { stage: MultipartStage::Idle, ..part_stored(f, etag, now) },
                FileStepView::Done(Ok(())),
            ),
            None => aborting(f),
        },
        MultipartStage::LastPart => match stored_tag(f, reply) {
            Some(etag) => send_complete(part_stored(f, etag, now)),
            None => aborting(f),
        },
        MultipartStage::Complete => match reply {
            ReplyView::Status { code } => if code == 200 {
                (
                    MultipartView { stage: MultipartStage::Tagging, ..f },
                    FileStepView::Send(
                        RequestView::PutObjectTagging { key: f.path, tags: tags_of(f.metadata) },
                    ),
                )
            } else {
                aborting(f)
            },
            _ => aborting(f),
        },
        MultipartStage::Tagging => match reply {
            ReplyView::Status { code } => if code == 200 {
                (MultipartView { stage: MultipartStage::Idle, ..f }, FileStepView::Done(Ok(())))
            } else {
                failing(f)
            },
            _ => failing(f),
        },
        MultipartStage::Abort => failing(f),
        MultipartStage::Idle => failing(f),
    }
}

impl PartialOpenFile {
    /// A copy of the file's record.
    pub fn metadata(&self) -> (r: S3MetaData)
        ensures
            r@ == self@.metadata,
    {
        self.metadata.clone()
    }

    fn abort(&mut self) -> (r: FileStep)
        ensures
            (final(self)@, r@) == aborting(old(self)@),
    {
        self.stage = MultipartStage::Abort;
        FileStep::Send(
            Request::AbortMultipartUpload {
                key: copy_text(self.path.as_str()),
                upload_id: copy_text(self.upload_id.as_str()),
            },
        )
    }

    fn fail(&mut self) -> (r: FileStep)
        ensures
            (final(self)@, r@) == failing(old(self)@),
    {
        self.stage = MultipartStage::Idle;
        FileStep::Done(Err(FsError::GeneralFailure))
    }

    /// Sends what is buffered as the next part.
    fn upload_current(&mut self, stage: MultipartStage) -> (r: FileStep)
        ensures
            (final(self)@, r@) == send_part(old(self)@, stage),
    {
        if self.etags.len() >= u32::MAX as usize {
            return self.fail();
        }
        let part_number: u32 = (self.etags.len() + 1) as u32;
        self.stage = stage;
        FileStep::Send(
            Request::UploadPart {
                key: copy_text(self.path.as_str()),
                upload_id: copy_text(self.upload_id.as_str()),
                part_number,
                body: copy_bytes(&self.buffer),
            },
        )
    }

    fn complete(&mut self) -> (r: FileStep)
        ensures
            (final(self)@, r@) == send_complete(old(self)@),
    {
        if self.etags.len() > u32::MAX as usize {
            return self.abort();
        }
        let mut parts: Vec<Part> = Vec::new();
        let mut i: usize = 0;
        let ghost etags = texts_view(self.etags@);
        while i < self.etags.len()
            invariant
                i <= self.etags.len() <= u32::MAX,
                etags == texts_view(self.etags@),
                parts_view(parts@) == parts_of(etags).take(i as int),
            decreases self.etags.len() - i,
        {
            let ghost before = parts_view(parts@);
            let part = Part {
                part_number: (i + 1) as u32,
                etag: copy_text(self.etags[i].as_str()),
            };
            parts.push(part);
            assert(parts_view(parts@) =~= before.push(part@));
            assert(parts_view(parts@) =~= parts_of(etags).take(i + 1));
            i += 1;
        }
        assert(parts_of(etags).take(etags.len() as int) =~= parts_of(etags));
        self.stage = MultipartStage::Complete;
        FileStep::Send(
            Request::CompleteMultipartUpload {
                key: copy_text(self.path.as_str()),
                upload_id: copy_text(self.upload_id.as_str()),
                parts,
            },
        )
    }

    /// Takes `data` into the buffer and, once the buffer holds
    /// `CHUNK_SIZE` bytes or more, asks for it to be sent as a part.
    pub fn write_bytes(&mut self, data: &[u8]) -> (r: FileStep)
        ensures
            (final(self)@, r@) == multipart_write(old(self)@, data@),
    {
        if self.stage != MultipartStage::Idle || data.len() > usize::MAX - self.buffer.len() {
            return FileStep::Done(Err(FsError::GeneralFailure));
        }
        let ghost before = self.buffer@;
        let mut i: usize = 0;
        while i < data.len()
            invariant
                i <= data.len(),
                self.buffer@ == before + data@.take(i as int),
                self.path == old(self).path,
                self.options == old(self).options,
                self.metadata == old(self).metadata,
                self.etags == old(self).etags,
                self.upload_id == old(self).upload_id,
                self.stage == old(self).stage,
            decreases data.len() - i,
        {
            self.buffer.push(data[i]);
            i += 1;
            assert(self.buffer@ =~= before + data@.take(i as int));
        }
        assert(data@.take(data@.len() as int) =~= data@);
        if (self.buffer.len() as u64) < CHUNK_SIZE {
            FileStep::Done(Ok(()))
        } else {
            self.upload_current(MultipartStage::Part)
        }
    }

    /// As `write_bytes`.
    pub fn write_buf(&mut self, buf: &[u8]) -> (r: FileStep)
        ensures
            (final(self)@, r@) == multipart_write(old(self)@, buf@),
    {
        self.write_bytes(buf)
    }

    /// A multipart file cannot be read.
    pub fn read_bytes(&mut self, count: usize) -> (r: Result<Vec<u8>, FsError>)
        ensures
            r == Err::<Vec<u8>, FsError>(FsError::NotImplemented),
            final(self)@ == old(self)@,
    {
        Err(FsError::NotImplemented)
    }

    /// A multipart file has no cursor to move.
    pub fn seek(&mut self, pos: SeekFrom) -> (r: Result<u64, FsError>)
        ensures
            r == Err::<u64, FsError>(FsError::NotImplemented),
            final(self)@ == old(self)@,
    {
        Err(FsError::NotImplemented)
    }

    /// Begins to flush: sends what is left as the last part, or completes
    /// the upload where nothing is left.
    pub fn flush(&mut self) -> (r: FileStep)
        ensures
            (final(self)@, r@) == multipart_flush(old(self)@),
    {
        if self.stage != MultipartStage::Idle {
            self.fail()
        } else if self.buffer.len() > 0 {
            self.upload_current(MultipartStage::LastPart)
        } else {
            self.complete()
        }
    }

    fn store_part(&mut self, etag: String, now: UnixTime)
        requires
            old(self).metadata.len + old(self).buffer@.len() <= u64::MAX,
        ensures
            final(self)@ == part_stored(old(self)@, etag@, now),
    {
        let ghost before = texts_view(self.etags@);
        self.etags.push(etag);
        assert(texts_view(self.etags@) =~= before.push(etag@));
        self.metadata.len = self.metadata.len + self.buffer.len() as u64;
        self.metadata.modified = now;
        self.buffer = Vec::new();
    }

    /// Takes a write or a flush one step further with the store's reply.
    pub fn resume(&mut self, reply: Reply, now: UnixTime) -> (r: FileStep)
        ensures
            (final(self)@, r@) == multipart_resume(old(self)@, reply@, now),
    {
        match self.stage {
            MultipartStage::Part => match reply {
                Reply::PartStored { code, etag } => {
                    if code == 200 && self.buffer.len() as u64 <= u64::MAX - self.metadata.len {
                        self.store_part(etag, now);
                        self.stage = MultipartStage::Idle;
                        FileStep::Done(Ok(()))
                    } else {
                        self.abort()
                    }
                },
                _ => self.abort(),
            },
            MultipartStage::LastPart => match reply {
                Reply::PartStored { code, etag } => {
                    if code == 200 && self.buffer.len() as u64 <= u64::MAX - self.metadata.len {
                        self.store_part(etag, now);
                        self.complete()
                    } else {
                        self.abort()
                    }
                },
                _ => self.abort(),
            },
            MultipartStage::Complete => match reply {
                Reply::Status { code } => {
                    if code == 200 {
                        self.stage = MultipartStage::Tagging;
                        FileStep::Send(
                            Request::PutObjectTagging {
                                key: copy_text(self.path.as_str()),
                                tags: self.metadata.as_metadata(),
                            },
                        )
                    } else {
                        self.abort()
                    }
                },
                _ => self.abort(),
            },
            MultipartStage::Tagging => match reply {
                Reply::Status { code } => {
                    if code == 200 {
                        self.stage = MultipartStage::Idle;
                        FileStep::Done(Ok(()))
                    } else {
                        self.fail()
                    }
                },
                _ => self.fail(),
            },
            MultipartStage::Abort => self.fail(),
            MultipartStage::Idle => self.fail(),
        }
    }
}

} // verus!
