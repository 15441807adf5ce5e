//! An open file that holds the whole object in memory.
use crate::error::FsError;
use crate::s3_backend::metadata::{tags_of, MetaView, S3MetaData, UnixTime};
use crate::s3_backend::protocol::{Reply, ReplyView, Request, RequestView};
use crate::text::{copy_bytes, copy_text};
use vstd::prelude::*;

verus! {

/// How a file is to be opened.
#[derive(Clone, Copy, Debug, PartialEq, Eq, Structural)]
pub struct OpenOptions {
    pub read: bool,
    pub write: bool,
    pub append: bool,
    pub truncate: bool,
    pub create: bool,
    pub create_new: bool,
}

/// The combinations of options that can be honoured: some access is asked
/// for; truncating needs write access without append; creating needs
/// write access or append.
pub open spec fn options_valid(o: OpenOptions) -> bool {
    &&& (o.read || o.write || o.append)
    &&& (o.truncate ==> o.write && !o.append)
    &&& (o.create || o.create_new ==> o.write || o.append)
}

impl OpenOptions {
    /// No option set.
    pub fn new() -> (r: OpenOptions)
        ensures
            r == (OpenOptions {
                read: false,
                write: false,
                append: false,
                truncate: false,
                create: false,
                create_new: false,
            }),
    {
        OpenOptions {
            read: false,
            write: false,
            append: false,
            truncate: false,
            create: false,
            create_new: false,
        }
    }

    /// Whether the combination can be honoured.
    pub fn is_valid(&self) -> (b: bool)
        ensures
            b == options_valid(*self),
    {
        (self.read || self.write || self.append) && (!self.truncate || (self.write
            && !self.append)) && (!(self.create || self.create_new) || self.write || self.append)
    }
}

/// What a simple file waits for.
#[derive(Clone, Copy, Debug, PartialEq, Eq, Structural)]
pub enum SimpleStage {
    /// Nothing: the file can be read, written, sought and flushed.
    Idle,
    /// The answer to the upload of the object.
    Put,
    /// The answer to the upload of the tags.
    Tagging,
}

/// An open file whose content is held in memory, with a cursor.
#[derive(Debug)]
pub struct S3SimpleOpenFile {
    pub path: String,
    pub options: OpenOptions,
    pub buffer: Vec<u8>,
    pub position: u64,
    pub metadata: S3MetaData,
    pub stage: SimpleStage,
}

/// A simple file as plain values.
pub struct SimpleView {
    pub path: Seq<char>,
    pub options: OpenOptions,
    pub buffer: Seq<u8>,
    pub position: u64,
    pub metadata: MetaView,
    pub stage: SimpleStage,
}

impl View for S3SimpleOpenFile {
    type V = SimpleView;

    open spec fn view(&self) -> SimpleView {
        SimpleView {
            path: self.path@,
            options: self.options,
            buffer: self.buffer@,
            position: self.position,
            metadata: self.metadata@,
            stage: self.stage,
        }
    }
}

/// The file right after it was opened: the cursor at the start.
pub open spec fn simple_opened(
    metadata: MetaView,
    buffer: Seq<u8>,
    options: OpenOptions,
    path: Seq<char>,
) -> SimpleView {
    SimpleView { path, options, buffer, position: 0, metadata, stage: SimpleStage::Idle }
}

impl S3SimpleOpenFile {
    /// A file over the bytes `buf`, with the cursor at the start.
    pub fn new(metadata: S3MetaData, buf: Vec<u8>, opts: OpenOptions, path: String) -> (r:
        S3SimpleOpenFile)
        ensures
            r@ == simple_opened(metadata@, buf@, opts, path@),
    {
        S3SimpleOpenFile {
            path,
            options: opts,
            buffer: buf,
            position: 0,
            metadata,
            stage: SimpleStage::Idle,
        }
    }
}

/// Where to move the cursor: from the start, from the end, or from
/// where it is.
#[derive(Clone, Copy, Debug, PartialEq, Eq, Structural)]
pub enum SeekFrom {
    Start(u64),
    End(i64),
    Current(i64),
}

/// What an open file asks for next.
#[derive(Debug)]
pub enum FileStep {
    /// Send the request, and resume the file with the reply.
    Send(Request),
    /// The call has ended.
    Done(Result<(), FsError>),
}

/// A file step as plain values.
pub enum FileStepView {
    Send(RequestView),
    Done(Result<(), FsError>),
}

impl View for FileStep {
    type V = FileStepView;

    open spec fn view(&self) -> FileStepView {
        match *self {
            FileStep::Send(r) => FileStepView::Send(r@),
            FileStep::Done(r) => FileStepView::Done(r),
        }
    }
}

/// `n` zero bytes.
pub open spec fn zeros(n: nat) -> Seq<u8> {
    Seq::new(n, |i: int| 0u8)
}

/// The bytes after `data` was written at `pos`: a gap before `pos` is
/// filled with zeros, what was there from `pos` on is overwritten, and
/// the rest stays.
pub open spec fn write_at(buffer: Seq<u8>, pos: nat, data: Seq<u8>) -> Seq<u8> {
    let padded = if pos > buffer.len() {
        buffer + zeros((pos - buffer.len()) as nat)
    } else {
        buffer
    };
    let end = pos + data.len();
    if end < padded.len() {
        padded.take(pos as int) + data + padded.skip(end as int)
    } else {
        padded.take(pos as int) + data
    }
}

/// Where the bytes of a read start: at the cursor, or at the end where
/// the cursor lies beyond it.
pub open spec fn read_start(f: SimpleView) -> nat {
    if f.position <= f.buffer.len() {
        f.position as nat
    } else {
        f.buffer.len()
    }
}

/// How many bytes a read of `count` bytes gives: no more than are left.
pub open spec fn read_len(f: SimpleView, count: usize) -> nat {
    let left = (f.buffer.len() - read_start(f)) as nat;
    if count <= left {
        count as nat
    } else {
        left
    }
}

/// The bytes a read of `count` bytes gives.
pub open spec fn read_data(f: SimpleView, count: usize) -> Seq<u8> {
    f.buffer.subrange(read_start(f) as int, (read_start(f) + read_len(f, count)) as int)
}

/// Whether `data` can be written: the file waits for nothing, and neither
/// the end of the written bytes nor the length of the record leaves the
/// range of the machine's numbers.
pub open spec fn can_write(f: SimpleView, data: Seq<u8>) -> bool {
    &&& f.stage == SimpleStage::Idle
    &&& f.position + data.len() <= usize::MAX
    &&& f.metadata.len + data.len() <= u64::MAX
}

/// The file after `data` was written at the cursor at the time `now`.
pub open spec fn written(f: SimpleView, data: Seq<u8>, now: UnixTime) -> SimpleView {
    SimpleView {
        buffer: write_at(f.buffer, f.position as nat, data),
        position: (f.position + data.len()) as u64,
        metadata: MetaView {
            len: (f.metadata.len + data.len()) as u64,
            modified: now,
            ..f.metadata
        },
        ..f
    }
}

/// Where a seek leads, or `None` where it leads before the start or
/// beyond what a cursor can hold.
pub open spec fn seek_target(f: SimpleView, pos: SeekFrom) -> Option<u64> {
    let target: int = match pos {
        SeekFrom::Start(n) => n as int,
        SeekFrom::End(d) => f.buffer.len() + d,
        SeekFrom::Current(d) => f.position + d,
    };
    if 0 <= target <= u64::MAX {
        Some(target as u64)
    } else {
        None
    }
}

/// One step of a flush: the object is uploaded whole, then its tags; the
/// store must answer both with 200. `None` as reply begins the flush.
pub open spec fn simple_flush_step(f: SimpleView, reply: Option<ReplyView>) -> (
    SimpleView,
    FileStepView,
) {
    let failed = (
        SimpleView { stage: SimpleStage::Idle, ..f },
        FileStepView::Done(Err(FsError::GeneralFailure)),
    );
    match (f.stage, reply) {
        (SimpleStage::Idle, None) => (
            SimpleView { stage: SimpleStage::Put, ..f },
            FileStepView::Send(RequestView::PutObject { key: f.path, body: f.buffer }),
        ),
        (SimpleStage::Put, Some(ReplyView::Status { code })) => if code == 200 {
            (
                SimpleView { stage: SimpleStage::Tagging, ..f },
                FileStepView::Send(
                    RequestView::PutObjectTagging { key: f.path, tags: tags_of(f.metadata) },
                ),
            )
        } else {
            failed
        },
        (SimpleStage::Tagging, Some(ReplyView::Status { code })) => if code == 200 {
            (SimpleView { stage: SimpleStage::Idle, ..f }, FileStepView::Done(Ok(())))
        } else {
            failed
        },
        _ => failed,
    }
}

impl S3SimpleOpenFile {
    /// A copy of the file's record.
    pub fn metadata(&self) -> (r: S3MetaData)
        ensures
            r@ == self@.metadata,
    {
        self.metadata.clone()
    }

    /// Reads up to `count` bytes at the cursor and moves the cursor past
    /// them. At the end of the buffer fewer bytes, or none, come back.
    pub fn read_bytes(&mut self, count: usize) -> (r: Result<Vec<u8>, FsError>)
        ensures
            old(self)@.stage != SimpleStage::Idle ==> r == Err::<Vec<u8>, FsError>(
                FsError::GeneralFailure,
            ) && final(self)@ == old(self)@,
            old(self)@.stage == SimpleStage::Idle ==> r is Ok && r->Ok_0@ == read_data(
                old(self)@,
                count,
            ) && final(self)@ == (SimpleView {
                position: (old(self)@.position + read_len(old(self)@, count)) as u64,
                ..old(self)@
            }),
    {
        if self.stage != SimpleStage::Idle {
            return Err(FsError::GeneralFailure);
        }
        let len = self.buffer.len();
        let start: usize = if self.position <= len as u64 {
            self.position as usize
        } else {
            len
        };
        let left = len - start;
        let n: usize = if count <= left {
            count
        } else {
            left
        };
        let mut data: Vec<u8> = Vec::new();
        let mut i: usize = 0;
        while i < n
            invariant
                i <= n,
                start + n <= self.buffer.len(),
                data@ == self.buffer@.subrange(start as int, start + i),
            decreases n - i,
        {
            data.push(self.buffer[start + i]);
            i += 1;
            assert(data@ =~= self.buffer@.subrange(start as int, start + i));
        }
        self.position = self.position + n as u64;
        Ok(data)
    }

    /// Writes `data` at the cursor and moves the cursor past it. The
    /// record's length grows by the length of `data` and its modification
    /// time becomes `now`.
    pub fn write_bytes(&mut self, data: &[u8], now: UnixTime) -> (r: Result<(), FsError>)
        ensures
            can_write(old(self)@, data@) ==> r is Ok && final(self)@ == written(
                old(self)@,
                data@,
                now,
            ),
            !can_write(old(self)@, data@) ==> r == Err::<(), FsError>(FsError::GeneralFailure)
                && final(self)@ == old(self)@,
    {
        if self.stage != SimpleStage::Idle {
            return Err(FsError::GeneralFailure);
        }
        let n = data.len();
        if self.position > usize::MAX as u64 || n > usize::MAX - self.position as usize {
            return Err(FsError::GeneralFailure);
        }
        if n as u64 > u64::MAX - self.metadata.len {
            return Err(FsError::GeneralFailure);
        }
        let pos: usize = self.position as usize;
        let ghost before = self.buffer@;
        while self.buffer.len() < pos
            invariant
                self.buffer@.len() <= pos || before.len() >= pos,
                before.len() >= pos ==> self.buffer@.len() == before.len(),
                before.len() <= self.buffer@.len(),
                self.buffer@ == before + zeros((self.buffer@.len() - before.len()) as nat),
                self.path == old(self).path,
                self.options == old(self).options,
                self.position == old(self).position,
                self.metadata == old(self).metadata,
                self.stage == old(self).stage,
            decreases pos - self.buffer.len(),
        {
            let ghost prev = self.buffer@;
            self.buffer.push(0);
            assert(self.buffer@ =~= before + zeros((self.buffer@.len() - before.len()) as nat));
        }
        let ghost padded = self.buffer@;
        assert(padded == if pos > before.len() {
            before + zeros((pos - before.len()) as nat)
        } else {
            before
        }) by {
            if pos <= before.len() {
                assert(before + zeros(0) =~= before);
            } else {
                assert(self.buffer@.len() == pos);
            }
        }
        let mut i: usize = 0;
        while i < n
            invariant
                i <= n,
                n == data@.len(),
                pos + n <= usize::MAX,
                pos <= padded.len(),
                padded.len() <= self.buffer@.len(),
                self.buffer@.len() == if pos + i > padded.len() {
                    pos + i
                } else {
                    padded.len() as int
                },
                forall|j: int| 0 <= j < pos ==> self.buffer@[j] == padded[j],
                forall|j: int| pos <= j < pos + i ==> self.buffer@[j] == data@[j - pos],
                forall|j: int| pos + i <= j < self.buffer@.len() ==> self.buffer@[j] == padded[j],
                self.path == old(self).path,
                self.options == old(self).options,
                self.position == old(self).position,
                self.metadata == old(self).metadata,
                self.stage == old(self).stage,
            decreases n - i,
        {
            if pos + i < self.buffer.len() {
                self.buffer.set(pos + i, data[i]);
            } else {
                self.buffer.push(data[i]);
            }
            i += 1;
        }
        assert(self.buffer@ =~= write_at(before, pos as nat, data@));
        self.position = self.position + n as u64;
        self.metadata.modified = now;
        self.metadata.len = self.metadata.len + n as u64;
        Ok(())
    }

    /// As `write_bytes`.
    pub fn write_buf(&mut self, buf: &[u8], now: UnixTime) -> (r: Result<(), FsError>)
        ensures
            can_write(old(self)@, buf@) ==> r is Ok && final(self)@ == written(
                old(self)@,
                buf@,
                now,
            ),
            !can_write(old(self)@, buf@) ==> r == Err::<(), FsError>(FsError::GeneralFailure)
                && final(self)@ == old(self)@,
    {
        self.write_bytes(buf, now)
    }

    /// Moves the cursor and tells where it stands. A move before the
    /// start, or beyond what a cursor can hold, fails and moves nothing.
    pub fn seek(&mut self, pos: SeekFrom) -> (r: Result<u64, FsError>)
        ensures
            match seek_target(old(self)@, pos) {
                Some(target) => r == Ok::<u64, FsError>(target) && final(self)@ == (SimpleView {
                    position: target,
                    ..old(self)@
                }),
                None => r == Err::<u64, FsError>(FsError::GeneralFailure) && final(self)@ == old(
                    self,
                )@,
            },
    {
        let (base, delta): (u64, i64) = match pos {
            SeekFrom::Start(n) => {
                self.position = n;
                return Ok(n);
            },
            SeekFrom::End(d) => (self.buffer.len() as u64, d),
            SeekFrom::Current(d) => (self.position, d),
        };
        let target: Option<u64> = if delta >= 0 {
            base.checked_add(delta as u64)
        } else {
            let back: u64 = if delta == i64::MIN {
                9223372036854775808u64
            } else {
                (-delta) as u64
            };
            base.checked_sub(back)
        };
        match target {
            Some(t) => {
                self.position = t;
                Ok(t)
            },
            None => Err(FsError::GeneralFailure),
        }
    }

    /// Begins to flush: asks for the upload of the whole object.
    pub fn flush(&mut self) -> (r: FileStep)
        ensures
            (final(self)@, r@) == simple_flush_step(old(self)@, None),
    {
        match self.stage {
            SimpleStage::Idle => {
                self.stage = SimpleStage::Put;
                FileStep::Send(
                    Request::PutObject {
                        key: copy_text(self.path.as_str()),
                        body: copy_bytes(&self.buffer),
                    },
                )
            },
            _ => {
                self.stage = SimpleStage::Idle;
                FileStep::Done(Err(FsError::GeneralFailure))
            },
        }
    }

    /// Takes the flush one step further with the store's reply.
    pub fn resume(&mut self, reply: Reply) -> (r: FileStep)
        ensures
            (final(self)@, r@) == simple_flush_step(old(self)@, Some(reply@)),
    {
        match (self.stage, reply) {
            (SimpleStage::Put, Reply::Status { code }) => {
                if code == 200 {
                    self.stage = SimpleStage::Tagging;
                    FileStep::Send(
                        Request::PutObjectTagging {
                            key: copy_text(self.path.as_str()),
                            tags: self.metadata.as_metadata(),
                        },
                    )
                } else {
                    self.stage = SimpleStage::Idle;
                    FileStep::Done(Err(FsError::GeneralFailure))
                }
            },
            (SimpleStage::Tagging, Reply::Status { code }) => {
                self.stage = SimpleStage::Idle;
                if code == 200 {
                    FileStep::Done(Ok(()))
                } else {
                    FileStep::Done(Err(FsError::GeneralFailure))
                }
            },
            _ => {
                self.stage = SimpleStage::Idle;
                FileStep::Done(Err(FsError::GeneralFailure))
            },
        }
    }
}

} // verus!
