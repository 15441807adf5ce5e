//! The requests the adapter asks to be sent to the object store and the
//! replies it takes back. Sending is left to the caller: the adapter only
//! decides what to send next.
use crate::s3_backend::metadata::pairs_view;
use crate::serde_types::{
    pages_view, parts_view, HeadObjectResult, HeadView, ListBucketResult, ListPageView, Part,
    PartView,
};
use vstd::prelude::*;

verus! {

/// The status of a request that went well.
pub const OK: u16 = 200;

/// The status of a deletion that went well.
pub const NO_CONTENT: u16 = 204;

/// The status of a bucket creation that found the bucket in place.
pub const CONFLICT: u16 = 409;

/// A request to the object store.
#[derive(Debug)]
pub enum Request {
    /// `HEAD /bucket/key`
    HeadObject { key: String },
    /// `GET /bucket/key`
    GetObject { key: String },
    /// `PUT /bucket/key`
    PutObject { key: String, body: Vec<u8> },
    /// `DELETE /bucket/key`
    DeleteObject { key: String },
    /// `PUT /bucket/to` with the copy source `from`
    CopyObject { from: String, to: String },
    /// `GET /bucket?prefix=..&delimiter=..`
    List { prefix: String, delimiter: String },
    /// `PUT /bucket/key?tagging`
    PutObjectTagging { key: String, tags: Vec<(String, String)> },
    /// `POST /bucket/key?uploads`
    CreateMultipartUpload { key: String },
    /// `PUT /bucket/key?uploadId=..&partNumber=..`
    UploadPart { key: String, upload_id: String, part_number: u32, body: Vec<u8> },
    /// `POST /bucket/key?uploadId=..`
    CompleteMultipartUpload { key: String, upload_id: String, parts: Vec<Part> },
    /// `DELETE /bucket/key?uploadId=..`
    AbortMultipartUpload { key: String, upload_id: String },
    /// `PUT /bucket`, with a private access list
    CreateBucket,
}

/// A request as plain values.
pub enum RequestView {
    HeadObject { key: Seq<char> },
    GetObject { key: Seq<char> },
    PutObject { key: Seq<char>, body: Seq<u8> },
    DeleteObject { key: Seq<char> },
    CopyObject { from: Seq<char>, to: Seq<char> },
    List { prefix: Seq<char>, delimiter: Seq<char> },
    PutObjectTagging { key: Seq<char>, tags: Seq<(Seq<char>, Seq<char>)> },
    CreateMultipartUpload { key: Seq<char> },
    UploadPart { key: Seq<char>, upload_id: Seq<char>, part_number: u32, body: Seq<u8> },
    CompleteMultipartUpload { key: Seq<char>, upload_id: Seq<char>, parts: Seq<PartView> },
    AbortMultipartUpload { key: Seq<char>, upload_id: Seq<char> },
    CreateBucket,
}

impl View for Request {
    type V = RequestView;

    open spec fn view(&self) -> RequestView {
        match *self {
            Request::HeadObject { key } => RequestView::HeadObject { key: key@ },
            Request::GetObject { key } => RequestView::GetObject { key: key@ },
            Request::PutObject { key, body } => RequestView::PutObject { key: key@, body: body@ },
            Request::DeleteObject { key } => RequestView::DeleteObject { key: key@ },
            Request::CopyObject { from, to } => RequestView::CopyObject { from: from@, to: to@ },
            Request::List { prefix, delimiter } => RequestView::List {
                prefix: prefix@,
                delimiter: delimiter@,
            },
            Request::PutObjectTagging { key, tags } => RequestView::PutObjectTagging {
                key: key@,
                tags: pairs_view(tags@),
            },
            Request::CreateMultipartUpload { key } => RequestView::CreateMultipartUpload {
                key: key@,
            },
            Request::UploadPart { key, upload_id, part_number, body } => RequestView::UploadPart {
                key: key@,
                upload_id: upload_id@,
                part_number,
                body: body@,
            },
            Request::CompleteMultipartUpload {
                key,
                upload_id,
                parts,
            } => RequestView::CompleteMultipartUpload {
                key: key@,
                upload_id: upload_id@,
                parts: parts_view(parts@),
            },
            Request::AbortMultipartUpload { key, upload_id } => RequestView::AbortMultipartUpload {
                key: key@,
                upload_id: upload_id@,
            },
            Request::CreateBucket => RequestView::CreateBucket,
        }
    }
}

/// What came back for a request.
#[derive(Debug)]
pub enum Reply {
    /// The request could not be sent, or no answer could be read.
    Failed,
    /// The answer to `HeadObject`.
    Head { code: u16, head: HeadObjectResult },
    /// The answer to `GetObject`.
    Body { code: u16, data: Vec<u8> },
    /// The answer to a request that returns a status only.
    Status { code: u16 },
    /// The answer to `List`: all its pages.
    Listing { pages: Vec<ListBucketResult> },
    /// The answer to `CreateMultipartUpload`.
    Initiated { code: u16, upload_id: String },
    /// The answer to `UploadPart`.
    PartStored { code: u16, etag: String },
}

/// A reply as plain values.
pub enum ReplyView {
    Failed,
    Head { code: u16, head: HeadView },
    Body { code: u16, data: Seq<u8> },
    Status { code: u16 },
    Listing { pages: Seq<ListPageView> },
    Initiated { code: u16, upload_id: Seq<char> },
    PartStored { code: u16, etag: Seq<char> },
}

impl View for Reply {
    type V = ReplyView;

    open spec fn view(&self) -> ReplyView {
        match *self {
            Reply::Failed => ReplyView::Failed,
            Reply::Head { code, head } => ReplyView::Head { code, head: head@ },
            Reply::Body { code, data } => ReplyView::Body { code, data: data@ },
            Reply::Status { code } => ReplyView::Status { code },
            Reply::Listing { pages } => ReplyView::Listing { pages: pages_view(pages@) },
            Reply::Initiated { code, upload_id } => ReplyView::Initiated {
                code,
                upload_id: upload_id@,
            },
            Reply::PartStored { code, etag } => ReplyView::PartStored { code, etag: etag@ },
        }
    }
}

/// The status of a reply that carries nothing else; `None` for the others.
pub open spec fn status_of_reply(r: ReplyView) -> Option<u16> {
    match r {
        ReplyView::Status { code } => Some(code),
        _ => None,
    }
}

impl Reply {
    /// The status of a reply that carries nothing else; `None` for the
    /// others, a failed request among them.
    pub fn status(&self) -> (r: Option<u16>)
        ensures
            r == status_of_reply(self@),
    {
        match self {
            Reply::Status { code } => Some(*code),
            _ => None,
        }
    }
}

} // verus!
