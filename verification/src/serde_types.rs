//! The records that travel between the adapter and the object store.
use crate::text::{copy_text, decimal, decimal_string, opt_text};
use vstd::prelude::*;
use vstd::string::StringExecFns;

verus! {

/// The store's answer to the start of a multipart upload.
#[derive(Debug, Clone)]
pub struct InitiateMultipartUploadResponse {
    pub bucket: String,
    pub key: String,
    pub upload_id: String,
}

/// Who owns an object.
#[derive(Debug, Clone)]
pub struct Owner {
    pub display_name: String,
    pub id: String,
}

/// One object of a listing.
#[derive(Debug, Clone)]
pub struct Object {
    pub last_modified: String,
    pub e_tag: String,
    pub storage_class: String,
    pub key: String,
    pub owner: Option<Owner>,
    pub size: u64,
}

/// The tags of an object.
#[derive(Debug, Clone)]
pub struct Tagging {
    pub tag_set: TagSet,
}

/// A set of tags.
#[derive(Debug, Clone)]
pub struct TagSet {
    pub tags: Vec<Tag>,
}

/// One tag.
#[derive(Debug, Clone)]
pub struct Tag {
    pub key: String,
    pub value: String,
}

impl Tag {
    /// A copy of the tag's key.
    pub fn key(&self) -> (r: String)
        ensures
            r@ == self.key@,
    {
        copy_text(self.key.as_str())
    }

    /// A copy of the tag's value.
    pub fn value(&self) -> (r: String)
        ensures
            r@ == self.value@,
    {
        copy_text(self.value.as_str())
    }
}

/// A key with its value.
#[derive(Debug, Clone)]
pub struct KVPair {
    pub key: String,
    pub value: String,
}

/// One uploaded part of a multipart upload.
#[derive(Debug)]
pub struct Part {
    pub part_number: u32,
    pub etag: String,
}

/// A part as plain values.
pub struct PartView {
    pub part_number: u32,
    pub etag: Seq<char>,
}

impl View for Part {
    type V = PartView;

    open spec fn view(&self) -> PartView {
        PartView { part_number: self.part_number, etag: self.etag@ }
    }
}

impl Clone for Part {
    fn clone(&self) -> (r: Self)
        ensures
            r@ == self@,
    {
        Part { part_number: self.part_number, etag: copy_text(self.etag.as_str()) }
    }
}

/// The parts of a sequence, as plain values.
pub open spec fn parts_view(parts: Seq<Part>) -> Seq<PartView> {
    parts.map_values(|p: Part| p@)
}

/// `s` with `<`, `>` and `&` written as entities, as character data needs.
pub open spec fn xml_escape(s: Seq<char>) -> Seq<char>
    decreases s.len(),
{
    if s.len() == 0 {
        s
    } else {
        let head = xml_escape(s.drop_last());
        let c = s.last();
        if c == '<' {
            head + "&lt;"@
        } else if c == '>' {
            head + "&gt;"@
        } else if c == '&' {
            head + "&amp;"@
        } else {
            head.push(c)
        }
    }
}

/// The XML element of one part.
pub open spec fn part_xml(p: PartView) -> Seq<char> {
    "<Part><PartNumber>"@ + decimal(p.part_number as nat) + "</PartNumber><ETag>"@ + xml_escape(
        p.etag,
    ) + "</ETag></Part>"@
}

/// The XML elements of the parts, one after the other.
pub open spec fn parts_xml(parts: Seq<PartView>) -> Seq<char>
    decreases parts.len(),
{
    if parts.len() == 0 {
        Seq::empty()
    } else {
        parts_xml(parts.drop_last()) + part_xml(parts.last())
    }
}

/// The body of the request that completes a multipart upload.
pub open spec fn complete_xml(parts: Seq<PartView>) -> Seq<char> {
    "<CompleteMultipartUpload>"@ + parts_xml(parts) + "</CompleteMultipartUpload>"@
}

/// `s` with `<`, `>` and `&` written as entities.
pub fn escape_xml(s: &str) -> (r: String)
    ensures
        r@ == xml_escape(s@),
{
    let v = crate::text::chars_of(s);
    let mut r = String::new();
    let mut i: usize = 0;
    assert(v@.take(0) =~= Seq::<char>::empty());
    while i < v.len()
        invariant
            i <= v.len(),
            r@ == xml_escape(v@.take(i as int)),
        decreases v.len() - i,
    {
        let c = v[i];
        proof {
            let t = v@.take(i + 1);
            assert(t.drop_last() =~= v@.take(i as int));
            assert(t.last() == c);
        }
        if c == '<' {
            r.append("&lt;");
        } else if c == '>' {
            r.append("&gt;");
        } else if c == '&' {
            r.append("&amp;");
        } else {
            r.push(c);
        }
        i += 1;
    }
    assert(v@.take(v@.len() as int) =~= v@);
    r
}

/// What is sent to complete a multipart upload: the parts in their order.
#[derive(Debug)]
pub struct CompleteMultipartUploadData {
    pub parts: Vec<Part>,
}

impl CompleteMultipartUploadData {
    /// The XML body.
    pub fn to_string(&self) -> (r: String)
        ensures
            r@ == complete_xml(parts_view(self.parts@)),
    {
        let mut r = String::from_str("<CompleteMultipartUpload>");
        let ghost open = r@;
        let mut i: usize = 0;
        let ghost all = parts_view(self.parts@);
        assert(all.take(0) =~= Seq::<PartView>::empty());
        while i < self.parts.len()
            invariant
                i <= self.parts.len(),
                all == parts_view(self.parts@),
                open == "<CompleteMultipartUpload>"@,
                r@ == open + parts_xml(all.take(i as int)),
            decreases self.parts.len() - i,
        {
            let p = &self.parts[i];
            proof {
                let t = all.take(i + 1);
                assert(t.drop_last() =~= all.take(i as int));
                assert(t.last() == p@);
            }
            let ghost before = r@;
            r.append("<Part><PartNumber>");
            r.append(decimal_string(p.part_number as u64).as_str());
            r.append("</PartNumber><ETag>");
            r.append(escape_xml(p.etag.as_str()).as_str());
            r.append("</ETag></Part>");
            assert(r@ =~= before + part_xml(p@));
            assert(r@ =~= open + parts_xml(all.take(i + 1)));
            i += 1;
        }
        assert(all.take(all.len() as int) =~= all);
        r.append("</CompleteMultipartUpload>");
        r
    }

    /// The number of bytes of the XML body.
    pub fn len(&self) -> (n: usize)
        ensures
            n == vstd::utf8::encode_utf8(complete_xml(parts_view(self.parts@))).len() as usize,
    {
        let s = self.to_string();
        s.as_str().len()
    }

    /// Whether the XML body holds no byte. It never does.
    pub fn is_empty(&self) -> (b: bool)
        ensures
            b == (complete_xml(parts_view(self.parts@)).len() == 0),
    {
        let s = self.to_string();
        s.as_str().is_empty()
    }
}

/// The store's answer to the completion of a multipart upload.
#[derive(Debug, Clone)]
pub struct CompleteMultipartUploadResult {
    pub location: String,
    pub bucket: String,
    pub key: String,
    pub etag: String,
}

/// Where a bucket lives.
#[derive(Debug, Clone)]
pub struct BucketLocationResult {
    pub region: String,
}

/// A prefix that stands for all the keys below it.
#[derive(Debug, Clone)]
pub struct CommonPrefix {
    pub prefix: String,
}

/// One page of a listing with a delimiter.
#[derive(Debug, Clone)]
pub struct ListBucketResult {
    pub name: String,
    pub next_marker: Option<String>,
    pub delimiter: Option<String>,
    pub max_keys: i32,
    pub prefix: String,
    pub marker: Option<String>,
    pub encoding_type: Option<String>,
    pub is_truncated: bool,
    pub next_continuation_token: Option<String>,
    pub contents: Vec<Object>,
    pub common_prefixes: Vec<CommonPrefix>,
}

/// A page as the adapter reads it: the prefixes and the keys, in order.
pub struct ListPageView {
    pub common_prefixes: Seq<Seq<char>>,
    pub keys: Seq<Seq<char>>,
}

impl View for ListBucketResult {
    type V = ListPageView;

    open spec fn view(&self) -> ListPageView {
        ListPageView {
            common_prefixes: self.common_prefixes@.map_values(|c: CommonPrefix| c.prefix@),
            keys: self.contents@.map_values(|o: Object| o.key@),
        }
    }
}

/// The pages of a sequence, as plain values.
pub open spec fn pages_view(pages: Seq<ListBucketResult>) -> Seq<ListPageView> {
    pages.map_values(|p: ListBucketResult| p@)
}

/// What the store says of an object without sending it.
#[derive(Debug, Clone)]
pub struct HeadObjectResult {
    pub accept_ranges: Option<String>,
    pub cache_control: Option<String>,
    pub content_disposition: Option<String>,
    pub content_encoding: Option<String>,
    pub content_language: Option<String>,
    pub content_length: Option<i64>,
    pub content_type: Option<String>,
    pub delete_marker: Option<bool>,
    pub e_tag: Option<String>,
    pub expiration: Option<String>,
    pub expires: Option<String>,
    pub last_modified: Option<String>,
    pub storage_class: Option<String>,
    pub version_id: Option<String>,
}

/// The fields of a head result that the adapter reads.
pub struct HeadView {
    pub content_length: Option<i64>,
    pub e_tag: Option<Seq<char>>,
    pub last_modified: Option<Seq<char>>,
}

impl View for HeadObjectResult {
    type V = HeadView;

    open spec fn view(&self) -> HeadView {
        HeadView {
            content_length: self.content_length,
            e_tag: opt_text(self.e_tag),
            last_modified: opt_text(self.last_modified),
        }
    }
}

impl Default for HeadObjectResult {
    fn default() -> (r: Self)
        ensures
            r@ == (HeadView { content_length: None, e_tag: None, last_modified: None }),
    {
        HeadObjectResult {
            accept_ranges: None,
            cache_control: None,
            content_disposition: None,
            content_encoding: None,
            content_language: None,
            content_length: None,
            content_type: None,
            delete_marker: None,
            e_tag: None,
            expiration: None,
            expires: None,
            last_modified: None,
            storage_class: None,
            version_id: None,
        }
    }
}

/// The store's answer to a copy.
#[derive(Debug, Clone)]
pub struct CopyObjectResult {
    pub etag: String,
    pub last_modified: String,
}

/// An error as the store words it.
#[derive(Debug, Clone)]
pub struct AwsError {
    pub code: String,
    pub message: String,
    pub request_id: String,
}

} // verus!
