//! What the adapter knows of a resource or a collection.
use chrono::DateTime;
use crate::text::{
    copy_opt_text, copy_text, decimal, decimal_string, hex, hex_string, law_decimal_is_read_back,
    lemma_decimal_starts_with_digit, opt_text, parse_decimal, u64_value,
};
use vstd::prelude::*;
use vstd::string::StringExecFns;

verus! {

/// A point in time: seconds since the start of 1970 (negative before it)
/// and the nanoseconds into that second.
#[derive(Clone, Copy, Debug, PartialEq, Eq, Structural)]
pub struct UnixTime {
    pub secs: i64,
    pub nanos: u32,
}

/// The seconds since the start of 1970 that an RFC 2822 date names, where
/// the text is such a date.
pub uninterp spec fn rfc2822_seconds(text: Seq<char>) -> Option<i64>;

/// `chrono::DateTime::parse_from_rfc2822`, followed by `timestamp`: the
/// date that the text names, as seconds since the start of 1970, or `None`
/// where the text is no RFC 2822 date. The result depends on the text alone.
#[verifier::external_body]
fn parse_rfc2822(text: &str) -> (r: Option<i64>)
    ensures
        r == rfc2822_seconds(text@),
{
    match DateTime::parse_from_rfc2822(text) {
        Ok(date) => Some(date.timestamp()),
        Err(_) => None,
    }
}

/// The metadata record of a resource or a collection.
#[derive(Debug)]
pub struct S3MetaData {
    pub path: String,
    pub len: u64,
    pub modified: UnixTime,
    pub created: UnixTime,
    pub executable: bool,
    pub is_dir: bool,
    pub etag: Option<String>,
}

/// A metadata record as plain values.
pub struct MetaView {
    pub path: Seq<char>,
    pub len: u64,
    pub modified: UnixTime,
    pub created: UnixTime,
    pub executable: bool,
    pub is_dir: bool,
    pub etag: Option<Seq<char>>,
}

impl View for S3MetaData {
    type V = MetaView;

    open spec fn view(&self) -> MetaView {
        MetaView {
            path: self.path@,
            len: self.len,
            modified: self.modified,
            created: self.created,
            executable: self.executable,
            is_dir: self.is_dir,
            etag: opt_text(self.etag),
        }
    }
}

/// The record made from what a head request told: the modification time
/// is the one the store gave, or `now` where it gave none that could be
/// read; the creation time is `now`.
pub open spec fn meta_of_head(
    len: u64,
    path: Seq<char>,
    is_dir: bool,
    etag: Option<Seq<char>>,
    modified: Option<i64>,
    now: UnixTime,
) -> MetaView {
    MetaView {
        path,
        len,
        modified: match modified {
            Some(secs) => UnixTime { secs, nanos: 0 },
            None => now,
        },
        created: now,
        executable: false,
        is_dir,
        etag,
    }
}

/// The seconds since the start of 1970 that the store's date names;
/// none where the store gave no date, or one that cannot be read.
pub open spec fn date_seconds(modified: Option<Seq<char>>) -> Option<i64> {
    match modified {
        Some(text) => rfc2822_seconds(text),
        None => None,
    }
}

/// A time as the decimal number of its seconds; `0` before 1970.
pub open spec fn unix_text(t: UnixTime) -> Seq<char> {
    if t.secs >= 0 {
        decimal(t.secs as nat)
    } else {
        seq!['0']
    }
}

/// The time that the decimal text of a number of seconds stands for;
/// `now` where the text stands for no number, or for one that no time can
/// hold.
pub open spec fn seconds_or(value: Seq<char>, now: UnixTime) -> UnixTime {
    match u64_value(value) {
        Some(secs) => if secs <= i64::MAX {
            UnixTime { secs: secs as i64, nanos: 0 }
        } else {
            now
        },
        None => now,
    }
}

/// The text that a tag carries for a time of whole seconds since 1970
/// is read back as that time.
pub proof fn law_tag_is_read_back(t: UnixTime, now: UnixTime)
    requires
        t.secs >= 0,
        t.nanos == 0,
    ensures
        seconds_or(unix_text(t), now) == t,
{
    law_decimal_is_read_back(t.secs as nat);
    let text = decimal(t.secs as nat);
    assert(text[0] != '+') by {
        lemma_decimal_starts_with_digit(t.secs as nat);
    }
}

/// The microseconds since the start of 1970.
pub open spec fn unix_micros(t: UnixTime) -> int {
    t.secs * 1_000_000 + t.nanos / 1000
}

/// The entity tag: `{len:hex}-{micros:hex}` for a resource that is not
/// empty, `{micros:hex}` otherwise, and none for a time before 1970.
pub open spec fn etag_of(m: MetaView) -> Option<Seq<char>> {
    if m.modified.secs < 0 {
        None
    } else if !m.is_dir && m.len > 0 {
        Some(hex(m.len as nat) + seq!['-'] + hex(unix_micros(m.modified) as nat))
    } else {
        Some(hex(unix_micros(m.modified) as nat))
    }
}

/// The views of a sequence of pairs of strings.
pub open spec fn pairs_view(pairs: Seq<(String, String)>) -> Seq<(Seq<char>, Seq<char>)> {
    pairs.map_values(|p: (String, String)| (p.0@, p.1@))
}

/// The tags that carry the times of a record: `modified` and `created`.
pub open spec fn tags_of(m: MetaView) -> Seq<(Seq<char>, Seq<char>)> {
    seq![("modified"@, unix_text(m.modified)), ("created"@, unix_text(m.created))]
}

impl S3MetaData {
    /// The record for `path`, from the already parsed modification time.
    pub fn with_times(
        len: u64,
        path: String,
        is_dir: bool,
        etag: Option<String>,
        modified: Option<i64>,
        now: UnixTime,
    ) -> (r: S3MetaData)
        ensures
            r@ == meta_of_head(len, path@, is_dir, opt_text(etag), modified, now),
    {
        let modified = match modified {
            Some(secs) => UnixTime { secs, nanos: 0 },
            None => now,
        };
        S3MetaData { path, len, modified, created: now, executable: false, is_dir, etag }
    }

    /// The record for `path`, from what a head request told. `modified` is
    /// the store's `Last-Modified` text; where the store gave none, or one
    /// that cannot be read, the record is of the time of the call.
    pub fn extract_from_tags(
        len: u64,
        path: String,
        is_dir: bool,
        etag: Option<String>,
        modified: Option<String>,
        now: UnixTime,
    ) -> (r: S3MetaData)
        ensures
            r@ == meta_of_head(
                len,
                path@,
                is_dir,
                opt_text(etag),
                date_seconds(opt_text(modified)),
                now,
            ),
    {
        let parsed = match &modified {
            Some(text) => parse_rfc2822(text.as_str()),
            None => None,
        };
        S3MetaData::with_times(len, path, is_dir, etag, parsed, now)
    }

    /// The time that a tag tells: the seconds since the start of 1970
    /// that its decimal text stands for, or `now` where the text stands
    /// for no number of seconds that a time can hold.
    pub fn extract_unixtime_or_zero(value: &str, now: UnixTime) -> (r: UnixTime)
        ensures
            r == seconds_or(value@, now),
    {
        match parse_decimal(value) {
            Some(secs) => if secs <= i64::MAX as u64 {
                UnixTime { secs: secs as i64, nanos: 0 }
            } else {
                now
            },
            None => now,
        }
    }

    /// A time as the decimal number of its seconds; `0` before 1970.
    pub fn as_unixtime(t: UnixTime) -> (r: String)
        ensures
            r@ == unix_text(t),
    {
        if t.secs >= 0 {
            decimal_string(t.secs as u64)
        } else {
            let mut r = String::new();
            r.push('0');
            assert(r@ =~= seq!['0']);
            r
        }
    }

    /// The tags to store with the object.
    pub fn as_metadata(&self) -> (r: Vec<(String, String)>)
        ensures
            pairs_view(r@) == tags_of(self@),
    {
        let modified = S3MetaData::as_unixtime(self.modified);
        let created = S3MetaData::as_unixtime(self.created);
        let mut r: Vec<(String, String)> = Vec::new();
        r.push((String::from_str("modified"), modified));
        r.push((String::from_str("created"), created));
        assert(pairs_view(r@) =~= tags_of(self@));
        r
    }

    /// Adds `s` to the length.
    pub fn add_len(&mut self, s: u64)
        requires
            old(self).len + s <= u64::MAX,
        ensures
            final(self)@ == (MetaView { len: (old(self).len + s) as u64, ..old(self)@ }),
    {
        self.len = self.len + s;
    }

    /// Sets the modification time to `now`.
    pub fn modified_now(&mut self, now: UnixTime)
        ensures
            final(self)@ == (MetaView { modified: now, ..old(self)@ }),
    {
        self.modified = now;
    }

    /// The length in bytes.
    pub fn len(&self) -> (n: u64)
        ensures
            n == self.len,
    {
        self.len
    }

    /// Whether this is a collection.
    pub fn is_dir(&self) -> (b: bool)
        ensures
            b == self.is_dir,
    {
        self.is_dir
    }

    /// Whether this is a resource.
    pub fn is_file(&self) -> (b: bool)
        ensures
            b == !self.is_dir,
    {
        !self.is_dir
    }

    /// When the content last changed.
    pub fn modified(&self) -> (t: UnixTime)
        ensures
            t == self.modified,
    {
        self.modified
    }

    /// When the record was made.
    pub fn created(&self) -> (t: UnixTime)
        ensures
            t == self.created,
    {
        self.created
    }

    /// The hint that the resource may be run.
    pub fn executable(&self) -> (b: bool)
        ensures
            b == self.executable,
    {
        self.executable
    }

    /// The entity tag that is shown to clients.
    pub fn etag(&self) -> (r: Option<String>)
        ensures
            opt_text(r) == etag_of(self@),
    {
        if self.modified.secs < 0 {
            return None;
        }
        let micros: u128 = (self.modified.secs as u128) * 1_000_000 + (self.modified.nanos
            / 1000) as u128;
        let stamp = hex_string(micros);
        if !self.is_dir && self.len > 0 {
            let mut tag = hex_string(self.len as u128);
            tag.push('-');
            tag.append(stamp.as_str());
            assert(tag@ =~= hex(self.len as nat) + seq!['-'] + hex(unix_micros(self.modified) as nat));
            Some(tag)
        } else {
            Some(stamp)
        }
    }
}

impl Clone for S3MetaData {
    fn clone(&self) -> (r: Self)
        ensures
            r@ == self@,
    {
        S3MetaData {
            path: copy_text(self.path.as_str()),
            len: self.len,
            modified: self.modified,
            created: self.created,
            executable: self.executable,
            is_dir: self.is_dir,
            etag: copy_opt_text(&self.etag),
        }
    }
}

} // verus!
