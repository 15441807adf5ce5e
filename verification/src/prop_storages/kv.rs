//! The property store over two buckets of a key-value store.
//!
//! The bucket of values maps the encoded name of a property to its
//! encoded value; the bucket of existence maps a path to the encoded name
//! of the property that the path has. Names and values are encoded by
//! the crate `bincode`: as lengths of eight bytes, least significant
//! first, followed by the bytes; an optional part starts with one byte
//! that says whether it is there.
use crate::error::FsError;
use crate::normalized_path::NormalizedPath;
use crate::prop_storages::props::{props_view, without_value, DavProp, PropView};
use crate::text::{copy_bytes, ends_with_char, opt_bytes, opt_text};
use vstd::bytes::{
    lemma_auto_spec_u64_to_from_le_bytes, spec_u64_from_le_bytes, spec_u64_to_le_bytes,
};
use vstd::prelude::*;
use vstd::string::StrSliceExecFns;
use vstd::utf8::{decode_utf8, encode_utf8, valid_utf8};

verus! {

/// `bincode::serialize` on the name, the prefix and the namespace of a
/// property: each text as its length in eight bytes, least significant
/// first, and its bytes; an optional text after one byte that is `1`, or
/// as the one byte `0` where there is none. The three follow one another.
#[verifier::external_body]
fn encode_name(name: &String, prefix: &Option<String>, namespace: &Option<String>) -> (r: Vec<u8>)
    ensures
        r@ == encoded_key(
            KeyView {
                name: encode_utf8(name@),
                prefix: opt_utf8(opt_text(*prefix)),
                namespace: opt_utf8(opt_text(*namespace)),
            },
        ),
{
    match bincode::serialize(&(name, prefix, namespace)) {
        Ok(bytes) => bytes,
        Err(_) => Vec::new(),
    }
}

/// `bincode::deserialize` to a name, a prefix and a namespace: the three
/// texts that the bytes begin with, or `None` where a length runs past
/// the end, a byte before an optional text is neither `0` nor `1`, or a
/// text is no UTF-8. Bytes that follow the three are passed over.
#[verifier::external_body]
fn decode_name(bytes: &Vec<u8>) -> (r: Option<(String, Option<String>, Option<String>)>)
    ensures
        match decoded_key(bytes@) {
            Some(k) => r is Some && r->Some_0.0@ == decode_utf8(k.name) && opt_text(r->Some_0.1)
                == opt_decoded(k.prefix) && opt_text(r->Some_0.2) == opt_decoded(k.namespace),
            None => r is None,
        },
{
    match bincode::deserialize::<(String, Option<String>, Option<String>)>(bytes) {
        Ok(found) => Some(found),
        Err(_) => None,
    }
}

/// `bincode::serialize` on the value of a property: the one byte `0`
/// where there is none, else the byte `1`, the number of its bytes in
/// eight bytes, least significant first, and the bytes.
#[verifier::external_body]
fn encode_value(xml: &Option<Vec<u8>>) -> (r: Vec<u8>)
    ensures
        r@ == encoded_payload(opt_bytes(*xml)),
{
    match bincode::serialize(xml) {
        Ok(bytes) => bytes,
        Err(_) => Vec::new(),
    }
}

/// `bincode::deserialize` to the value of a property: the optional bytes
/// that the bytes begin with, or `None` where the first byte is neither
/// `0` nor `1` or the length runs past the end.
#[verifier::external_body]
fn decode_value(bytes: &Vec<u8>) -> (r: Option<Option<Vec<u8>>>)
    ensures
        match decoded_payload(bytes@) {
            Some(xml) => r is Some && opt_bytes(r->Some_0) == xml,
            None => r is None,
        },
{
    match bincode::deserialize::<Option<Vec<u8>>>(bytes) {
        Ok(found) => Some(found),
        Err(_) => None,
    }
}

/// One entry of a bucket.
pub struct Pair {
    pub key: Seq<u8>,
    pub value: Seq<u8>,
}

/// The entries of a bucket as plain values.
pub open spec fn bucket_model(bucket: Seq<(Vec<u8>, Vec<u8>)>) -> Seq<Pair> {
    bucket.map_values(|e: (Vec<u8>, Vec<u8>)| Pair { key: e.0@, value: e.1@ })
}

/// The first place of `key` in the bucket; the length where it has none.
pub open spec fn first_key(m: Seq<Pair>, key: Seq<u8>) -> int
    decreases m.len(),
{
    if m.len() == 0 {
        0
    } else if m[0].key == key {
        0
    } else {
        1 + first_key(m.skip(1), key)
    }
}

/// What the bucket holds under `key`.
pub open spec fn bucket_get(m: Seq<Pair>, key: Seq<u8>) -> Option<Seq<u8>> {
    let i = first_key(m, key);
    if i < m.len() {
        Some(m[i].value)
    } else {
        None
    }
}

/// The bucket with `value` under `key`.
pub open spec fn bucket_set(m: Seq<Pair>, key: Seq<u8>, value: Seq<u8>) -> Seq<Pair> {
    let i = first_key(m, key);
    if i < m.len() {
        m.update(i, Pair { key, value })
    } else {
        m.push(Pair { key, value })
    }
}

/// The bucket without `key`.
pub open spec fn bucket_del(m: Seq<Pair>, key: Seq<u8>) -> Seq<Pair> {
    let i = first_key(m, key);
    if i < m.len() {
        m.remove(i)
    } else {
        m
    }
}

/// `i` is the first place of `key` where no earlier place holds it and
/// `i` is the length or holds it.
pub proof fn lemma_first_key(m: Seq<Pair>, key: Seq<u8>, i: int)
    requires
        0 <= i <= m.len(),
        forall|j: int| 0 <= j < i ==> m[j].key != key,
        i == m.len() || m[i].key == key,
    ensures
        first_key(m, key) == i,
    decreases m.len(),
{
    if m.len() > 0 && i > 0 {
        assert forall|j: int| 0 <= j < i - 1 implies m.skip(1)[j].key != key by {
            assert(m.skip(1)[j] == m[j + 1]);
        }
        lemma_first_key(m.skip(1), key, i - 1);
    }
}

/// Some bytes, framed: their number in eight bytes, then the bytes.
pub open spec fn framed(bytes: Seq<u8>) -> Seq<u8> {
    spec_u64_to_le_bytes(bytes.len() as u64) + bytes
}

/// An optional part, framed: `0`, or `1` and the framed bytes.
pub open spec fn framed_opt(part: Option<Seq<u8>>) -> Seq<u8> {
    match part {
        None => seq![0u8],
        Some(bytes) => seq![1u8] + framed(bytes),
    }
}

/// The name of a property as bytes.
pub struct KeyView {
    pub name: Seq<u8>,
    pub prefix: Option<Seq<u8>>,
    pub namespace: Option<Seq<u8>>,
}

/// The bytes of an optional text.
pub open spec fn opt_utf8(o: Option<Seq<char>>) -> Option<Seq<u8>> {
    match o {
        Some(text) => Some(encode_utf8(text)),
        None => None,
    }
}

/// The name of a property: its name, prefix and namespace.
pub open spec fn key_of_prop(p: PropView) -> KeyView {
    KeyView {
        name: encode_utf8(p.name),
        prefix: opt_utf8(p.prefix),
        namespace: opt_utf8(p.namespace),
    }
}

/// The encoded name of a property.
pub open spec fn encoded_key(k: KeyView) -> Seq<u8> {
    framed(k.name) + framed_opt(k.prefix) + framed_opt(k.namespace)
}

/// The encoded value of a property.
pub open spec fn encoded_payload(xml: Option<Seq<u8>>) -> Seq<u8> {
    framed_opt(xml)
}

/// The framed bytes at the start of `b`, with what follows them.
pub open spec fn unframed(b: Seq<u8>) -> Option<(Seq<u8>, Seq<u8>)> {
    if b.len() < 8 {
        None
    } else {
        let n = spec_u64_from_le_bytes(b.take(8)) as int;
        let rest = b.skip(8);
        if n <= rest.len() {
            Some((rest.take(n), rest.skip(n)))
        } else {
            None
        }
    }
}

/// The optional part at the start of `b`, with what follows it.
pub open spec fn unframed_opt(b: Seq<u8>) -> Option<(Option<Seq<u8>>, Seq<u8>)> {
    if b.len() == 0 {
        None
    } else if b[0] == 0 {
        Some((None, b.skip(1)))
    } else if b[0] == 1 {
        match unframed(b.skip(1)) {
            Some((bytes, rest)) => Some((Some(bytes), rest)),
            None => None,
        }
    } else {
        None
    }
}

/// Whether an optional part is text.
pub open spec fn opt_valid(o: Option<Seq<u8>>) -> bool {
    match o {
        Some(bytes) => valid_utf8(bytes),
        None => true,
    }
}

/// The name that the bytes encode, where they encode one. Bytes after
/// the name do no harm.
pub open spec fn decoded_key(b: Seq<u8>) -> Option<KeyView> {
    match unframed(b) {
        None => None,
        Some((name, rest)) => match unframed_opt(rest) {
            None => None,
            Some((prefix, rest)) => match unframed_opt(rest) {
                None => None,
                Some((namespace, _)) => if valid_utf8(name) && opt_valid(prefix) && opt_valid(
                    namespace,
                ) {
                    Some(KeyView { name, prefix, namespace })
                } else {
                    None
                },
            },
        },
    }
}

/// The value that the bytes encode, where they encode one.
pub open spec fn decoded_payload(b: Seq<u8>) -> Option<Option<Seq<u8>>> {
    match unframed_opt(b) {
        Some((xml, _)) => Some(xml),
        None => None,
    }
}

/// The text of an optional part.
pub open spec fn opt_decoded(o: Option<Seq<u8>>) -> Option<Seq<char>> {
    match o {
        Some(bytes) => Some(decode_utf8(bytes)),
        None => None,
    }
}

/// The property with the name `k` and the value `xml`.
pub open spec fn prop_from(k: KeyView, xml: Option<Seq<u8>>) -> PropView {
    PropView {
        name: decode_utf8(k.name),
        prefix: opt_decoded(k.prefix),
        namespace: opt_decoded(k.namespace),
        xml,
    }
}

/// Framed bytes are read back as they were, with what followed them.
pub proof fn lemma_unframed_framed(bytes: Seq<u8>, rest: Seq<u8>)
    requires
        bytes.len() <= u64::MAX,
    ensures
        unframed(framed(bytes) + rest) == Some((bytes, rest)),
{
    lemma_auto_spec_u64_to_from_le_bytes();
    let head = spec_u64_to_le_bytes(bytes.len() as u64);
    let b = framed(bytes) + rest;
    assert(b.take(8) =~= head);
    assert(b.skip(8) =~= bytes + rest);
    assert((bytes + rest).take(bytes.len() as int) =~= bytes);
    assert((bytes + rest).skip(bytes.len() as int) =~= rest);
}

/// A framed optional part is read back as it was.
pub proof fn lemma_unframed_opt_framed(part: Option<Seq<u8>>, rest: Seq<u8>)
    requires
        part is Some ==> part->Some_0.len() <= u64::MAX,
    ensures
        unframed_opt(framed_opt(part) + rest) == Some((part, rest)),
{
    let b = framed_opt(part) + rest;
    match part {
        None => {
            assert(b.skip(1) =~= rest);
        },
        Some(bytes) => {
            assert(b.skip(1) =~= framed(bytes) + rest);
            lemma_unframed_framed(bytes, rest);
        },
    }
}

/// The encoded name of a property is read back as the same name.
pub proof fn law_key_round_trip(p: PropView)
    requires
        encode_utf8(p.name).len() <= u64::MAX,
        p.prefix is Some ==> encode_utf8(p.prefix->Some_0).len() <= u64::MAX,
        p.namespace is Some ==> encode_utf8(p.namespace->Some_0).len() <= u64::MAX,
    ensures
        decoded_key(encoded_key(key_of_prop(p))) == Some(key_of_prop(p)),
{
    let k = key_of_prop(p);
    let tail = framed_opt(k.prefix) + framed_opt(k.namespace);
    assert(encoded_key(k) =~= framed(k.name) + tail);
    lemma_unframed_framed(k.name, tail);
    lemma_unframed_opt_framed(k.prefix, framed_opt(k.namespace));
    assert(framed_opt(k.namespace) =~= framed_opt(k.namespace) + Seq::<u8>::empty());
    lemma_unframed_opt_framed(k.namespace, Seq::empty());
    vstd::utf8::encode_utf8_valid_utf8(p.name);
    if p.prefix is Some {
        vstd::utf8::encode_utf8_valid_utf8(p.prefix->Some_0);
    }
    if p.namespace is Some {
        vstd::utf8::encode_utf8_valid_utf8(p.namespace->Some_0);
    }
}

/// The two buckets.
pub struct KvView {
    pub values: Seq<Pair>,
    pub existence: Seq<Pair>,
}

/// The property that a path has, or why none is found.
pub open spec fn stored_prop(kv: KvView, path: Seq<u8>) -> Result<PropView, FsError> {
    match bucket_get(kv.existence, path) {
        None => Err(FsError::NotFound),
        Some(key) => match (decoded_key(key), bucket_get(kv.values, key)) {
            (Some(k), Some(value)) => match decoded_payload(value) {
                Some(xml) => Ok(prop_from(k, xml)),
                None => Err(FsError::NotFound),
            },
            _ => Err(FsError::NotFound),
        },
    }
}

/// The buckets after a patch: the value goes under the name and the name
/// under the path, or both are removed.
pub open spec fn kv_patched(kv: KvView, path: Seq<u8>, set: bool, p: PropView) -> KvView {
    let key = encoded_key(key_of_prop(p));
    if set {
        KvView {
            values: bucket_set(kv.values, key, encoded_payload(p.xml)),
            existence: bucket_set(kv.existence, path, key),
        }
    } else {
        KvView { values: bucket_del(kv.values, key), existence: bucket_del(kv.existence, path) }
    }
}

/// The buckets without the property of a path.
pub open spec fn kv_without(kv: KvView, path: Seq<u8>) -> KvView {
    match bucket_get(kv.existence, path) {
        Some(key) => KvView {
            values: bucket_del(kv.values, key),
            existence: bucket_del(kv.existence, path),
        },
        None => kv,
    }
}

/// The buckets after the properties of the `entries` whose paths begin
/// with `path` were removed, one by one; an entry whose value is gone is
/// left alone.
pub open spec fn kv_without_each(kv: KvView, entries: Seq<Pair>, path: Seq<u8>) -> KvView
    decreases entries.len(),
{
    if entries.len() == 0 {
        kv
    } else {
        let before = kv_without_each(kv, entries.drop_last(), path);
        let e = entries.last();
        if path.is_prefix_of(e.key) && bucket_get(before.values, e.value) is Some {
            KvView {
                values: bucket_del(before.values, e.value),
                existence: bucket_del(before.existence, e.key),
            }
        } else {
            before
        }
    }
}

/// The properties of the `entries` whose paths begin with `path`, in
/// their order. An entry without a value is left out; one that cannot be
/// read fails the listing.
pub open spec fn kv_listed(values: Seq<Pair>, entries: Seq<Pair>, path: Seq<u8>, content: bool) -> Result<
    Seq<PropView>,
    FsError,
>
    decreases entries.len(),
{
    if entries.len() == 0 {
        Ok(Seq::empty())
    } else {
        match kv_listed(values, entries.drop_last(), path, content) {
            Err(e) => Err(e),
            Ok(done) => {
                let e = entries.last();
                if !path.is_prefix_of(e.key) {
                    Ok(done)
                } else {
                    match bucket_get(values, e.value) {
                        None => Ok(done),
                        Some(value) => match (decoded_key(e.value), decoded_payload(value)) {
                            (Some(k), Some(xml)) => Ok(
                                done.push(
                                    if content {
                                        prop_from(k, xml)
                                    } else {
                                        without_value(prop_from(k, xml))
                                    },
                                ),
                            ),
                            _ => Err(FsError::GeneralFailure),
                        },
                    }
                }
            },
        }
    }
}

/// The value of the property `p` of a path: found where the path has a
/// property of that name and namespace with a value.
pub open spec fn kv_value(kv: KvView, path: Seq<u8>, p: PropView) -> Result<Seq<u8>, FsError> {
    match stored_prop(kv, path) {
        Err(e) => Err(e),
        Ok(stored) => if stored.name == p.name && stored.namespace == p.namespace {
            match stored.xml {
                Some(xml) => Ok(xml),
                None => Err(FsError::NotFound),
            }
        } else {
            Err(FsError::NotFound)
        },
    }
}

/// The buckets after the property of `from` was given to `to`, with or
/// without leaving `from`.
pub open spec fn kv_transferred(kv: KvView, from: Seq<u8>, to: Seq<u8>, moving: bool) -> (
    KvView,
    Result<(), FsError>,
) {
    match stored_prop(kv, from) {
        Err(e) => (kv, Err(e)),
        Ok(p) => {
            let source = if moving {
                kv_without(kv, from)
            } else {
                kv
            };
            (kv_patched(source, to, true, p), Ok(()))
        },
    }
}

fn find_key(bucket: &Vec<(Vec<u8>, Vec<u8>)>, key: &Vec<u8>) -> (i: usize)
    ensures
        i == first_key(bucket_model(bucket@), key@),
        i <= bucket@.len(),
{
    let ghost m = bucket_model(bucket@);
    let mut i: usize = 0;
    while i < bucket.len()
        invariant
            i <= bucket.len(),
            m == bucket_model(bucket@),
            forall|j: int| 0 <= j < i ==> m[j].key != key@,
        decreases bucket.len() - i,
    {
        if same_bytes(&bucket[i].0, key) {
            proof {
                lemma_first_key(m, key@, i as int);
            }
            return i;
        }
        i += 1;
    }
    proof {
        lemma_first_key(m, key@, i as int);
    }
    i
}

fn same_bytes(a: &Vec<u8>, b: &Vec<u8>) -> (r: bool)
    ensures
        r == (a@ == b@),
{
    if a.len() != b.len() {
        return false;
    }
    let mut i: usize = 0;
    while i < a.len()
        invariant
            i <= a.len(),
            a.len() == b.len(),
            forall|j: int| 0 <= j < i ==> a@[j] == b@[j],
        decreases a.len() - i,
    {
        if a[i] != b[i] {
            return false;
        }
        i += 1;
    }
    assert(a@ =~= b@);
    true
}

fn starts_with_bytes(a: &Vec<u8>, prefix: &Vec<u8>) -> (r: bool)
    ensures
        r == prefix@.is_prefix_of(a@),
{
    if prefix.len() > a.len() {
        return false;
    }
    let mut i: usize = 0;
    while i < prefix.len()
        invariant
            i <= prefix.len() <= a.len(),
            forall|j: int| 0 <= j < i ==> a@[j] == prefix@[j],
        decreases prefix.len() - i,
    {
        if a[i] != prefix[i] {
            assert(a@.subrange(0, prefix@.len() as int)[i as int] == a@[i as int]);
            return false;
        }
        i += 1;
    }
    assert(prefix@ =~= a@.subrange(0, prefix@.len() as int));
    true
}

fn get_from(bucket: &Vec<(Vec<u8>, Vec<u8>)>, key: &Vec<u8>) -> (r: Option<Vec<u8>>)
    ensures
        opt_bytes(r) == bucket_get(bucket_model(bucket@), key@),
{
    let i = find_key(bucket, key);
    if i < bucket.len() {
        Some(copy_bytes(&bucket[i].1))
    } else {
        None
    }
}

fn set_in(bucket: &mut Vec<(Vec<u8>, Vec<u8>)>, key: Vec<u8>, value: Vec<u8>)
    ensures
        bucket_model(final(bucket)@) == bucket_set(bucket_model(old(bucket)@), key@, value@),
{
    let i = find_key(bucket, &key);
    let ghost before = bucket_model(bucket@);
    if i < bucket.len() {
        bucket.set(i, (key, value));
        assert(bucket_model(bucket@) =~= before.update(i as int, Pair { key: key@, value: value@ }));
    } else {
        bucket.push((key, value));
        assert(bucket_model(bucket@) =~= before.push(Pair { key: key@, value: value@ }));
    }
}

fn del_from(bucket: &mut Vec<(Vec<u8>, Vec<u8>)>, key: &Vec<u8>)
    ensures
        bucket_model(final(bucket)@) == bucket_del(bucket_model(old(bucket)@), key@),
{
    let i = find_key(bucket, key);
    let ghost before = bucket_model(bucket@);
    if i < bucket.len() {
        let _ = bucket.remove(i);
        assert(bucket_model(bucket@) =~= before.remove(i as int));
    }
}

/// The property with the name that `key` encodes and the value that
/// `value` encodes.
fn decode_prop(key: &Vec<u8>, value: &Vec<u8>) -> (r: Option<DavProp>)
    ensures
        match (decoded_key(key@), decoded_payload(value@)) {
            (Some(k), Some(xml)) => r is Some && r->Some_0@ == prop_from(k, xml),
            _ => r is None,
        },
{
    match (decode_name(key), decode_value(value)) {
        (Some((name, prefix, namespace)), Some(xml)) => Some(
            DavProp { name, prefix, namespace, xml },
        ),
        _ => None,
    }
}

/// A copy of a bucket.
fn copy_bucket(bucket: &Vec<(Vec<u8>, Vec<u8>)>) -> (r: Vec<(Vec<u8>, Vec<u8>)>)
    ensures
        bucket_model(r@) == bucket_model(bucket@),
{
    let mut r: Vec<(Vec<u8>, Vec<u8>)> = Vec::new();
    let mut i: usize = 0;
    while i < bucket.len()
        invariant
            i <= bucket.len(),
            bucket_model(r@) == bucket_model(bucket@).take(i as int),
        decreases bucket.len() - i,
    {
        let ghost before = bucket_model(r@);
        let pair = (copy_bytes(&bucket[i].0), copy_bytes(&bucket[i].1));
        r.push(pair);
        assert(bucket_model(r@) =~= before.push(Pair { key: pair.0@, value: pair.1@ }));
        assert(bucket_model(bucket@)[i as int] == (Pair { key: pair.0@, value: pair.1@ }));
        i += 1;
        assert(bucket_model(r@) =~= bucket_model(bucket@).take(i as int));
    }
    assert(bucket_model(bucket@).take(bucket@.len() as int) =~= bucket_model(bucket@));
    r
}

/// The store over the two buckets.
#[derive(Debug)]
pub struct Kv {
    values: Vec<(Vec<u8>, Vec<u8>)>,
    existence: Vec<(Vec<u8>, Vec<u8>)>,
}

impl View for Kv {
    type V = KvView;

    closed spec fn view(&self) -> KvView {
        KvView {
            values: bucket_model(self.values@),
            existence: bucket_model(self.existence@),
        }
    }
}

/// The key of a path in the bucket of existence: its text as bytes.
pub open spec fn path_key(path: Seq<char>) -> Seq<u8> {
    encode_utf8(path)
}

/// The view of a property, or of the error in its place.
pub open spec fn prop_result_view(r: Result<DavProp, FsError>) -> Result<PropView, FsError> {
    match r {
        Ok(p) => Ok(p@),
        Err(e) => Err(e),
    }
}

impl Kv {
    /// A store with two empty buckets.
    pub fn new() -> (r: Kv)
        ensures
            r@ == (KvView { values: Seq::empty(), existence: Seq::empty() }),
    {
        let r = Kv { values: Vec::new(), existence: Vec::new() };
        assert(bucket_model(r.values@) =~= Seq::empty());
        assert(bucket_model(r.existence@) =~= Seq::empty());
        r
    }

    /// A store over the entries that were kept from an earlier time.
    pub fn with_buckets(values: Vec<(Vec<u8>, Vec<u8>)>, existence: Vec<(Vec<u8>, Vec<u8>)>) -> (r:
        Kv)
        ensures
            r@ == (KvView {
                values: bucket_model(values@),
                existence: bucket_model(existence@),
            }),
    {
        Kv { values, existence }
    }

    /// The entries of the bucket of values, to be kept for a later time.
    pub fn values(&self) -> (r: Vec<(Vec<u8>, Vec<u8>)>)
        ensures
            bucket_model(r@) == self@.values,
    {
        copy_bucket(&self.values)
    }

    /// The entries of the bucket of existence, to be kept for a later
    /// time.
    pub fn existence(&self) -> (r: Vec<(Vec<u8>, Vec<u8>)>)
        ensures
            bucket_model(r@) == self@.existence,
    {
        copy_bucket(&self.existence)
    }

    /// The encoded name of a property.
    pub fn as_key(prop: &DavProp) -> (r: Vec<u8>)
        ensures
            r@ == encoded_key(key_of_prop(prop@)),
    {
        encode_name(&prop.name, &prop.prefix, &prop.namespace)
    }

    fn get_davprop(&self, path: &NormalizedPath) -> (r: Result<DavProp, FsError>)
        ensures
            prop_result_view(r) == stored_prop(self@, path_key(path@)),
    {
        let p = path.as_str().as_bytes_vec();
        let key = match get_from(&self.existence, &p) {
            Some(key) => key,
            None => {
                return Err(FsError::NotFound);
            },
        };
        let value = match get_from(&self.values, &key) {
            Some(value) => value,
            None => {
                return Err(FsError::NotFound);
            },
        };
        match decode_prop(&key, &value) {
            Some(prop) => Ok(prop),
            None => Err(FsError::NotFound),
        }
    }

    /// Sets the property of a path, or removes it.
    pub fn patch_prop(&mut self, path: &NormalizedPath, set: bool, prop: DavProp) -> (r: Result<
        (u16, DavProp),
        FsError,
    >)
        ensures
            final(self)@ == kv_patched(old(self)@, path_key(path@), set, prop@),
            r is Ok,
            r->Ok_0.0 == 200,
            r->Ok_0.1@ == prop@,
    {
        let p = path.as_str().as_bytes_vec();
        let key = Kv::as_key(&prop);
        if set {
            let value = encode_value(&prop.xml);
            set_in(&mut self.values, copy_bytes(&key), value);
            set_in(&mut self.existence, p, key);
        } else {
            del_from(&mut self.values, &key);
            del_from(&mut self.existence, &p);
        }
        Ok((200, prop))
    }

    /// Whether the path has a property. A collection is taken to have
    /// some.
    pub fn have_props(&self, path: &NormalizedPath) -> (r: bool)
        ensures
            r == (ends_with_char(path@, '/') || bucket_get(self@.existence, path_key(path@))
                is Some),
    {
        if path.is_collection() {
            return true;
        }
        let p = path.as_str().as_bytes_vec();
        get_from(&self.existence, &p).is_some()
    }

    /// The value of a property of a path.
    pub fn get_prop(&self, path: &NormalizedPath, prop: &DavProp) -> (r: Result<Vec<u8>, FsError>)
        ensures
            match kv_value(self@, path_key(path@), prop@) {
                Ok(xml) => r is Ok && r->Ok_0@ == xml,
                Err(e) => r == Err::<Vec<u8>, FsError>(e),
            },
    {
        let stored = match self.get_davprop(path) {
            Ok(stored) => stored,
            Err(e) => {
                return Err(e);
            },
        };
        let same_name = crate::text::same_text(stored.name.as_str(), prop.name.as_str());
        let same_space = match (&stored.namespace, &prop.namespace) {
            (Some(a), Some(b)) => crate::text::same_text(a.as_str(), b.as_str()),
            (None, None) => true,
            _ => false,
        };
        if same_name && same_space {
            match stored.xml {
                Some(xml) => Ok(xml),
                None => Err(FsError::NotFound),
            }
        } else {
            Err(FsError::NotFound)
        }
    }

    /// The properties of the paths that begin with `path`.
    pub fn get_props(&self, path: &NormalizedPath, do_content: bool) -> (r: Result<
        Vec<DavProp>,
        FsError,
    >)
        ensures
            match kv_listed(self@.values, self@.existence, path_key(path@), do_content) {
                Ok(props) => r is Ok && props_view(r->Ok_0@) == props,
                Err(e) => r is Err && r->Err_0 == e,
            },
    {
        let p = path.as_str().as_bytes_vec();
        let ghost entries = self@.existence;
        let ghost values = self@.values;
        let mut out: Vec<DavProp> = Vec::new();
        let mut i: usize = 0;
        assert(entries.take(0) =~= Seq::empty());
        assert(props_view(out@) =~= Seq::empty());
        while i < self.existence.len()
            invariant
                i <= self.existence.len(),
                entries == self@.existence,
                values == self@.values,
                p@ == path_key(path@),
                kv_listed(values, entries.take(i as int), p@, do_content) == Ok::<
                    Seq<PropView>,
                    FsError,
                >(props_view(out@)),
            decreases self.existence.len() - i,
        {
            let e = &self.existence[i];
            proof {
                assert(entries.take(i + 1).drop_last() =~= entries.take(i as int));
                assert(entries.take(i + 1).last() == entries[i as int]);
            }
            if starts_with_bytes(&e.0, &p) {
                match get_from(&self.values, &e.1) {
                    None => {},
                    Some(value) => match decode_prop(&e.1, &value) {
                        Some(prop) => {
                            let listed = if do_content {
                                prop
                            } else {
                                prop.stripped()
                            };
                            let ghost before = props_view(out@);
                            out.push(listed);
                            assert(props_view(out@) =~= before.push(listed@));
                        },
                        None => {
                            proof {
                                lemma_listed_stays_failed(values, entries, p@, do_content, i + 1);
                            }
                            return Err(FsError::GeneralFailure);
                        },
                    },
                }
            }
            i += 1;
        }
        assert(entries.take(entries.len() as int) =~= entries);
        Ok(out)
    }

    /// Forgets the property of a removed resource.
    pub fn remove_file(&mut self, path: &NormalizedPath) -> (r: Result<(), FsError>)
        ensures
            r == Ok::<(), FsError>(()),
            final(self)@ == kv_without(old(self)@, path_key(path@)),
    {
        let p = path.as_str().as_bytes_vec();
        match get_from(&self.existence, &p) {
            Some(key) => {
                del_from(&mut self.values, &key);
                del_from(&mut self.existence, &p);
            },
            None => {},
        }
        Ok(())
    }

    /// Forgets the properties of a removed collection: those of the
    /// paths that begin with `path`.
    pub fn remove_dir(&mut self, path: &NormalizedPath) -> (r: Result<(), FsError>)
        ensures
            r == Ok::<(), FsError>(()),
            final(self)@ == kv_without_each(old(self)@, old(self)@.existence, path_key(path@)),
    {
        let p = path.as_str().as_bytes_vec();
        let mut snapshot: Vec<(Vec<u8>, Vec<u8>)> = Vec::new();
        let mut i: usize = 0;
        let ghost entries = self@.existence;
        assert(bucket_model(snapshot@) =~= entries.take(0));
        while i < self.existence.len()
            invariant
                i <= self.existence.len(),
                entries == self@.existence,
                self@ == old(self)@,
                bucket_model(snapshot@) == entries.take(i as int),
            decreases self.existence.len() - i,
        {
            let e = &self.existence[i];
            let ghost before = bucket_model(snapshot@);
            let pair = (copy_bytes(&e.0), copy_bytes(&e.1));
            snapshot.push(pair);
            assert(bucket_model(snapshot@) =~= before.push(entries[i as int]));
            assert(bucket_model(snapshot@) =~= entries.take(i + 1));
            i += 1;
        }
        assert(entries.take(entries.len() as int) =~= entries);
        let ghost start = self@;
        let mut j: usize = 0;
        assert(entries.take(0) =~= Seq::empty());
        while j < snapshot.len()
            invariant
                j <= snapshot.len(),
                bucket_model(snapshot@) == entries,
                p@ == path_key(path@),
                self@ == kv_without_each(start, entries.take(j as int), p@),
            decreases snapshot.len() - j,
        {
            let e = &snapshot[j];
            proof {
                assert(entries.take(j + 1).drop_last() =~= entries.take(j as int));
                assert(entries.take(j + 1).last() == entries[j as int]);
            }
            if starts_with_bytes(&e.0, &p) && get_from(&self.values, &e.1).is_some() {
                del_from(&mut self.values, &e.1);
                del_from(&mut self.existence, &e.0);
            }
            j += 1;
        }
        assert(entries.take(entries.len() as int) =~= entries);
        Ok(())
    }

    /// Lets the property follow a move.
    pub fn rename(&mut self, from: &NormalizedPath, to: &NormalizedPath) -> (r: Result<
        (),
        FsError,
    >)
        ensures
            (final(self)@, r) == kv_transferred(
                old(self)@,
                path_key(from@),
                path_key(to@),
                true,
            ),
    {
        let stored = match self.get_davprop(from) {
            Ok(stored) => stored,
            Err(e) => {
                return Err(e);
            },
        };
        let _ = self.remove_file(from);
        let _ = self.patch_prop(to, true, stored);
        Ok(())
    }

    /// Lets the property follow a copy.
    pub fn copy(&mut self, from: &NormalizedPath, to: &NormalizedPath) -> (r: Result<(), FsError>)
        ensures
            (final(self)@, r) == kv_transferred(
                old(self)@,
                path_key(from@),
                path_key(to@),
                false,
            ),
    {
        let stored = match self.get_davprop(from) {
            Ok(stored) => stored,
            Err(e) => {
                return Err(e);
            },
        };
        let _ = self.patch_prop(to, true, stored);
        Ok(())
    }
}

/// Once the listing of the entries up to `n` has failed, the whole
/// listing has failed in the same way.
pub proof fn lemma_listed_stays_failed(
    values: Seq<Pair>,
    entries: Seq<Pair>,
    path: Seq<u8>,
    content: bool,
    n: int,
)
    requires
        0 <= n <= entries.len(),
        kv_listed(values, entries.take(n), path, content) is Err,
    ensures
        kv_listed(values, entries, path, content) == kv_listed(
            values,
            entries.take(n),
            path,
            content,
        ),
    decreases entries.len() - n,
{
    if n < entries.len() {
        assert(entries.take(n + 1).drop_last() =~= entries.take(n));
        lemma_listed_stays_failed(values, entries, path, content, n + 1);
    } else {
        assert(entries.take(n) =~= entries);
    }
}

} // verus!
