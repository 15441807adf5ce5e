//! The property store that mirrors the memory in a file.
//!
//! The file maps each key to a record of the property; the value of the
//! property is written in base64. Reading and writing the file is the
//! caller's part: the store hands out the records to write and takes in
//! the records that were read.
use crate::error::FsError;
use crate::normalized_path::NormalizedPath;
use crate::prop_storages::mem::{data_model, Memory};
use crate::prop_storages::props::{
    any_under, copied, keys_distinct, moves, patched, props_under, props_view, renamed, value_of,
    with_prop, without_under, without_value, DavProp, PropEntry, PropView,
};
use crate::text::{copy_opt_text, copy_text, opt_text};
use vstd::prelude::*;

verus! {

/// The base64 text of some bytes, in the standard alphabet with padding.
pub uninterp spec fn base64_text(bytes: Seq<u8>) -> Seq<char>;

/// The bytes that a base64 text stands for, where it is well formed.
pub uninterp spec fn base64_bytes(text: Seq<char>) -> Option<Seq<u8>>;

/// `base64::encode`: the base64 text of the bytes. The result depends on
/// the bytes alone.
#[verifier::external_body]
fn encode_base64(bytes: &Vec<u8>) -> (r: String)
    ensures
        r@ == base64_text(bytes@),
        base64_bytes(r@) == Some(bytes@),
{
    base64::encode(bytes)
}

/// `base64::decode`: the bytes of a base64 text, or `None` where the text
/// is not well formed. The result depends on the text alone.
#[verifier::external_body]
fn decode_base64(text: &str) -> (r: Option<Vec<u8>>)
    ensures
        match base64_bytes(text@) {
            Some(bytes) => r is Some && r->Some_0@ == bytes,
            None => r is None,
        },
{
    match base64::decode(text) {
        Ok(bytes) => Some(bytes),
        Err(_) => None,
    }
}

/// A property as the file holds it.
#[derive(Debug, Clone)]
pub struct Prop {
    pub namespace: Option<String>,
    pub prefix: Option<String>,
    pub value: Option<String>,
    pub name: String,
}

/// A record of the file as plain values.
pub struct RecordView {
    pub namespace: Option<Seq<char>>,
    pub prefix: Option<Seq<char>>,
    pub value: Option<Seq<char>>,
    pub name: Seq<char>,
}

impl View for Prop {
    type V = RecordView;

    open spec fn view(&self) -> RecordView {
        RecordView {
            namespace: opt_text(self.namespace),
            prefix: opt_text(self.prefix),
            value: opt_text(self.value),
            name: self.name@,
        }
    }
}

/// The records of a sequence, each with its key, as plain values.
pub open spec fn records_view(records: Seq<(String, Prop)>) -> Seq<(Seq<char>, RecordView)> {
    records.map_values(|r: (String, Prop)| (r.0@, r.1@))
}

/// The record of a property: its value in base64.
pub open spec fn record_of(p: PropView) -> RecordView {
    RecordView {
        namespace: p.namespace,
        prefix: p.prefix,
        value: match p.xml {
            Some(xml) => Some(base64_text(xml)),
            None => None,
        },
        name: p.name,
    }
}

/// The property of a record: a value that is no base64 counts as none.
pub open spec fn prop_of(r: RecordView) -> PropView {
    PropView {
        name: r.name,
        prefix: r.prefix,
        namespace: r.namespace,
        xml: match r.value {
            Some(text) => base64_bytes(text),
            None => None,
        },
    }
}

/// What is written for a store: each key with its record, in order.
pub open spec fn dumped(m: Seq<PropEntry>) -> Seq<(Seq<char>, RecordView)> {
    m.map_values(|e: PropEntry| (e.key, record_of(e.prop)))
}

/// The store after the records were read: the property of each is
/// stored under the key of the record, as `dumped` wrote it.
pub open spec fn loaded(m: Seq<PropEntry>, records: Seq<(Seq<char>, RecordView)>) -> Seq<PropEntry>
    decreases records.len(),
{
    if records.len() == 0 {
        m
    } else {
        let (key, record) = records.last();
        with_prop(loaded(m, records.drop_last()), key, prop_of(record))
    }
}

/// The value of the property is read back from its record.
pub open spec fn reads_back(p: PropView) -> bool {
    prop_of(record_of(p)) == p
}

/// What was written for a store is read back as the store: a store in
/// which no key is stored twice, and whose values are read back from
/// their records, is the store that its records give to an empty one.
pub proof fn law_dump_is_read_back(m: Seq<PropEntry>)
    requires
        keys_distinct(m),
        forall|i: int| 0 <= i < m.len() ==> reads_back(#[trigger] m[i].prop),
    ensures
        loaded(Seq::empty(), dumped(m)) == m,
    decreases m.len(),
{
    if m.len() > 0 {
        let front = m.drop_last();
        assert(keys_distinct(front)) by {
            assert forall|a: int, b: int| 0 <= a < b < front.len() implies front[a].key
                != front[b].key by {
                assert(front[a] == m[a] && front[b] == m[b]);
            }
        }
        assert forall|i: int| 0 <= i < front.len() implies reads_back(
            #[trigger] front[i].prop,
        ) by {
            assert(front[i] == m[i]);
        }
        law_dump_is_read_back(front);
        assert(dumped(m).drop_last() =~= dumped(front));
        assert(dumped(m).last() == (m.last().key, record_of(m.last().prop)));
        assert(reads_back(m[m.len() - 1].prop));
        assert forall|j: int| 0 <= j < front.len() implies front[j].key != m.last().key by {
            assert(front[j] == m[j]);
        }
        crate::prop_storages::props::lemma_first_index(front, m.last().key, front.len() as int);
        assert(front.push(m.last()) =~= m);
    } else {
        assert(dumped(m) =~= Seq::empty());
    }
}

/// How a call ends once the file was written: where writing failed the
/// call fails, whatever it had done.
pub open spec fn after_dump<T>(result: Result<T, FsError>, written: bool) -> Result<T, FsError> {
    match result {
        Ok(v) => if written {
            Ok(v)
        } else {
            Err(FsError::GeneralFailure)
        },
        Err(e) => Err(e),
    }
}

/// The store that mirrors the memory in the file at `filepath`. After
/// each call the caller writes `dump()` to the file.
#[derive(Debug)]
pub struct Yaml {
    pub filepath: String,
    pub mem: Memory,
}

impl Yaml {
    /// The store for the file at `fp`. `found` holds the records of the
    /// file where it exists.
    pub fn new(fp: String, found: Option<Vec<(String, Prop)>>) -> (r: Yaml)
        ensures
            r.filepath@ == fp@,
            r.mem@ == match found {
                Some(records) => loaded(Seq::empty(), records_view(records@)),
                None => Seq::empty(),
            },
            keys_distinct(r.mem@),
    {
        let mut r = Yaml { filepath: fp, mem: Memory::new_unboxed() };
        match found {
            Some(records) => {
                r.load(&records);
            },
            None => {},
        }
        r
    }

    /// Takes in the records that were read from the file.
    pub fn load(&mut self, records: &Vec<(String, Prop)>)
        ensures
            final(self).mem@ == loaded(old(self).mem@, records_view(records@)),
            final(self).filepath == old(self).filepath,
            keys_distinct(old(self).mem@) ==> keys_distinct(final(self).mem@),
    {
        let ghost all = records_view(records@);
        let ghost start = self.mem@;
        let mut i: usize = 0;
        assert(all.take(0) =~= Seq::empty());
        while i < records.len()
            invariant
                i <= records.len(),
                all == records_view(records@),
                self.filepath == old(self).filepath,
                self.mem@ == loaded(start, all.take(i as int)),
                keys_distinct(start) ==> keys_distinct(self.mem@),
            decreases records.len() - i,
        {
            let (key, record) = &records[i];
            proof {
                assert(all.take(i + 1).drop_last() =~= all.take(i as int));
                assert(all.take(i + 1).last() == (key@, record@));
            }
            let xml = match &record.value {
                Some(text) => decode_base64(text.as_str()),
                None => None,
            };
            let prop = DavProp {
                name: copy_text(record.name.as_str()),
                namespace: copy_opt_text(&record.namespace),
                prefix: copy_opt_text(&record.prefix),
                xml,
            };
            assert(prop@ == prop_of(record@));
            self.mem.put(copy_text(key.as_str()), prop);
            i += 1;
        }
        assert(all.take(all.len() as int) =~= all);
    }

    /// The records to write to the file.
    pub fn dump(&self) -> (r: Vec<(String, Prop)>)
        ensures
            records_view(r@) == dumped(self.mem@),
            forall|i: int| 0 <= i < self.mem@.len() ==> reads_back(#[trigger] self.mem@[i].prop),
    {
        let data = self.mem.get_all_props();
        let ghost m = data_model(data@);
        let mut r: Vec<(String, Prop)> = Vec::new();
        let mut i: usize = 0;
        assert(records_view(r@) =~= dumped(m).take(0));
        while i < data.len()
            invariant
                i <= data.len(),
                m == data_model(data@),
                records_view(r@) == dumped(m).take(i as int),
                forall|j: int| 0 <= j < i ==> reads_back(#[trigger] m[j].prop),
            decreases data.len() - i,
        {
            let (key, prop) = &data[i];
            let record = Prop {
                namespace: copy_opt_text(&prop.namespace),
                prefix: copy_opt_text(&prop.prefix),
                value: match &prop.xml {
                    Some(xml) => Some(encode_base64(xml)),
                    None => None,
                },
                name: copy_text(prop.name.as_str()),
            };
            assert(record@ == record_of(prop@));
            let ghost before = records_view(r@);
            let pair = (copy_text(key.as_str()), record);
            r.push(pair);
            assert(records_view(r@) =~= before.push((key@, record@)));
            assert(records_view(r@) =~= dumped(m).take(i + 1));
            i += 1;
        }
        assert(dumped(m).take(m.len() as int) =~= dumped(m));
        r
    }

    /// How a call ends once the file was written, or was not.
    pub fn persisted<T>(result: Result<T, FsError>, written: bool) -> (r: Result<T, FsError>)
        ensures
            r == after_dump(result, written),
    {
        match result {
            Ok(v) => if written {
                Ok(v)
            } else {
                Err(FsError::GeneralFailure)
            },
            Err(e) => Err(e),
        }
    }

    /// Whether any property is stored for the path or below it.
    pub fn have_props(&self, path: &NormalizedPath) -> (r: bool)
        ensures
            r == any_under(self.mem@, path@),
    {
        self.mem.have_props(path)
    }

    /// Sets a property of a path, or removes it.
    pub fn patch_prop(&mut self, path: &NormalizedPath, set: bool, prop: DavProp) -> (r: Result<
        (u16, DavProp),
        FsError,
    >)
        ensures
            final(self).mem@ == patched(old(self).mem@, path@, set, prop@),
            final(self).filepath == old(self).filepath,
            keys_distinct(old(self).mem@) ==> keys_distinct(final(self).mem@),
            r is Ok,
            r->Ok_0.0 == 200,
            r->Ok_0.1@ == without_value(prop@),
    {
        self.mem.patch_prop(path, set, prop)
    }

    /// The value of a property of a path.
    pub fn get_prop(&self, path: &NormalizedPath, prop: &DavProp) -> (r: Result<Vec<u8>, FsError>)
        ensures
            match value_of(self.mem@, path@, prop@) {
                Ok(xml) => r is Ok && r->Ok_0@ == xml,
                Err(e) => r == Err::<Vec<u8>, FsError>(e),
            },
    {
        self.mem.get_prop(path, prop)
    }

    /// The properties stored for the path and below it.
    pub fn get_props(&self, path: &NormalizedPath, do_content: bool) -> (r: Result<
        Vec<DavProp>,
        FsError,
    >)
        ensures
            r is Ok,
            props_view(r->Ok_0@) == props_under(self.mem@, path@, do_content),
    {
        self.mem.get_props(path, do_content)
    }

    /// Forgets the properties of a removed resource.
    pub fn remove_file(&mut self, path: &NormalizedPath) -> (r: Result<(), FsError>)
        ensures
            r == Ok::<(), FsError>(()),
            final(self).mem@ == without_under(old(self).mem@, path@),
            final(self).filepath == old(self).filepath,
            keys_distinct(old(self).mem@) ==> keys_distinct(final(self).mem@),
    {
        self.mem.remove_file(path)
    }

    /// Forgets the properties of a removed collection.
    pub fn remove_dir(&mut self, path: &NormalizedPath) -> (r: Result<(), FsError>)
        ensures
            r == Ok::<(), FsError>(()),
            final(self).mem@ == without_under(old(self).mem@, path@),
            final(self).filepath == old(self).filepath,
            keys_distinct(old(self).mem@) ==> keys_distinct(final(self).mem@),
    {
        self.mem.remove_dir(path)
    }

    /// Lets the properties follow a move.
    pub fn rename(&mut self, from: &NormalizedPath, to: &NormalizedPath) -> (r: Result<
        (),
        FsError,
    >)
        ensures
            r == Ok::<(), FsError>(()),
            final(self).mem@ == renamed(old(self).mem@, moves(old(self).mem@, from@, to@)),
            final(self).filepath == old(self).filepath,
            keys_distinct(old(self).mem@) ==> keys_distinct(final(self).mem@),
    {
        self.mem.rename(from, to)
    }

    /// Lets the properties follow a copy.
    pub fn copy(&mut self, from: &NormalizedPath, to: &NormalizedPath) -> (r: Result<(), FsError>)
        ensures
            r == Ok::<(), FsError>(()),
            final(self).mem@ == copied(old(self).mem@, moves(old(self).mem@, from@, to@)),
            final(self).filepath == old(self).filepath,
            keys_distinct(old(self).mem@) ==> keys_distinct(final(self).mem@),
    {
        self.mem.copy(from, to)
    }
}

} // verus!
