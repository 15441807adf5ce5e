//! The property store that lives in memory.
use crate::error::FsError;
use crate::normalized_path::NormalizedPath;
use crate::prop_storages::props::{
    any_under, copied, first_index, is_under, keys_distinct, lemma_copied_keeps_keys_distinct,
    lemma_first_index, lemma_patched_keeps_keys_distinct, lemma_renamed_keeps_keys_distinct,
    lemma_with_prop_keeps_keys_distinct, lemma_without_under_keeps_keys_distinct, moved_key, moves,
    namespace_text, or_insert, patched, prop_key, props_under, props_view, renamed, value_of,
    with_prop, without_under, without_value, DavProp, PropEntry,
};
use crate::text::{chars_of, copy_bytes, copy_text, has_prefix, push_all, push_range, string_of};
use vstd::prelude::*;

verus! {

/// The stored properties as the model sees them.
pub open spec fn data_model(data: Seq<(String, DavProp)>) -> Seq<PropEntry> {
    data.map_values(|e: (String, DavProp)| PropEntry { key: e.0@, prop: e.1@ })
}

/// The views of a sequence of pairs of keys.
pub open spec fn key_pairs_view(pairs: Seq<(String, String)>) -> Seq<(Seq<char>, Seq<char>)> {
    pairs.map_values(|p: (String, String)| (p.0@, p.1@))
}

/// The properties of all paths, each under its key, in the order in
/// which the keys were first set.
#[derive(Debug)]
pub struct Memory {
    data: Vec<(String, DavProp)>,
}

impl View for Memory {
    type V = Seq<PropEntry>;

    closed spec fn view(&self) -> Seq<PropEntry> {
        data_model(self.data@)
    }
}

/// The first place at which `key` is stored; the length where it is not.
fn find(data: &Vec<(String, DavProp)>, key: &Vec<char>) -> (i: usize)
    ensures
        i == first_index(data_model(data@), key@),
        i <= data@.len(),
{
    let mut i: usize = 0;
    while i < data.len()
        invariant
            i <= data.len(),
            forall|j: int| 0 <= j < i ==> data_model(data@)[j].key != key@,
        decreases data.len() - i,
    {
        let k = chars_of(data[i].0.as_str());
        if k.len() == key.len() && has_prefix(&k, key) {
            proof {
                assert(key@ =~= k@.subrange(0, key@.len() as int));
                assert(k@.subrange(0, k@.len() as int) =~= k@);
                lemma_first_index(data_model(data@), key@, i as int);
            }
            return i;
        }
        proof {
            if k@ == key@ {
                assert(k@.subrange(0, k@.len() as int) =~= k@);
            }
        }
        i += 1;
    }
    proof {
        lemma_first_index(data_model(data@), key@, i as int);
    }
    i
}

/// Puts `prop` under `key` unless the key is taken.
fn insert_if_free(data: &mut Vec<(String, DavProp)>, key: String, prop: DavProp)
    ensures
        data_model(final(data)@) == or_insert(data_model(old(data)@), key@, prop@),
{
    let k = chars_of(key.as_str());
    let i = find(data, &k);
    if i == data.len() {
        let ghost before = data_model(data@);
        data.push((key, prop));
        assert(data_model(data@) =~= before.push(PropEntry { key: key@, prop: prop@ }));
    }
}

/// The keys that begin with `from`, each with the key it has below `to`.
fn moves_of(data: &Vec<(String, DavProp)>, from: &NormalizedPath, to: &NormalizedPath) -> (r: Vec<
    (String, String),
>)
    ensures
        key_pairs_view(r@) == moves(data_model(data@), from@, to@),
{
    let f = chars_of(from.as_str());
    let t = chars_of(to.as_str());
    let mut r: Vec<(String, String)> = Vec::new();
    let ghost m = data_model(data@);
    let mut i: usize = 0;
    assert(m.take(0) =~= Seq::empty());
    assert(key_pairs_view(r@) =~= Seq::empty());
    while i < data.len()
        invariant
            i <= data.len(),
            m == data_model(data@),
            f@ == from@,
            t@ == to@,
            key_pairs_view(r@) == moves(m.take(i as int), from@, to@),
        decreases data.len() - i,
    {
        let k = chars_of(data[i].0.as_str());
        proof {
            assert(m.take(i + 1).drop_last() =~= m.take(i as int));
            assert(m.take(i + 1).last() == m[i as int]);
        }
        if has_prefix(&k, &f) {
            let mut rest: Vec<char> = Vec::new();
            push_range(&mut rest, &k, f.len(), k.len());
            assert(rest@ =~= k@.skip(f@.len() as int));
            let suffix = NormalizedPath::from_text(string_of(&rest).as_str());
            let mut target: Vec<char> = Vec::new();
            push_all(&mut target, &t);
            push_all(&mut target, &chars_of(suffix.as_str()));
            assert(target@ =~= moved_key(k@, from@, to@));
            let ghost before = key_pairs_view(r@);
            let pair = (string_of(&k), string_of(&target));
            r.push(pair);
            assert(key_pairs_view(r@) =~= before.push((k@, target@)));
        }
        i += 1;
    }
    assert(m.take(m.len() as int) =~= m);
    r
}

impl Memory {
    /// A store with no property.
    pub fn new() -> (r: Memory)
        ensures
            r@ == Seq::<PropEntry>::empty(),
            keys_distinct(r@),
    {
        Memory::new_unboxed()
    }

    /// A store with no property.
    pub fn new_unboxed() -> (r: Memory)
        ensures
            r@ == Seq::<PropEntry>::empty(),
            keys_distinct(r@),
    {
        let r = Memory { data: Vec::new() };
        assert(data_model(r.data@) =~= Seq::empty());
        r
    }

    /// A copy of all that is stored: each key with its property.
    pub fn get_all_props(&self) -> (r: Vec<(String, DavProp)>)
        ensures
            data_model(r@) == self@,
    {
        let mut r: Vec<(String, DavProp)> = Vec::new();
        let mut i: usize = 0;
        assert(data_model(r@) =~= self@.take(0));
        while i < self.data.len()
            invariant
                i <= self.data.len(),
                data_model(r@) == self@.take(i as int),
            decreases self.data.len() - i,
        {
            let e = &self.data[i];
            let ghost before = data_model(r@);
            let pair = (copy_text(e.0.as_str()), e.1.clone());
            r.push(pair);
            assert(data_model(r@) =~= before.push(PropEntry { key: pair.0@, prop: pair.1@ }));
            assert(data_model(r@) =~= self@.take(i + 1));
            i += 1;
        }
        assert(self@.take(self@.len() as int) =~= self@);
        r
    }

    /// The key under which a property of a path is stored.
    pub fn get_prop_string(path: &NormalizedPath, prop: &DavProp) -> (r: String)
        ensures
            r@ == prop_key(path@, prop@),
    {
        let mut r = copy_text(path.as_str());
        r.push('.');
        match &prop.namespace {
            Some(ns) => {
                let ghost before = r@;
                let v = chars_of(ns.as_str());
                let mut i: usize = 0;
                while i < v.len()
                    invariant
                        i <= v.len(),
                        r@ == before + v@.take(i as int),
                    decreases v.len() - i,
                {
                    r.push(v[i]);
                    i += 1;
                    assert(r@ =~= before + v@.take(i as int));
                }
                assert(v@.take(v@.len() as int) =~= v@);
            },
            None => {
                assert(r@ + Seq::<char>::empty() =~= r@);
            },
        }
        let ghost mid = r@;
        assert(mid =~= path@ + seq!['.'] + namespace_text(prop@));
        r.push('.');
        let ghost before = r@;
        let v = chars_of(prop.name.as_str());
        let mut i: usize = 0;
        while i < v.len()
            invariant
                i <= v.len(),
                r@ == before + v@.take(i as int),
            decreases v.len() - i,
        {
            r.push(v[i]);
            i += 1;
            assert(r@ =~= before + v@.take(i as int));
        }
        assert(v@.take(v@.len() as int) =~= v@);
        assert(r@ =~= prop_key(path@, prop@));
        r
    }

    /// Sets a property of a path, or removes it. Setting twice is as good
    /// as setting once, and what is not there is removed without
    /// complaint. The answer is the status 200 with the property stripped
    /// of its value.
    pub fn add_prop(&mut self, path: &NormalizedPath, set: bool, prop: DavProp) -> (r: Result<
        (u16, DavProp),
        FsError,
    >)
        ensures
            final(self)@ == patched(old(self)@, path@, set, prop@),
            keys_distinct(old(self)@) ==> keys_distinct(final(self)@),
            r is Ok,
            r->Ok_0.0 == 200,
            r->Ok_0.1@ == without_value(prop@),
    {
        proof {
            if keys_distinct(old(self)@) {
                lemma_patched_keeps_keys_distinct(old(self)@, path@, set, prop@);
            }
        }
        let key = Memory::get_prop_string(path, &prop);
        let k = chars_of(key.as_str());
        let answer = prop.stripped();
        let i = find(&self.data, &k);
        let ghost before = data_model(self.data@);
        if set {
            if i < self.data.len() {
                self.data.set(i, (key, prop));
                assert(data_model(self.data@) =~= before.update(
                    i as int,
                    PropEntry { key: key@, prop: prop@ },
                ));
            } else {
                self.data.push((key, prop));
                assert(data_model(self.data@) =~= before.push(PropEntry { key: key@, prop: prop@ }));
            }
        } else {
            if i < self.data.len() {
                let _ = self.data.remove(i);
                assert(data_model(self.data@) =~= before.remove(i as int));
            }
        }
        Ok((200, answer))
    }

    /// Stores a property under a key as it stands, in the place of what
    /// was stored under it.
    pub fn put(&mut self, key: String, prop: DavProp)
        ensures
            final(self)@ == with_prop(old(self)@, key@, prop@),
            keys_distinct(old(self)@) ==> keys_distinct(final(self)@),
    {
        proof {
            if keys_distinct(old(self)@) {
                lemma_with_prop_keeps_keys_distinct(old(self)@, key@, prop@);
            }
        }
        let k = chars_of(key.as_str());
        let i = find(&self.data, &k);
        let ghost before = data_model(self.data@);
        if i < self.data.len() {
            self.data.set(i, (key, prop));
            assert(data_model(self.data@) =~= before.update(
                i as int,
                PropEntry { key: key@, prop: prop@ },
            ));
        } else {
            self.data.push((key, prop));
            assert(data_model(self.data@) =~= before.push(PropEntry { key: key@, prop: prop@ }));
        }
    }

    /// Whether any property is stored for the path or below it.
    pub fn have_props(&self, path: &NormalizedPath) -> (r: bool)
        ensures
            r == any_under(self@, path@),
    {
        let p = chars_of(path.as_str());
        let mut i: usize = 0;
        while i < self.data.len()
            invariant
                i <= self.data.len(),
                p@ == path@,
                forall|j: int| 0 <= j < i ==> !is_under(#[trigger] self@[j].key, path@),
            decreases self.data.len() - i,
        {
            let k = chars_of(self.data[i].0.as_str());
            if has_prefix(&k, &p) {
                assert(is_under(self@[i as int].key, path@));
                return true;
            }
            i += 1;
        }
        false
    }

    /// As `add_prop`.
    pub fn patch_prop(&mut self, path: &NormalizedPath, set: bool, prop: DavProp) -> (r: Result<
        (u16, DavProp),
        FsError,
    >)
        ensures
            final(self)@ == patched(old(self)@, path@, set, prop@),
            keys_distinct(old(self)@) ==> keys_distinct(final(self)@),
            r is Ok,
            r->Ok_0.0 == 200,
            r->Ok_0.1@ == without_value(prop@),
    {
        proof {
            if keys_distinct(old(self)@) {
                lemma_patched_keeps_keys_distinct(old(self)@, path@, set, prop@);
            }
        }
        self.add_prop(path, set, prop)
    }

    /// The value of a property of a path. A property that is not stored,
    /// or stored without a value, is not found.
    pub fn get_prop(&self, path: &NormalizedPath, prop: &DavProp) -> (r: Result<Vec<u8>, FsError>)
        ensures
            match value_of(self@, path@, prop@) {
                Ok(xml) => r is Ok && r->Ok_0@ == xml,
                Err(e) => r == Err::<Vec<u8>, FsError>(e),
            },
    {
        let key = Memory::get_prop_string(path, prop);
        let k = chars_of(key.as_str());
        let i = find(&self.data, &k);
        if i < self.data.len() {
            match &self.data[i].1.xml {
                Some(xml) => Ok(copy_bytes(xml)),
                None => Err(FsError::NotFound),
            }
        } else {
            Err(FsError::NotFound)
        }
    }

    /// The properties stored for the path and below it, with their values
    /// or without.
    pub fn get_props(&self, path: &NormalizedPath, do_content: bool) -> (r: Result<
        Vec<DavProp>,
        FsError,
    >)
        ensures
            r is Ok,
            props_view(r->Ok_0@) == props_under(self@, path@, do_content),
    {
        let p = chars_of(path.as_str());
        let mut r: Vec<DavProp> = Vec::new();
        let mut i: usize = 0;
        assert(self@.take(0) =~= Seq::empty());
        assert(props_view(r@) =~= Seq::empty());
        while i < self.data.len()
            invariant
                i <= self.data.len(),
                p@ == path@,
                props_view(r@) == props_under(self@.take(i as int), path@, do_content),
            decreases self.data.len() - i,
        {
            let e = &self.data[i];
            let k = chars_of(e.0.as_str());
            proof {
                assert(self@.take(i + 1).drop_last() =~= self@.take(i as int));
                assert(self@.take(i + 1).last() == self@[i as int]);
            }
            if has_prefix(&k, &p) {
                let v = if do_content {
                    e.1.clone()
                } else {
                    e.1.stripped()
                };
                let ghost before = props_view(r@);
                r.push(v);
                assert(props_view(r@) =~= before.push(v@));
            }
            i += 1;
        }
        assert(self@.take(self@.len() as int) =~= self@);
        Ok(r)
    }

    fn remove_under(&mut self, path: &NormalizedPath)
        ensures
            final(self)@ == without_under(old(self)@, path@),
    {
        let p = chars_of(path.as_str());
        let mut kept: Vec<(String, DavProp)> = Vec::new();
        let mut i: usize = 0;
        assert(self@.take(0) =~= Seq::empty());
        assert(data_model(kept@) =~= Seq::empty());
        while i < self.data.len()
            invariant
                i <= self.data.len(),
                p@ == path@,
                self.data == old(self).data,
                data_model(kept@) == without_under(self@.take(i as int), path@),
            decreases self.data.len() - i,
        {
            let e = &self.data[i];
            let k = chars_of(e.0.as_str());
            proof {
                assert(self@.take(i + 1).drop_last() =~= self@.take(i as int));
                assert(self@.take(i + 1).last() == self@[i as int]);
            }
            if !has_prefix(&k, &p) {
                let ghost before = data_model(kept@);
                let pair = (copy_text(e.0.as_str()), e.1.clone());
                kept.push(pair);
                assert(data_model(kept@) =~= before.push(self@[i as int]));
            }
            i += 1;
        }
        assert(self@.take(self@.len() as int) =~= self@);
        self.data = kept;
    }

    /// Forgets the properties of a removed resource: all that is stored
    /// for the path and below it.
    pub fn remove_file(&mut self, path: &NormalizedPath) -> (r: Result<(), FsError>)
        ensures
            r == Ok::<(), FsError>(()),
            final(self)@ == without_under(old(self)@, path@),
            keys_distinct(old(self)@) ==> keys_distinct(final(self)@),
    {
        proof {
            if keys_distinct(old(self)@) {
                lemma_without_under_keeps_keys_distinct(old(self)@, path@);
            }
        }
        self.remove_under(path);
        Ok(())
    }

    /// Forgets the properties of a removed collection: all that is stored
    /// for the path and below it.
    pub fn remove_dir(&mut self, path: &NormalizedPath) -> (r: Result<(), FsError>)
        ensures
            r == Ok::<(), FsError>(()),
            final(self)@ == without_under(old(self)@, path@),
            keys_distinct(old(self)@) ==> keys_distinct(final(self)@),
    {
        proof {
            if keys_distinct(old(self)@) {
                lemma_without_under_keeps_keys_distinct(old(self)@, path@);
            }
        }
        self.remove_under(path);
        Ok(())
    }

    /// Lets the properties follow a move: each key that begins with
    /// `from` is replaced by the key that has `to` in its place. Where
    /// the new key is taken, the property that was there stays.
    pub fn rename(&mut self, from: &NormalizedPath, to: &NormalizedPath) -> (r: Result<
        (),
        FsError,
    >)
        ensures
            r == Ok::<(), FsError>(()),
            final(self)@ == renamed(old(self)@, moves(old(self)@, from@, to@)),
            keys_distinct(old(self)@) ==> keys_distinct(final(self)@),
    {
        proof {
            if keys_distinct(old(self)@) {
                lemma_renamed_keeps_keys_distinct(old(self)@, moves(old(self)@, from@, to@));
            }
        }
        let mut mv = moves_of(&self.data, from, to);
        let ghost all = key_pairs_view(mv@);
        let ghost start = self@;
        let mut done: usize = 0;
        let total = mv.len();
        assert(all.take(0) =~= Seq::empty());
        while mv.len() > 0
            invariant
                done + mv@.len() == total,
                total == all.len(),
                key_pairs_view(mv@) == all.skip(done as int),
                self@ == renamed(start, all.take(done as int)),
            decreases mv@.len(),
        {
            let ghost before_mv = key_pairs_view(mv@);
            let (key, new_key) = mv.remove(0);
            proof {
                assert(key_pairs_view(mv@) =~= before_mv.skip(1));
                assert(before_mv[0] == (key@, new_key@));
                assert(all.skip(done as int).skip(1) =~= all.skip(done + 1));
                assert(all.take(done + 1).drop_last() =~= all.take(done as int));
                assert(all.take(done + 1).last() == all[done as int]);
                assert(all[done as int] == all.skip(done as int)[0]);
            }
            let k = chars_of(key.as_str());
            let i = find(&self.data, &k);
            if i < self.data.len() {
                let ghost before = data_model(self.data@);
                let (_, prop) = self.data.remove(i);
                assert(data_model(self.data@) =~= before.remove(i as int));
                insert_if_free(&mut self.data, new_key, prop);
            }
            done += 1;
        }
        assert(all.take(all.len() as int) =~= all);
        Ok(())
    }

    /// Lets the properties follow a copy: each key that begins with
    /// `from` gets a twin under the key that has `to` in its place, unless
    /// that key is taken.
    pub fn copy(&mut self, from: &NormalizedPath, to: &NormalizedPath) -> (r: Result<(), FsError>)
        ensures
            r == Ok::<(), FsError>(()),
            final(self)@ == copied(old(self)@, moves(old(self)@, from@, to@)),
            keys_distinct(old(self)@) ==> keys_distinct(final(self)@),
    {
        proof {
            if keys_distinct(old(self)@) {
                lemma_copied_keeps_keys_distinct(old(self)@, moves(old(self)@, from@, to@));
            }
        }
        let mut mv = moves_of(&self.data, from, to);
        let ghost all = key_pairs_view(mv@);
        let ghost start = self@;
        let mut done: usize = 0;
        let total = mv.len();
        assert(all.take(0) =~= Seq::empty());
        while mv.len() > 0
            invariant
                done + mv@.len() == total,
                total == all.len(),
                key_pairs_view(mv@) == all.skip(done as int),
                self@ == copied(start, all.take(done as int)),
            decreases mv@.len(),
        {
            let ghost before_mv = key_pairs_view(mv@);
            let (key, new_key) = mv.remove(0);
            proof {
                assert(key_pairs_view(mv@) =~= before_mv.skip(1));
                assert(before_mv[0] == (key@, new_key@));
                assert(all.skip(done as int).skip(1) =~= all.skip(done + 1));
                assert(all.take(done + 1).drop_last() =~= all.take(done as int));
                assert(all.take(done + 1).last() == all[done as int]);
                assert(all[done as int] == all.skip(done as int)[0]);
            }
            let k = chars_of(key.as_str());
            let i = find(&self.data, &k);
            if i < self.data.len() {
                let prop = self.data[i].1.clone();
                insert_if_free(&mut self.data, new_key, prop);
            }
            done += 1;
        }
        assert(all.take(all.len() as int) =~= all);
        Ok(())
    }
}

} // verus!
