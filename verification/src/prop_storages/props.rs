//! Dead properties: what clients attach to a path and the server keeps
//! without reading it.
use crate::error::FsError;
use crate::normalized_path::normalize;
use crate::text::{copy_bytes, copy_opt_text, copy_text, opt_bytes, opt_text};
use vstd::prelude::*;

verus! {

/// A dead property: its name, with an optional prefix and namespace, and
/// its value as raw XML.
#[derive(Debug)]
pub struct DavProp {
    pub name: String,
    pub prefix: Option<String>,
    pub namespace: Option<String>,
    pub xml: Option<Vec<u8>>,
}

/// A property as plain values.
pub struct PropView {
    pub name: Seq<char>,
    pub prefix: Option<Seq<char>>,
    pub namespace: Option<Seq<char>>,
    pub xml: Option<Seq<u8>>,
}

impl View for DavProp {
    type V = PropView;

    open spec fn view(&self) -> PropView {
        PropView {
            name: self.name@,
            prefix: opt_text(self.prefix),
            namespace: opt_text(self.namespace),
            xml: opt_bytes(self.xml),
        }
    }
}

impl Clone for DavProp {
    fn clone(&self) -> (r: Self)
        ensures
            r@ == self@,
    {
        DavProp {
            name: copy_text(self.name.as_str()),
            prefix: copy_opt_text(&self.prefix),
            namespace: copy_opt_text(&self.namespace),
            xml: match &self.xml {
                Some(v) => Some(copy_bytes(v)),
                None => None,
            },
        }
    }
}

/// The property without its value.
pub open spec fn without_value(p: PropView) -> PropView {
    PropView { xml: None, ..p }
}

impl DavProp {
    /// A copy of the property without its value.
    pub fn stripped(&self) -> (r: DavProp)
        ensures
            r@ == without_value(self@),
    {
        DavProp {
            name: copy_text(self.name.as_str()),
            prefix: copy_opt_text(&self.prefix),
            namespace: copy_opt_text(&self.namespace),
            xml: None,
        }
    }
}

/// The views of a sequence of properties.
pub open spec fn props_view(props: Seq<DavProp>) -> Seq<PropView> {
    props.map_values(|p: DavProp| p@)
}

/// One stored property under its key.
pub struct PropEntry {
    pub key: Seq<char>,
    pub prop: PropView,
}

/// The namespace of a property, empty where it has none.
pub open spec fn namespace_text(p: PropView) -> Seq<char> {
    match p.namespace {
        Some(ns) => ns,
        None => Seq::empty(),
    }
}

/// The key under which a property of a path is stored:
/// `{path}.{namespace}.{name}`. The prefix plays no part.
pub open spec fn prop_key(path: Seq<char>, p: PropView) -> Seq<char> {
    path + seq!['.'] + namespace_text(p) + seq!['.'] + p.name
}

/// The first place at which `key` is stored; the length where it is not.
pub open spec fn first_index(m: Seq<PropEntry>, key: Seq<char>) -> int
    decreases m.len(),
{
    if m.len() == 0 {
        0
    } else if m[0].key == key {
        0
    } else {
        1 + first_index(m.skip(1), key)
    }
}

/// Whether something is stored under `key`.
pub open spec fn has_key(m: Seq<PropEntry>, key: Seq<char>) -> bool {
    first_index(m, key) < m.len()
}

/// No key is stored twice.
pub open spec fn keys_distinct(m: Seq<PropEntry>) -> bool {
    forall|i: int, j: int| 0 <= i < j < m.len() ==> m[i].key != m[j].key
}

/// The store with `prop` under `key`, in the place of what was there.
pub open spec fn with_prop(m: Seq<PropEntry>, key: Seq<char>, prop: PropView) -> Seq<PropEntry> {
    let i = first_index(m, key);
    if i < m.len() {
        m.update(i, PropEntry { key, prop })
    } else {
        m.push(PropEntry { key, prop })
    }
}

/// The store with `prop` under `key` unless the key is taken.
pub open spec fn or_insert(m: Seq<PropEntry>, key: Seq<char>, prop: PropView) -> Seq<PropEntry> {
    if has_key(m, key) {
        m
    } else {
        m.push(PropEntry { key, prop })
    }
}

/// The store without what is under `key`.
pub open spec fn without_key(m: Seq<PropEntry>, key: Seq<char>) -> Seq<PropEntry> {
    let i = first_index(m, key);
    if i < m.len() {
        m.remove(i)
    } else {
        m
    }
}

/// Whether a key begins with the text of a path.
pub open spec fn is_under(key: Seq<char>, path: Seq<char>) -> bool {
    path.is_prefix_of(key)
}

/// Whether a key of the store begins with `path`.
pub open spec fn any_under(m: Seq<PropEntry>, path: Seq<char>) -> bool {
    exists|i: int| 0 <= i < m.len() && is_under(#[trigger] m[i].key, path)
}

/// The properties whose keys begin with `path`, in their order, with
/// their values or without.
pub open spec fn props_under(m: Seq<PropEntry>, path: Seq<char>, content: bool) -> Seq<PropView>
    decreases m.len(),
{
    if m.len() == 0 {
        Seq::empty()
    } else {
        let rest = props_under(m.drop_last(), path, content);
        if is_under(m.last().key, path) {
            rest.push(
                if content {
                    m.last().prop
                } else {
                    without_value(m.last().prop)
                },
            )
        } else {
            rest
        }
    }
}

/// The store without the properties whose keys begin with `path`.
pub open spec fn without_under(m: Seq<PropEntry>, path: Seq<char>) -> Seq<PropEntry>
    decreases m.len(),
{
    if m.len() == 0 {
        Seq::empty()
    } else {
        let rest = without_under(m.drop_last(), path);
        if is_under(m.last().key, path) {
            rest
        } else {
            rest.push(m.last())
        }
    }
}

/// The key that a key below `from` has below `to`.
pub open spec fn moved_key(key: Seq<char>, from: Seq<char>, to: Seq<char>) -> Seq<char> {
    to + normalize(key.skip(from.len() as int))
}

/// The keys that begin with `from`, each with the key it has below `to`.
pub open spec fn moves(m: Seq<PropEntry>, from: Seq<char>, to: Seq<char>) -> Seq<
    (Seq<char>, Seq<char>),
>
    decreases m.len(),
{
    if m.len() == 0 {
        Seq::empty()
    } else {
        let rest = moves(m.drop_last(), from, to);
        if is_under(m.last().key, from) {
            rest.push((m.last().key, moved_key(m.last().key, from, to)))
        } else {
            rest
        }
    }
}

/// The store after each move in turn: the property leaves its key and
/// takes the new one unless that is taken.
pub open spec fn renamed(m: Seq<PropEntry>, mv: Seq<(Seq<char>, Seq<char>)>) -> Seq<PropEntry>
    decreases mv.len(),
{
    if mv.len() == 0 {
        m
    } else {
        let before = renamed(m, mv.drop_last());
        let (key, new_key) = mv.last();
        let i = first_index(before, key);
        if i < before.len() {
            or_insert(before.remove(i), new_key, before[i].prop)
        } else {
            before
        }
    }
}

/// The store after each copy in turn: the property stays and a copy takes
/// the new key unless that is taken.
pub open spec fn copied(m: Seq<PropEntry>, mv: Seq<(Seq<char>, Seq<char>)>) -> Seq<PropEntry>
    decreases mv.len(),
{
    if mv.len() == 0 {
        m
    } else {
        let before = copied(m, mv.drop_last());
        let (key, new_key) = mv.last();
        let i = first_index(before, key);
        if i < before.len() {
            or_insert(before, new_key, before[i].prop)
        } else {
            before
        }
    }
}

/// The value stored for a property of a path, if there is one.
pub open spec fn value_of(m: Seq<PropEntry>, path: Seq<char>, p: PropView) -> Result<
    Seq<u8>,
    FsError,
> {
    let i = first_index(m, prop_key(path, p));
    if i < m.len() {
        match m[i].prop.xml {
            Some(xml) => Ok(xml),
            None => Err(FsError::NotFound),
        }
    } else {
        Err(FsError::NotFound)
    }
}

/// The store after one patch: a property is set, or removed.
pub open spec fn patched(m: Seq<PropEntry>, path: Seq<char>, set: bool, p: PropView) -> Seq<
    PropEntry,
> {
    if set {
        with_prop(m, prop_key(path, p), p)
    } else {
        without_key(m, prop_key(path, p))
    }
}

/// `i` is the first place of `key` where no earlier place holds it and
/// `i` is the length or holds it.
pub proof fn lemma_first_index(m: Seq<PropEntry>, key: Seq<char>, i: int)
    requires
        0 <= i <= m.len(),
        forall|j: int| 0 <= j < i ==> m[j].key != key,
        i == m.len() || m[i].key == key,
    ensures
        first_index(m, key) == i,
    decreases m.len(),
{
    if m.len() > 0 && i > 0 {
        assert forall|j: int| 0 <= j < i - 1 implies m.skip(1)[j].key != key by {
            assert(m.skip(1)[j] == m[j + 1]);
        }
        lemma_first_index(m.skip(1), key, i - 1);
    }
}

/// The first place of a key lies in the store or is its length; where it
/// lies in the store it holds the key, and no earlier place does.
pub proof fn lemma_first_index_range(m: Seq<PropEntry>, key: Seq<char>)
    ensures
        0 <= first_index(m, key) <= m.len(),
        first_index(m, key) < m.len() ==> m[first_index(m, key)].key == key,
        forall|j: int| 0 <= j < first_index(m, key) ==> m[j].key != key,
    decreases m.len(),
{
    if m.len() > 0 && m[0].key != key {
        lemma_first_index_range(m.skip(1), key);
        let k = first_index(m.skip(1), key);
        assert forall|j: int| 0 <= j < 1 + k implies m[j].key != key by {
            if j > 0 {
                assert(m.skip(1)[j - 1] == m[j]);
            }
        }
        if k < m.skip(1).len() {
            assert(m.skip(1)[k] == m[k + 1]);
        }
    }
}

/// A patch leaves no key stored twice.
pub proof fn lemma_patched_keeps_keys_distinct(
    m: Seq<PropEntry>,
    path: Seq<char>,
    set: bool,
    p: PropView,
)
    requires
        keys_distinct(m),
    ensures
        keys_distinct(patched(m, path, set, p)),
{
    let key = prop_key(path, p);
    lemma_first_index_range(m, key);
    let i = first_index(m, key);
    let r = patched(m, path, set, p);
    if set {
        assert forall|a: int, b: int| 0 <= a < b < r.len() implies r[a].key != r[b].key by {
            if i < m.len() {
                assert(m[i].key == key);
            }
        }
    } else if i < m.len() {
        assert forall|a: int, b: int| 0 <= a < b < r.len() implies r[a].key != r[b].key by {
            let a0 = if a < i {
                a
            } else {
                a + 1
            };
            let b0 = if b < i {
                b
            } else {
                b + 1
            };
            assert(r[a] == m[a0] && r[b] == m[b0]);
        }
    }
}

/// A store that takes a property under a key, in the place of what was
/// there, has no key twice.
pub proof fn lemma_with_prop_keeps_keys_distinct(m: Seq<PropEntry>, key: Seq<char>, prop: PropView)
    requires
        keys_distinct(m),
    ensures
        keys_distinct(with_prop(m, key, prop)),
{
    lemma_first_index_range(m, key);
    let i = first_index(m, key);
    let r = with_prop(m, key, prop);
    assert forall|a: int, b: int| 0 <= a < b < r.len() implies r[a].key != r[b].key by {
        if i < m.len() {
            assert(r[a].key == m[a].key && r[b].key == m[b].key);
        } else if b < m.len() {
            assert(r[a] == m[a] && r[b] == m[b]);
        } else {
            assert(r[a] == m[a]);
        }
    }
}

/// A store that takes a property under a key that is free, or leaves it
/// where the key is taken, has no key twice.
pub proof fn lemma_or_insert_keeps_keys_distinct(m: Seq<PropEntry>, key: Seq<char>, prop: PropView)
    requires
        keys_distinct(m),
    ensures
        keys_distinct(or_insert(m, key, prop)),
{
    lemma_first_index_range(m, key);
}

/// A store that loses what is at one place has no key twice.
pub proof fn lemma_remove_keeps_keys_distinct(m: Seq<PropEntry>, i: int)
    requires
        keys_distinct(m),
        0 <= i < m.len(),
    ensures
        keys_distinct(m.remove(i)),
{
    let r = m.remove(i);
    assert forall|a: int, b: int| 0 <= a < b < r.len() implies r[a].key != r[b].key by {
        let x = if a < i {
            a
        } else {
            a + 1
        };
        let y = if b < i {
            b
        } else {
            b + 1
        };
        assert(r[a] == m[x] && r[b] == m[y]);
    }
}

/// Every key that stays when a path is forgotten was in the store.
proof fn lemma_without_under_keys(m: Seq<PropEntry>, path: Seq<char>, j: int) -> (i: int)
    requires
        0 <= j < without_under(m, path).len(),
    ensures
        0 <= i < m.len(),
        m[i] == without_under(m, path)[j],
    decreases m.len(),
{
    let rest = without_under(m.drop_last(), path);
    if j < rest.len() {
        let i = lemma_without_under_keys(m.drop_last(), path, j);
        assert(m.drop_last()[i] == m[i]);
        i
    } else {
        m.len() - 1
    }
}

/// A store that forgets a path has no key twice.
pub proof fn lemma_without_under_keeps_keys_distinct(m: Seq<PropEntry>, path: Seq<char>)
    requires
        keys_distinct(m),
    ensures
        keys_distinct(without_under(m, path)),
    decreases m.len(),
{
    if m.len() > 0 {
        let front = m.drop_last();
        assert(keys_distinct(front)) by {
            assert forall|a: int, b: int| 0 <= a < b < front.len() implies front[a].key
                != front[b].key by {
                assert(front[a] == m[a] && front[b] == m[b]);
            }
        }
        lemma_without_under_keeps_keys_distinct(front, path);
        let rest = without_under(front, path);
        let all = without_under(m, path);
        assert forall|a: int, b: int| 0 <= a < b < all.len() implies all[a].key != all[b].key by {
            if b < rest.len() {
                assert(all[a] == rest[a] && all[b] == rest[b]);
            } else {
                let i = lemma_without_under_keys(front, path, a);
                assert(front[i] == m[i]);
                assert(all[b] == m[m.len() - 1]);
                assert(all[a] == rest[a]);
            }
        }
    }
}

/// A store whose properties followed a move has no key twice.
pub proof fn lemma_renamed_keeps_keys_distinct(m: Seq<PropEntry>, mv: Seq<(Seq<char>, Seq<char>)>)
    requires
        keys_distinct(m),
    ensures
        keys_distinct(renamed(m, mv)),
    decreases mv.len(),
{
    if mv.len() > 0 {
        lemma_renamed_keeps_keys_distinct(m, mv.drop_last());
        let before = renamed(m, mv.drop_last());
        let (key, new_key) = mv.last();
        lemma_first_index_range(before, key);
        let i = first_index(before, key);
        if i < before.len() {
            lemma_remove_keeps_keys_distinct(before, i);
            lemma_or_insert_keeps_keys_distinct(before.remove(i), new_key, before[i].prop);
        }
    }
}

/// A store whose properties followed a copy has no key twice.
pub proof fn lemma_copied_keeps_keys_distinct(m: Seq<PropEntry>, mv: Seq<(Seq<char>, Seq<char>)>)
    requires
        keys_distinct(m),
    ensures
        keys_distinct(copied(m, mv)),
    decreases mv.len(),
{
    if mv.len() > 0 {
        lemma_copied_keeps_keys_distinct(m, mv.drop_last());
        let before = copied(m, mv.drop_last());
        let (key, new_key) = mv.last();
        lemma_first_index_range(before, key);
        let i = first_index(before, key);
        if i < before.len() {
            lemma_or_insert_keeps_keys_distinct(before, new_key, before[i].prop);
        }
    }
}

/// Setting a property twice is as good as setting it once: the store is
/// the same, it holds the property under its key exactly once, and
/// removing the property then leaves nothing under that key.
pub proof fn law_set_twice_is_set_once(m: Seq<PropEntry>, path: Seq<char>, p: PropView)
    requires
        keys_distinct(m),
    ensures
        patched(patched(m, path, true, p), path, true, p) == patched(m, path, true, p),
        has_key(patched(m, path, true, p), prop_key(path, p)),
        forall|j: int|
            0 <= j < patched(m, path, true, p).len() && #[trigger] patched(
                m,
                path,
                true,
                p,
            )[j].key == prop_key(path, p) ==> j == first_index(
                patched(m, path, true, p),
                prop_key(path, p),
            ) && patched(m, path, true, p)[j].prop == p,
        !has_key(patched(patched(m, path, true, p), path, false, p), prop_key(path, p)),
{
    let key = prop_key(path, p);
    let once = patched(m, path, true, p);
    lemma_first_index_range(m, key);
    let i = first_index(m, key);
    assert(once[i] == PropEntry { key, prop: p });
    assert forall|j: int| 0 <= j < i implies once[j].key != key by {
        assert(once[j] == m[j]);
    }
    lemma_first_index(once, key, i);
    assert(once.update(i, PropEntry { key, prop: p }) =~= once);
    lemma_patched_keeps_keys_distinct(m, path, true, p);
    assert forall|j: int| 0 <= j < once.len() && once[j].key == key implies j == i by {
        if j < i {
            assert(once[j].key != once[i].key);
        } else if j > i {
            assert(once[i].key != once[j].key);
        }
    }
    let gone = once.remove(i);
    assert forall|j: int| 0 <= j < gone.len() implies gone[j].key != key by {
        if j < i {
            assert(gone[j] == once[j]);
        } else {
            assert(gone[j] == once[j + 1]);
        }
    }
    lemma_first_index(gone, key, gone.len() as int);
}

/// Once the properties of a path were forgotten, none is listed for it.
pub proof fn law_forgotten_path_lists_nothing(m: Seq<PropEntry>, path: Seq<char>, content: bool)
    ensures
        props_under(without_under(m, path), path, content) == Seq::<PropView>::empty(),
        !any_under(without_under(m, path), path),
    decreases m.len(),
{
    if m.len() > 0 {
        law_forgotten_path_lists_nothing(m.drop_last(), path, content);
        let rest = without_under(m.drop_last(), path);
        if !is_under(m.last().key, path) {
            let r = rest.push(m.last());
            assert(r.drop_last() =~= rest);
            assert(r.last() == m.last());
            assert forall|i: int| 0 <= i < r.len() implies !is_under(#[trigger] r[i].key, path) by {
                if i < rest.len() {
                    assert(r[i] == rest[i]);
                }
            }
        }
    }
}

/// The property that is stored under a key, if there is one.
pub open spec fn entry_of(m: Seq<PropEntry>, key: Seq<char>) -> Option<PropView> {
    if has_key(m, key) {
        Some(m[first_index(m, key)].prop)
    } else {
        None
    }
}

/// What is stored under a key once one more entry stands behind the
/// others: what was stored under it, or else the new entry where it has
/// the key.
proof fn lemma_entry_of_push(m: Seq<PropEntry>, e: PropEntry, key: Seq<char>)
    ensures
        entry_of(m.push(e), key) == if has_key(m, key) {
            entry_of(m, key)
        } else if e.key == key {
            Some(e.prop)
        } else {
            None
        },
{
    let longer = m.push(e);
    lemma_first_index_range(m, key);
    let i = first_index(m, key);
    assert forall|j: int| 0 <= j < i implies longer[j].key != key by {
        assert(longer[j] == m[j]);
    }
    if i < m.len() {
        assert(longer[i] == m[i]);
        lemma_first_index(longer, key, i);
    } else if e.key == key {
        lemma_first_index(longer, key, m.len() as int);
    } else {
        lemma_first_index(longer, key, longer.len() as int);
    }
}

/// What is stored under a key that does not begin with a path stays
/// when the path is forgotten.
proof fn lemma_entry_stays(m: Seq<PropEntry>, path: Seq<char>, key: Seq<char>)
    requires
        !is_under(key, path),
    ensures
        entry_of(without_under(m, path), key) == entry_of(m, key),
    decreases m.len(),
{
    if m.len() > 0 {
        let front = m.drop_last();
        lemma_entry_stays(front, path, key);
        assert(front.push(m.last()) =~= m);
        lemma_entry_of_push(front, m.last(), key);
        if !is_under(m.last().key, path) {
            lemma_entry_of_push(without_under(front, path), m.last(), key);
        }
    } else {
        assert(without_under(m, path) =~= m);
    }
}

/// Once the properties of a path were forgotten, the properties of the
/// paths whose keys do not begin with it are found as before.
pub proof fn law_removal_keeps_what_is_elsewhere(
    m: Seq<PropEntry>,
    path: Seq<char>,
    other: Seq<char>,
    p: PropView,
)
    requires
        !is_under(prop_key(other, p), path),
    ensures
        value_of(without_under(m, path), other, p) == value_of(m, other, p),
{
    lemma_entry_stays(m, path, prop_key(other, p));
}

} // verus!
