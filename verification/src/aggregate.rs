//! The aggregator: backends mounted at prefixes, shown as one tree.
//!
//! A request path is routed to the backend whose prefix is the deepest
//! ancestor of the path. Prefixes that lie below a listed collection show
//! up in the listing as collections of their own. Dead properties are
//! kept by the aggregator itself, under the request path.
use crate::error::FsError;
use crate::normalized_path::{normalize, root, NormalizedPath};
use crate::percent::{
    ascii_bytes, encode_bytes, lemma_decoded_in_front, percent_decoded, percent_encoded,
};
use crate::prop_storages::mem::Memory;
use crate::prop_storages::props::{DavProp, PropView};
use crate::prop_storages::store::{
    list_result_view, store_copy, store_have, store_list, store_patch, store_remove_dir,
    store_remove_file, store_rename, store_value, value_result_view, PropStore, PropStoreView,
};
use crate::s3_backend::metadata::UnixTime;
use crate::text::{
    chars_of, copy_text, ends_with_char, has_prefix, push_range, string_of, texts_view,
};
use vstd::prelude::*;
use vstd::string::StringSliceAdditionalSpecFns;
use vstd::utf8::encode_utf8;

verus! {

/// The size that is reported for a collection that only mounts make up.
pub const VIRTUAL_DIR_SIZE: u64 = 4096;

/// The request path without the slash at its end that marks a collection.
pub open spec fn stem(route: Seq<char>) -> Seq<char> {
    if route.len() > 1 && route.last() == '/' {
        route.drop_last()
    } else {
        route
    }
}

/// Whether a segment of `p` ends at `end`.
pub open spec fn is_cut(p: Seq<char>, end: int) -> bool {
    0 <= end <= p.len() && (end == p.len() || p[end] == '/')
}

/// The ancestor of `p` that ends at `end`; the one that ends at the
/// start is the root.
pub open spec fn ancestor_at(p: Seq<char>, end: int) -> Seq<char> {
    if end == 0 && p.len() > 0 {
        root()
    } else {
        p.take(end)
    }
}

/// The first place at which `t` stands in `ts`; the length where it does
/// not.
pub open spec fn first_text(ts: Seq<Seq<char>>, t: Seq<char>) -> int
    decreases ts.len(),
{
    if ts.len() == 0 {
        0
    } else if ts[0] == t {
        0
    } else {
        1 + first_text(ts.skip(1), t)
    }
}

/// Whether a backend is mounted at exactly `p`.
pub open spec fn is_mounted(prefixes: Seq<Seq<char>>, p: Seq<char>) -> bool {
    first_text(prefixes, p) < prefixes.len()
}

/// Where the deepest ancestor of `p` that is a mount prefix ends, looking
/// from `end` towards the start; `-1` where there is none.
pub open spec fn find_cut(prefixes: Seq<Seq<char>>, p: Seq<char>, end: int) -> int
    decreases end + 1,
{
    if end < 0 {
        -1
    } else if is_cut(p, end) && is_mounted(prefixes, ancestor_at(p, end)) {
        end
    } else {
        find_cut(prefixes, p, end - 1)
    }
}

/// What follows the mount prefix `mount` in the path `p`, without the
/// slash between the two.
pub open spec fn remainder(p: Seq<char>, mount: Seq<char>) -> Seq<char> {
    if mount.len() >= p.len() {
        Seq::empty()
    } else if mount == root() {
        p.skip(1)
    } else {
        p.skip(mount.len() as int + 1)
    }
}

/// The path that is handed to the backend mounted at `mount` for the
/// request path `route`: what follows the prefix, percent-encoded, with a
/// slash in front and, for a collection, a slash at the end.
pub open spec fn relative_path(route: Seq<char>, mount: Seq<char>) -> Seq<char> {
    let path = root() + percent_encoded(encode_utf8(remainder(stem(route), mount)));
    if ends_with_char(route, '/') && !ends_with_char(path, '/') {
        path + root()
    } else {
        path
    }
}

/// The bytes that the backend reads from the path that it is handed: a
/// slash, what follows the mount prefix in the request path, and a slash
/// at the end for a collection.
pub open spec fn handed_bytes(route: Seq<char>, mount: Seq<char>) -> Seq<u8> {
    let rest = encode_utf8(remainder(stem(route), mount));
    let path = root() + percent_encoded(rest);
    if ends_with_char(route, '/') && !ends_with_char(path, '/') {
        seq![0x2fu8] + rest + seq![0x2fu8]
    } else {
        seq![0x2fu8] + rest
    }
}

/// The path that is handed to a backend, percent-decoded, is what follows
/// the mount prefix in the request path: nothing is lost or changed on
/// the way.
pub proof fn law_route_path_is_read_back(route: Seq<char>, mount: Seq<char>)
    ensures
        percent_decoded(ascii_bytes(relative_path(route, mount))) == handed_bytes(route, mount),
{
    let rest = encode_utf8(remainder(stem(route), mount));
    let enc = ascii_bytes(percent_encoded(rest));
    let slash = seq![0x2fu8];
    let none = Seq::<u8>::empty();
    assert(ascii_bytes(percent_encoded(slash)) =~= slash) by {
        assert(slash.drop_last() =~= Seq::<u8>::empty());
        assert(percent_encoded(slash.drop_last()) =~= Seq::<char>::empty());
        assert(percent_encoded(slash) =~= seq!['/']);
    }
    assert(percent_decoded(none) =~= none);
    lemma_decoded_in_front(slash, none);
    assert(slash + none =~= slash);
    assert(percent_decoded(slash) =~= slash);
    let path = root() + percent_encoded(rest);
    if ends_with_char(route, '/') && !ends_with_char(path, '/') {
        assert(ascii_bytes(path + root()) =~= slash + (enc + slash));
        lemma_decoded_in_front(slash, enc + slash);
        lemma_decoded_in_front(rest, slash);
        assert(slash + (rest + slash) =~= slash + rest + slash);
    } else {
        assert(ascii_bytes(path) =~= slash + (enc + none));
        lemma_decoded_in_front(slash, enc + none);
        lemma_decoded_in_front(rest, none);
        assert(slash + (rest + none) =~= slash + rest);
    }
}

/// Which backend serves a request, and under what path.
#[derive(Debug)]
pub struct Route {
    pub backend: usize,
    pub path: String,
}

/// A route as plain values.
pub struct RouteView {
    pub backend: usize,
    pub path: Seq<char>,
}

impl View for Route {
    type V = RouteView;

    open spec fn view(&self) -> RouteView {
        RouteView { backend: self.backend, path: self.path@ }
    }
}

/// The route of a request path: the backend mounted at the deepest
/// ancestor of the path, the path itself counted in; nothing is found
/// where no ancestor is a mount prefix.
pub open spec fn route_of(prefixes: Seq<Seq<char>>, route: Seq<char>) -> Result<RouteView, FsError> {
    let p = stem(route);
    let cut = find_cut(prefixes, p, p.len() as int);
    if cut < 0 {
        Err(FsError::NotFound)
    } else {
        let mount = ancestor_at(p, cut);
        Ok(
            RouteView {
                backend: first_text(prefixes, mount) as usize,
                path: relative_path(route, mount),
            },
        )
    }
}

/// The view of a route, or of the error in its place.
pub open spec fn route_result_view(r: Result<Route, FsError>) -> Result<RouteView, FsError> {
    match r {
        Ok(route) => Ok(route@),
        Err(e) => Err(e),
    }
}

/// The collection whose children a listing of `level` shows: `level`
/// itself where it is a collection, else the collection that holds it.
pub open spec fn level_dir(level: Seq<char>) -> Seq<char> {
    if ends_with_char(level, '/') {
        stem(level)
    } else {
        let cut = last_slash(level);
        if cut <= 0 {
            root()
        } else {
            level.take(cut)
        }
    }
}

/// The place of the last slash of `p`; `-1` where it has none.
pub open spec fn last_slash(p: Seq<char>) -> int
    decreases p.len(),
{
    if p.len() == 0 {
        -1
    } else if p.last() == '/' {
        p.len() - 1
    } else {
        last_slash(p.drop_last())
    }
}

/// Where the first segment of `prefix` below `dir` starts.
pub open spec fn segment_start(dir: Seq<char>) -> int {
    if dir == root() {
        1
    } else {
        dir.len() as int + 1
    }
}

/// Whether `prefix` lies below the collection `dir`.
pub open spec fn lies_below(prefix: Seq<char>, dir: Seq<char>) -> bool {
    if dir == root() {
        prefix.len() > 1 && prefix[0] == '/'
    } else {
        prefix.len() > dir.len() + 1 && dir.is_prefix_of(prefix) && prefix[dir.len() as int] == '/'
    }
}

/// Where the segment of `p` that starts at `start` ends.
pub open spec fn segment_end(p: Seq<char>, start: int) -> int
    decreases p.len() - start,
{
    if start < 0 || start >= p.len() {
        p.len() as int
    } else if p[start] == '/' {
        start
    } else {
        segment_end(p, start + 1)
    }
}

/// The child of `dir` on the way to the mount prefix `prefix`: `dir`
/// with the first segment of what follows it. There is none where the
/// prefix does not lie below `dir` or the segment is empty.
pub open spec fn child_of(prefix: Seq<char>, dir: Seq<char>) -> Option<Seq<char>> {
    let start = segment_start(dir);
    let end = segment_end(prefix, start);
    if lies_below(prefix, dir) && end > start {
        Some(prefix.take(end))
    } else {
        None
    }
}

/// The children of `dir` on the way to the mount prefixes, each once, in
/// the order in which the prefixes were mounted.
pub open spec fn children(prefixes: Seq<Seq<char>>, dir: Seq<char>) -> Seq<Seq<char>>
    decreases prefixes.len(),
{
    if prefixes.len() == 0 {
        Seq::empty()
    } else {
        let rest = children(prefixes.drop_last(), dir);
        match child_of(prefixes.last(), dir) {
            Some(c) => if rest.contains(c) {
                rest
            } else {
                rest.push(c)
            },
            None => rest,
        }
    }
}

/// The name under which a child of `dir` is listed: its last segment
/// with a slash at the end.
pub open spec fn child_name(child: Seq<char>, dir: Seq<char>) -> Seq<char> {
    child.skip(segment_start(dir)) + root()
}

/// The names of the children.
pub open spec fn child_names(kids: Seq<Seq<char>>, dir: Seq<char>) -> Seq<Seq<char>> {
    kids.map_values(|c: Seq<char>| child_name(c, dir))
}

/// `i` is the first place of `t` where no earlier place holds it and `i`
/// is the length or holds it.
pub proof fn lemma_first_text(ts: Seq<Seq<char>>, t: Seq<char>, i: int)
    requires
        0 <= i <= ts.len(),
        forall|j: int| 0 <= j < i ==> ts[j] != t,
        i == ts.len() || ts[i] == t,
    ensures
        first_text(ts, t) == i,
    decreases ts.len(),
{
    if ts.len() > 0 && i > 0 {
        assert forall|j: int| 0 <= j < i - 1 implies ts.skip(1)[j] != t by {
            assert(ts.skip(1)[j] == ts[j + 1]);
        }
        lemma_first_text(ts.skip(1), t, i - 1);
    }
}

/// The first place of a text lies in the sequence or is its length; where
/// it lies in the sequence it holds the text.
pub proof fn lemma_first_text_range(ts: Seq<Seq<char>>, t: Seq<char>)
    ensures
        0 <= first_text(ts, t) <= ts.len(),
        first_text(ts, t) < ts.len() ==> ts[first_text(ts, t)] == t,
        forall|j: int| 0 <= j < first_text(ts, t) ==> ts[j] != t,
    decreases ts.len(),
{
    if ts.len() > 0 && ts[0] != t {
        lemma_first_text_range(ts.skip(1), t);
        let k = first_text(ts.skip(1), t);
        assert forall|j: int| 0 <= j < 1 + k implies ts[j] != t by {
            if j > 0 {
                assert(ts.skip(1)[j - 1] == ts[j]);
            }
        }
        if k < ts.skip(1).len() {
            assert(ts.skip(1)[k] == ts[k + 1]);
        }
    }
}

/// A request is routed to the deepest mount: the ancestor that is found
/// is a mount prefix, and no ancestor between it and the path is one.
/// Where none is found, no ancestor is a mount prefix.
pub proof fn law_route_is_deepest_mount(prefixes: Seq<Seq<char>>, p: Seq<char>, end: int)
    requires
        -1 <= end <= p.len(),
    ensures
        find_cut(prefixes, p, end) <= end,
        find_cut(prefixes, p, end) >= 0 ==> is_cut(p, find_cut(prefixes, p, end)) && is_mounted(
            prefixes,
            ancestor_at(p, find_cut(prefixes, p, end)),
        ),
        forall|e: int|
            find_cut(prefixes, p, end) < e <= end && is_cut(p, e) ==> !is_mounted(
                prefixes,
                #[trigger] ancestor_at(p, e),
            ),
    decreases end + 1,
{
    if end >= 0 && !(is_cut(p, end) && is_mounted(prefixes, ancestor_at(p, end))) {
        law_route_is_deepest_mount(prefixes, p, end - 1);
    }
}

/// Every mount prefix below a collection shows in its listing: the child
/// of the collection on the way to the prefix is among the children.
pub proof fn law_mount_below_is_listed(prefixes: Seq<Seq<char>>, dir: Seq<char>, i: int)
    requires
        0 <= i < prefixes.len(),
        child_of(prefixes[i], dir) is Some,
    ensures
        children(prefixes, dir).contains(child_of(prefixes[i], dir)->Some_0),
    decreases prefixes.len(),
{
    let rest = children(prefixes.drop_last(), dir);
    let c = child_of(prefixes[i], dir)->Some_0;
    if i < prefixes.len() - 1 {
        assert(prefixes.drop_last()[i] == prefixes[i]);
        law_mount_below_is_listed(prefixes.drop_last(), dir, i);
        let j = choose|j: int| 0 <= j < rest.len() && rest[j] == c;
        let all = children(prefixes, dir);
        assert(all[j] == c);
    } else {
        if rest.contains(c) {
        } else {
            assert(rest.push(c)[rest.len() as int] == c);
        }
    }
}

/// No child is listed twice.
pub proof fn law_children_are_listed_once(prefixes: Seq<Seq<char>>, dir: Seq<char>)
    ensures
        forall|i: int, j: int|
            0 <= i < j < children(prefixes, dir).len() ==> children(prefixes, dir)[i] != children(
                prefixes,
                dir,
            )[j],
    decreases prefixes.len(),
{
    if prefixes.len() > 0 {
        law_children_are_listed_once(prefixes.drop_last(), dir);
        let rest = children(prefixes.drop_last(), dir);
        let all = children(prefixes, dir);
        assert forall|i: int, j: int| 0 <= i < j < all.len() implies all[i] != all[j] by {
            if j < rest.len() {
                assert(all[i] == rest[i] && all[j] == rest[j]);
            } else {
                assert(all[i] == rest[i]);
                assert(rest.contains(rest[i]));
            }
        }
    }
}

/// The segment that starts at `start` ends at or after `start`, inside
/// the text or at its end, and holds no slash.
pub proof fn lemma_segment_end(p: Seq<char>, start: int)
    requires
        0 <= start <= p.len(),
    ensures
        start <= segment_end(p, start) <= p.len(),
        segment_end(p, start) > start ==> p[start] != '/',
    decreases p.len() - start,
{
    if start < p.len() && p[start] != '/' {
        lemma_segment_end(p, start + 1);
    }
}

/// Every child is longer than the collection it lies in, and its own
/// segment does not start with a slash.
pub proof fn lemma_children_shape(prefixes: Seq<Seq<char>>, dir: Seq<char>)
    ensures
        forall|j: int|
            0 <= j < children(prefixes, dir).len() ==> (#[trigger] children(
                prefixes,
                dir,
            )[j]).len() > segment_start(dir) && children(prefixes, dir)[j][segment_start(dir)]
                != '/',
    decreases prefixes.len(),
{
    if prefixes.len() > 0 {
        lemma_children_shape(prefixes.drop_last(), dir);
        let rest = children(prefixes.drop_last(), dir);
        let all = children(prefixes, dir);
        let prefix = prefixes.last();
        if child_of(prefix, dir) is Some {
            lemma_segment_end(prefix, segment_start(dir));
        }
        assert forall|j: int| 0 <= j < all.len() implies (#[trigger] all[j]).len() > segment_start(
            dir,
        ) && all[j][segment_start(dir)] != '/' by {
            if j < rest.len() {
                assert(all[j] == rest[j]);
            }
        }
    }
}

/// The record of a collection that exists through mounts only.
#[derive(Debug)]
pub struct AggregateMetaData {
    pub path: NormalizedPath,
}

impl AggregateMetaData {
    /// The size that is reported: 4 KiB.
    pub fn len(&self) -> (n: u64)
        ensures
            n == 4096,
    {
        VIRTUAL_DIR_SIZE
    }

    /// Created just now.
    pub fn created(&self, now: UnixTime) -> (r: Result<UnixTime, FsError>)
        ensures
            r == Ok::<UnixTime, FsError>(now),
    {
        Ok(now)
    }

    /// Modified just now.
    pub fn modified(&self, now: UnixTime) -> (r: Result<UnixTime, FsError>)
        ensures
            r == Ok::<UnixTime, FsError>(now),
    {
        Ok(now)
    }

    /// Always a collection.
    pub fn is_dir(&self) -> (b: bool)
        ensures
            b,
    {
        true
    }
}

/// The entry of a listing that stands for a mount below the collection.
#[derive(Debug)]
pub struct AggregateDirEntry {
    pub path: NormalizedPath,
}

impl AggregateDirEntry {
    /// The name of the entry: the segment with a slash at its end.
    pub fn name(&self) -> (r: Vec<u8>)
        ensures
            r@ == encode_utf8(self.path@),
    {
        vstd::string::StrSliceExecFns::as_bytes_vec(self.path.as_str())
    }

    /// The record of the entry: a collection.
    pub fn metadata(&self) -> (r: AggregateMetaData)
        ensures
            r.path@ == self.path@,
    {
        AggregateMetaData { path: self.path.clone() }
    }
}

/// The names of the entries.
pub open spec fn entry_names(entries: Seq<AggregateDirEntry>) -> Seq<Seq<char>> {
    entries.map_values(|e: AggregateDirEntry| e.path@)
}

/// One entry of a listing: of the backend, or for a mount.
#[derive(Debug)]
pub enum AggregateEntry<E> {
    Backend(E),
    Mount(AggregateDirEntry),
}

/// What a listing needs: the backend to ask, where one serves the path,
/// and the entries for the mounts below the collection.
#[derive(Debug)]
pub struct Listing {
    pub route: Option<Route>,
    pub mounts: Vec<AggregateDirEntry>,
}

/// The route of a listing as plain values: none where no backend serves
/// the path.
pub open spec fn listing_route(prefixes: Seq<Seq<char>>, path: Seq<char>) -> Option<RouteView> {
    match route_of(prefixes, path) {
        Ok(route) => Some(route),
        Err(_) => None,
    }
}

/// The view of an optional route.
pub open spec fn opt_route_view(r: Option<Route>) -> Option<RouteView> {
    match r {
        Some(route) => Some(route@),
        None => None,
    }
}

/// How the record of a path is found.
#[derive(Debug)]
pub enum MetadataPlan {
    /// The root of the tree: the record of a collection made of mounts.
    Virtual(AggregateMetaData),
    /// Any other path: the backend tells.
    Route(Route),
}

/// A move or a copy: the backend of the source and both paths in it.
#[derive(Debug)]
pub struct Transfer {
    pub backend: usize,
    pub from: String,
    pub to: String,
}

/// A transfer as plain values.
pub struct TransferView {
    pub backend: usize,
    pub from: Seq<char>,
    pub to: Seq<char>,
}

impl View for Transfer {
    type V = TransferView;

    open spec fn view(&self) -> TransferView {
        TransferView { backend: self.backend, from: self.from@, to: self.to@ }
    }
}

/// The transfer from `from` to `to`: both must be routed; the backend of
/// the source does the work.
pub open spec fn transfer_of(prefixes: Seq<Seq<char>>, from: Seq<char>, to: Seq<char>) -> Result<
    TransferView,
    FsError,
> {
    match route_of(prefixes, from) {
        Err(e) => Err(e),
        Ok(source) => match route_of(prefixes, to) {
            Err(e) => Err(e),
            Ok(target) => Ok(
                TransferView { backend: source.backend, from: source.path, to: target.path },
            ),
        },
    }
}

/// The view of a transfer, or of the error in its place.
pub open spec fn transfer_result_view(r: Result<Transfer, FsError>) -> Result<
    TransferView,
    FsError,
> {
    match r {
        Ok(t) => Ok(t@),
        Err(e) => Err(e),
    }
}

/// The result of two steps of which the second is taken whatever the
/// first gave: the first error counts.
pub open spec fn both(first: Result<(), FsError>, second: Result<(), FsError>) -> Result<
    (),
    FsError,
> {
    match first {
        Ok(_) => second,
        Err(e) => Err(e),
    }
}

/// The views of a sequence of patches.
pub open spec fn patches_view(patches: Seq<(bool, DavProp)>) -> Seq<(bool, PropView)> {
    patches.map_values(|p: (bool, DavProp)| (p.0, p.1@))
}

/// The views of a sequence of answers to patches.
pub open spec fn answers_view(answers: Seq<(u16, DavProp)>) -> Seq<(u16, PropView)> {
    answers.map_values(|a: (u16, DavProp)| (a.0, a.1@))
}

/// The store after the patches were applied in their order, with the
/// answers. The first patch that fails ends the call with a general
/// failure; the patches before it stay applied.
pub open spec fn patch_all(s: PropStoreView, path: Seq<char>, patches: Seq<(bool, PropView)>) -> (
    PropStoreView,
    Result<Seq<(u16, PropView)>, FsError>,
)
    decreases patches.len(),
{
    if patches.len() == 0 {
        (s, Ok(Seq::empty()))
    } else {
        let (before, answers) = patch_all(s, path, patches.drop_last());
        match answers {
            Err(e) => (before, Err(e)),
            Ok(done) => {
                let (set, p) = patches.last();
                let (after, answer) = store_patch(before, path, set, p);
                match answer {
                    Ok(answer) => (after, Ok(done.push(answer))),
                    Err(_) => (after, Err(FsError::GeneralFailure)),
                }
            },
        }
    }
}

/// The view of the answers, or of the error in their place.
pub open spec fn answers_result_view(r: Result<Vec<(u16, DavProp)>, FsError>) -> Result<
    Seq<(u16, PropView)>,
    FsError,
> {
    match r {
        Ok(v) => Ok(answers_view(v@)),
        Err(e) => Err(e),
    }
}

/// Why a backend could not be mounted.
#[derive(Clone, Copy, Debug, PartialEq, Eq, Structural)]
pub enum AggregateError {
    /// A backend is mounted at the prefix already.
    RouteExists,
}

/// The mount table with the property store.
pub struct Aggregate<B> {
    filesystems: Vec<(String, B)>,
    props: PropStore,
}

/// The prefixes of a mount table, in the order of mounting.
pub open spec fn prefixes_of<B>(filesystems: Seq<(String, B)>) -> Seq<Seq<char>> {
    filesystems.map_values(|f: (String, B)| f.0@)
}

/// The first place at which `t` stands among the prefixes.
fn find_prefix<B>(filesystems: &Vec<(String, B)>, t: &Vec<char>) -> (i: usize)
    ensures
        i == first_text(prefixes_of(filesystems@), t@),
        i <= filesystems@.len(),
{
    let ghost ts = prefixes_of(filesystems@);
    let mut i: usize = 0;
    while i < filesystems.len()
        invariant
            i <= filesystems.len(),
            ts == prefixes_of(filesystems@),
            forall|j: int| 0 <= j < i ==> ts[j] != t@,
        decreases filesystems.len() - i,
    {
        let k = chars_of(filesystems[i].0.as_str());
        if k.len() == t.len() && has_prefix(&k, t) {
            proof {
                assert(t@ =~= k@.subrange(0, t@.len() as int));
                assert(k@.subrange(0, k@.len() as int) =~= k@);
                lemma_first_text(ts, t@, i as int);
            }
            return i;
        }
        proof {
            if k@ == t@ {
                assert(k@.subrange(0, k@.len() as int) =~= k@);
            }
        }
        i += 1;
    }
    proof {
        lemma_first_text(ts, t@, i as int);
    }
    i
}

/// The request path without the slash that marks a collection.
fn stem_of(route: &Vec<char>) -> (r: Vec<char>)
    ensures
        r@ == stem(route@),
{
    let n = if route.len() > 1 && route[route.len() - 1] == '/' {
        route.len() - 1
    } else {
        route.len()
    };
    let mut r: Vec<char> = Vec::new();
    push_range(&mut r, route, 0, n);
    assert(r@ =~= stem(route@));
    r
}

/// The ancestor of `p` that ends at `end`.
fn ancestor_of(p: &Vec<char>, end: usize) -> (r: Vec<char>)
    requires
        end <= p.len(),
    ensures
        r@ == ancestor_at(p@, end as int),
{
    let mut r: Vec<char> = Vec::new();
    if end == 0 && p.len() > 0 {
        r.push('/');
        assert(r@ =~= root());
    } else {
        push_range(&mut r, p, 0, end);
        assert(r@ =~= p@.take(end as int));
    }
    r
}

/// The path for the backend mounted at `mount`.
fn relative_of(route: &Vec<char>, p: &Vec<char>, mount: &Vec<char>) -> (r: String)
    requires
        p@ == stem(route@),
    ensures
        r@ == relative_path(route@, mount@),
{
    let mut rest: Vec<char> = Vec::new();
    if mount.len() >= p.len() {
    } else if mount.len() == 1 && mount[0] == '/' {
        assert(mount@ =~= root());
        push_range(&mut rest, p, 1, p.len());
        assert(rest@ =~= p@.skip(1));
    } else {
        assert(mount@ != root()) by {
            if mount@ == root() {
                assert(mount@.len() == 1 && mount@[0] == '/');
            }
        }
        push_range(&mut rest, p, mount.len() + 1, p.len());
        assert(rest@ =~= p@.skip(mount@.len() as int + 1));
    }
    assert(rest@ =~= remainder(p@, mount@));
    let text = string_of(&rest);
    let encoded = encode_bytes(text.as_str().as_bytes());
    let mut path = String::new();
    path.push('/');
    let e = chars_of(encoded.as_str());
    let mut i: usize = 0;
    let ghost start = path@;
    assert(start =~= root());
    while i < e.len()
        invariant
            i <= e.len(),
            path@ == start + e@.take(i as int),
        decreases e.len() - i,
    {
        path.push(e[i]);
        i += 1;
        assert(path@ =~= start + e@.take(i as int));
    }
    assert(e@.take(e@.len() as int) =~= e@);
    let collection = route.len() > 0 && route[route.len() - 1] == '/';
    let slash_at_end = e.len() == 0 || e[e.len() - 1] == '/';
    proof {
        assert(ends_with_char(path@, '/') == slash_at_end) by {
            if e@.len() > 0 {
                assert(path@.last() == e@.last());
            }
        }
    }
    if collection && !slash_at_end {
        path.push('/');
        assert(path@ =~= root() + e@ + root());
    }
    path
}

/// Whether `c` is among `kids`.
fn has_text(kids: &Vec<Vec<char>>, c: &Vec<char>) -> (r: bool)
    ensures
        r == kids@.map_values(|k: Vec<char>| k@).contains(c@),
{
    let ghost ts = kids@.map_values(|k: Vec<char>| k@);
    let mut i: usize = 0;
    while i < kids.len()
        invariant
            i <= kids.len(),
            ts == kids@.map_values(|k: Vec<char>| k@),
            forall|j: int| 0 <= j < i ==> ts[j] != c@,
        decreases kids.len() - i,
    {
        let k = &kids[i];
        if k.len() == c.len() && has_prefix(k, c) {
            proof {
                assert(c@ =~= k@.subrange(0, c@.len() as int));
                assert(k@.subrange(0, k@.len() as int) =~= k@);
                assert(ts[i as int] == c@);
            }
            return true;
        }
        proof {
            if k@ == c@ {
                assert(k@.subrange(0, k@.len() as int) =~= k@);
            }
        }
        i += 1;
    }
    false
}

/// The collection whose children a listing of `level` shows.
fn level_dir_of(level: &Vec<char>) -> (r: Vec<char>)
    ensures
        r@ == level_dir(level@),
{
    if level.len() > 0 && level[level.len() - 1] == '/' {
        stem_of(level)
    } else {
        let mut n: usize = level.len();
        assert(level@.take(level@.len() as int) =~= level@);
        while n > 0 && level[n - 1] != '/'
            invariant
                n <= level.len(),
                last_slash(level@) == last_slash(level@.take(n as int)),
            decreases n,
        {
            assert(level@.take(n as int).drop_last() =~= level@.take(n - 1));
            n -= 1;
        }
        proof {
            assert(level@.take(level@.len() as int) =~= level@);
        }
        let mut r: Vec<char> = Vec::new();
        if n <= 1 {
            assert(last_slash(level@) <= 0) by {
                if n == 1 {
                    assert(level@.take(1).last() == '/');
                }
            }
            r.push('/');
            assert(r@ =~= root());
        } else {
            assert(level@.take(n as int).last() == '/');
            push_range(&mut r, level, 0, n - 1);
            assert(r@ =~= level@.take(n - 1));
        }
        r
    }
}

/// The child of `dir` on the way to `prefix`, if there is one.
fn child_for(prefix: &Vec<char>, dir: &Vec<char>) -> (r: Option<Vec<char>>)
    ensures
        match child_of(prefix@, dir@) {
            Some(c) => r is Some && r->Some_0@ == c,
            None => r is None,
        },
{
    let is_root = dir.len() == 1 && dir[0] == '/';
    proof {
        if is_root {
            assert(dir@ =~= root());
        } else if dir@ == root() {
            assert(dir@.len() == 1 && dir@[0] == '/');
        }
    }
    let size = prefix.len();
    let start: usize = if is_root {
        1
    } else if dir.len() < size {
        dir.len() + 1
    } else {
        return None;
    };
    let below = if is_root {
        prefix.len() > 1 && prefix[0] == '/'
    } else {
        prefix.len() > start && has_prefix(prefix, dir) && prefix[dir.len()] == '/'
    };
    if !below {
        return None;
    }
    let mut end: usize = start;
    while end < prefix.len() && prefix[end] != '/'
        invariant
            start <= end <= prefix.len(),
            segment_end(prefix@, start as int) == segment_end(prefix@, end as int),
        decreases prefix.len() - end,
    {
        end += 1;
    }
    if end > start {
        let mut c: Vec<char> = Vec::new();
        push_range(&mut c, prefix, 0, end);
        assert(c@ =~= prefix@.take(end as int));
        Some(c)
    } else {
        None
    }
}

impl<B> Aggregate<B> {
    /// The prefixes at which backends are mounted, in the order of
    /// mounting.
    pub closed spec fn prefixes(&self) -> Seq<Seq<char>> {
        prefixes_of(self.filesystems@)
    }

    /// The mounted backends, in the order of mounting.
    pub closed spec fn backends(&self) -> Seq<B> {
        self.filesystems@.map_values(|f: (String, B)| f.1)
    }

    /// The property store.
    pub closed spec fn props(&self) -> PropStoreView {
        self.props@
    }

    /// No prefix is mounted twice.
    pub open spec fn prefixes_distinct(&self) -> bool {
        forall|i: int, j: int|
            0 <= i < j < self.prefixes().len() ==> self.prefixes()[i] != self.prefixes()[j]
    }

    /// A table without mounts that keeps its properties in `props`.
    pub fn new(props: PropStore) -> (r: Self)
        ensures
            r.prefixes() == Seq::<Seq<char>>::empty(),
            r.backends() == Seq::<B>::empty(),
            r.props() == props@,
            r.prefixes_distinct(),
    {
        let r = Aggregate { filesystems: Vec::new(), props };
        assert(r.prefixes() =~= Seq::empty());
        assert(r.backends() =~= Seq::empty());
        r
    }

    /// Mounts `fs` at `route`. A prefix can be mounted once only.
    pub fn add_route(&mut self, route: &str, fs: B) -> (r: Result<(), AggregateError>)
        ensures
            final(self).props() == old(self).props(),
            is_mounted(old(self).prefixes(), route@) ==> r == Err::<(), AggregateError>(
                AggregateError::RouteExists,
            ),
            is_mounted(old(self).prefixes(), route@) ==> final(self).prefixes() == old(
                self
            ).prefixes(),
            is_mounted(old(self).prefixes(), route@) ==> final(self).backends() == old(
                self
            ).backends(),
            !is_mounted(old(self).prefixes(), route@) ==> r == Ok::<(), AggregateError>(()),
            !is_mounted(old(self).prefixes(), route@) ==> final(self).prefixes() == old(
                self
            ).prefixes().push(route@),
            !is_mounted(old(self).prefixes(), route@) ==> final(self).backends() == old(
                self
            ).backends().push(fs),
            old(self).prefixes_distinct() ==> final(self).prefixes_distinct(),
    {
        let t = chars_of(route);
        let i = find_prefix(&self.filesystems, &t);
        if i < self.filesystems.len() {
            return Err(AggregateError::RouteExists);
        }
        proof {
            lemma_first_text_range(self.prefixes(), route@);
        }
        let ghost before = self.prefixes();
        let ghost backends = self.backends();
        self.filesystems.push((copy_text(route), fs));
        assert(self.prefixes() =~= before.push(route@));
        assert(self.backends() =~= backends.push(fs));
        Ok(())
    }

    /// The property store, to be written to its file where it has one.
    pub fn props_store(&self) -> (r: &PropStore)
        ensures
            r@ == self.props(),
    {
        &self.props
    }

    /// The number of mounts.
    pub fn len(&self) -> (n: usize)
        ensures
            n == self.prefixes().len(),
    {
        self.filesystems.len()
    }

    /// The backend of a route.
    pub fn backend(&self, index: usize) -> (r: &B)
        requires
            index < self.backends().len(),
        ensures
            *r == self.backends()[index as int],
    {
        &self.filesystems[index].1
    }

    /// Routes a request path: the ancestors of the path are tried from
    /// the path itself up to the root, and the first that is a mount
    /// prefix decides.
    pub fn find_route(&self, route: &str) -> (r: Result<Route, FsError>)
        ensures
            route_result_view(r) == route_of(self.prefixes(), route@),
            r is Ok ==> r->Ok_0.backend < self.backends().len(),
    {
        let text = chars_of(route);
        let p = stem_of(&text);
        let mut end: usize = p.len();
        loop
            invariant
                end <= p.len(),
                p@ == stem(text@),
                text@ == route@,
                find_cut(self.prefixes(), p@, p@.len() as int) == find_cut(
                    self.prefixes(),
                    p@,
                    end as int,
                ),
            decreases end,
        {
            if end == p.len() || p[end] == '/' {
                let mount = ancestor_of(&p, end);
                let i = find_prefix(&self.filesystems, &mount);
                if i < self.filesystems.len() {
                    let path = relative_of(&text, &p, &mount);
                    return Ok(Route { backend: i, path });
                }
            }
            if end == 0 {
                assert(find_cut(self.prefixes(), p@, -1) == -1);
                return Err(FsError::NotFound);
            }
            end -= 1;
        }
    }

    /// The children of the listed collection on the way to the mount
    /// prefixes below it, each once, in the order of mounting.
    pub fn find_routes_at_level(&self, level: &str) -> (r: Result<Vec<String>, FsError>)
        ensures
            r is Ok,
            texts_view(r->Ok_0@) == children(
                self.prefixes(),
                level_dir(level@),
            ),
    {
        let kids = self.kids(level);
        let mut r: Vec<String> = Vec::new();
        let ghost ts = kids@.map_values(|k: Vec<char>| k@);
        let mut i: usize = 0;
        assert(texts_view(r@) =~= ts.take(0));
        while i < kids.len()
            invariant
                i <= kids.len(),
                ts == kids@.map_values(|k: Vec<char>| k@),
                texts_view(r@) == ts.take(i as int),
            decreases kids.len() - i,
        {
            let s = string_of(&kids[i]);
            let ghost before = texts_view(r@);
            r.push(s);
            assert(texts_view(r@) =~= before.push(s@));
            assert(texts_view(r@) =~= ts.take(i + 1));
            i += 1;
        }
        assert(ts.take(ts.len() as int) =~= ts);
        Ok(r)
    }

    fn kids(&self, level: &str) -> (r: Vec<Vec<char>>)
        ensures
            r@.map_values(|k: Vec<char>| k@) == children(self.prefixes(), level_dir(level@)),
    {
        let dir = level_dir_of(&chars_of(level));
        let mut kids: Vec<Vec<char>> = Vec::new();
        let ghost ts = self.prefixes();
        let mut i: usize = 0;
        assert(ts.take(0) =~= Seq::empty());
        assert(kids@.map_values(|k: Vec<char>| k@) =~= Seq::empty());
        while i < self.filesystems.len()
            invariant
                i <= self.filesystems.len(),
                ts == self.prefixes(),
                dir@ == level_dir(level@),
                kids@.map_values(|k: Vec<char>| k@) == children(ts.take(i as int), dir@),
            decreases self.filesystems.len() - i,
        {
            let prefix = chars_of(self.filesystems[i].0.as_str());
            proof {
                assert(ts.take(i + 1).drop_last() =~= ts.take(i as int));
                assert(ts.take(i + 1).last() == prefix@);
            }
            match child_for(&prefix, &dir) {
                Some(c) => {
                    if !has_text(&kids, &c) {
                        let ghost before = kids@.map_values(|k: Vec<char>| k@);
                        kids.push(c);
                        assert(kids@.map_values(|k: Vec<char>| k@) =~= before.push(c@));
                    }
                },
                None => {},
            }
            i += 1;
        }
        assert(ts.take(ts.len() as int) =~= ts);
        kids
    }

    /// What a listing of `path` needs: the route to the backend that
    /// serves the path, where there is one, and an entry for each child
    /// on the way to a mount below the collection.
    pub fn read_dir(&self, path: &str) -> (r: Result<Listing, FsError>)
        ensures
            r is Ok,
            opt_route_view(r->Ok_0.route) == listing_route(self.prefixes(), path@),
            entry_names(r->Ok_0.mounts@) == child_names(
                children(self.prefixes(), level_dir(path@)),
                level_dir(path@),
            ),
    {
        let dir = level_dir_of(&chars_of(path));
        let kids = self.kids(path);
        let ghost ts = kids@.map_values(|k: Vec<char>| k@);
        let at_root = dir.len() == 1 && dir[0] == '/';
        proof {
            if at_root {
                assert(dir@ =~= root());
            } else if dir@ == root() {
                assert(dir@.len() == 1 && dir@[0] == '/');
            }
            lemma_children_shape(self.prefixes(), dir@);
        }
        let mut mounts: Vec<AggregateDirEntry> = Vec::new();
        let mut i: usize = 0;
        assert(entry_names(mounts@) =~= child_names(ts, dir@).take(0));
        while i < kids.len()
            invariant
                i <= kids.len(),
                ts == kids@.map_values(|k: Vec<char>| k@),
                ts == children(self.prefixes(), dir@),
                dir@ == level_dir(path@),
                at_root == (dir@ == root()),
                forall|j: int|
                    0 <= j < ts.len() ==> (#[trigger] ts[j]).len() > segment_start(dir@)
                        && ts[j][segment_start(dir@)] != '/',
                entry_names(mounts@) == child_names(ts, dir@).take(i as int),
            decreases kids.len() - i,
        {
            let kid = &kids[i];
            assert(kid@ == ts[i as int]);
            assert(ts[i as int].len() > segment_start(dir@));
            let size = kid.len();
            let start: usize = if at_root {
                1
            } else {
                dir.len() + 1
            };
            let mut name: Vec<char> = Vec::new();
            push_range(&mut name, kid, start, kid.len());
            name.push('/');
            assert(name@ =~= child_name(kid@, dir@));
            assert(name@[0] == kid@[start as int]);
            let entry = AggregateDirEntry {
                path: NormalizedPath::from_text(string_of(&name).as_str()),
            };
            let ghost before = entry_names(mounts@);
            mounts.push(entry);
            assert(entry_names(mounts@) =~= before.push(entry.path@));
            assert(entry_names(mounts@) =~= child_names(ts, dir@).take(i + 1));
            i += 1;
        }
        assert(child_names(ts, dir@).take(ts.len() as int) =~= child_names(ts, dir@));
        let route = match self.find_route(path) {
            Ok(route) => Some(route),
            Err(_) => None,
        };
        Ok(Listing { route, mounts })
    }

    /// How the record of `path` is found: the root of the tree is a
    /// collection made of mounts; any other path is routed.
    pub fn metadata(&self, path: &str) -> (r: Result<MetadataPlan, FsError>)
        ensures
            normalize(path@) == root() ==> r is Ok && r->Ok_0 is Virtual
                && r->Ok_0->Virtual_0.path@ == root(),
            normalize(path@) != root() ==> match route_of(self.prefixes(), path@) {
                Ok(route) => r is Ok && r->Ok_0 is Route && r->Ok_0->Route_0@ == route,
                Err(e) => r is Err && r->Err_0 == e,
            },
    {
        let p = NormalizedPath::from_text(path);
        if p.is_root() {
            return Ok(MetadataPlan::Virtual(AggregateMetaData { path: p }));
        }
        match self.find_route(path) {
            Ok(route) => Ok(MetadataPlan::Route(route)),
            Err(e) => Err(e),
        }
    }

    /// The backend to open `path` in.
    pub fn open(&self, path: &str) -> (r: Result<Route, FsError>)
        ensures
            route_result_view(r) == route_of(self.prefixes(), path@),
            r is Ok ==> r->Ok_0.backend < self.backends().len(),
    {
        self.find_route(path)
    }

    /// The backend to create the collection `path` in.
    pub fn create_dir(&self, path: &str) -> (r: Result<Route, FsError>)
        ensures
            route_result_view(r) == route_of(self.prefixes(), path@),
            r is Ok ==> r->Ok_0.backend < self.backends().len(),
    {
        self.find_route(path)
    }

    /// The backend to remove the resource `path` from. Once the backend
    /// is done, `removed_file` lets the properties follow.
    pub fn remove_file(&self, path: &str) -> (r: Result<Route, FsError>)
        ensures
            route_result_view(r) == route_of(self.prefixes(), path@),
            r is Ok ==> r->Ok_0.backend < self.backends().len(),
    {
        self.find_route(path)
    }

    /// The backend to remove the collection `path` from. Once the
    /// backend is done, `removed_dir` lets the properties follow.
    pub fn remove_dir(&self, path: &str) -> (r: Result<Route, FsError>)
        ensures
            route_result_view(r) == route_of(self.prefixes(), path@),
            r is Ok ==> r->Ok_0.backend < self.backends().len(),
    {
        self.find_route(path)
    }

    fn transfer(&self, from: &str, to: &str) -> (r: Result<Transfer, FsError>)
        ensures
            transfer_result_view(r) == transfer_of(self.prefixes(), from@, to@),
            r is Ok ==> r->Ok_0.backend < self.backends().len(),
    {
        let source = match self.find_route(from) {
            Ok(route) => route,
            Err(e) => {
                return Err(e);
            },
        };
        let target = match self.find_route(to) {
            Ok(route) => route,
            Err(e) => {
                return Err(e);
            },
        };
        Ok(Transfer { backend: source.backend, from: source.path, to: target.path })
    }

    /// The backend that moves `from` to `to`, with both paths in it. Once
    /// the backend is done, `renamed` lets the properties follow.
    pub fn rename(&self, from: &str, to: &str) -> (r: Result<Transfer, FsError>)
        ensures
            transfer_result_view(r) == transfer_of(self.prefixes(), from@, to@),
            r is Ok ==> r->Ok_0.backend < self.backends().len(),
    {
        self.transfer(from, to)
    }

    /// The backend that copies `from` to `to`, with both paths in it.
    /// Once the backend is done, `copied` lets the properties follow.
    pub fn copy(&self, from: &str, to: &str) -> (r: Result<Transfer, FsError>)
        ensures
            transfer_result_view(r) == transfer_of(self.prefixes(), from@, to@),
            r is Ok ==> r->Ok_0.backend < self.backends().len(),
    {
        self.transfer(from, to)
    }

    /// After the backend was asked to remove the resource `path`, with
    /// the result `done`: the properties of the path are forgotten
    /// whatever the backend said, and the first error counts. Nothing is
    /// undone where the second step fails.
    pub fn removed_file(&mut self, path: &str, done: Result<(), FsError>) -> (r: Result<
        (),
        FsError,
    >)
        ensures
            final(self).prefixes() == old(self).prefixes(),
            final(self).backends() == old(self).backends(),
            (final(self).props(), r) == (
                store_remove_file(old(self).props(), normalize(path@)).0,
                both(done, store_remove_file(old(self).props(), normalize(path@)).1),
            ),
    {
        let p = NormalizedPath::from_text(path);
        let second = self.props.remove_file(&p);
        match done {
            Ok(_) => second,
            Err(e) => Err(e),
        }
    }

    /// After the backend was asked to remove the collection `path`: as
    /// `removed_file`.
    pub fn removed_dir(&mut self, path: &str, done: Result<(), FsError>) -> (r: Result<
        (),
        FsError,
    >)
        ensures
            final(self).prefixes() == old(self).prefixes(),
            final(self).backends() == old(self).backends(),
            (final(self).props(), r) == (
                store_remove_dir(old(self).props(), normalize(path@)).0,
                both(done, store_remove_dir(old(self).props(), normalize(path@)).1),
            ),
    {
        let p = NormalizedPath::from_text(path);
        let second = self.props.remove_dir(&p);
        match done {
            Ok(_) => second,
            Err(e) => Err(e),
        }
    }

    /// After the backend was asked to move `from` to `to`, with the
    /// result `done`: the properties follow whatever the backend said,
    /// and the first error counts.
    pub fn renamed(&mut self, from: &str, to: &str, done: Result<(), FsError>) -> (r: Result<
        (),
        FsError,
    >)
        ensures
            final(self).prefixes() == old(self).prefixes(),
            final(self).backends() == old(self).backends(),
            (final(self).props(), r) == (
                store_rename(old(self).props(), normalize(from@), normalize(to@)).0,
                both(done, store_rename(old(self).props(), normalize(from@), normalize(to@)).1),
            ),
    {
        let f = NormalizedPath::from_text(from);
        let t = NormalizedPath::from_text(to);
        let second = self.props.rename(&f, &t);
        match done {
            Ok(_) => second,
            Err(e) => Err(e),
        }
    }

    /// After the backend was asked to copy `from` to `to`, with the
    /// result `done`: the properties follow whatever the backend said,
    /// and the first error counts.
    pub fn copied(&mut self, from: &str, to: &str, done: Result<(), FsError>) -> (r: Result<
        (),
        FsError,
    >)
        ensures
            final(self).prefixes() == old(self).prefixes(),
            final(self).backends() == old(self).backends(),
            (final(self).props(), r) == (
                store_copy(old(self).props(), normalize(from@), normalize(to@)).0,
                both(done, store_copy(old(self).props(), normalize(from@), normalize(to@)).1),
            ),
    {
        let f = NormalizedPath::from_text(from);
        let t = NormalizedPath::from_text(to);
        let second = self.props.copy(&f, &t);
        match done {
            Ok(_) => second,
            Err(e) => Err(e),
        }
    }

    /// Whether the property store holds anything for the path or below
    /// it.
    pub fn have_props(&self, path: &str) -> (r: bool)
        ensures
            r == store_have(self.props(), normalize(path@)),
    {
        let p = NormalizedPath::from_text(path);
        self.props.have_props(&p)
    }

    /// Applies the patches to the properties of `path`, in their order.
    pub fn patch_props(&mut self, path: &str, patch: Vec<(bool, DavProp)>) -> (r: Result<
        Vec<(u16, DavProp)>,
        FsError,
    >)
        ensures
            final(self).prefixes() == old(self).prefixes(),
            final(self).backends() == old(self).backends(),
            (final(self).props(), answers_result_view(r)) == patch_all(
                old(self).props(),
                normalize(path@),
                patches_view(patch@),
            ),
    {
        let p = NormalizedPath::from_text(path);
        let ghost all = patches_view(patch@);
        let ghost start = self.props();
        let mut answers: Vec<(u16, DavProp)> = Vec::new();
        let mut i: usize = 0;
        assert(all.take(0) =~= Seq::empty());
        assert(answers_view(answers@) =~= Seq::empty());
        while i < patch.len()
            invariant
                i <= patch.len(),
                all == patches_view(patch@),
                p@ == normalize(path@),
                start == old(self).props(),
                self.prefixes() == old(self).prefixes(),
                self.backends() == old(self).backends(),
                (self.props(), Ok::<Seq<(u16, PropView)>, FsError>(answers_view(answers@)))
                    == patch_all(start, p@, all.take(i as int)),
            decreases patch.len() - i,
        {
            let (set, prop) = (patch[i].0, patch[i].1.clone());
            proof {
                assert(all.take(i + 1).drop_last() =~= all.take(i as int));
                assert(all.take(i + 1).last() == (set, prop@));
            }
            let ghost before_store = self.props();
            let ghost before_all = patch_all(start, p@, all.take(i as int));
            match self.props.patch_prop(&p, set, prop) {
                Ok(answer) => {
                    let ghost before = answers_view(answers@);
                    answers.push(answer);
                    assert(answers_view(answers@) =~= before.push((answer.0, answer.1@)));
                },
                Err(_) => {
                    proof {
                        assert(before_all.0 == before_store);
                        assert(store_patch(before_store, p@, set, prop@).1 is Err);
                        assert(patch_all(start, p@, all.take(i + 1)) == (
                            self.props(),
                            Err::<Seq<(u16, PropView)>, FsError>(FsError::GeneralFailure),
                        ));
                        lemma_patch_all_stays_failed(start, p@, all, i + 1);
                    }
                    return Err(FsError::GeneralFailure);
                },
            }
            i += 1;
        }
        assert(all.take(all.len() as int) =~= all);
        Ok(answers)
    }

    /// The value of a property of `path`.
    pub fn get_prop(&self, path: &str, prop: &DavProp) -> (r: Result<Vec<u8>, FsError>)
        ensures
            value_result_view(r) == store_value(self.props(), normalize(path@), prop@),
    {
        let p = NormalizedPath::from_text(path);
        self.props.get_prop(&p, prop)
    }

    /// The properties of `path` and of what lies below it.
    pub fn get_props(&self, path: &str, do_content: bool) -> (r: Result<Vec<DavProp>, FsError>)
        ensures
            list_result_view(r) == store_list(self.props(), normalize(path@), do_content),
    {
        let p = NormalizedPath::from_text(path);
        self.props.get_props(&p, do_content)
    }
}

/// Once the patches up to `n` have failed, the whole call has failed in
/// the same way and with the same store.
pub proof fn lemma_patch_all_stays_failed(
    s: PropStoreView,
    path: Seq<char>,
    patches: Seq<(bool, PropView)>,
    n: int,
)
    requires
        0 <= n <= patches.len(),
        patch_all(s, path, patches.take(n)).1 is Err,
    ensures
        patch_all(s, path, patches) == patch_all(s, path, patches.take(n)),
    decreases patches.len() - n,
{
    if n < patches.len() {
        assert(patches.take(n + 1).drop_last() =~= patches.take(n));
        lemma_patch_all_stays_failed(s, path, patches, n + 1);
    } else {
        assert(patches.take(n) =~= patches);
    }
}

/// The entries that a backend listed, each as an entry of the aggregator;
/// none where the backend could not list.
pub open spec fn backend_entries<E>(physical: Result<Vec<E>, FsError>) -> Seq<AggregateEntry<E>> {
    match physical {
        Ok(entries) => entries@.map_values(|e: E| AggregateEntry::Backend(e)),
        Err(_) => Seq::empty(),
    }
}

/// The entries for the mounts, each as an entry of the aggregator.
pub open spec fn mount_entries<E>(mounts: Seq<AggregateDirEntry>) -> Seq<AggregateEntry<E>> {
    mounts.map_values(|m: AggregateDirEntry| AggregateEntry::<E>::Mount(m))
}

/// The listing of a collection: the entries of the backend first, in
/// their order, then the entries for the mounts. A backend that could not
/// list adds nothing.
pub fn merge_entries<E>(physical: Result<Vec<E>, FsError>, mounts: Vec<AggregateDirEntry>) -> (r:
    Vec<AggregateEntry<E>>)
    ensures
        r@ == backend_entries(physical) + mount_entries::<E>(mounts@),
{
    let mut r: Vec<AggregateEntry<E>> = Vec::new();
    let ghost first = backend_entries(physical);
    match physical {
        Ok(entries) => {
            let mut entries = entries;
            let ghost all = entries@;
            while entries.len() > 0
                invariant
                    first == all.map_values(|e: E| AggregateEntry::Backend(e)),
                    entries@.len() <= all.len(),
                    entries@ == all.skip(all.len() - entries@.len()),
                    r@ == first.take(all.len() - entries@.len()),
                decreases entries@.len(),
            {
                let ghost k = all.len() - entries@.len();
                let ghost before = r@;
                let e = entries.remove(0);
                assert(e == all[k]);
                r.push(AggregateEntry::Backend(e));
                assert(r@ =~= first.take(k + 1));
                assert(entries@ =~= all.skip(k + 1));
            }
            assert(first.take(all.len() as int) =~= first);
        },
        Err(_) => {},
    }
    let mut mounts = mounts;
    let ghost ms = mounts@;
    let ghost second = mount_entries::<E>(ms);
    assert(r@ =~= first + second.take(0));
    while mounts.len() > 0
        invariant
            second == mount_entries::<E>(ms),
            mounts@.len() <= ms.len(),
            mounts@ == ms.skip(ms.len() - mounts@.len()),
            r@ == first + second.take(ms.len() - mounts@.len()),
        decreases mounts@.len(),
    {
        let ghost k = ms.len() - mounts@.len();
        let m = mounts.remove(0);
        assert(m == ms[k]);
        r.push(AggregateEntry::Mount(m));
        assert(r@ =~= first + second.take(k + 1));
        assert(mounts@ =~= ms.skip(k + 1));
    }
    assert(second.take(ms.len() as int) =~= second);
    r
}

/// Collects the mounts of an aggregator before it is built.
pub struct AggregateBuilder<B> {
    routes: Vec<(String, B)>,
    props: PropStore,
}

/// The mount table after the routes were mounted in their order; `Err`
/// with the table as it is when a prefix comes a second time.
pub open spec fn mounted_all(routes: Seq<Seq<char>>) -> Result<Seq<Seq<char>>, AggregateError>
    decreases routes.len(),
{
    if routes.len() == 0 {
        Ok(Seq::empty())
    } else {
        match mounted_all(routes.drop_last()) {
            Err(e) => Err(e),
            Ok(done) => if is_mounted(done, routes.last()) {
                Err(AggregateError::RouteExists)
            } else {
                Ok(done.push(routes.last()))
            },
        }
    }
}

impl<B> AggregateBuilder<B> {
    /// The routes that were added, in their order.
    pub closed spec fn routes(&self) -> Seq<Seq<char>> {
        prefixes_of(self.routes@)
    }

    /// The backends of the routes that were added, in their order.
    pub closed spec fn backends(&self) -> Seq<B> {
        self.routes@.map_values(|f: (String, B)| f.1)
    }

    /// The property store that the aggregator will use.
    pub closed spec fn props(&self) -> PropStoreView {
        self.props@
    }

    /// A builder without routes, with a property store in memory.
    pub fn new() -> (r: Self)
        ensures
            r.routes() == Seq::<Seq<char>>::empty(),
            r.backends() == Seq::<B>::empty(),
            r.props() == PropStoreView::Memory(Seq::empty()),
    {
        let r = AggregateBuilder { routes: Vec::new(), props: PropStore::Memory(Memory::new()) };
        assert(r.routes() =~= Seq::empty());
        assert(r.backends() =~= Seq::empty());
        r
    }

    /// Adds a route: the prefix with its backend, behind those that were
    /// added before.
    pub fn add_route(self, route: &str, fs: B) -> (r: Self)
        ensures
            r.routes() == self.routes().push(route@),
            r.backends() == self.backends().push(fs),
            r.props() == self.props(),
    {
        let mut routes = self.routes;
        let ghost before = prefixes_of(routes@);
        let ghost behind = routes@.map_values(|f: (String, B)| f.1);
        routes.push((copy_text(route), fs));
        assert(prefixes_of(routes@) =~= before.push(route@));
        assert(routes@.map_values(|f: (String, B)| f.1) =~= behind.push(fs));
        AggregateBuilder { routes, props: self.props }
    }

    /// Sets the property store.
    pub fn set_props_storage(self, props: PropStore) -> (r: Self)
        ensures
            r.routes() == self.routes(),
            r.backends() == self.backends(),
            r.props() == props@,
    {
        AggregateBuilder { routes: self.routes, props }
    }

    /// Builds the aggregator: the routes are mounted in their order,
    /// each prefix with the backend that was added with it. A prefix that
    /// comes a second time fails the build.
    pub fn build(self) -> (r: Result<Aggregate<B>, AggregateError>)
        ensures
            match mounted_all(self.routes()) {
                Ok(prefixes) => r is Ok && r->Ok_0.prefixes() == prefixes && prefixes
                    == self.routes() && r->Ok_0.backends() == self.backends() && r->Ok_0.props()
                    == self.props() && r->Ok_0.prefixes_distinct(),
                Err(e) => r is Err && r->Err_0 == e,
            },
    {
        let ghost all = self.routes();
        let ghost backs = self.backends();
        let mut agg: Aggregate<B> = Aggregate::new(self.props);
        let mut routes = self.routes;
        let ghost rs = routes@;
        assert(all.take(0) =~= Seq::empty());
        while routes.len() > 0
            invariant
                all == prefixes_of(rs),
                all == self.routes(),
                routes@.len() <= rs.len(),
                routes@ == rs.skip(rs.len() - routes@.len()),
                mounted_all(all.take(rs.len() - routes@.len())) == Ok::<
                    Seq<Seq<char>>,
                    AggregateError,
                >(agg.prefixes()),
                backs == rs.map_values(|f: (String, B)| f.1),
                agg.prefixes() == all.take(rs.len() - routes@.len()),
                agg.backends() == backs.take(rs.len() - routes@.len()),
                agg.props() == self.props(),
                agg.prefixes_distinct(),
            decreases routes@.len(),
        {
            let ghost k = rs.len() - routes@.len();
            let (route, fs) = routes.remove(0);
            proof {
                assert(route@ == all[k]);
                assert(routes@ =~= rs.skip(k + 1));
                assert(all.take(k + 1).drop_last() =~= all.take(k));
                assert(all.take(k + 1).last() == all[k]);
            }
            let ghost mounted = agg.prefixes();
            let ghost held = agg.backends();
            proof {
                assert(fs == backs[k]);
            }
            match agg.add_route(route.as_str(), fs) {
                Ok(_) => {
                    assert(!is_mounted(mounted, route@));
                    assert(all.take(k + 1) =~= all.take(k).push(all[k]));
                    assert(backs.take(k + 1) =~= backs.take(k).push(backs[k]));
                },
                Err(e) => {
                    proof {
                        assert(is_mounted(mounted, route@));
                        assert(mounted_all(all.take(k + 1)) is Err);
                        lemma_mounted_all_stays_failed(all, k + 1);
                    }
                    return Err(e);
                },
            }
        }
        assert(all.take(all.len() as int) =~= all);
        assert(backs.take(backs.len() as int) =~= backs);
        Ok(agg)
    }
}

/// Once the routes up to `n` could not be mounted, none of the longer
/// lists can.
pub proof fn lemma_mounted_all_stays_failed(routes: Seq<Seq<char>>, n: int)
    requires
        0 <= n <= routes.len(),
        mounted_all(routes.take(n)) is Err,
    ensures
        mounted_all(routes) == mounted_all(routes.take(n)),
    decreases routes.len() - n,
{
    if n < routes.len() {
        assert(routes.take(n + 1).drop_last() =~= routes.take(n));
        lemma_mounted_all_stays_failed(routes, n + 1);
    } else {
        assert(routes.take(n) =~= routes);
    }
}

} // verus!
