//! What a walk finds: the shape of the entries of a listing and of the
//! tree that a walk gathers from them.
use crate::aggregate::{lemma_segment_end, segment_end};
use crate::normalized_path::{normalize, parent_spec, root, strip_prefix_spec, trim_token_spec};
use crate::s3_backend::entries::EntryView;
use crate::s3_backend::filesystem::{
    is_bucket_root, key_targets, list_prefix, listing_targets, sentinel_key, walk_add, TreeView,
};
use crate::s3_backend::metadata::UnixTime;
use crate::s3_backend::model::{
    is_rolled_up, lemma_entry_has_target, lemma_listing_is_exact, lemma_prefix_targets,
    lemma_segment_end_is_slash, lemma_targets_of_listing, listed_keys, listed_prefixes,
    listing_pages, metadata_of, read_dir_of, rolled_prefix, StoreModel,
};
use crate::s3_backend::tree_move::below::{
    dir_below, is_dir_path, is_key, is_name, lemma_below_is_path, lemma_join_below,
    lemma_marker_key, lemma_name_is_token, lemma_parent_below,
};
use crate::s3_backend::tree_move::deep_move::{first_tree, grown, walk_from};
use crate::text::dot_dir;
use vstd::prelude::*;

verus! {

/// Every key of the store is the path of a resource.
pub open spec fn keys_are_paths(store: StoreModel) -> bool {
    forall|k: Seq<char>| #[trigger] store.objects.contains_key(k) ==> is_key(k)
}

/// The key of the object that marks the collection `seg` in `d`.
pub open spec fn marker_below(d: Seq<char>, seg: Seq<char>) -> Seq<char> {
    dir_below(d, seg) + dot_dir()
}

/// No slash stands inside a segment.
pub proof fn lemma_segment_has_no_slash(p: Seq<char>, start: int, i: int)
    requires
        0 <= start <= i < segment_end(p, start),
    ensures
        p[i] != '/',
    decreases i - start,
{
    lemma_segment_end(p, start);
    if start < i {
        lemma_segment_has_no_slash(p, start + 1, i);
    }
}

/// Every target of the keys of a page is one of the keys, stored as a
/// path.
pub proof fn lemma_key_target_is_key(keys: Seq<Seq<char>>, i: int) -> (j: int)
    requires
        0 <= i < key_targets(keys).len(),
    ensures
        0 <= j < keys.len(),
        key_targets(keys)[i] == normalize(keys[j]),
    decreases keys.len(),
{
    let rest = key_targets(keys.drop_last());
    if i < rest.len() {
        let j = lemma_key_target_is_key(keys.drop_last(), i);
        assert(keys.drop_last()[j] == keys[j]);
        j
    } else {
        keys.len() - 1
    }
}

/// The targets of the listing of the collection `d`.
pub open spec fn targets_of(store: StoreModel, d: Seq<char>) -> Seq<Seq<char>> {
    listing_targets(listing_pages(store, list_prefix(d)))
}

/// The number of targets of the listing of `d` that stand for
/// collections: they come first.
pub open spec fn rolled_count(store: StoreModel, d: Seq<char>) -> int {
    listed_prefixes(store, list_prefix(d)).to_seq().len() as int
}

/// A target of the listing of a collection that the probe finds is a
/// name right below the collection: with a slash behind it where the
/// store rolled keys up, and then a collection that is marked; else the
/// key of an object, which is a collection where the store also holds the
/// object that marks one of that name.
pub proof fn lemma_target_is_child(store: StoreModel, d: Seq<char>, now: UnixTime, i: int) -> (seg: Seq<
    char,
>)
    requires
        store.objects.dom().finite(),
        keys_are_paths(store),
        is_dir_path(d),
        0 <= i < targets_of(store, d).len(),
        metadata_of(store, targets_of(store, d)[i], now) is Ok,
    ensures
        is_name(seg),
        trim_token_spec(normalize(strip_prefix_spec(targets_of(store, d)[i], d))) == seg,
        i < rolled_count(store, d) ==> {
            &&& targets_of(store, d)[i] == dir_below(d, seg)
            &&& listed_prefixes(store, list_prefix(d)).to_seq()[i] == dir_below(d, seg)
            &&& metadata_of(store, targets_of(store, d)[i], now)->Ok_0.is_dir
            &&& store.objects.contains_key(marker_below(d, seg))
        },
        i >= rolled_count(store, d) ==> {
            &&& targets_of(store, d)[i] == d + seg
            &&& store.objects.contains_key(d + seg)
            &&& !dot_dir().is_suffix_of(d + seg)
            &&& metadata_of(store, targets_of(store, d)[i], now)->Ok_0.is_dir
                <==> store.objects.contains_key(marker_below(d, seg))
        },
{
    let prefix = list_prefix(d);
    assert(d != root());
    assert(prefix == d);
    let targets = targets_of(store, d);
    let prefixes = listed_prefixes(store, prefix).to_seq();
    let keys = listed_keys(store, prefix).to_seq();
    lemma_targets_of_listing(store, prefix);
    lemma_listing_is_exact(store, prefix);
    lemma_prefix_targets(prefixes);
    let target = targets[i];
    let n = d.len() as int;
    if i < prefixes.len() {
        let c = prefixes[i];
        assert(target == normalize(c));
        assert(prefixes.contains(c));
        assert(listed_prefixes(store, prefix).contains(c));
        let k = choose|k: Seq<char>|
            store.objects.dom().filter(|k: Seq<char>| is_rolled_up(k, prefix)).contains(k) && c
                == rolled_prefix(k, prefix);
        assert(store.objects.contains_key(k));
        assert(is_key(k));
        let end = segment_end(k, n);
        lemma_segment_end_is_slash(k, n);
        assert(k.subrange(0, n) == d);
        assert(k[n - 1] == k.subrange(0, n)[n - 1]);
        assert(k[n - 1] == '/');
        assert(n < k.len());
        if k[n] == '/' {
            assert(k[n - 1] == '/' && k[n - 1 + 1] == '/');
        }
        lemma_segment_end(k, n + 1);
        let seg = k.subrange(n, end);
        assert forall|x: int| 0 <= x < seg.len() implies seg[x] != '/' by {
            lemma_segment_has_no_slash(k, n, n + x);
        }
        assert(c =~= dir_below(d, seg)) by {
            assert(c.len() == end + 1);
            assert forall|x: int| 0 <= x < c.len() implies c[x] == dir_below(d, seg)[x] by {
                if x < n {
                    assert(k.subrange(0, n)[x] == d[x]);
                }
            }
        }
        lemma_below_is_path(d, seg);
        lemma_marker_key(c);
        lemma_name_is_token(seg);
        assert(normalize(c) == c);
        assert(!is_bucket_root(c));
        assert(!is_key(c));
        assert(c.skip(n) =~= seg + root());
        assert(d.is_prefix_of(c)) by {
            assert(c.subrange(0, n) =~= d);
        }
        seg
    } else {
        let x = lemma_key_target_is_key(keys, i - prefixes.len());
        crate::s3_backend::model::lemma_key_targets(keys);
        assert(target == key_targets(keys)[i - prefixes.len()]);
        let k = keys[x];
        assert(keys.contains(k));
        assert(listed_keys(store, prefix).contains(k));
        assert(store.objects.contains_key(k));
        assert(is_key(k));
        assert(d.is_prefix_of(k));
        assert(k.subrange(0, n) == d);
        if k.len() == n {
            assert(k =~= k.subrange(0, n));
        }
        let seg = k.skip(n);
        assert forall|y: int| 0 <= y < seg.len() implies seg[y] != '/' by {
            lemma_segment_has_no_slash(k, n, n + y);
        }
        assert(k =~= d + seg) by {
            assert forall|y: int| 0 <= y < k.len() implies k[y] == (d + seg)[y] by {
                if y < n {
                    assert(k.subrange(0, n)[y] == d[y]);
                }
            }
        }
        lemma_marker_key(k);
        lemma_name_is_token(seg);
        assert(normalize(k) == k);
        assert(target == k);
        assert(!is_bucket_root(k));
        assert(sentinel_key(k) =~= marker_below(d, seg));
        seg
    }
}

/// What the listing of a collection names is a name right below the
/// collection: a collection where the object that marks it is stored,
/// else a resource that is stored.
pub proof fn lemma_entry_is_child(store: StoreModel, d: Seq<char>, now: UnixTime, j: int) -> (seg: Seq<
    char,
>)
    requires
        store.objects.dom().finite(),
        keys_are_paths(store),
        is_dir_path(d),
        read_dir_of(store, d, now) is Ok,
        0 <= j < read_dir_of(store, d, now)->Ok_0.len(),
    ensures
        is_name(seg),
        trim_token_spec(normalize(read_dir_of(store, d, now)->Ok_0[j].name)) == seg,
        read_dir_of(store, d, now)->Ok_0[j].metadata.is_dir ==> store.objects.contains_key(
            marker_below(d, seg),
        ),
        !read_dir_of(store, d, now)->Ok_0[j].metadata.is_dir ==> store.objects.contains_key(d + seg)
            && !store.objects.contains_key(marker_below(d, seg)) && !dot_dir().is_suffix_of(
            d + seg,
        ),
{
    let i = lemma_entry_has_target(store, targets_of(store, d), d, now, j);
    lemma_target_is_child(store, d, now, i)
}

/// A pair of a walk mirrors the source below the destination: what
/// follows `from` in the first path follows `to` in the second.
pub open spec fn mirrored(from: Seq<char>, to: Seq<char>, pair: (Seq<char>, Seq<char>)) -> bool {
    from.is_prefix_of(pair.0) && pair.1 == to + pair.0.skip(from.len() as int)
}

/// One of the pairs of collections has `d` as its destination.
pub open spec fn has_dst(dirs: Seq<(Seq<char>, Seq<char>)>, d: Seq<char>) -> bool {
    exists|p: int| 0 <= p < dirs.len() && (#[trigger] dirs[p]).1 == d
}

/// A pair of collections as a walk from `from` finds it.
pub open spec fn good_dir(from: Seq<char>, to: Seq<char>, pair: (Seq<char>, Seq<char>)) -> bool {
    mirrored(from, to, pair) && is_dir_path(pair.0) && is_dir_path(pair.1)
}

/// A pair of resources as a walk from `from` finds it: the source is
/// stored and shares its name with no collection, and the collection that
/// is to hold the destination is among those of the walk.
pub open spec fn good_file(
    store: StoreModel,
    from: Seq<char>,
    to: Seq<char>,
    dirs: Seq<(Seq<char>, Seq<char>)>,
    pair: (Seq<char>, Seq<char>),
) -> bool {
    &&& mirrored(from, to, pair)
    &&& is_key(pair.0)
    &&& is_key(pair.1)
    &&& store.objects.contains_key(pair.0)
    &&& !store.objects.contains_key(pair.0 + root() + dot_dir())
    &&& has_dst(dirs, parent_spec(pair.1))
}

/// What holds of the tree of a walk from `from`, mirrored at `to`, at
/// every time of the walk.
pub open spec fn tree_inv(store: StoreModel, from: Seq<char>, to: Seq<char>, tree: TreeView) -> bool {
    &&& tree.dirs.len() > 0
    &&& tree.dirs[0] == (from, to)
    &&& forall|j: int| 0 <= j < tree.dirs.len() ==> good_dir(from, to, #[trigger] tree.dirs[j])
    &&& forall|j: int|
        0 < j < tree.dirs.len() ==> store.objects.contains_key(
            (#[trigger] tree.dirs[j]).0 + dot_dir(),
        )
    &&& forall|j: int|
        0 <= j < tree.files.len() ==> good_file(store, from, to, tree.dirs, #[trigger] tree.files[j])
}

/// A name below a mirrored pair of collections gives a mirrored pair.
proof fn lemma_mirror_below(
    from: Seq<char>,
    to: Seq<char>,
    pair: (Seq<char>, Seq<char>),
    tail: Seq<char>,
)
    requires
        mirrored(from, to, pair),
    ensures
        mirrored(from, to, (pair.0 + tail, pair.1 + tail)),
{
    let n = from.len() as int;
    assert((pair.0 + tail).subrange(0, n) =~= pair.0.subrange(0, n));
    assert((pair.0 + tail).skip(n) =~= pair.0.skip(n) + tail);
    assert(pair.1 + tail =~= to + (pair.0.skip(n) + tail));
}

/// The first `m` entries of the listing of a collection of the tree,
/// added to the tree, keep the tree as a walk has it, and leave what was
/// in it where it was.
pub proof fn lemma_walk_add_keeps(
    store: StoreModel,
    from: Seq<char>,
    to: Seq<char>,
    tree: TreeView,
    i: int,
    now: UnixTime,
    m: int,
)
    requires
        store.objects.dom().finite(),
        keys_are_paths(store),
        tree_inv(store, from, to, tree),
        0 <= i < tree.dirs.len(),
        read_dir_of(store, tree.dirs[i].0, now) is Ok,
        0 <= m <= read_dir_of(store, tree.dirs[i].0, now)->Ok_0.len(),
    ensures
        ({
            let all = read_dir_of(store, tree.dirs[i].0, now)->Ok_0;
            let more = walk_add(tree, tree.dirs[i].0, tree.dirs[i].1, all.take(m));
            &&& tree_inv(store, from, to, more)
            &&& tree.dirs.is_prefix_of(more.dirs)
            &&& tree.files.is_prefix_of(more.files)
        }),
    decreases m,
{
    let (src, dst) = tree.dirs[i];
    let all = read_dir_of(store, src, now)->Ok_0;
    let more = walk_add(tree, src, dst, all.take(m));
    if m == 0 {
        assert(all.take(0) =~= Seq::<EntryView>::empty());
        assert(more == tree);
        assert(tree.dirs.subrange(0, tree.dirs.len() as int) =~= tree.dirs);
        assert(tree.files.subrange(0, tree.files.len() as int) =~= tree.files);
    } else {
        lemma_walk_add_keeps(store, from, to, tree, i, now, m - 1);
        let before = walk_add(tree, src, dst, all.take(m - 1));
        assert(all.take(m).drop_last() =~= all.take(m - 1));
        let e = all[m - 1];
        assert(all.take(m).last() == e);
        let seg = lemma_entry_is_child(store, src, now, m - 1);
        assert(good_dir(from, to, tree.dirs[i]));
        lemma_join_below(src, seg);
        lemma_join_below(dst, seg);
        lemma_below_is_path(src, seg);
        lemma_below_is_path(dst, seg);
        lemma_name_is_token(seg);
        let name = normalize(e.name);
        assert(before.dirs[i] == tree.dirs[i]) by {
            assert(before.dirs.subrange(0, tree.dirs.len() as int)[i] == tree.dirs[i]);
        }
        assert forall|j: int| 0 <= j < tree.dirs.len() implies before.dirs[j] == tree.dirs[j] by {
            assert(before.dirs.subrange(0, tree.dirs.len() as int)[j] == tree.dirs[j]);
        }
        assert forall|j: int| 0 <= j < tree.files.len() implies before.files[j]
            == tree.files[j] by {
            assert(before.files.subrange(0, tree.files.len() as int)[j] == tree.files[j]);
        }
        if e.metadata.is_dir {
            let pair = (dir_below(src, seg), dir_below(dst, seg));
            assert(join_dir_spec_is(src, name, seg));
            assert(join_dir_spec_is(dst, name, seg));
            assert(more.dirs == before.dirs.push(pair));
            assert(more.files == before.files);
            lemma_mirror_below(from, to, (src, dst), seg + root());
            assert(src + (seg + root()) =~= dir_below(src, seg));
            assert(dst + (seg + root()) =~= dir_below(dst, seg));
            assert(good_dir(from, to, pair));
            assert(forall|j: int| 0 <= j < before.dirs.len() ==> more.dirs[j] == before.dirs[j]);
            assert forall|j: int| 0 <= j < more.files.len() implies good_file(
                store,
                from,
                to,
                more.dirs,
                #[trigger] more.files[j],
            ) by {
                let f = before.files[j];
                assert(good_file(store, from, to, before.dirs, f));
                let p = choose|p: int|
                    0 <= p < before.dirs.len() && (#[trigger] before.dirs[p]).1 == parent_spec(f.1);
                assert(more.dirs[p].1 == parent_spec(f.1));
            }
            assert(tree.dirs.is_prefix_of(more.dirs)) by {
                assert(more.dirs.subrange(0, tree.dirs.len() as int) =~= tree.dirs);
            }
        } else {
            let pair = (src + seg, dst + seg);
            assert(join_file_spec_is(src, name, seg));
            assert(join_file_spec_is(dst, name, seg));
            assert(more.files == before.files.push(pair));
            assert(more.dirs == before.dirs);
            lemma_mirror_below(from, to, (src, dst), seg);
            lemma_parent_below(dst, seg);
            assert(marker_below(src, seg) =~= src + seg + root() + dot_dir());
            assert(more.dirs[i].1 == parent_spec(pair.1));
            assert(good_file(store, from, to, more.dirs, pair));
            assert forall|j: int| 0 <= j < more.files.len() implies good_file(
                store,
                from,
                to,
                more.dirs,
                #[trigger] more.files[j],
            ) by {
                if j < before.files.len() {
                    assert(more.files[j] == before.files[j]);
                }
            }
            assert(tree.files.is_prefix_of(more.files)) by {
                assert(more.files.subrange(0, tree.files.len() as int) =~= tree.files);
            }
        }
    }
}

/// Joining the name of an entry as a collection puts its segment and a
/// slash behind the path.
spec fn join_dir_spec_is(d: Seq<char>, name: Seq<char>, seg: Seq<char>) -> bool {
    crate::normalized_path::join_dir_spec(d, name) == dir_below(d, seg)
}

/// Joining the name of an entry as a resource puts its segment behind
/// the path.
spec fn join_file_spec_is(d: Seq<char>, name: Seq<char>, seg: Seq<char>) -> bool {
    crate::normalized_path::join_file_spec(d, name) == d + seg
}

/// The tree that a walk starts with is as a walk has it.
pub proof fn lemma_first_tree(store: StoreModel, from: Seq<char>, to: Seq<char>)
    requires
        is_dir_path(from),
        is_dir_path(to),
    ensures
        tree_inv(store, from, to, first_tree(from, to)),
{
    assert(from.subrange(0, from.len() as int) =~= from);
    assert(to + from.skip(from.len() as int) =~= to);
}

/// The tree that a walk ends with is as a walk has it, and holds what the
/// walk began with where it was.
pub proof fn lemma_walk_keeps(
    store: StoreModel,
    from: Seq<char>,
    to: Seq<char>,
    tree: TreeView,
    i: nat,
    now: UnixTime,
    n: nat,
)
    requires
        store.objects.dom().finite(),
        keys_are_paths(store),
        tree_inv(store, from, to, tree),
        walk_from(store, tree, i, now, n) is Some,
        walk_from(store, tree, i, now, n)->Some_0 is Ok,
    ensures
        tree_inv(store, from, to, walk_from(store, tree, i, now, n)->Some_0->Ok_0),
        tree.dirs.is_prefix_of(walk_from(store, tree, i, now, n)->Some_0->Ok_0.dirs),
        tree.files.is_prefix_of(walk_from(store, tree, i, now, n)->Some_0->Ok_0.files),
    decreases n,
{
    if i >= tree.dirs.len() {
        assert(tree.dirs.subrange(0, tree.dirs.len() as int) =~= tree.dirs);
        assert(tree.files.subrange(0, tree.files.len() as int) =~= tree.files);
    } else {
        let all = read_dir_of(store, tree.dirs[i as int].0, now)->Ok_0;
        lemma_walk_add_keeps(store, from, to, tree, i as int, now, all.len() as int);
        assert(all.take(all.len() as int) =~= all);
        let more = grown(store, tree, i, now);
        lemma_walk_keeps(store, from, to, more, i + 1, now, (n - 1) as nat);
        let end = walk_from(store, tree, i, now, n)->Some_0->Ok_0;
        assert(tree.dirs.is_prefix_of(end.dirs)) by {
            assert(end.dirs.subrange(0, more.dirs.len() as int) == more.dirs);
            assert(more.dirs.subrange(0, tree.dirs.len() as int) == tree.dirs);
            assert(end.dirs.subrange(0, tree.dirs.len() as int) =~= end.dirs.subrange(
                0,
                more.dirs.len() as int,
            ).subrange(0, tree.dirs.len() as int));
        }
        assert(tree.files.is_prefix_of(end.files)) by {
            assert(end.files.subrange(0, more.files.len() as int) == more.files);
            assert(more.files.subrange(0, tree.files.len() as int) == tree.files);
            assert(end.files.subrange(0, tree.files.len() as int) =~= end.files.subrange(
                0,
                more.files.len() as int,
            ).subrange(0, tree.files.len() as int));
        }
    }
}

/// The pair of the collection `seg` in a pair of collections.
pub open spec fn child_pair(parent: (Seq<char>, Seq<char>), seg: Seq<char>) -> (
    Seq<char>,
    Seq<char>,
) {
    (dir_below(parent.0, seg), dir_below(parent.1, seg))
}

/// The pair of the resource `seg` in a pair of collections.
pub open spec fn file_pair(parent: (Seq<char>, Seq<char>), seg: Seq<char>) -> (
    Seq<char>,
    Seq<char>,
) {
    (parent.0 + seg, parent.1 + seg)
}

/// The name right below a collection that an entry of its listing
/// stands for.
pub open spec fn entry_seg(e: EntryView) -> Seq<char> {
    trim_token_spec(normalize(e.name))
}

/// What one more entry of the listing of a collection of the tree adds
/// to the tree: the pair of the collection, or of the resource, that it
/// stands for.
pub proof fn lemma_walk_add_step(
    store: StoreModel,
    tree: TreeView,
    i: int,
    now: UnixTime,
    m: int,
)
    requires
        store.objects.dom().finite(),
        keys_are_paths(store),
        0 <= i < tree.dirs.len(),
        is_dir_path(tree.dirs[i].0),
        is_dir_path(tree.dirs[i].1),
        read_dir_of(store, tree.dirs[i].0, now) is Ok,
        0 < m <= read_dir_of(store, tree.dirs[i].0, now)->Ok_0.len(),
    ensures
        ({
            let all = read_dir_of(store, tree.dirs[i].0, now)->Ok_0;
            let before = walk_add(tree, tree.dirs[i].0, tree.dirs[i].1, all.take(m - 1));
            let more = walk_add(tree, tree.dirs[i].0, tree.dirs[i].1, all.take(m));
            let seg = entry_seg(all[m - 1]);
            &&& is_name(seg)
            &&& all[m - 1].metadata.is_dir ==> more == (TreeView {
                dirs: before.dirs.push(child_pair(tree.dirs[i], seg)),
                ..before
            })
            &&& !all[m - 1].metadata.is_dir ==> more == (TreeView {
                files: before.files.push(file_pair(tree.dirs[i], seg)),
                ..before
            })
        }),
{
    let (src, dst) = tree.dirs[i];
    let all = read_dir_of(store, src, now)->Ok_0;
    assert(all.take(m).drop_last() =~= all.take(m - 1));
    assert(all.take(m).last() == all[m - 1]);
    let seg = lemma_entry_is_child(store, src, now, m - 1);
    lemma_join_below(src, seg);
    lemma_join_below(dst, seg);
    lemma_name_is_token(seg);
    let name = normalize(all[m - 1].name);
    assert(join_dir_spec_is(src, name, seg));
    assert(join_dir_spec_is(dst, name, seg));
    assert(join_file_spec_is(src, name, seg));
    assert(join_file_spec_is(dst, name, seg));
}

} // verus!
