//! A walk finds all that lies below the collection it starts from.
use crate::aggregate::segment_end;
use crate::normalized_path::{join_dir_spec, join_file_spec, normalize, root, trim_token_spec};
use crate::s3_backend::entries::EntryView;
use crate::s3_backend::filesystem::{
    is_bucket_root, key_targets, list_prefix, listing_targets, sentinel_key, walk_add, TreeView,
};
use crate::s3_backend::metadata::UnixTime;
use crate::s3_backend::model::{
    is_listed_key, is_rolled_up, lemma_listing_is_exact, lemma_prefix_targets,
    lemma_segment_ends_at_slash, lemma_target_has_entry, lemma_targets_of_listing, listed_keys,
    listed_prefixes, listing_pages, metadata_of, read_dir_of, rolled_prefix, StoreModel,
};
use crate::s3_backend::tree_move::below::{
    dir_below, is_dir_path, is_key, is_name, lemma_below_is_path, lemma_join_below,
    lemma_marker_key, lemma_name_is_token,
};
use crate::s3_backend::tree_move::deep_move::{grown, walk_from};
use crate::s3_backend::tree_move::walked::{
    good_dir, keys_are_paths, lemma_walk_keeps, marker_below, tree_inv,
};
use crate::text::dot_dir;
use vstd::prelude::*;

verus! {

/// One of the pairs has `s` as its source.
pub open spec fn has_src(pairs: Seq<(Seq<char>, Seq<char>)>, s: Seq<char>) -> bool {
    exists|x: int| 0 <= x < pairs.len() && (#[trigger] pairs[x]).0 == s
}

/// A segment without a slash runs to the end of the text.
proof fn lemma_segment_runs_out(p: Seq<char>, start: int)
    requires
        0 <= start <= p.len(),
        forall|i: int| start <= i < p.len() ==> p[i] != '/',
    ensures
        segment_end(p, start) == p.len(),
    decreases p.len() - start,
{
    if start < p.len() {
        lemma_segment_runs_out(p, start + 1);
    }
}

/// A key of a page that does not end with `.dir` is among the targets of
/// the page.
proof fn lemma_key_has_target(keys: Seq<Seq<char>>, x: int) -> (i: int)
    requires
        0 <= x < keys.len(),
        !dot_dir().is_suffix_of(normalize(keys[x])),
    ensures
        0 <= i < key_targets(keys).len(),
        key_targets(keys)[i] == normalize(keys[x]),
    decreases keys.len(),
{
    let rest = key_targets(keys.drop_last());
    if x == keys.len() - 1 {
        rest.len() as int
    } else {
        assert(keys.drop_last()[x] == keys[x]);
        let i = lemma_key_has_target(keys.drop_last(), x);
        i
    }
}

/// A collection that is marked right below a collection shows in its
/// listing, as a collection, under its name.
pub proof fn lemma_collection_is_listed(
    store: StoreModel,
    d: Seq<char>,
    seg: Seq<char>,
    now: UnixTime,
) -> (j: int)
    requires
        store.objects.dom().finite(),
        keys_are_paths(store),
        is_dir_path(d),
        is_name(seg),
        read_dir_of(store, d, now) is Ok,
        store.objects.contains_key(marker_below(d, seg)),
    ensures
        0 <= j < read_dir_of(store, d, now)->Ok_0.len(),
        read_dir_of(store, d, now)->Ok_0[j].metadata.is_dir,
        trim_token_spec(normalize(read_dir_of(store, d, now)->Ok_0[j].name)) == seg,
{
    let prefix = list_prefix(d);
    assert(d != root());
    let c = dir_below(d, seg);
    let k = marker_below(d, seg);
    let n = d.len() as int;
    let end = n + seg.len();
    assert(k.subrange(0, n) =~= d);
    assert forall|i: int| n <= i < end implies k[i] != '/' by {
        assert(k[i] == seg[i - n]);
    }
    assert(k[end] == '/');
    lemma_segment_ends_at_slash(k, n, end);
    assert(is_rolled_up(k, prefix));
    assert(rolled_prefix(k, prefix) =~= c);
    let rolled = store.objects.dom().filter(|x: Seq<char>| is_rolled_up(x, prefix));
    assert(rolled.contains(k));
    assert(listed_prefixes(store, prefix).contains(c));
    lemma_listing_is_exact(store, prefix);
    let prefixes = listed_prefixes(store, prefix).to_seq();
    let keys = listed_keys(store, prefix).to_seq();
    assert(prefixes.contains(c));
    let i = choose|i: int| 0 <= i < prefixes.len() && prefixes[i] == c;
    lemma_prefix_targets(prefixes);
    lemma_targets_of_listing(store, prefix);
    let targets = listing_targets(listing_pages(store, prefix));
    lemma_below_is_path(d, seg);
    lemma_marker_key(c);
    lemma_name_is_token(seg);
    assert(normalize(c) == c);
    assert(targets[i] == c);
    assert(!is_bucket_root(c));
    assert(metadata_of(store, c, now) is Ok);
    let j = lemma_target_has_entry(store, targets, d, now, i);
    assert(d.is_prefix_of(c)) by {
        assert(c.subrange(0, n) =~= d);
    }
    assert(c.skip(n) =~= seg + root());
    j
}

/// A resource that is stored right below a collection, whose name does
/// not end with `.dir` and is not that of a collection, shows in the
/// listing of the collection, as a resource, under its name.
pub proof fn lemma_resource_is_listed(
    store: StoreModel,
    d: Seq<char>,
    seg: Seq<char>,
    now: UnixTime,
) -> (j: int)
    requires
        store.objects.dom().finite(),
        keys_are_paths(store),
        is_dir_path(d),
        is_name(seg),
        read_dir_of(store, d, now) is Ok,
        store.objects.contains_key(d + seg),
        !dot_dir().is_suffix_of(d + seg),
        !store.objects.contains_key(marker_below(d, seg)),
    ensures
        0 <= j < read_dir_of(store, d, now)->Ok_0.len(),
        !read_dir_of(store, d, now)->Ok_0[j].metadata.is_dir,
        trim_token_spec(normalize(read_dir_of(store, d, now)->Ok_0[j].name)) == seg,
{
    let prefix = list_prefix(d);
    assert(d != root());
    let k = d + seg;
    let n = d.len() as int;
    assert(k.subrange(0, n) =~= d);
    assert forall|i: int| n <= i < k.len() implies k[i] != '/' by {
        assert(k[i] == seg[i - n]);
    }
    lemma_segment_runs_out(k, n);
    assert(is_listed_key(k, prefix));
    assert(listed_keys(store, prefix).contains(k));
    lemma_listing_is_exact(store, prefix);
    let prefixes = listed_prefixes(store, prefix).to_seq();
    let keys = listed_keys(store, prefix).to_seq();
    assert(keys.contains(k));
    let x = choose|x: int| 0 <= x < keys.len() && keys[x] == k;
    lemma_below_is_path(d, seg);
    lemma_marker_key(k);
    lemma_name_is_token(seg);
    assert(normalize(k) == k);
    let i = lemma_key_has_target(keys, x);
    lemma_prefix_targets(prefixes);
    lemma_targets_of_listing(store, prefix);
    let targets = listing_targets(listing_pages(store, prefix));
    assert(targets[prefixes.len() + i] == k);
    assert(!is_bucket_root(k));
    assert(sentinel_key(k) =~= marker_below(d, seg));
    let j = lemma_target_has_entry(store, targets, d, now, prefixes.len() + i);
    assert(d.is_prefix_of(k));
    assert(k.skip(n) =~= seg);
    j
}

/// Every entry that is added to a tree is in the tree afterwards: a
/// collection among the collections, a resource among the resources.
proof fn lemma_walk_add_holds(
    tree: TreeView,
    src: Seq<char>,
    dst: Seq<char>,
    entries: Seq<EntryView>,
    j: int,
)
    requires
        0 <= j < entries.len(),
    ensures
        entries[j].metadata.is_dir ==> has_src(
            walk_add(tree, src, dst, entries).dirs,
            join_dir_spec(src, normalize(entries[j].name)),
        ),
        !entries[j].metadata.is_dir ==> has_src(
            walk_add(tree, src, dst, entries).files,
            join_file_spec(src, normalize(entries[j].name)),
        ),
    decreases entries.len(),
{
    let before = walk_add(tree, src, dst, entries.drop_last());
    let more = walk_add(tree, src, dst, entries);
    let last = entries.last();
    if j == entries.len() - 1 {
        if last.metadata.is_dir {
            assert(more.dirs[before.dirs.len() as int].0 == join_dir_spec(
                src,
                normalize(last.name),
            ));
        } else {
            assert(more.files[before.files.len() as int].0 == join_file_spec(
                src,
                normalize(last.name),
            ));
        }
    } else {
        assert(entries.drop_last()[j] == entries[j]);
        lemma_walk_add_holds(tree, src, dst, entries.drop_last(), j);
        let name = normalize(entries[j].name);
        if entries[j].metadata.is_dir {
            let x = choose|x: int|
                0 <= x < before.dirs.len() && (#[trigger] before.dirs[x]).0 == join_dir_spec(
                    src,
                    name,
                );
            assert(more.dirs[x] == before.dirs[x]);
        } else {
            let x = choose|x: int|
                0 <= x < before.files.len() && (#[trigger] before.files[x]).0 == join_file_spec(
                    src,
                    name,
                );
            assert(more.files[x] == before.files[x]);
        }
    }
}

/// What is among the pairs of a tree stays among them as the tree grows.
proof fn lemma_has_src_stays(
    a: Seq<(Seq<char>, Seq<char>)>,
    b: Seq<(Seq<char>, Seq<char>)>,
    s: Seq<char>,
)
    requires
        a.is_prefix_of(b),
        has_src(a, s),
    ensures
        has_src(b, s),
{
    let x = choose|x: int| 0 <= x < a.len() && (#[trigger] a[x]).0 == s;
    assert(b.subrange(0, a.len() as int)[x] == b[x]);
}

/// The `j`-th entry of the listing of the `p`-th collection of the tree
/// is in the tree.
pub open spec fn child_in(store: StoreModel, tree: TreeView, p: int, j: int, now: UnixTime) -> bool {
    let src = tree.dirs[p].0;
    let e = read_dir_of(store, src, now)->Ok_0[j];
    if e.metadata.is_dir {
        has_src(tree.dirs, join_dir_spec(src, normalize(e.name)))
    } else {
        has_src(tree.files, join_file_spec(src, normalize(e.name)))
    }
}

/// The listing of the `p`-th collection of the tree can be had, and all
/// its entries are in the tree.
pub open spec fn listed_in(store: StoreModel, tree: TreeView, p: int, now: UnixTime) -> bool {
    &&& read_dir_of(store, tree.dirs[p].0, now) is Ok
    &&& forall|j: int|
        0 <= j < read_dir_of(store, tree.dirs[p].0, now)->Ok_0.len() ==> #[trigger] child_in(
            store,
            tree,
            p,
            j,
            now,
        )
}

/// In the tree that a walk ends with, every collection from the `i`-th
/// on was listed, and what its listing showed is in the tree.
pub proof fn lemma_walk_closes(
    store: StoreModel,
    from: Seq<char>,
    to: Seq<char>,
    tree: TreeView,
    i: nat,
    now: UnixTime,
    n: nat,
)
    requires
        store.objects.dom().finite(),
        keys_are_paths(store),
        tree_inv(store, from, to, tree),
        walk_from(store, tree, i, now, n) is Some,
        walk_from(store, tree, i, now, n)->Some_0 is Ok,
    ensures
        forall|p: int|
            i <= p < walk_from(store, tree, i, now, n)->Some_0->Ok_0.dirs.len() ==> #[trigger] listed_in(
                store,
                walk_from(store, tree, i, now, n)->Some_0->Ok_0,
                p,
                now,
            ),
    decreases n,
{
    let end = walk_from(store, tree, i, now, n)->Some_0->Ok_0;
    if i < tree.dirs.len() {
        let (src, dst) = tree.dirs[i as int];
        let all = read_dir_of(store, src, now)->Ok_0;
        let more = grown(store, tree, i, now);
        crate::s3_backend::tree_move::walked::lemma_walk_add_keeps(
            store,
            from,
            to,
            tree,
            i as int,
            now,
            all.len() as int,
        );
        assert(all.take(all.len() as int) =~= all);
        lemma_walk_keeps(store, from, to, more, i + 1, now, (n - 1) as nat);
        lemma_walk_closes(store, from, to, more, i + 1, now, (n - 1) as nat);
        assert(more.dirs.subrange(0, tree.dirs.len() as int)[i as int] == more.dirs[i as int]);
        assert(end.dirs.subrange(0, more.dirs.len() as int)[i as int] == end.dirs[i as int]);
        assert(end.dirs[i as int] == tree.dirs[i as int]);
        assert forall|j: int| 0 <= j < all.len() implies #[trigger] child_in(
            store,
            end,
            i as int,
            j,
            now,
        ) by {
            lemma_walk_add_holds(tree, src, dst, all, j);
            let name = normalize(all[j].name);
            if all[j].metadata.is_dir {
                lemma_has_src_stays(more.dirs, end.dirs, join_dir_spec(src, name));
            } else {
                lemma_has_src_stays(more.files, end.files, join_file_spec(src, name));
            }
        }
        assert(listed_in(store, end, i as int, now));
    }
}

/// A slash stands at the place `e` of `k`.
pub open spec fn slash_at(k: Seq<char>, e: int) -> bool {
    0 <= e < k.len() && k[e] == '/'
}

/// Every collection on the way from `from` down to a key of the store is
/// marked: the store holds the object that marks it.
pub open spec fn marked_below(store: StoreModel, from: Seq<char>) -> bool {
    forall|k: Seq<char>, e: int|
        store.objects.contains_key(k) && from.is_prefix_of(k) && from.len() <= e
            && #[trigger] slash_at(k, e) ==> store.objects.contains_key(k.take(e + 1) + dot_dir())
}

/// Below `from`, only the objects that mark collections have names that
/// end with `.dir`.
pub open spec fn plain_names(store: StoreModel, from: Seq<char>) -> bool {
    forall|k: Seq<char>|
        #[trigger] store.objects.contains_key(k) && from.is_prefix_of(k) && dot_dir().is_suffix_of(k)
            ==> k.len() > 4 && k[k.len() - 5] == '/'
}

/// Below `from`, no key is the name of a resource and of a collection at
/// once.
pub open spec fn no_clash(store: StoreModel, from: Seq<char>) -> bool {
    forall|k: Seq<char>|
        #[trigger] store.objects.contains_key(k) && from.is_prefix_of(k)
            ==> !store.objects.contains_key(k + root() + dot_dir())
}

/// A key that the move of the tree takes away: the key of the object
/// that marks one of its collections at the source, or the source of one
/// of its resources.
pub open spec fn is_old_key(tree: TreeView, k: Seq<char>) -> bool {
    ||| exists|x: int| 0 <= x < tree.dirs.len() && (#[trigger] tree.dirs[x]).0 + dot_dir() == k
    ||| has_src(tree.files, k)
}

/// The place of the last slash before the place `e`; -1 where there is
/// none.
pub open spec fn slash_before(k: Seq<char>, e: int) -> int
    decreases e,
{
    if e <= 0 {
        -1
    } else if k[e - 1] == '/' {
        e - 1
    } else {
        slash_before(k, e - 1)
    }
}

/// The last slash before a place is a slash, and none stands between it
/// and the place.
proof fn lemma_slash_before(k: Seq<char>, e: int)
    requires
        0 <= e <= k.len(),
    ensures
        -1 <= slash_before(k, e) < e,
        slash_before(k, e) >= 0 ==> k[slash_before(k, e)] == '/',
        forall|i: int| slash_before(k, e) < i < e ==> k[i] != '/',
    decreases e,
{
    if e > 0 && k[e - 1] != '/' {
        lemma_slash_before(k, e - 1);
    }
}

/// Every collection on the way from `from` down to a key of the store is
/// among the collections of the tree that the walk from `from` ends with.
pub proof fn lemma_dirs_found(
    store: StoreModel,
    from: Seq<char>,
    to: Seq<char>,
    tree: TreeView,
    k: Seq<char>,
    e: int,
    now: UnixTime,
)
    requires
        store.objects.dom().finite(),
        keys_are_paths(store),
        is_dir_path(from),
        tree_inv(store, from, to, tree),
        forall|p: int| 0 <= p < tree.dirs.len() ==> #[trigger] listed_in(store, tree, p, now),
        marked_below(store, from),
        store.objects.contains_key(k),
        from.is_prefix_of(k),
        from.len() - 1 <= e,
        slash_at(k, e),
    ensures
        has_src(tree.dirs, k.take(e + 1)),
    decreases e,
{
    let n = from.len() as int;
    if e == n - 1 {
        assert(k.take(n) =~= from);
        assert(tree.dirs[0].0 == from);
    } else {
        assert(is_key(k));
        assert(k[n - 1] == '/') by {
            assert(k.subrange(0, n)[n - 1] == from[n - 1]);
        }
        lemma_slash_before(k, e);
        let r = slash_before(k, e);
        assert(r >= n - 1);
        lemma_dirs_found(store, from, to, tree, k, r, now);
        let above = k.take(r + 1);
        let p = choose|p: int| 0 <= p < tree.dirs.len() && (#[trigger] tree.dirs[p]).0 == above;
        assert(good_dir(from, to, tree.dirs[p]));
        if r + 1 == e {
            assert(k[r] == '/' && k[r + 1] == '/');
        }
        let seg = k.subrange(r + 1, e);
        assert(is_name(seg));
        let c = k.take(e + 1);
        assert(c =~= dir_below(above, seg));
        assert(listed_in(store, tree, p, now));
        assert(store.objects.contains_key(c + dot_dir()));
        let j = lemma_collection_is_listed(store, above, seg, now);
        assert(child_in(store, tree, p, j, now));
        lemma_join_below(above, seg);
        lemma_name_is_token(seg);
    }
}

/// Every key of the store below `from` is a key of the tree that the
/// walk from `from` ends with.
pub proof fn lemma_key_found(
    store: StoreModel,
    from: Seq<char>,
    to: Seq<char>,
    tree: TreeView,
    k: Seq<char>,
    now: UnixTime,
)
    requires
        store.objects.dom().finite(),
        keys_are_paths(store),
        is_dir_path(from),
        tree_inv(store, from, to, tree),
        forall|p: int| 0 <= p < tree.dirs.len() ==> #[trigger] listed_in(store, tree, p, now),
        marked_below(store, from),
        plain_names(store, from),
        no_clash(store, from),
        store.objects.contains_key(k),
        from.is_prefix_of(k),
    ensures
        is_old_key(tree, k),
{
    let n = from.len() as int;
    let len = k.len() as int;
    assert(is_key(k));
    assert(k[n - 1] == '/') by {
        assert(k.subrange(0, n)[n - 1] == from[n - 1]);
    }
    lemma_slash_before(k, len);
    let e = slash_before(k, len);
    assert(e >= n - 1);
    lemma_dirs_found(store, from, to, tree, k, e, now);
    let above = k.take(e + 1);
    let p = choose|p: int| 0 <= p < tree.dirs.len() && (#[trigger] tree.dirs[p]).0 == above;
    assert(good_dir(from, to, tree.dirs[p]));
    let seg = k.skip(e + 1);
    assert(is_name(seg));
    assert(k =~= above + seg);
    if seg != dot_dir() {
        if dot_dir().is_suffix_of(k) {
            assert(k[len - 5] == '/');
            assert(k.subrange(len - 4, len) == dot_dir());
            assert forall|i: int| len - 4 <= i < len implies k[i] != '/' by {
                assert(k.subrange(len - 4, len)[i - (len - 4)] == k[i]);
            }
            assert(e == len - 5);
            assert(seg =~= k.subrange(len - 4, len));
        }
        assert(marker_below(above, seg) =~= k + root() + dot_dir());
        assert(listed_in(store, tree, p, now));
        let j = lemma_resource_is_listed(store, above, seg, now);
        assert(child_in(store, tree, p, j, now));
        lemma_join_below(above, seg);
        lemma_name_is_token(seg);
    }
}

} // verus!
