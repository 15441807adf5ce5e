//! A move of a collection that is in good order ends well.

use crate::normalized_path::{parent_spec, root};
use crate::s3_backend::filesystem::{
    copy_source, copy_target, copy_target_form, is_bucket_root, path_above, sentinel_key, TreeView,
};
use crate::s3_backend::metadata::UnixTime;
use crate::s3_backend::model::{create_dir_of, metadata_of, read_dir_of, with_marker, StoreModel};
use crate::s3_backend::moving::with_copy;
use crate::s3_backend::tree_move::below::{is_name, lemma_above_below, lemma_marker_key};
use crate::s3_backend::tree_move::carried::{
    apart_dirs, is_new_key, kept, lemma_adding_keeps, lemma_mirror_is_one_to_one,
    lemma_mirrored_sides, lemma_sides_apart, lemma_taking_keeps, marked_upto,
};
use crate::s3_backend::tree_move::deep_move::{
    carry_from, copy_of, copy_sent, create_from, drop_from, grown, remove_dir_of, remove_file_of,
    walk_from,
};
use crate::s3_backend::tree_move::ordered::{file_has_parent, has_parent, once, tree_order};
use crate::s3_backend::tree_move::walked::{
    child_pair, file_pair, good_dir, good_file, keys_are_paths, lemma_walk_add_keeps, tree_inv,
};
use crate::text::dot_dir;
use vstd::prelude::*;

verus! {

/// Below the destination the store holds nothing but the objects that
/// mark the first `j` collections of the tree.
pub open spec fn only_marked(s: StoreModel, to: Seq<char>, tree: TreeView, j: int) -> bool {
    forall|k: Seq<char>|
        to.is_prefix_of(k) && #[trigger] s.objects.contains_key(k) ==> exists|x: int|
            0 <= x < j && x < tree.dirs.len() && (#[trigger] tree.dirs[x]).1 + dot_dir() == k
}

/// One of the first `j` resources of the tree has `k` as its source.
pub open spec fn is_carried(tree: TreeView, j: int, k: Seq<char>) -> bool {
    exists|x: int| 0 <= x < j && x < tree.files.len() && (#[trigger] tree.files[x]).0 == k
}

/// Below the source the store holds all that it held before the move,
/// but the sources of the first `j` resources of the tree.
pub open spec fn rest_there(
    store: StoreModel,
    s: StoreModel,
    from: Seq<char>,
    tree: TreeView,
    j: int,
) -> bool {
    forall|k: Seq<char>|
        from.is_prefix_of(k) && #[trigger] store.objects.contains_key(k) && !is_carried(tree, j, k)
            ==> s.objects.contains_key(k)
}

/// The first `j` collections of the tree are still marked at the source.
pub open spec fn markers_there(s: StoreModel, tree: TreeView, j: int) -> bool {
    forall|x: int|
        0 <= x < j && x < tree.dirs.len() ==> s.objects.contains_key(
            (#[trigger] tree.dirs[x]).0 + dot_dir(),
        )
}

/// A walk from a collection that is marked, in a store whose keys are
/// paths, does not fail.
pub proof fn lemma_walk_succeeds(
    store: StoreModel,
    from: Seq<char>,
    to: Seq<char>,
    tree: TreeView,
    i: nat,
    now: UnixTime,
    n: nat,
)
    requires
        store.objects.dom().finite(),
        keys_are_paths(store),
        store.objects.contains_key(from + dot_dir()),
        tree_inv(store, from, to, tree),
        walk_from(store, tree, i, now, n) is Some,
    ensures
        walk_from(store, tree, i, now, n)->Some_0 is Ok,
    decreases n,
{
    if i < tree.dirs.len() {
        let d = tree.dirs[i as int].0;
        assert(good_dir(from, to, tree.dirs[i as int]));
        lemma_marker_key(d);
        assert(store.objects.contains_key(sentinel_key(d)));
        assert(!is_bucket_root(d));
        assert(read_dir_of(store, d, now) is Ok);
        let all = read_dir_of(store, d, now)->Ok_0;
        lemma_walk_add_keeps(store, from, to, tree, i as int, now, all.len() as int);
        assert(all.take(all.len() as int) =~= all);
        lemma_walk_succeeds(store, from, to, grown(store, tree, i, now), i + 1, now, (n - 1) as nat);
    }
}

/// The end of a move ends well where the collections that are still to
/// be dropped are marked.
pub proof fn lemma_drop_succeeds(
    store: StoreModel,
    s: StoreModel,
    from: Seq<char>,
    to: Seq<char>,
    tree: TreeView,
    i: nat,
    now: UnixTime,
)
    requires
        tree_inv(store, from, to, tree),
        once(tree.dirs),
        i <= tree.dirs.len(),
        markers_there(s, tree, i as int),
    ensures
        drop_from(s, tree, i, now).1 is Ok,
    decreases i,
{
    if i > 0 {
        let path = tree.dirs[i - 1].0;
        assert(good_dir(from, to, tree.dirs[i - 1]));
        lemma_marker_key(path);
        let key = path + dot_dir();
        assert(s.objects.contains_key(key));
        assert(!is_bucket_root(path));
        assert(metadata_of(s, path, now) is Ok);
        assert(metadata_of(s, path, now)->Ok_0.is_dir);
        assert(key[0] == path[0]);
        assert(!is_bucket_root(key));
        assert(metadata_of(s, key, now) is Ok);
        let (t, r) = remove_dir_of(s, path, now);
        assert(r is Ok);
        assert(t == StoreModel { objects: s.objects.remove(key), ..s });
        assert forall|x: int| 0 <= x < i - 1 implies t.objects.contains_key(
            (#[trigger] tree.dirs[x]).0 + dot_dir(),
        ) by {
            assert(tree.dirs[x].0 != tree.dirs[i - 1].0);
            if tree.dirs[x].0 + dot_dir() == key {
                assert(tree.dirs[x].0 =~= (tree.dirs[x].0 + dot_dir()).subrange(
                    0,
                    tree.dirs[x].0.len() as int,
                ));
                assert(path =~= key.subrange(0, path.len() as int));
            }
        }
        lemma_drop_succeeds(store, t, from, to, tree, (i - 1) as nat, now);
    }
}

/// No resource of a tree in order has a source that ends with `.dir`.
proof fn lemma_no_marker_is_carried(tree: TreeView, j: int, k: Seq<char>)
    requires
        tree_order(tree, tree.dirs.len() as int),
        dot_dir().is_suffix_of(k),
    ensures
        !is_carried(tree, j, k),
{
    if is_carried(tree, j, k) {
        let x = choose|x: int| 0 <= x < j && x < tree.files.len() && (#[trigger] tree.files[x]).0 == k;
        let f = tree.files[x];
        assert(file_has_parent(tree.dirs, f, tree.dirs.len() as int));
        let (p, seg) = choose|p: int, seg: Seq<char>|
            0 <= p < tree.dirs.len() && p < tree.dirs.len() && is_name(seg)
                && !dot_dir().is_suffix_of(tree.dirs[p].0 + seg) && #[trigger] file_pair(
                tree.dirs[p],
                seg,
            ) == f;
    }
}

/// Once the resources are carried, the collections of the tree are
/// still marked at the source.
proof fn lemma_markers_remain(
    store: StoreModel,
    s: StoreModel,
    from: Seq<char>,
    to: Seq<char>,
    tree: TreeView,
)
    requires
        store.objects.contains_key(from + dot_dir()),
        tree_inv(store, from, to, tree),
        tree_order(tree, tree.dirs.len() as int),
        rest_there(store, s, from, tree, tree.files.len() as int),
    ensures
        markers_there(s, tree, tree.dirs.len() as int),
{
    assert forall|x: int| 0 <= x < tree.dirs.len() implies s.objects.contains_key(
        (#[trigger] tree.dirs[x]).0 + dot_dir(),
    ) by {
        let k = tree.dirs[x].0 + dot_dir();
        assert(good_dir(from, to, tree.dirs[x]));
        lemma_mirrored_sides(from, to, tree.dirs[x], dot_dir());
        assert(store.objects.contains_key(k));
        assert(k.subrange(k.len() - 4, k.len() as int) =~= dot_dir());
        lemma_no_marker_is_carried(tree, tree.files.len() as int, k);
    }
}

/// The next resource to be carried is at its source.
proof fn lemma_source_there(
    store: StoreModel,
    s: StoreModel,
    from: Seq<char>,
    to: Seq<char>,
    tree: TreeView,
    i: int,
)
    requires
        tree_inv(store, from, to, tree),
        once(tree.files),
        0 <= i < tree.files.len(),
        rest_there(store, s, from, tree, i),
    ensures
        s.objects.contains_key(tree.files[i].0),
{
    let src = tree.files[i].0;
    assert(good_file(store, from, to, tree.dirs, tree.files[i]));
    if is_carried(tree, i, src) {
        let x = choose|x: int| 0 <= x < i && x < tree.files.len() && (#[trigger] tree.files[x]).0 == src;
        assert(tree.files[x].0 != tree.files[i].0);
    }
}

/// With one more resource carried, the rest is still there.
proof fn lemma_rest_stays(
    store: StoreModel,
    s: StoreModel,
    t: StoreModel,
    from: Seq<char>,
    tree: TreeView,
    i: int,
)
    requires
        0 <= i < tree.files.len(),
        rest_there(store, s, from, tree, i),
        forall|k: Seq<char>|
            #[trigger] s.objects.contains_key(k) && k != tree.files[i].0 ==> t.objects.contains_key(k),
    ensures
        rest_there(store, t, from, tree, i + 1),
{
    assert forall|k: Seq<char>|
        from.is_prefix_of(k) && #[trigger] store.objects.contains_key(k) && !is_carried(
            tree,
            i + 1,
            k,
        ) implies t.objects.contains_key(k) by {
        if is_carried(tree, i, k) {
            let x = choose|x: int| 0 <= x < i && x < tree.files.len() && (#[trigger] tree.files[x]).0 == k;
            assert(0 <= x < i + 1 && tree.files[x].0 == k);
        }
        assert(s.objects.contains_key(k));
        if k == tree.files[i].0 {
            assert(0 <= i < i + 1 && tree.files[i].0 == k);
        }
    }
}

/// A resource of the tree that is at its source is carried well, and
/// what a move keeps is kept.
proof fn lemma_carry_one(
    store: StoreModel,
    s: StoreModel,
    from: Seq<char>,
    to: Seq<char>,
    tree: TreeView,
    i: int,
    now: UnixTime,
)
    requires
        apart_dirs(from, to),
        tree_inv(store, from, to, tree),
        0 <= i < tree.files.len(),
        kept(store, s, from, to, tree),
        marked_upto(s, tree, tree.dirs.len() as int),
        s.objects.contains_key(tree.files[i].0),
    ensures
        ({
            let (src, dst) = tree.files[i];
            let (c, r) = copy_of(s, src, dst, now);
            let (t, q) = remove_file_of(c, src, true, now);
            &&& r is Ok
            &&& q is Ok
            &&& t == StoreModel { objects: s.objects.insert(dst, s.objects[src]).remove(src), ..s }
            &&& kept(store, t, from, to, tree)
            &&& marked_upto(t, tree, tree.dirs.len() as int)
        }),
{
    let none = Seq::<char>::empty();
    let pair = tree.files[i];
    let (src, dst) = pair;
    assert(good_file(store, from, to, tree.dirs, pair));
    lemma_mirrored_sides(from, to, pair, none);
    assert(src + none =~= src);
    assert(dst + none =~= dst);
    assert(copy_target_form(src, dst) == dst);
    assert(copy_source(src, dst) == src);
    assert(copy_target(src, dst) == dst);
    let above = parent_spec(dst);
    let p = choose|p: int| 0 <= p < tree.dirs.len() && (#[trigger] tree.dirs[p]).1 == above;
    assert(good_dir(from, to, tree.dirs[p]));
    lemma_marker_key(above);
    assert(s.objects.contains_key(sentinel_key(above)));
    assert(metadata_of(s, above, now) is Ok);
    let (c, r) = copy_of(s, src, dst, now);
    assert((c, r) == copy_sent(s, src, dst));
    assert(c == with_copy(s, src, dst));
    assert(is_new_key(tree, dst));
    lemma_adding_keeps(store, s, from, to, tree, dst, s.objects[src]);
    lemma_sides_apart(from, to, src);
    lemma_sides_apart(from, to, dst);
    lemma_marker_key(src);
    let marker = src + root() + dot_dir();
    assert(from.is_prefix_of(marker)) by {
        assert(marker.subrange(0, from.len() as int) =~= src.subrange(0, from.len() as int));
    }
    assert(!c.objects.contains_key(marker));
    assert(!is_bucket_root(src));
    assert(c.objects.contains_key(src));
    assert(metadata_of(c, src, now) is Ok);
    assert(!metadata_of(c, src, now)->Ok_0.is_dir);
    let (t, q) = remove_file_of(c, src, true, now);
    assert(t == StoreModel { objects: c.objects.remove(src), ..c });
    lemma_taking_keeps(store, c, from, to, tree, src);
    assert forall|x: int| 0 <= x < tree.dirs.len() implies t.objects.contains_key(
        (#[trigger] tree.dirs[x]).1 + dot_dir(),
    ) by {
        assert(good_dir(from, to, tree.dirs[x]));
        lemma_mirrored_sides(from, to, tree.dirs[x], dot_dir());
        lemma_sides_apart(from, to, tree.dirs[x].1 + dot_dir());
    }
}

/// The middle of a move ends well where the resources that are still to
/// be carried are at their sources.
pub proof fn lemma_carry_succeeds(
    store: StoreModel,
    s: StoreModel,
    from: Seq<char>,
    to: Seq<char>,
    tree: TreeView,
    i: nat,
    now: UnixTime,
)
    requires
        apart_dirs(from, to),
        store.objects.contains_key(from + dot_dir()),
        tree_inv(store, from, to, tree),
        tree_order(tree, tree.dirs.len() as int),
        i <= tree.files.len(),
        kept(store, s, from, to, tree),
        marked_upto(s, tree, tree.dirs.len() as int),
        rest_there(store, s, from, tree, i as int),
    ensures
        carry_from(s, tree, i, now).1 is Ok,
    decreases tree.files.len() - i,
{
    if i >= tree.files.len() {
        lemma_markers_remain(store, s, from, to, tree);
        lemma_drop_succeeds(store, s, from, to, tree, tree.dirs.len(), now);
    } else {
        let (src, dst) = tree.files[i as int];
        lemma_source_there(store, s, from, to, tree, i as int);
        lemma_carry_one(store, s, from, to, tree, i as int, now);
        let (c, r) = copy_of(s, src, dst, now);
        let (t, q) = remove_file_of(c, src, true, now);
        lemma_rest_stays(store, s, t, from, tree, i as int);
        lemma_carry_succeeds(store, t, from, to, tree, i + 1, now);
    }
}

/// The move of a tree ends well where the collection above the
/// destination is there and nothing lies below the destination.
pub proof fn lemma_create_succeeds(
    store: StoreModel,
    s: StoreModel,
    from: Seq<char>,
    to: Seq<char>,
    tree: TreeView,
    i: nat,
    now: UnixTime,
)
    requires
        apart_dirs(from, to),
        store.objects.contains_key(from + dot_dir()),
        tree_inv(store, from, to, tree),
        tree_order(tree, tree.dirs.len() as int),
        i <= tree.dirs.len(),
        kept(store, s, from, to, tree),
        marked_upto(s, tree, i as int),
        only_marked(s, to, tree, i as int),
        rest_there(store, s, from, tree, 0),
        i == 0 ==> s == store && metadata_of(store, path_above(to), now) is Ok && metadata_of(
            store,
            path_above(to),
            now,
        )->Ok_0.is_dir,
    ensures
        create_from(s, tree, i, now).1 is Ok,
    decreases tree.dirs.len() - i,
{
    if i >= tree.dirs.len() {
        lemma_carry_succeeds(store, s, from, to, tree, 0, now);
    } else {
        let pair = tree.dirs[i as int];
        let dst = pair.1;
        assert(good_dir(from, to, pair));
        lemma_marker_key(dst);
        let key = dst + dot_dir();
        assert(!is_bucket_root(dst));
        if s.objects.contains_key(key) {
            lemma_mirrored_sides(from, to, pair, dot_dir());
            let x = choose|x: int|
                0 <= x < i && x < tree.dirs.len() && (#[trigger] tree.dirs[x]).1 + dot_dir() == key;
            assert(good_dir(from, to, tree.dirs[x]));
            assert(tree.dirs[x].1 =~= (tree.dirs[x].1 + dot_dir()).subrange(
                0,
                tree.dirs[x].1.len() as int,
            ));
            assert(dst =~= key.subrange(0, dst.len() as int));
            assert(tree.dirs[x].1 == dst + Seq::<char>::empty());
            lemma_mirror_is_one_to_one(from, to, tree.dirs[x], pair, Seq::empty());
            assert(pair.0 + Seq::<char>::empty() =~= pair.0);
            assert(tree.dirs[x].0 != tree.dirs[i as int].0);
        }
        let found = metadata_of(s, dst, now);
        assert(!(found is Ok && found->Ok_0.is_dir));
        let above = metadata_of(s, path_above(dst), now);
        if i > 0 {
            assert(has_parent(tree.dirs, i as int, tree.dirs.len() as int));
            let (p, seg) = choose|p: int, seg: Seq<char>|
                0 <= p < i && p < tree.dirs.len() && is_name(seg) && #[trigger] child_pair(
                    tree.dirs[p],
                    seg,
                ) == tree.dirs[i as int];
            let d = tree.dirs[p].1;
            assert(good_dir(from, to, tree.dirs[p]));
            lemma_above_below(d, seg);
            assert(dst == d + seg + root());
            assert(s.objects.contains_key(d + dot_dir()));
            assert(d.drop_last()[0] == d[0]);
            assert(!is_bucket_root(d.drop_last()));
        }
        assert(above is Ok && above->Ok_0.is_dir);
        let (t, r) = create_dir_of(s, dst, now);
        assert(r is Ok);
        assert(t == with_marker(s, dst));
        lemma_mirrored_sides(from, to, pair, dot_dir());
        assert(is_new_key(tree, key));
        lemma_adding_keeps(store, s, from, to, tree, key, Seq::empty());
        assert forall|k: Seq<char>|
            to.is_prefix_of(k) && #[trigger] t.objects.contains_key(k) implies exists|x: int|
            0 <= x < i + 1 && x < tree.dirs.len() && (#[trigger] tree.dirs[x]).1 + dot_dir()
                == k by {
            if k == key {
                assert(tree.dirs[i as int].1 + dot_dir() == k);
            } else {
                let x = choose|x: int|
                    0 <= x < i && x < tree.dirs.len() && (#[trigger] tree.dirs[x]).1 + dot_dir()
                        == k;
                assert(tree.dirs[x].1 + dot_dir() == k);
            }
        }
        lemma_create_succeeds(store, t, from, to, tree, i + 1, now);
    }
}

} // verus!
