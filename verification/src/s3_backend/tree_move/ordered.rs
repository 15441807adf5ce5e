//! The tree of a walk holds each collection and each resource once, and
//! each collection after the one that holds it.
use crate::s3_backend::entries::EntryView;
use crate::s3_backend::filesystem::{walk_add, TreeView};
use crate::s3_backend::metadata::UnixTime;
use crate::s3_backend::model::{read_dir_of, StoreModel};
use crate::s3_backend::tree_move::below::{dir_below, is_dir_path, is_name};
use crate::s3_backend::tree_move::deep_move::{first_tree, grown, walk_from};
use crate::s3_backend::tree_move::found::no_clash;
use crate::s3_backend::tree_move::once::lemma_names_differ;
use crate::s3_backend::tree_move::walked::{
    child_pair, entry_seg, file_pair, good_dir, keys_are_paths, lemma_entry_is_child,
    lemma_walk_add_keeps, lemma_walk_add_step, tree_inv,
};
use crate::text::dot_dir;
use vstd::prelude::*;

verus! {

/// The `x`-th pair of collections is that of a collection right below an
/// earlier one, which is among the first `bound`.
pub open spec fn has_parent(dirs: Seq<(Seq<char>, Seq<char>)>, x: int, bound: int) -> bool {
    exists|p: int, seg: Seq<char>|
        0 <= p < x && p < bound && is_name(seg) && #[trigger] child_pair(dirs[p], seg) == dirs[x]
}

/// The pair `f` is that of a resource right below one of the first
/// `bound` collections, and its name does not end with `.dir`.
pub open spec fn file_has_parent(
    dirs: Seq<(Seq<char>, Seq<char>)>,
    f: (Seq<char>, Seq<char>),
    bound: int,
) -> bool {
    exists|p: int, seg: Seq<char>|
        0 <= p < dirs.len() && p < bound && is_name(seg) && !dot_dir().is_suffix_of(dirs[p].0 + seg)
            && #[trigger] file_pair(dirs[p], seg) == f
}

/// No two of the pairs have the same source.
pub open spec fn once(pairs: Seq<(Seq<char>, Seq<char>)>) -> bool {
    forall|x: int, y: int|
        0 <= x < y < pairs.len() ==> (#[trigger] pairs[x]).0 != (#[trigger] pairs[y]).0
}

/// The order of a tree: every collection but the first lies right below
/// an earlier one, every resource right below a collection, both among
/// the first `bound`; and nothing is in the tree twice.
pub open spec fn tree_order(tree: TreeView, bound: int) -> bool {
    &&& forall|x: int| 0 < x < tree.dirs.len() ==> #[trigger] has_parent(tree.dirs, x, bound)
    &&& forall|x: int|
        0 <= x < tree.files.len() ==> file_has_parent(tree.dirs, #[trigger] tree.files[x], bound)
    &&& once(tree.dirs)
    &&& once(tree.files)
}

/// A collection lies right below one collection only, under one name.
pub proof fn lemma_one_parent(a: Seq<char>, b: Seq<char>, s: Seq<char>, t: Seq<char>)
    requires
        is_dir_path(a),
        is_dir_path(b),
        is_name(s),
        is_name(t),
        a + s == b + t,
    ensures
        a == b,
        s == t,
{
    let c = a + s;
    let n = a.len() as int;
    let m = b.len() as int;
    assert(c.len() == n + s.len());
    assert((b + t).len() == m + t.len());
    if n < m {
        assert(c[m - 1] == b[m - 1]);
        assert(c[m - 1] == s[m - 1 - n]);
    }
    if m < n {
        assert(c[n - 1] == a[n - 1]);
        assert((b + t)[n - 1] == t[n - 1 - m]);
    }
    assert(a =~= c.subrange(0, n));
    assert(b =~= (b + t).subrange(0, m));
    assert(s =~= c.skip(n));
    assert(t =~= (b + t).skip(m));
}

/// As `lemma_one_parent`, for the paths of two collections.
pub proof fn lemma_one_parent_dir(a: Seq<char>, b: Seq<char>, s: Seq<char>, t: Seq<char>)
    requires
        is_dir_path(a),
        is_dir_path(b),
        is_name(s),
        is_name(t),
        dir_below(a, s) == dir_below(b, t),
    ensures
        a == b,
        s == t,
{
    let c = dir_below(a, s);
    assert(a + s =~= c.drop_last());
    assert(b + t =~= dir_below(b, t).drop_last());
    lemma_one_parent(a, b, s, t);
}

/// Among the entries of a listing that are still to be added, none is in
/// the tree yet.
pub open spec fn not_yet(more: TreeView, src: Seq<char>, all: Seq<EntryView>, m: int) -> bool {
    &&& forall|x: int, j: int|
        0 <= x < more.dirs.len() && m <= j < all.len() && all[j].metadata.is_dir ==> (
        #[trigger] more.dirs[x]).0 != dir_below(src, entry_seg(#[trigger] all[j]))
    &&& forall|x: int, j: int|
        0 <= x < more.files.len() && m <= j < all.len() && !all[j].metadata.is_dir ==> (
        #[trigger] more.files[x]).0 != src + entry_seg(#[trigger] all[j])
}

/// A store in which no key below `from` is the name of a resource and of
/// a collection at once has none such below a collection below `from`.
pub proof fn lemma_no_clash_below(store: StoreModel, from: Seq<char>, d: Seq<char>)
    requires
        no_clash(store, from),
        from.is_prefix_of(d),
    ensures
        no_clash(store, d),
{
    assert forall|k: Seq<char>| d.is_prefix_of(k) implies from.is_prefix_of(k) by {
        assert(k.subrange(0, from.len() as int) =~= k.subrange(0, d.len() as int).subrange(
            0,
            from.len() as int,
        ));
    }
}

/// The order of a tree holds with a greater bound.
proof fn lemma_order_widens(tree: TreeView, bound: int, wider: int)
    requires
        tree_order(tree, bound),
        bound <= wider,
    ensures
        tree_order(tree, wider),
{
    assert forall|x: int| 0 < x < tree.dirs.len() implies #[trigger] has_parent(
        tree.dirs,
        x,
        wider,
    ) by {
        assert(has_parent(tree.dirs, x, bound));
        let (p, seg) = choose|p: int, seg: Seq<char>|
            0 <= p < x && p < bound && is_name(seg) && #[trigger] child_pair(tree.dirs[p], seg)
                == tree.dirs[x];
        assert(child_pair(tree.dirs[p], seg) == tree.dirs[x]);
    }
    assert forall|x: int| 0 <= x < tree.files.len() implies file_has_parent(
        tree.dirs,
        #[trigger] tree.files[x],
        wider,
    ) by {
        let f = tree.files[x];
        assert(file_has_parent(tree.dirs, f, bound));
        let (p, seg) = choose|p: int, seg: Seq<char>|
            0 <= p < tree.dirs.len() && p < bound && is_name(seg) && !dot_dir().is_suffix_of(
                tree.dirs[p].0 + seg,
            ) && #[trigger] file_pair(tree.dirs[p], seg) == f;
        assert(file_pair(tree.dirs[p], seg) == f);
    }
}

/// Before the listing of the `i`-th collection of a tree in order is
/// added, none of its entries is in the tree.
proof fn lemma_nothing_yet(
    store: StoreModel,
    from: Seq<char>,
    to: Seq<char>,
    tree: TreeView,
    i: int,
    now: UnixTime,
)
    requires
        store.objects.dom().finite(),
        keys_are_paths(store),
        tree_inv(store, from, to, tree),
        tree_order(tree, i),
        0 <= i < tree.dirs.len(),
        read_dir_of(store, tree.dirs[i].0, now) is Ok,
    ensures
        not_yet(tree, tree.dirs[i].0, read_dir_of(store, tree.dirs[i].0, now)->Ok_0, 0),
{
    let src = tree.dirs[i].0;
    let all = read_dir_of(store, src, now)->Ok_0;
    assert(good_dir(from, to, tree.dirs[i]));
    assert forall|x: int, j: int|
        0 <= x < tree.dirs.len() && 0 <= j < all.len() && all[j].metadata.is_dir implies (
    #[trigger] tree.dirs[x]).0 != dir_below(src, entry_seg(#[trigger] all[j])) by {
        let seg = lemma_entry_is_child(store, src, now, j);
        if tree.dirs[x].0 == dir_below(src, seg) {
            if x == 0 {
                assert(from.len() <= src.len());
            } else {
                assert(has_parent(tree.dirs, x, i));
                let (p, s) = choose|p: int, s: Seq<char>|
                    0 <= p < x && p < i && is_name(s) && #[trigger] child_pair(tree.dirs[p], s)
                        == tree.dirs[x];
                assert(good_dir(from, to, tree.dirs[p]));
                lemma_one_parent_dir(tree.dirs[p].0, src, s, seg);
            }
        }
    }
    assert forall|x: int, j: int|
        0 <= x < tree.files.len() && 0 <= j < all.len() && !all[j].metadata.is_dir implies (
    #[trigger] tree.files[x]).0 != src + entry_seg(#[trigger] all[j]) by {
        let seg = lemma_entry_is_child(store, src, now, j);
        let f = tree.files[x];
        if f.0 == src + seg {
            assert(file_has_parent(tree.dirs, f, i));
            let (p, s) = choose|p: int, s: Seq<char>|
                0 <= p < tree.dirs.len() && p < i && is_name(s) && !dot_dir().is_suffix_of(
                    tree.dirs[p].0 + s,
                ) && #[trigger] file_pair(tree.dirs[p], s) == f;
            assert(good_dir(from, to, tree.dirs[p]));
            lemma_one_parent(tree.dirs[p].0, src, s, seg);
        }
    }
}

/// The first `m` entries of the listing of the `i`-th collection of a
/// tree in order, added to the tree, leave the tree in order, and none
/// of the other entries is in it.
pub proof fn lemma_walk_add_orders(
    store: StoreModel,
    from: Seq<char>,
    to: Seq<char>,
    tree: TreeView,
    i: int,
    now: UnixTime,
    m: int,
)
    requires
        store.objects.dom().finite(),
        keys_are_paths(store),
        no_clash(store, from),
        tree_inv(store, from, to, tree),
        tree_order(tree, i),
        0 <= i < tree.dirs.len(),
        read_dir_of(store, tree.dirs[i].0, now) is Ok,
        0 <= m <= read_dir_of(store, tree.dirs[i].0, now)->Ok_0.len(),
    ensures
        ({
            let all = read_dir_of(store, tree.dirs[i].0, now)->Ok_0;
            let more = walk_add(tree, tree.dirs[i].0, tree.dirs[i].1, all.take(m));
            &&& tree_order(more, i + 1)
            &&& not_yet(more, tree.dirs[i].0, all, m)
        }),
    decreases m,
{
    let (src, dst) = tree.dirs[i];
    let all = read_dir_of(store, src, now)->Ok_0;
    let more = walk_add(tree, src, dst, all.take(m));
    assert(good_dir(from, to, tree.dirs[i]));
    if m == 0 {
        assert(all.take(0) =~= Seq::<EntryView>::empty());
        assert(more == tree);
        lemma_order_widens(tree, i, i + 1);
        lemma_nothing_yet(store, from, to, tree, i, now);
    } else {
        lemma_walk_add_orders(store, from, to, tree, i, now, m - 1);
        lemma_walk_add_keeps(store, from, to, tree, i, now, m - 1);
        lemma_walk_add_step(store, tree, i, now, m);
        let before = walk_add(tree, src, dst, all.take(m - 1));
        let e = all[m - 1];
        let seg = entry_seg(e);
        assert(before.dirs[i] == tree.dirs[i]) by {
            assert(before.dirs.subrange(0, tree.dirs.len() as int)[i] == tree.dirs[i]);
        }
        lemma_no_clash_below(store, from, src);
        assert forall|j: int| m <= j < all.len() && all[j].metadata.is_dir == e.metadata.is_dir implies entry_seg(
            all[j],
        ) != seg by {
            lemma_names_differ(store, src, now, m - 1, j);
        }
        if e.metadata.is_dir {
            let pair = child_pair(tree.dirs[i], seg);
            assert(more.dirs == before.dirs.push(pair));
            assert(more.files == before.files);
            assert forall|x: int| 0 < x < more.dirs.len() implies #[trigger] has_parent(
                more.dirs,
                x,
                i + 1,
            ) by {
                if x < before.dirs.len() {
                    assert(has_parent(before.dirs, x, i + 1));
                    let (p, s) = choose|p: int, s: Seq<char>|
                        0 <= p < x && p < i + 1 && is_name(s) && #[trigger] child_pair(
                            before.dirs[p],
                            s,
                        ) == before.dirs[x];
                    assert(child_pair(more.dirs[p], s) == more.dirs[x]);
                } else {
                    assert(child_pair(more.dirs[i], seg) == more.dirs[x]);
                }
            }
            assert forall|x: int| 0 <= x < more.files.len() implies file_has_parent(
                more.dirs,
                #[trigger] more.files[x],
                i + 1,
            ) by {
                let f = before.files[x];
                assert(file_has_parent(before.dirs, f, i + 1));
                let (p, s) = choose|p: int, s: Seq<char>|
                    0 <= p < before.dirs.len() && p < i + 1 && is_name(s)
                        && !dot_dir().is_suffix_of(before.dirs[p].0 + s) && #[trigger] file_pair(
                        before.dirs[p],
                        s,
                    ) == f;
                assert(file_pair(more.dirs[p], s) == f);
            }
            assert forall|x: int, y: int| 0 <= x < y < more.dirs.len() implies (
            #[trigger] more.dirs[x]).0 != (#[trigger] more.dirs[y]).0 by {
                if y < before.dirs.len() {
                    assert(before.dirs[x].0 != before.dirs[y].0);
                } else {
                    assert(before.dirs[x].0 != dir_below(src, entry_seg(all[m - 1])));
                }
            }
            assert forall|x: int, j: int|
                0 <= x < more.dirs.len() && m <= j < all.len() && all[j].metadata.is_dir implies (
            #[trigger] more.dirs[x]).0 != dir_below(src, entry_seg(#[trigger] all[j])) by {
                if x < before.dirs.len() {
                    assert(before.dirs[x].0 != dir_below(src, entry_seg(all[j])));
                } else {
                    let t = entry_seg(all[j]);
                    if dir_below(src, seg) == dir_below(src, t) {
                        assert(seg =~= dir_below(src, seg).skip(src.len() as int).drop_last());
                        assert(t =~= dir_below(src, t).skip(src.len() as int).drop_last());
                    }
                }
            }
            assert forall|x: int, j: int|
                0 <= x < more.files.len() && m <= j < all.len() && !all[j].metadata.is_dir implies (
            #[trigger] more.files[x]).0 != src + entry_seg(#[trigger] all[j]) by {
                assert(before.files[x].0 != src + entry_seg(all[j]));
            }
        } else {
            let pair = file_pair(tree.dirs[i], seg);
            assert(more.files == before.files.push(pair));
            assert(more.dirs == before.dirs);
            let found = lemma_entry_is_child(store, src, now, m - 1);
            assert forall|x: int| 0 <= x < more.files.len() implies file_has_parent(
                more.dirs,
                #[trigger] more.files[x],
                i + 1,
            ) by {
                if x < before.files.len() {
                    assert(more.files[x] == before.files[x]);
                } else {
                    assert(file_pair(more.dirs[i], seg) == more.files[x]);
                }
            }
            assert forall|x: int, y: int| 0 <= x < y < more.files.len() implies (
            #[trigger] more.files[x]).0 != (#[trigger] more.files[y]).0 by {
                if y < before.files.len() {
                    assert(before.files[x].0 != before.files[y].0);
                } else {
                    assert(before.files[x].0 != src + entry_seg(all[m - 1]));
                }
            }
            assert forall|x: int, j: int|
                0 <= x < more.files.len() && m <= j < all.len() && !all[j].metadata.is_dir implies (
            #[trigger] more.files[x]).0 != src + entry_seg(#[trigger] all[j]) by {
                if x < before.files.len() {
                    assert(before.files[x].0 != src + entry_seg(all[j]));
                } else {
                    let t = entry_seg(all[j]);
                    if src + seg == src + t {
                        assert(seg =~= (src + seg).skip(src.len() as int));
                        assert(t =~= (src + t).skip(src.len() as int));
                    }
                }
            }
            assert forall|x: int, j: int|
                0 <= x < more.dirs.len() && m <= j < all.len() && all[j].metadata.is_dir implies (
            #[trigger] more.dirs[x]).0 != dir_below(src, entry_seg(#[trigger] all[j])) by {
                assert(before.dirs[x].0 != dir_below(src, entry_seg(all[j])));
            }
        }
    }
}

/// The tree that a walk starts with is in order.
pub proof fn lemma_first_in_order(from: Seq<char>, to: Seq<char>)
    ensures
        tree_order(first_tree(from, to), 0),
{
}

/// The tree that a walk ends with is in order.
pub proof fn lemma_walk_orders(
    store: StoreModel,
    from: Seq<char>,
    to: Seq<char>,
    tree: TreeView,
    i: nat,
    now: UnixTime,
    n: nat,
)
    requires
        store.objects.dom().finite(),
        keys_are_paths(store),
        no_clash(store, from),
        tree_inv(store, from, to, tree),
        tree_order(tree, i as int),
        walk_from(store, tree, i, now, n) is Some,
        walk_from(store, tree, i, now, n)->Some_0 is Ok,
    ensures
        tree_order(
            walk_from(store, tree, i, now, n)->Some_0->Ok_0,
            walk_from(store, tree, i, now, n)->Some_0->Ok_0.dirs.len() as int,
        ),
    decreases n,
{
    if i >= tree.dirs.len() {
        assert forall|x: int| 0 < x < tree.dirs.len() implies #[trigger] has_parent(
            tree.dirs,
            x,
            tree.dirs.len() as int,
        ) by {
            assert(has_parent(tree.dirs, x, i as int));
            let (p, seg) = choose|p: int, seg: Seq<char>|
                0 <= p < x && p < i && is_name(seg) && #[trigger] child_pair(tree.dirs[p], seg)
                    == tree.dirs[x];
            assert(child_pair(tree.dirs[p], seg) == tree.dirs[x]);
        }
        assert forall|x: int| 0 <= x < tree.files.len() implies file_has_parent(
            tree.dirs,
            #[trigger] tree.files[x],
            tree.dirs.len() as int,
        ) by {
            let f = tree.files[x];
            assert(file_has_parent(tree.dirs, f, i as int));
            let (p, seg) = choose|p: int, seg: Seq<char>|
                0 <= p < tree.dirs.len() && p < i && is_name(seg) && !dot_dir().is_suffix_of(
                    tree.dirs[p].0 + seg,
                ) && #[trigger] file_pair(tree.dirs[p], seg) == f;
            assert(file_pair(tree.dirs[p], seg) == f);
        }
    } else {
        let all = read_dir_of(store, tree.dirs[i as int].0, now)->Ok_0;
        lemma_walk_add_keeps(store, from, to, tree, i as int, now, all.len() as int);
        lemma_walk_add_orders(store, from, to, tree, i as int, now, all.len() as int);
        assert(all.take(all.len() as int) =~= all);
        let more = grown(store, tree, i, now);
        lemma_walk_orders(store, from, to, more, i + 1, now, (n - 1) as nat);
    }
}

} // verus!
