//! What the move of a tree leaves in the store.
//!
//! The source and the destination are two collections of which neither
//! lies in the other. A move that ends well only takes keys away below
//! the source, only adds keys below the destination, and leaves all other
//! keys as they were.

use crate::normalized_path::parent_spec;
use crate::s3_backend::filesystem::{
    copy_source, copy_target, copy_target_form, is_bucket_root, sentinel_key, TreeView,
};
use crate::s3_backend::metadata::UnixTime;
use crate::s3_backend::model::{create_dir_of, metadata_of, with_marker, StoreModel};
use crate::s3_backend::moving::with_copy;
use crate::s3_backend::tree_move::below::lemma_marker_key;
use crate::s3_backend::tree_move::deep_move::{
    carry_from, copy_of, copy_sent, create_from, drop_from, remove_dir_of, remove_file_of,
};
use crate::s3_backend::tree_move::walked::{good_dir, good_file, mirrored, tree_inv};
use crate::text::dot_dir;
use vstd::prelude::*;

verus! {

/// Neither of two collections lies in the other.
pub open spec fn apart_dirs(from: Seq<char>, to: Seq<char>) -> bool {
    !from.is_prefix_of(to) && !to.is_prefix_of(from)
}

/// No key lies below two collections that are apart.
pub proof fn lemma_sides_apart(from: Seq<char>, to: Seq<char>, k: Seq<char>)
    requires
        apart_dirs(from, to),
    ensures
        !(from.is_prefix_of(k) && to.is_prefix_of(k)),
{
    if from.is_prefix_of(k) && to.is_prefix_of(k) {
        if from.len() <= to.len() {
            assert(to.subrange(0, from.len() as int) =~= k.subrange(0, to.len() as int).subrange(
                0,
                from.len() as int,
            ));
            assert(k.subrange(0, to.len() as int).subrange(0, from.len() as int) =~= k.subrange(
                0,
                from.len() as int,
            ));
        } else {
            assert(from.subrange(0, to.len() as int) =~= k.subrange(0, from.len() as int).subrange(
                0,
                to.len() as int,
            ));
            assert(k.subrange(0, from.len() as int).subrange(0, to.len() as int) =~= k.subrange(
                0,
                to.len() as int,
            ));
        }
    }
}

/// A key that the move of the tree may add: the key of the object that
/// marks one of its collections at the destination, or the destination
/// of one of its resources.
pub open spec fn is_new_key(tree: TreeView, k: Seq<char>) -> bool {
    ||| exists|x: int| 0 <= x < tree.dirs.len() && (#[trigger] tree.dirs[x]).1 + dot_dir() == k
    ||| exists|x: int| 0 <= x < tree.files.len() && (#[trigger] tree.files[x]).1 == k
}

/// What a move keeps at every time: below the source keys are only taken
/// away, below the destination only keys of the tree are added, and all
/// else stays.
pub open spec fn kept(
    store: StoreModel,
    s: StoreModel,
    from: Seq<char>,
    to: Seq<char>,
    tree: TreeView,
) -> bool {
    &&& s.uploads == store.uploads
    &&& s.started == store.started
    &&& forall|k: Seq<char>|
        from.is_prefix_of(k) && #[trigger] s.objects.contains_key(k)
            ==> store.objects.contains_key(k) && s.objects[k] == store.objects[k]
    &&& forall|k: Seq<char>|
        to.is_prefix_of(k) && #[trigger] s.objects.contains_key(k) ==> is_new_key(tree, k)
    &&& forall|k: Seq<char>|
        !from.is_prefix_of(k) && !to.is_prefix_of(k) ==> (#[trigger] s.objects.contains_key(k)
            <==> store.objects.contains_key(k))
    &&& forall|k: Seq<char>|
        !from.is_prefix_of(k) && !to.is_prefix_of(k) && #[trigger] s.objects.contains_key(k)
            ==> s.objects[k] == store.objects[k]
}

/// The collections of the tree before the `i`-th are marked at the
/// destination.
pub open spec fn marked_upto(s: StoreModel, tree: TreeView, i: int) -> bool {
    forall|j: int|
        0 <= j < i && j < tree.dirs.len() ==> s.objects.contains_key(
            (#[trigger] tree.dirs[j]).1 + dot_dir(),
        )
}

/// The resources of the tree before the `i`-th have left their sources
/// and are at their destinations with what the sources held.
pub open spec fn carried_upto(store: StoreModel, s: StoreModel, tree: TreeView, i: int) -> bool {
    forall|j: int|
        0 <= j < i && j < tree.files.len() ==> {
            &&& !s.objects.contains_key((#[trigger] tree.files[j]).0)
            &&& s.objects.contains_key(tree.files[j].1)
            &&& s.objects[tree.files[j].1] == store.objects[tree.files[j].0]
        }
}

/// The collections of the tree from the `i`-th on are marked at the
/// source no more.
pub open spec fn dropped_from(s: StoreModel, tree: TreeView, i: int) -> bool {
    forall|j: int|
        i <= j < tree.dirs.len() && 0 <= j ==> !s.objects.contains_key(
            (#[trigger] tree.dirs[j]).0 + dot_dir(),
        )
}

/// What a move that ended well leaves.
pub open spec fn moved(
    store: StoreModel,
    after: StoreModel,
    from: Seq<char>,
    to: Seq<char>,
    tree: TreeView,
) -> bool {
    &&& kept(store, after, from, to, tree)
    &&& marked_upto(after, tree, tree.dirs.len() as int)
    &&& carried_upto(store, after, tree, tree.files.len() as int)
    &&& dropped_from(after, tree, 0)
}

/// A key of the tree, added below the destination, keeps what a move
/// keeps.
pub proof fn lemma_adding_keeps(
    store: StoreModel,
    s: StoreModel,
    from: Seq<char>,
    to: Seq<char>,
    tree: TreeView,
    key: Seq<char>,
    value: Seq<u8>,
)
    requires
        apart_dirs(from, to),
        kept(store, s, from, to, tree),
        to.is_prefix_of(key),
        is_new_key(tree, key),
    ensures
        kept(store, StoreModel { objects: s.objects.insert(key, value), ..s }, from, to, tree),
{
    lemma_sides_apart(from, to, key);
}

/// A key taken away below the source keeps what a move keeps.
pub proof fn lemma_taking_keeps(
    store: StoreModel,
    s: StoreModel,
    from: Seq<char>,
    to: Seq<char>,
    tree: TreeView,
    key: Seq<char>,
)
    requires
        apart_dirs(from, to),
        kept(store, s, from, to, tree),
        from.is_prefix_of(key),
    ensures
        kept(store, StoreModel { objects: s.objects.remove(key), ..s }, from, to, tree),
{
    lemma_sides_apart(from, to, key);
}

/// A path below a mirrored pair lies below the source on one side and
/// below the destination on the other.
pub proof fn lemma_mirrored_sides(
    from: Seq<char>,
    to: Seq<char>,
    pair: (Seq<char>, Seq<char>),
    tail: Seq<char>,
)
    requires
        mirrored(from, to, pair),
    ensures
        from.is_prefix_of(pair.0 + tail),
        to.is_prefix_of(pair.1 + tail),
        from.is_prefix_of(pair.0),
        to.is_prefix_of(pair.1),
{
    let n = from.len() as int;
    assert((pair.0 + tail).subrange(0, n) =~= pair.0.subrange(0, n));
    assert((pair.1 + tail).subrange(0, to.len() as int) =~= to);
    assert(pair.1.subrange(0, to.len() as int) =~= to);
}

/// Two mirrored pairs with one destination have one source.
pub proof fn lemma_mirror_is_one_to_one(
    from: Seq<char>,
    to: Seq<char>,
    a: (Seq<char>, Seq<char>),
    b: (Seq<char>, Seq<char>),
    tail: Seq<char>,
)
    requires
        mirrored(from, to, a),
        mirrored(from, to, b),
        a.1 == b.1 + tail,
    ensures
        a.0 == b.0 + tail,
{
    let n = from.len() as int;
    let x = a.0.skip(n);
    let y = b.0.skip(n);
    assert(to + x == to + y + tail);
    assert(x =~= (to + x).skip(to.len() as int));
    assert(y + tail =~= (to + y + tail).skip(to.len() as int));
    assert(a.0 =~= a.0.subrange(0, n) + x);
    assert(b.0 =~= b.0.subrange(0, n) + y);
    assert(a.0 =~= b.0 + tail);
}

/// The end of a move that ends well leaves what a move leaves.
pub proof fn lemma_drop_leaves(
    store: StoreModel,
    s: StoreModel,
    from: Seq<char>,
    to: Seq<char>,
    tree: TreeView,
    i: nat,
    now: UnixTime,
)
    requires
        apart_dirs(from, to),
        tree_inv(store, from, to, tree),
        i <= tree.dirs.len(),
        kept(store, s, from, to, tree),
        marked_upto(s, tree, tree.dirs.len() as int),
        carried_upto(store, s, tree, tree.files.len() as int),
        dropped_from(s, tree, i as int),
        drop_from(s, tree, i, now).1 is Ok,
    ensures
        moved(store, drop_from(s, tree, i, now).0, from, to, tree),
    decreases i,
{
    if i > 0 {
        let pair = tree.dirs[i - 1];
        let path = pair.0;
        assert(good_dir(from, to, pair));
        lemma_marker_key(path);
        let key = path + dot_dir();
        let (t, r) = remove_dir_of(s, path, now);
        assert(r is Ok);
        assert(t == StoreModel { objects: s.objects.remove(key), ..s });
        lemma_mirrored_sides(from, to, pair, dot_dir());
        lemma_taking_keeps(store, s, from, to, tree, key);
        assert forall|j: int| 0 <= j < tree.dirs.len() implies t.objects.contains_key(
            (#[trigger] tree.dirs[j]).1 + dot_dir(),
        ) by {
            assert(good_dir(from, to, tree.dirs[j]));
            lemma_mirrored_sides(from, to, tree.dirs[j], dot_dir());
            lemma_sides_apart(from, to, key);
        }
        assert forall|j: int| 0 <= j < tree.files.len() implies {
            &&& !t.objects.contains_key((#[trigger] tree.files[j]).0)
            &&& t.objects.contains_key(tree.files[j].1)
            &&& t.objects[tree.files[j].1] == store.objects[tree.files[j].0]
        } by {
            assert(good_file(store, from, to, tree.dirs, tree.files[j]));
            lemma_mirrored_sides(from, to, tree.files[j], Seq::empty());
            assert(tree.files[j].1 + Seq::<char>::empty() =~= tree.files[j].1);
            lemma_sides_apart(from, to, key);
        }
        lemma_drop_leaves(store, t, from, to, tree, (i - 1) as nat, now);
    }
}

/// The middle of a move that ends well leaves what a move leaves.
pub proof fn lemma_carry_leaves(
    store: StoreModel,
    s: StoreModel,
    from: Seq<char>,
    to: Seq<char>,
    tree: TreeView,
    i: nat,
    now: UnixTime,
)
    requires
        apart_dirs(from, to),
        tree_inv(store, from, to, tree),
        i <= tree.files.len(),
        kept(store, s, from, to, tree),
        marked_upto(s, tree, tree.dirs.len() as int),
        carried_upto(store, s, tree, i as int),
        carry_from(s, tree, i, now).1 is Ok,
    ensures
        moved(store, carry_from(s, tree, i, now).0, from, to, tree),
    decreases tree.files.len() - i,
{
    if i >= tree.files.len() {
        lemma_drop_leaves(store, s, from, to, tree, tree.dirs.len(), now);
    } else {
        let pair = tree.files[i as int];
        let (src, dst) = pair;
        assert(good_file(store, from, to, tree.dirs, pair));
        assert(copy_target_form(src, dst) == dst);
        assert(copy_source(src, dst) == src);
        assert(copy_target(src, dst) == dst);
        let above = parent_spec(dst);
        let p = choose|p: int| 0 <= p < tree.dirs.len() && (#[trigger] tree.dirs[p]).1 == above;
        assert(good_dir(from, to, tree.dirs[p]));
        lemma_marker_key(above);
        assert(s.objects.contains_key(sentinel_key(above)));
        assert(metadata_of(s, above, now) is Ok);
        let (c, r) = copy_of(s, src, dst, now);
        assert((c, r) == copy_sent(s, src, dst));
        assert(r is Ok);
        assert(s.objects.contains_key(src));
        assert(c == with_copy(s, src, dst));
        lemma_mirrored_sides(from, to, pair, Seq::empty());
        assert(src + Seq::<char>::empty() =~= src);
        assert(dst + Seq::<char>::empty() =~= dst);
        assert(is_new_key(tree, dst));
        lemma_adding_keeps(store, s, from, to, tree, dst, s.objects[src]);
        lemma_sides_apart(from, to, src);
        lemma_sides_apart(from, to, dst);
        let (t, q) = remove_file_of(c, src, true, now);
        assert(q is Ok);
        assert(t == StoreModel { objects: c.objects.remove(src), ..c });
        lemma_taking_keeps(store, c, from, to, tree, src);
        assert forall|j: int| 0 <= j < tree.dirs.len() implies t.objects.contains_key(
            (#[trigger] tree.dirs[j]).1 + dot_dir(),
        ) by {
            assert(good_dir(from, to, tree.dirs[j]));
            lemma_mirrored_sides(from, to, tree.dirs[j], dot_dir());
            lemma_sides_apart(from, to, tree.dirs[j].1 + dot_dir());
        }
        assert forall|j: int| 0 <= j < i + 1 && j < tree.files.len() implies {
            &&& !t.objects.contains_key((#[trigger] tree.files[j]).0)
            &&& t.objects.contains_key(tree.files[j].1)
            &&& t.objects[tree.files[j].1] == store.objects[tree.files[j].0]
        } by {
            let other = tree.files[j];
            assert(good_file(store, from, to, tree.dirs, other));
            lemma_mirrored_sides(from, to, other, Seq::empty());
            assert(other.0 + Seq::<char>::empty() =~= other.0);
            assert(other.1 + Seq::<char>::empty() =~= other.1);
            lemma_sides_apart(from, to, other.0);
            lemma_sides_apart(from, to, other.1);
            if j < i {
                if other.1 == dst {
                    assert(dst == other.1 + Seq::<char>::empty());
                    lemma_mirror_is_one_to_one(from, to, pair, other, Seq::empty());
                }
            }
        }
        lemma_carry_leaves(store, t, from, to, tree, i + 1, now);
    }
}

/// The move of a tree that ends well leaves what a move leaves.
pub proof fn lemma_create_leaves(
    store: StoreModel,
    s: StoreModel,
    from: Seq<char>,
    to: Seq<char>,
    tree: TreeView,
    i: nat,
    now: UnixTime,
)
    requires
        apart_dirs(from, to),
        tree_inv(store, from, to, tree),
        i <= tree.dirs.len(),
        kept(store, s, from, to, tree),
        marked_upto(s, tree, i as int),
        create_from(s, tree, i, now).1 is Ok,
    ensures
        moved(store, create_from(s, tree, i, now).0, from, to, tree),
    decreases tree.dirs.len() - i,
{
    if i >= tree.dirs.len() {
        lemma_carry_leaves(store, s, from, to, tree, 0, now);
    } else {
        let pair = tree.dirs[i as int];
        let dst = pair.1;
        assert(good_dir(from, to, pair));
        lemma_marker_key(dst);
        let key = dst + dot_dir();
        let (t, r) = create_dir_of(s, dst, now);
        assert(r is Ok);
        assert(!is_bucket_root(dst));
        assert(t == with_marker(s, dst));
        lemma_mirrored_sides(from, to, pair, dot_dir());
        assert(is_new_key(tree, key));
        lemma_adding_keeps(store, s, from, to, tree, key, Seq::empty());
        lemma_create_leaves(store, t, from, to, tree, i + 1, now);
    }
}

} // verus!
