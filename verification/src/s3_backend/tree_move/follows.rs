//! A collection that is moved takes all that lies below it along.
use crate::error::FsError;
use crate::normalized_path::root;
use crate::s3_backend::filesystem::{
    is_bucket_root, new_rename_op, path_above, sentinel_key, OutcomeView, TreeView,
};
use crate::s3_backend::metadata::{MetaView, UnixTime};
use crate::s3_backend::model::{metadata_of, run, StoreModel};
use crate::s3_backend::tree_move::below::{is_dir_path, lemma_marker_key};
use crate::s3_backend::tree_move::carried::{
    apart_dirs, is_new_key, kept, lemma_create_leaves, moved,
};
use crate::s3_backend::tree_move::deep_move::{
    create_from, first_tree, law_move_does_what_it_says, move_of, walk_from,
};
use crate::s3_backend::tree_move::ends::{
    lemma_move_ends, lemma_store_is_wide, lemma_tree_fits, lemma_walk_from_ends,
};
use crate::s3_backend::tree_move::found::{
    lemma_key_found, lemma_walk_closes, listed_in, marked_below, no_clash, plain_names,
};
use crate::s3_backend::tree_move::ordered::{lemma_first_in_order, lemma_walk_orders};
use crate::s3_backend::tree_move::succeeds::{lemma_create_succeeds, lemma_walk_succeeds};
use crate::s3_backend::tree_move::walked::{
    good_dir, good_file, keys_are_paths, lemma_first_tree, lemma_walk_keeps, mirrored, tree_inv,
};
use crate::text::{dot_dir, ends_with_char};
use vstd::prelude::*;

verus! {

/// The place below `to` that mirrors the place of `k` below `from`.
pub open spec fn mirror_of(from: Seq<char>, to: Seq<char>, k: Seq<char>) -> Seq<char> {
    to + k.skip(from.len() as int)
}

/// No key of the store lies below `to`.
pub open spec fn nothing_below(store: StoreModel, to: Seq<char>) -> bool {
    forall|k: Seq<char>| #[trigger] store.objects.contains_key(k) ==> !to.is_prefix_of(k)
}

/// What a move of the collection `from` to `to` leaves of a store, key
/// by key: no key below `from`; below `to` the keys that were below
/// `from`, each with what it held unless it marks a collection; and all
/// other keys as they were.
pub open spec fn moved_keys(store: StoreModel, after: StoreModel, from: Seq<char>, to: Seq<char>) -> bool {
    &&& forall|k: Seq<char>| from.is_prefix_of(k) ==> !#[trigger] after.objects.contains_key(k)
    &&& forall|k: Seq<char>|
        from.is_prefix_of(k) && #[trigger] store.objects.contains_key(k)
            ==> after.objects.contains_key(mirror_of(from, to, k))
    &&& forall|k: Seq<char>|
        from.is_prefix_of(k) && #[trigger] store.objects.contains_key(k) && !dot_dir().is_suffix_of(k)
            ==> after.objects[mirror_of(from, to, k)] == store.objects[k]
    &&& forall|k: Seq<char>|
        to.is_prefix_of(k) && #[trigger] after.objects.contains_key(k)
            ==> store.objects.contains_key(mirror_of(to, from, k))
    &&& forall|k: Seq<char>|
        !from.is_prefix_of(k) && !to.is_prefix_of(k) ==> (#[trigger] after.objects.contains_key(k)
            <==> store.objects.contains_key(k))
    &&& forall|k: Seq<char>|
        !from.is_prefix_of(k) && !to.is_prefix_of(k) && #[trigger] after.objects.contains_key(k)
            ==> after.objects[k] == store.objects[k]
}

/// What follows a mirrored pair on one side is mirrored by what follows
/// it on the other.
proof fn lemma_mirror_of_pair(
    from: Seq<char>,
    to: Seq<char>,
    pair: (Seq<char>, Seq<char>),
    tail: Seq<char>,
)
    requires
        mirrored(from, to, pair),
    ensures
        mirror_of(from, to, pair.0 + tail) == pair.1 + tail,
        mirror_of(to, from, pair.1 + tail) == pair.0 + tail,
        from.is_prefix_of(pair.0 + tail),
        to.is_prefix_of(pair.1 + tail),
{
    let n = from.len() as int;
    let m = to.len() as int;
    let rest = pair.0.skip(n);
    assert((pair.0 + tail).skip(n) =~= rest + tail);
    assert(to + (rest + tail) =~= pair.1 + tail);
    assert((pair.1 + tail).skip(m) =~= rest + tail);
    assert(pair.0 =~= from + rest) by {
        assert(pair.0.subrange(0, n) =~= from);
    }
    assert(from + (rest + tail) =~= pair.0 + tail);
    assert((pair.0 + tail).subrange(0, n) =~= from);
    assert((pair.1 + tail).subrange(0, m) =~= to);
}

/// A move that left what a move leaves, of a tree that holds all that
/// lay below the source, left the keys as `moved_keys` says.
proof fn lemma_keys_moved(
    store: StoreModel,
    after: StoreModel,
    from: Seq<char>,
    to: Seq<char>,
    tree: TreeView,
    now: UnixTime,
)
    requires
        store.objects.dom().finite(),
        keys_are_paths(store),
        is_dir_path(from),
        is_dir_path(to),
        apart_dirs(from, to),
        marked_below(store, from),
        plain_names(store, from),
        no_clash(store, from),
        tree_inv(store, from, to, tree),
        forall|p: int| 0 <= p < tree.dirs.len() ==> #[trigger] listed_in(store, tree, p, now),
        moved(store, after, from, to, tree),
    ensures
        moved_keys(store, after, from, to),
{
    let none = Seq::<char>::empty();
    assert forall|k: Seq<char>| from.is_prefix_of(k) implies !#[trigger] after.objects.contains_key(
        k,
    ) by {
        if after.objects.contains_key(k) {
            lemma_key_found(store, from, to, tree, k, now);
        }
    }
    assert forall|k: Seq<char>|
        from.is_prefix_of(k) && #[trigger] store.objects.contains_key(k) implies {
        &&& after.objects.contains_key(mirror_of(from, to, k))
        &&& !dot_dir().is_suffix_of(k) ==> after.objects[mirror_of(from, to, k)] == store.objects[k]
    } by {
        lemma_key_found(store, from, to, tree, k, now);
        if exists|x: int| 0 <= x < tree.dirs.len() && (#[trigger] tree.dirs[x]).0 + dot_dir() == k {
            let x = choose|x: int|
                0 <= x < tree.dirs.len() && (#[trigger] tree.dirs[x]).0 + dot_dir() == k;
            assert(good_dir(from, to, tree.dirs[x]));
            lemma_mirror_of_pair(from, to, tree.dirs[x], dot_dir());
            assert(k.subrange(k.len() - 4, k.len() as int) =~= dot_dir());
        }
        if exists|x: int| 0 <= x < tree.files.len() && (#[trigger] tree.files[x]).0 == k {
            let x = choose|x: int| 0 <= x < tree.files.len() && (#[trigger] tree.files[x]).0 == k;
            assert(good_file(store, from, to, tree.dirs, tree.files[x]));
            lemma_mirror_of_pair(from, to, tree.files[x], none);
            assert(tree.files[x].0 + none =~= tree.files[x].0);
            assert(tree.files[x].1 + none =~= tree.files[x].1);
        }
    }
    assert forall|k: Seq<char>|
        to.is_prefix_of(k) && #[trigger] after.objects.contains_key(
            k,
        ) implies store.objects.contains_key(mirror_of(to, from, k)) by {
        assert(is_new_key(tree, k));
        if exists|x: int| 0 <= x < tree.dirs.len() && (#[trigger] tree.dirs[x]).1 + dot_dir() == k {
            let x = choose|x: int|
                0 <= x < tree.dirs.len() && (#[trigger] tree.dirs[x]).1 + dot_dir() == k;
            assert(good_dir(from, to, tree.dirs[x]));
            lemma_mirror_of_pair(from, to, tree.dirs[x], dot_dir());
            if x == 0 {
                assert(listed_in(store, tree, 0, now));
                lemma_marker_key(from);
                assert(!is_bucket_root(from));
            }
        } else {
            let x = choose|x: int| 0 <= x < tree.files.len() && (#[trigger] tree.files[x]).1 == k;
            assert(good_file(store, from, to, tree.dirs, tree.files[x]));
            lemma_mirror_of_pair(from, to, tree.files[x], none);
            assert(tree.files[x].0 + none =~= tree.files[x].0);
            assert(tree.files[x].1 + none =~= tree.files[x].1);
        }
    }
}

/// The key of the object that marks what is mirrored is the mirror of the
/// key of the object that marks what it mirrors.
proof fn lemma_marker_is_mirrored(from: Seq<char>, to: Seq<char>, p: Seq<char>)
    requires
        is_dir_path(from),
        is_dir_path(to),
        from.is_prefix_of(p),
    ensures
        from.is_prefix_of(sentinel_key(p)),
        sentinel_key(mirror_of(from, to, p)) == mirror_of(from, to, sentinel_key(p)),
        !is_bucket_root(mirror_of(from, to, p)),
        !is_bucket_root(p),
        to.is_prefix_of(mirror_of(from, to, p)),
        to.is_prefix_of(sentinel_key(mirror_of(from, to, p))),
        mirror_of(to, from, mirror_of(from, to, p)) == p,
{
    let n = from.len() as int;
    let q = mirror_of(from, to, p);
    let rest = p.skip(n);
    assert(p =~= from + rest) by {
        assert(p.subrange(0, n) =~= from);
    }
    assert(crate::normalized_path::trim_token_spec(dot_dir()) =~= dot_dir());
    assert(p[0] == from[0]);
    assert(q[0] == to[0]);
    assert(q.last() == p.last()) by {
        if rest.len() == 0 {
            assert(q =~= to);
            assert(p =~= from);
        } else {
            assert(q.last() == rest.last());
            assert(p.last() == rest.last());
        }
    }
    assert(q.skip(to.len() as int) =~= rest);
    assert(q.subrange(0, to.len() as int) =~= to);
    if ends_with_char(p, '/') {
        assert((p + dot_dir())[0] == p[0]);
        assert((q + dot_dir())[0] == q[0]);
        assert(sentinel_key(p) == p + dot_dir());
        assert(sentinel_key(q) == q + dot_dir());
        assert((p + dot_dir()).skip(n) =~= rest + dot_dir());
        assert(q + dot_dir() =~= to + (rest + dot_dir()));
        assert((p + dot_dir()).subrange(0, n) =~= from);
        assert((q + dot_dir()).subrange(0, to.len() as int) =~= to);
    } else {
        assert((p + root() + dot_dir())[0] == p[0]);
        assert((q + root() + dot_dir())[0] == q[0]);
        assert(sentinel_key(p) == p + root() + dot_dir());
        assert(sentinel_key(q) == q + root() + dot_dir());
        assert((p + root() + dot_dir()).skip(n) =~= rest + root() + dot_dir());
        assert(q + root() + dot_dir() =~= to + (rest + root() + dot_dir()));
        assert((p + root() + dot_dir()).subrange(0, n) =~= from);
        assert((q + root() + dot_dir()).subrange(0, to.len() as int) =~= to);
    }
}

/// A store and a move in good order: the keys of the store are paths of
/// resources; the source is a collection that is marked, as is every
/// collection below it on the way to a key; below the source no name
/// ends with `.dir` but that of the objects that mark collections, and
/// no name is that of a resource and of a collection at once; neither
/// the source nor the destination lies in the other; nothing lies below
/// the destination, and the collection above it is there.
pub open spec fn in_good_order(store: StoreModel, from: Seq<char>, to: Seq<char>, now: UnixTime) -> bool {
    &&& store.objects.dom().finite()
    &&& keys_are_paths(store)
    &&& is_dir_path(from)
    &&& is_dir_path(to)
    &&& apart_dirs(from, to)
    &&& store.objects.contains_key(from + dot_dir())
    &&& marked_below(store, from)
    &&& plain_names(store, from)
    &&& no_clash(store, from)
    &&& nothing_below(store, to)
    &&& metadata_of(store, path_above(to), now) is Ok
    &&& metadata_of(store, path_above(to), now)->Ok_0.is_dir
}

/// The steps that are enough for a move in a store to end: four for each
/// key of the store and eight more.
pub open spec fn enough_steps(store: StoreModel) -> nat {
    4 * store.objects.dom().len() + 8
}

/// A move in good order that is given `enough_steps` ends.
proof fn lemma_move_is_given_enough(
    store: StoreModel,
    from: Seq<char>,
    to: Seq<char>,
    now: UnixTime,
    fuel: nat,
)
    requires
        in_good_order(store, from, to, now),
        run(new_rename_op(from, to), store, now, fuel) is Some || fuel >= enough_steps(store),
    ensures
        run(new_rename_op(from, to), store, now, fuel) is Some,
{
    if fuel >= enough_steps(store) {
        let first = first_tree(from, to);
        let n = store.objects.dom().len() + 1;
        lemma_first_tree(store, from, to);
        lemma_first_in_order(from, to);
        lemma_walk_from_ends(store, from, to, first, 0, now, n);
        lemma_store_is_wide(store);
        if walk_from(store, first, 0, now, n)->Some_0 is Ok {
            let tree = walk_from(store, first, 0, now, n)->Some_0->Ok_0;
            lemma_walk_keeps(store, from, to, first, 0, now, n);
            lemma_walk_orders(store, from, to, first, 0, now, n);
            lemma_tree_fits(store, from, to, tree);
        }
        lemma_move_ends(store, from, to, now, fuel, n, 2 * store.objects.dom().len());
    }
}

/// A collection that is moved is found no more at the place it left,
/// nor is anything below that place; and whatever was found below it is
/// found, as it was, at the place that mirrors it below the place it
/// went to. All other keys of the store stay as they were.
///
/// This holds of every store and move in good order, whenever the run of
/// the move is given steps enough to end; `enough_steps` are enough.
pub proof fn law_moved_collection_follows(
    store: StoreModel,
    from: Seq<char>,
    to: Seq<char>,
    now: UnixTime,
    fuel: nat,
)
    requires
        in_good_order(store, from, to, now),
        run(new_rename_op(from, to), store, now, fuel) is Some || fuel >= enough_steps(store),
    ensures
        ({
            let after = run(new_rename_op(from, to), store, now, fuel)->Some_0.0;
            &&& run(new_rename_op(from, to), store, now, fuel) is Some
            &&& run(new_rename_op(from, to), store, now, fuel)->Some_0.1 == OutcomeView::Unit(
                Ok(()),
            )
            &&& moved_keys(store, after, from, to)
            &&& after.uploads == store.uploads
            &&& after.started == store.started
            &&& metadata_of(after, from, now) == Err::<MetaView, FsError>(FsError::NotFound)
            &&& forall|p: Seq<char>|
                from.is_prefix_of(p) && (#[trigger] metadata_of(store, p, now)) is Ok
                    && metadata_of(store, p, now)->Ok_0.is_dir ==> metadata_of(
                    after,
                    mirror_of(from, to, p),
                    now,
                ) is Ok && metadata_of(after, mirror_of(from, to, p), now)->Ok_0.is_dir
            &&& forall|p: Seq<char>|
                from.is_prefix_of(p) && (#[trigger] metadata_of(store, p, now)) is Ok
                    && !metadata_of(store, p, now)->Ok_0.is_dir && !dot_dir().is_suffix_of(p)
                    ==> metadata_of(after, mirror_of(from, to, p), now) == Ok::<MetaView, FsError>(
                    MetaView { path: mirror_of(from, to, p), ..metadata_of(store, p, now)->Ok_0 },
                )
        }),
{
    lemma_move_is_given_enough(store, from, to, now, fuel);
    let after = run(new_rename_op(from, to), store, now, fuel)->Some_0.0;
    law_move_does_what_it_says(store, from, to, now, fuel);
    let n = (fuel - 1) as nat;
    let first = first_tree(from, to);
    lemma_first_tree(store, from, to);
    lemma_walk_succeeds(store, from, to, first, 0, now, n);
    let tree = walk_from(store, first, 0, now, n)->Some_0->Ok_0;
    lemma_walk_keeps(store, from, to, first, 0, now, n);
    lemma_walk_closes(store, from, to, first, 0, now, n);
    lemma_first_in_order(from, to);
    lemma_walk_orders(store, from, to, first, 0, now, n);
    assert(kept(store, store, from, to, tree));
    lemma_create_succeeds(store, store, from, to, tree, 0, now);
    let done = create_from(store, tree, 0, now);
    assert(move_of(store, from, to, now, n) == Some(done));
    assert(done.0 == after);
    assert(done.1 == Ok::<(), FsError>(())) by {
        assert(done.1 is Ok);
        assert(done.1->Ok_0 == ());
    }
    lemma_create_leaves(store, store, from, to, tree, 0, now);
    lemma_keys_moved(store, after, from, to, tree, now);
    lemma_marker_is_mirrored(from, to, from);
    assert(from.subrange(0, from.len() as int) =~= from);
    assert forall|p: Seq<char>|
        from.is_prefix_of(p) && (#[trigger] metadata_of(store, p, now)) is Ok implies {
        &&& metadata_of(store, p, now)->Ok_0.is_dir ==> metadata_of(
            after,
            mirror_of(from, to, p),
            now,
        ) is Ok && metadata_of(after, mirror_of(from, to, p), now)->Ok_0.is_dir
        &&& !metadata_of(store, p, now)->Ok_0.is_dir && !dot_dir().is_suffix_of(p) ==> metadata_of(
            after,
            mirror_of(from, to, p),
            now,
        ) == Ok::<MetaView, FsError>(
            MetaView { path: mirror_of(from, to, p), ..metadata_of(store, p, now)->Ok_0 },
        )
    } by {
        lemma_marker_is_mirrored(from, to, p);
        let q = mirror_of(from, to, p);
        if store.objects.contains_key(sentinel_key(p)) {
            assert(after.objects.contains_key(mirror_of(from, to, sentinel_key(p))));
        } else {
            assert(store.objects.contains_key(p));
            if after.objects.contains_key(sentinel_key(q)) {
                lemma_marker_is_mirrored(from, to, sentinel_key(p));
                assert(store.objects.contains_key(mirror_of(to, from, sentinel_key(q))));
            }
            assert(after.objects.contains_key(q));
        }
    }
}

} // verus!
