//! A move of a collection ends: how many steps are enough.
use crate::error::FsError;
use crate::s3_backend::filesystem::{
    key_targets, list_prefix, listing_targets, new_read_dir_op, new_rename_op, new_walk_op, op_step,
    rename_next_create, walk_next, EventView, OpView, OutcomeView, RenameOpView, RenameStage,
    StepView, TreeView, WalkOpView, WalkStage,
};
use crate::s3_backend::metadata::UnixTime;
use crate::s3_backend::model::{
    is_rolled_up, law_listing_tells_what_is_stored, lemma_listing_is_exact, lemma_prefix_targets,
    lemma_run_call, lemma_run_done, lemma_targets_of_listing, listed_keys, listed_prefixes,
    listing_pages, read_dir_of, rolled_prefix, run, run_step, StoreModel,
};
use crate::s3_backend::tree_move::deep_move::{
    first_tree, grown, lemma_create_runs, lemma_walk_runs, walk_from,
};
use crate::s3_backend::tree_move::found::no_clash;
use crate::s3_backend::tree_move::once::lemma_to_seq_once;
use crate::s3_backend::tree_move::ordered::{lemma_walk_add_orders, once, tree_order};
use crate::s3_backend::tree_move::walked::{
    good_file, keys_are_paths, lemma_walk_add_keeps, tree_inv,
};
use crate::text::{dot_dir, ends_with_char};
use vstd::prelude::*;

verus! {

/// No listing of the store has more than `width` targets.
pub open spec fn wide(store: StoreModel, width: nat) -> bool {
    forall|prefix: Seq<char>|
        (#[trigger] listing_targets(listing_pages(store, prefix))).len() <= width
}

/// A walk that ends within `n` listings comes to the same with more.
pub proof fn lemma_walk_from_more(
    store: StoreModel,
    tree: TreeView,
    i: nat,
    now: UnixTime,
    n: nat,
    m: nat,
)
    requires
        walk_from(store, tree, i, now, n) is Some,
        n <= m,
    ensures
        walk_from(store, tree, i, now, m) == walk_from(store, tree, i, now, n),
    decreases n,
{
    if i < tree.dirs.len() && read_dir_of(store, tree.dirs[i as int].0, now) is Ok {
        lemma_walk_from_more(
            store,
            grown(store, tree, i, now),
            i + 1,
            now,
            (n - 1) as nat,
            (m - 1) as nat,
        );
    }
}

/// A walk that ends within `n` listings, run against a store, ends
/// within five steps more than `n` and the widest listing of the store.
pub proof fn lemma_walk_ends(
    op: WalkOpView,
    store: StoreModel,
    now: UnixTime,
    fuel: nat,
    n: nat,
    width: nat,
)
    requires
        walk_from(store, op.tree, op.index, now, n) is Some,
        wide(store, width),
        fuel >= n + width + 5,
    ensures
        run_step(walk_next(op), store, now, fuel) is Some,
    decreases n,
{
    if op.index >= op.tree.dirs.len() {
        lemma_run_done(OutcomeView::Tree(Ok(op.tree)), store, now, fuel);
    } else {
        let src = op.tree.dirs[op.index as int].0;
        let listing = WalkOpView { stage: WalkStage::List, ..op };
        let one = (fuel - 1) as nat;
        lemma_run_call(OpView::Walk(listing), new_read_dir_op(src), store, now, fuel);
        assert(listing_targets(listing_pages(store, list_prefix(src))).len() <= width);
        law_listing_tells_what_is_stored(store, src, now, one);
        let found = read_dir_of(store, src, now);
        let more = WalkOpView {
            tree: grown(store, op.tree, op.index, now),
            index: op.index + 1,
            ..listing
        };
        assert(op_step(OpView::Walk(listing), EventView::Returned(OutcomeView::Entries(found)), now)
            == match found {
            Err(e) => StepView::Done(OutcomeView::Tree(Err(e))),
            Ok(_) => walk_next(more),
        }) by {
            reveal(op_step);
        }
        match found {
            Err(e) => {
                lemma_run_done(OutcomeView::Tree(Err(e)), store, now, one);
            },
            Ok(_) => {
                lemma_walk_ends(more, store, now, one, (n - 1) as nat, width);
            },
        }
    }
}

/// The move of one collection onto another ends within the steps that
/// its walk and the move of what the walk finds need.
pub proof fn lemma_move_ends(
    store: StoreModel,
    from: Seq<char>,
    to: Seq<char>,
    now: UnixTime,
    fuel: nat,
    n: nat,
    width: nat,
)
    requires
        ends_with_char(from, '/'),
        ends_with_char(to, '/'),
        walk_from(store, first_tree(from, to), 0, now, n) is Some,
        wide(store, width),
        fuel >= n + width + 6,
        walk_from(store, first_tree(from, to), 0, now, n)->Some_0 matches Ok(tree) ==> fuel >= 2
            * tree.dirs.len() + 2 * tree.files.len() + 6,
    ensures
        run(new_rename_op(from, to), store, now, fuel) is Some,
{
    let none = TreeView { dirs: Seq::empty(), files: Seq::empty() };
    let walking = RenameOpView { from, to, tree: none, index: 0, stage: RenameStage::Walk };
    let first = first_tree(from, to);
    let start = WalkOpView { tree: first, index: 0, stage: WalkStage::Start };
    assert(op_step(new_rename_op(from, to), EventView::Start, now) == StepView::Call(
        OpView::Rename(walking),
        new_walk_op(from, to),
    )) by {
        reveal(op_step);
    }
    assert(op_step(new_walk_op(from, to), EventView::Start, now) == walk_next(start)) by {
        reveal(op_step);
    }
    assert(forall|r: Result<TreeView, FsError>|
        #[trigger] op_step(
            OpView::Rename(walking),
            EventView::Returned(OutcomeView::Tree(r)),
            now,
        ) == match r {
            Err(e) => StepView::Done(OutcomeView::Unit(Err(e))),
            Ok(tree) => rename_next_create(RenameOpView { tree, index: 0, ..walking }),
        }) by {
        reveal(op_step);
    }
    let one = (fuel - 1) as nat;
    lemma_run_call(OpView::Rename(walking), new_walk_op(from, to), store, now, fuel);
    lemma_walk_ends(start, store, now, one, n, width);
    lemma_walk_runs(start, store, now, one);
    lemma_walk_from_more(store, first, 0, now, n, one);
    match walk_from(store, first, 0, now, one)->Some_0 {
        Err(e) => {
            lemma_run_done(OutcomeView::Unit(Err(e)), store, now, one);
        },
        Ok(tree) => {
            lemma_create_runs(RenameOpView { tree, index: 0, ..walking }, store, now, one);
        },
    }
}

/// A row of things that stand in it once each, all from a finite set,
/// is no longer than the set is large.
pub proof fn lemma_row_fits<A>(row: Seq<A>, all: Set<A>)
    requires
        all.finite(),
        row.no_duplicates(),
        forall|i: int| 0 <= i < row.len() ==> all.contains(#[trigger] row[i]),
    ensures
        row.len() <= all.len(),
{
    row.unique_seq_to_set();
    assert(row.to_set().subset_of(all)) by {
        assert forall|x: A| row.to_set().contains(x) implies all.contains(x) by {
            let i = choose|i: int| 0 <= i < row.len() && row[i] == x;
            assert(all.contains(row[i]));
        }
    }
    vstd::set_lib::lemma_len_subset(row.to_set(), all);
}

/// There are no more targets of the keys of a page than keys.
proof fn lemma_key_targets_fit(keys: Seq<Seq<char>>)
    ensures
        key_targets(keys).len() <= keys.len(),
    decreases keys.len(),
{
    if keys.len() > 0 {
        lemma_key_targets_fit(keys.drop_last());
    }
}

/// No listing of a finite store has more targets than twice the number
/// of its keys.
pub proof fn lemma_store_is_wide(store: StoreModel)
    requires
        store.objects.dom().finite(),
    ensures
        wide(store, 2 * store.objects.dom().len()),
{
    let dom = store.objects.dom();
    assert forall|prefix: Seq<char>|
        (#[trigger] listing_targets(listing_pages(store, prefix))).len() <= 2 * dom.len() by {
        let keys = listed_keys(store, prefix);
        let rolled = dom.filter(|k: Seq<char>| is_rolled_up(k, prefix));
        let prefixes = listed_prefixes(store, prefix);
        lemma_listing_is_exact(store, prefix);
        lemma_targets_of_listing(store, prefix);
        lemma_prefix_targets(prefixes.to_seq());
        lemma_key_targets_fit(keys.to_seq());
        lemma_to_seq_once(keys);
        lemma_to_seq_once(prefixes);
        assert forall|i: int| 0 <= i < keys.to_seq().len() implies dom.contains(
            #[trigger] keys.to_seq()[i],
        ) by {
            assert(keys.to_seq().contains(keys.to_seq()[i]));
            assert(keys.contains(keys.to_seq()[i]));
        }
        lemma_row_fits(keys.to_seq(), dom);
        vstd::set_lib::lemma_len_subset(rolled, dom);
        vstd::set_lib::lemma_map_size_bound(
            rolled,
            prefixes,
            |k: Seq<char>| rolled_prefix(k, prefix),
        );
        assert forall|i: int| 0 <= i < prefixes.to_seq().len() implies prefixes.contains(
            #[trigger] prefixes.to_seq()[i],
        ) by {
            assert(prefixes.to_seq().contains(prefixes.to_seq()[i]));
        }
        lemma_row_fits(prefixes.to_seq(), prefixes);
    }
}

/// The tree of a walk in order has no more collections than the store
/// has keys, but one, and no more resources than the store has keys.
pub proof fn lemma_tree_fits(store: StoreModel, from: Seq<char>, to: Seq<char>, tree: TreeView)
    requires
        store.objects.dom().finite(),
        tree_inv(store, from, to, tree),
        once(tree.dirs),
        once(tree.files),
    ensures
        tree.dirs.len() <= store.objects.dom().len() + 1,
        tree.files.len() <= store.objects.dom().len(),
{
    let dom = store.objects.dom();
    let files = Seq::new(tree.files.len(), |j: int| tree.files[j].0);
    assert forall|i: int| 0 <= i < files.len() implies dom.contains(#[trigger] files[i]) by {
        assert(good_file(store, from, to, tree.dirs, tree.files[i]));
    }
    assert forall|i: int, j: int| 0 <= i < files.len() && 0 <= j < files.len() && i != j implies files[i]
        != files[j] by {
        if i < j {
            assert(tree.files[i].0 != tree.files[j].0);
        } else {
            assert(tree.files[j].0 != tree.files[i].0);
        }
    }
    lemma_row_fits(files, dom);
    let marks = Seq::new((tree.dirs.len() - 1) as nat, |j: int| tree.dirs[j + 1].0 + dot_dir());
    assert forall|i: int| 0 <= i < marks.len() implies dom.contains(#[trigger] marks[i]) by {
        assert(store.objects.contains_key(tree.dirs[i + 1].0 + dot_dir()));
    }
    assert forall|i: int, j: int| 0 <= i < marks.len() && 0 <= j < marks.len() && i != j implies marks[i]
        != marks[j] by {
        let a = tree.dirs[i + 1].0;
        let b = tree.dirs[j + 1].0;
        if i < j {
            assert(tree.dirs[i + 1].0 != tree.dirs[j + 1].0);
        } else {
            assert(tree.dirs[j + 1].0 != tree.dirs[i + 1].0);
        }
        if a + dot_dir() == b + dot_dir() {
            assert(a =~= (a + dot_dir()).subrange(0, a.len() as int));
            assert(b =~= (b + dot_dir()).subrange(0, b.len() as int));
        }
    }
    lemma_row_fits(marks, dom);
}

/// A walk in a finite store ends: as many listings as the store has
/// keys, and one more, are enough.
pub proof fn lemma_walk_from_ends(
    store: StoreModel,
    from: Seq<char>,
    to: Seq<char>,
    tree: TreeView,
    i: nat,
    now: UnixTime,
    n: nat,
)
    requires
        store.objects.dom().finite(),
        keys_are_paths(store),
        no_clash(store, from),
        tree_inv(store, from, to, tree),
        tree_order(tree, i as int),
        n + i >= store.objects.dom().len() + 1,
    ensures
        walk_from(store, tree, i, now, n) is Some,
    decreases n,
{
    if i < tree.dirs.len() {
        lemma_tree_fits(store, from, to, tree);
        if read_dir_of(store, tree.dirs[i as int].0, now) is Ok {
            let all = read_dir_of(store, tree.dirs[i as int].0, now)->Ok_0;
            lemma_walk_add_keeps(store, from, to, tree, i as int, now, all.len() as int);
            lemma_walk_add_orders(store, from, to, tree, i as int, now, all.len() as int);
            assert(all.take(all.len() as int) =~= all);
            lemma_walk_from_ends(
                store,
                from,
                to,
                grown(store, tree, i, now),
                i + 1,
                now,
                (n - 1) as nat,
            );
        }
    }
}

} // verus!
