//! A listing names each thing once.
use crate::error::FsError;
use crate::normalized_path::{normalize, root, strip_prefix_spec};
use crate::s3_backend::filesystem::{key_targets, list_prefix};
use crate::s3_backend::metadata::{MetaView, UnixTime};
use crate::s3_backend::model::{
    lemma_entry_has_target, lemma_listing_is_exact, lemma_prefix_targets, lemma_targets_of_listing,
    listed_entries, listed_keys, listed_prefixes, metadata_of, read_dir_of, StoreModel,
};
use crate::s3_backend::tree_move::below::{is_dir_path, is_key};
use crate::s3_backend::tree_move::found::no_clash;
use crate::s3_backend::tree_move::walked::{entry_seg, keys_are_paths, marker_below};
use crate::text::dot_dir;
use vstd::prelude::*;

verus! {

/// The members of a finite set, put in a row, stand there once each.
pub proof fn lemma_to_seq_once<A>(s: Set<A>)
    requires
        s.finite(),
    ensures
        s.to_seq().no_duplicates(),
    decreases s.len(),
{
    if s.len() > 0 {
        let x = s.choose();
        let rest = s.remove(x);
        lemma_to_seq_once(rest);
        rest.lemma_to_seq_to_set_id();
        let row = s.to_seq();
        assert(row == Seq::<A>::empty().push(x) + rest.to_seq());
        assert forall|i: int, j: int| 0 <= i < row.len() && 0 <= j < row.len() && i != j implies row[i]
            != row[j] by {
            if i > 0 && j > 0 {
                assert(row[i] == rest.to_seq()[i - 1]);
                assert(row[j] == rest.to_seq()[j - 1]);
            } else if i == 0 {
                assert(row[j] == rest.to_seq()[j - 1]);
                assert(rest.to_seq().to_set().contains(rest.to_seq()[j - 1]));
            } else {
                assert(row[i] == rest.to_seq()[i - 1]);
                assert(rest.to_seq().to_set().contains(rest.to_seq()[i - 1]));
            }
        }
    }
}

/// Two entries of a listing come from two targets, in the same order.
pub proof fn lemma_entries_in_order(
    store: StoreModel,
    targets: Seq<Seq<char>>,
    path: Seq<char>,
    now: UnixTime,
    a: int,
    b: int,
) -> (i: (int, int))
    requires
        0 <= a < b < listed_entries(store, targets, path, now).len(),
    ensures
        0 <= i.0 < i.1 < targets.len(),
        metadata_of(store, targets[i.0], now) == Ok::<MetaView, FsError>(
            listed_entries(store, targets, path, now)[a].metadata,
        ),
        metadata_of(store, targets[i.1], now) == Ok::<MetaView, FsError>(
            listed_entries(store, targets, path, now)[b].metadata,
        ),
        listed_entries(store, targets, path, now)[a].name == strip_prefix_spec(targets[i.0], path),
        listed_entries(store, targets, path, now)[b].name == strip_prefix_spec(targets[i.1], path),
    decreases targets.len(),
{
    let rest = listed_entries(store, targets.drop_last(), path, now);
    if b < rest.len() {
        let i = lemma_entries_in_order(store, targets.drop_last(), path, now, a, b);
        assert(targets.drop_last()[i.0] == targets[i.0]);
        assert(targets.drop_last()[i.1] == targets[i.1]);
        i
    } else {
        let x = lemma_entry_has_target(store, targets.drop_last(), path, now, a);
        assert(targets.drop_last()[x] == targets[x]);
        (x, targets.len() - 1)
    }
}

/// Two targets of the keys of a page come from two keys, in the same
/// order.
pub proof fn lemma_key_targets_in_order(keys: Seq<Seq<char>>, a: int, b: int) -> (x: (int, int))
    requires
        0 <= a < b < key_targets(keys).len(),
    ensures
        0 <= x.0 < x.1 < keys.len(),
        key_targets(keys)[a] == normalize(keys[x.0]),
        key_targets(keys)[b] == normalize(keys[x.1]),
    decreases keys.len(),
{
    let rest = key_targets(keys.drop_last());
    if b < rest.len() {
        let x = lemma_key_targets_in_order(keys.drop_last(), a, b);
        assert(keys.drop_last()[x.0] == keys[x.0]);
        assert(keys.drop_last()[x.1] == keys[x.1]);
        x
    } else {
        let y = crate::s3_backend::tree_move::walked::lemma_key_target_is_key(keys.drop_last(), a);
        assert(keys.drop_last()[y] == keys[y]);
        (y, keys.len() - 1)
    }
}

/// Two entries of the listing of a collection that are both collections,
/// or both resources, stand for two names, where no key is the name of a
/// resource and of a collection at once.
pub proof fn lemma_names_differ(store: StoreModel, d: Seq<char>, now: UnixTime, a: int, b: int)
    requires
        store.objects.dom().finite(),
        keys_are_paths(store),
        is_dir_path(d),
        no_clash(store, d),
        read_dir_of(store, d, now) is Ok,
        0 <= a < b < read_dir_of(store, d, now)->Ok_0.len(),
        read_dir_of(store, d, now)->Ok_0[a].metadata.is_dir == read_dir_of(
            store,
            d,
            now,
        )->Ok_0[b].metadata.is_dir,
    ensures
        entry_seg(read_dir_of(store, d, now)->Ok_0[a]) != entry_seg(
            read_dir_of(store, d, now)->Ok_0[b],
        ),
{
    let prefix = list_prefix(d);
    let targets = crate::s3_backend::tree_move::walked::targets_of(store, d);
    let prefixes = listed_prefixes(store, prefix).to_seq();
    let keys = listed_keys(store, prefix).to_seq();
    let i = lemma_entries_in_order(store, targets, d, now, a, b);
    let one = crate::s3_backend::tree_move::walked::lemma_target_is_child(store, d, now, i.0);
    let two = crate::s3_backend::tree_move::walked::lemma_target_is_child(store, d, now, i.1);
    lemma_targets_of_listing(store, prefix);
    lemma_listing_is_exact(store, prefix);
    lemma_prefix_targets(prefixes);
    lemma_to_seq_once(listed_prefixes(store, prefix));
    lemma_to_seq_once(listed_keys(store, prefix));
    let n = prefixes.len() as int;
    if i.1 < n {
        assert(prefixes[i.0] != prefixes[i.1]);
    } else if i.0 >= n {
        let x = lemma_key_targets_in_order(keys, i.0 - n, i.1 - n);
        assert(keys[x.0] != keys[x.1]);
        assert(keys.contains(keys[x.0]));
        assert(keys.contains(keys[x.1]));
        assert(listed_keys(store, prefix).contains(keys[x.0]));
        assert(listed_keys(store, prefix).contains(keys[x.1]));
        assert(store.objects.contains_key(keys[x.0]));
        assert(store.objects.contains_key(keys[x.1]));
        assert(is_key(keys[x.0]) && is_key(keys[x.1]));
    } else {
        let k = d + two;
        assert(d.is_prefix_of(k)) by {
            assert(k.subrange(0, d.len() as int) =~= d);
        }
        assert(marker_below(d, two) =~= k + root() + dot_dir());
    }
}

} // verus!
