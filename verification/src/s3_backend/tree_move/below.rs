//! Paths below a collection: how a name is joined to the path of a
//! collection and found again.
use crate::normalized_path::{
    as_file_spec, dirs_parent_spec, has_double_slash, join_dir_spec, join_dirs, join_file_spec,
    lemma_split_nonempty, normalize, parent_spec, root, split_slash_from, trim_end_slashes,
    trim_token_spec,
};
use crate::s3_backend::filesystem::{path_above, sentinel_key};
use crate::text::dot_dir;
use vstd::prelude::*;

verus! {

/// A name: not empty and without a slash.
pub open spec fn is_name(seg: Seq<char>) -> bool {
    seg.len() > 0 && forall|i: int| 0 <= i < seg.len() ==> seg[i] != '/'
}

/// The path of a collection other than the root: it ends with a slash,
/// starts with none and has no two slashes side by side.
pub open spec fn is_dir_path(d: Seq<char>) -> bool {
    d.len() > 0 && d[0] != '/' && d.last() == '/' && !has_double_slash(d)
}

/// The path of a resource, as a key of the store: it neither starts nor
/// ends with a slash and has no two slashes side by side.
pub open spec fn is_key(k: Seq<char>) -> bool {
    k.len() > 0 && k[0] != '/' && k.last() != '/' && !has_double_slash(k)
}

/// The path of the collection `seg` in the collection `d`.
pub open spec fn dir_below(d: Seq<char>, seg: Seq<char>) -> Seq<char> {
    d + seg + root()
}

/// A name has no two slashes, and is its own trimmed token.
pub proof fn lemma_name_is_token(seg: Seq<char>)
    requires
        is_name(seg),
    ensures
        trim_token_spec(seg) == seg,
        trim_token_spec(seg + root()) == seg,
        normalize(seg) == seg,
        normalize(seg + root()) == seg + root(),
        !has_double_slash(seg),
{
    assert(seg[seg.len() - 1] != '/');
    assert(seg[0] != '/');
    assert((seg + root()).drop_last() =~= seg);
    assert((seg + root())[0] == seg[0]);
}

/// A collection path followed by a name is a key, and followed by a name
/// and a slash it is a collection path again.
pub proof fn lemma_below_is_path(d: Seq<char>, seg: Seq<char>)
    requires
        is_dir_path(d),
        is_name(seg),
    ensures
        is_key(d + seg),
        is_dir_path(dir_below(d, seg)),
{
    let k = d + seg;
    let c = dir_below(d, seg);
    assert(k[0] == d[0] && c[0] == d[0]);
    assert(k.last() == seg.last());
    assert(forall|i: int| 0 <= i < d.len() ==> k[i] == d[i] && c[i] == d[i]);
    assert(forall|i: int| d.len() <= i < k.len() ==> k[i] == seg[i - d.len()] && c[i] == k[i]);
    if has_double_slash(k) {
        let i = choose|i: int| 0 <= i && i + 1 < k.len() && k[i] == '/' && #[trigger] k[i + 1] == '/';
        if i + 1 < d.len() {
            assert(d[i] == '/' && d[i + 1] == '/');
        }
    }
    if has_double_slash(c) {
        let i = choose|i: int| 0 <= i && i + 1 < c.len() && c[i] == '/' && #[trigger] c[i + 1] == '/';
        if i + 1 < d.len() {
            assert(d[i] == '/' && d[i + 1] == '/');
        } else if i + 1 < k.len() {
            assert(k[i + 1] != '/');
        } else {
            assert(k[i] != '/');
        }
    }
}

/// Joining a name to a collection path puts the name behind the path.
pub proof fn lemma_join_below(d: Seq<char>, seg: Seq<char>)
    requires
        is_dir_path(d),
        is_name(seg),
    ensures
        join_file_spec(d, seg) == d + seg,
        join_file_spec(d, seg + root()) == d + seg,
        join_dir_spec(d, seg) == dir_below(d, seg),
        join_dir_spec(d, seg + root()) == dir_below(d, seg),
{
    lemma_name_is_token(seg);
    assert((d + seg)[0] == d[0]);
    assert((d + seg + root())[0] == d[0]);
}

/// The key of the object that marks a collection is its path followed by
/// `.dir`; for the path of a resource a slash comes between them.
pub proof fn lemma_marker_key(p: Seq<char>)
    requires
        is_dir_path(p) || is_key(p),
    ensures
        is_dir_path(p) ==> sentinel_key(p) == p + dot_dir(),
        is_key(p) ==> sentinel_key(p) == p + root() + dot_dir(),
{
    assert(trim_token_spec(dot_dir()) =~= dot_dir());
    assert((p + dot_dir())[0] == p[0]);
    assert((p + root() + dot_dir())[0] == p[0]);
}

/// A text without a slash is one piece.
proof fn lemma_split_name(cur: Seq<char>, seg: Seq<char>)
    requires
        forall|i: int| 0 <= i < seg.len() ==> seg[i] != '/',
    ensures
        split_slash_from(cur, seg) == seq![cur + seg],
    decreases seg.len(),
{
    if seg.len() == 0 {
        assert(cur + seg =~= cur);
    } else {
        lemma_split_name(cur.push(seg[0]), seg.skip(1));
        assert(cur.push(seg[0]) + seg.skip(1) =~= cur + seg);
    }
}

/// The collection that `cur + t` names below `acc`; `acc` where `t` is
/// empty.
spec fn joined(acc: Seq<char>, cur: Seq<char>, t: Seq<char>) -> Seq<char> {
    if t.len() == 0 {
        acc
    } else if acc == root() {
        cur + t
    } else {
        acc + cur + t
    }
}

/// The pieces of the rest of a collection path, followed by a name, but
/// the last one, are joined to the rest of the collection path.
proof fn lemma_join_pieces(acc: Seq<char>, cur: Seq<char>, t: Seq<char>, seg: Seq<char>)
    requires
        acc == root() || is_dir_path(acc),
        forall|i: int| 0 <= i < cur.len() ==> cur[i] != '/',
        forall|i: int| 0 <= i < seg.len() ==> seg[i] != '/',
        t.len() > 0 ==> t.last() == '/' && !has_double_slash(t),
        t.len() > 0 && t[0] == '/' ==> cur.len() > 0,
    ensures
        join_dirs(acc, split_slash_from(cur, t + seg).drop_last()) == joined(acc, cur, t),
    decreases t.len(),
{
    let rest = t + seg;
    if t.len() == 0 {
        assert(rest =~= seg);
        lemma_split_name(cur, seg);
        assert(seq![cur + seg].drop_last() =~= Seq::<Seq<char>>::empty());
    } else if t[0] == '/' {
        assert(rest[0] == '/');
        assert(rest.skip(1) =~= t.skip(1) + seg);
        let tail = split_slash_from(Seq::empty(), t.skip(1) + seg);
        lemma_split_nonempty(Seq::empty(), t.skip(1) + seg);
        let pieces = seq![cur] + tail;
        assert(split_slash_from(cur, rest) == pieces);
        assert(pieces.drop_last() =~= seq![cur] + tail.drop_last());
        let shorter = pieces.drop_last();
        assert(shorter[0] == cur);
        assert(shorter.skip(1) =~= tail.drop_last());
        let next = join_dir_spec(acc, cur);
        assert(is_name(cur));
        lemma_name_is_token(cur);
        if acc == root() {
            assert((root() + cur + root()).skip(1) =~= cur + root());
            assert(next == cur + root());
            assert(is_dir_path(next)) by {
                if has_double_slash(next) {
                    let i = choose|i: int|
                        0 <= i && i + 1 < next.len() && next[i] == '/' && #[trigger] next[i + 1]
                            == '/';
                    assert(next[i] == cur[i]);
                }
            }
        } else {
            lemma_join_below(acc, cur);
            lemma_below_is_path(acc, cur);
        }
        let u = t.skip(1);
        if u.len() > 0 {
            assert(u.last() == t.last());
            assert(u[0] == t[1]);
            assert(t[0] == '/' && t[1] != '/');
            if has_double_slash(u) {
                let i = choose|i: int|
                    0 <= i && i + 1 < u.len() && u[i] == '/' && #[trigger] u[i + 1] == '/';
                assert(t[i + 1] == '/' && t[i + 1 + 1] == '/');
            }
        }
        lemma_join_pieces(next, Seq::empty(), u, seg);
        assert(t =~= root() + u);
        if u.len() == 0 {
            assert(joined(acc, cur, t) =~= next);
        } else {
            assert(joined(next, Seq::empty(), u) =~= joined(acc, cur, t));
        }
    } else {
        assert(rest[0] == t[0]);
        assert(rest.skip(1) =~= t.skip(1) + seg);
        let u = t.skip(1);
        assert(u.len() > 0);
        assert(u.last() == t.last());
        if has_double_slash(u) {
            let i = choose|i: int|
                0 <= i && i + 1 < u.len() && u[i] == '/' && #[trigger] u[i + 1] == '/';
            assert(t[i + 1] == '/' && t[i + 1 + 1] == '/');
        }
        lemma_join_pieces(acc, cur.push(t[0]), u, seg);
        assert(cur.push(t[0]) + u =~= cur + t);
        assert(acc + cur.push(t[0]) + u =~= acc + cur + t);
    }
}

/// The collection that holds a resource or a collection right below the
/// collection `d` is `d`.
pub proof fn lemma_parent_below(d: Seq<char>, seg: Seq<char>)
    requires
        is_dir_path(d),
        is_name(seg),
    ensures
        parent_spec(d + seg) == d,
{
    let p = d + seg;
    assert(p.last() == seg.last());
    lemma_join_pieces(root(), Seq::empty(), d, seg);
    assert(Seq::<char>::empty() + d =~= d);
}

/// The path above a collection right below a collection `d` is `d` in
/// the form of a resource, and the object that marks a collection of
/// that name is the one that marks `d`.
pub proof fn lemma_above_below(d: Seq<char>, seg: Seq<char>)
    requires
        is_dir_path(d),
        is_name(seg),
    ensures
        path_above(d + seg + root()) == d.drop_last(),
        is_key(d.drop_last()),
        sentinel_key(d.drop_last()) == d + dot_dir(),
{
    let c = d + seg + root();
    lemma_below_is_path(d, seg);
    lemma_marker_key(c);
    assert(is_name(dot_dir()));
    lemma_parent_below(c, dot_dir());
    assert(c.drop_last() =~= d + seg);
    assert((d + seg).last() == seg.last());
    assert(trim_end_slashes(c) == d + seg) by {
        reveal_with_fuel(trim_end_slashes, 2);
    }
    lemma_parent_below(d, seg);
    assert(parent_spec(c) == d);
    assert((c + dot_dir()).last() == dot_dir().last());
    assert(dirs_parent_spec(c + dot_dir()) == d);
    let f = d.drop_last();
    assert(d.len() >= 2) by {
        if d.len() == 1 {
            assert(d[0] == d.last());
        }
    }
    assert(f[0] == d[0]);
    if f.last() == '/' {
        assert(d[d.len() - 2] == '/' && d[d.len() - 2 + 1] == '/');
    }
    assert(trim_end_slashes(d) == f) by {
        reveal_with_fuel(trim_end_slashes, 2);
    }
    assert(normalize(f) == f);
    assert(as_file_spec(d) == f);
    if has_double_slash(f) {
        let i = choose|i: int| 0 <= i && i + 1 < f.len() && f[i] == '/' && #[trigger] f[i + 1] == '/';
        assert(d[i] == '/' && d[i + 1] == '/');
    }
    lemma_marker_key(f);
    assert(f + root() + dot_dir() =~= d + dot_dir());
}

} // verus!
