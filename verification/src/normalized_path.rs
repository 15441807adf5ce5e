//! The canonical path form shared by every component.
//!
//! A normalized path is a non-empty string. The root is `/`; every other
//! path is stored without its leading slash. A path that ends with `/`
//! names a collection, any other path names a resource.
use crate::text::{
    chars_of, ends_with_char, has_prefix, push_all, push_range, starts_with_char, string_of,
};
use vstd::prelude::*;
use vstd::std_specs::cmp::PartialEqSpecImpl;
use vstd::std_specs::convert::FromSpecImpl;
use vstd::string::StrSliceExecFns;

verus! {

/// The root path, `/`.
pub open spec fn root() -> Seq<char> {
    seq!['/']
}

/// What is stored for the text `s`: one leading slash is dropped unless it
/// is all there is, and the empty text stands for the root.
pub open spec fn normalize(s: Seq<char>) -> Seq<char> {
    if s.len() > 1 && s[0] == '/' {
        s.skip(1)
    } else if s.len() == 0 {
        root()
    } else {
        s
    }
}

/// `s` without the slashes at its end.
pub open spec fn trim_end_slashes(s: Seq<char>) -> Seq<char>
    decreases s.len(),
{
    if s.len() > 0 && s.last() == '/' {
        trim_end_slashes(s.drop_last())
    } else {
        s
    }
}

/// `s` without the slashes at its start.
pub open spec fn trim_start_slashes(s: Seq<char>) -> Seq<char>
    decreases s.len(),
{
    if s.len() > 0 && s[0] == '/' {
        trim_start_slashes(s.skip(1))
    } else {
        s
    }
}

/// A token without the slashes at its end and at its start.
pub open spec fn trim_token_spec(t: Seq<char>) -> Seq<char> {
    trim_start_slashes(trim_end_slashes(t))
}

/// `p` followed by the trimmed token `t`, with exactly one slash between
/// them; `p` itself where the trimmed token is empty.
pub open spec fn join_file_spec(p: Seq<char>, t: Seq<char>) -> Seq<char> {
    let tt = trim_token_spec(t);
    if tt.len() == 0 {
        p
    } else if ends_with_char(p, '/') {
        normalize(p + tt)
    } else {
        normalize(p + root() + tt)
    }
}

/// As `join_file_spec`, with a slash at the end.
pub open spec fn join_dir_spec(p: Seq<char>, t: Seq<char>) -> Seq<char> {
    let tt = trim_token_spec(t);
    if tt.len() == 0 {
        p
    } else if ends_with_char(p, '/') {
        normalize(p + tt + root())
    } else {
        normalize(p + root() + tt + root())
    }
}

/// The pieces of `rest` between its slashes, the first one prefixed by `cur`.
pub open spec fn split_slash_from(cur: Seq<char>, rest: Seq<char>) -> Seq<Seq<char>>
    decreases rest.len(),
{
    if rest.len() == 0 {
        seq![cur]
    } else if rest[0] == '/' {
        seq![cur] + split_slash_from(Seq::empty(), rest.skip(1))
    } else {
        split_slash_from(cur.push(rest[0]), rest.skip(1))
    }
}

/// The pieces of `s` between its slashes; a text without slash is one piece.
pub open spec fn split_slash(s: Seq<char>) -> Seq<Seq<char>> {
    split_slash_from(Seq::empty(), s)
}

/// `acc` joined, as collections, with each of `parts` in turn.
pub open spec fn join_dirs(acc: Seq<char>, parts: Seq<Seq<char>>) -> Seq<char>
    decreases parts.len(),
{
    if parts.len() == 0 {
        acc
    } else {
        join_dirs(join_dir_spec(acc, parts[0]), parts.skip(1))
    }
}

/// The collection that holds `p`: all pieces of `p` but the last, joined
/// from the root. Slashes at the end of `p` do not count as a piece.
pub open spec fn parent_spec(p: Seq<char>) -> Seq<char> {
    let stem = if ends_with_char(p, '/') {
        trim_end_slashes(p)
    } else {
        p
    };
    join_dirs(root(), split_slash(stem).drop_last())
}

/// The collection above the one that holds a resource, or above a collection.
pub open spec fn dirs_parent_spec(p: Seq<char>) -> Seq<char> {
    if ends_with_char(p, '/') {
        parent_spec(p)
    } else {
        parent_spec(parent_spec(p))
    }
}

/// What follows `q` in `p`, stored as a path; `p` where `q` is no prefix.
pub open spec fn strip_prefix_spec(p: Seq<char>, q: Seq<char>) -> Seq<char> {
    if q.is_prefix_of(p) {
        normalize(p.skip(q.len() as int))
    } else {
        p
    }
}

/// The resource form of `p`.
pub open spec fn as_file_spec(p: Seq<char>) -> Seq<char> {
    if ends_with_char(p, '/') {
        normalize(trim_end_slashes(p))
    } else {
        p
    }
}

/// The collection form of `p`.
pub open spec fn as_dir_spec(p: Seq<char>) -> Seq<char> {
    if ends_with_char(p, '/') {
        p
    } else {
        normalize(p + root())
    }
}

/// Two slashes stand side by side somewhere in `s`.
pub open spec fn has_double_slash(s: Seq<char>) -> bool {
    exists|i: int| 0 <= i && i + 1 < s.len() && s[i] == '/' && #[trigger] s[i + 1] == '/'
}

/// A valid path: not empty, no two slashes side by side, and no slash at
/// the start unless it is the root.
pub open spec fn is_valid(s: Seq<char>) -> bool {
    &&& s.len() > 0
    &&& !has_double_slash(s)
    &&& (s.len() == 1 || s[0] != '/')
}

pub proof fn lemma_split_nonempty(cur: Seq<char>, rest: Seq<char>)
    ensures
        split_slash_from(cur, rest).len() > 0,
    decreases rest.len(),
{
    if rest.len() > 0 && rest[0] != '/' {
        lemma_split_nonempty(cur.push(rest[0]), rest.skip(1));
    }
}

pub proof fn lemma_join_dirs_nonempty(acc: Seq<char>, parts: Seq<Seq<char>>)
    requires
        acc.len() > 0,
    ensures
        join_dirs(acc, parts).len() > 0,
    decreases parts.len(),
{
    if parts.len() > 0 {
        lemma_join_dirs_nonempty(join_dir_spec(acc, parts[0]), parts.skip(1));
    }
}

/// No two slashes stand side by side in `a + b` when none do in `a` or in
/// `b` and the two do not meet in a pair of slashes.
pub proof fn lemma_concat_keeps_single_slashes(a: Seq<char>, b: Seq<char>)
    requires
        !has_double_slash(a),
        !has_double_slash(b),
        !(ends_with_char(a, '/') && starts_with_char(b, '/')),
    ensures
        !has_double_slash(a + b),
{
    let s = a + b;
    if has_double_slash(s) {
        let i = choose|i: int| 0 <= i && i + 1 < s.len() && s[i] == '/' && #[trigger] s[i + 1] == '/';
        if i + 1 < a.len() {
            assert(a[i] == '/' && a[i + 1] == '/');
        } else if i >= a.len() {
            assert(b[i - a.len()] == '/' && b[i - a.len() + 1] == '/');
        } else {
            assert(a.last() == '/' && b[0] == '/');
        }
    }
}

/// A slash in front of a text that starts with none changes nothing:
/// `/a/b/` and `a/b/` are the same path.
pub proof fn law_leading_slash_is_dropped(s: Seq<char>)
    requires
        s.len() > 0,
        s[0] != '/',
    ensures
        normalize(root() + s) == normalize(s),
{
    assert((root() + s).skip(1) =~= s);
}

/// What is left of a text without the slashes at its end is the start of
/// the text, and ends with no slash.
pub proof fn lemma_trim_end(s: Seq<char>)
    ensures
        trim_end_slashes(s).is_prefix_of(s),
        trim_end_slashes(s).len() > 0 ==> trim_end_slashes(s).last() != '/',
    decreases s.len(),
{
    if s.len() > 0 && s.last() == '/' {
        lemma_trim_end(s.drop_last());
        let r = trim_end_slashes(s.drop_last());
        assert(r =~= s.subrange(0, r.len() as int)) by {
            assert(r == s.drop_last().subrange(0, r.len() as int));
        }
    } else {
        assert(s =~= s.subrange(0, s.len() as int));
    }
}

/// What is left of a text without the slashes at its start is the end of
/// the text, and starts with no slash.
pub proof fn lemma_trim_start(s: Seq<char>)
    ensures
        trim_start_slashes(s).is_suffix_of(s),
        trim_start_slashes(s).len() > 0 ==> trim_start_slashes(s)[0] != '/',
    decreases s.len(),
{
    if s.len() > 0 && s[0] == '/' {
        lemma_trim_start(s.skip(1));
        let r = trim_start_slashes(s.skip(1));
        let t = s.skip(1);
        assert(r =~= s.subrange(s.len() - r.len(), s.len() as int)) by {
            assert(r == t.subrange(t.len() - r.len(), t.len() as int));
        }
    } else {
        assert(s =~= s.subrange(0, s.len() as int));
    }
}

/// A trimmed token neither starts nor ends with a slash.
pub proof fn lemma_token_has_no_slash_at_its_ends(t: Seq<char>)
    ensures
        trim_token_spec(t).len() > 0 ==> trim_token_spec(t)[0] != '/' && trim_token_spec(t).last()
            != '/',
{
    let a = trim_end_slashes(t);
    let tt = trim_start_slashes(a);
    lemma_trim_end(t);
    lemma_trim_start(a);
    if tt.len() > 0 {
        assert(tt == a.subrange(a.len() - tt.len(), a.len() as int));
        assert(tt.last() == a.last());
    }
}

/// A token that is joined to a path as a resource gives a resource, and
/// as a collection a collection; a token that is nothing but slashes
/// gives the path itself.
pub proof fn law_join_gives_the_form_asked_for(p: Seq<char>, t: Seq<char>)
    ensures
        trim_token_spec(t).len() > 0 ==> !ends_with_char(join_file_spec(p, t), '/'),
        trim_token_spec(t).len() > 0 ==> ends_with_char(join_dir_spec(p, t), '/'),
        trim_token_spec(t).len() == 0 ==> join_file_spec(p, t) == p && join_dir_spec(p, t) == p,
{
    let tt = trim_token_spec(t);
    lemma_token_has_no_slash_at_its_ends(t);
    if tt.len() > 0 {
        if ends_with_char(p, '/') {
            assert((p + tt).last() == tt.last());
            assert((p + tt + root()).last() == '/');
            if (p + tt).len() > 1 {
                assert((p + tt).skip(1).last() == tt.last());
            }
            assert((p + tt + root()).skip(1).last() == '/');
        } else {
            assert((p + root() + tt).last() == tt.last());
            assert((p + root() + tt + root()).last() == '/');
            assert((p + root() + tt).skip(1).last() == tt.last());
            assert((p + root() + tt + root()).skip(1).last() == '/');
        }
    }
}

/// Joining never brings two slashes side by side: a token that has none
/// inside it, joined to a valid path as a resource or as a collection,
/// gives a path that has none, however many slashes stand at the ends of
/// the token.
pub proof fn law_join_file_keeps_single_slashes(p: Seq<char>, t: Seq<char>)
    requires
        is_valid(p),
        !has_double_slash(trim_token_spec(t)),
    ensures
        !has_double_slash(join_file_spec(p, t)),
        !has_double_slash(join_dir_spec(p, t)),
{
    let tt = trim_token_spec(t);
    lemma_token_has_no_slash_at_its_ends(t);
    assert(!has_double_slash(root())) by {
        if has_double_slash(root()) {
            let i = choose|i: int|
                0 <= i && i + 1 < root().len() && root()[i] == '/' && #[trigger] root()[i + 1]
                    == '/';
        }
    }
    if tt.len() > 0 {
        assert(!ends_with_char(tt, '/'));
        lemma_concat_keeps_single_slashes(tt, root());
        if p == root() {
            assert((p + tt).skip(1) =~= tt);
            assert((p + tt + root()).skip(1) =~= tt + root());
            assert((tt + root())[0] == tt[0]);
        } else if ends_with_char(p, '/') {
            lemma_concat_keeps_single_slashes(p, tt);
            lemma_concat_keeps_single_slashes(p + tt, root());
            assert((p + tt).last() == tt.last());
            assert((p + tt)[0] == p[0]);
            assert((p + tt + root())[0] == p[0]);
        } else {
            lemma_concat_keeps_single_slashes(p, root());
            lemma_concat_keeps_single_slashes(p + root(), tt);
            lemma_concat_keeps_single_slashes(p + root() + tt, root());
            assert((p + root() + tt).last() == tt.last());
            assert((p + root() + tt)[0] == p[0]);
            assert((p + root() + tt + root())[0] == p[0]);
        }
    }
}

/// Turning a valid collection into a resource and back gives the
/// collection again.
pub proof fn law_as_dir_of_as_file(p: Seq<char>)
    requires
        is_valid(p),
        ends_with_char(p, '/'),
    ensures
        as_dir_spec(as_file_spec(p)) == p,
{
    let x = p.drop_last();
    if p.len() == 1 {
        assert(p =~= root());
        assert(x =~= Seq::<char>::empty());
        assert(trim_end_slashes(x) == x);
        assert(trim_end_slashes(p) == x);
    } else {
        assert(x.last() != '/') by {
            if x.last() == '/' {
                assert(p[p.len() - 2] == '/' && p[p.len() - 2 + 1] == '/');
            }
        }
        assert(trim_end_slashes(x) == x);
        assert(trim_end_slashes(p) == x);
        assert(x[0] == p[0]);
        assert(normalize(x) == x);
        assert(x + root() =~= p);
    }
}

/// A canonical path.
#[derive(Debug)]
pub struct NormalizedPath(String);

impl View for NormalizedPath {
    type V = Seq<char>;

    closed spec fn view(&self) -> Seq<char> {
        self.0@
    }
}

fn normalize_chars(v: Vec<char>) -> (r: Vec<char>)
    ensures
        r@ == normalize(v@),
{
    if v.len() > 1 && v[0] == '/' {
        let mut r: Vec<char> = Vec::new();
        push_range(&mut r, &v, 1, v.len());
        assert(r@ =~= v@.skip(1));
        r
    } else if v.len() == 0 {
        let mut r: Vec<char> = Vec::new();
        r.push('/');
        assert(r@ =~= root());
        r
    } else {
        v
    }
}

fn trim_end_slashes_len(v: &Vec<char>) -> (n: usize)
    ensures
        n <= v.len(),
        v@.take(n as int) == trim_end_slashes(v@),
{
    let mut n: usize = v.len();
    assert(v@.take(n as int) =~= v@);
    while n > 0 && v[n - 1] == '/'
        invariant
            n <= v.len(),
            trim_end_slashes(v@.take(n as int)) == trim_end_slashes(v@),
        decreases n,
    {
        assert(v@.take(n as int).drop_last() =~= v@.take(n - 1));
        n -= 1;
    }
    n
}

/// Where the text without the slashes at its end and its start begins
/// and ends in the text.
fn trim_token_range(t: &Vec<char>) -> (r: (usize, usize))
    ensures
        r.0 <= r.1 <= t.len(),
        t@.subrange(r.0 as int, r.1 as int) == trim_token_spec(t@),
{
    let to = trim_end_slashes_len(t);
    let ghost stem = t@.take(to as int);
    let mut from: usize = 0;
    assert(stem.skip(0) =~= stem);
    while from < to && t[from] == '/'
        invariant
            from <= to <= t.len(),
            stem == t@.take(to as int),
            trim_start_slashes(stem.skip(from as int)) == trim_start_slashes(stem),
        decreases to - from,
    {
        assert(stem.skip(from as int)[0] == t@[from as int]);
        assert(stem.skip(from as int).skip(1) =~= stem.skip(from + 1));
        from += 1;
    }
    proof {
        let rest = stem.skip(from as int);
        if rest.len() > 0 {
            assert(rest[0] == t@[from as int]);
        }
        assert(rest =~= t@.subrange(from as int, to as int));
    }
    (from, to)
}

fn trim_token_chars(t: &Vec<char>) -> (r: Vec<char>)
    ensures
        r@ == trim_token_spec(t@),
{
    let (from, to) = trim_token_range(t);
    let mut r: Vec<char> = Vec::new();
    push_range(&mut r, t, from, to);
    assert(r@ =~= t@.subrange(from as int, to as int));
    r
}

fn join_chars(p: &Vec<char>, t: &Vec<char>, dir: bool) -> (r: Vec<char>)
    ensures
        r@ == if dir {
            join_dir_spec(p@, t@)
        } else {
            join_file_spec(p@, t@)
        },
{
    let tt = trim_token_chars(t);
    let mut s: Vec<char> = Vec::new();
    push_all(&mut s, p);
    if tt.len() == 0 {
        assert(s@ =~= p@);
        return s;
    }
    if !(p.len() > 0 && p[p.len() - 1] == '/') {
        s.push('/');
    }
    push_all(&mut s, &tt);
    if dir {
        s.push('/');
    }
    proof {
        if ends_with_char(p@, '/') {
            assert(s@ =~= if dir {
                p@ + tt@ + root()
            } else {
                p@ + tt@
            });
        } else {
            assert(s@ =~= if dir {
                p@ + root() + tt@ + root()
            } else {
                p@ + root() + tt@
            });
        }
    }
    normalize_chars(s)
}

fn parent_chars(p: &Vec<char>) -> (r: Vec<char>)
    ensures
        r@ == parent_spec(p@),
{
    let n: usize = if p.len() > 0 && p[p.len() - 1] == '/' {
        trim_end_slashes_len(p)
    } else {
        p.len()
    };
    let ghost stem = p@.take(n as int);
    assert(p@.take(p@.len() as int) =~= p@);
    let mut acc: Vec<char> = Vec::new();
    acc.push('/');
    assert(acc@ =~= root());
    let mut cur: Vec<char> = Vec::new();
    let mut i: usize = 0;
    assert(stem.skip(0) =~= stem);
    while i < n
        invariant
            i <= n <= p.len(),
            stem == p@.take(n as int),
            parent_spec(p@) == join_dirs(root(), split_slash(stem).drop_last()),
            join_dirs(root(), split_slash(stem).drop_last()) == join_dirs(
                acc@,
                split_slash_from(cur@, stem.skip(i as int)).drop_last(),
            ),
        decreases n - i,
    {
        let ghost rest = stem.skip(i as int);
        assert(rest.len() > 0);
        assert(rest[0] == p@[i as int]);
        assert(rest.skip(1) =~= stem.skip(i + 1));
        if p[i] == '/' {
            proof {
                let tail = split_slash_from(Seq::empty(), rest.skip(1));
                lemma_split_nonempty(Seq::empty(), rest.skip(1));
                let all = seq![cur@] + tail;
                assert(all.drop_last() =~= seq![cur@] + tail.drop_last());
                assert(all.drop_last().skip(1) =~= tail.drop_last());
            }
            acc = join_chars(&acc, &cur, true);
            cur = Vec::new();
        } else {
            cur.push(p[i]);
        }
        i += 1;
    }
    proof {
        assert(stem.skip(n as int).len() == 0);
        assert(seq![cur@].drop_last() =~= Seq::<Seq<char>>::empty());
    }
    acc
}

impl NormalizedPath {
    /// The path contains at least one character.
    #[verifier::type_invariant]
    spec fn nonempty(self) -> bool {
        self.0@.len() > 0
    }

    /// The path that stands for the text `t`.
    pub fn from_text(t: &str) -> (r: NormalizedPath)
        ensures
            r@ == normalize(t@),
            r@.len() > 0,
    {
        let v = normalize_chars(chars_of(t));
        NormalizedPath(string_of(&v))
    }

    fn from_chars(v: Vec<char>) -> (r: NormalizedPath)
        requires
            v@.len() > 0,
        ensures
            r@ == v@,
    {
        NormalizedPath(string_of(&v))
    }

    fn chars(&self) -> (v: Vec<char>)
        ensures
            v@ == self@,
            v@.len() > 0,
    {
        proof {
            use_type_invariant(self);
        }
        chars_of(self.0.as_str())
    }

    /// The stored text.
    pub fn as_str(&self) -> (s: &str)
        ensures
            s@ == self@,
            s@.len() > 0,
    {
        proof {
            use_type_invariant(self);
        }
        self.0.as_str()
    }

    /// The stored text, by value.
    pub fn into_string(self) -> (s: String)
        ensures
            s@ == self@,
            s@.len() > 0,
    {
        proof {
            use_type_invariant(&self);
        }
        self.0
    }

    /// A token without the slashes at its end and at its start.
    pub fn trim_token(token: &str) -> (r: &str)
        ensures
            r@ == trim_token_spec(token@),
    {
        let v = chars_of(token);
        let (from, to) = trim_token_range(&v);
        token.substring_char(from, to)
    }

    /// This path with `token` below it, as a resource.
    pub fn join_file(&self, token: &str) -> (r: NormalizedPath)
        ensures
            r@ == join_file_spec(self@, token@),
            r@.len() > 0,
            trim_token_spec(token@).len() > 0 ==> !ends_with_char(r@, '/'),
            trim_token_spec(token@).len() == 0 ==> r@ == self@,
    {
        proof {
            law_join_gives_the_form_asked_for(self@, token@);
        }
        let p = self.chars();
        let t = chars_of(token);
        NormalizedPath::from_chars(join_chars(&p, &t, false))
    }

    /// This path with `token` below it, as a collection.
    pub fn join_dir(&self, token: &str) -> (r: NormalizedPath)
        ensures
            r@ == join_dir_spec(self@, token@),
            r@.len() > 0,
            trim_token_spec(token@).len() > 0 ==> ends_with_char(r@, '/'),
            trim_token_spec(token@).len() == 0 ==> r@ == self@,
    {
        proof {
            law_join_gives_the_form_asked_for(self@, token@);
        }
        let p = self.chars();
        let t = chars_of(token);
        NormalizedPath::from_chars(join_chars(&p, &t, true))
    }

    /// The collection that holds this path; the root is its own parent.
    pub fn parent(&self) -> (r: NormalizedPath)
        ensures
            r@ == parent_spec(self@),
            r@.len() > 0,
    {
        let p = self.chars();
        let r = parent_chars(&p);
        proof {
            let stem = if ends_with_char(p@, '/') {
                trim_end_slashes(p@)
            } else {
                p@
            };
            lemma_join_dirs_nonempty(root(), split_slash(stem).drop_last());
        }
        NormalizedPath::from_chars(r)
    }

    /// What follows `prefix` in this path; this path where `prefix` does
    /// not start it.
    pub fn strip_prefix(&self, prefix: &NormalizedPath) -> (r: NormalizedPath)
        ensures
            r@ == strip_prefix_spec(self@, prefix@),
            r@.len() > 0,
    {
        let p = self.chars();
        let q = prefix.chars();
        if has_prefix(&p, &q) {
            let mut s: Vec<char> = Vec::new();
            push_range(&mut s, &p, q.len(), p.len());
            assert(s@ =~= p@.skip(q@.len() as int));
            NormalizedPath::from_chars(normalize_chars(s))
        } else {
            NormalizedPath::from_chars(p)
        }
    }

    /// Whether the path names a collection.
    pub fn is_collection(&self) -> (r: bool)
        ensures
            r == ends_with_char(self@, '/'),
    {
        let p = self.chars();
        p[p.len() - 1] == '/'
    }

    /// Whether the path is the root.
    pub fn is_root(&self) -> (r: bool)
        ensures
            r == (self@ == root()),
    {
        let p = self.chars();
        let r = p.len() == 1 && p[0] == '/';
        proof {
            if r {
                assert(p@ =~= root());
            }
        }
        r
    }

    /// The parent of a collection; for a resource, the parent of the
    /// collection that holds it.
    pub fn dirs_parent(&self) -> (r: NormalizedPath)
        ensures
            r@ == dirs_parent_spec(self@),
            r@.len() > 0,
    {
        if self.is_collection() {
            self.parent()
        } else {
            self.parent().parent()
        }
    }

    /// The resource form: a collection loses the slashes at its end.
    pub fn as_file(&self) -> (r: NormalizedPath)
        ensures
            r@ == as_file_spec(self@),
            r@.len() > 0,
    {
        let p = self.chars();
        if p[p.len() - 1] == '/' {
            let n = trim_end_slashes_len(&p);
            let mut s: Vec<char> = Vec::new();
            push_range(&mut s, &p, 0, n);
            assert(s@ =~= p@.take(n as int));
            NormalizedPath::from_chars(normalize_chars(s))
        } else {
            NormalizedPath::from_chars(p)
        }
    }

    /// The collection form: a resource gains a slash at its end.
    pub fn as_dir(&self) -> (r: NormalizedPath)
        ensures
            r@ == as_dir_spec(self@),
            r@.len() > 0,
    {
        let mut p = self.chars();
        if p[p.len() - 1] == '/' {
            NormalizedPath::from_chars(p)
        } else {
            p.push('/');
            assert(p@ =~= self@ + root());
            NormalizedPath::from_chars(normalize_chars(p))
        }
    }
}

impl Clone for NormalizedPath {
    fn clone(&self) -> (r: Self)
        ensures
            r@ == self@,
    {
        proof {
            use_type_invariant(self);
        }
        NormalizedPath(self.0.clone())
    }
}

impl PartialEq for NormalizedPath {
    fn eq(&self, other: &Self) -> (r: bool) {
        self.0 == other.0
    }
}

impl PartialEqSpecImpl for NormalizedPath {
    open spec fn obeys_eq_spec() -> bool {
        true
    }

    open spec fn eq_spec(&self, other: &Self) -> bool {
        self@ == other@
    }
}

impl From<String> for NormalizedPath {
    fn from(t: String) -> (r: Self)
        ensures
            r@ == normalize(t@),
    {
        NormalizedPath::from_text(t.as_str())
    }
}

impl FromSpecImpl<String> for NormalizedPath {
    open spec fn obeys_from_spec() -> bool {
        false
    }

    open spec fn from_spec(t: String) -> Self {
        arbitrary()
    }
}

impl<'a> From<&'a str> for NormalizedPath {
    fn from(t: &'a str) -> (r: Self)
        ensures
            r@ == normalize(t@),
    {
        NormalizedPath::from_text(t)
    }
}

impl<'a> FromSpecImpl<&'a str> for NormalizedPath {
    open spec fn obeys_from_spec() -> bool {
        false
    }

    open spec fn from_spec(t: &'a str) -> Self {
        arbitrary()
    }
}

} // verus!
