//! Filesystem paths as the configuration and the commands read them: the text of
//! the path, and the components that `std::path` sees in it on Unix.

use vstd::prelude::*;

use crate::text::{
    chars_of, index_of, join, join_strings, lemma_index_of, lemma_index_of_at, split_char,
    split_on, string_of, views,
};

verus! {

/// A path, held as its text. Paths are compared, split and joined by the rules
/// `std::path::Path` applies on Unix.
#[derive(Debug)]
pub struct FilePath {
    pub text: String,
}

/// The components of a path: whether it starts at the root, and the names after it
/// (a leading `.` of a relative path is kept; empty names and other `.` are not).
pub struct Comps {
    pub absolute: bool,
    pub parts: Seq<Seq<char>>,
}

/// Keeps the non-empty pieces, and `.` only as the very first piece.
pub open spec fn kept_parts(pieces: Seq<Seq<char>>, at_start: bool) -> Seq<Seq<char>>
    decreases pieces.len(),
{
    if pieces.len() == 0 {
        seq![]
    } else {
        let rest = kept_parts(pieces.drop_first(), false);
        let h = pieces[0];
        if h.len() > 0 && (h != seq!['.'] || at_start) {
            seq![h] + rest
        } else {
            rest
        }
    }
}

/// The components of the path text `s`.
pub open spec fn comps_of(s: Seq<char>) -> Comps {
    Comps { absolute: s.len() > 0 && s[0] == '/', parts: kept_parts(split_on(s, '/'), true) }
}

/// The parent of a path: all components but the last, when there is a last one.
pub open spec fn parent_of(c: Comps) -> Option<Comps> {
    if c.parts.len() > 0 {
        Some(Comps { absolute: c.absolute, parts: c.parts.drop_last() })
    } else {
        None
    }
}

/// The text of `base` with `rel` pushed onto it, as `PathBuf::push` writes it: an
/// absolute `rel` replaces `base`, and a separator goes between them when `base`
/// is not empty and does not already end with one.
pub open spec fn join_text(base: Seq<char>, rel: Seq<char>) -> Seq<char> {
    if rel.len() > 0 && rel[0] == '/' {
        rel
    } else if base.len() == 0 || base.last() == '/' {
        base + rel
    } else {
        base + seq!['/'] + rel
    }
}

/// The last component when it is a name (not the root, `.` or `..`).
pub open spec fn file_name_of(c: Comps) -> Option<Seq<char>> {
    if c.parts.len() > 0 && c.parts.last() != seq!['.'] && c.parts.last() != seq!['.', '.'] {
        Some(c.parts.last())
    } else {
        None
    }
}

/// The index of the last `c` in `s`, or -1.
pub open spec fn last_index_of(s: Seq<char>, c: char) -> int
    decreases s.len(),
{
    if s.len() == 0 {
        -1
    } else if s.last() == c {
        s.len() - 1
    } else {
        last_index_of(s.drop_last(), c)
    }
}

/// The extension of a file name: what follows its last `.`, unless that `.` is its
/// first character or there is none.
pub open spec fn extension_of_name(name: Seq<char>) -> Option<Seq<char>> {
    let k = last_index_of(name, '.');
    if k <= 0 {
        None
    } else {
        Some(name.skip(k + 1))
    }
}

/// The stem of a file name: what precedes its last `.`, or the whole name when the
/// name has no extension.
pub open spec fn stem_of_name(name: Seq<char>) -> Seq<char> {
    let k = last_index_of(name, '.');
    if k <= 0 {
        name
    } else {
        name.take(k)
    }
}

/// The pieces that follow the first `k` components among the `/`-separated
/// `pieces` of a path (`at_start` as for `kept_parts`).
pub open spec fn rest_after(pieces: Seq<Seq<char>>, at_start: bool, k: nat) -> Seq<Seq<char>>
    decreases pieces.len(),
{
    if k == 0 || pieces.len() == 0 {
        pieces
    } else {
        let h = pieces[0];
        if h.len() > 0 && (h != seq!['.'] || at_start) {
            rest_after(pieces.drop_first(), false, (k - 1) as nat)
        } else {
            rest_after(pieces.drop_first(), false, k)
        }
    }
}

/// A piece that names no component: empty (between two `/`) or `.`.
pub open spec fn empty_piece(h: Seq<char>) -> bool {
    h.len() == 0 || h == seq!['.']
}

/// The pieces without the leading ones that name no component.
pub open spec fn drop_leading_empty(q: Seq<Seq<char>>) -> Seq<Seq<char>>
    decreases q.len(),
{
    if q.len() > 0 && empty_piece(q[0]) {
        drop_leading_empty(q.drop_first())
    } else {
        q
    }
}

/// The pieces without the trailing ones that name no component.
pub open spec fn drop_trailing_empty(q: Seq<Seq<char>>) -> Seq<Seq<char>>
    decreases q.len(),
{
    if q.len() > 0 && empty_piece(q.last()) {
        drop_trailing_empty(q.drop_last())
    } else {
        q
    }
}

/// The pieces without the leading and trailing ones that name no component.
pub open spec fn trim_pieces(q: Seq<Seq<char>>) -> Seq<Seq<char>> {
    drop_trailing_empty(drop_leading_empty(q))
}

/// A path with its trailing separators and `.` removed, its root or leading `.`
/// kept: what remains when nothing is stripped from its start.
pub open spec fn tail_trimmed(path: Seq<char>) -> Seq<char> {
    let pieces = split_on(path, '/');
    if path.len() > 0 && path[0] == '/' {
        seq!['/'] + join(drop_trailing_empty(pieces.drop_first()), seq!['/'])
    } else if pieces[0] == seq!['.'] {
        if drop_trailing_empty(pieces.drop_first()).len() == 0 {
            seq!['.']
        } else {
            seq!['.', '/'] + join(drop_trailing_empty(pieces.drop_first()), seq!['/'])
        }
    } else {
        join(drop_trailing_empty(pieces), seq!['/'])
    }
}

/// The text of `path` relative to `base`, as `Path::strip_prefix` gives it when the
/// components of `base` begin those of `path`: the text after those components,
/// without the leading and trailing separators and `.`, inner ones kept as written.
/// A `base` with no component strips nothing, and only trailing separators and `.`
/// go; when `base` does not begin `path`, the text of `path` itself.
pub open spec fn relative_text(path: Seq<char>, base: Seq<char>) -> Seq<char> {
    let p = comps_of(path);
    let b = comps_of(base);
    if !b.absolute && b.parts.len() == 0 {
        tail_trimmed(path)
    } else if p.absolute == b.absolute && b.parts.is_prefix_of(p.parts) {
        join(trim_pieces(rest_after(split_on(path, '/'), true, b.parts.len())), seq!['/'])
    } else {
        path
    }
}

/// The components of a path, computed.
pub struct PathParts {
    pub absolute: bool,
    pub parts: Vec<String>,
}

impl PathParts {
    /// The components this value holds.
    pub open spec fn comps(&self) -> Comps {
        Comps { absolute: self.absolute, parts: views(self.parts@) }
    }
}

/// Whether a piece is exactly `.`.
fn is_dot(h: &String) -> (r: bool)
    ensures
        r == (h@ == seq!['.']),
{
    let cs = chars_of(h.as_str());
    let r = cs.len() == 1 && cs[0] == '.';
    assert(r == (cs@ =~= seq!['.']));
    r
}

/// Whether a piece is exactly `..`.
fn is_dot_dot(h: &String) -> (r: bool)
    ensures
        r == (h@ == seq!['.', '.']),
{
    let cs = chars_of(h.as_str());
    let r = cs.len() == 2 && cs[0] == '.' && cs[1] == '.';
    assert(r == (cs@ =~= seq!['.', '.']));
    r
}

/// Keeps the pieces that are components.
fn keep_parts(pieces: &Vec<String>) -> (r: Vec<String>)
    ensures
        views(r@) == kept_parts(views(pieces@), true),
{
    let mut r: Vec<String> = Vec::new();
    let mut i: usize = 0;
    assert(views(pieces@).skip(0) =~= views(pieces@));
    assert(views(r@) =~= Seq::<Seq<char>>::empty());
    while i < pieces.len()
        invariant
            i <= pieces@.len(),
            kept_parts(views(pieces@), true) == views(r@) + kept_parts(
                views(pieces@).skip(i as int),
                i == 0,
            ),
        decreases pieces@.len() - i,
    {
        let ghost rest = views(pieces@).skip(i as int);
        assert(rest.drop_first() =~= views(pieces@).skip(i + 1));
        assert(rest[0] == pieces@[i as int]@);
        let h = &pieces[i];
        if !h.as_str().is_empty() && (!is_dot(h) || i == 0) {
            let ghost prev = r@;
            r.push(h.clone());
            assert(views(r@) =~= views(prev) + seq![h@]);
        }
        i = i + 1;
    }
    assert(views(pieces@).skip(i as int) =~= Seq::<Seq<char>>::empty());
    assert(views(r@) + Seq::<Seq<char>>::empty() =~= views(r@));
    r
}

/// Whether two sequences of strings hold the same texts.
pub fn same_texts(a: &Vec<String>, b: &Vec<String>) -> (r: bool)
    ensures
        r == (views(a@) == views(b@)),
{
    if a.len() != b.len() {
        assert(views(a@).len() != views(b@).len());
        return false;
    }
    let mut i: usize = 0;
    while i < a.len()
        invariant
            i <= a@.len() == b@.len(),
            forall|j: int| 0 <= j < i ==> a@[j]@ == b@[j]@,
        decreases a@.len() - i,
    {
        if a[i] != b[i] {
            assert(views(a@)[i as int] != views(b@)[i as int]);
            return false;
        }
        i = i + 1;
    }
    assert(views(a@) =~= views(b@));
    true
}

impl FilePath {
    /// A path with the given text.
    pub fn new(text: &str) -> (r: FilePath)
        ensures
            r.text@ == text@,
    {
        FilePath { text: String::from_str(text) }
    }

    /// A copy of this path.
    pub fn duplicate(&self) -> (r: FilePath)
        ensures
            r.text@ == self.text@,
    {
        FilePath { text: self.text.clone() }
    }

    /// The components of this path.
    pub fn components(&self) -> (r: PathParts)
        ensures
            r.comps() == comps_of(self.text@),
    {
        let cs = chars_of(self.text.as_str());
        let pieces = split_char(&cs, '/');
        let parts = keep_parts(&pieces);
        PathParts { absolute: cs.len() > 0 && cs[0] == '/', parts }
    }

    /// This path with `rel` pushed onto it, as `Path::join` gives it.
    pub fn join(&self, rel: &str) -> (r: FilePath)
        ensures
            r.text@ == join_text(self.text@, rel@),
    {
        let b = chars_of(self.text.as_str());
        let rc = chars_of(rel);
        if rc.len() > 0 && rc[0] == '/' {
            return FilePath { text: String::from_str(rel) };
        }
        let mut t = self.text.clone();
        if !(b.len() == 0 || b[b.len() - 1] == '/') {
            t.push('/');
        }
        t.append(rel);
        FilePath { text: t }
    }

    /// The last component when it is a name, like `Path::file_name`.
    pub fn file_name(&self) -> (r: Option<String>)
        ensures
            match r {
                Some(n) => file_name_of(comps_of(self.text@)) == Some(n@),
                None => file_name_of(comps_of(self.text@)) is None,
            },
    {
        let c = self.components();
        let n = c.parts.len();
        if n == 0 {
            return None;
        }
        let last = &c.parts[n - 1];
        assert(views(c.parts@).last() == last@);
        if is_dot(last) || is_dot_dot(last) {
            None
        } else {
            Some(last.clone())
        }
    }
}

/// The index of the last `c` in `cs`, or -1 as the specification counts it.
fn last_index(cs: &Vec<char>, c: char) -> (r: Option<usize>)
    ensures
        match r {
            Some(k) => last_index_of(cs@, c) == k as int && k < cs.len(),
            None => last_index_of(cs@, c) == -1,
        },
{
    let mut i: usize = cs.len();
    assert(cs@.subrange(0, cs@.len() as int) =~= cs@);
    while i > 0
        invariant
            i <= cs@.len(),
            last_index_of(cs@, c) == last_index_of(cs@.subrange(0, i as int), c),
        decreases i,
    {
        if cs[i - 1] == c {
            return Some(i - 1);
        }
        assert(cs@.subrange(0, i as int).drop_last() =~= cs@.subrange(0, i - 1));
        i = i - 1;
    }
    None
}

/// The extension of a file name, like the one `Path::extension` finds.
pub fn extension_of(name: &String) -> (r: Option<String>)
    ensures
        match r {
            Some(e) => extension_of_name(name@) == Some(e@),
            None => extension_of_name(name@) is None,
        },
{
    let cs = chars_of(name.as_str());
    match last_index(&cs, '.') {
        Some(k) => {
            if k == 0 {
                None
            } else {
                let e = string_of(&cs, k + 1, cs.len());
                assert(e@ =~= cs@.skip(k + 1));
                Some(e)
            }
        },
        None => None,
    }
}

/// The stem of a file name, like the one `Path::file_stem` finds.
pub fn stem_of(name: &String) -> (r: String)
    ensures
        r@ == stem_of_name(name@),
{
    let cs = chars_of(name.as_str());
    match last_index(&cs, '.') {
        Some(k) => {
            if k == 0 {
                name.clone()
            } else {
                let e = string_of(&cs, 0, k);
                assert(e@ =~= cs@.take(k as int));
                e
            }
        },
        None => name.clone(),
    }
}

/// Whether two paths have the same components, which is what `==` on paths tests.
pub fn same_path(a: &FilePath, b: &FilePath) -> (r: bool)
    ensures
        r == (comps_of(a.text@) == comps_of(b.text@)),
{
    let ca = a.components();
    let cb = b.components();
    ca.absolute == cb.absolute && same_texts(&ca.parts, &cb.parts)
}

/// Whether both paths have a parent and the parents are the same path.
pub fn same_parent(a: &FilePath, b: &FilePath) -> (r: bool)
    ensures
        r == (parent_of(comps_of(a.text@)) is Some && parent_of(comps_of(b.text@)) is Some
            && parent_of(comps_of(a.text@)) == parent_of(comps_of(b.text@))),
{
    let mut ca = a.components();
    let mut cb = b.components();
    if ca.parts.len() == 0 || cb.parts.len() == 0 {
        return false;
    }
    let ghost pa = views(ca.parts@);
    let ghost pb = views(cb.parts@);
    ca.parts.pop();
    cb.parts.pop();
    assert(views(ca.parts@) =~= pa.drop_last());
    assert(views(cb.parts@) =~= pb.drop_last());
    ca.absolute == cb.absolute && same_texts(&ca.parts, &cb.parts)
}

/// Whether a piece names no component.
fn is_empty_piece(h: &String) -> (r: bool)
    ensures
        r == empty_piece(h@),
{
    h.as_str().is_empty() || is_dot(h)
}

/// The pieces `lo..hi` joined by `/`.
fn join_range(pieces: &Vec<String>, lo: usize, hi: usize) -> (r: String)
    requires
        lo <= hi <= pieces@.len(),
    ensures
        r@ == join(views(pieces@).subrange(lo as int, hi as int), seq!['/']),
{
    let mut v: Vec<String> = Vec::new();
    let mut i: usize = lo;
    while i < hi
        invariant
            lo <= i <= hi <= pieces@.len(),
            views(v@) == views(pieces@).subrange(lo as int, i as int),
        decreases hi - i,
    {
        let x = pieces[i].clone();
        let ghost prev = v@;
        v.push(x);
        assert(views(v@) =~= views(prev).push(x@));
        assert(views(pieces@).subrange(lo as int, i + 1) =~= views(pieces@).subrange(
            lo as int,
            i as int,
        ).push(pieces@[i as int]@));
        i = i + 1;
    }
    proof {
        reveal_strlit("/");
        assert("/"@ =~= seq!['/']);
    }
    join_strings(&v, "/")
}

/// Where `lo..hi` ends once its trailing pieces that name no component are dropped.
fn trailing_end(pieces: &Vec<String>, lo: usize, hi: usize) -> (r: usize)
    requires
        lo <= hi <= pieces@.len(),
    ensures
        lo <= r <= hi,
        drop_trailing_empty(views(pieces@).subrange(lo as int, hi as int)) == views(
            pieces@,
        ).subrange(lo as int, r as int),
{
    let ghost pv = views(pieces@);
    let mut e: usize = hi;
    while e > lo && is_empty_piece(&pieces[e - 1])
        invariant
            lo <= e <= hi <= pieces@.len(),
            pv == views(pieces@),
            drop_trailing_empty(pv.subrange(lo as int, hi as int)) == drop_trailing_empty(
                pv.subrange(lo as int, e as int),
            ),
        decreases e - lo,
    {
        let ghost s = pv.subrange(lo as int, e as int);
        assert(s.last() == pieces@[e - 1]@);
        assert(s.drop_last() =~= pv.subrange(lo as int, e - 1));
        e = e - 1;
    }
    let ghost s = pv.subrange(lo as int, e as int);
    if e > lo {
        assert(s.last() == pieces@[e - 1]@);
    }
    e
}

/// Where `lo..hi` starts once its leading pieces that name no component are dropped.
fn leading_start(pieces: &Vec<String>, lo: usize, hi: usize) -> (r: usize)
    requires
        lo <= hi <= pieces@.len(),
    ensures
        lo <= r <= hi,
        drop_leading_empty(views(pieces@).subrange(lo as int, hi as int)) == views(
            pieces@,
        ).subrange(r as int, hi as int),
{
    let ghost pv = views(pieces@);
    let mut a: usize = lo;
    while a < hi && is_empty_piece(&pieces[a])
        invariant
            lo <= a <= hi <= pieces@.len(),
            pv == views(pieces@),
            drop_leading_empty(pv.subrange(lo as int, hi as int)) == drop_leading_empty(
                pv.subrange(a as int, hi as int),
            ),
        decreases hi - a,
    {
        let ghost s = pv.subrange(a as int, hi as int);
        assert(s[0] == pieces@[a as int]@);
        assert(s.drop_first() =~= pv.subrange(a + 1, hi as int));
        a = a + 1;
    }
    let ghost s = pv.subrange(a as int, hi as int);
    if a < hi {
        assert(s[0] == pieces@[a as int]@);
    }
    a
}

/// The text of a path with its trailing separators and `.` removed.
fn tail_trimmed_of(path: &String) -> (r: String)
    ensures
        r@ == tail_trimmed(path@),
{
    let cs = chars_of(path.as_str());
    let pieces = split_char(&cs, '/');
    let ghost pv = views(pieces@);
    proof {
        lemma_split_len(path@, '/');
        reveal_strlit("/");
        reveal_strlit(".");
        reveal_strlit("./");
    }
    let n = pieces.len();
    assert(pv.subrange(1, n as int) =~= pv.drop_first());
    assert(pv.subrange(0, n as int) =~= pv);
    if cs.len() > 0 && cs[0] == '/' {
        let e = trailing_end(&pieces, 1, n);
        let mut s = String::from_str("/");
        let rest = join_range(&pieces, 1, e);
        s.append(rest.as_str());
        assert(s@ =~= seq!['/'] + rest@);
        s
    } else if is_dot(&pieces[0]) {
        let e = trailing_end(&pieces, 1, n);
        if e == 1 {
            String::from_str(".")
        } else {
            let mut s = String::from_str("./");
            let rest = join_range(&pieces, 1, e);
            s.append(rest.as_str());
            assert(s@ =~= seq!['.', '/'] + rest@);
            s
        }
    } else {
        let e = trailing_end(&pieces, 0, n);
        join_range(&pieces, 0, e)
    }
}

/// The text of `path` relative to `base`, as the relative form of a changed file
/// is shown and matched.
pub fn relative_text_of(path: &FilePath, base: &FilePath) -> (r: String)
    ensures
        r@ == relative_text(path.text@, base.text@),
{
    let p = path.components();
    let b = base.components();
    if !b.absolute && b.parts.len() == 0 {
        return tail_trimmed_of(&path.text);
    }
    if p.absolute != b.absolute || b.parts.len() > p.parts.len() {
        return path.text.clone();
    }
    let mut i: usize = 0;
    while i < b.parts.len()
        invariant
            i <= b.parts@.len() <= p.parts@.len(),
            forall|j: int| 0 <= j < i ==> b.parts@[j]@ == p.parts@[j]@,
            p.comps() == comps_of(path.text@),
            b.comps() == comps_of(base.text@),
            p.absolute == b.absolute,
        decreases b.parts@.len() - i,
    {
        if b.parts[i] != p.parts[i] {
            assert(!views(b.parts@).is_prefix_of(views(p.parts@))) by {
                assert(views(p.parts@).subrange(0, views(b.parts@).len() as int)[i as int]
                    != views(b.parts@)[i as int]);
            }
            return path.text.clone();
        }
        i = i + 1;
    }
    assert(views(b.parts@).is_prefix_of(views(p.parts@))) by {
        assert(views(p.parts@).subrange(0, views(b.parts@).len() as int) =~= views(b.parts@));
    }
    let cs = chars_of(path.text.as_str());
    let pieces = split_char(&cs, '/');
    let ghost pv = views(pieces@);
    let ghost total = views(b.parts@).len();
    let mut i: usize = 0;
    let mut first = true;
    let mut k: usize = b.parts.len();
    assert(pv.skip(0) =~= pv);
    while k > 0 && i < pieces.len()
        invariant
            i <= pv.len(),
            pv == views(pieces@),
            rest_after(pv, true, total) == rest_after(pv.skip(i as int), first, k as nat),
        decreases pv.len() - i,
    {
        let ghost q = pv.skip(i as int);
        assert(q[0] == pieces@[i as int]@);
        assert(q.drop_first() =~= pv.skip(i + 1));
        let h = &pieces[i];
        if !h.as_str().is_empty() && (!is_dot(h) || first) {
            k = k - 1;
        }
        first = false;
        i = i + 1;
    }
    let n = pieces.len();
    assert(pv.skip(i as int) =~= pv.subrange(i as int, n as int));
    let lo = leading_start(&pieces, i, n);
    let e = trailing_end(&pieces, lo, n);
    join_range(&pieces, lo, e)
}

// ─── Joining, then taking relative ───────────────────────────────────────────

/// A relative path written cleanly: names separated by single `/`, with no `.`
/// and no leading or trailing `/`.
pub open spec fn clean_relative(rel: Seq<char>) -> bool {
    forall|i: int|
        0 <= i < split_on(rel, '/').len() ==> #[trigger] split_on(rel, '/')[i].len() > 0
            && split_on(rel, '/')[i] != seq!['.']
}

proof fn lemma_split_len(s: Seq<char>, c: char)
    ensures
        split_on(s, c).len() >= 1,
    decreases s.len(),
{
    lemma_index_of(s, c);
    let k = index_of(s, c);
    if k < s.len() {
        lemma_split_len(s.skip(k + 1), c);
    }
}

proof fn lemma_split_concat(x: Seq<char>, y: Seq<char>, c: char)
    ensures
        split_on(x + seq![c] + y, c) == split_on(x, c) + split_on(y, c),
    decreases x.len(),
{
    let s = x + seq![c] + y;
    lemma_index_of(x, c);
    let k = index_of(x, c);
    if k < x.len() {
        assert forall|j: int| 0 <= j < k implies s[j] != c by {
            assert(s[j] == x[j]);
        }
        assert(s[k] == x[k]);
        lemma_index_of_at(s, c, k);
        assert(s.take(k) =~= x.take(k));
        assert(s.skip(k + 1) =~= x.skip(k + 1) + seq![c] + y);
        lemma_split_concat(x.skip(k + 1), y, c);
        assert(split_on(s, c) =~= seq![x.take(k)] + (split_on(x.skip(k + 1), c) + split_on(y, c)));
    } else {
        assert forall|j: int| 0 <= j < x.len() implies s[j] != c by {
            assert(s[j] == x[j]);
        }
        lemma_index_of_at(s, c, x.len() as int);
        assert(s.take(x.len() as int) =~= x);
        assert(s.skip(x.len() as int + 1) =~= y);
    }
}

proof fn lemma_kept_concat(p: Seq<Seq<char>>, q: Seq<Seq<char>>, at_start: bool)
    requires
        p.len() > 0,
    ensures
        kept_parts(p + q, at_start) == kept_parts(p, at_start) + kept_parts(q, false),
    decreases p.len(),
{
    assert((p + q)[0] == p[0]);
    assert((p + q).drop_first() =~= p.drop_first() + q);
    if p.len() == 1 {
        assert(p.drop_first() + q =~= q);
        assert(kept_parts(p.drop_first(), false) =~= Seq::<Seq<char>>::empty());
    } else {
        lemma_kept_concat(p.drop_first(), q, false);
    }
}

proof fn lemma_join_cons(a: Seq<char>, rest: Seq<Seq<char>>, sep: Seq<char>)
    requires
        rest.len() >= 1,
    ensures
        join(seq![a] + rest, sep) == a + sep + join(rest, sep),
    decreases rest.len(),
{
    let all = seq![a] + rest;
    assert(all.last() == rest.last());
    assert(join(all, sep) == join(all.drop_last(), sep) + sep + all.last());
    if rest.len() == 1 {
        assert(all.drop_last() =~= seq![a]);
        assert(join(seq![a], sep) == a);
        assert(join(rest, sep) == rest[0]);
        assert(rest.last() == rest[0]);
    } else {
        assert(all.drop_last() =~= seq![a] + rest.drop_last());
        assert(join(rest, sep) == join(rest.drop_last(), sep) + sep + rest.last());
        lemma_join_cons(a, rest.drop_last(), sep);
        assert(a + sep + join(rest.drop_last(), sep) + sep + rest.last() =~= a + sep + (join(
            rest.drop_last(),
            sep,
        ) + sep + rest.last()));
    }
}

proof fn lemma_join_split(s: Seq<char>, c: char)
    ensures
        join(split_on(s, c), seq![c]) == s,
    decreases s.len(),
{
    lemma_index_of(s, c);
    let k = index_of(s, c);
    if k < s.len() {
        lemma_join_split(s.skip(k + 1), c);
        lemma_split_len(s.skip(k + 1), c);
        lemma_join_cons(s.take(k), split_on(s.skip(k + 1), c), seq![c]);
        assert(s.take(k) + seq![c] + s.skip(k + 1) =~= s);
    }
}

/// The components of `base` joined with a relative `rel`: those of `base`, then
/// those of `rel` (a leading `.` of `rel` dropped).
proof fn lemma_join_comps(base: Seq<char>, rel: Seq<char>)
    requires
        base.len() > 0,
        !(rel.len() > 0 && rel[0] == '/'),
    ensures
        comps_of(join_text(base, rel)).absolute == comps_of(base).absolute,
        comps_of(join_text(base, rel)).parts == comps_of(base).parts + kept_parts(
            split_on(rel, '/'),
            false,
        ),
{
    let j = join_text(base, rel);
    if base.last() == '/' {
        let b = base.drop_last();
        assert(base =~= b + seq!['/'] + Seq::<char>::empty());
        assert(j =~= b + seq!['/'] + rel);
        lemma_split_concat(b, rel, '/');
        lemma_split_concat(b, Seq::<char>::empty(), '/');
        lemma_split_len(b, '/');
        lemma_kept_concat(split_on(b, '/'), split_on(rel, '/'), true);
        lemma_kept_concat(split_on(b, '/'), split_on(Seq::<char>::empty(), '/'), true);
        lemma_index_of(Seq::<char>::empty(), '/');
        assert(split_on(Seq::<char>::empty(), '/') =~= seq![Seq::<char>::empty()]);
        assert(seq![Seq::<char>::empty()].drop_first() =~= Seq::<Seq<char>>::empty());
        assert(kept_parts(Seq::<Seq<char>>::empty(), false) =~= Seq::<Seq<char>>::empty());
        assert(kept_parts(seq![Seq::<char>::empty()], false) =~= Seq::<Seq<char>>::empty());
        assert(comps_of(base).parts =~= kept_parts(split_on(b, '/'), true));
        assert(j[0] == base[0]);
    } else {
        assert(j =~= base + seq!['/'] + rel);
        lemma_split_concat(base, rel, '/');
        lemma_split_len(base, '/');
        lemma_kept_concat(split_on(base, '/'), split_on(rel, '/'), true);
        assert(j[0] == base[0]);
    }
}

proof fn lemma_rest_after_concat(p: Seq<Seq<char>>, q: Seq<Seq<char>>, s: bool, k: nat)
    requires
        k <= kept_parts(p, s).len(),
    ensures
        rest_after(p + q, s, k) == rest_after(p, s, k) + q,
    decreases p.len(),
{
    if k > 0 && p.len() > 0 {
        assert((p + q)[0] == p[0]);
        assert((p + q).drop_first() =~= p.drop_first() + q);
        let h = p[0];
        if h.len() > 0 && (h != seq!['.'] || s) {
            lemma_rest_after_concat(p.drop_first(), q, false, (k - 1) as nat);
        } else {
            lemma_rest_after_concat(p.drop_first(), q, false, k);
        }
    }
}

proof fn lemma_unkept_empty(p: Seq<Seq<char>>, s: bool)
    requires
        kept_parts(p, s).len() == 0,
    ensures
        forall|i: int| 0 <= i < p.len() ==> #[trigger] empty_piece(p[i]),
    decreases p.len(),
{
    if p.len() > 0 {
        lemma_unkept_empty(p.drop_first(), false);
        assert forall|i: int| 0 <= i < p.len() implies #[trigger] empty_piece(p[i]) by {
            if i > 0 {
                assert(p[i] == p.drop_first()[i - 1]);
            }
        }
    }
}

proof fn lemma_rest_all_empty(p: Seq<Seq<char>>, s: bool)
    ensures
        forall|i: int|
            0 <= i < rest_after(p, s, kept_parts(p, s).len()).len() ==> #[trigger] empty_piece(
                rest_after(p, s, kept_parts(p, s).len())[i],
            ),
    decreases p.len(),
{
    if kept_parts(p, s).len() == 0 {
        lemma_unkept_empty(p, s);
    } else {
        let h = p[0];
        let n = kept_parts(p, s).len();
        let m = kept_parts(p.drop_first(), false).len();
        lemma_rest_all_empty(p.drop_first(), false);
        if h.len() > 0 && (h != seq!['.'] || s) {
            assert(n == m + 1);
            assert(rest_after(p, s, n) == rest_after(p.drop_first(), false, m));
        } else {
            assert(n == m);
            assert(rest_after(p, s, n) == rest_after(p.drop_first(), false, m));
        }
    }
}

proof fn lemma_drop_leading_empty_prefix(a: Seq<Seq<char>>, q: Seq<Seq<char>>)
    requires
        forall|i: int| 0 <= i < a.len() ==> #[trigger] empty_piece(a[i]),
    ensures
        drop_leading_empty(a + q) == drop_leading_empty(q),
    decreases a.len(),
{
    if a.len() > 0 {
        assert((a + q)[0] == a[0]);
        assert((a + q).drop_first() =~= a.drop_first() + q);
        assert forall|i: int| 0 <= i < a.drop_first().len() implies #[trigger] empty_piece(
            a.drop_first()[i],
        ) by {
            assert(a.drop_first()[i] == a[i + 1]);
        }
        lemma_drop_leading_empty_prefix(a.drop_first(), q);
    } else {
        assert(a + q =~= q);
    }
}

proof fn lemma_relative_base_has_component(base: Seq<char>)
    requires
        base.len() > 0,
        base[0] != '/',
    ensures
        kept_parts(split_on(base, '/'), true).len() > 0,
{
    lemma_index_of(base, '/');
    let k = index_of(base, '/');
    assert(k != 0);
    if k < base.len() {
        assert(split_on(base, '/')[0] == base.take(k));
    } else {
        assert(split_on(base, '/')[0] == base);
    }
}

/// Joining a relative path onto a base and taking the result relative to that base
/// gives back the relative path without its leading and trailing separators and
/// `.`; a relative path written cleanly comes back exactly as written.
pub proof fn law_relative_undoes_join(base: Seq<char>, rel: Seq<char>)
    requires
        base.len() > 0,
        !(rel.len() > 0 && rel[0] == '/'),
    ensures
        relative_text(join_text(base, rel), base) == join(
            trim_pieces(split_on(rel, '/')),
            seq!['/'],
        ),
        clean_relative(rel) ==> relative_text(join_text(base, rel), base) == rel,
{
    let j = join_text(base, rel);
    lemma_join_comps(base, rel);
    let bp = comps_of(base).parts;
    let r = kept_parts(split_on(rel, '/'), false);
    assert(bp.is_prefix_of(bp + r)) by {
        assert((bp + r).subrange(0, bp.len() as int) =~= bp);
    }
    if base[0] != '/' {
        lemma_relative_base_has_component(base);
    }
    let bt = if base.last() == '/' {
        base.drop_last()
    } else {
        base
    };
    assert(j =~= bt + seq!['/'] + rel);
    lemma_split_concat(bt, rel, '/');
    lemma_split_len(bt, '/');
    if base.last() == '/' {
        assert(base =~= bt + seq!['/'] + Seq::<char>::empty());
        lemma_split_concat(bt, Seq::<char>::empty(), '/');
        lemma_kept_concat(split_on(bt, '/'), split_on(Seq::<char>::empty(), '/'), true);
        lemma_index_of(Seq::<char>::empty(), '/');
        assert(split_on(Seq::<char>::empty(), '/') =~= seq![Seq::<char>::empty()]);
        assert(seq![Seq::<char>::empty()].drop_first() =~= Seq::<Seq<char>>::empty());
        assert(kept_parts(Seq::<Seq<char>>::empty(), false) =~= Seq::<Seq<char>>::empty());
        assert(kept_parts(seq![Seq::<char>::empty()], false) =~= Seq::<Seq<char>>::empty());
    }
    let bpieces = split_on(bt, '/');
    assert(bp =~= kept_parts(bpieces, true));
    lemma_rest_after_concat(bpieces, split_on(rel, '/'), true, bp.len());
    lemma_rest_all_empty(bpieces, true);
    lemma_drop_leading_empty_prefix(
        rest_after(bpieces, true, bp.len()),
        split_on(rel, '/'),
    );
    if clean_relative(rel) {
        let q = split_on(rel, '/');
        lemma_split_len(rel, '/');
        assert(drop_leading_empty(q) == q);
        assert(drop_trailing_empty(q) == q);
        lemma_join_split(rel, '/');
    }
}

} // verus!
