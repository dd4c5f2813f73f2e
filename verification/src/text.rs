//! Character-level text utilities with exact specifications: whitespace, trimming,
//! line splitting, searching and decimal rendering.

use vstd::prelude::*;
use vstd::std_specs::iter::IteratorSpec;

verus! {

/// `String::push` appends one character; its documentation states exactly that.
pub assume_specification[ std::string::String::push ](s: &mut std::string::String, ch: char)
    ensures
        final(s)@ == old(s)@.push(ch),
;

/// The Unicode `White_Space` property, which `char::is_whitespace` tests.
pub open spec fn is_ws(c: char) -> bool {
    let u = c as u32;
    ||| 0x09 <= u <= 0x0d
    ||| u == 0x20
    ||| u == 0x85
    ||| u == 0xa0
    ||| u == 0x1680
    ||| 0x2000 <= u <= 0x200a
    ||| u == 0x2028
    ||| u == 0x2029
    ||| u == 0x202f
    ||| u == 0x205f
    ||| u == 0x3000
}

/// Whether `c` is Unicode whitespace.
pub fn is_whitespace(c: char) -> (r: bool)
    ensures
        r == is_ws(c),
{
    let u = c as u32;
    (0x09 <= u && u <= 0x0d) || u == 0x20 || u == 0x85 || u == 0xa0 || u == 0x1680 || (0x2000
        <= u && u <= 0x200a) || u == 0x2028 || u == 0x2029 || u == 0x202f || u == 0x205f || u
        == 0x3000
}

/// The characters of a string slice, in order.
pub fn chars_of(s: &str) -> (r: Vec<char>)
    ensures
        r@ == s@,
{
    broadcast use vstd::string::group_string_axioms;

    let mut it = s.chars();
    let mut r: Vec<char> = Vec::new();
    loop
        invariant
            r@ + it.remaining() == s@,
            it.obeys_prophetic_iter_laws(),
            it.decrease() is Some,
        ensures
            r@ == s@,
        decreases it.decrease()->0,
    {
        match it.next() {
            Some(c) => {
                r.push(c);
            },
            None => {
                assert(r@ + it.remaining() == r@);
                break ;
            },
        }
    }
    r
}


/// The string made of `cs[from..to]`.
pub fn string_of(cs: &Vec<char>, from: usize, to: usize) -> (r: String)
    requires
        from <= to <= cs@.len(),
    ensures
        r@ == cs@.subrange(from as int, to as int),
{
    let mut r = String::new();
    let mut i = from;
    while i < to
        invariant
            from <= i <= to <= cs@.len(),
            r@ == cs@.subrange(from as int, i as int),
        decreases to - i,
    {
        r.push(cs[i]);
        i = i + 1;
        assert(r@ =~= cs@.subrange(from as int, i as int));
    }
    r
}

// ─── Searching ───────────────────────────────────────────────────────────────

/// `p` occurs in `s` starting at index `i`.
pub open spec fn occurs_at(s: Seq<char>, p: Seq<char>, i: int) -> bool {
    0 <= i && i + p.len() <= s.len() && s.subrange(i, i + p.len()) == p
}

/// `p` occurs somewhere in `s` (what `str::contains` answers for a string pattern).
pub open spec fn seq_contains(s: Seq<char>, p: Seq<char>) -> bool {
    exists|i: int| #[trigger] occurs_at(s, p, i)
}

/// Whether `p` occurs in `s` at index `i`.
pub fn matches_at(s: &Vec<char>, p: &Vec<char>, i: usize) -> (r: bool)
    ensures
        r == occurs_at(s@, p@, i as int),
{
    if i > s.len() || p.len() > s.len() - i {
        return false;
    }
    let mut j: usize = 0;
    while j < p.len()
        invariant
            i + p@.len() <= s@.len(),
            s@.len() == s.len(),
            j <= p@.len(),
            forall|k: int| 0 <= k < j ==> s@[i + k] == p@[k],
        decreases p@.len() - j,
    {
        if s[i + j] != p[j] {
            assert(s@.subrange(i as int, i + p@.len())[j as int] != p@[j as int]);
            return false;
        }
        j = j + 1;
    }
    assert(s@.subrange(i as int, i + p@.len()) =~= p@);
    true
}

/// Whether `p` occurs anywhere in `s`.
pub fn contains_chars(s: &Vec<char>, p: &Vec<char>) -> (r: bool)
    ensures
        r == seq_contains(s@, p@),
{
    if p.len() > s.len() {
        assert forall|i: int| !occurs_at(s@, p@, i) by {}
        return false;
    }
    let last = s.len() - p.len();
    let mut i: usize = 0;
    loop
        invariant
            last == s@.len() - p@.len(),
            i <= last,
            forall|k: int| 0 <= k < i ==> !occurs_at(s@, p@, k),
        ensures
            forall|k: int| 0 <= k <= last ==> !occurs_at(s@, p@, k),
        decreases last - i,
    {
        if matches_at(s, p, i) {
            return true;
        }
        if i == last {
            break ;
        }
        i = i + 1;
    }
    assert forall|k: int| !occurs_at(s@, p@, k) by {
        if 0 <= k <= last {
        }
    }
    false
}

/// Whether `p` occurs anywhere in `s`, like `str::contains`.
pub fn str_contains(s: &str, p: &str) -> (r: bool)
    ensures
        r == seq_contains(s@, p@),
{
    contains_chars(&chars_of(s), &chars_of(p))
}

/// Whether `s` begins with `p`, like `str::starts_with`.
pub fn str_starts_with(s: &str, p: &str) -> (r: bool)
    ensures
        r == p@.is_prefix_of(s@),
{
    let r = matches_at(&chars_of(s), &chars_of(p), 0);
    assert(r == p@.is_prefix_of(s@)) by {
        if p@.len() <= s@.len() {
            assert(s@.subrange(0, 0 + p@.len() as int) == s@.subrange(0, p@.len() as int));
        }
    }
    r
}

/// Whether `s` ends with `p`, like `str::ends_with`.
pub fn str_ends_with(s: &str, p: &str) -> (r: bool)
    ensures
        r == p@.is_suffix_of(s@),
{
    let cs = chars_of(s);
    let ps = chars_of(p);
    if ps.len() > cs.len() {
        return false;
    }
    let r = matches_at(&cs, &ps, cs.len() - ps.len());
    r
}

/// The first index of `c` in `s`, or `s.len()` when `c` does not occur.
pub open spec fn index_of(s: Seq<char>, c: char) -> int
    decreases s.len(),
{
    if s.len() == 0 {
        0
    } else if s[0] == c {
        0
    } else {
        1 + index_of(s.drop_first(), c)
    }
}

/// `index_of` is the position of the first occurrence, or the length.
pub proof fn lemma_index_of(s: Seq<char>, c: char)
    ensures
        0 <= index_of(s, c) <= s.len(),
        forall|j: int| 0 <= j < index_of(s, c) ==> s[j] != c,
        index_of(s, c) < s.len() ==> s[index_of(s, c)] == c,
    decreases s.len(),
{
    if s.len() > 0 && s[0] != c {
        lemma_index_of(s.drop_first(), c);
        assert forall|j: int| 0 <= j < index_of(s, c) implies s[j] != c by {
            if j > 0 {
                assert(s[j] == s.drop_first()[j - 1]);
            }
        }
    }
}

/// A position with no earlier `c` and `c` (or the end) there is `index_of`.
pub proof fn lemma_index_of_at(s: Seq<char>, c: char, k: int)
    requires
        0 <= k <= s.len(),
        forall|j: int| 0 <= j < k ==> s[j] != c,
        k < s.len() ==> s[k] == c,
    ensures
        index_of(s, c) == k,
    decreases s.len(),
{
    if s.len() > 0 && k > 0 {
        lemma_index_of_at(s.drop_first(), c, k - 1);
    }
}

// ─── Splitting ───────────────────────────────────────────────────────────────

/// The pieces of `s` between occurrences of `c`, like `str::split` with a
/// character pattern (there is always at least one piece).
pub open spec fn split_on(s: Seq<char>, c: char) -> Seq<Seq<char>>
    decreases s.len(),
{
    let k = index_of(s, c);
    if k >= s.len() || k < 0 {
        seq![s]
    } else {
        seq![s.take(k)] + split_on(s.skip(k + 1), c)
    }
}

/// The string views of a vector of strings.
pub open spec fn views(v: Seq<String>) -> Seq<Seq<char>> {
    v.map_values(|x: String| x@)
}

/// The pieces of `s` between occurrences of `c`.
pub fn split_char(s: &Vec<char>, c: char) -> (r: Vec<String>)
    ensures
        views(r@) == split_on(s@, c),
{
    let mut r: Vec<String> = Vec::new();
    let mut start: usize = 0;
    let mut i: usize = 0;
    assert(s@.skip(0) =~= s@);
    assert(views(r@) =~= Seq::<Seq<char>>::empty());
    while i < s.len()
        invariant
            start <= i <= s@.len(),
            forall|j: int| start <= j < i ==> s@[j] != c,
            split_on(s@, c) == views(r@) + split_on(s@.skip(start as int), c),
        decreases s@.len() - i,
    {
        if s[i] == c {
            let ghost rest = s@.skip(start as int);
            proof {
                lemma_index_of_at(rest, c, i - start);
                assert(rest.take(i - start) =~= s@.subrange(start as int, i as int));
                assert(rest.skip(i - start + 1) =~= s@.skip(i + 1));
            }
            let piece = string_of(s, start, i);
            let ghost prev = r@;
            r.push(piece);
            assert(views(r@) =~= views(prev) + seq![piece@]);
            start = i + 1;
        }
        i = i + 1;
    }
    let ghost rest = s@.skip(start as int);
    proof {
        lemma_index_of_at(rest, c, rest.len() as int);
    }
    let piece = string_of(s, start, s.len());
    assert(piece@ =~= rest);
    let ghost prev = r@;
    r.push(piece);
    assert(views(r@) =~= views(prev) + seq![piece@]);
    r
}


// ─── Trimming ────────────────────────────────────────────────────────────────

/// `s` without its leading whitespace.
pub open spec fn trim_start(s: Seq<char>) -> Seq<char>
    decreases s.len(),
{
    if s.len() > 0 && is_ws(s[0]) {
        trim_start(s.drop_first())
    } else {
        s
    }
}

/// `s` without its trailing whitespace.
pub open spec fn trim_end(s: Seq<char>) -> Seq<char>
    decreases s.len(),
{
    if s.len() > 0 && is_ws(s.last()) {
        trim_end(s.drop_last())
    } else {
        s
    }
}

/// `s` without leading and trailing whitespace, as `str::trim` gives it.
pub open spec fn trim(s: Seq<char>) -> Seq<char> {
    trim_end(trim_start(s))
}

/// The trimmed text of `cs[from..to]`.
pub fn trim_chars(cs: &Vec<char>, from: usize, to: usize) -> (r: String)
    requires
        from <= to <= cs@.len(),
    ensures
        r@ == trim(cs@.subrange(from as int, to as int)),
{
    let mut a = from;
    while a < to && is_whitespace(cs[a])
        invariant
            from <= a <= to <= cs@.len(),
            trim_start(cs@.subrange(from as int, to as int)) == trim_start(
                cs@.subrange(a as int, to as int),
            ),
        decreases to - a,
    {
        assert(cs@.subrange(a as int, to as int).drop_first() =~= cs@.subrange(
            a + 1,
            to as int,
        ));
        a = a + 1;
    }
    let mut b = to;
    while b > a && is_whitespace(cs[b - 1])
        invariant
            a <= b <= to <= cs@.len(),
            trim_end(cs@.subrange(a as int, to as int)) == trim_end(
                cs@.subrange(a as int, b as int),
            ),
        decreases b - a,
    {
        assert(cs@.subrange(a as int, b as int).drop_last() =~= cs@.subrange(
            a as int,
            b - 1,
        ));
        b = b - 1;
    }
    string_of(cs, a, b)
}

/// The trimmed text of `s`, like `str::trim`.
pub fn trim_str(s: &str) -> (r: String)
    ensures
        r@ == trim(s@),
{
    let cs = chars_of(s);
    assert(cs@.subrange(0, cs@.len() as int) =~= cs@);
    trim_chars(&cs, 0, cs.len())
}

/// `s` without leading and trailing copies of `c`, as `str::trim_matches` gives it
/// for a character pattern.
pub open spec fn trim_char(s: Seq<char>, c: char) -> Seq<char>
    decreases s.len(),
{
    if s.len() > 0 && s[0] == c {
        trim_char(s.drop_first(), c)
    } else if s.len() > 0 && s.last() == c {
        trim_char(s.drop_last(), c)
    } else {
        s
    }
}

/// `s` without leading and trailing copies of `c`.
pub fn trim_char_str(s: &str, c: char) -> (r: String)
    ensures
        r@ == trim_char(s@, c),
{
    let cs = chars_of(s);
    let mut a: usize = 0;
    let mut b: usize = cs.len();
    assert(cs@.subrange(0, cs@.len() as int) =~= cs@);
    while a < b && (cs[a] == c || cs[b - 1] == c)
        invariant
            a <= b <= cs@.len(),
            trim_char(cs@, c) == trim_char(cs@.subrange(a as int, b as int), c),
        decreases b - a,
    {
        if cs[a] == c {
            assert(cs@.subrange(a as int, b as int).drop_first() =~= cs@.subrange(
                a + 1,
                b as int,
            ));
            a = a + 1;
        } else {
            assert(cs@.subrange(a as int, b as int).drop_last() =~= cs@.subrange(
                a as int,
                b - 1,
            ));
            b = b - 1;
        }
    }
    string_of(&cs, a, b)
}

// ─── Lines ───────────────────────────────────────────────────────────────────

/// One line's text: a single trailing carriage return is dropped.
pub open spec fn drop_cr(line: Seq<char>) -> Seq<char> {
    if line.len() > 0 && line.last() == '\r' {
        line.drop_last()
    } else {
        line
    }
}

/// The lines of `s`, as `str::lines` yields them: pieces ended by `\n` (with one
/// `\r` before it removed), and a last piece that has no `\n` after it, kept as
/// it is, when it is not empty.
pub open spec fn lines_of(s: Seq<char>) -> Seq<Seq<char>>
    decreases s.len(),
{
    let k = index_of(s, '\n');
    if s.len() == 0 {
        seq![]
    } else if k >= s.len() || k < 0 {
        seq![s]
    } else {
        seq![drop_cr(s.take(k))] + lines_of(s.skip(k + 1))
    }
}

/// The text of one line ended by a newline, with a trailing carriage return dropped.
fn line_text(cs: &Vec<char>, from: usize, to: usize) -> (r: String)
    requires
        from <= to <= cs@.len(),
    ensures
        r@ == drop_cr(cs@.subrange(from as int, to as int)),
{
    if to > from && cs[to - 1] == '\r' {
        let r = string_of(cs, from, to - 1);
        assert(cs@.subrange(from as int, to as int).drop_last() =~= cs@.subrange(
            from as int,
            to - 1,
        ));
        r
    } else {
        string_of(cs, from, to)
    }
}

/// The lines of `cs`.
pub fn split_lines(cs: &Vec<char>) -> (r: Vec<String>)
    ensures
        views(r@) == lines_of(cs@),
{
    let mut r: Vec<String> = Vec::new();
    let mut start: usize = 0;
    let mut i: usize = 0;
    assert(cs@.skip(0) =~= cs@);
    assert(views(r@) =~= Seq::<Seq<char>>::empty());
    while i < cs.len()
        invariant
            start <= i <= cs@.len(),
            forall|j: int| start <= j < i ==> cs@[j] != '\n',
            lines_of(cs@) == views(r@) + lines_of(cs@.skip(start as int)),
        decreases cs@.len() - i,
    {
        if cs[i] == '\n' {
            let ghost rest = cs@.skip(start as int);
            proof {
                lemma_index_of_at(rest, '\n', i - start);
                assert(rest.take(i - start) =~= cs@.subrange(start as int, i as int));
                assert(rest.skip(i - start + 1) =~= cs@.skip(i + 1));
            }
            let line = line_text(cs, start, i);
            let ghost prev = r@;
            r.push(line);
            assert(views(r@) =~= views(prev) + seq![line@]);
            start = i + 1;
        }
        i = i + 1;
    }
    let ghost rest = cs@.skip(start as int);
    proof {
        lemma_index_of_at(rest, '\n', rest.len() as int);
    }
    if start < cs.len() {
        let line = string_of(cs, start, cs.len());
        assert(line@ =~= rest);
        let ghost prev = r@;
        r.push(line);
        assert(views(r@) =~= views(prev) + seq![line@]);
    } else {
        assert(views(r@) + lines_of(rest) =~= views(r@));
    }
    r
}

// ─── Decimal numbers ─────────────────────────────────────────────────────────

/// The decimal digit character for `d < 10`.
pub open spec fn digit_char(d: nat) -> char {
    if d == 0 {
        '0'
    } else if d == 1 {
        '1'
    } else if d == 2 {
        '2'
    } else if d == 3 {
        '3'
    } else if d == 4 {
        '4'
    } else if d == 5 {
        '5'
    } else if d == 6 {
        '6'
    } else if d == 7 {
        '7'
    } else if d == 8 {
        '8'
    } else {
        '9'
    }
}

/// The decimal rendering of `n`, with no leading zeros, as `Display` writes integers.
pub open spec fn decimal(n: nat) -> Seq<char>
    decreases n,
{
    if n < 10 {
        seq![digit_char(n)]
    } else {
        decimal(n / 10).push(digit_char(n % 10))
    }
}

pub fn digit(d: u64) -> (r: char)
    requires
        d < 10,
    ensures
        r == digit_char(d as nat),
{
    if d == 0 {
        '0'
    } else if d == 1 {
        '1'
    } else if d == 2 {
        '2'
    } else if d == 3 {
        '3'
    } else if d == 4 {
        '4'
    } else if d == 5 {
        '5'
    } else if d == 6 {
        '6'
    } else if d == 7 {
        '7'
    } else if d == 8 {
        '8'
    } else {
        '9'
    }
}

/// Appends the decimal rendering of `n`.
pub fn push_decimal(s: &mut String, n: u64)
    ensures
        final(s)@ == old(s)@ + decimal(n as nat),
    decreases n,
{
    if n >= 10 {
        push_decimal(s, n / 10);
    }
    s.push(digit(n % 10));
    proof {
        if n >= 10 {
            assert(final(s)@ =~= old(s)@ + decimal(n as nat));
        } else {
            assert(final(s)@ =~= old(s)@ + decimal(n as nat));
        }
    }
}

/// The decimal rendering of `n`.
pub fn decimal_string(n: u64) -> (r: String)
    ensures
        r@ == decimal(n as nat),
{
    let mut s = String::new();
    push_decimal(&mut s, n);
    assert(s@ =~= decimal(n as nat));
    s
}

// ─── Joining and replacing ───────────────────────────────────────────────────

/// The pieces joined with `sep` between neighbours, as `[T]::join` gives it.
pub open spec fn join(parts: Seq<Seq<char>>, sep: Seq<char>) -> Seq<char>
    decreases parts.len(),
{
    if parts.len() == 0 {
        seq![]
    } else if parts.len() == 1 {
        parts[0]
    } else {
        join(parts.drop_last(), sep) + sep + parts.last()
    }
}

/// The strings of `v` joined with `sep`.
pub fn join_strings(v: &Vec<String>, sep: &str) -> (r: String)
    ensures
        r@ == join(views(v@), sep@),
{
    let mut r = String::new();
    let mut i: usize = 0;
    while i < v.len()
        invariant
            i <= v@.len(),
            r@ == join(views(v@).take(i as int), sep@),
        decreases v@.len() - i,
    {
        let ghost before = views(v@).take(i as int);
        if i > 0 {
            r.append(sep);
        }
        r.append(v[i].as_str());
        i = i + 1;
        proof {
            let now = views(v@).take(i as int);
            assert(now.drop_last() =~= before);
            if i == 1 {
                assert(r@ =~= join(now, sep@));
            } else {
                assert(r@ =~= join(now, sep@));
            }
        }
    }
    assert(views(v@).take(v@.len() as int) =~= views(v@));
    r
}

/// `s` with every non-overlapping occurrence of the non-empty pattern `p`,
/// scanning from the left, replaced by `q`, as `str::replace` gives it.
pub open spec fn replace_all(s: Seq<char>, p: Seq<char>, q: Seq<char>) -> Seq<char>
    decreases s.len(),
{
    if s.len() == 0 || p.len() == 0 {
        s
    } else if p.is_prefix_of(s) {
        q + replace_all(s.skip(p.len() as int), p, q)
    } else {
        seq![s[0]] + replace_all(s.drop_first(), p, q)
    }
}

/// `s` with every occurrence of `p` replaced by `q`.
pub fn replace_str(s: &str, p: &str, q: &str) -> (r: String)
    ensures
        r@ == replace_all(s@, p@, q@),
{
    let cs = chars_of(s);
    let ps = chars_of(p);
    let mut r = String::new();
    if ps.len() == 0 {
        return String::from_str(s);
    }
    let mut i: usize = 0;
    assert(cs@.skip(0) =~= cs@);
    while i < cs.len()
        invariant
            i <= cs@.len(),
            ps@.len() > 0,
            replace_all(cs@, ps@, q@) == r@ + replace_all(cs@.skip(i as int), ps@, q@),
        decreases cs@.len() - i,
    {
        let ghost rest = cs@.skip(i as int);
        if matches_at(&cs, &ps, i) {
            assert(ps@.is_prefix_of(rest)) by {
                assert(rest.subrange(0, ps@.len() as int) =~= cs@.subrange(
                    i as int,
                    i + ps@.len(),
                ));
            }
            assert(rest.skip(ps@.len() as int) =~= cs@.skip(i + ps@.len()));
            r.append(q);
            i = i + ps.len();
        } else {
            assert(!ps@.is_prefix_of(rest)) by {
                if ps@.is_prefix_of(rest) {
                    assert(rest.subrange(0, ps@.len() as int) =~= cs@.subrange(
                        i as int,
                        i + ps@.len(),
                    ));
                }
            }
            assert(rest.drop_first() =~= cs@.skip(i + 1));
            r.push(cs[i]);
            i = i + 1;
        }
        assert(r@ + replace_all(cs@.skip(i as int), ps@, q@) =~= replace_all(cs@, ps@, q@));
    }
    assert(r@ + replace_all(cs@.skip(i as int), ps@, q@) =~= r@);
    r
}

// ─── Occurrences ─────────────────────────────────────────────────────────────

/// An occurrence stays an occurrence when text is added on either side.
pub proof fn lemma_occurs_extend(s: Seq<char>, t: Seq<char>, p: Seq<char>, i: int)
    requires
        occurs_at(s, p, i),
    ensures
        occurs_at(s + t, p, i),
        occurs_at(t + s, p, t.len() + i),
{
    assert((s + t).subrange(i, i + p.len()) =~= s.subrange(i, i + p.len()));
    assert((t + s).subrange(t.len() + i, t.len() + i + p.len()) =~= s.subrange(i, i + p.len()));
}

/// An occurrence inside an occurrence is an occurrence.
pub proof fn lemma_occurs_trans(s: Seq<char>, p: Seq<char>, q: Seq<char>, i: int, j: int)
    requires
        occurs_at(s, p, i),
        occurs_at(p, q, j),
    ensures
        occurs_at(s, q, i + j),
{
    assert(s.subrange(i + j, i + j + q.len()) =~= p.subrange(j, j + q.len()));
}

/// Every piece occurs in the joined text.
pub proof fn lemma_join_contains(parts: Seq<Seq<char>>, sep: Seq<char>, k: int)
    requires
        0 <= k < parts.len(),
    ensures
        seq_contains(join(parts, sep), parts[k]),
    decreases parts.len(),
{
    if parts.len() == 1 {
        assert(occurs_at(join(parts, sep), parts[k], 0)) by {
            assert(join(parts, sep).subrange(0, parts[k].len() as int) =~= parts[k]);
        }
    } else if k == parts.len() - 1 {
        let pre = join(parts.drop_last(), sep) + sep;
        assert(parts[k].subrange(0, parts[k].len() as int) =~= parts[k]);
        assert(occurs_at(parts[k], parts[k], 0));
        lemma_occurs_extend(parts[k], pre, parts[k], 0);
        assert(pre + parts[k] == join(parts, sep));
        assert(occurs_at(join(parts, sep), parts[k], pre.len() as int));
    } else {
        lemma_join_contains(parts.drop_last(), sep, k);
        assert(parts.drop_last()[k] == parts[k]);
        let i = choose|i: int| occurs_at(join(parts.drop_last(), sep), parts[k], i);
        lemma_occurs_extend(join(parts.drop_last(), sep), sep + parts.last(), parts[k], i);
        assert(join(parts.drop_last(), sep) + (sep + parts.last()) == join(parts, sep));
        assert(occurs_at(join(parts, sep), parts[k], i));
    }
}

/// A text contained in `s` is contained in `pre + s + post`.
pub proof fn lemma_contains_within(pre: Seq<char>, s: Seq<char>, post: Seq<char>, p: Seq<char>)
    requires
        seq_contains(s, p),
    ensures
        seq_contains(pre + s + post, p),
{
    let i = choose|i: int| occurs_at(s, p, i);
    lemma_occurs_extend(s, pre, p, i);
    lemma_occurs_extend(pre + s, post, p, pre.len() + i);
    assert(occurs_at(pre + s + post, p, pre.len() + i));
}

/// Containment is transitive.
pub proof fn lemma_contains_trans(s: Seq<char>, p: Seq<char>, q: Seq<char>)
    requires
        seq_contains(s, p),
        seq_contains(p, q),
    ensures
        seq_contains(s, q),
{
    let i = choose|i: int| occurs_at(s, p, i);
    let j = choose|j: int| occurs_at(p, q, j);
    lemma_occurs_trans(s, p, q, i, j);
}

/// `pre + s + post` contains `s`.
pub proof fn lemma_contains_middle(pre: Seq<char>, s: Seq<char>, post: Seq<char>)
    ensures
        seq_contains(pre + s + post, s),
{
    assert(occurs_at(pre + s + post, s, pre.len() as int)) by {
        assert((pre + s + post).subrange(pre.len() as int, (pre.len() + s.len()) as int) =~= s);
    }
}

} // verus!
