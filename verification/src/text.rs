//! Character-level helpers shared by the parsers and formatters: copying
//! between `str`, `Vec<char>` and `String`, searching, line splitting and
//! whitespace trimming, each with a specification over `Seq<char>`.
use vstd::prelude::*;

verus! {

/// `String::push` appends one character to the end of the string (std
/// documents exactly that); nothing else about the string changes.
pub assume_specification[ String::push ](string: &mut String, ch: char)
    ensures
        final(string)@ == old(string)@.push(ch),
;

/// The characters of `s`, in order.
pub fn chars_of(s: &str) -> (v: Vec<char>)
    ensures
        v@ == s@,
{
    let mut v: Vec<char> = Vec::new();
    for c in it: s.chars()
        invariant
            v@ == it.seq().take(it.index() as int),
            it.seq() == s@,
    {
        v.push(c);
    }
    v
}

/// The bytes of `b`, each read as the character with the same code point.
pub open spec fn byte_chars(b: Seq<u8>) -> Seq<char> {
    Seq::new(b.len(), |i: int| (b[i] as u32) as char)
}

/// Each byte of `b` as a character (`b as char`).
pub fn chars_of_bytes(b: &[u8]) -> (v: Vec<char>)
    ensures
        v@ == byte_chars(b@),
{
    let mut v: Vec<char> = Vec::new();
    let mut i: usize = 0;
    while i < b.len()
        invariant
            i <= b.len(),
            v@ =~= byte_chars(b@).take(i as int),
        decreases b.len() - i,
    {
        v.push(b[i] as char);
        i += 1;
    }
    v
}

/// Appends `v[from..to]` to `out`.
pub fn push_range(out: &mut String, v: &Vec<char>, from: usize, to: usize)
    requires
        from <= to <= v.len(),
    ensures
        final(out)@ == old(out)@ + v@.subrange(from as int, to as int),
{
    let mut i = from;
    while i < to
        invariant
            from <= i <= to <= v.len(),
            out@ == old(out)@ + v@.subrange(from as int, i as int),
        decreases to - i,
    {
        out.push(v[i]);
        i += 1;
        assert(out@ =~= old(out)@ + v@.subrange(from as int, i as int));
    }
}

/// A copy of `v[from..to]`.
pub fn sub_vec(v: &Vec<char>, from: usize, to: usize) -> (r: Vec<char>)
    requires
        from <= to <= v.len(),
    ensures
        r@ == v@.subrange(from as int, to as int),
{
    let mut r: Vec<char> = Vec::new();
    let mut i = from;
    while i < to
        invariant
            from <= i <= to <= v.len(),
            r@ =~= v@.subrange(from as int, i as int),
        decreases to - i,
    {
        r.push(v[i]);
        i += 1;
    }
    r
}

/// A new `String` holding `v[from..to]`.
pub fn string_of_range(v: &Vec<char>, from: usize, to: usize) -> (s: String)
    requires
        from <= to <= v.len(),
    ensures
        s@ == v@.subrange(from as int, to as int),
{
    let mut s = String::new();
    push_range(&mut s, v, from, to);
    assert(s@ =~= v@.subrange(from as int, to as int));
    s
}

/// Index of the first `c` in `s` at or after `start`, or `s.len()` when
/// there is none.
pub open spec fn find_from(s: Seq<char>, c: char, start: int) -> int
    decreases s.len() - start,
{
    if start >= s.len() {
        s.len() as int
    } else if s[start] == c {
        start
    } else {
        find_from(s, c, start + 1)
    }
}

pub proof fn lemma_find_from_bounds(s: Seq<char>, c: char, start: int)
    requires
        0 <= start <= s.len(),
    ensures
        start <= find_from(s, c, start) <= s.len(),
        find_from(s, c, start) < s.len() ==> s[find_from(s, c, start)] == c,
        forall|k: int| start <= k < find_from(s, c, start) ==> s[k] != c,
    decreases s.len() - start,
{
    if start < s.len() && s[start] != c {
        lemma_find_from_bounds(s, c, start + 1);
    }
}

/// Where the scan for `c` stops when none of `s[start..end]` is `c`.
pub proof fn lemma_find_from_skips(s: Seq<char>, c: char, start: int, end: int)
    requires
        0 <= start <= end <= s.len(),
        forall|k: int| start <= k < end ==> s[k] != c,
    ensures
        find_from(s, c, start) == find_from(s, c, end),
    decreases end - start,
{
    if start < end {
        lemma_find_from_skips(s, c, start + 1, end);
    }
}

/// Index of the first `c` in `v` at or after `start` (or `v.len()`).
pub fn find_char(v: &Vec<char>, c: char, start: usize) -> (r: usize)
    requires
        start <= v.len(),
    ensures
        r == find_from(v@, c, start as int),
{
    let mut j = start;
    while j < v.len() && v[j] != c
        invariant
            start <= j <= v.len(),
            find_from(v@, c, j as int) == find_from(v@, c, start as int),
        decreases v.len() - j,
    {
        j += 1;
    }
    j
}

/// Index of the last `c` in `v`, if any.
pub fn rfind_char(v: &Vec<char>, c: char) -> (r: Option<usize>)
    ensures
        match r {
            Some(k) => k < v.len() && v@[k as int] == c && forall|j: int|
                k < j < v.len() ==> v@[j] != c,
            None => forall|j: int| 0 <= j < v.len() ==> v@[j] != c,
        },
{
    let mut j = v.len();
    while j > 0
        invariant
            j <= v.len(),
            forall|k: int| j <= k < v.len() ==> v@[k] != c,
        decreases j,
    {
        if v[j - 1] == c {
            return Some(j - 1);
        }
        j -= 1;
    }
    None
}

/// The line that starts at `start`: up to the next `'\n'` (or the end),
/// without the `'\r'` of a `"\r\n"` ending.
pub open spec fn line_at(s: Seq<char>, start: int) -> Seq<char> {
    let e = find_from(s, '\n', start);
    let raw = s.subrange(start, e);
    if e < s.len() && raw.len() > 0 && raw.last() == '\r' {
        raw.drop_last()
    } else {
        raw
    }
}

/// The lines of `s[start..]`, as `str::lines` yields them: split at `'\n'`
/// or `"\r\n"`, with no empty line for a final line ending.
pub open spec fn lines_from(s: Seq<char>, start: int) -> Seq<Seq<char>>
    decreases s.len() - start,
{
    if start < 0 || start >= s.len() {
        Seq::empty()
    } else {
        let e = find_from(s, '\n', start);
        if e < start || e >= s.len() {
            seq![line_at(s, start)]
        } else {
            seq![line_at(s, start)] + lines_from(s, e + 1)
        }
    }
}

/// The lines of `s`, as `str::lines` yields them.
pub open spec fn lines(s: Seq<char>) -> Seq<Seq<char>> {
    lines_from(s, 0)
}

/// End (exclusive) of the line starting at `start` in `v`, without its line
/// ending, and the index of the `'\n'` that ends it (or `v.len()`).
pub fn line_bounds(v: &Vec<char>, start: usize) -> (r: (usize, usize))
    requires
        start < v.len(),
    ensures
        r.1 == find_from(v@, '\n', start as int),
        start <= r.0 <= r.1 <= v.len(),
        v@.subrange(start as int, r.0 as int) == line_at(v@, start as int),
{
    let e = find_char(v, '\n', start);
    proof {
        lemma_find_from_bounds(v@, '\n', start as int);
    }
    if e < v.len() && e > start && v[e - 1] == '\r' {
        assert(v@.subrange(start as int, e as int).drop_last() =~= v@.subrange(
            start as int,
            e - 1,
        ));
        (e - 1, e)
    } else {
        (e, e)
    }
}

pub open spec fn has_no(s: Seq<char>, c: char) -> bool {
    forall|k: int| 0 <= k < s.len() ==> s[k] != c
}

proof fn lemma_find_from_shift(p: Seq<char>, q: Seq<char>, c: char, j: int)
    requires
        0 <= j <= q.len(),
    ensures
        find_from(p + q, c, p.len() + j) == p.len() + find_from(q, c, j),
    decreases q.len() - j,
{
    if j < q.len() {
        assert((p + q)[p.len() + j] == q[j]);
        lemma_find_from_shift(p, q, c, j + 1);
    }
}

/// The lines after a prefix do not depend on the prefix.
pub proof fn lemma_lines_from_shift(p: Seq<char>, q: Seq<char>, j: int)
    requires
        0 <= j,
    ensures
        lines_from(p + q, p.len() + j) == lines_from(q, j),
    decreases q.len() - j,
{
    let s = p + q;
    if j < q.len() {
        lemma_find_from_shift(p, q, '\n', j);
        lemma_find_from_bounds(q, '\n', j);
        let e = find_from(q, '\n', j);
        assert(s.subrange(p.len() + j, p.len() + e) =~= q.subrange(j, e));
        assert(line_at(s, p.len() + j) == line_at(q, j));
        if e < q.len() {
            lemma_lines_from_shift(p, q, e + 1);
        }
    }
}

/// A line `a` ended by `'\n'` is the first line, and the rest are those of `b`.
pub proof fn lemma_lines_cons(a: Seq<char>, b: Seq<char>)
    requires
        has_no(a, '\n'),
        a.len() == 0 || a.last() != '\r',
    ensures
        lines(a + seq!['\n'] + b) == seq![a] + lines(b),
{
    let s = a + seq!['\n'] + b;
    let p = a + seq!['\n'];
    assert(s =~= p + b);
    lemma_find_from_skips(s, '\n', 0, a.len() as int);
    assert(s[a.len() as int] == '\n');
    assert(find_from(s, '\n', a.len() as int) == a.len());
    assert(s.subrange(0, a.len() as int) =~= a);
    assert(line_at(s, 0) == a);
    lemma_lines_from_shift(p, b, 0);
    assert(lines_from(s, 0) == seq![a] + lines_from(s, a.len() + 1int));
}

/// Text without a `'\n'` is a single line.
pub proof fn lemma_lines_single(a: Seq<char>)
    requires
        has_no(a, '\n'),
        a.len() > 0,
    ensures
        lines(a) == seq![a],
{
    lemma_find_from_skips(a, '\n', 0, a.len() as int);
    assert(a.subrange(0, a.len() as int) =~= a);
    assert(lines_from(a, 0) =~= seq![a]);
}

/// Unicode `White_Space`, which is what `char::is_whitespace` tests.
pub open spec fn is_whitespace(c: char) -> bool {
    ||| ('\u{9}' <= c && c <= '\u{d}')
    ||| c == ' '
    ||| c == '\u{85}'
    ||| c == '\u{a0}'
    ||| c == '\u{1680}'
    ||| ('\u{2000}' <= c && c <= '\u{200a}')
    ||| c == '\u{2028}'
    ||| c == '\u{2029}'
    ||| c == '\u{202f}'
    ||| c == '\u{205f}'
    ||| c == '\u{3000}'
}

/// Whether `c` is Unicode whitespace.
pub fn is_whitespace_char(c: char) -> (r: bool)
    ensures
        r == is_whitespace(c),
{
    ('\u{9}' <= c && c <= '\u{d}') || c == ' ' || c == '\u{85}' || c == '\u{a0}' || c
        == '\u{1680}' || ('\u{2000}' <= c && c <= '\u{200a}') || c == '\u{2028}' || c
        == '\u{2029}' || c == '\u{202f}' || c == '\u{205f}' || c == '\u{3000}'
}

/// `s` without trailing whitespace (`str::trim_end`).
pub open spec fn trim_end(s: Seq<char>) -> Seq<char>
    decreases s.len(),
{
    if s.len() > 0 && is_whitespace(s.last()) {
        trim_end(s.drop_last())
    } else {
        s
    }
}

/// `s` without leading whitespace (`str::trim_start`).
pub open spec fn trim_start(s: Seq<char>) -> Seq<char>
    decreases s.len(),
{
    if s.len() > 0 && is_whitespace(s[0]) {
        trim_start(s.drop_first())
    } else {
        s
    }
}

/// `s` without leading and trailing whitespace (`str::trim`).
pub open spec fn trim(s: Seq<char>) -> Seq<char> {
    trim_start(trim_end(s))
}

/// End `e` such that `v[from..e]` is `v[from..to]` without trailing whitespace.
pub fn trimmed_end(v: &Vec<char>, from: usize, to: usize) -> (e: usize)
    requires
        from <= to <= v.len(),
    ensures
        from <= e <= to,
        v@.subrange(from as int, e as int) == trim_end(v@.subrange(from as int, to as int)),
{
    let mut e = to;
    while e > from && is_whitespace_char(v[e - 1])
        invariant
            from <= e <= to <= v.len(),
            trim_end(v@.subrange(from as int, e as int)) == trim_end(
                v@.subrange(from as int, to as int),
            ),
        decreases e,
    {
        assert(v@.subrange(from as int, e as int).drop_last() =~= v@.subrange(
            from as int,
            e - 1,
        ));
        e -= 1;
    }
    e
}

/// Start `b` such that `v[b..to]` is `v[from..to]` without leading whitespace.
pub fn trimmed_start(v: &Vec<char>, from: usize, to: usize) -> (b: usize)
    requires
        from <= to <= v.len(),
    ensures
        from <= b <= to,
        v@.subrange(b as int, to as int) == trim_start(v@.subrange(from as int, to as int)),
{
    let mut b = from;
    while b < to && is_whitespace_char(v[b])
        invariant
            from <= b <= to <= v.len(),
            trim_start(v@.subrange(b as int, to as int)) == trim_start(
                v@.subrange(from as int, to as int),
            ),
        decreases to - b,
    {
        assert(v@.subrange(b as int, to as int).drop_first() =~= v@.subrange(
            b + 1,
            to as int,
        ));
        b += 1;
    }
    b
}

/// Whether `v[from..to]` holds exactly the characters of `lit`.
pub fn range_equals(v: &Vec<char>, from: usize, to: usize, lit: &str) -> (r: bool)
    requires
        from <= to <= v.len(),
    ensures
        r == (v@.subrange(from as int, to as int) == lit@),
{
    let n = lit.unicode_len();
    if to - from != n {
        return false;
    }
    let mut i: usize = 0;
    while i < n
        invariant
            n == lit@.len(),
            to - from == n,
            from <= to <= v.len(),
            i <= n,
            forall|k: int| 0 <= k < i ==> v@[from + k] == lit@[k],
        decreases n - i,
    {
        if v[from + i] != lit.get_char(i) {
            assert(v@.subrange(from as int, to as int)[i as int] != lit@[i as int]);
            return false;
        }
        i += 1;
    }
    assert(v@.subrange(from as int, to as int) =~= lit@);
    true
}

} // verus!
