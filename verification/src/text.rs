//! Text as sequences of characters: the handful of ways in which the package
//! keeper's files and messages are cut up and put together.

use vstd::prelude::*;
use vstd::slice::slice_subrange;

verus! {

// ---------------------------------------------------------------- what the cuts mean

/// The characters that count as white space: the Unicode property `White_Space`.
pub open spec fn is_space(c: char) -> bool {
    let u = c as u32;
    ||| 0x09 <= u <= 0x0d
    ||| u == 0x20
    ||| u == 0x85
    ||| u == 0xa0
    ||| u == 0x1680
    ||| 0x2000 <= u <= 0x200a
    ||| u == 0x2028
    ||| u == 0x2029
    ||| u == 0x202f
    ||| u == 0x205f
    ||| u == 0x3000
}

/// `s` without the white space at its front.
pub open spec fn trimmed_start(s: Seq<char>) -> Seq<char>
    decreases s.len(),
{
    if s.len() == 0 || !is_space(s[0]) {
        s
    } else {
        trimmed_start(s.drop_first())
    }
}

/// `s` without the white space at its end.
pub open spec fn trimmed_end(s: Seq<char>) -> Seq<char>
    decreases s.len(),
{
    if s.len() == 0 || !is_space(s.last()) {
        s
    } else {
        trimmed_end(s.drop_last())
    }
}

/// `s` without the white space at either end.
pub open spec fn trimmed(s: Seq<char>) -> Seq<char> {
    trimmed_end(trimmed_start(s))
}

/// `s` without any `c` at its front.
pub open spec fn without_leading(s: Seq<char>, c: char) -> Seq<char>
    decreases s.len(),
{
    if s.len() == 0 || s[0] != c {
        s
    } else {
        without_leading(s.drop_first(), c)
    }
}

/// `s` without any `c` at its end.
pub open spec fn without_trailing(s: Seq<char>, c: char) -> Seq<char>
    decreases s.len(),
{
    if s.len() == 0 || s.last() != c {
        s
    } else {
        without_trailing(s.drop_last(), c)
    }
}

/// How many characters stand before the first `c`; all of them, if there is none.
pub open spec fn until(s: Seq<char>, c: char) -> nat
    decreases s.len(),
{
    if s.len() == 0 || s[0] == c {
        0
    } else {
        1 + until(s.drop_first(), c)
    }
}

/// What stands before the first `c`: all of `s`, if there is none.
pub open spec fn before(s: Seq<char>, c: char) -> Seq<char> {
    s.take(until(s, c) as int)
}

/// What stands after the first `c`, where there is one.
pub open spec fn after(s: Seq<char>, c: char) -> Seq<char> {
    s.skip(until(s, c) + 1int)
}

/// What stands before and after the first `c`, if there is one.
pub open spec fn cut(s: Seq<char>, c: char) -> Option<(Seq<char>, Seq<char>)> {
    if until(s, c) < s.len() {
        Some((before(s, c), after(s, c)))
    } else {
        None
    }
}

/// The pieces between the occurrences of `c`: one more than there are occurrences.
pub open spec fn pieces(s: Seq<char>, c: char) -> Seq<Seq<char>>
    decreases s.len(),
{
    if until(s, c) >= s.len() {
        seq![s]
    } else {
        seq![before(s, c)] + pieces(after(s, c), c)
    }
}

/// A line without the carriage return before its line feed.
pub open spec fn without_return(s: Seq<char>) -> Seq<char> {
    if s.len() > 0 && s.last() == '\r' {
        s.drop_last()
    } else {
        s
    }
}

/// The lines of a text. A line ends in a line feed, or a carriage return and a line
/// feed; the last line's ending may be missing.
pub open spec fn lines(s: Seq<char>) -> Seq<Seq<char>>
    decreases s.len(),
{
    if s.len() == 0 {
        seq![]
    } else if until(s, '\n') >= s.len() {
        seq![s]
    } else {
        seq![without_return(before(s, '\n'))] + lines(after(s, '\n'))
    }
}

/// Whether `s` begins with `p`.
pub open spec fn begins(s: Seq<char>, p: Seq<char>) -> bool {
    p.len() <= s.len() && s.take(p.len() as int) == p
}

/// Whether `s` ends with `p`.
pub open spec fn ends(s: Seq<char>, p: Seq<char>) -> bool {
    p.len() <= s.len() && s.skip(s.len() - p.len()) == p
}

/// What an optional text holds.
pub open spec fn optional(s: Option<&str>) -> Option<Seq<char>> {
    match s {
        Some(s) => Some(s@),
        None => None,
    }
}

/// What an optional text holds.
pub open spec fn text_of(o: Option<String>) -> Option<Seq<char>> {
    match o {
        Some(s) => Some(s@),
        None => None,
    }
}

/// What a list of strings holds.
pub open spec fn texts(v: Seq<String>) -> Seq<Seq<char>> {
    v.map_values(|s: String| s@)
}

/// What a list of slices holds.
pub open spec fn slices(v: Seq<&[char]>) -> Seq<Seq<char>> {
    v.map_values(|s: &[char]| s@)
}

// ---------------------------------------------------------------- strings and slices

/// `String::push` appends one character.
pub assume_specification[ String::push ](s: &mut String, c: char)
    ensures
        final(s)@ == old(s)@.push(c),
;

/// The characters of a string.
pub fn chars_of(s: &str) -> (r: Vec<char>)
    ensures
        r@ == s@,
{
    let mut r: Vec<char> = Vec::new();
    for c in it: s.chars()
        invariant
            it.seq() == s@,
            r@ == s@.take(it.index() as int),
    {
        r.push(c);
    }
    r
}

/// The string with the given characters.
pub fn string_of(s: &[char]) -> (r: String)
    ensures
        r@ == s@,
{
    let mut r = String::new();
    let mut i: usize = 0;
    while i < s.len()
        invariant
            i <= s@.len(),
            r@ == s@.take(i as int),
        decreases s@.len() - i,
    {
        r.push(s[i]);
        i += 1;
        assert(s@.take(i as int) == s@.take(i - 1).push(s@[i - 1]));
    }
    assert(s@.take(i as int) == s@);
    r
}

/// Whether two strings are the same text.
pub fn same(a: &[char], b: &[char]) -> (r: bool)
    ensures
        r == (a@ == b@),
{
    if a.len() != b.len() {
        return false;
    }
    let mut i: usize = 0;
    while i < a.len()
        invariant
            i <= a@.len(),
            a@.len() == b@.len(),
            forall|j: int| 0 <= j < i ==> a@[j] == b@[j],
        decreases a@.len() - i,
    {
        if a[i] != b[i] {
            assert(a@[i as int] != b@[i as int]);
            return false;
        }
        i += 1;
    }
    assert(a@ =~= b@);
    true
}

/// Whether a slice holds the given text.
pub fn is_text(s: &[char], t: &str) -> (r: bool)
    ensures
        r == (s@ == t@),
{
    let t = chars_of(t);
    same(s, t.as_slice())
}

/// Whether two strings are the same text.
pub fn equal(a: &str, b: &str) -> (r: bool)
    ensures
        r == (a@ == b@),
{
    let a = chars_of(a);
    is_text(a.as_slice(), b)
}

// ---------------------------------------------------------------- the cuts, executed

pub fn space(c: char) -> (r: bool)
    ensures
        r == is_space(c),
{
    let u: u32 = c as u32;
    (0x09 <= u && u <= 0x0d) || u == 0x20 || u == 0x85 || u == 0xa0 || u == 0x1680 || (0x2000 <= u
        && u <= 0x200a) || u == 0x2028 || u == 0x2029 || u == 0x202f || u == 0x205f || u == 0x3000
}

pub fn trim_start(s: &[char]) -> (r: &[char])
    ensures
        r@ == trimmed_start(s@),
{
    let mut i: usize = 0;
    assert(s@.skip(0) == s@);
    while i < s.len() && space(s[i])
        invariant
            i <= s@.len(),
            trimmed_start(s@) == trimmed_start(s@.skip(i as int)),
        decreases s@.len() - i,
    {
        assert(s@.skip(i as int).drop_first() == s@.skip(i + 1));
        i += 1;
    }
    assert(s@.skip(i as int) == s@.subrange(i as int, s@.len() as int));
    slice_subrange(s, i, s.len())
}

pub fn trim_end(s: &[char]) -> (r: &[char])
    ensures
        r@ == trimmed_end(s@),
{
    let mut n: usize = s.len();
    assert(s@.take(n as int) == s@);
    while n > 0 && space(s[n - 1])
        invariant
            n <= s@.len(),
            trimmed_end(s@) == trimmed_end(s@.take(n as int)),
        decreases n,
    {
        assert(s@.take(n as int).drop_last() == s@.take(n - 1));
        n -= 1;
    }
    assert(s@.take(n as int) == s@.subrange(0, n as int));
    slice_subrange(s, 0, n)
}

pub fn trim(s: &[char]) -> (r: &[char])
    ensures
        r@ == trimmed(s@),
{
    trim_end(trim_start(s))
}

pub fn strip_leading(s: &[char], c: char) -> (r: &[char])
    ensures
        r@ == without_leading(s@, c),
{
    let mut i: usize = 0;
    assert(s@.skip(0) == s@);
    while i < s.len() && s[i] == c
        invariant
            i <= s@.len(),
            without_leading(s@, c) == without_leading(s@.skip(i as int), c),
        decreases s@.len() - i,
    {
        assert(s@.skip(i as int).drop_first() == s@.skip(i + 1));
        i += 1;
    }
    assert(s@.skip(i as int) == s@.subrange(i as int, s@.len() as int));
    slice_subrange(s, i, s.len())
}

pub fn strip_trailing(s: &[char], c: char) -> (r: &[char])
    ensures
        r@ == without_trailing(s@, c),
{
    let mut n: usize = s.len();
    assert(s@.take(n as int) == s@);
    while n > 0 && s[n - 1] == c
        invariant
            n <= s@.len(),
            without_trailing(s@, c) == without_trailing(s@.take(n as int), c),
        decreases n,
    {
        assert(s@.take(n as int).drop_last() == s@.take(n - 1));
        n -= 1;
    }
    assert(s@.take(n as int) == s@.subrange(0, n as int));
    slice_subrange(s, 0, n)
}

/// The index of the first `c`, or the length where there is none.
pub fn find(s: &[char], c: char) -> (r: usize)
    ensures
        r == until(s@, c),
        r <= s@.len(),
{
    let mut i: usize = 0;
    assert(s@.skip(0) == s@);
    while i < s.len() && s[i] != c
        invariant
            i <= s@.len(),
            until(s@, c) == i + until(s@.skip(i as int), c),
        decreases s@.len() - i,
    {
        assert(s@.skip(i as int).drop_first() == s@.skip(i + 1));
        i += 1;
    }
    i
}

pub fn take_before(s: &[char], c: char) -> (r: &[char])
    ensures
        r@ == before(s@, c),
{
    let n = find(s, c);
    assert(s@.take(n as int) == s@.subrange(0, n as int));
    slice_subrange(s, 0, n)
}

pub fn cut_once(s: &[char], c: char) -> (r: Option<(&[char], &[char])>)
    ensures
        match r {
            Some((a, b)) => cut(s@, c) == Some((a@, b@)),
            None => cut(s@, c) is None,
        },
{
    let n = find(s, c);
    if n < s.len() {
        assert(s@.take(n as int) == s@.subrange(0, n as int));
        assert(s@.skip(n + 1) == s@.subrange(n + 1, s@.len() as int));
        Some((slice_subrange(s, 0, n), slice_subrange(s, n + 1, s.len())))
    } else {
        None
    }
}

pub fn split(s: &[char], c: char) -> (r: Vec<&[char]>)
    ensures
        slices(r@) == pieces(s@, c),
{
    let mut r: Vec<&[char]> = Vec::new();
    let mut rest = s;
    loop
        invariant
            slices(r@) + pieces(rest@, c) == pieces(s@, c),
        decreases rest@.len(),
    {
        let n = find(rest, c);
        let ghost done = r@;
        if n >= rest.len() {
            r.push(rest);
            assert(slices(r@) == slices(done) + seq![rest@]);
            return r;
        }
        let piece = slice_subrange(rest, 0, n);
        let next = slice_subrange(rest, n + 1, rest.len());
        proof {
            assert(rest@.take(n as int) == rest@.subrange(0, n as int));
            assert(rest@.skip(n + 1) == rest@.subrange(n + 1, rest@.len() as int));
            assert(slices(done.push(piece)) == slices(done) + seq![piece@]);
            assert(slices(done) + (seq![piece@] + pieces(next@, c)) == (slices(done) + seq![piece@])
                + pieces(next@, c));
        }
        r.push(piece);
        rest = next;
    }
}

pub fn split_lines(s: &[char]) -> (r: Vec<&[char]>)
    ensures
        slices(r@) == lines(s@),
{
    let mut r: Vec<&[char]> = Vec::new();
    let mut rest = s;
    while rest.len() > 0
        invariant
            slices(r@) + lines(rest@) == lines(s@),
        decreases rest@.len(),
    {
        let n = find(rest, '\n');
        let ghost done = r@;
        if n >= rest.len() {
            r.push(rest);
            assert(slices(r@) == slices(done) + seq![rest@]);
            return r;
        }
        let mut end: usize = n;
        if n > 0 && rest[n - 1] == '\r' {
            end = n - 1;
        }
        let line = slice_subrange(rest, 0, end);
        let next = slice_subrange(rest, n + 1, rest.len());
        proof {
            assert(rest@.take(n as int) == rest@.subrange(0, n as int));
            assert(line@ =~= without_return(before(rest@, '\n')));
            assert(rest@.skip(n + 1) == rest@.subrange(n + 1, rest@.len() as int));
            assert(slices(done.push(line)) == slices(done) + seq![line@]);
            assert(slices(done) + (seq![line@] + lines(next@)) == (slices(done) + seq![line@])
                + lines(next@));
        }
        r.push(line);
        rest = next;
    }
    assert(slices(r@) + lines(rest@) == slices(r@));
    r
}

pub fn starts_with(s: &[char], p: &str) -> (r: bool)
    ensures
        r == begins(s@, p@),
{
    let p = chars_of(p);
    if p.len() > s.len() {
        return false;
    }
    assert(s@.take(p@.len() as int) == s@.subrange(0, p@.len() as int));
    same(slice_subrange(s, 0, p.len()), p.as_slice())
}

pub fn ends_with(s: &[char], p: &str) -> (r: bool)
    ensures
        r == ends(s@, p@),
{
    let p = chars_of(p);
    if p.len() > s.len() {
        return false;
    }
    let n: usize = s.len() - p.len();
    assert(s@.skip(n as int) == s@.subrange(n as int, s@.len() as int));
    same(slice_subrange(s, n, s.len()), p.as_slice())
}

/// Whether `c` occurs in `s`.
pub fn has_char(s: &[char], c: char) -> (r: bool)
    ensures
        r == s@.contains(c),
{
    let mut i: usize = 0;
    while i < s.len()
        invariant
            i <= s@.len(),
            forall|j: int| 0 <= j < i ==> s@[j] != c,
        decreases s@.len() - i,
    {
        if s[i] == c {
            assert(s@[i as int] == c);
            return true;
        }
        i += 1;
    }
    false
}

/// Whether a list of strings holds the given text.
pub fn has_text(v: &Vec<String>, s: &str) -> (r: bool)
    ensures
        r == texts(v@).contains(s@),
{
    let mut i: usize = 0;
    while i < v.len()
        invariant
            i <= v@.len(),
            forall|j: int| 0 <= j < i ==> v@[j]@ != s@,
        decreases v@.len() - i,
    {
        if equal(v[i].as_str(), s) {
            assert(texts(v@)[i as int] == s@);
            return true;
        }
        i += 1;
    }
    assert forall|j: int| 0 <= j < texts(v@).len() implies texts(v@)[j] != s@ by {
        assert(texts(v@)[j] == v@[j]@);
    }
    false
}

} // verus!
