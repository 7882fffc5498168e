//! Facts about the ways in which text is cut up.

use crate::text::{
    after, before, is_space, lines, pieces, trimmed, trimmed_end, trimmed_start, until,
    without_trailing,
};
use vstd::prelude::*;

verus! {

/// `until` finds the first occurrence, or stops at the end.
pub proof fn lemma_until(s: Seq<char>, c: char)
    ensures
        until(s, c) <= s.len(),
        forall|i: int| 0 <= i < until(s, c) ==> s[i] != c,
        until(s, c) < s.len() ==> s[until(s, c) as int] == c,
    decreases s.len(),
{
    if s.len() > 0 && s[0] != c {
        let t = s.drop_first();
        lemma_until(t, c);
        assert forall|i: int| 0 <= i < until(s, c) implies s[i] != c by {
            if i > 0 {
                assert(t[i - 1] == s[i]);
            }
        }
    }
}

/// An index with `c` at it, and none before it, is where `until` stops.
pub proof fn lemma_until_is(s: Seq<char>, c: char, n: nat)
    requires
        n <= s.len(),
        forall|i: int| 0 <= i < n ==> s[i] != c,
        n < s.len() ==> s[n as int] == c,
    ensures
        until(s, c) == n,
{
    lemma_until(s, c);
}

/// A line that ends in a line feed comes first, and the rest of the text after it.
pub proof fn lemma_lines_cons(a: Seq<char>, rest: Seq<char>)
    requires
        !a.contains('\n'),
        a.len() == 0 || a.last() != '\r',
    ensures
        lines(a + seq!['\n'] + rest) == seq![a] + lines(rest),
{
    let s = a + seq!['\n'] + rest;
    assert forall|i: int| 0 <= i < a.len() implies s[i] != '\n' by {
        assert(a.contains(a[i]));
    }
    lemma_until_is(s, '\n', a.len());
    assert(before(s, '\n') == a);
    assert(after(s, '\n') == rest);
}

/// A text that ends in a line feed has its own lines, and what follows has the rest.
pub proof fn lemma_lines_concat(a: Seq<char>, b: Seq<char>)
    requires
        a.len() == 0 || a.last() == '\n',
    ensures
        lines(a + b) == lines(a) + lines(b),
    decreases a.len(),
{
    if a.len() == 0 {
        assert(a + b =~= b);
        assert(lines(a) + lines(b) =~= lines(b));
    } else {
        lemma_until(a, '\n');
        let n = until(a, '\n');
        assert(n < a.len());
        assert forall|i: int| 0 <= i < n implies (a + b)[i] != '\n' by {
            assert((a + b)[i] == a[i]);
        }
        lemma_until_is(a + b, '\n', n);
        let rest = after(a, '\n');
        assert(before(a + b, '\n') =~= before(a, '\n'));
        assert(after(a + b, '\n') =~= rest + b);
        lemma_lines_concat(rest, b);
        assert(lines(a + b) =~= lines(a) + lines(b));
    }
}

/// The lines of a text hold no line feed.
pub proof fn lemma_lines_hold_no_feed(s: Seq<char>)
    ensures
        forall|i: int| 0 <= i < lines(s).len() ==> !(#[trigger] lines(s)[i]).contains('\n'),
    decreases s.len(),
{
    lemma_until(s, '\n');
    if s.len() > 0 && until(s, '\n') < s.len() {
        let rest = after(s, '\n');
        lemma_lines_hold_no_feed(rest);
        assert forall|i: int| 0 <= i < lines(s).len() implies !(#[trigger] lines(s)[i]).contains(
            '\n',
        ) by {
            if i > 0 {
                assert(lines(s)[i] == lines(rest)[i - 1]);
            }
        }
    }
}

/// Neither end is white space: trimming changes nothing.
pub open spec fn is_trimmed(s: Seq<char>) -> bool {
    s.len() == 0 || (!is_space(s[0]) && !is_space(s.last()))
}

pub proof fn lemma_trimmed_fixed(s: Seq<char>)
    requires
        is_trimmed(s),
    ensures
        trimmed(s) == s,
{
}

/// What is left at the start of a text once its leading white space is gone.
pub proof fn lemma_trimmed_start(s: Seq<char>)
    ensures
        trimmed_start(s).len() <= s.len(),
        trimmed_start(s) == s.skip(s.len() - trimmed_start(s).len()),
        trimmed_start(s).len() > 0 ==> !is_space(trimmed_start(s)[0]),
    decreases s.len(),
{
    if s.len() == 0 || !is_space(s[0]) {
        assert(s.skip(0) == s);
    } else {
        let t = s.drop_first();
        lemma_trimmed_start(t);
        let n = trimmed_start(s).len();
        assert(t.skip(t.len() - n) == s.skip(s.len() - n));
    }
}

pub proof fn lemma_trimmed_end(s: Seq<char>)
    ensures
        trimmed_end(s).len() <= s.len(),
        trimmed_end(s) == s.take(trimmed_end(s).len() as int),
        trimmed_end(s).len() > 0 ==> !is_space(trimmed_end(s).last()),
    decreases s.len(),
{
    if s.len() == 0 || !is_space(s.last()) {
        assert(s.take(s.len() as int) == s);
    } else {
        let t = s.drop_last();
        lemma_trimmed_end(t);
        let n = trimmed_end(s).len() as int;
        assert(t.take(n) == s.take(n));
    }
}

/// Trimming leaves a piece of the text, with no white space at either end.
pub proof fn lemma_trimmed(s: Seq<char>)
    ensures
        is_trimmed(trimmed(s)),
        trimmed(trimmed(s)) == trimmed(s),
        forall|c: char| trimmed(s).contains(c) ==> s.contains(c),
{
    let t = trimmed_start(s);
    lemma_trimmed_start(s);
    lemma_trimmed_end(t);
    let r = trimmed(s);
    if r.len() > 0 {
        assert(r[0] == t[0]);
    }
    assert forall|c: char| r.contains(c) implies s.contains(c) by {
        let i = choose|i: int| 0 <= i < r.len() && r[i] == c;
        assert(t[i] == c);
        assert(s[s.len() - t.len() + i] == c);
    }
    lemma_trimmed_fixed(r);
}

/// White space in front of a text makes no difference to what trimming leaves.
pub proof fn lemma_trimmed_space(s: Seq<char>)
    ensures
        trimmed(seq![' '] + s) == trimmed(s),
{
    assert((seq![' '] + s).drop_first() == s);
}

/// An indentation goes with the white space in front.
pub proof fn lemma_indented(indent: Seq<char>, s: Seq<char>)
    requires
        forall|i: int| 0 <= i < indent.len() ==> #[trigger] is_space(indent[i]),
        s.len() > 0,
        !is_space(s[0]),
    ensures
        trimmed_start(indent + s) == s,
        trimmed(indent + s).len() > 0,
    decreases indent.len(),
{
    if indent.len() == 0 {
        assert(indent + s =~= s);
        lemma_end_keeps_front(s);
    } else {
        assert(is_space(indent[0]));
        assert((indent + s).drop_first() =~= indent.drop_first() + s);
        assert forall|i: int| 0 <= i < indent.drop_first().len() implies #[trigger] is_space(
            indent.drop_first()[i],
        ) by {
            assert(is_space(indent[i + 1]));
        }
        lemma_indented(indent.drop_first(), s);
    }
}

/// Trimming the end of a text does not reach a front that is not white space.
proof fn lemma_end_keeps_front(s: Seq<char>)
    requires
        s.len() > 0,
        !is_space(s[0]),
    ensures
        trimmed_end(s).len() > 0,
    decreases s.len(),
{
    if is_space(s.last()) {
        assert(s.drop_last()[0] == s[0]);
        lemma_end_keeps_front(s.drop_last());
    }
}


/// White space at the end of a text makes no difference to what trimming leaves.
pub proof fn lemma_trimmed_push(s: Seq<char>, c: char)
    requires
        is_space(c),
    ensures
        trimmed(s.push(c)) == trimmed(s),
    decreases s.len(),
{
    if s.len() == 0 {
        reveal_with_fuel(trimmed_start, 2);
        assert(s.push(c).drop_first() =~= s);
    } else if is_space(s[0]) {
        assert(s.push(c).drop_first() =~= s.drop_first().push(c));
        lemma_trimmed_push(s.drop_first(), c);
    } else {
        assert(s.push(c)[0] == s[0]);
        assert(s.push(c).drop_last() =~= s);
    }
}

/// A text without the separator is one piece.
pub proof fn lemma_one_piece(x: Seq<char>, c: char)
    requires
        !x.contains(c),
    ensures
        pieces(x, c) == seq![x],
{
    lemma_until(x, c);
    if until(x, c) < x.len() {
        assert(x.contains(x[until(x, c) as int]));
    }
}

/// What stands before the first separator is the first piece, and the rest has the others.
pub proof fn lemma_first_piece(x: Seq<char>, rest: Seq<char>, c: char)
    requires
        !x.contains(c),
    ensures
        pieces(x + seq![c] + rest, c) == seq![x] + pieces(rest, c),
{
    let s = x + seq![c] + rest;
    assert forall|i: int| 0 <= i < x.len() implies #[trigger] s[i] != c by {
        assert(x.contains(x[i]));
    }
    lemma_until_is(s, c, x.len());
    assert(before(s, c) =~= x);
    assert(after(s, c) =~= rest);
}


/// A line may end in a carriage return and a line feed, and the last line in neither.
pub proof fn lines_may_end_otherwise(a: Seq<char>, rest: Seq<char>)
    requires
        !a.contains('\n'),
    ensures
        lines(a + seq!['\r', '\n'] + rest) == seq![a] + lines(rest),
        a.len() > 0 ==> lines(a) == seq![a],
        lines(seq![]).len() == 0,
{
    let s = a + seq!['\r', '\n'] + rest;
    assert forall|i: int| 0 <= i < a.len() + 1 implies s[i] != '\n' by {
        if i < a.len() {
            assert(a.contains(a[i]));
        }
    }
    lemma_until_is(s, '\n', a.len() + 1);
    assert(before(s, '\n') =~= a.push('\r'));
    assert(before(s, '\n').drop_last() =~= a);
    assert(after(s, '\n') =~= rest);
    lemma_until(a, '\n');
    if until(a, '\n') < a.len() {
        assert(a.contains(a[until(a, '\n') as int]));
    }
}

/// Trimming takes white space off both ends, and nothing else.
pub proof fn trimming_takes_white_space_only(s: Seq<char>) -> (r: (int, int))
    ensures
        0 <= r.0 <= r.1 <= s.len(),
        trimmed(s) == s.subrange(r.0, r.1),
        forall|k: int| 0 <= k < r.0 || r.1 <= k < s.len() ==> is_space(#[trigger] s[k]),
        r.0 < r.1 ==> !is_space(s[r.0]) && !is_space(s[r.1 - 1]),
    decreases s.len(),
{
    if s.len() == 0 {
        assert(trimmed(s) =~= s.subrange(0, 0));
        (0, 0)
    } else if is_space(s[0]) {
        let t = s.drop_first();
        let (i, j) = trimming_takes_white_space_only(t);
        assert(s.subrange(i + 1, j + 1) =~= t.subrange(i, j));
        assert forall|k: int| 0 <= k < i + 1 || j + 1 <= k < s.len() implies is_space(
            #[trigger] s[k],
        ) by {
            if k > 0 {
                assert(s[k] == t[k - 1]);
            }
        }
        (i + 1, j + 1)
    } else if is_space(s.last()) {
        let t = s.drop_last();
        assert(t[0] == s[0]);
        let (i, j) = trimming_takes_white_space_only(t);
        assert(s.subrange(i, j) =~= t.subrange(i, j));
        assert forall|k: int| 0 <= k < i || j <= k < s.len() implies is_space(#[trigger] s[k]) by {
            if k < t.len() {
                assert(s[k] == t[k]);
            }
        }
        (i, j)
    } else {
        assert(s.subrange(0, s.len() as int) =~= s);
        (0, s.len() as int)
    }
}

/// What counts as white space among the characters of ASCII.
pub proof fn white_space_in_ascii(c: char)
    requires
        c as u32 <= 0x7f,
    ensures
        is_space(c) <==> c == ' ' || c == '\t' || c == '\n' || c == '\r' || c as u32 == 0x0b || c as u32
            == 0x0c,
{
}

/// Separators at the end go, however many there are, and nothing else does.
pub proof fn only_trailing_separators_go(s: Seq<char>, c: char)
    ensures
        s.len() == 0 || s.last() != c ==> without_trailing(s, c) == s,
        without_trailing(s.push(c), c) == without_trailing(s, c),
        without_trailing(s, c).len() == 0 || without_trailing(s, c).last() != c,
        without_trailing(s, c).len() <= s.len(),
        without_trailing(s, c) == s.take(without_trailing(s, c).len() as int),
    decreases s.len(),
{
    assert(s.push(c).drop_last() =~= s);
    if s.len() > 0 && s.last() == c {
        let t = s.drop_last();
        only_trailing_separators_go(t, c);
        assert(t.take(without_trailing(t, c).len() as int) =~= s.take(
            without_trailing(t, c).len() as int,
        ));
    } else {
        assert(s.take(s.len() as int) =~= s);
    }
}

} // verus!
