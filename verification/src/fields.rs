//! `key: value` lines, the form that all of the package keeper's metadata takes.

use crate::text::{after, before, cut, cut_once, lines, trim, trimmed, until};
use crate::text_lemmas::{
    is_trimmed, lemma_lines_cons, lemma_trimmed, lemma_trimmed_fixed, lemma_trimmed_space,
    lemma_until, lemma_until_is,
};
use vstd::prelude::*;
use vstd::string::*;

verus! {

/// The key and the value of a `key: value` line: what stands on either side of its
/// first colon, without the white space around it.
pub open spec fn setting(line: Seq<char>) -> Option<(Seq<char>, Seq<char>)> {
    match cut(line, ':') {
        Some((k, v)) => Some((trimmed(k), trimmed(v))),
        None => None,
    }
}

/// The value that the last line with the given key sets, if any line does.
pub open spec fn last_set(ls: Seq<Seq<char>>, key: Seq<char>) -> Option<Seq<char>>
    decreases ls.len(),
{
    if ls.len() == 0 {
        None
    } else {
        match setting(ls.last()) {
            Some((k, v)) if k == key => Some(v),
            _ => last_set(ls.drop_last(), key),
        }
    }
}

/// The value that the last line with the given key sets; empty where no line does.
pub open spec fn field(ls: Seq<Seq<char>>, key: Seq<char>) -> Seq<char> {
    match last_set(ls, key) {
        Some(v) => v,
        None => seq![],
    }
}

/// The line that sets `key` to `v`, with its line feed.
pub open spec fn setting_line(key: Seq<char>, v: Seq<char>) -> Seq<char> {
    key + ": "@ + v + "\n"@
}

/// A value that a line can carry unchanged: it has no comment sign, no line feed, and
/// no white space at either end.
pub open spec fn is_value(s: Seq<char>) -> bool {
    is_trimmed(s) && !s.contains('#') && !s.contains('\n')
}

/// A key that can stand at the front of a line.
pub open spec fn is_key(s: Seq<char>) -> bool {
    is_value(s) && s.len() > 0 && !s.contains(':')
}

/// Lines without their comments: a comment runs from a `#` to the end of the line.
pub open spec fn uncommented(ls: Seq<Seq<char>>) -> Seq<Seq<char>> {
    Seq::new(ls.len(), |i: int| before(ls[i], '#'))
}

/// One more line sets its key, and leaves every other key as it was.
pub proof fn lemma_field_push(ls: Seq<Seq<char>>, line: Seq<char>, key: Seq<char>)
    ensures
        last_set(ls.push(line), key) == match setting(line) {
            Some((k, v)) if k == key => Some(v),
            _ => last_set(ls, key),
        },
{
    assert(ls.push(line).drop_last() == ls);
}

/// A text that begins with a setting's line has that setting as its first line.
proof fn lemma_setting_line(key: Seq<char>, v: Seq<char>, rest: Seq<char>) -> (line: Seq<char>)
    requires
        is_trimmed(v),
        !v.contains('\n'),
        is_key(key),
    ensures
        lines(setting_line(key, v) + rest) == seq![line] + lines(rest),
        setting(line) == Some((key, v)),
        !v.contains('#') ==> before(line, '#') == line,
        line == key + ": "@ + v,
{
    reveal_strlit(": ");
    reveal_strlit("\n");
    let line = key + ": "@ + v;
    assert forall|i: int| 0 <= i < line.len() implies line[i] != '\n' && (!v.contains('#')
        ==> line[i] != '#') by {
        if i < key.len() {
            assert(key.contains(key[i]));
        } else if i >= key.len() + 2 {
            assert(v.contains(v[i - key.len() - 2]));
            assert(line[i] == v[i - key.len() - 2]);
        }
    }
    if !v.contains('#') {
        lemma_until_is(line, '#', line.len());
        assert(before(line, '#') == line);
    }
    assert forall|i: int| 0 <= i < key.len() implies line[i] != ':' by {
        assert(key.contains(key[i]));
    }
    lemma_until_is(line, ':', key.len());
    assert(before(line, ':') == key);
    assert(after(line, ':') == seq![' '] + v);
    lemma_trimmed_space(v);
    lemma_trimmed_fixed(v);
    lemma_trimmed_fixed(key);
    if v.len() > 0 {
        assert(line.last() == v.last());
    }
    assert(setting_line(key, v) + rest =~= line + seq!['\n'] + rest);
    lemma_lines_cons(line, rest);
    line
}

/// `chunk` puts the one line `line` in front of whatever follows it.
pub open spec fn puts_line(chunk: Seq<char>, line: Seq<char>) -> bool {
    forall|rest: Seq<char>| #[trigger] lines(chunk + rest) == seq![line] + lines(rest)
}

/// A setting's line puts that setting in front of whatever follows it.
pub proof fn lemma_setting_puts(key: Seq<char>, v: Seq<char>) -> (line: Seq<char>)
    requires
        is_trimmed(v),
        !v.contains('\n'),
        is_key(key),
    ensures
        puts_line(setting_line(key, v), line),
        setting(line) == Some((key, v)),
        !v.contains('#') ==> before(line, '#') == line,
        line == key + ": "@ + v,
{
    let line = lemma_setting_line(key, v, seq![]);
    assert forall|rest: Seq<char>| #[trigger]
        lines(setting_line(key, v) + rest) == seq![line] + lines(rest) by {
        lemma_setting_line(key, v, rest);
    }
    line
}

/// The value of a setting lies within its line.
pub proof fn lemma_setting_within(line: Seq<char>)
    ensures
        setting(line) matches Some((k, v)) ==> is_trimmed(v) && forall|c: char|
            v.contains(c) ==> line.contains(c),
{
    lemma_until(line, ':');
    lemma_trimmed(after(line, ':'));
    if until(line, ':') < line.len() {
        let rest = after(line, ':');
        let v = trimmed(rest);
        assert forall|c: char| v.contains(c) implies line.contains(c) by {
            assert(rest.contains(c));
            let i = choose|i: int| 0 <= i < rest.len() && rest[i] == c;
            assert(line[until(line, ':') + 1 + i] == c);
        }
    }
}

/// Appends the line that sets `key` to `v`.
pub fn push_setting(out: &mut String, key: &str, v: &str)
    ensures
        final(out)@ == old(out)@ + setting_line(key@, v@),
{
    out.append(key);
    out.append(": ");
    out.append(v);
    out.append("\n");
    assert(out@ == old(out)@ + setting_line(key@, v@));
}

pub fn read_setting(line: &[char]) -> (r: Option<(&[char], &[char])>)
    ensures
        match r {
            Some((k, v)) => setting(line@) == Some((k@, v@)),
            None => setting(line@) is None,
        },
{
    match cut_once(line, ':') {
        Some((k, v)) => Some((trim(k), trim(v))),
        None => None,
    }
}

/// A setting is what stands on either side of the first colon, whatever white space there is
/// around the two; a line without a colon is none.
pub proof fn a_colon_makes_a_setting(k: Seq<char>, v: Seq<char>)
    requires
        !k.contains(':'),
    ensures
        setting(k + seq![':'] + v) == Some((trimmed(k), trimmed(v))),
        setting(k) is None,
{
    let line = k + seq![':'] + v;
    assert forall|i: int| 0 <= i < k.len() implies line[i] != ':' by {
        assert(k.contains(k[i]));
    }
    lemma_until_is(line, ':', k.len());
    assert(before(line, ':') =~= k);
    assert(after(line, ':') =~= v);
    lemma_until(k, ':');
    if until(k, ':') < k.len() {
        assert(k.contains(k[until(k, ':') as int]));
    }
}

/// The value of a key is that of the last line that sets it, whatever other lines follow.
pub proof fn the_last_line_counts(
    ls: Seq<Seq<char>>,
    line: Seq<char>,
    more: Seq<Seq<char>>,
    key: Seq<char>,
)
    requires
        forall|i: int|
            0 <= i < more.len() ==> (setting(#[trigger] more[i]) matches Some((k, v)) ==> k != key),
    ensures
        setting(line) matches Some((k, v)) ==> k == key ==> field(ls + seq![line] + more, key) == v,
        field(more, key).len() == 0,
    decreases more.len(),
{
    if more.len() == 0 {
        assert(ls + seq![line] + more =~= ls.push(line));
        lemma_field_push(ls, line, key);
    } else {
        let less = more.drop_last();
        assert forall|i: int| 0 <= i < less.len() implies (setting(#[trigger] less[i]) matches Some(
            (k, v),
        ) ==> k != key) by {
            assert(less[i] == more[i]);
        }
        the_last_line_counts(ls, line, less, key);
        let l = more[more.len() - 1];
        assert(ls + seq![line] + more =~= (ls + seq![line] + less).push(l));
        assert(less.push(l) =~= more);
        lemma_field_push(ls + seq![line] + less, l, key);
        lemma_field_push(less, l, key);
    }
}

} // verus!
