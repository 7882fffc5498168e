//! The control file of a package: its metadata, one `key: value` pair per line.

use crate::fields::{
    field, is_key, is_value, lemma_field_push, lemma_setting_puts, lemma_setting_within,
    push_setting, puts_line, read_setting, setting, setting_line, uncommented,
};
use crate::text::{
    before, chars_of, is_text, lines, slices, split_lines, string_of, take_before, until,
};
use crate::text_lemmas::{lemma_lines_hold_no_feed, lemma_until, lemma_until_is};
use vstd::prelude::*;

verus! {

/// What a package says of itself.
pub struct ControlMeta {
    pub name: String,
    pub version: String,
    pub architecture: String,
    pub depends: String,
    pub description: String,
}

/// The texts of a [`ControlMeta`].
pub struct ControlModel {
    pub name: Seq<char>,
    pub version: Seq<char>,
    pub architecture: Seq<char>,
    pub depends: Seq<char>,
    pub description: Seq<char>,
}

impl View for ControlMeta {
    type V = ControlModel;

    open spec fn view(&self) -> ControlModel {
        ControlModel {
            name: self.name@,
            version: self.version@,
            architecture: self.architecture@,
            depends: self.depends@,
            description: self.description@,
        }
    }
}

/// The metadata in the lines of a control file: of each key the value that was set
/// last, comments aside; empty where a key is missing.
pub open spec fn control_of(ls: Seq<Seq<char>>) -> ControlModel {
    let ls = uncommented(ls);
    ControlModel {
        name: field(ls, "name"@),
        version: field(ls, "version"@),
        architecture: field(ls, "architecture"@),
        depends: field(ls, "depends"@),
        description: field(ls, "description"@),
    }
}

/// The keys of a control file are five different texts.
proof fn lemma_keys()
    ensures
        "name"@ != "version"@,
        "name"@ != "architecture"@,
        "name"@ != "depends"@,
        "name"@ != "description"@,
        "version"@ != "architecture"@,
        "version"@ != "depends"@,
        "version"@ != "description"@,
        "architecture"@ != "depends"@,
        "architecture"@ != "description"@,
        "depends"@ != "description"@,
        is_key("name"@),
        is_key("version"@),
        is_key("architecture"@),
        is_key("depends"@),
        is_key("description"@),
{
    reveal_strlit("name");
    reveal_strlit("version");
    reveal_strlit("architecture");
    reveal_strlit("depends");
    reveal_strlit("description");
    assert("name"@.len() == 4 && "version"@.len() == 7 && "architecture"@.len() == 12);
    assert("depends"@.len() == 7 && "description"@.len() == 11);
    assert("version"@[0] != "depends"@[0]);
}

/// Reads a control file.
pub fn parse_control(text: &str) -> (r: ControlMeta)
    ensures
        r@ == control_of(lines(text@)),
{
    let mut m = ControlMeta {
        name: String::new(),
        version: String::new(),
        architecture: String::new(),
        depends: String::new(),
        description: String::new(),
    };
    let chars = chars_of(text);
    let ls = split_lines(chars.as_slice());
    let ghost all = lines(text@);
    let mut i: usize = 0;
    while i < ls.len()
        invariant
            i <= ls@.len(),
            slices(ls@) == all,
            all.len() == ls@.len(),
            m@ == control_of(all.take(i as int)),
        decreases ls@.len() - i,
    {
        let line = take_before(ls[i], '#');
        proof {
            assert(ls@[i as int]@ == all[i as int]);
            let seen = uncommented(all.take(i as int));
            assert(uncommented(all.take(i + 1)) == seen.push(line@));
            lemma_keys();
            lemma_field_push(seen, line@, "name"@);
            lemma_field_push(seen, line@, "version"@);
            lemma_field_push(seen, line@, "architecture"@);
            lemma_field_push(seen, line@, "depends"@);
            lemma_field_push(seen, line@, "description"@);
        }
        if let Some((k, v)) = read_setting(line) {
            if is_text(k, "name") {
                m.name = string_of(v);
            } else if is_text(k, "version") {
                m.version = string_of(v);
            } else if is_text(k, "architecture") {
                m.architecture = string_of(v);
            } else if is_text(k, "depends") {
                m.depends = string_of(v);
            } else if is_text(k, "description") {
                m.description = string_of(v);
            }
        }
        i += 1;
    }
    assert(all.take(i as int) == all);
    m
}

/// The control file that carries the given metadata.
pub open spec fn control_text(m: ControlModel) -> Seq<char> {
    setting_line("name"@, m.name) + setting_line("version"@, m.version) + setting_line(
        "architecture"@,
        m.architecture,
    ) + setting_line("depends"@, m.depends) + setting_line("description"@, m.description)
}

/// Writes a control file.
pub fn render_control(m: &ControlMeta) -> (r: String)
    ensures
        r@ == control_text(m@),
{
    let mut out = String::new();
    push_setting(&mut out, "name", m.name.as_str());
    push_setting(&mut out, "version", m.version.as_str());
    push_setting(&mut out, "architecture", m.architecture.as_str());
    push_setting(&mut out, "depends", m.depends.as_str());
    push_setting(&mut out, "description", m.description.as_str());
    assert(out@ == control_text(m@));
    out
}

/// Metadata whose fields a control file can carry unchanged.
pub open spec fn carries(m: ControlModel) -> bool {
    is_value(m.name) && is_value(m.version) && is_value(m.architecture) && is_value(m.depends)
        && is_value(m.description)
}

/// The lines of a control file that was written.
proof fn lemma_control_lines(m: ControlModel) -> (ls: Seq<Seq<char>>)
    requires
        carries(m),
    ensures
        lines(control_text(m)) == ls,
        uncommented(ls) == ls,
        ls.len() == 5,
        setting(ls[0]) == Some(("name"@, m.name)),
        setting(ls[1]) == Some(("version"@, m.version)),
        setting(ls[2]) == Some(("architecture"@, m.architecture)),
        setting(ls[3]) == Some(("depends"@, m.depends)),
        setting(ls[4]) == Some(("description"@, m.description)),
{
    lemma_keys();
    let l1 = lemma_setting_puts("name"@, m.name);
    let l2 = lemma_setting_puts("version"@, m.version);
    let l3 = lemma_setting_puts("architecture"@, m.architecture);
    let l4 = lemma_setting_puts("depends"@, m.depends);
    let l5 = lemma_setting_puts("description"@, m.description);
    lemma_five_lines(
        seq![
            setting_line("name"@, m.name),
            setting_line("version"@, m.version),
            setting_line("architecture"@, m.architecture),
            setting_line("depends"@, m.depends),
            setting_line("description"@, m.description),
        ],
        seq![l1, l2, l3, l4, l5],
    );
    let ls = seq![l1, l2, l3, l4, l5];
    assert(uncommented(ls) =~= ls);
    ls
}

/// Five chunks of one line each.
proof fn lemma_five_lines(t: Seq<Seq<char>>, l: Seq<Seq<char>>)
    requires
        t.len() == 5,
        l.len() == 5,
        forall|i: int| 0 <= i < 5 ==> puts_line(#[trigger] t[i], l[i]),
    ensures
        lines(t[0] + t[1] + t[2] + t[3] + t[4]) == l,
{
    let e = Seq::<char>::empty();
    assert(lines(t[4] + e) == seq![l[4]] + lines(e));
    assert(lines(t[3] + (t[4] + e)) == seq![l[3]] + lines(t[4] + e));
    assert(lines(t[2] + (t[3] + (t[4] + e))) == seq![l[2]] + lines(t[3] + (t[4] + e)));
    assert(lines(t[1] + (t[2] + (t[3] + (t[4] + e)))) == seq![l[1]] + lines(
        t[2] + (t[3] + (t[4] + e)),
    ));
    let whole = t[0] + (t[1] + (t[2] + (t[3] + (t[4] + e))));
    assert(lines(whole) == seq![l[0]] + lines(t[1] + (t[2] + (t[3] + (t[4] + e)))));
    assert(t[0] + t[1] + t[2] + t[3] + t[4] =~= whole);
    assert(lines(whole) =~= l);
}

/// What reads back of a control file that was written is the metadata it was written
/// from, wherever lines can carry that metadata.
pub proof fn control_round_trip(m: ControlModel)
    requires
        carries(m),
    ensures
        control_of(lines(control_text(m))) == m,
{
    let ls = lemma_control_lines(m);
    lemma_keys();
    assert forall|key: Seq<char>| #[trigger] field(ls, key) == (if key == "description"@ {
        m.description
    } else if key == "depends"@ {
        m.depends
    } else if key == "architecture"@ {
        m.architecture
    } else if key == "version"@ {
        m.version
    } else if key == "name"@ {
        m.name
    } else {
        seq![]
    }) by {
        let s0 = Seq::<Seq<char>>::empty();
        assert(ls =~= s0.push(ls[0]).push(ls[1]).push(ls[2]).push(ls[3]).push(ls[4]));
        lemma_field_push(s0, ls[0], key);
        lemma_field_push(s0.push(ls[0]), ls[1], key);
        lemma_field_push(s0.push(ls[0]).push(ls[1]), ls[2], key);
        lemma_field_push(s0.push(ls[0]).push(ls[1]).push(ls[2]), ls[3], key);
        lemma_field_push(s0.push(ls[0]).push(ls[1]).push(ls[2]).push(ls[3]), ls[4], key);
    }
}

proof fn lemma_fields_are_values(ls: Seq<Seq<char>>, key: Seq<char>)
    requires
        forall|i: int| 0 <= i < ls.len() ==> !(#[trigger] ls[i]).contains('\n'),
    ensures
        is_value(field(uncommented(ls), key)),
    decreases ls.len(),
{
    if ls.len() > 0 {
        let last = before(ls.last(), '#');
        assert(uncommented(ls).drop_last() == uncommented(ls.drop_last()));
        lemma_fields_are_values(ls.drop_last(), key);
        lemma_until(ls.last(), '#');
        lemma_setting_within(last);
        assert(!last.contains('#'));
        assert forall|c: char| last.contains(c) implies ls.last().contains(c) by {
            let i = choose|i: int| 0 <= i < last.len() && last[i] == c;
            assert(ls.last()[i] == c);
        }
    }
}

/// What is read from a control file can always be carried by one.
pub proof fn parsed_control_carries(text: Seq<char>)
    ensures
        carries(control_of(lines(text))),
{
    lemma_lines_hold_no_feed(text);
    lemma_fields_are_values(lines(text), "name"@);
    lemma_fields_are_values(lines(text), "version"@);
    lemma_fields_are_values(lines(text), "architecture"@);
    lemma_fields_are_values(lines(text), "depends"@);
    lemma_fields_are_values(lines(text), "description"@);
}

/// One more line in a control file sets what its key says, and leaves everything else as it
/// was: of each key the last line counts, and what follows a `#` does not. A line with another
/// key, or without one, changes nothing.
pub proof fn a_later_line_counts(
    ls: Seq<Seq<char>>,
    key: Seq<char>,
    v: Seq<char>,
    comment: Seq<char>,
    other: Seq<char>,
)
    requires
        is_value(v),
        is_key(key),
        !other.contains(':'),
    ensures
        ({
            let was = control_of(ls);
            let now = control_of(ls.push(key + ": "@ + v));
            let noted = control_of(ls.push(key + ": "@ + v + seq!['#'] + comment));
            &&& noted == now
            &&& now.name == if key == "name"@ {
                v
            } else {
                was.name
            }
            &&& now.version == if key == "version"@ {
                v
            } else {
                was.version
            }
            &&& now.architecture == if key == "architecture"@ {
                v
            } else {
                was.architecture
            }
            &&& now.depends == if key == "depends"@ {
                v
            } else {
                was.depends
            }
            &&& now.description == if key == "description"@ {
                v
            } else {
                was.description
            }
            &&& control_of(ls.push(other)) == was
            &&& control_of(seq![]).name.len() == 0 && control_of(seq![]).version.len() == 0
                && control_of(seq![]).architecture.len() == 0 && control_of(seq![]).depends.len()
                == 0 && control_of(seq![]).description.len() == 0
        }),
{
    let line = lemma_setting_puts(key, v);
    assert(line == key + ": "@ + v);
    let noted = line + seq!['#'] + comment;
    lemma_until(line, '#');
    assert(before(noted, '#') =~= line) by {
        assert(until(line, '#') == line.len()) by {
            if until(line, '#') < line.len() {
                assert(before(line, '#').len() < line.len());
            }
        }
        lemma_until_is(noted, '#', line.len());
    }
    let u = uncommented(ls);
    assert(uncommented(ls.push(line)) =~= u.push(line));
    assert(uncommented(ls.push(noted)) =~= u.push(line));
    let bare = before(other, '#');
    assert(uncommented(ls.push(other)) =~= u.push(bare));
    assert(setting(bare) is None) by {
        lemma_until(bare, ':');
        lemma_until(other, '#');
        if until(bare, ':') < bare.len() {
            assert(other[until(bare, ':') as int] == ':');
            assert(other.contains(':'));
        }
    }
    assert forall|k: Seq<char>| #[trigger]
        field(u.push(line), k) == if k == key {
            v
        } else {
            field(u, k)
        } by {
        lemma_field_push(u, line, k);
    }
    assert forall|k: Seq<char>| #[trigger] field(u.push(bare), k) == field(u, k) by {
        lemma_field_push(u, bare, k);
    }
    assert(uncommented(seq![]) =~= seq![]);
}

} // verus!
