//! Recipes: how one package is built from its source.
//!
//! A recipe is the header of a control file, and after it scripts, each below a marker
//! such as `#--build--`.

use crate::control::{control_of, parse_control, ControlMeta, ControlModel};
use crate::fields::{field, setting, uncommented};
use crate::std_text::{ascii_small, lowercase, to_lowercase};
use crate::text::{
    after, before, begins, chars_of, ends, ends_with, equal, lines, slices, split_lines,
    starts_with, string_of, trim, trimmed, until, without_return,
};
use crate::text_lemmas::{
    lemma_lines_concat, lemma_lines_hold_no_feed, lemma_trimmed_push, lemma_until, lemma_until_is,
};
use vstd::prelude::*;
use vstd::slice::slice_subrange;
use vstd::string::*;
use vstd::utf8::is_ascii_chars;

verus! {

/// A script of a recipe.
pub struct Section {
    pub name: String,
    pub body: String,
}

#[verifier::ext_equal]
pub struct SectionModel {
    pub name: Seq<char>,
    pub body: Seq<char>,
}

impl View for Section {
    type V = SectionModel;

    open spec fn view(&self) -> SectionModel {
        SectionModel { name: self.name@, body: self.body@ }
    }
}

pub open spec fn sections(v: Seq<Section>) -> Seq<SectionModel> {
    v.map_values(|s: Section| s@)
}

// ---------------------------------------------------------------- markers and blocks

/// Whether a line is a marker: `#--` and `--` with something between them.
pub open spec fn is_marker(line: Seq<char>) -> bool {
    let s = trimmed(line);
    begins(s, "#--"@) && ends(s, "--"@) && s.len() > 5
}

/// The name in a marker, as it is written.
pub open spec fn marked(line: Seq<char>) -> Seq<char> {
    let s = trimmed(line);
    trimmed(s.subrange(3, s.len() - 2))
}

/// The blocks below the markers among some lines, in their order.
pub open spec fn blocks(ls: Seq<Seq<char>>) -> Seq<SectionModel>
    decreases ls.len(),
{
    if ls.len() == 0 {
        seq![]
    } else {
        let bs = blocks(ls.drop_last());
        let line = ls.last();
        if is_marker(line) {
            bs.push(SectionModel { name: marked(line), body: seq![] })
        } else if bs.len() == 0 {
            bs
        } else {
            let b = bs.last();
            bs.drop_last().push(SectionModel { body: b.body + line + seq!['\n'], ..b })
        }
    }
}

/// The text above the first marker.
pub open spec fn header(ls: Seq<Seq<char>>) -> Seq<char>
    decreases ls.len(),
{
    if ls.len() == 0 {
        seq![]
    } else if is_marker(ls.last()) || blocks(ls.drop_last()).len() > 0 {
        header(ls.drop_last())
    } else {
        header(ls.drop_last()) + ls.last() + seq!['\n']
    }
}

fn read_marker(line: &[char]) -> (r: Option<&[char]>)
    ensures
        r is Some == is_marker(line@),
        r matches Some(name) ==> name@ == marked(line@),
{
    let s = trim(line);
    if starts_with(s, "#--") && ends_with(s, "--") && s.len() > 5 {
        Some(trim(slice_subrange(s, 3, s.len() - 2)))
    } else {
        None
    }
}

/// Cuts a recipe into its header and its blocks.
pub fn split_recipe(text: &str) -> (r: (String, Vec<Section>))
    ensures
        r.0@ == header(lines(text@)),
        sections(r.1@) == blocks(lines(text@)),
{
    let chars = chars_of(text);
    let ls = split_lines(chars.as_slice());
    let ghost all = lines(text@);
    let mut head = String::new();
    let mut bs: Vec<Section> = Vec::new();
    let mut i: usize = 0;
    assert(sections(bs@) =~= blocks(all.take(0)));
    while i < ls.len()
        invariant
            i <= ls@.len(),
            slices(ls@) == all,
            all.len() == ls@.len(),
            head@ == header(all.take(i as int)),
            sections(bs@) == blocks(all.take(i as int)),
        decreases ls@.len() - i,
    {
        let line = ls[i];
        let ghost had = bs@;
        proof {
            assert(ls@[i as int]@ == all[i as int]);
            assert(all.take(i + 1).drop_last() =~= all.take(i as int));
            assert(sections(had).len() == had.len());
        }
        match read_marker(line) {
            Some(name) => {
                let b = Section { name: string_of(name), body: String::new() };
                bs.push(b);
                assert(b@ =~= SectionModel { name: name@, body: seq![] });
                assert(sections(bs@) =~= sections(had).push(b@));
            },
            None => match bs.pop() {
                None => {
                    let s = string_of(line);
                    head.append(s.as_str());
                    head.push('\n');
                    assert(head@ =~= header(all.take(i as int)) + line@ + seq!['\n']);
                },
                Some(top) => {
                    let mut b = top;
                    let s = string_of(line);
                    b.body.append(s.as_str());
                    b.body.push('\n');
                    proof {
                        assert(sections(had).last() == top@);
                        assert(sections(bs@) =~= sections(had).drop_last());
                        assert(b@ =~= SectionModel {
                            body: top@.body + line@ + seq!['\n'],
                            ..top@
                        });
                    }
                    let ghost below = bs@;
                    bs.push(b);
                    assert(sections(bs@) =~= sections(below).push(b@));
                },
            },
        }
        i += 1;
    }
    assert(all.take(i as int) == all);
    (head, bs)
}

// ---------------------------------------------------------------- sections

/// The index of the first section of a name; their number, where there is none.
pub open spec fn place(ss: Seq<SectionModel>, name: Seq<char>) -> nat
    decreases ss.len(),
{
    if ss.len() == 0 || ss[0].name == name {
        0
    } else {
        1 + place(ss.drop_first(), name)
    }
}

/// Blocks put together by their names: a name that comes again goes on where it left off.
pub open spec fn merged(bs: Seq<SectionModel>) -> Seq<SectionModel>
    decreases bs.len(),
{
    if bs.len() == 0 {
        seq![]
    } else {
        let ss = merged(bs.drop_last());
        let b = bs.last();
        let k = place(ss, b.name) as int;
        if k < ss.len() {
            ss.update(k, SectionModel { body: ss[k].body + b.body, ..ss[k] })
        } else {
            ss.push(b)
        }
    }
}

/// The script of a name, if there is one.
pub open spec fn script(ss: Seq<SectionModel>, name: Seq<char>) -> Option<Seq<char>> {
    if place(ss, name) < ss.len() {
        Some(ss[place(ss, name) as int].body)
    } else {
        None
    }
}

/// What all blocks of a name hold.
pub open spec fn bodies(bs: Seq<SectionModel>, name: Seq<char>) -> Seq<char>
    decreases bs.len(),
{
    if bs.len() == 0 {
        seq![]
    } else if bs.last().name == name {
        bodies(bs.drop_last(), name) + bs.last().body
    } else {
        bodies(bs.drop_last(), name)
    }
}

proof fn lemma_place(ss: Seq<SectionModel>, name: Seq<char>)
    ensures
        place(ss, name) <= ss.len(),
        forall|i: int| 0 <= i < place(ss, name) ==> ss[i].name != name,
        place(ss, name) < ss.len() ==> ss[place(ss, name) as int].name == name,
    decreases ss.len(),
{
    if ss.len() > 0 && ss[0].name != name {
        let t = ss.drop_first();
        lemma_place(t, name);
        assert forall|i: int| 0 <= i < place(ss, name) implies ss[i].name != name by {
            if i > 0 {
                assert(t[i - 1] == ss[i]);
            }
        }
    }
}

/// The index of the first section of a name.
pub fn find_section(ss: &Vec<Section>, name: &str) -> (r: usize)
    ensures
        r == place(sections(ss@), name@),
        r <= ss@.len(),
{
    let ghost all = sections(ss@);
    let mut i: usize = 0;
    assert(all.skip(0) =~= all);
    while i < ss.len() && !equal(ss[i].name.as_str(), name)
        invariant
            i <= ss@.len(),
            all == sections(ss@),
            place(all, name@) == i + place(all.skip(i as int), name@),
        decreases ss@.len() - i,
    {
        assert(all.skip(i as int)[0] == ss@[i as int]@);
        assert(all.skip(i as int).drop_first() =~= all.skip(i + 1));
        i += 1;
    }
    proof {
        if i < ss.len() {
            assert(all.skip(i as int)[0] == ss@[i as int]@);
        }
    }
    i
}

/// Puts blocks together by their names.
pub fn merge_sections(bs: Vec<Section>) -> (r: Vec<Section>)
    ensures
        sections(r@) == merged(sections(bs@)),
{
    let ghost all = sections(bs@);
    let mut ss: Vec<Section> = Vec::new();
    let mut i: usize = 0;
    assert(sections(ss@) =~= merged(all.take(0)));
    while i < bs.len()
        invariant
            i <= bs@.len(),
            all == sections(bs@),
            sections(ss@) == merged(all.take(i as int)),
        decreases bs@.len() - i,
    {
        let ghost had = ss@;
        proof {
            assert(all[i as int] == bs@[i as int]@);
            assert(all.take(i + 1).drop_last() =~= all.take(i as int));
            assert(sections(had).len() == had.len());
        }
        let k = find_section(&ss, bs[i].name.as_str());
        if k < ss.len() {
            let mut body = ss[k].body.clone();
            body.append(bs[i].body.as_str());
            let s = Section { name: ss[k].name.clone(), body };
            proof {
                assert(sections(had)[k as int] == had[k as int]@);
                assert(s@ =~= SectionModel {
                    body: sections(had)[k as int].body + all[i as int].body,
                    ..sections(had)[k as int]
                });
            }
            ss.set(k, s);
            assert(sections(ss@) =~= sections(had).update(k as int, s@));
        } else {
            let s = Section { name: bs[i].name.clone(), body: bs[i].body.clone() };
            ss.push(s);
            assert(sections(ss@) =~= sections(had).push(s@));
        }
        i += 1;
    }
    assert(all.take(i as int) == all);
    ss
}

/// Blocks with their names in small letters.
pub open spec fn lowered(bs: Seq<SectionModel>) -> Seq<SectionModel> {
    bs.map_values(|b: SectionModel| SectionModel { name: lowercase(b.name), ..b })
}

/// That small letters take the place of the capital ones in each name that is in ASCII.
pub open spec fn lowers_ascii(bs: Seq<SectionModel>) -> bool {
    forall|i: int|
        0 <= i < bs.len() && is_ascii_chars((#[trigger] bs[i]).name) ==> lowercase(bs[i].name)
            == bs[i].name.map_values(|c: char| ascii_small(c))
}

fn lower_names(bs: Vec<Section>) -> (r: Vec<Section>)
    ensures
        sections(r@) == lowered(sections(bs@)),
        lowers_ascii(sections(bs@)),
{
    let ghost all = sections(bs@);
    let mut r: Vec<Section> = Vec::new();
    let mut i: usize = 0;
    assert(sections(r@) =~= lowered(all.take(0)));
    while i < bs.len()
        invariant
            i <= bs@.len(),
            all == sections(bs@),
            sections(r@) == lowered(all.take(i as int)),
            lowers_ascii(all.take(i as int)),
        decreases bs@.len() - i,
    {
        let ghost had = r@;
        let s = Section { name: to_lowercase(bs[i].name.as_str()), body: bs[i].body.clone() };
        proof {
            assert(all[i as int] == bs@[i as int]@);
            assert(all.take(i + 1) =~= all.take(i as int).push(all[i as int]));
        }
        r.push(s);
        assert(sections(r@) =~= sections(had).push(s@));
        assert(sections(r@) =~= lowered(all.take(i + 1)));
        i += 1;
    }
    assert(all.take(i as int) == all);
    r
}

/// The metadata in a recipe.
pub open spec fn recipe_meta(text: Seq<char>) -> ControlModel {
    control_of(lines(header(lines(text))))
}

/// The scripts in a recipe. The case of their names makes no difference.
pub open spec fn recipe_sections(text: Seq<char>) -> Seq<SectionModel> {
    merged(lowered(blocks(lines(text))))
}

/// Reads a recipe.
pub fn parse_recipe(text: &str) -> (r: (ControlMeta, Vec<Section>))
    ensures
        r.0@ == recipe_meta(text@),
        sections(r.1@) == recipe_sections(text@),
        lowers_ascii(blocks(lines(text@))),
{
    let (head, bs) = split_recipe(text);
    (parse_control(head.as_str()), merge_sections(lower_names(bs)))
}


// ---------------------------------------------------------------- laws

/// The lines above the first marker.
pub open spec fn above(ls: Seq<Seq<char>>) -> Seq<Seq<char>>
    decreases ls.len(),
{
    if ls.len() == 0 || is_marker(ls[0]) {
        seq![]
    } else {
        seq![ls[0]] + above(ls.drop_first())
    }
}

/// Lines, each with a line feed.
spec fn joined(ls: Seq<Seq<char>>) -> Seq<char>
    decreases ls.len(),
{
    if ls.len() == 0 {
        seq![]
    } else {
        joined(ls.drop_last()) + ls.last() + seq!['\n']
    }
}

proof fn lemma_above_push(ls: Seq<Seq<char>>, line: Seq<char>)
    ensures
        above(ls.push(line)) == if is_marker(line) || above(ls).len() < ls.len() {
            above(ls)
        } else {
            ls.push(line)
        },
        above(ls).len() <= ls.len(),
        above(ls).len() == ls.len() ==> above(ls) == ls,
    decreases ls.len(),
{
    let more = ls.push(line);
    reveal_with_fuel(above, 2);
    if ls.len() == 0 {
        assert(more.drop_first() =~= ls);
    } else if !is_marker(ls[0]) {
        assert(more.drop_first() =~= ls.drop_first().push(line));
        lemma_above_push(ls.drop_first(), line);
        assert(seq![ls[0]] + ls.drop_first() =~= ls);
        assert(seq![ls[0]] + ls.drop_first().push(line) =~= more);
    }
}

/// The header is the lines above the first marker.
proof fn lemma_header(ls: Seq<Seq<char>>)
    ensures
        header(ls) == joined(above(ls)),
        blocks(ls).len() == 0 <==> above(ls).len() == ls.len(),
        above(ls).len() <= ls.len(),
    decreases ls.len(),
{
    if ls.len() > 0 {
        let fewer = ls.drop_last();
        lemma_header(fewer);
        lemma_above_push(fewer, ls.last());
        assert(fewer.push(ls.last()) =~= ls);
        if !is_marker(ls.last()) && above(fewer).len() == fewer.len() {
            assert(above(ls) == ls);
        }
    }
}

proof fn lemma_joined_lines(ls: Seq<Seq<char>>)
    requires
        forall|i: int| 0 <= i < ls.len() ==> !(#[trigger] ls[i]).contains('\n'),
    ensures
        lines(joined(ls)).len() == ls.len(),
        forall|i: int| 0 <= i < ls.len() ==> #[trigger] lines(joined(ls))[i] == without_return(ls[i]),
        ls.len() > 0 ==> joined(ls).last() == '\n',
    decreases ls.len(),
{
    if ls.len() > 0 {
        let fewer = ls.drop_last();
        let line = ls.last();
        assert forall|i: int| 0 <= i < fewer.len() implies !(#[trigger] fewer[i]).contains('\n') by {
            assert(fewer[i] == ls[i]);
        }
        lemma_joined_lines(fewer);
        let tail = line + seq!['\n'];
        assert(joined(ls) =~= joined(fewer) + tail);
        lemma_lines_concat(joined(fewer), tail);
        assert(!ls[ls.len() - 1].contains('\n'));
        assert forall|i: int| 0 <= i < line.len() implies tail[i] != '\n' by {
            assert(line.contains(line[i]));
        }
        lemma_until_is(tail, '\n', line.len());
        assert(before(tail, '\n') =~= line);
        assert(after(tail, '\n') =~= seq![]);
        reveal_with_fuel(lines, 2);
        assert(lines(tail) =~= seq![without_return(line)]);
        assert forall|i: int| 0 <= i < ls.len() implies #[trigger] lines(joined(ls))[i]
            == without_return(ls[i]) by {
            if i < fewer.len() {
                assert(lines(joined(fewer))[i] == without_return(fewer[i]));
            }
        }
    }
}

/// A carriage return at the end of a line makes no difference to what it sets.
proof fn lemma_return_sets_nothing(line: Seq<char>)
    ensures
        setting(before(without_return(line), '#')) == setting(before(line, '#')),
{
    if line.len() > 0 && line.last() == '\r' {
        let short = line.drop_last();
        lemma_until(line, '#');
        lemma_until(short, '#');
        if until(line, '#') < line.len() {
            lemma_until_is(short, '#', until(line, '#'));
            assert(before(short, '#') =~= before(line, '#'));
        } else {
            lemma_until_is(short, '#', short.len());
            assert(before(short, '#') =~= short);
            assert(before(line, '#') =~= line);
            lemma_until(line, ':');
            lemma_until(short, ':');
            if until(line, ':') < line.len() {
                lemma_until_is(short, ':', until(line, ':'));
                assert(before(short, ':') =~= before(line, ':'));
                assert(after(line, ':') =~= after(short, ':').push('\r'));
                lemma_trimmed_push(after(short, ':'), '\r');
            } else {
                lemma_until_is(short, ':', short.len());
            }
        }
    }
}

proof fn lemma_returns_set_nothing(a: Seq<Seq<char>>, b: Seq<Seq<char>>, key: Seq<char>)
    requires
        a.len() == b.len(),
        forall|i: int| 0 <= i < a.len() ==> #[trigger] a[i] == without_return(b[i]),
    ensures
        field(uncommented(a), key) == field(uncommented(b), key),
    decreases a.len(),
{
    if a.len() > 0 {
        lemma_return_sets_nothing(b.last());
        assert(a[a.len() - 1] == without_return(b[b.len() - 1]));
        assert forall|i: int| 0 <= i < a.drop_last().len() implies #[trigger] a.drop_last()[i]
            == without_return(b.drop_last()[i]) by {
            assert(a[i] == without_return(b[i]));
        }
        lemma_returns_set_nothing(a.drop_last(), b.drop_last(), key);
        assert(uncommented(a).drop_last() =~= uncommented(a.drop_last()));
        assert(uncommented(b).drop_last() =~= uncommented(b.drop_last()));
    }
}

/// The metadata of a recipe are those of a control file that ends above the first marker:
/// no line of a script is ever taken for metadata.
pub proof fn scripts_are_never_metadata(text: Seq<char>)
    ensures
        recipe_meta(text) == control_of(above(lines(text))),
{
    let ls = lines(text);
    let top = above(ls);
    lemma_header(ls);
    lemma_lines_hold_no_feed(text);
    lemma_above_within(ls);
    lemma_joined_lines(top);
    let read = lines(joined(top));
    lemma_returns_set_nothing(read, top, "name"@);
    lemma_returns_set_nothing(read, top, "version"@);
    lemma_returns_set_nothing(read, top, "architecture"@);
    lemma_returns_set_nothing(read, top, "depends"@);
    lemma_returns_set_nothing(read, top, "description"@);
}

proof fn lemma_above_within(ls: Seq<Seq<char>>)
    ensures
        above(ls).len() <= ls.len(),
        forall|i: int| 0 <= i < above(ls).len() ==> #[trigger] above(ls)[i] == ls[i],
    decreases ls.len(),
{
    if ls.len() > 0 && !is_marker(ls[0]) {
        lemma_above_within(ls.drop_first());
        assert forall|i: int| 0 <= i < above(ls).len() implies #[trigger] above(ls)[i] == ls[i] by {
            if i > 0 {
                assert(above(ls)[i] == above(ls.drop_first())[i - 1]);
            }
        }
    }
}

/// No two sections have the same name.
pub proof fn section_names_are_unique(bs: Seq<SectionModel>, i: int, j: int)
    requires
        0 <= i < j < merged(bs).len(),
    ensures
        merged(bs)[i].name != merged(bs)[j].name,
    decreases bs.len(),
{
    let ss = merged(bs.drop_last());
    let name = bs.last().name;
    lemma_place(ss, name);
    if j < ss.len() {
        section_names_are_unique(bs.drop_last(), i, j);
    }
}

/// A section holds all that the blocks of its name hold, in their order; there is none of a
/// name that no block has.
pub proof fn a_section_holds_all_its_blocks(bs: Seq<SectionModel>, name: Seq<char>)
    ensures
        match script(merged(bs), name) {
            Some(body) => body == bodies(bs, name),
            None => forall|i: int| 0 <= i < bs.len() ==> #[trigger] bs[i].name != name,
        },
    decreases bs.len(),
{
    let m = merged(bs);
    lemma_place(m, name);
    if bs.len() > 0 {
        let fewer = bs.drop_last();
        let ss = merged(fewer);
        let b = bs.last();
        a_section_holds_all_its_blocks(fewer, name);
        lemma_place(ss, name);
        lemma_place(ss, b.name);
        let k = place(ss, b.name) as int;
        if k < ss.len() {
            assert(forall|i: int| 0 <= i < m.len() ==> #[trigger] m[i].name == ss[i].name);
            if place(m, name) < place(ss, name) {
                assert(m[place(m, name) as int].name == name);
            }
            if place(ss, name) < place(m, name) {
                assert(m[place(ss, name) as int].name != name);
            }
            if script(m, name) is None {
                assert forall|i: int| 0 <= i < bs.len() implies #[trigger] bs[i].name != name by {
                    if i < fewer.len() {
                        assert(fewer[i].name != name);
                    }
                }
            }
        } else {
            assert(forall|i: int| 0 <= i < ss.len() ==> #[trigger] m[i] == ss[i]);
            if place(ss, name) < ss.len() {
                assert(m[place(ss, name) as int].name == name);
                assert(place(m, name) == place(ss, name));
                assert(b.name != name);
            } else {
                lemma_no_bodies(fewer, name);
                if b.name == name {
                    assert(m[ss.len() as int].name == name);
                    if place(m, name) < ss.len() {
                        assert(m[place(m, name) as int] == ss[place(m, name) as int]);
                    }
                    assert(place(m, name) == ss.len());
                } else {
                    assert forall|i: int| 0 <= i < bs.len() implies #[trigger] bs[i].name != name by {
                        if i < fewer.len() {
                            assert(fewer[i].name != name);
                        }
                    }
                }
            }
        }
    }
}

proof fn lemma_no_bodies(bs: Seq<SectionModel>, name: Seq<char>)
    requires
        forall|i: int| 0 <= i < bs.len() ==> #[trigger] bs[i].name != name,
    ensures
        bodies(bs, name) == Seq::<char>::empty(),
    decreases bs.len(),
{
    if bs.len() > 0 {
        assert(bs[bs.len() - 1].name != name);
        assert forall|i: int| 0 <= i < bs.drop_last().len() implies #[trigger] bs.drop_last()[i].name
            != name by {
            assert(bs[i].name != name);
        }
        lemma_no_bodies(bs.drop_last(), name);
    }
}

/// Lines with a line feed after each.
pub open spec fn with_feeds(ls: Seq<Seq<char>>) -> Seq<char>
    decreases ls.len(),
{
    if ls.len() == 0 {
        seq![]
    } else {
        ls[0] + seq!['\n'] + with_feeds(ls.drop_first())
    }
}

proof fn lemma_with_feeds_push(ls: Seq<Seq<char>>, line: Seq<char>)
    ensures
        with_feeds(ls.push(line)) == with_feeds(ls) + line + seq!['\n'],
    decreases ls.len(),
{
    if ls.len() == 0 {
        assert(ls.push(line).drop_first() =~= ls);
        assert(with_feeds(ls.push(line)) =~= with_feeds(ls) + line + seq!['\n']);
    } else {
        assert(ls.push(line).drop_first() =~= ls.drop_first().push(line));
        lemma_with_feeds_push(ls.drop_first(), line);
        assert(with_feeds(ls.push(line)) =~= with_feeds(ls) + line + seq!['\n']);
    }
}

/// A marker begins a block, which holds the lines below it up to the next marker, and nothing
/// else; what stands above the first marker belongs to no block.
pub proof fn a_block_is_what_stands_below_its_marker(
    ls: Seq<Seq<char>>,
    marker: Seq<char>,
    body: Seq<Seq<char>>,
)
    requires
        is_marker(marker),
        forall|i: int| 0 <= i < body.len() ==> !is_marker(#[trigger] body[i]),
    ensures
        blocks(ls + seq![marker] + body) == blocks(ls).push(
            SectionModel { name: marked(marker), body: with_feeds(body) },
        ),
        blocks(body).len() == 0,
        above(body + seq![marker] + ls) == body,
        above(body) == body,
{
    lemma_above_no_marker(body);
    lemma_above_marker(body, marker, ls);
    lemma_no_blocks(body);
    lemma_block(ls, marker, body);
}

proof fn lemma_no_blocks(body: Seq<Seq<char>>)
    requires
        forall|i: int| 0 <= i < body.len() ==> !is_marker(#[trigger] body[i]),
    ensures
        blocks(body).len() == 0,
    decreases body.len(),
{
    if body.len() > 0 {
        assert(!is_marker(body[body.len() - 1]));
        assert forall|i: int| 0 <= i < body.drop_last().len() implies !is_marker(
            #[trigger] body.drop_last()[i],
        ) by {
            assert(!is_marker(body[i]));
        }
        lemma_no_blocks(body.drop_last());
    }
}

proof fn lemma_block(ls: Seq<Seq<char>>, marker: Seq<char>, body: Seq<Seq<char>>)
    requires
        is_marker(marker),
        forall|i: int| 0 <= i < body.len() ==> !is_marker(#[trigger] body[i]),
    ensures
        blocks(ls + seq![marker] + body) == blocks(ls).push(
            SectionModel { name: marked(marker), body: with_feeds(body) },
        ),
    decreases body.len(),
{
    let all = ls + seq![marker] + body;
    if body.len() == 0 {
        assert(all.drop_last() =~= ls);
        assert(all.last() == marker);
        assert(with_feeds(body) =~= seq![]);
    } else {
        let less = body.drop_last();
        assert(!is_marker(body[body.len() - 1]));
        assert forall|i: int| 0 <= i < less.len() implies !is_marker(#[trigger] less[i]) by {
            assert(!is_marker(body[i]));
        }
        lemma_block(ls, marker, less);
        assert(all.drop_last() =~= ls + seq![marker] + less);
        assert(all.last() == body.last());
        let bs = blocks(ls + seq![marker] + less);
        lemma_with_feeds_push(less, body.last());
        assert(less.push(body.last()) =~= body);
        assert(bs.drop_last() =~= blocks(ls));
    }
}

proof fn lemma_above_no_marker(body: Seq<Seq<char>>)
    requires
        forall|i: int| 0 <= i < body.len() ==> !is_marker(#[trigger] body[i]),
    ensures
        above(body) == body,
    decreases body.len(),
{
    if body.len() > 0 {
        let later = body.drop_first();
        assert(!is_marker(body[0]));
        assert forall|i: int| 0 <= i < later.len() implies !is_marker(#[trigger] later[i]) by {
            assert(!is_marker(body[i + 1]));
        }
        lemma_above_no_marker(later);
        assert(seq![body[0]] + later =~= body);
    } else {
        assert(above(body) =~= body);
    }
}

proof fn lemma_above_marker(body: Seq<Seq<char>>, marker: Seq<char>, ls: Seq<Seq<char>>)
    requires
        is_marker(marker),
        forall|i: int| 0 <= i < body.len() ==> !is_marker(#[trigger] body[i]),
    ensures
        above(body + seq![marker] + ls) == body,
    decreases body.len(),
{
    let all = body + seq![marker] + ls;
    if body.len() > 0 {
        let later = body.drop_first();
        assert(!is_marker(body[0]));
        assert forall|i: int| 0 <= i < later.len() implies !is_marker(#[trigger] later[i]) by {
            assert(!is_marker(body[i + 1]));
        }
        lemma_above_marker(later, marker, ls);
        assert(all.drop_first() =~= later + seq![marker] + ls);
        assert(all[0] == body[0]);
        assert(seq![body[0]] + later =~= body);
    } else {
        assert(all[0] == marker);
        assert(above(all) =~= body);
    }
}

/// A line is a marker, white space around it aside, exactly if it is `#--`, something, and
/// `--`; the name in it is that something, without the white space around it.
pub proof fn what_a_marker_looks_like(line: Seq<char>, name: Seq<char>)
    ensures
        trimmed(line) == "#--"@ + name + "--"@ && name.len() > 0 ==> is_marker(line) && marked(line)
            == trimmed(name),
        is_marker(line) ==> exists|n: Seq<char>|
            n.len() > 0 && trimmed(line) == #[trigger] ("#--"@ + n + "--"@),
{
    reveal_strlit("#--");
    reveal_strlit("--");
    let s = trimmed(line);
    if s == "#--"@ + name + "--"@ && name.len() > 0 {
        assert(s.take(3) =~= "#--"@);
        assert(s.skip(s.len() - 2) =~= "--"@);
        assert(s.subrange(3, s.len() - 2) =~= name);
    }
    if is_marker(line) {
        let n = s.subrange(3, s.len() - 2);
        assert(s =~= s.take(3) + n + s.skip(s.len() - 2));
        assert(s == "#--"@ + n + "--"@);
    }
}

/// The case of the names of scripts makes no difference: blocks whose names are the same in
/// small letters make up the same scripts.
pub proof fn the_case_of_names_makes_no_difference(a: Seq<SectionModel>, b: Seq<SectionModel>)
    requires
        a.len() == b.len(),
        forall|i: int|
            0 <= i < a.len() ==> lowercase((#[trigger] a[i]).name) == lowercase(b[i].name)
                && a[i].body == b[i].body,
    ensures
        lowered(a) == lowered(b),
        forall|i: int| 0 <= i < a.len() ==> (#[trigger] lowered(a)[i]).body == a[i].body
            && lowered(a)[i].name == lowercase(a[i].name),
{
    assert(lowered(a) =~= lowered(b)) by {
        assert forall|i: int| 0 <= i < a.len() implies lowered(a)[i] == lowered(b)[i] by {
            assert(lowercase(a[i].name) == lowercase(b[i].name));
        }
    }
}

} // verus!
