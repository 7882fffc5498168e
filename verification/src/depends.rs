//! The tree of a package's dependencies, as the records of the installed packages have it.

use crate::database::{
    dependencies, parse_depends, read_installed, record_of, InstalledModel, InstalledPkg,
};
use crate::text::{has_text, lines, texts};
use vstd::prelude::*;

verus! {

/// What a line of the tree says of a package.
#[derive(Clone, Copy, Debug, PartialEq, Eq, Structural)]
pub enum TreeKind {
    /// It is installed; its dependencies follow.
    Installed,
    /// It is not installed.
    Missing,
    /// It has been shown above.
    Repeated,
}

/// A line of the tree.
pub struct TreeLine {
    pub kind: TreeKind,
    pub depth: usize,
    pub name: String,
    /// The version of a package that is installed.
    pub version: String,
}

#[verifier::ext_equal]
pub struct TreeLineModel {
    pub kind: TreeKind,
    pub depth: nat,
    pub name: Seq<char>,
    pub version: Seq<char>,
}

impl View for TreeLine {
    type V = TreeLineModel;

    open spec fn view(&self) -> TreeLineModel {
        TreeLineModel {
            kind: self.kind,
            depth: self.depth as nat,
            name: self.name@,
            version: self.version@,
        }
    }
}

pub open spec fn tree_lines(v: Seq<TreeLine>) -> Seq<TreeLineModel> {
    v.map_values(|l: TreeLine| l@)
}

/// A package that is yet to be shown, and how deep in the tree.
struct Entry {
    name: String,
    depth: usize,
}

#[verifier::ext_equal]
pub struct EntryModel {
    pub name: Seq<char>,
    pub depth: nat,
}

impl View for Entry {
    type V = EntryModel;

    closed spec fn view(&self) -> EntryModel {
        EntryModel { name: self.name@, depth: self.depth as nat }
    }
}

spec fn entries(v: Seq<Entry>) -> Seq<EntryModel> {
    v.map_values(|e: Entry| e@)
}

/// A tree that is being drawn.
pub struct Tree {
    seen: Vec<String>,
    work: Vec<Entry>,
    lines: Vec<TreeLine>,
}

#[verifier::ext_equal]
pub struct TreeModel {
    /// The packages whose records have been looked at, in that order.
    pub seen: Seq<Seq<char>>,
    /// What is yet to be shown: the next is the last.
    pub work: Seq<EntryModel>,
    /// The lines so far.
    pub lines: Seq<TreeLineModel>,
}

impl View for Tree {
    type V = TreeModel;

    closed spec fn view(&self) -> TreeModel {
        TreeModel {
            seen: texts(self.seen@),
            work: entries(self.work@),
            lines: tree_lines(self.lines@),
        }
    }
}

pub open spec fn tree_line(kind: TreeKind, e: EntryModel, version: Seq<char>) -> TreeLineModel {
    TreeLineModel { kind, depth: e.depth, name: e.name, version }
}

/// The tree with what comes next settled, as long as that is a package that was shown
/// above: it is not shown again.
pub open spec fn settled(st: TreeModel) -> TreeModel
    decreases st.work.len(),
{
    if st.work.len() > 0 && st.seen.contains(st.work.last().name) {
        let e = st.work.last();
        settled(
            TreeModel {
                seen: st.seen,
                work: st.work.drop_last(),
                lines: st.lines.push(tree_line(TreeKind::Repeated, e, seq![])),
            },
        )
    } else {
        st
    }
}

/// The tree at its beginning.
pub open spec fn tree_begin(name: Seq<char>) -> TreeModel {
    TreeModel { seen: seq![], work: seq![EntryModel { name, depth: 0 }], lines: seq![] }
}

/// The package whose record is needed next.
pub open spec fn tree_request(st: TreeModel) -> Option<Seq<char>> {
    if st.work.len() == 0 {
        None
    } else {
        Some(st.work.last().name)
    }
}

/// What is to be shown below a package, the first last.
pub open spec fn children(names: Seq<Seq<char>>, depth: nat) -> Seq<EntryModel> {
    Seq::new(
        names.len(),
        |i: int| EntryModel { name: names[names.len() - 1 - i], depth: depth + 1 },
    )
}

/// The tree with one more line, for what comes next.
pub open spec fn with_record(st: TreeModel, record: Option<InstalledModel>) -> TreeModel {
    let e = st.work.last();
    let rest = st.work.drop_last();
    let seen = st.seen.push(e.name);
    match record {
        Some(p) => TreeModel {
            seen,
            work: rest + children(dependencies(p.depends), e.depth),
            lines: st.lines.push(tree_line(TreeKind::Installed, e, p.version)),
        },
        None => TreeModel {
            seen,
            work: rest,
            lines: st.lines.push(tree_line(TreeKind::Missing, e, seq![])),
        },
    }
}

/// The tree once the record that was needed is there, if there is one.
pub open spec fn tree_next(st: TreeModel, record: Option<InstalledModel>) -> TreeModel {
    settled(with_record(st, record))
}

/// The packages that the lines of a tree show for the first time.
pub open spec fn shown(ls: Seq<TreeLineModel>) -> Seq<Seq<char>>
    decreases ls.len(),
{
    if ls.len() == 0 {
        seq![]
    } else if ls.last().kind == TreeKind::Repeated {
        shown(ls.drop_last())
    } else {
        shown(ls.drop_last()).push(ls.last().name)
    }
}

/// What holds of every tree: no package is shown twice, one that is pointed to was shown
/// above, what comes next was not, and nothing is deeper than there are packages.
pub open spec fn tree_valid(st: TreeModel) -> bool {
    &&& st.seen.no_duplicates()
    &&& shown(st.lines) == st.seen
    &&& forall|i: int|
        0 <= i < st.lines.len() && (#[trigger] st.lines[i]).kind == TreeKind::Repeated ==> shown(
            st.lines.take(i),
        ).contains(st.lines[i].name)
    &&& forall|i: int| 0 <= i < st.work.len() ==> (#[trigger] st.work[i]).depth <= st.seen.len()
    &&& st.work.len() > 0 ==> !st.seen.contains(st.work.last().name)
}

/// Draws the tree of a package, once its record has been asked for.
pub fn cmd_depends(name: &str) -> (r: Tree)
    ensures
        r@ == tree_begin(name@),
        tree_valid(r@),
{
    let mut work: Vec<Entry> = Vec::new();
    work.push(Entry { name: name.to_string(), depth: 0 });
    let r = Tree { seen: Vec::new(), work, lines: Vec::new() };
    assert(r@ =~= tree_begin(name@));
    r
}

/// The lines that one more line is added to are a part of the result.
proof fn lemma_shown_push(ls: Seq<TreeLineModel>, line: TreeLineModel)
    ensures
        shown(ls.push(line)) == if line.kind == TreeKind::Repeated {
            shown(ls)
        } else {
            shown(ls).push(line.name)
        },
{
    assert(ls.push(line).drop_last() =~= ls);
}

/// A tree that is valid but for what comes next.
spec fn tree_sound(st: TreeModel) -> bool {
    tree_valid(TreeModel { work: seq![], ..st }) && forall|i: int|
        0 <= i < st.work.len() ==> (#[trigger] st.work[i]).depth <= st.seen.len()
}

proof fn lemma_line(st: TreeModel, line: TreeLineModel)
    requires
        tree_sound(st),
        line.kind == TreeKind::Repeated ==> st.seen.contains(line.name),
        line.kind != TreeKind::Repeated ==> !st.seen.contains(line.name),
    ensures
        ({
            let seen = if line.kind == TreeKind::Repeated {
                st.seen
            } else {
                st.seen.push(line.name)
            };
            tree_sound(TreeModel { seen, work: seq![], lines: st.lines.push(line) })
        }),
{
    let ls = st.lines.push(line);
    lemma_shown_push(st.lines, line);
    assert forall|i: int| 0 <= i < ls.len() && (#[trigger] ls[i]).kind == TreeKind::Repeated implies shown(
        ls.take(i),
    ).contains(ls[i].name) by {
        if i < st.lines.len() {
            assert(ls.take(i) =~= st.lines.take(i));
            assert(st.lines[i].kind == TreeKind::Repeated);
        } else {
            assert(ls.take(i) =~= st.lines);
        }
    }
}

proof fn lemma_settled(st: TreeModel)
    requires
        tree_sound(st),
    ensures
        tree_valid(settled(st)),
    decreases st.work.len(),
{
    if st.work.len() > 0 && st.seen.contains(st.work.last().name) {
        let e = st.work.last();
        let line = tree_line(TreeKind::Repeated, e, seq![]);
        lemma_line(st, line);
        lemma_settled(
            TreeModel { seen: st.seen, work: st.work.drop_last(), lines: st.lines.push(line) },
        );
    }
}

/// Every tree stays valid.
pub proof fn tree_next_is_valid(st: TreeModel, record: Option<InstalledModel>)
    requires
        tree_valid(st),
        tree_request(st) is Some,
    ensures
        tree_valid(tree_next(st, record)),
{
    let rest = st.work.drop_last();
    let next = with_record(st, record);
    let work = next.work;
    lemma_line(st, next.lines.last());
    assert forall|i: int| 0 <= i < work.len() implies (#[trigger] work[i]).depth
        <= next.seen.len() by {
        if i < rest.len() {
            assert(st.work[i].depth <= st.seen.len());
        } else {
            assert(st.work[st.work.len() - 1].depth <= st.seen.len());
        }
    }
    lemma_settled(next);
}

impl Tree {
    /// The lines so far.
    pub fn lines(&self) -> (r: &Vec<TreeLine>)
        ensures
            tree_lines(r@) == self@.lines,
    {
        &self.lines
    }

    /// The package whose record is needed next; `None` once the tree is complete.
    pub fn request(&self) -> (r: Option<String>)
        ensures
            match r {
                Some(name) => tree_request(self@) == Some(name@),
                None => tree_request(self@) is None,
            },
    {
        if self.work.len() == 0 {
            None
        } else {
            assert(self@.work.last() == self.work@.last()@);
            Some(self.work[self.work.len() - 1].name.clone())
        }
    }

    fn next_is_seen(&self) -> (r: bool)
        ensures
            r == (self@.work.len() > 0 && self@.seen.contains(self@.work.last().name)),
    {
        if self.work.len() == 0 {
            return false;
        }
        assert(self@.work.last() == self.work@.last()@);
        has_text(&self.seen, self.work[self.work.len() - 1].name.as_str())
    }

    fn settle(&mut self)
        ensures
            final(self)@ == settled(old(self)@),
    {
        while self.next_is_seen()
            invariant
                settled(self@) == settled(old(self)@),
            decreases self.work@.len(),
        {
            let ghost before = self@;
            let ghost work = self.work@;
            assert(before.work.last() == work.last()@);
            if let Some(e) = self.work.pop() {
                let line = TreeLine {
                    kind: TreeKind::Repeated,
                    depth: e.depth,
                    name: e.name,
                    version: String::new(),
                };
                self.lines.push(line);
                proof {
                    assert(line@ =~= tree_line(TreeKind::Repeated, e@, seq![]));
                    assert(self@.lines =~= before.lines.push(line@));
                    assert(self@.work =~= before.work.drop_last());
                }
            }
        }
    }

    /// Takes in the record that was needed, if there is one.
    fn answer(&mut self, record: Option<&InstalledPkg>)
        requires
            tree_valid(old(self)@),
            tree_request(old(self)@) is Some,
        ensures
            final(self)@ == tree_next(
                old(self)@,
                match record {
                    Some(p) => Some(p@),
                    None => None,
                },
            ),
            tree_valid(final(self)@),
    {
        let ghost before = self@;
        let ghost work = self.work@;
        let ghost given = match record {
            Some(p) => Some(p@),
            None => None,
        };
        proof {
            tree_next_is_valid(before, given);
            assert(before.work.last() == work.last()@);
            assert(before.work[before.work.len() - 1].depth <= before.seen.len());
            assert(before.seen.len() == self.seen@.len());
        }
        if let Some(e) = self.work.pop() {
            self.seen.push(e.name.clone());
            proof {
                assert(self@.seen =~= before.seen.push(e@.name));
                assert(self@.work =~= before.work.drop_last());
            }
            match record {
                Some(p) => {
                    let line = TreeLine {
                        kind: TreeKind::Installed,
                        depth: e.depth,
                        name: e.name,
                        version: p.version.clone(),
                    };
                    self.lines.push(line);
                    assert(self@.lines =~= before.lines.push(line@));
                    assert(e.depth < self.seen.len());
                    self.push_children(&parse_depends(p.depends.as_str()), e.depth);
                },
                None => {
                    let line = TreeLine {
                        kind: TreeKind::Missing,
                        depth: e.depth,
                        name: e.name,
                        version: String::new(),
                    };
                    self.lines.push(line);
                    assert(line@ =~= tree_line(TreeKind::Missing, e@, seq![]));
                    assert(self@.lines =~= before.lines.push(line@));
                },
            }
            self.settle();
        }
    }

    fn push_children(&mut self, names: &Vec<String>, depth: usize)
        requires
            depth < usize::MAX,
        ensures
            final(self)@ == (TreeModel {
                work: old(self)@.work + children(texts(names@), depth as nat),
                ..old(self)@
            }),
    {
        let ghost all = children(texts(names@), depth as nat);
        let ghost before = self@;
        let mut i: usize = names.len();
        assert(self@.work =~= before.work + all.take(0));
        while i > 0
            invariant
                i <= names@.len(),
                depth < usize::MAX,
                all == children(texts(names@), depth as nat),
                self@.seen == before.seen,
                self@.lines == before.lines,
                self@.work == before.work + all.take(names@.len() - i),
            decreases i,
        {
            let ghost had = self.work@;
            i -= 1;
            let e = Entry { name: names[i].clone(), depth: depth + 1 };
            self.work.push(e);
            proof {
                let k = names@.len() - 1 - i;
                assert(texts(names@)[i as int] == names@[i as int]@);
                assert(all[k] == e@);
                assert(all.take(k + 1) =~= all.take(k).push(all[k]));
                assert(self@.work =~= entries(had).push(e@));
                assert(self@.work =~= before.work + all.take(k + 1));
            }
        }
        assert(all.take(names@.len() as int) =~= all);
        assert(self@ =~= TreeModel { work: before.work + all, ..before });
    }

    /// Takes in the text of the record that was needed, if there is one.
    pub fn read(&mut self, text: Option<&str>)
        requires
            tree_valid(old(self)@),
            tree_request(old(self)@) is Some,
        ensures
            final(self)@ == tree_next(
                old(self)@,
                match text {
                    Some(s) => Some(record_of(old(self)@.work.last().name, lines(s@))),
                    None => None,
                },
            ),
            tree_valid(final(self)@),
    {
        match text {
            Some(s) => {
                let name = self.request();
                if let Some(name) = name {
                    let p = read_installed(name.as_str(), s);
                    self.answer(Some(&p));
                }
            },
            None => self.answer(None),
        }
    }
}


// ---------------------------------------------------------------- laws

proof fn lemma_shown(ls: Seq<TreeLineModel>, i: int) -> (k: int)
    requires
        0 <= i < ls.len(),
        ls[i].kind != TreeKind::Repeated,
    ensures
        0 <= k < shown(ls).len(),
        shown(ls)[k] == ls[i].name,
        k == shown(ls.take(i)).len(),
    decreases ls.len(),
{
    let fewer = ls.drop_last();
    if i == fewer.len() {
        assert(ls.take(i) =~= fewer);
        shown(fewer).len() as int
    } else {
        let k = lemma_shown(fewer, i);
        assert(fewer.take(i) =~= ls.take(i));
        k
    }
}

proof fn lemma_shown_grows(ls: Seq<TreeLineModel>, i: int, j: int)
    requires
        0 <= i < j <= ls.len(),
        ls[i].kind != TreeKind::Repeated,
    ensures
        shown(ls.take(i)).len() < shown(ls.take(j)).len(),
    decreases j,
{
    let more = ls.take(j);
    assert(more.drop_last() =~= ls.take(j - 1));
    if i < j - 1 {
        lemma_shown_grows(ls, i, j - 1);
    }
}

/// A package is shown with its dependencies at most once, however often the tree comes to
/// it, and even if it depends on itself.
pub proof fn no_package_is_shown_twice(st: TreeModel, i: int, j: int)
    requires
        tree_valid(st),
        0 <= i < j < st.lines.len(),
        st.lines[i].kind != TreeKind::Repeated,
        st.lines[j].kind != TreeKind::Repeated,
    ensures
        st.lines[i].name != st.lines[j].name,
{
    lemma_shown(st.lines, i);
    lemma_shown(st.lines, j);
    lemma_shown_grows(st.lines, i, j);
}

/// A line that points back does so to a package that was shown above it.
pub proof fn a_repeated_package_was_shown_above(st: TreeModel, i: int)
    requires
        tree_valid(st),
        0 <= i < st.lines.len(),
        st.lines[i].kind == TreeKind::Repeated,
    ensures
        exists|k: int|
            0 <= k < i && (#[trigger] st.lines[k]).kind != TreeKind::Repeated && st.lines[k].name
                == st.lines[i].name,
{
    let k = lemma_shown_where(st.lines.take(i), st.lines[i].name);
    assert(st.lines[k] == st.lines.take(i)[k]);
}

proof fn lemma_shown_where(ls: Seq<TreeLineModel>, name: Seq<char>) -> (k: int)
    requires
        shown(ls).contains(name),
    ensures
        0 <= k < ls.len(),
        ls[k].kind != TreeKind::Repeated,
        ls[k].name == name,
    decreases ls.len(),
{
    if ls.last().kind != TreeKind::Repeated && ls.last().name == name {
        ls.len() - 1
    } else {
        let fewer = ls.drop_last();
        let i = choose|i: int| 0 <= i < shown(ls).len() && shown(ls)[i] == name;
        if i < shown(fewer).len() {
            assert(shown(fewer)[i] == name);
        }
        lemma_shown_where(fewer, name)
    }
}

/// All names in a tree are among the given ones.
pub open spec fn tree_within(st: TreeModel, names: Set<Seq<char>>) -> bool {
    &&& forall|i: int| 0 <= i < st.seen.len() ==> names.contains(#[trigger] st.seen[i])
    &&& forall|i: int| 0 <= i < st.work.len() ==> names.contains((#[trigger] st.work[i]).name)
}

/// A tree comes to an end: of finitely many packages it asks for each at most once, so it
/// asks no more often than there are packages.
pub proof fn a_tree_comes_to_an_end(
    st: TreeModel,
    record: Option<InstalledModel>,
    names: Set<Seq<char>>,
)
    requires
        tree_valid(st),
        tree_request(st) is Some,
        names.finite(),
        tree_within(st, names),
        record matches Some(p) ==> forall|i: int|
            0 <= i < dependencies(p.depends).len() ==> names.contains(
                #[trigger] dependencies(p.depends)[i],
            ),
    ensures
        st.seen.len() < names.len(),
        tree_next(st, record).seen.len() == st.seen.len() + 1,
        tree_within(tree_next(st, record), names),
{
    let e = st.work.last();
    let more = st.seen.push(e.name);
    assert(names.contains(st.work[st.work.len() - 1].name));
    assert(more.no_duplicates()) by {
        assert forall|i: int| 0 <= i < st.seen.len() implies st.seen[i] != e.name by {
            assert(st.seen.contains(st.seen[i]));
        }
    }
    more.unique_seq_to_set();
    assert forall|n: Seq<char>| more.to_set().contains(n) implies names.contains(n) by {
        let i = choose|i: int| 0 <= i < more.len() && more[i] == n;
        if i < st.seen.len() {
            assert(names.contains(st.seen[i]));
        }
    }
    vstd::set_lib::lemma_len_subset(more.to_set(), names);
    let next = with_record(st, record);
    let work = next.work;
    assert forall|i: int| 0 <= i < work.len() implies names.contains((#[trigger] work[i]).name) by {
        if i < st.work.len() - 1 {
            assert(names.contains(st.work[i].name));
        }
    }
    lemma_settled_within(next, names);
}

proof fn lemma_settled_within(st: TreeModel, names: Set<Seq<char>>)
    requires
        tree_within(st, names),
    ensures
        tree_within(settled(st), names),
        settled(st).seen == st.seen,
    decreases st.work.len(),
{
    if st.work.len() > 0 && st.seen.contains(st.work.last().name) {
        let e = st.work.last();
        let line = tree_line(TreeKind::Repeated, e, seq![]);
        lemma_settled_within(
            TreeModel { seen: st.seen, work: st.work.drop_last(), lines: st.lines.push(line) },
            names,
        );
    }
}

/// The tree after some records.
pub open spec fn tree_run(name: Seq<char>, records: Seq<Option<InstalledModel>>) -> TreeModel
    decreases records.len(),
{
    if records.len() == 0 {
        tree_begin(name)
    } else {
        tree_next(tree_run(name, records.drop_last()), records.last())
    }
}

proof fn lemma_settled_keeps(st: TreeModel)
    requires
        st.lines.len() > 0,
    ensures
        settled(st).lines.len() > 0,
        settled(st).lines[0] == st.lines[0],
    decreases st.work.len(),
{
    if st.work.len() > 0 && st.seen.contains(st.work.last().name) {
        let e = st.work.last();
        let line = tree_line(TreeKind::Repeated, e, seq![]);
        lemma_settled_keeps(
            TreeModel { seen: st.seen, work: st.work.drop_last(), lines: st.lines.push(line) },
        );
    }
}

/// The first line of a tree is the package that was asked for.
pub proof fn a_tree_begins_with_its_package(
    name: Seq<char>,
    records: Seq<Option<InstalledModel>>,
)
    requires
        records.len() > 0,
    ensures
        ({
            let ls = tree_run(name, records).lines;
            &&& ls.len() > 0
            &&& ls[0].name == name
            &&& ls[0].depth == 0
            &&& ls[0].kind == if records[0] is Some {
                TreeKind::Installed
            } else {
                TreeKind::Missing
            }
        }),
    decreases records.len(),
{
    reveal_with_fuel(tree_run, 2);
    let before = tree_run(name, records.drop_last());
    if records.len() > 1 {
        a_tree_begins_with_its_package(name, records.drop_last());
    }
    lemma_settled_keeps(with_record(before, records.last()));
}


/// A package at some depth has a line, or is yet to get one.
spec fn accounted(st: TreeModel, e: EntryModel) -> bool {
    shows(st.lines, e) || st.work.contains(e)
}

/// A package at some depth has a line.
pub open spec fn shows(ls: Seq<TreeLineModel>, e: EntryModel) -> bool {
    exists|i: int| 0 <= i < ls.len() && (#[trigger] ls[i]).name == e.name && ls[i].depth == e.depth
}

/// A line for what comes next leaves everything accounted for.
proof fn lemma_accounted_line(
    st: TreeModel,
    kind: TreeKind,
    version: Seq<char>,
    next: TreeModel,
    e: EntryModel,
)
    requires
        st.work.len() > 0,
        accounted(st, e),
        next.lines == st.lines.push(tree_line(kind, st.work.last(), version)),
        forall|x: EntryModel| st.work.drop_last().contains(x) ==> #[trigger] next.work.contains(x),
    ensures
        accounted(next, e),
{
    if shows(st.lines, e) {
        let i = choose|i: int|
            0 <= i < st.lines.len() && (#[trigger] st.lines[i]).name == e.name && st.lines[i].depth
                == e.depth;
        assert(next.lines[i] == st.lines[i]);
    } else {
        let j = choose|j: int| 0 <= j < st.work.len() && st.work[j] == e;
        if j == st.work.len() - 1 {
            assert(next.lines[next.lines.len() - 1].name == e.name);
        } else {
            assert(st.work.drop_last()[j] == e);
            assert(st.work.drop_last().contains(e));
        }
    }
}

proof fn lemma_accounted_settled(st: TreeModel, e: EntryModel)
    requires
        accounted(st, e),
    ensures
        accounted(settled(st), e),
    decreases st.work.len(),
{
    if st.work.len() > 0 && st.seen.contains(st.work.last().name) {
        let line = tree_line(TreeKind::Repeated, st.work.last(), seq![]);
        let next = TreeModel {
            seen: st.seen,
            work: st.work.drop_last(),
            lines: st.lines.push(line),
        };
        lemma_accounted_line(st, TreeKind::Repeated, seq![], next, e);
        lemma_accounted_settled(next, e);
    }
}

proof fn lemma_accounted_next(st: TreeModel, record: Option<InstalledModel>, e: EntryModel)
    requires
        st.work.len() > 0,
        accounted(st, e),
    ensures
        accounted(tree_next(st, record), e),
{
    let next = with_record(st, record);
    let rest = st.work.drop_last();
    assert forall|x: EntryModel| rest.contains(x) implies #[trigger] next.work.contains(x) by {
        let j = choose|j: int| 0 <= j < rest.len() && rest[j] == x;
        assert(next.work[j] == x);
    }
    match record {
        Some(p) => lemma_accounted_line(st, TreeKind::Installed, p.version, next, e),
        None => lemma_accounted_line(st, TreeKind::Missing, seq![], next, e),
    }
    lemma_accounted_settled(next, e);
}

/// Each record was asked for.
pub open spec fn tree_asked(name: Seq<char>, records: Seq<Option<InstalledModel>>) -> bool
    decreases records.len(),
{
    records.len() > 0 ==> {
        &&& tree_asked(name, records.drop_last())
        &&& tree_request(tree_run(name, records.drop_last())) is Some
    }
}

proof fn lemma_accounted_run(
    name: Seq<char>,
    records: Seq<Option<InstalledModel>>,
    k: int,
    d: int,
)
    requires
        tree_asked(name, records),
        0 <= k < records.len(),
        records[k] matches Some(p) && 0 <= d < dependencies(p.depends).len(),
    ensures
        accounted(
            tree_run(name, records),
            EntryModel {
                name: dependencies(records[k]->0.depends)[d],
                depth: tree_run(name, records.take(k)).work.last().depth + 1,
            },
        ),
    decreases records.len(),
{
    let fewer = records.drop_last();
    let before = tree_run(name, fewer);
    let p = records[k]->0;
    let deps = dependencies(p.depends);
    let e = EntryModel {
        name: deps[d],
        depth: tree_run(name, records.take(k)).work.last().depth + 1,
    };
    if k == fewer.len() {
        assert(records.take(k) =~= fewer);
        let next = with_record(before, records.last());
        let j = before.work.len() - 1 + (deps.len() - 1 - d);
        assert(next.work[j] == e);
        lemma_accounted_settled(next, e);
    } else {
        assert(fewer.take(k) =~= records.take(k));
        assert(fewer[k] == records[k]);
        lemma_accounted_run(name, fewer, k, d);
        lemma_accounted_next(before, records.last(), e);
    }
}

/// Once a tree is complete, each dependency of each installed package in it has a line, one
/// level below that package.
pub proof fn every_dependency_is_shown(
    name: Seq<char>,
    records: Seq<Option<InstalledModel>>,
    k: int,
    d: int,
)
    requires
        tree_asked(name, records),
        tree_request(tree_run(name, records)) is None,
        0 <= k < records.len(),
        records[k] matches Some(p) && 0 <= d < dependencies(p.depends).len(),
    ensures
        shows(
            tree_run(name, records).lines,
            EntryModel {
                name: dependencies(records[k]->0.depends)[d],
                depth: tree_run(name, records.take(k)).work.last().depth + 1,
            },
        ),
{
    lemma_accounted_run(name, records, k, d);
}

/// What settling adds are lines that point back, for what was to come next; it takes nothing
/// away but that.
proof fn lemma_settled_adds(st: TreeModel)
    ensures
        ({
            let next = settled(st);
            &&& next.seen == st.seen
            &&& next.work.len() <= st.work.len()
            &&& next.work.len() > 0 ==> !st.seen.contains(next.work.last().name)
            &&& forall|i: int| 0 <= i < next.work.len() ==> #[trigger] next.work[i] == st.work[i]
            &&& next.lines.len() == st.lines.len() + (st.work.len() - next.work.len())
            &&& forall|i: int| 0 <= i < st.lines.len() ==> #[trigger] next.lines[i] == st.lines[i]
            &&& forall|j: int|
                0 <= j < st.work.len() - next.work.len() ==> #[trigger] next.lines[st.lines.len() + j]
                    == tree_line(TreeKind::Repeated, st.work[st.work.len() - 1 - j], seq![])
            &&& forall|j: int|
                next.work.len() <= j < st.work.len() ==> st.seen.contains((#[trigger] st.work[j]).name)
        }),
    decreases st.work.len(),
{
    if st.work.len() > 0 && st.seen.contains(st.work.last().name) {
        let e = st.work.last();
        let less = TreeModel {
            seen: st.seen,
            work: st.work.drop_last(),
            lines: st.lines.push(tree_line(TreeKind::Repeated, e, seq![])),
        };
        lemma_settled_adds(less);
        let next = settled(st);
        assert forall|j: int| 0 <= j < st.work.len() - next.work.len() implies #[trigger] next.lines[
            st.lines.len() + j] == tree_line(
            TreeKind::Repeated,
            st.work[st.work.len() - 1 - j],
            seq![],
        ) by {
            if j == 0 {
                assert(next.lines[st.lines.len() as int] == less.lines[st.lines.len() as int]);
            } else {
                assert(next.lines[less.lines.len() + (j - 1)] == tree_line(
                    TreeKind::Repeated,
                    less.work[less.work.len() - 1 - (j - 1)],
                    seq![],
                ));
            }
        }
        assert forall|i: int| 0 <= i < st.lines.len() implies #[trigger] next.lines[i] == st.lines[i] by {
            assert(next.lines[i] == less.lines[i]);
        }
        assert forall|j: int| next.work.len() <= j < st.work.len() implies st.seen.contains(
            (#[trigger] st.work[j]).name,
        ) by {
            if j < less.work.len() {
                assert(less.work[j] == st.work[j]);
            }
        }
    }
}

/// Each package that a record was asked for gets a line at its depth: with the version that its
/// record gives, if it is installed, and as missing, if it has no record. The lines above stay
/// as they are. Below an installed package come its own dependencies, from the first on and one
/// level deeper, before anything else: the first of them is asked for next, or pointed back to,
/// if it was shown above.
pub proof fn what_a_record_adds_to_a_tree(st: TreeModel, record: Option<InstalledModel>)
    requires
        tree_valid(st),
        tree_request(st) is Some,
    ensures
        ({
            let e = st.work.last();
            let next = tree_next(st, record);
            let n = st.lines.len() as int;
            &&& tree_request(st) == Some(e.name)
            &&& next.lines.len() > n
            &&& forall|i: int| 0 <= i < n ==> #[trigger] next.lines[i] == st.lines[i]
            &&& next.lines[n].name == e.name && next.lines[n].depth == e.depth
            &&& match record {
                Some(p) => {
                    let deps = dependencies(p.depends);
                    &&& next.lines[n].kind == TreeKind::Installed && next.lines[n].version
                        == p.version
                    &&& deps.len() > 0 && deps[0] != e.name && !st.seen.contains(deps[0])
                        ==> tree_request(next) == Some(deps[0]) && next.work.last().depth == e.depth
                        + 1
                    &&& deps.len() > 0 && (deps[0] == e.name || st.seen.contains(deps[0])) ==> {
                        &&& next.lines.len() > n + 1
                        &&& next.lines[n + 1].kind == TreeKind::Repeated
                        &&& next.lines[n + 1].name == deps[0] && next.lines[n + 1].depth == e.depth
                            + 1
                    }
                },
                None => next.lines[n].kind == TreeKind::Missing && next.work.len() < st.work.len(),
            }
        }),
{
    let e = st.work.last();
    let mid = with_record(st, record);
    let n = st.lines.len() as int;
    lemma_settled_adds(mid);
    let next = tree_next(st, record);
    assert(next.lines[n] == mid.lines[n]);
    assert forall|i: int| 0 <= i < n implies #[trigger] next.lines[i] == st.lines[i] by {
        assert(next.lines[i] == mid.lines[i]);
    }
    if let Some(p) = record {
        let deps = dependencies(p.depends);
        if deps.len() > 0 {
            assert(mid.work.last() == EntryModel { name: deps[0], depth: e.depth + 1 });
            assert(mid.seen == st.seen.push(e.name));
            if deps[0] == e.name || st.seen.contains(deps[0]) {
                assert(mid.seen.contains(deps[0])) by {
                    if deps[0] == e.name {
                        assert(mid.seen[st.seen.len() as int] == e.name);
                    } else {
                        let k = choose|k: int| 0 <= k < st.seen.len() && st.seen[k] == deps[0];
                        assert(mid.seen[k] == deps[0]);
                    }
                }
                if next.work.len() == mid.work.len() {
                    assert(next.work[next.work.len() - 1] == mid.work[mid.work.len() - 1]);
                }
                assert(next.lines[mid.lines.len() + 0int] == tree_line(
                    TreeKind::Repeated,
                    mid.work[mid.work.len() - 1],
                    seq![],
                ));
            } else {
                assert(!mid.seen.contains(deps[0])) by {
                    if mid.seen.contains(deps[0]) {
                        let k = choose|k: int| 0 <= k < mid.seen.len() && mid.seen[k] == deps[0];
                        if k < st.seen.len() {
                            assert(st.seen[k] == deps[0]);
                        }
                    }
                }
                assert(next == mid);
            }
        }
    }
}

/// Whether a record lists a package among its dependencies.
pub open spec fn record_lists(record: Option<InstalledModel>, name: Seq<char>) -> bool {
    record matches Some(p) && dependencies(p.depends).contains(name)
}

/// A package has its place in a tree: it is the one that was asked for, or a dependency of one
/// whose record was read, one level below that.
pub open spec fn belongs(
    name: Seq<char>,
    records: Seq<Option<InstalledModel>>,
    e: EntryModel,
) -> bool {
    ||| e.name == name && e.depth == 0
    ||| exists|k: int|
        0 <= k < records.len() && record_lists(#[trigger] records[k], e.name) && e.depth
            == tree_run(name, records.take(k)).work.last().depth + 1
}

/// A tree shows nothing but the package that was asked for and what lists of dependencies bring
/// in, each at its depth.
pub proof fn nothing_else_is_shown(
    name: Seq<char>,
    records: Seq<Option<InstalledModel>>,
    i: int,
)
    requires
        tree_asked(name, records),
        0 <= i < tree_run(name, records).lines.len(),
    ensures
        ({
            let l = tree_run(name, records).lines[i];
            belongs(name, records, EntryModel { name: l.name, depth: l.depth })
        }),
{
    lemma_all_belong(name, records);
}

proof fn lemma_belongs_more(
    name: Seq<char>,
    records: Seq<Option<InstalledModel>>,
    e: EntryModel,
)
    requires
        records.len() > 0,
        belongs(name, records.drop_last(), e),
    ensures
        belongs(name, records, e),
{
    let fewer = records.drop_last();
    if !(e.name == name && e.depth == 0) {
        let k = choose|k: int|
            0 <= k < fewer.len() && record_lists(#[trigger] fewer[k], e.name) && e.depth == tree_run(
                name,
                fewer.take(k),
            ).work.last().depth + 1;
        assert(fewer.take(k) =~= records.take(k));
        assert(record_lists(records[k], e.name));
    }
}

proof fn lemma_all_belong(name: Seq<char>, records: Seq<Option<InstalledModel>>)
    requires
        tree_asked(name, records),
    ensures
        forall|i: int|
            0 <= i < tree_run(name, records).lines.len() ==> {
                let l = #[trigger] tree_run(name, records).lines[i];
                belongs(name, records, EntryModel { name: l.name, depth: l.depth })
            },
        forall|i: int|
            0 <= i < tree_run(name, records).work.len() ==> belongs(
                name,
                records,
                #[trigger] tree_run(name, records).work[i],
            ),
    decreases records.len(),
{
    if records.len() > 0 {
        let fewer = records.drop_last();
        let last = records.len() - 1;
        lemma_all_belong(name, fewer);
        let st = tree_run(name, fewer);
        let record = records.last();
        let e = st.work.last();
        let mid = with_record(st, record);
        let next = tree_run(name, records);
        lemma_settled_adds(mid);
        assert(records.take(last) =~= fewer);
        assert forall|j: int| 0 <= j < mid.work.len() implies belongs(
            name,
            records,
            #[trigger] mid.work[j],
        ) by {
            if j < st.work.len() - 1 {
                assert(mid.work[j] == st.work[j]);
                lemma_belongs_more(name, records, st.work[j]);
            } else {
                let p = record->0;
                let deps = dependencies(p.depends);
                let c = j - (st.work.len() - 1);
                assert(mid.work[j] == children(deps, e.depth)[c]);
                assert(deps.contains(deps[deps.len() - 1 - c]));
                assert(record_lists(records[last], mid.work[j].name));
            }
        }
        assert forall|i: int| 0 <= i < next.work.len() implies belongs(
            name,
            records,
            #[trigger] next.work[i],
        ) by {
            assert(next.work[i] == mid.work[i]);
        }
        assert forall|i: int| 0 <= i < next.lines.len() implies ({
            let l = #[trigger] next.lines[i];
            belongs(name, records, EntryModel { name: l.name, depth: l.depth })
        }) by {
            if i < st.lines.len() {
                assert(next.lines[i] == mid.lines[i]);
                let l = st.lines[i];
                lemma_belongs_more(name, records, EntryModel { name: l.name, depth: l.depth });
            } else if i == st.lines.len() {
                assert(next.lines[i] == mid.lines[i]);
                assert(belongs(name, fewer, st.work[st.work.len() - 1]));
                lemma_belongs_more(name, records, e);
            } else {
                let j = i - mid.lines.len();
                assert(next.lines[mid.lines.len() + j] == tree_line(
                    TreeKind::Repeated,
                    mid.work[mid.work.len() - 1 - j],
                    seq![],
                ));
                assert(belongs(name, records, mid.work[mid.work.len() - 1 - j]));
            }
        }
    }
}

} // verus!
