//! The database of installed packages: one record per package, a text file each.

use crate::control::{control_of, parsed_control_carries, ControlMeta, ControlModel};
use crate::fields::{
    field, is_key, last_set, lemma_field_push, lemma_setting_puts, push_setting, puts_line,
    read_setting, setting_line,
};
use crate::std_text::{from_utf8_lossy, lossy};
use crate::text::{
    before, begins, chars_of, ends, ends_with, equal, has_text, is_space, is_text, lines, pieces,
    slices, split, split_lines, string_of, strip_trailing, take_before, texts, trim, trimmed, until,
    without_trailing,
};
use crate::text_lemmas::{
    is_trimmed, lemma_first_piece, lemma_lines_concat, lemma_lines_cons, lemma_lines_hold_no_feed,
    lemma_one_piece, lemma_trimmed, lemma_trimmed_end, lemma_trimmed_fixed, lemma_trimmed_push,
    lemma_until, lemma_until_is, only_trailing_separators_go,
};
use vstd::prelude::*;
use vstd::slice::slice_subrange;
use vstd::string::*;
use vstd::utf8::{decode_utf8, valid_utf8};

verus! {

/// What the database knows of a package.
pub struct InstalledPkg {
    pub name: String,
    pub version: String,
    pub depends: String,
    pub files: Vec<String>,
}

/// What an [`InstalledPkg`] holds.
pub struct InstalledModel {
    pub name: Seq<char>,
    pub version: Seq<char>,
    pub depends: Seq<char>,
    pub files: Seq<Seq<char>>,
}

impl View for InstalledPkg {
    type V = InstalledModel;

    open spec fn view(&self) -> InstalledModel {
        InstalledModel {
            name: self.name@,
            version: self.version@,
            depends: self.depends@,
            files: texts(self.files@),
        }
    }
}

/// What a list of packages holds.
pub open spec fn packages(v: Seq<InstalledPkg>) -> Seq<InstalledModel> {
    v.map_values(|p: InstalledPkg| p@)
}

// ---------------------------------------------------------------- places

/// The directory of the database of the system below `root`.
pub open spec fn db_dir(root: Seq<char>) -> Seq<char> {
    without_trailing(root, '/') + "/var/lib/spk/installed"@
}

/// The record of a package.
pub open spec fn db_path(root: Seq<char>, name: Seq<char>) -> Seq<char> {
    db_dir(root) + "/"@ + name
}

/// The directory of the database of the system below `root`.
pub fn installed_db_dir(root: &str) -> (r: String)
    ensures
        r@ == db_dir(root@),
{
    let root = chars_of(root);
    let mut r = string_of(strip_trailing(root.as_slice(), '/'));
    r.append("/var/lib/spk/installed");
    r
}

/// The record of a package.
pub fn installed_db_path(root: &str, name: &str) -> (r: String)
    ensures
        r@ == db_path(root@, name@),
{
    let mut r = installed_db_dir(root);
    r.append("/");
    r.append(name);
    r
}

/// Whether a package is installed, given the paths that exist: its record does.
pub fn is_installed(root: &str, name: &str, existing: &Vec<String>) -> (r: bool)
    ensures
        r == texts(existing@).contains(db_path(root@, name@)),
{
    has_text(existing, installed_db_path(root, name).as_str())
}

// ---------------------------------------------------------------- records

/// Whether a line opens the list of files.
pub open spec fn opens_files(line: Seq<char>) -> bool {
    trimmed(line) == "files:"@
}

/// How many lines stand before the one that opens the list of files.
pub open spec fn header_length(ls: Seq<Seq<char>>) -> nat
    decreases ls.len(),
{
    if ls.len() == 0 || opens_files(ls[0]) {
        0
    } else {
        1 + header_length(ls.drop_first())
    }
}

/// The lines that are not empty.
pub open spec fn nonempty(ls: Seq<Seq<char>>) -> Seq<Seq<char>>
    decreases ls.len(),
{
    if ls.len() == 0 {
        seq![]
    } else if ls.last().len() == 0 {
        nonempty(ls.drop_last())
    } else {
        nonempty(ls.drop_last()).push(ls.last())
    }
}

/// What the record of a package says, given the record's lines.
pub open spec fn record_of(name: Seq<char>, ls: Seq<Seq<char>>) -> InstalledModel {
    let n = header_length(ls) as int;
    InstalledModel {
        name,
        version: field(ls.take(n), "version"@),
        depends: field(ls.take(n), "depends"@),
        files: if n < ls.len() {
            nonempty(ls.skip(n + 1))
        } else {
            seq![]
        },
    }
}

/// Reads the record of a package.
pub fn read_installed(name: &str, text: &str) -> (r: InstalledPkg)
    ensures
        r@ == record_of(name@, lines(text@)),
{
    let mut version = String::new();
    let mut depends = String::new();
    let mut files: Vec<String> = Vec::new();
    let chars = chars_of(text);
    let ls = split_lines(chars.as_slice());
    let ghost all = lines(text@);
    let mut i: usize = 0;
    assert(all.skip(0) == all);
    proof {
        assert("version"@ != "depends"@) by {
            reveal_strlit("version");
            reveal_strlit("depends");
            assert("version"@[0] != "depends"@[0]);
        }
    }
    while i < ls.len() && !is_text(trim(ls[i]), "files:")
        invariant
            i <= ls@.len(),
            slices(ls@) == all,
            all.len() == ls@.len(),
            "version"@ != "depends"@,
            header_length(all) == i + header_length(all.skip(i as int)),
            version@ == field(all.take(i as int), "version"@),
            depends@ == field(all.take(i as int), "depends"@),
        decreases ls@.len() - i,
    {
        let line = ls[i];
        proof {
            assert(all[i as int] == line@);
            assert(all.skip(i as int).drop_first() == all.skip(i + 1));
            let seen = all.take(i as int);
            assert(all.take(i + 1) == seen.push(line@));
            lemma_field_push(seen, line@, "version"@);
            lemma_field_push(seen, line@, "depends"@);
        }
        if let Some((k, v)) = read_setting(line) {
            if is_text(k, "version") {
                version = string_of(v);
            } else if is_text(k, "depends") {
                depends = string_of(v);
            }
        }
        i += 1;
    }
    let ghost n = i as int;
    proof {
        if i < ls.len() {
            assert(all[i as int] == ls@[i as int]@);
            assert(opens_files(all.skip(n)[0]));
        }
        assert(header_length(all) == n);
    }
    if i < ls.len() {
        i += 1;
        let ghost rest = all.skip(n + 1);
        assert(texts(files@) =~= nonempty(rest.take(0)));
        while i < ls.len()
            invariant
                n + 1 <= i <= ls@.len(),
                slices(ls@) == all,
                all.len() == ls@.len(),
                0 <= n,
                rest == all.skip(n + 1),
                texts(files@) == nonempty(rest.take(i - (n + 1))),
            decreases ls@.len() - i,
        {
            let line = ls[i];
            let ghost k = i - (n + 1);
            proof {
                assert(all[i as int] == line@);
                assert(rest[k] == line@);
                assert(rest.take(k + 1).drop_last() == rest.take(k));
            }
            if line.len() > 0 {
                let file = string_of(line);
                let ghost had = files@;
                files.push(file);
                assert(texts(files@) =~= texts(had).push(file@));
            }
            i += 1;
        }
        assert(rest.take(i - (n + 1)) == rest);
    } else {
        assert(texts(files@) =~= seq![]);
    }
    InstalledPkg { name: name.to_string(), version, depends, files }
}

/// The list of files of a record, one to a line.
pub open spec fn files_text(files: Seq<Seq<char>>) -> Seq<char>
    decreases files.len(),
{
    if files.len() == 0 {
        seq![]
    } else {
        files_text(files.drop_last()) + files.last() + "\n"@
    }
}

/// The record of a package.
pub open spec fn record_text(m: ControlModel, files: Seq<Seq<char>>) -> Seq<char> {
    setting_line("version"@, m.version) + setting_line("architecture"@, m.architecture)
        + setting_line("depends"@, m.depends) + "files:\n"@ + files_text(files)
}

/// A record that is to be written: its directory must exist first.
pub struct RecordWrite {
    pub dir: String,
    pub path: String,
    pub content: String,
}

/// The record of a package that has been installed below `root`, and where it goes.
pub fn write_installed_record(root: &str, meta: &ControlMeta, files: &Vec<String>) -> (r:
    RecordWrite)
    ensures
        r.dir@ == db_dir(root@),
        r.path@ == db_path(root@, meta.name@),
        r.content@ == record_text(meta@, texts(files@)),
{
    let mut out = String::new();
    push_setting(&mut out, "version", meta.version.as_str());
    push_setting(&mut out, "architecture", meta.architecture.as_str());
    push_setting(&mut out, "depends", meta.depends.as_str());
    out.append("files:\n");
    let ghost head = out@;
    let ghost all = texts(files@);
    let mut i: usize = 0;
    assert(out@ =~= head + files_text(all.take(0)));
    while i < files.len()
        invariant
            i <= files@.len(),
            all == texts(files@),
            all.len() == files@.len(),
            out@ == head + files_text(all.take(i as int)),
        decreases files@.len() - i,
    {
        out.append(files[i].as_str());
        out.append("\n");
        proof {
            assert(all[i as int] == files@[i as int]@);
            assert(all.take(i + 1).drop_last() == all.take(i as int));
            assert(out@ =~= head + files_text(all.take(i + 1)));
        }
        i += 1;
    }
    assert(all.take(i as int) == all);
    assert(out@ =~= record_text(meta@, all));
    RecordWrite {
        dir: installed_db_dir(root),
        path: installed_db_path(root, meta.name.as_str()),
        content: out,
    }
}

// ---------------------------------------------------------------- archive members

/// A path without the `./` in front of it, however many there are.
pub open spec fn without_dots(s: Seq<char>) -> Seq<char>
    decreases s.len(),
{
    if s.len() >= 2 && s[0] == '.' && s[1] == '/' {
        without_dots(s.skip(2))
    } else {
        s
    }
}

/// Whether a member of an archive is a file of the package: blank names, the archive's
/// own directory and every other directory are not.
pub open spec fn is_member_file(line: Seq<char>) -> bool {
    trimmed(line).len() > 0 && line != "."@ && !ends(line, "/"@)
}

/// The files among the members of an archive.
pub open spec fn member_files(ls: Seq<Seq<char>>) -> Seq<Seq<char>>
    decreases ls.len(),
{
    if ls.len() == 0 {
        seq![]
    } else if is_member_file(ls.last()) {
        member_files(ls.drop_last()).push(without_dots(ls.last()))
    } else {
        member_files(ls.drop_last())
    }
}

fn strip_dots(s: &[char]) -> (r: &[char])
    ensures
        r@ == without_dots(s@),
{
    let mut i: usize = 0;
    assert(s@.skip(0) == s@);
    while s.len() - i >= 2 && s[i] == '.' && s[i + 1] == '/'
        invariant
            i <= s@.len(),
            without_dots(s@) == without_dots(s@.skip(i as int)),
        decreases s@.len() - i,
    {
        assert(s@.skip(i as int).skip(2) == s@.skip(i + 2));
        i += 2;
    }
    assert(s@.skip(i as int) == s@.subrange(i as int, s@.len() as int));
    slice_subrange(s, i, s.len())
}

/// Reads the list of an archive's members.
pub fn parse_members(text: &str) -> (r: Vec<String>)
    ensures
        texts(r@) == member_files(lines(text@)),
{
    let mut r: Vec<String> = Vec::new();
    let chars = chars_of(text);
    let ls = split_lines(chars.as_slice());
    let ghost all = lines(text@);
    let mut i: usize = 0;
    assert(texts(r@) =~= member_files(all.take(0)));
    while i < ls.len()
        invariant
            i <= ls@.len(),
            slices(ls@) == all,
            all.len() == ls@.len(),
            texts(r@) == member_files(all.take(i as int)),
        decreases ls@.len() - i,
    {
        let line = ls[i];
        proof {
            assert(all[i as int] == line@);
            assert(all.take(i + 1).drop_last() == all.take(i as int));
        }
        if trim(line).len() > 0 && !is_text(line, ".") && !ends_with(line, "/") {
            let ghost had = r@;
            let file = string_of(strip_dots(line));
            r.push(file);
            assert(texts(r@) =~= texts(had).push(file@));
        }
        i += 1;
    }
    assert(all.take(i as int) == all);
    r
}

/// The files of an archive, given the output of the command that lists its members.
pub fn archive_members(output: &Vec<u8>) -> (r: Vec<String>)
    ensures
        texts(r@) == member_files(lines(lossy(output@))),
        valid_utf8(output@) ==> texts(r@) == member_files(lines(decode_utf8(output@))),
{
    parse_members(from_utf8_lossy(output.as_slice()).as_str())
}

// ---------------------------------------------------------------- dependencies

/// The package names in the pieces of a `depends` field: blank pieces are left out, and
/// of each other piece what follows an opening parenthesis.
pub open spec fn depend_names(ps: Seq<Seq<char>>) -> Seq<Seq<char>>
    decreases ps.len(),
{
    if ps.len() == 0 {
        seq![]
    } else if trimmed(ps.last()).len() == 0 {
        depend_names(ps.drop_last())
    } else {
        depend_names(ps.drop_last()).push(trimmed(before(trimmed(ps.last()), '(')))
    }
}

/// The names of the packages that a `depends` field lists.
pub open spec fn dependencies(depends: Seq<char>) -> Seq<Seq<char>> {
    depend_names(pieces(depends, ','))
}

/// The names of the packages that a `depends` field lists.
pub fn parse_depends(depends: &str) -> (r: Vec<String>)
    ensures
        texts(r@) == dependencies(depends@),
{
    let mut r: Vec<String> = Vec::new();
    let chars = chars_of(depends);
    let ps = split(chars.as_slice(), ',');
    let ghost all = pieces(depends@, ',');
    let mut i: usize = 0;
    assert(texts(r@) =~= depend_names(all.take(0)));
    while i < ps.len()
        invariant
            i <= ps@.len(),
            slices(ps@) == all,
            all.len() == ps@.len(),
            texts(r@) == depend_names(all.take(i as int)),
        decreases ps@.len() - i,
    {
        proof {
            assert(all[i as int] == ps@[i as int]@);
            assert(all.take(i + 1).drop_last() == all.take(i as int));
        }
        let piece = trim(ps[i]);
        if piece.len() > 0 {
            let ghost had = r@;
            let name = string_of(trim(take_before(piece, '(')));
            r.push(name);
            assert(texts(r@) =~= texts(had).push(name@));
        }
        i += 1;
    }
    assert(all.take(i as int) == all);
    r
}

proof fn lemma_depend_names(ps: Seq<Seq<char>>, i: int)
    requires
        0 <= i < depend_names(ps).len(),
    ensures
        is_trimmed(depend_names(ps)[i]),
        !depend_names(ps)[i].contains('('),
    decreases ps.len(),
{
    if ps.len() > 0 {
        let p = trimmed(ps.last());
        if i < depend_names(ps.drop_last()).len() {
            lemma_depend_names(ps.drop_last(), i);
        } else {
            let name = before(p, '(');
            lemma_until(p, '(');
            assert(!name.contains('('));
            lemma_trimmed(name);
        }
    }
}

/// A dependency is a plain name: without white space around it, and without the version
/// that it may be bound to.
pub proof fn dependencies_are_plain_names(depends: Seq<char>, i: int)
    requires
        0 <= i < dependencies(depends).len(),
    ensures
        is_trimmed(dependencies(depends)[i]),
        !dependencies(depends)[i].contains('('),
{
    lemma_depend_names(pieces(depends, ','), i);
}

/// The packages that list `name` among their dependencies, other than `name` itself.
pub open spec fn dependents(db: Seq<InstalledModel>, name: Seq<char>) -> Seq<Seq<char>>
    decreases db.len(),
{
    if db.len() == 0 {
        seq![]
    } else if db.last().name != name && dependencies(db.last().depends).contains(name) {
        dependents(db.drop_last(), name).push(db.last().name)
    } else {
        dependents(db.drop_last(), name)
    }
}

/// The installed packages that would miss `name` if it were removed.
pub fn find_dependents(db: &Vec<InstalledPkg>, name: &str) -> (r: Vec<String>)
    ensures
        texts(r@) == dependents(packages(db@), name@),
{
    let mut r: Vec<String> = Vec::new();
    let ghost all = packages(db@);
    let mut i: usize = 0;
    assert(texts(r@) =~= dependents(all.take(0), name@));
    while i < db.len()
        invariant
            i <= db@.len(),
            all == packages(db@),
            all.len() == db@.len(),
            texts(r@) == dependents(all.take(i as int), name@),
        decreases db@.len() - i,
    {
        let pkg = &db[i];
        proof {
            assert(all[i as int] == pkg@);
            assert(all.take(i + 1).drop_last() == all.take(i as int));
        }
        if !equal(pkg.name.as_str(), name) && has_text(&parse_depends(pkg.depends.as_str()), name) {
            let ghost had = r@;
            let other = pkg.name.clone();
            r.push(other);
            assert(texts(r@) =~= texts(had).push(other@));
        }
        i += 1;
    }
    assert(all.take(i as int) == all);
    r
}

// ---------------------------------------------------------------- the list of packages

/// The order of names: character by character, the shorter first.
pub open spec fn at_most(a: Seq<char>, b: Seq<char>) -> bool
    decreases a.len(),
{
    if a.len() == 0 {
        true
    } else if b.len() == 0 {
        false
    } else if a[0] != b[0] {
        a[0] < b[0]
    } else {
        at_most(a.drop_first(), b.drop_first())
    }
}

/// Whether names are in order.
pub open spec fn in_order(names: Seq<Seq<char>>) -> bool {
    forall|i: int, j: int| 0 <= i <= j < names.len() ==> at_most(#[trigger] names[i], #[trigger] names[j])
}

proof fn lemma_at_most_total(a: Seq<char>, b: Seq<char>)
    ensures
        at_most(a, b) || at_most(b, a),
    decreases a.len(),
{
    if a.len() > 0 && b.len() > 0 && a[0] == b[0] {
        lemma_at_most_total(a.drop_first(), b.drop_first());
    }
}

proof fn lemma_at_most_transitive(a: Seq<char>, b: Seq<char>, c: Seq<char>)
    requires
        at_most(a, b),
        at_most(b, c),
    ensures
        at_most(a, c),
    decreases a.len(),
{
    if a.len() > 0 && b.len() > 0 && c.len() > 0 && a[0] == b[0] && b[0] == c[0] {
        lemma_at_most_transitive(a.drop_first(), b.drop_first(), c.drop_first());
    }
}

fn goes_before(a: &str, b: &str) -> (r: bool)
    ensures
        r == at_most(a@, b@),
{
    let x = chars_of(a);
    let y = chars_of(b);
    let mut i: usize = 0;
    assert(x@.skip(0) == x@);
    assert(y@.skip(0) == y@);
    while i < x.len()
        invariant
            x@ == a@,
            y@ == b@,
            i <= x@.len(),
            i <= y@.len(),
            at_most(x@, y@) == at_most(x@.skip(i as int), y@.skip(i as int)),
        decreases x@.len() - i,
    {
        if i == y.len() {
            return false;
        }
        if x[i] != y[i] {
            return x[i] < y[i];
        }
        assert(x@.skip(i as int).drop_first() == x@.skip(i + 1));
        assert(y@.skip(i as int).drop_first() == y@.skip(i + 1));
        i += 1;
    }
    true
}

/// The names of the installed packages, in order, given the names of the files in the
/// database's directory in any order.
pub fn list_installed_names(entries: &Vec<String>) -> (r: Vec<String>)
    ensures
        in_order(texts(r@)),
        texts(r@).to_multiset() == texts(entries@).to_multiset(),
{
    let mut r: Vec<String> = Vec::new();
    let ghost all = texts(entries@);
    let mut i: usize = 0;
    assert(texts(r@) =~= all.take(0));
    while i < entries.len()
        invariant
            i <= entries@.len(),
            all == texts(entries@),
            all.len() == entries@.len(),
            in_order(texts(r@)),
            texts(r@).to_multiset() == all.take(i as int).to_multiset(),
        decreases entries@.len() - i,
    {
        let name = entries[i].clone();
        let ghost had = texts(r@);
        let mut k: usize = 0;
        while k < r.len() && goes_before(r[k].as_str(), name.as_str())
            invariant
                k <= r@.len(),
                had == texts(r@),
                had.len() == r@.len(),
                in_order(had),
                forall|j: int| 0 <= j < k ==> at_most(#[trigger] had[j], name@),
            decreases r@.len() - k,
        {
            assert(had[k as int] == r@[k as int]@);
            k += 1;
        }
        proof {
            if k < had.len() {
                assert(had[k as int] == r@[k as int]@);
                lemma_at_most_total(had[k as int], name@);
            }
        }
        r.insert(k, name);
        proof {
            assert(all[i as int] == entries@[i as int]@);
            assert(texts(r@) =~= had.insert(k as int, name@));
            lemma_insert_in_order(had, k as int, name@);
            assert(had.insert(k as int, name@).remove(k as int) =~= had);
            broadcast use vstd::seq_lib::group_to_multiset_ensures;

            let m = had.insert(k as int, name@);
            assert(m.remove(k as int).to_multiset() == m.to_multiset().remove(m[k as int]));
            assert(m.contains(m[k as int]));
            assert(m.to_multiset() =~= had.to_multiset().insert(name@));
            assert(all.take(i + 1) =~= all.take(i as int).push(all[i as int]));
        }
        i += 1;
    }
    assert(all.take(i as int) == all);
    r
}

proof fn lemma_insert_in_order(names: Seq<Seq<char>>, k: int, name: Seq<char>)
    requires
        in_order(names),
        0 <= k <= names.len(),
        forall|j: int| 0 <= j < k ==> at_most(#[trigger] names[j], name),
        k < names.len() ==> at_most(name, names[k]),
    ensures
        in_order(names.insert(k, name)),
{
    let more = names.insert(k, name);
    lemma_at_most_total(name, name);
    assert forall|i: int, j: int| 0 <= i <= j < more.len() implies at_most(
        #[trigger] more[i],
        #[trigger] more[j],
    ) by {
        let a = if i < k {
            i
        } else {
            i - 1
        };
        let b = if j < k {
            j
        } else {
            j - 1
        };
        if i == k && j > k {
            assert(at_most(names[k], names[b]));
            lemma_at_most_transitive(name, names[k], names[b]);
        } else if i != k && j != k {
            assert(more[i] == names[a]);
            assert(more[j] == names[b]);
        }
    }
}

// ---------------------------------------------------------------- laws

/// Metadata that a record can carry unchanged.
pub open spec fn record_carries(m: ControlModel) -> bool {
    is_line_value(m.version) && is_line_value(m.architecture) && is_line_value(m.depends)
}

/// A value that a line of a record can carry unchanged.
pub open spec fn is_line_value(s: Seq<char>) -> bool {
    is_trimmed(s) && !s.contains('\n')
}

/// A path that a line of a record can carry unchanged.
pub open spec fn is_line(s: Seq<char>) -> bool {
    s.len() > 0 && !s.contains('\n') && s.last() != '\r'
}

proof fn lemma_files_text(files: Seq<Seq<char>>)
    requires
        forall|i: int| 0 <= i < files.len() ==> is_line(#[trigger] files[i]),
    ensures
        lines(files_text(files)) == files,
        files.len() > 0 ==> files_text(files).len() > 0 && files_text(files).last() == '\n',
        nonempty(files) == files,
    decreases files.len(),
{
    reveal_strlit("\n");
    if files.len() > 0 {
        let some = files.drop_last();
        let f = files.last();
        assert(is_line(files[files.len() - 1]));
        assert forall|i: int| 0 <= i < some.len() implies is_line(#[trigger] some[i]) by {
            assert(is_line(files[i]));
        }
        lemma_files_text(some);
        let end = Seq::<char>::empty();
        assert(files_text(files) =~= files_text(some) + (f + seq!['\n'] + end));
        lemma_lines_concat(files_text(some), f + seq!['\n'] + end);
        lemma_lines_cons(f, end);
        assert(lines(files_text(files)) =~= files);
        assert(nonempty(files) =~= files);
    } else {
        assert(lines(files_text(files)) =~= files);
        assert(nonempty(files) =~= files);
    }
}

/// Four chunks of one line each, and what follows them.
proof fn lemma_four_lines(t: Seq<Seq<char>>, l: Seq<Seq<char>>, rest: Seq<char>)
    requires
        t.len() == 4,
        l.len() == 4,
        forall|i: int| 0 <= i < 4 ==> puts_line(#[trigger] t[i], l[i]),
    ensures
        lines(t[0] + t[1] + t[2] + t[3] + rest) == l + lines(rest),
{
    assert(lines(t[3] + rest) == seq![l[3]] + lines(rest));
    assert(lines(t[2] + (t[3] + rest)) == seq![l[2]] + lines(t[3] + rest));
    assert(lines(t[1] + (t[2] + (t[3] + rest))) == seq![l[1]] + lines(t[2] + (t[3] + rest)));
    let whole = t[0] + (t[1] + (t[2] + (t[3] + rest)));
    assert(lines(whole) == seq![l[0]] + lines(t[1] + (t[2] + (t[3] + rest))));
    assert(t[0] + t[1] + t[2] + t[3] + rest =~= whole);
    assert(lines(whole) =~= l + lines(rest));
}

/// A line that begins with another letter does not open the list of files.
proof fn lemma_not_files(line: Seq<char>)
    requires
        line.len() > 0,
        !is_space(line[0]),
        line[0] != 'f',
    ensures
        !opens_files(line),
{
    reveal_strlit("files:");
    lemma_trimmed_end(line);
    if trimmed(line).len() > 0 {
        assert(trimmed(line)[0] == line[0]);
    }
}

proof fn lemma_record_keys()
    ensures
        is_key("version"@) && "version"@[0] == 'v',
        is_key("architecture"@) && "architecture"@[0] == 'a',
        is_key("depends"@) && "depends"@[0] == 'd',
        "version"@ != "architecture"@,
        "version"@ != "depends"@,
        "architecture"@ != "depends"@,
        "files:\n"@ == "files:"@ + seq!['\n'],
        is_line("files:"@),
        is_trimmed("files:"@),
{
    reveal_strlit("version");
    reveal_strlit("architecture");
    reveal_strlit("depends");
    reveal_strlit("files:");
    reveal_strlit("files:\n");
    assert("version"@[0] != "depends"@[0]);
    assert("architecture"@[0] != "depends"@[0]);
    assert("files:\n"@ =~= "files:"@ + seq!['\n']);
}

/// What reads back of a record that was written is the package it was written for:
/// its version, its dependencies and its files, wherever lines can carry them.
pub proof fn record_round_trip(m: ControlModel, files: Seq<Seq<char>>)
    requires
        record_carries(m),
        forall|i: int| 0 <= i < files.len() ==> is_line(#[trigger] files[i]),
    ensures
        record_of(m.name, lines(record_text(m, files))) == (InstalledModel {
            name: m.name,
            version: m.version,
            depends: m.depends,
            files,
        }),
{
    lemma_record_keys();
    let v = lemma_setting_puts("version"@, m.version);
    let a = lemma_setting_puts("architecture"@, m.architecture);
    let d = lemma_setting_puts("depends"@, m.depends);
    let f = "files:"@;
    assert(puts_line("files:\n"@, f)) by {
        assert forall|rest: Seq<char>| #[trigger]
            lines("files:\n"@ + rest) == seq![f] + lines(rest) by {
            lemma_lines_cons(f, rest);
        }
    }
    let chunks = seq![
        setting_line("version"@, m.version),
        setting_line("architecture"@, m.architecture),
        setting_line("depends"@, m.depends),
        "files:\n"@,
    ];
    let head = seq![v, a, d, f];
    lemma_four_lines(chunks, head, files_text(files));
    lemma_files_text(files);
    let ls = lines(record_text(m, files));
    assert(ls =~= head + files);
    assert(v[0] == 'v' && a[0] == 'a' && d[0] == 'd');
    lemma_not_files(v);
    lemma_not_files(a);
    lemma_not_files(d);
    lemma_trimmed_fixed(f);
    assert(opens_files(f));
    assert(header_length(ls) == 3) by {
        let l1 = ls.drop_first();
        let l2 = l1.drop_first();
        let l3 = l2.drop_first();
        assert(ls[0] == v && l1[0] == a && l2[0] == d && l3[0] == f);
        assert(header_length(l3) == 0);
        assert(header_length(l2) == 1);
        assert(header_length(l1) == 2);
    }
    let e = Seq::<Seq<char>>::empty();
    assert(ls.take(3) =~= e.push(v).push(a).push(d));
    assert(last_set(ls.take(3), "version"@) == Some(m.version)) by {
        lemma_field_push(e, v, "version"@);
        lemma_field_push(e.push(v), a, "version"@);
        lemma_field_push(e.push(v).push(a), d, "version"@);
    }
    assert(last_set(ls.take(3), "depends"@) == Some(m.depends)) by {
        lemma_field_push(e.push(v).push(a), d, "depends"@);
    }
    assert(ls.skip(4) =~= files);
}

/// The files of an archive have names, and none of them begins with `./`: the same file
/// has the same name in every record, whatever tool built the archive.
pub proof fn members_are_normal(ls: Seq<Seq<char>>)
    ensures
        forall|i: int|
            0 <= i < member_files(ls).len() ==> (#[trigger] member_files(ls)[i]).len() > 0 && !begins(
                member_files(ls)[i],
                "./"@,
            ),
    decreases ls.len(),
{
    if ls.len() > 0 {
        let some = member_files(ls.drop_last());
        members_are_normal(ls.drop_last());
        if is_member_file(ls.last()) {
            reveal_strlit("./");
            reveal_strlit("/");
            let line = ls.last();
            assert(line.len() > 0) by {
                if line.len() == 0 {
                    lemma_trimmed_fixed(line);
                }
            }
            assert(line.last() != '/') by {
                if line.last() == '/' {
                    assert(line.skip(line.len() - 1) =~= "/"@);
                }
            }
            lemma_without_dots(line);
            let f = without_dots(line);
            if begins(f, "./"@) {
                assert(f.take(2)[0] == "./"@[0] && f.take(2)[1] == "./"@[1]);
            }
        }
        assert forall|i: int| 0 <= i < member_files(ls).len() implies (#[trigger] member_files(
            ls,
        )[i]).len() > 0 && !begins(member_files(ls)[i], "./"@) by {
            if i < some.len() {
                assert(member_files(ls)[i] == some[i]);
            }
        }
    }
}

/// Taking `./` off the front of a path leaves something, unless it ends in a slash.
proof fn lemma_without_dots(s: Seq<char>)
    requires
        s.len() > 0,
        s.last() != '/',
    ensures
        without_dots(s).len() > 0,
        without_dots(s).last() == s.last(),
        !(without_dots(s).len() >= 2 && without_dots(s)[0] == '.' && without_dots(s)[1] == '/'),
    decreases s.len(),
{
    if s.len() >= 2 && s[0] == '.' && s[1] == '/' {
        assert(s.len() > 2);
        assert(s.skip(2).last() == s.last());
        lemma_without_dots(s.skip(2));
    }
}

/// A path with and without `./` in front is the same file.
pub proof fn dots_make_no_difference(path: Seq<char>)
    ensures
        without_dots("./"@ + path) == without_dots(path),
{
    reveal_strlit("./");
    assert(("./"@ + path).skip(2) =~= path);
}


proof fn lemma_dots_within(s: Seq<char>)
    ensures
        forall|c: char| without_dots(s).contains(c) ==> s.contains(c),
    decreases s.len(),
{
    if s.len() >= 2 && s[0] == '.' && s[1] == '/' {
        let t = s.skip(2);
        lemma_dots_within(t);
        assert forall|c: char| without_dots(s).contains(c) implies s.contains(c) by {
            assert(without_dots(t).contains(c));
            assert(t.contains(c));
            let i = choose|i: int| 0 <= i < t.len() && t[i] == c;
            assert(s[i + 2] == c);
        }
    }
}

proof fn lemma_members_within(ls: Seq<Seq<char>>, i: int)
    requires
        forall|k: int| 0 <= k < ls.len() ==> !(#[trigger] ls[k]).contains('\n'),
        0 <= i < member_files(ls).len(),
    ensures
        !member_files(ls)[i].contains('\n'),
    decreases ls.len(),
{
    let fewer = ls.drop_last();
    assert forall|k: int| 0 <= k < fewer.len() implies !(#[trigger] fewer[k]).contains('\n') by {
        assert(fewer[k] == ls[k]);
    }
    if i < member_files(fewer).len() {
        lemma_members_within(fewer, i);
    } else {
        assert(!ls[ls.len() - 1].contains('\n'));
        lemma_dots_within(ls.last());
    }
}

/// What an installation records of a package reads back: the metadata of its control file,
/// and the files that its archive lists, as long as none of their names ends in a carriage
/// return.
pub proof fn an_installed_package_reads_back(control: Seq<char>, listing: Seq<char>)
    requires
        forall|i: int|
            0 <= i < member_files(lines(listing)).len() ==> (#[trigger] member_files(
                lines(listing),
            )[i]).last() != '\r',
    ensures
        ({
            let m = control_of(lines(control));
            let files = member_files(lines(listing));
            record_of(m.name, lines(record_text(m, files))) == (InstalledModel {
                name: m.name,
                version: m.version,
                depends: m.depends,
                files,
            })
        }),
{
    let m = control_of(lines(control));
    let ls = lines(listing);
    let files = member_files(ls);
    parsed_control_carries(control);
    lemma_lines_hold_no_feed(listing);
    members_are_normal(ls);
    assert forall|i: int| 0 <= i < files.len() implies is_line(#[trigger] files[i]) by {
        lemma_members_within(ls, i);
    }
    record_round_trip(m, files);
}

proof fn lemma_depend_names_concat(a: Seq<Seq<char>>, b: Seq<Seq<char>>)
    ensures
        depend_names(a + b) == depend_names(a) + depend_names(b),
    decreases b.len(),
{
    if b.len() == 0 {
        assert(a + b =~= a);
        assert(depend_names(a) + depend_names(b) =~= depend_names(a));
    } else {
        assert((a + b).drop_last() =~= a + b.drop_last());
        lemma_depend_names_concat(a, b.drop_last());
        assert(depend_names(a + b) =~= depend_names(a) + depend_names(b));
    }
}

/// A list of dependencies is read piece by piece: what stands before a comma, and what stands
/// after it, depend on what they depend on, in this order.
pub proof fn dependencies_add_up(first: Seq<char>, rest: Seq<char>)
    requires
        !first.contains(','),
    ensures
        dependencies(first + seq![','] + rest) == dependencies(first) + dependencies(rest),
{
    lemma_first_piece(first, rest, ',');
    lemma_one_piece(first, ',');
    lemma_depend_names_concat(seq![first], pieces(rest, ','));
}

/// A piece of such a list, white space around it aside, is a name, or a name that is bound to
/// a version, which follows it in parentheses, or nothing.
pub proof fn a_piece_is_one_dependency(
    piece: Seq<char>,
    name: Seq<char>,
    gap: Seq<char>,
    version: Seq<char>,
)
    requires
        !piece.contains(','),
        is_trimmed(name),
        name.len() > 0,
        !name.contains('('),
        forall|i: int| 0 <= i < gap.len() ==> is_space(#[trigger] gap[i]),
    ensures
        trimmed(piece).len() == 0 ==> dependencies(piece).len() == 0,
        trimmed(piece) == name ==> dependencies(piece) == seq![name],
        trimmed(piece) == name + gap + seq!['('] + version ==> dependencies(piece) == seq![name],
{
    lemma_one_piece(piece, ',');
    let t = trimmed(piece);
    reveal_with_fuel(depend_names, 2);
    assert(seq![piece].drop_last() =~= seq![]);
    if t == name {
        lemma_until(t, '(');
        if until(t, '(') < t.len() {
            assert(t.contains(t[until(t, '(') as int]));
        }
        assert(before(t, '(') =~= t);
        lemma_trimmed_fixed(name);
        assert(dependencies(piece) =~= seq![name]);
    }
    if t == name + gap + seq!['('] + version {
        let front = name + gap;
        assert forall|i: int| 0 <= i < front.len() implies t[i] != '(' by {
            if i < name.len() {
                assert(name.contains(name[i]));
            } else {
                assert(is_space(gap[i - name.len()]));
            }
        }
        lemma_until_is(t, '(', front.len());
        assert(before(t, '(') =~= front);
        lemma_gap_goes(name, gap);
        assert(dependencies(piece) =~= seq![name]);
    }
}

proof fn lemma_gap_goes(name: Seq<char>, gap: Seq<char>)
    requires
        is_trimmed(name),
        forall|i: int| 0 <= i < gap.len() ==> is_space(#[trigger] gap[i]),
    ensures
        trimmed(name + gap) == name,
    decreases gap.len(),
{
    if gap.len() == 0 {
        assert(name + gap =~= name);
        lemma_trimmed_fixed(name);
    } else {
        let less = gap.drop_last();
        assert forall|i: int| 0 <= i < less.len() implies is_space(#[trigger] less[i]) by {
            assert(is_space(gap[i]));
        }
        lemma_gap_goes(name, less);
        assert(is_space(gap[gap.len() - 1]));
        lemma_trimmed_push(name + less, gap.last());
        assert((name + less).push(gap.last()) =~= name + gap);
    }
}

/// The packages that would miss a package are exactly the other ones that list it among their
/// dependencies.
pub proof fn dependents_are_those_that_depend(
    db: Seq<InstalledModel>,
    name: Seq<char>,
    other: Seq<char>,
)
    ensures
        dependents(db, name).contains(other) <==> other != name && exists|i: int|
            0 <= i < db.len() && (#[trigger] db[i]).name == other && dependencies(
                db[i].depends,
            ).contains(name),
    decreases db.len(),
{
    if db.len() > 0 {
        let some = db.drop_last();
        dependents_are_those_that_depend(some, name, other);
        let was = dependents(some, name);
        let now = dependents(db, name);
        if was.contains(other) {
            let i = choose|i: int|
                0 <= i < some.len() && (#[trigger] some[i]).name == other && dependencies(
                    some[i].depends,
                ).contains(name);
            assert(db[i] == some[i]);
            let k = choose|k: int| 0 <= k < was.len() && was[k] == other;
            assert(now[k] == other);
        } else if now.contains(other) {
            let k = choose|k: int| 0 <= k < now.len() && now[k] == other;
            if k < was.len() {
                assert(was[k] == other);
            }
            assert(db[db.len() - 1].name == other);
        } else if other != name {
            assert forall|i: int|
                0 <= i < db.len() && (#[trigger] db[i]).name == other implies !dependencies(
                db[i].depends,
            ).contains(name) by {
                if i < some.len() {
                    assert(some[i] == db[i]);
                } else if dependencies(db[i].depends).contains(name) {
                    assert(now.last() == other);
                    assert(now[now.len() - 1] == other);
                }
            }
        }
    }
}

/// The files of an archive are exactly its members with a name that does not end in a slash,
/// other than the archive's own directory; each is named without the `./` in front.
pub proof fn members_are_the_files(ls: Seq<Seq<char>>, file: Seq<char>)
    ensures
        member_files(ls).contains(file) <==> exists|i: int|
            0 <= i < ls.len() && trimmed(#[trigger] ls[i]).len() > 0 && ls[i] != "."@ && ls[i].last()
                != '/' && file == without_dots(ls[i]),
        member_files(ls).len() <= ls.len(),
    decreases ls.len(),
{
    if ls.len() > 0 {
        let some = ls.drop_last();
        let line = ls.last();
        members_are_the_files(some, file);
        reveal_strlit("/");
        assert(line.len() > 0 ==> (line.last() == '/' <==> ends(line, "/"@))) by {
            if line.len() > 0 {
                if line.last() == '/' {
                    assert(line.skip(line.len() - 1) =~= "/"@);
                }
                if ends(line, "/"@) {
                    assert(line.skip(line.len() - 1)[0] == "/"@[0]);
                }
            }
        }
        if line.len() == 0 {
            lemma_trimmed_fixed(line);
        }
        let was = member_files(some);
        let now = member_files(ls);
        if was.contains(file) {
            let k = choose|k: int| 0 <= k < was.len() && was[k] == file;
            assert(now[k] == file);
            let i = choose|i: int|
                0 <= i < some.len() && trimmed(#[trigger] some[i]).len() > 0 && some[i] != "."@
                    && some[i].last() != '/' && file == without_dots(some[i]);
            assert(ls[i] == some[i]);
        } else if now.contains(file) {
            let k = choose|k: int| 0 <= k < now.len() && now[k] == file;
            if k < was.len() {
                assert(was[k] == file);
            }
            assert(ls[ls.len() - 1] == line);
        } else {
            assert forall|i: int|
                0 <= i < ls.len() && trimmed(#[trigger] ls[i]).len() > 0 && ls[i] != "."@
                    && ls[i].last() != '/' implies file != without_dots(ls[i]) by {
                if i < some.len() {
                    assert(some[i] == ls[i]);
                } else if file == without_dots(ls[i]) {
                    assert(now[now.len() - 1] == file);
                }
            }
        }
    }
}

/// The files of an archive come in the order in which the archive lists them.
pub proof fn members_keep_their_order(a: Seq<Seq<char>>, b: Seq<Seq<char>>)
    ensures
        member_files(a + b) == member_files(a) + member_files(b),
    decreases b.len(),
{
    if b.len() == 0 {
        assert(a + b =~= a);
        assert(member_files(a) + member_files(b) =~= member_files(a));
    } else {
        assert((a + b).drop_last() =~= a + b.drop_last());
        members_keep_their_order(a, b.drop_last());
        assert(member_files(a + b) =~= member_files(a) + member_files(b));
    }
}

/// A path that does not begin with `./` is named as it is.
pub proof fn other_paths_stay(path: Seq<char>)
    requires
        path.len() < 2 || path[0] != '.' || path[1] != '/',
    ensures
        without_dots(path) == path,
{
}

/// A package's record is the file of its name in one place of the system, however many slashes
/// the system's root ends in.
pub proof fn records_have_their_place(root: Seq<char>, name: Seq<char>)
    ensures
        root.len() == 0 || root.last() != '/' ==> db_dir(root) == root + "/var/lib/spk/installed"@
            && db_path(root, name) == root + "/var/lib/spk/installed"@ + "/"@ + name,
        db_dir(root.push('/')) == db_dir(root),
        db_path(root.push('/'), name) == db_path(root, name),
{
    only_trailing_separators_go(root, '/');
}

/// Names are in the order of dictionaries: the first character that differs decides, and where
/// none does, the shorter name comes first.
pub proof fn names_are_ordered_as_in_dictionaries(a: Seq<char>, b: Seq<char>, k: int)
    requires
        0 <= k <= a.len(),
        k <= b.len(),
        a.take(k) == b.take(k),
    ensures
        k == a.len() ==> at_most(a, b),
        k == b.len() && k < a.len() ==> !at_most(a, b),
        k < a.len() && k < b.len() && a[k] < b[k] ==> at_most(a, b),
        k < a.len() && k < b.len() && a[k] > b[k] ==> !at_most(a, b),
    decreases k,
{
    if k > 0 {
        assert(a[0] == a.take(k)[0] && b[0] == b.take(k)[0]);
        assert(a[0] == b[0]);
        let c = a.drop_first();
        let d = b.drop_first();
        assert(c.take(k - 1) =~= a.take(k).drop_first());
        assert(d.take(k - 1) =~= b.take(k).drop_first());
        names_are_ordered_as_in_dictionaries(c, d, k - 1);
    }
}

/// The record of a package says for which machines it is.
pub proof fn a_record_says_for_which_machines(m: ControlModel, files: Seq<Seq<char>>)
    requires
        record_carries(m),
    ensures
        lines(record_text(m, files)).len() > 3,
        lines(record_text(m, files)).take(4) == seq![
            "version: "@ + m.version,
            "architecture: "@ + m.architecture,
            "depends: "@ + m.depends,
            "files:"@,
        ],
{
    lemma_record_keys();
    let v = lemma_setting_puts("version"@, m.version);
    let a = lemma_setting_puts("architecture"@, m.architecture);
    let d = lemma_setting_puts("depends"@, m.depends);
    let f = "files:"@;
    assert(puts_line("files:\n"@, f)) by {
        assert forall|rest: Seq<char>| #[trigger]
            lines("files:\n"@ + rest) == seq![f] + lines(rest) by {
            lemma_lines_cons(f, rest);
        }
    }
    let chunks = seq![
        setting_line("version"@, m.version),
        setting_line("architecture"@, m.architecture),
        setting_line("depends"@, m.depends),
        "files:\n"@,
    ];
    lemma_four_lines(chunks, seq![v, a, d, f], files_text(files));
    reveal_strlit("version");
    reveal_strlit("version: ");
    reveal_strlit("architecture");
    reveal_strlit("architecture: ");
    reveal_strlit("depends");
    reveal_strlit("depends: ");
    reveal_strlit(": ");
    assert("version: "@ =~= "version"@ + ": "@);
    assert("architecture: "@ =~= "architecture"@ + ": "@);
    assert("depends: "@ =~= "depends"@ + ": "@);
    assert(lines(record_text(m, files)).take(4) =~= seq![v, a, d, f]);
}

} // verus!
