//! Removing a package.

use crate::control::control_of;
use crate::database::{
    an_installed_package_reads_back, db_path, dependencies, dependents,
    dependents_are_those_that_depend, find_dependents,
    installed_db_path, member_files, packages, read_installed, record_of, record_text,
    InstalledModel, InstalledPkg,
};
use crate::paths::{below, join_path};
use crate::std_text::{ascii_small, lowercase, to_lowercase};
use crate::text::{
    chars_of, equal, has_text, lines, optional, string_of, strip_trailing, texts, trim, trimmed,
    without_trailing,
};
use vstd::prelude::*;
use vstd::string::*;

verus! {

// ---------------------------------------------------------------- what goes, what stays

/// Whether a package other than the named one has a file.
pub open spec fn others_own(db: Seq<InstalledModel>, name: Seq<char>, file: Seq<char>) -> bool {
    exists|i: int|
        0 <= i < db.len() && (#[trigger] db[i]).name != name && db[i].files.contains(file)
}

/// The files that other packages have too, or those that they do not have.
pub open spec fn sorted_out(
    db: Seq<InstalledModel>,
    name: Seq<char>,
    files: Seq<Seq<char>>,
    shared: bool,
) -> Seq<Seq<char>>
    decreases files.len(),
{
    if files.len() == 0 {
        seq![]
    } else {
        let some = sorted_out(db, name, files.drop_last(), shared);
        if others_own(db, name, files.last()) == shared {
            some.push(files.last())
        } else {
            some
        }
    }
}

fn is_shared(db: &Vec<InstalledPkg>, name: &str, file: &str) -> (r: bool)
    ensures
        r == others_own(packages(db@), name@, file@),
{
    let ghost all = packages(db@);
    let mut i: usize = 0;
    while i < db.len()
        invariant
            i <= db@.len(),
            all == packages(db@),
            forall|k: int|
                0 <= k < i ==> (#[trigger] all[k]).name == name@ || !all[k].files.contains(file@),
        decreases db@.len() - i,
    {
        let pkg = &db[i];
        assert(all[i as int] == pkg@);
        if !equal(pkg.name.as_str(), name) && has_text(&pkg.files, file) {
            return true;
        }
        i += 1;
    }
    false
}

fn sort_out(db: &Vec<InstalledPkg>, name: &str, files: &Vec<String>, shared: bool) -> (r: Vec<
    String,
>)
    ensures
        texts(r@) == sorted_out(packages(db@), name@, texts(files@), shared),
{
    let ghost all = texts(files@);
    let ghost known = packages(db@);
    let mut r: Vec<String> = Vec::new();
    let mut i: usize = 0;
    assert(texts(r@) =~= sorted_out(known, name@, all.take(0), shared));
    while i < files.len()
        invariant
            i <= files@.len(),
            all == texts(files@),
            known == packages(db@),
            texts(r@) == sorted_out(known, name@, all.take(i as int), shared),
        decreases files@.len() - i,
    {
        let ghost had = r@;
        proof {
            assert(all[i as int] == files@[i as int]@);
            assert(all.take(i + 1).drop_last() =~= all.take(i as int));
        }
        if is_shared(db, name, files[i].as_str()) == shared {
            r.push(files[i].clone());
            assert(texts(r@) =~= texts(had).push(all[i as int]));
        }
        i += 1;
    }
    assert(all.take(i as int) =~= all);
    r
}

// ---------------------------------------------------------------- the decision

/// What is to become of the wish to remove a package.
pub enum Removal {
    /// The package is not installed.
    NotInstalled,
    /// Other packages depend on it.
    Refused { dependents: Vec<String> },
    /// It can be removed: these files go, those stay because others have them too. The
    /// packages that depend on it will miss it.
    Planned {
        package: InstalledPkg,
        dependents: Vec<String>,
        delete: Vec<String>,
        keep: Vec<String>,
    },
}

#[verifier::ext_equal]
pub enum RemovalModel {
    NotInstalled,
    Refused { dependents: Seq<Seq<char>> },
    Planned {
        package: InstalledModel,
        dependents: Seq<Seq<char>>,
        delete: Seq<Seq<char>>,
        keep: Seq<Seq<char>>,
    },
}

impl View for Removal {
    type V = RemovalModel;

    open spec fn view(&self) -> RemovalModel {
        match self {
            Removal::NotInstalled => RemovalModel::NotInstalled,
            Removal::Refused { dependents } => RemovalModel::Refused {
                dependents: texts(dependents@),
            },
            Removal::Planned { package, dependents, delete, keep } => RemovalModel::Planned {
                package: package@,
                dependents: texts(dependents@),
                delete: texts(delete@),
                keep: texts(keep@),
            },
        }
    }
}

/// What is to become of the wish to remove a package, given its record, if there is one,
/// and the packages that are installed.
pub open spec fn removal(
    record: Option<Seq<char>>,
    name: Seq<char>,
    db: Seq<InstalledModel>,
    force: bool,
) -> RemovalModel {
    match record {
        None => RemovalModel::NotInstalled,
        Some(text) => {
            let package = record_of(name, lines(text));
            let missed = dependents(db, name);
            if missed.len() > 0 && !force {
                RemovalModel::Refused { dependents: missed }
            } else {
                RemovalModel::Planned {
                    package,
                    dependents: missed,
                    delete: sorted_out(db, name, package.files, false),
                    keep: sorted_out(db, name, package.files, true),
                }
            }
        },
    }
}

/// Decides what is to become of the wish to remove a package.
pub fn cmd_remove(record: Option<&str>, name: &str, db: &Vec<InstalledPkg>, force: bool) -> (r:
    Removal)
    ensures
        r@ == removal(optional(record), name@, packages(db@), force),
{
    match record {
        None => Removal::NotInstalled,
        Some(text) => {
            let package = read_installed(name, text);
            let missed = find_dependents(db, name);
            assert(texts(missed@).len() == missed@.len());
            if missed.len() > 0 && !force {
                return Removal::Refused { dependents: missed };
            }
            let delete = sort_out(db, name, &package.files, false);
            let keep = sort_out(db, name, &package.files, true);
            Removal::Planned { package, dependents: missed, delete, keep }
        },
    }
}

// ---------------------------------------------------------------- the confirmation

/// Whether an answer in small letters, without white space around it, is a yes.
pub fn is_yes(answer: &str) -> (r: bool)
    ensures
        r == (answer@ == "y"@),
{
    equal(answer, "y")
}

/// Whether an answer is a yes: nothing but one letter is.
pub fn confirms(answer: &str) -> (r: bool)
    ensures
        r == (lowercase(trimmed(answer@)) == "y"@),
        vstd::utf8::is_ascii_chars(trimmed(answer@)) ==> r == (trimmed(answer@) == seq!['y']
            || trimmed(answer@) == seq!['Y']),
{
    let chars = chars_of(answer);
    let inner = string_of(trim(chars.as_slice()));
    let small = to_lowercase(inner.as_str());
    proof {
        reveal_strlit("y");
        let t = trimmed(answer@);
        assert(inner@ == t);
        if vstd::utf8::is_ascii_chars(t) {
            assert(small@.len() == t.len());
            if small@ == "y"@ {
                assert("y"@.len() == 1);
                assert(small@[0] == ascii_small(t[0]));
                assert(ascii_small(t[0]) == 'y');
                assert(t =~= seq![t[0]]);
            }
            if t == seq!['y'] || t == seq!['Y'] {
                assert(small@ =~= "y"@);
            }
        }
    }
    is_yes(small.as_str())
}

// ---------------------------------------------------------------- the steps

/// A step of a removal. What comes of it does not keep the next from being made.
pub enum RemoveStep {
    /// Run a script of the given name, if it exists.
    Hook { name: String, path: String },
    Delete { path: String },
}

#[verifier::ext_equal]
pub enum RemoveStepModel {
    Hook { name: Seq<char>, path: Seq<char> },
    Delete { path: Seq<char> },
}

impl View for RemoveStep {
    type V = RemoveStepModel;

    open spec fn view(&self) -> RemoveStepModel {
        match self {
            RemoveStep::Hook { name, path } => RemoveStepModel::Hook { name: name@, path: path@ },
            RemoveStep::Delete { path } => RemoveStepModel::Delete { path: path@ },
        }
    }
}

pub open spec fn remove_steps(v: Seq<RemoveStep>) -> Seq<RemoveStepModel> {
    v.map_values(|s: RemoveStep| s@)
}

/// Where a package's file is in a system.
pub open spec fn installed_file(root: Seq<char>, file: Seq<char>) -> Seq<char> {
    below(without_trailing(root, '/'), file)
}

/// Files go one after the other.
pub open spec fn deletions(root: Seq<char>, files: Seq<Seq<char>>) -> Seq<RemoveStepModel> {
    files.map_values(|f: Seq<char>| RemoveStepModel::Delete { path: installed_file(root, f) })
}

/// The removal of a package: its files go between its two scripts, what the database has of
/// it goes last.
pub open spec fn steps(root: Seq<char>, name: Seq<char>, delete: Seq<Seq<char>>) -> Seq<
    RemoveStepModel,
> {
    let record = db_path(root, name);
    let first = seq![RemoveStepModel::Hook { name: "prerm"@, path: record + ".prerm"@ }];
    first + deletions(root, delete) + seq![
        RemoveStepModel::Hook { name: "postrm"@, path: record + ".postrm"@ },
        RemoveStepModel::Delete { path: record + ".prerm"@ },
        RemoveStepModel::Delete { path: record + ".postrm"@ },
        RemoveStepModel::Delete { path: record },
    ]
}

/// The steps of the removal of a package.
pub fn removal_steps(root: &str, name: &str, delete: &Vec<String>) -> (r: Vec<RemoveStep>)
    ensures
        remove_steps(r@) == steps(root@, name@, texts(delete@)),
{
    let record = installed_db_path(root, name);
    let prerm = record.clone().concat(".prerm");
    let postrm = record.clone().concat(".postrm");
    let chars = chars_of(root);
    let base = string_of(strip_trailing(chars.as_slice(), '/'));
    let ghost all = texts(delete@);
    let ghost first = seq![RemoveStepModel::Hook { name: "prerm"@, path: prerm@ }];
    let mut v: Vec<RemoveStep> = Vec::new();
    v.push(RemoveStep::Hook { name: "prerm".to_string(), path: prerm.clone() });
    let mut i: usize = 0;
    assert(remove_steps(v@) =~= first + deletions(root@, all.take(0)));
    while i < delete.len()
        invariant
            i <= delete@.len(),
            all == texts(delete@),
            base@ == without_trailing(root@, '/'),
            remove_steps(v@) == first + deletions(root@, all.take(i as int)),
        decreases delete@.len() - i,
    {
        let ghost had = v@;
        let path = join_path(base.as_str(), delete[i].as_str());
        let step = RemoveStep::Delete { path };
        v.push(step);
        proof {
            assert(all[i as int] == delete@[i as int]@);
            assert(all.take(i + 1) =~= all.take(i as int).push(all[i as int]));
            assert(deletions(root@, all.take(i + 1)) =~= deletions(root@, all.take(i as int)).push(
                step@,
            ));
            assert(remove_steps(v@) =~= remove_steps(had).push(step@));
            assert(remove_steps(v@) =~= first + deletions(root@, all.take(i + 1)));
        }
        i += 1;
    }
    assert(all.take(i as int) =~= all);
    let ghost most = v@;
    v.push(RemoveStep::Hook { name: "postrm".to_string(), path: postrm.clone() });
    v.push(RemoveStep::Delete { path: prerm });
    v.push(RemoveStep::Delete { path: postrm });
    v.push(RemoveStep::Delete { path: record });
    assert(remove_steps(v@) =~= remove_steps(most) + seq![
        RemoveStepModel::Hook { name: "postrm"@, path: postrm@ },
        RemoveStepModel::Delete { path: prerm@ },
        RemoveStepModel::Delete { path: postrm@ },
        RemoveStepModel::Delete { path: record@ },
    ]);
    v
}

// ---------------------------------------------------------------- laws

proof fn lemma_sorted_out(
    db: Seq<InstalledModel>,
    name: Seq<char>,
    files: Seq<Seq<char>>,
    shared: bool,
    file: Seq<char>,
)
    ensures
        sorted_out(db, name, files, shared).contains(file) <==> files.contains(file) && others_own(
            db,
            name,
            file,
        ) == shared,
    decreases files.len(),
{
    if files.len() > 0 {
        let fewer = files.drop_last();
        let last = files.last();
        let some = sorted_out(db, name, fewer, shared);
        let all = sorted_out(db, name, files, shared);
        lemma_sorted_out(db, name, fewer, shared, file);
        assert(files.contains(file) <==> fewer.contains(file) || last == file) by {
            if files.contains(file) {
                let k = choose|k: int| 0 <= k < files.len() && files[k] == file;
                if k < fewer.len() {
                    assert(fewer[k] == file);
                }
            }
            if fewer.contains(file) {
                let k = choose|k: int| 0 <= k < fewer.len() && fewer[k] == file;
                assert(files[k] == file);
            }
            if last == file {
                assert(files[files.len() - 1] == file);
            }
        }
        if others_own(db, name, last) == shared {
            assert(all.contains(file) <==> some.contains(file) || last == file) by {
                if all.contains(file) {
                    let k = choose|k: int| 0 <= k < all.len() && all[k] == file;
                    if k < some.len() {
                        assert(some[k] == file);
                    }
                }
                if some.contains(file) {
                    let k = choose|k: int| 0 <= k < some.len() && some[k] == file;
                    assert(all[k] == file);
                }
                if last == file {
                    assert(all[all.len() - 1] == file);
                }
            }
        }
    }
}

/// Of a package that is removed, a file that no other package has goes, and a file that
/// another one has stays. No other file goes.
pub proof fn shared_files_stay(
    text: Seq<char>,
    name: Seq<char>,
    db: Seq<InstalledModel>,
    force: bool,
    file: Seq<char>,
)
    ensures
        removal(Some(text), name, db, force) matches RemovalModel::Planned {
            package,
            delete,
            keep,
            ..
        } ==> {
            &&& delete.contains(file) <==> package.files.contains(file) && !others_own(
                db,
                name,
                file,
            )
            &&& keep.contains(file) <==> package.files.contains(file) && others_own(db, name, file)
        },
{
    let files = record_of(name, lines(text)).files;
    lemma_sorted_out(db, name, files, false, file);
    lemma_sorted_out(db, name, files, true, file);
}

/// A removal undoes an installation: of a package that was installed, exactly the files that
/// its archive listed go, but for those that another package has. None of their names may
/// end in a carriage return.
pub proof fn a_removal_undoes_an_installation(
    control: Seq<char>,
    listing: Seq<char>,
    db: Seq<InstalledModel>,
    force: bool,
    file: Seq<char>,
)
    requires
        forall|i: int|
            0 <= i < member_files(lines(listing)).len() ==> (#[trigger] member_files(
                lines(listing),
            )[i]).last() != '\r',
    ensures
        ({
            let m = control_of(lines(control));
            let files = member_files(lines(listing));
            removal(
                Some(record_text(m, files)),
                m.name,
                db,
                force,
            ) matches RemovalModel::Planned { delete, .. } ==> (delete.contains(file)
                <==> files.contains(file) && !others_own(db, m.name, file))
        }),
{
    let m = control_of(lines(control));
    let files = member_files(lines(listing));
    an_installed_package_reads_back(control, listing);
    shared_files_stay(record_text(m, files), m.name, db, force, file);
}

/// Each of a package's files either goes or stays.
pub proof fn every_file_goes_or_stays(
    db: Seq<InstalledModel>,
    name: Seq<char>,
    files: Seq<Seq<char>>,
)
    ensures
        sorted_out(db, name, files, false).len() + sorted_out(db, name, files, true).len()
            == files.len(),
    decreases files.len(),
{
    if files.len() > 0 {
        every_file_goes_or_stays(db, name, files.drop_last());
    }
}

/// A removal is refused exactly if some other package lists the package among its
/// dependencies, and force is not asked for.
pub proof fn needed_packages_stay(
    text: Seq<char>,
    name: Seq<char>,
    db: Seq<InstalledModel>,
    force: bool,
)
    ensures
        removal(Some(text), name, db, force) is Refused <==> !force && exists|i: int|
            0 <= i < db.len() && (#[trigger] db[i]).name != name && dependencies(
                db[i].depends,
            ).contains(name),
{
    lemma_dependents(db, name);
}

proof fn lemma_dependents(db: Seq<InstalledModel>, name: Seq<char>)
    ensures
        dependents(db, name).len() > 0 <==> exists|i: int|
            0 <= i < db.len() && (#[trigger] db[i]).name != name && dependencies(
                db[i].depends,
            ).contains(name),
    decreases db.len(),
{
    if db.len() > 0 {
        let fewer = db.drop_last();
        lemma_dependents(fewer, name);
        assert(forall|i: int| 0 <= i < fewer.len() ==> fewer[i] == #[trigger] db[i]);
        if exists|i: int|
            0 <= i < fewer.len() && (#[trigger] fewer[i]).name != name && dependencies(
                fewer[i].depends,
            ).contains(name) {
            let i = choose|i: int|
                0 <= i < fewer.len() && (#[trigger] fewer[i]).name != name && dependencies(
                    fewer[i].depends,
                ).contains(name);
            assert(db[i].name != name);
        }
        if exists|i: int|
            0 <= i < db.len() && (#[trigger] db[i]).name != name && dependencies(
                db[i].depends,
            ).contains(name) {
            let i = choose|i: int|
                0 <= i < db.len() && (#[trigger] db[i]).name != name && dependencies(
                    db[i].depends,
                ).contains(name);
            if i < fewer.len() {
                assert(fewer[i].name != name);
            }
        }
        if db.last().name != name && dependencies(db.last().depends).contains(name) {
            assert(db[db.len() - 1].name != name);
        }
    }
}

/// Nothing is deleted but the files that go, and what the database has of the package.
pub proof fn nothing_else_is_deleted(
    root: Seq<char>,
    name: Seq<char>,
    delete: Seq<Seq<char>>,
    i: int,
)
    requires
        0 <= i < steps(root, name, delete).len(),
    ensures
        steps(root, name, delete)[i] matches RemoveStepModel::Delete { path } ==> {
            ||| exists|k: int|
                0 <= k < delete.len() && path == installed_file(root, #[trigger] delete[k])
            ||| path == db_path(root, name)
            ||| path == db_path(root, name) + ".prerm"@
            ||| path == db_path(root, name) + ".postrm"@
        },
{
    if 1 <= i <= delete.len() {
        assert(steps(root, name, delete)[i] == (RemoveStepModel::Delete {
            path: installed_file(root, delete[i - 1]),
        }));
    }
}

/// What becomes of the wish to remove a package: without a record it is not installed; while
/// another package lists it among its dependencies, and force is not asked for, it stays, and
/// those packages are named; else it goes, and with it exactly those of the files in its record
/// that no other package has.
pub proof fn what_a_removal_does(
    record: Option<Seq<char>>,
    name: Seq<char>,
    db: Seq<InstalledModel>,
    force: bool,
    file: Seq<char>,
    other: Seq<char>,
)
    ensures
        ({
            let needed = exists|i: int|
                0 <= i < db.len() && (#[trigger] db[i]).name != name && dependencies(
                    db[i].depends,
                ).contains(name);
            let needs = other != name && exists|i: int|
                0 <= i < db.len() && (#[trigger] db[i]).name == other && dependencies(
                    db[i].depends,
                ).contains(name);
            let shared = exists|i: int|
                0 <= i < db.len() && (#[trigger] db[i]).name != name && db[i].files.contains(file);
            match (record, removal(record, name, db, force)) {
                (None, r) => r is NotInstalled,
                (Some(_), RemovalModel::NotInstalled) => false,
                (Some(_), RemovalModel::Refused { dependents }) => needed && !force && (
                dependents.contains(other) <==> needs),
                (
                    Some(text),
                    RemovalModel::Planned { package, dependents, delete, keep },
                ) => {
                    &&& needed ==> force
                    &&& package == record_of(name, lines(text))
                    &&& package.name == name
                    &&& dependents.contains(other) <==> needs
                    &&& delete.contains(file) <==> package.files.contains(file) && !shared
                    &&& keep.contains(file) <==> package.files.contains(file) && shared
                    &&& delete.len() + keep.len() == package.files.len()
                },
            }
        }),
{
    if let Some(text) = record {
        needed_packages_stay(text, name, db, force);
        shared_files_stay(text, name, db, force, file);
        every_file_goes_or_stays(db, name, record_of(name, lines(text)).files);
        dependents_are_those_that_depend(db, name, other);
    }
}

/// A removal runs the script before it first, while everything is still there; then each file
/// that goes is deleted, in order, below the root; then the script after it is run; the two
/// scripts and, last of all, the record are deleted in the end.
pub proof fn a_removal_takes_its_course(root: Seq<char>, name: Seq<char>, delete: Seq<Seq<char>>)
    ensures
        ({
            let all = steps(root, name, delete);
            let n = delete.len() as int;
            let record = db_path(root, name);
            &&& all.len() == n + 5
            &&& all[0] == (RemoveStepModel::Hook { name: "prerm"@, path: record + ".prerm"@ })
            &&& forall|k: int|
                0 <= k < n ==> #[trigger] all[k + 1] == (RemoveStepModel::Delete {
                    path: without_trailing(root, '/') + "/"@ + delete[k],
                })
            &&& all[n + 1] == (RemoveStepModel::Hook { name: "postrm"@, path: record + ".postrm"@ })
            &&& all[n + 2] == (RemoveStepModel::Delete { path: record + ".prerm"@ })
            &&& all[n + 3] == (RemoveStepModel::Delete { path: record + ".postrm"@ })
            &&& all[n + 4] == (RemoveStepModel::Delete { path: record })
        }),
{
}

} // verus!
