//! The package keeper as a backend of PackageKit: one request per line, and some lines in
//! reply to each.

use crate::text::{
    before, chars_of, equal, has_text, pieces, split, string_of, take_before, texts, trim, trimmed,
    until,
};
use crate::text_lemmas::{lemma_first_piece, lemma_one_piece, lemma_until};
use crate::upgrade::{
    list_smechos_packages, list_smechvisor_packages, smechos_packages, smechvisor_packages,
};
use vstd::prelude::*;
use vstd::string::*;

verus! {

/// What is to be done about a request.
pub enum PkAnswer {
    /// Reply with these lines.
    Reply { lines: Vec<String> },
    /// Reply with the first lines, install a package, and reply with the others, according
    /// to what came of it.
    Install {
        package: String,
        first: Vec<String>,
        success: Vec<String>,
        failure: Vec<String>,
    },
    /// There will be no more requests.
    Quit,
}

#[verifier::ext_equal]
pub enum PkAnswerModel {
    Reply { lines: Seq<Seq<char>> },
    Install {
        package: Seq<char>,
        first: Seq<Seq<char>>,
        success: Seq<Seq<char>>,
        failure: Seq<Seq<char>>,
    },
    Quit,
}

impl View for PkAnswer {
    type V = PkAnswerModel;

    open spec fn view(&self) -> PkAnswerModel {
        match self {
            PkAnswer::Reply { lines } => PkAnswerModel::Reply { lines: texts(lines@) },
            PkAnswer::Install { package, first, success, failure } => PkAnswerModel::Install {
                package: package@,
                first: texts(first@),
                success: texts(success@),
                failure: texts(failure@),
            },
            PkAnswer::Quit => PkAnswerModel::Quit,
        }
    }
}

// ---------------------------------------------------------------- what is answered

/// The packages that the system is made of.
pub open spec fn active(visor: bool) -> Seq<Seq<char>> {
    if visor {
        smechvisor_packages()
    } else {
        smechos_packages()
    }
}

/// The name of the repository.
pub open spec fn repo_id(visor: bool) -> Seq<char> {
    if visor {
        "smechvisor"@
    } else {
        "smechos"@
    }
}

/// The line that offers a package.
pub open spec fn offer(package: Seq<char>, visor: bool, about: Seq<char>) -> Seq<char> {
    "package\tavailable\t"@ + package + ";2.0.0;x86_64;"@ + repo_id(visor) + "\t"@ + about + package
}

/// The lines that offer some packages.
pub open spec fn offers(packages: Seq<Seq<char>>, visor: bool, about: Seq<char>) -> Seq<Seq<char>> {
    packages.map_values(|p: Seq<char>| offer(p, visor, about))
}

/// The command of a request, and its third field, where there is one.
pub open spec fn command(line: Seq<char>) -> Seq<char> {
    pieces(trimmed(line), '\t')[0]
}

pub open spec fn argument(line: Seq<char>) -> Seq<char> {
    let ps = pieces(trimmed(line), '\t');
    if ps.len() > 2 {
        ps[2]
    } else {
        seq![]
    }
}

/// The reply to a request to look a package up.
pub open spec fn lookup_reply(package: Seq<char>, visor: bool) -> Seq<Seq<char>> {
    seq![
        "status\tquery"@,
        if active(visor).contains(package) {
            offer(package, visor, "Smech Labs package: "@)
        } else {
            "error\tpackage-not-found\tPackage '"@ + package + "' not found in SPK repos"@
        },
        "finished"@,
    ]
}

/// What is to be done about a request to install the package of an identifier.
pub open spec fn install_answer(id: Seq<char>) -> PkAnswerModel {
    let package = before(id, ';');
    PkAnswerModel::Install {
        package,
        first: seq![
            "status\tinstall"@,
            "package\tinstalling\t"@ + id + "\tInstalling "@ + package + "..."@,
            "progress\t10"@,
        ],
        success: seq![
            "progress\t100"@,
            "package\tinstalled\t"@ + id + "\t"@ + package + " installed"@,
            "finished"@,
        ],
        failure: seq![
            "error\tpackage-install-failed\tFailed to install "@ + package,
            "finished"@,
        ],
    }
}

/// What is to be done about a request.
pub open spec fn answer(line: Seq<char>, visor: bool) -> PkAnswerModel {
    let c = command(line);
    if c == "get-packages"@ {
        PkAnswerModel::Reply {
            lines: seq!["status\tquery"@] + offers(active(visor), visor, "Smech Labs package: "@)
                + seq!["finished"@],
        }
    } else if c == "resolve"@ {
        PkAnswerModel::Reply { lines: lookup_reply(argument(line), visor) }
    } else if c == "install-packages"@ {
        install_answer(argument(line))
    } else if c == "remove-packages"@ {
        PkAnswerModel::Reply {
            lines: seq![
                "error\tnot-supported\tSPK does not support package removal in this version"@,
                "finished"@,
            ],
        }
    } else if c == "update-packages"@ || c == "get-updates"@ {
        PkAnswerModel::Reply {
            lines: seq!["status\tquery"@] + offers(active(visor), visor, "Update available: "@)
                + seq!["finished"@],
        }
    } else if c == "refresh-cache"@ {
        PkAnswerModel::Reply { lines: seq!["status\trefresh-cache"@, "finished"@] }
    } else if c == "get-repo-list"@ {
        PkAnswerModel::Reply {
            lines: seq![
                "status\tquery"@,
                "repo-detail\t"@ + repo_id(visor) + "\tSmech Labs Package Repository\ttrue"@,
                "finished"@,
            ],
        }
    } else if c == "quit"@ || c.len() == 0 {
        PkAnswerModel::Quit
    } else {
        PkAnswerModel::Reply {
            lines: seq!["error\tnot-supported\tUnknown command: "@ + c, "finished"@],
        }
    }
}

// ---------------------------------------------------------------- answering

fn list_active(visor: bool) -> (r: Vec<String>)
    ensures
        texts(r@) == active(visor),
{
    if visor {
        list_smechvisor_packages()
    } else {
        list_smechos_packages()
    }
}

fn name_repo(visor: bool) -> (r: &'static str)
    ensures
        r@ == repo_id(visor),
{
    if visor {
        "smechvisor"
    } else {
        "smechos"
    }
}

fn write_offer(package: &str, visor: bool, about: &str) -> (r: String)
    ensures
        r@ == offer(package@, visor, about@),
{
    let mut r = String::new();
    r.append("package\tavailable\t");
    r.append(package);
    r.append(";2.0.0;x86_64;");
    r.append(name_repo(visor));
    r.append("\t");
    r.append(about);
    r.append(package);
    assert(r@ =~= offer(package@, visor, about@));
    r
}

fn write_offers(visor: bool, about: &str) -> (r: Vec<String>)
    ensures
        texts(r@) == seq!["status\tquery"@] + offers(active(visor), visor, about@) + seq![
            "finished"@,
        ],
{
    let packages = list_active(visor);
    let ghost all = active(visor);
    let ghost first = seq!["status\tquery"@];
    let mut v: Vec<String> = Vec::new();
    v.push("status\tquery".to_string());
    let mut i: usize = 0;
    assert(texts(v@) =~= first + offers(all.take(0), visor, about@));
    while i < packages.len()
        invariant
            i <= packages@.len(),
            texts(packages@) == all,
            texts(v@) == first + offers(all.take(i as int), visor, about@),
        decreases packages@.len() - i,
    {
        let ghost had = v@;
        let line = write_offer(packages[i].as_str(), visor, about);
        v.push(line);
        proof {
            assert(all[i as int] == packages@[i as int]@);
            assert(all.take(i + 1) =~= all.take(i as int).push(all[i as int]));
            assert(offers(all.take(i + 1), visor, about@) =~= offers(
                all.take(i as int),
                visor,
                about@,
            ).push(line@));
            assert(texts(v@) =~= texts(had).push(line@));
            assert(texts(v@) =~= first + offers(all.take(i + 1), visor, about@));
        }
        i += 1;
    }
    assert(all.take(i as int) =~= all);
    let ghost most = v@;
    v.push("finished".to_string());
    assert(texts(v@) =~= texts(most).push("finished"@));
    v
}

fn write_lookup(package: &str, visor: bool) -> (r: Vec<String>)
    ensures
        texts(r@) == lookup_reply(package@, visor),
{
    let found = has_text(&list_active(visor), package);
    let line = if found {
        write_offer(package, visor, "Smech Labs package: ")
    } else {
        let mut line = String::new();
        line.append("error\tpackage-not-found\tPackage '");
        line.append(package);
        line.append("' not found in SPK repos");
        assert(line@ =~= "error\tpackage-not-found\tPackage '"@ + package@
            + "' not found in SPK repos"@);
        line
    };
    let mut v: Vec<String> = Vec::new();
    v.push("status\tquery".to_string());
    v.push(line);
    v.push("finished".to_string());
    assert(texts(v@) =~= lookup_reply(package@, visor));
    v
}

fn write_install(id: &str) -> (r: PkAnswer)
    ensures
        r@ == install_answer(id@),
{
    let chars = chars_of(id);
    let package = string_of(take_before(chars.as_slice(), ';'));
    let mut installing = String::new();
    installing.append("package\tinstalling\t");
    installing.append(id);
    installing.append("\tInstalling ");
    installing.append(package.as_str());
    installing.append("...");
    assert(installing@ =~= "package\tinstalling\t"@ + id@ + "\tInstalling "@ + package@ + "..."@);
    let mut first: Vec<String> = Vec::new();
    first.push("status\tinstall".to_string());
    first.push(installing);
    first.push("progress\t10".to_string());
    let mut installed = String::new();
    installed.append("package\tinstalled\t");
    installed.append(id);
    installed.append("\t");
    installed.append(package.as_str());
    installed.append(" installed");
    assert(installed@ =~= "package\tinstalled\t"@ + id@ + "\t"@ + package@ + " installed"@);
    let mut success: Vec<String> = Vec::new();
    success.push("progress\t100".to_string());
    success.push(installed);
    success.push("finished".to_string());
    let mut failed = String::new();
    failed.append("error\tpackage-install-failed\tFailed to install ");
    failed.append(package.as_str());
    assert(failed@ =~= "error\tpackage-install-failed\tFailed to install "@ + package@);
    let mut failure: Vec<String> = Vec::new();
    failure.push(failed);
    failure.push("finished".to_string());
    let r = PkAnswer::Install { package, first, success, failure };
    proof {
        let m = install_answer(id@);
        assert(texts(first@) =~= m->first);
        assert(texts(success@) =~= m->success);
        assert(texts(failure@) =~= m->failure);
    }
    r
}

fn two_lines(first: &str, second: &str) -> (r: PkAnswer)
    ensures
        r@ == (PkAnswerModel::Reply { lines: seq![first@, second@] }),
{
    let mut v: Vec<String> = Vec::new();
    v.push(first.to_string());
    v.push(second.to_string());
    assert(texts(v@) =~= seq![first@, second@]);
    PkAnswer::Reply { lines: v }
}

/// Answers a request.
pub fn cmd_packagekit_backend(line: &str, visor: bool) -> (r: PkAnswer)
    ensures
        r@ == answer(line@, visor),
{
    let chars = chars_of(line);
    let ps = split(trim(chars.as_slice()), '\t');
    let ghost all = pieces(trimmed(line@), '\t');
    assert(all.len() == ps@.len());
    assert(all[0] == ps@[0]@);
    let c = string_of(ps[0]);
    let c = c.as_str();
    let a = if ps.len() > 2 {
        assert(all[2] == ps@[2]@);
        string_of(ps[2])
    } else {
        String::new()
    };
    assert(a@ =~= argument(line@));
    if equal(c, "get-packages") {
        PkAnswer::Reply { lines: write_offers(visor, "Smech Labs package: ") }
    } else if equal(c, "resolve") {
        PkAnswer::Reply { lines: write_lookup(a.as_str(), visor) }
    } else if equal(c, "install-packages") {
        write_install(a.as_str())
    } else if equal(c, "remove-packages") {
        two_lines(
            "error\tnot-supported\tSPK does not support package removal in this version",
            "finished",
        )
    } else if equal(c, "update-packages") || equal(c, "get-updates") {
        PkAnswer::Reply { lines: write_offers(visor, "Update available: ") }
    } else if equal(c, "refresh-cache") {
        two_lines("status\trefresh-cache", "finished")
    } else if equal(c, "get-repo-list") {
        let mut detail = String::new();
        detail.append("repo-detail\t");
        detail.append(name_repo(visor));
        detail.append("\tSmech Labs Package Repository\ttrue");
        assert(detail@ =~= "repo-detail\t"@ + repo_id(visor)
            + "\tSmech Labs Package Repository\ttrue"@);
        let mut v: Vec<String> = Vec::new();
        v.push("status\tquery".to_string());
        v.push(detail);
        v.push("finished".to_string());
        assert(texts(v@) =~= seq!["status\tquery"@, detail@, "finished"@]);
        PkAnswer::Reply { lines: v }
    } else if equal(c, "quit") || c.is_empty() {
        PkAnswer::Quit
    } else {
        let mut unknown = String::new();
        unknown.append("error\tnot-supported\tUnknown command: ");
        unknown.append(c);
        assert(unknown@ =~= "error\tnot-supported\tUnknown command: "@ + c@);
        two_lines(unknown.as_str(), "finished")
    }
}

// ---------------------------------------------------------------- laws

/// Every reply ends by saying that it is finished, whatever came of an installation.
pub proof fn every_reply_is_finished(line: Seq<char>, visor: bool)
    ensures
        match answer(line, visor) {
            PkAnswerModel::Reply { lines } => lines.len() > 0 && lines.last() == "finished"@,
            PkAnswerModel::Install { success, failure, .. } => success.len() > 0 && success.last()
                == "finished"@ && failure.len() > 0 && failure.last() == "finished"@,
            PkAnswerModel::Quit => true,
        },
{
}

/// A package that is looked up is found exactly if it is among those that are listed.
pub proof fn what_is_listed_is_found(package: Seq<char>, visor: bool)
    ensures
        offers(active(visor), visor, "Smech Labs package: "@).contains(
            offer(package, visor, "Smech Labs package: "@),
        ) <== active(visor).contains(package),
        active(visor).contains(package) <==> lookup_reply(package, visor)[1] == offer(
            package,
            visor,
            "Smech Labs package: "@,
        ),
{
    if active(visor).contains(package) {
        let k = choose|k: int| 0 <= k < active(visor).len() && active(visor)[k] == package;
        assert(offers(active(visor), visor, "Smech Labs package: "@)[k] == offer(
            package,
            visor,
            "Smech Labs package: "@,
        ));
    } else {
        reveal_strlit("error\tpackage-not-found\tPackage '");
        reveal_strlit("package\tavailable\t");
        let e = "error\tpackage-not-found\tPackage '"@ + package + "' not found in SPK repos"@;
        let o = offer(package, visor, "Smech Labs package: "@);
        assert(e[0] == 'e');
        assert(o[0] == 'p');
    }
}

/// A request is its fields with tabs between them: the first is the command, and the third is
/// what the command is about, where there is a third.
pub proof fn a_request_is_its_fields(
    line: Seq<char>,
    c: Seq<char>,
    flags: Seq<char>,
    a: Seq<char>,
    more: Seq<char>,
)
    requires
        !c.contains('\t'),
        !flags.contains('\t'),
        !a.contains('\t'),
    ensures
        trimmed(line) == c ==> command(line) == c && argument(line).len() == 0,
        trimmed(line) == c + seq!['\t'] + flags ==> command(line) == c && argument(line).len() == 0,
        trimmed(line) == c + seq!['\t'] + (flags + seq!['\t'] + a) ==> command(line) == c
            && argument(line) == a,
        trimmed(line) == c + seq!['\t'] + (flags + seq!['\t'] + (a + seq!['\t'] + more))
            ==> command(line) == c && argument(line) == a,
{
    lemma_one_piece(c, '\t');
    lemma_one_piece(flags, '\t');
    lemma_one_piece(a, '\t');
    lemma_first_piece(c, flags, '\t');
    lemma_first_piece(flags, a, '\t');
    lemma_first_piece(c, flags + seq!['\t'] + a, '\t');
    lemma_first_piece(a, more, '\t');
    lemma_first_piece(flags, a + seq!['\t'] + more, '\t');
    lemma_first_piece(c, flags + seq!['\t'] + (a + seq!['\t'] + more), '\t');
}

proof fn lemma_commands_differ()
    ensures
        "get-packages"@.len() == 12,
        "resolve"@.len() == 7,
        "install-packages"@.len() == 16,
        "remove-packages"@.len() == 15 && "remove-packages"@[0] == 'r',
        "update-packages"@.len() == 15 && "update-packages"@[0] == 'u',
        "get-updates"@.len() == 11,
        "refresh-cache"@.len() == 13 && "refresh-cache"@[0] == 'r',
        "get-repo-list"@.len() == 13 && "get-repo-list"@[0] == 'g',
        "quit"@.len() == 4,
{
    reveal_strlit("get-packages");
    reveal_strlit("resolve");
    reveal_strlit("install-packages");
    reveal_strlit("remove-packages");
    reveal_strlit("update-packages");
    reveal_strlit("get-updates");
    reveal_strlit("refresh-cache");
    reveal_strlit("get-repo-list");
    reveal_strlit("quit");
}

/// The packages of each system, and where they come from.
pub proof fn each_system_has_its_own_packages()
    ensures
        active(false) == seq![
            "base-system"@,
            "kernel-modules"@,
            "firmware"@,
            "bootloader-grub"@,
            "kde-frameworks"@,
            "plasma"@,
            "qt6"@,
            "mesa-graphics"@,
            "plasma-discover"@,
            "packagekit-spk"@,
        ],
        active(true) == seq!["smechvisor-daemon"@, "smechvisor-base"@],
        repo_id(false) == "smechos"@,
        repo_id(true) == "smechvisor"@,
{
}

/// Whether some lines offer the packages of a system, each once and in order, between a line
/// that says what is going on and one that says that it is finished.
pub open spec fn offer_all(ls: Seq<Seq<char>>, visor: bool, about: Seq<char>) -> bool {
    &&& ls.len() == active(visor).len() + 2
    &&& ls[0] == "status\tquery"@
    &&& ls.last() == "finished"@
    &&& forall|k: int|
        0 <= k < active(visor).len() ==> #[trigger] ls[k + 1] == "package\tavailable\t"@ + active(
            visor,
        )[k] + ";2.0.0;x86_64;"@ + repo_id(visor) + "\t"@ + about + active(visor)[k]
}

/// A request for all packages is answered with those of the system that asks, and so is a
/// request for updates, under both its names.
pub proof fn all_packages_of_the_system_are_offered(line: Seq<char>, visor: bool)
    ensures
        command(line) == "get-packages"@ ==> (answer(line, visor) matches PkAnswerModel::Reply {
            lines,
        } && offer_all(lines, visor, "Smech Labs package: "@)),
        command(line) == "get-updates"@ || command(line) == "update-packages"@ ==> (answer(
            line,
            visor,
        ) matches PkAnswerModel::Reply { lines } && offer_all(lines, visor, "Update available: "@)),
{
    lemma_commands_differ();
}

/// What is looked up is offered in the same words as when everything is listed, exactly if it
/// is a package of the system; if not, the reply says that there is no such package.
pub proof fn looking_up_agrees_with_listing(all: Seq<char>, one: Seq<char>, visor: bool)
    requires
        command(all) == "get-packages"@,
        command(one) == "resolve"@,
    ensures
        answer(all, visor) matches PkAnswerModel::Reply { lines: ls } && answer(
            one,
            visor,
        ) matches PkAnswerModel::Reply { lines: rs } && {
            let package = argument(one);
            &&& rs.len() == 3 && rs[0] == "status\tquery"@ && rs[2] == "finished"@
            &&& ls.contains(rs[1]) <==> active(visor).contains(package)
            &&& active(visor).contains(package) ==> exists|k: int|
                0 <= k < active(visor).len() && active(visor)[k] == package && rs[1] == #[trigger] ls[k
                    + 1]
            &&& !active(visor).contains(package) ==> rs[1]
                == "error\tpackage-not-found\tPackage '"@ + package + "' not found in SPK repos"@
        },
{
    lemma_commands_differ();
    all_packages_of_the_system_are_offered(all, visor);
    let ls = answer(all, visor)->lines;
    let rs = answer(one, visor)->lines;
    let package = argument(one);
    if active(visor).contains(package) {
        let k = choose|k: int| 0 <= k < active(visor).len() && active(visor)[k] == package;
        assert(rs[1] == ls[k + 1]);
    } else {
        reveal_strlit("error\tpackage-not-found\tPackage '");
        reveal_strlit("package\tavailable\t");
        reveal_strlit("status\tquery");
        reveal_strlit("finished");
        assert(rs[1][0] == 'e');
        if ls.contains(rs[1]) {
            let j = choose|j: int| 0 <= j < ls.len() && ls[j] == rs[1];
            if 0 < j < ls.len() - 1 {
                assert(ls[(j - 1) + 1][0] == 'p');
            }
        }
    }
}

/// A request to install a package installs the one that its identifier names in front of the
/// first semicolon. The replies speak of that package under that identifier; that it is
/// installed is said after a success only, and that it failed after a failure only.
pub proof fn a_request_installs_what_it_names(line: Seq<char>, visor: bool)
    requires
        command(line) == "install-packages"@,
    ensures
        answer(line, visor) matches PkAnswerModel::Install { package, first, success, failure } && {
            let id = argument(line);
            &&& !package.contains(';')
            &&& !id.contains(';') ==> package == id
            &&& id.contains(';') ==> exists|rest: Seq<char>| id == #[trigger] (package + seq![';'] + rest)
            &&& first == seq![
                "status\tinstall"@,
                "package\tinstalling\t"@ + id + "\tInstalling "@ + package + "..."@,
                "progress\t10"@,
            ]
            &&& success == seq![
                "progress\t100"@,
                "package\tinstalled\t"@ + id + "\t"@ + package + " installed"@,
                "finished"@,
            ]
            &&& failure == seq![
                "error\tpackage-install-failed\tFailed to install "@ + package,
                "finished"@,
            ]
        },
{
    lemma_commands_differ();
    let id = argument(line);
    lemma_until(id, ';');
    let n = until(id, ';') as int;
    if id.contains(';') {
        let i = choose|i: int| 0 <= i < id.len() && id[i] == ';';
        assert(n <= i);
        assert(id =~= before(id, ';') + seq![';'] + id.skip(n + 1));
    } else {
        if n < id.len() {
            assert(id.contains(id[n]));
        }
        assert(before(id, ';') =~= id);
    }
}

/// Nothing is removed, and nothing is installed, but on a request to install. What is neither
/// supported nor known is refused; an empty request ends the conversation, as does one to
/// quit.
pub proof fn other_requests_are_answered(line: Seq<char>, visor: bool)
    ensures
        answer(line, visor) is Install <==> command(line) == "install-packages"@,
        answer(line, visor) is Quit <==> command(line) == "quit"@ || command(line).len() == 0,
        command(line) == "remove-packages"@ ==> answer(line, visor) == (PkAnswerModel::Reply {
            lines: seq![
                "error\tnot-supported\tSPK does not support package removal in this version"@,
                "finished"@,
            ],
        }),
        command(line) == "refresh-cache"@ ==> answer(line, visor) == (PkAnswerModel::Reply {
            lines: seq!["status\trefresh-cache"@, "finished"@],
        }),
        command(line) == "get-repo-list"@ ==> answer(line, visor) == (PkAnswerModel::Reply {
            lines: seq![
                "status\tquery"@,
                "repo-detail\t"@ + repo_id(visor) + "\tSmech Labs Package Repository\ttrue"@,
                "finished"@,
            ],
        }),
        command(line).len() > 0 && !seq![
            "get-packages"@,
            "resolve"@,
            "install-packages"@,
            "remove-packages"@,
            "update-packages"@,
            "get-updates"@,
            "refresh-cache"@,
            "get-repo-list"@,
            "quit"@,
        ].contains(command(line)) ==> answer(line, visor) == (PkAnswerModel::Reply {
            lines: seq!["error\tnot-supported\tUnknown command: "@ + command(line), "finished"@],
        }),
{
    lemma_commands_differ();
    let names = seq![
        "get-packages"@,
        "resolve"@,
        "install-packages"@,
        "remove-packages"@,
        "update-packages"@,
        "get-updates"@,
        "refresh-cache"@,
        "get-repo-list"@,
        "quit"@,
    ];
    let c = command(line);
    if !names.contains(c) {
        assert(names[0] != c && names[1] != c && names[2] != c && names[3] != c && names[4] != c
            && names[5] != c && names[6] != c && names[7] != c && names[8] != c);
    }
}

} // verus!
