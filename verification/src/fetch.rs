//! Fetching a package: which repository is asked next, and under which URL.

use crate::repo::{
    by_priority_is_a_stable_sort, by_priority_keeps_all, conf_repos, default_models, loaded, models,
    occurrences, Repo, RepoModel,
};
use crate::text::{
    chars_of, is_space, lines, optional, slices, space, split_lines, string_of, strip_trailing,
    texts, trim_start, trimmed_start, without_trailing,
};
use crate::text_lemmas::{lemma_indented, only_trailing_separators_go};
use vstd::prelude::*;
use vstd::slice::slice_subrange;
use vstd::string::*;

verus! {

/// Whether a repository may be asked without a warning.
pub open spec fn is_trusted(r: RepoModel) -> bool {
    r.priority < 100
}

/// The repositories of a list that are trusted, or those that are not, in order.
pub open spec fn with_trust(rs: Seq<RepoModel>, trusted: bool) -> Seq<RepoModel>
    decreases rs.len(),
{
    if rs.len() == 0 {
        seq![]
    } else if is_trusted(rs.last()) == trusted {
        with_trust(rs.drop_last(), trusted).push(rs.last())
    } else {
        with_trust(rs.drop_last(), trusted)
    }
}

/// The order in which repositories are asked: those that are not trusted come last.
pub open spec fn ask_order(rs: Seq<RepoModel>) -> Seq<RepoModel> {
    with_trust(rs, true) + with_trust(rs, false)
}

/// The URL of a file in a repository.
pub open spec fn file_url(base: Seq<char>, file: Seq<char>) -> Seq<char> {
    without_trailing(base, '/') + "/"@ + file
}

/// The name of a package's file.
pub open spec fn package_file(pkg: Seq<char>, ext: Seq<char>) -> Seq<char> {
    pkg + "."@ + ext
}

/// One attempt to fetch a file: what is asked of which repository.
pub struct FetchAttempt {
    pub repo: Repo,
    pub trusted: bool,
    pub url: String,
}

/// What a [`FetchAttempt`] holds.
pub struct AttemptModel {
    pub repo: RepoModel,
    pub trusted: bool,
    pub url: Seq<char>,
}

impl View for FetchAttempt {
    type V = AttemptModel;

    open spec fn view(&self) -> AttemptModel {
        AttemptModel { repo: self.repo@, trusted: self.trusted, url: self.url@ }
    }
}

pub open spec fn attempt_models(v: Seq<FetchAttempt>) -> Seq<AttemptModel> {
    v.map_values(|a: FetchAttempt| a@)
}

/// The attempt to fetch a file from one repository.
pub open spec fn file_attempt(r: RepoModel, file: Seq<char>) -> AttemptModel {
    AttemptModel { repo: r, trusted: is_trusted(r), url: file_url(r.url, file) }
}

/// The attempt to fetch a package's file from one repository.
pub open spec fn attempt(r: RepoModel, pkg: Seq<char>, ext: Seq<char>) -> AttemptModel {
    file_attempt(r, package_file(pkg, ext))
}

/// The attempts to fetch a package's file, in the order in which they are made until
/// one succeeds.
pub open spec fn attempts(rs: Seq<RepoModel>, pkg: Seq<char>, ext: Seq<char>) -> Seq<AttemptModel> {
    Seq::new(ask_order(rs).len(), |i: int| attempt(ask_order(rs)[i], pkg, ext))
}

impl FetchAttempt {
    pub fn copy(&self) -> (r: FetchAttempt)
        ensures
            r@ == self@,
    {
        FetchAttempt { repo: self.repo.copy(), trusted: self.trusted, url: self.url.clone() }
    }
}

/// The URL of a file in a repository.
pub fn repo_file_url(base: &str, file: &str) -> (r: String)
    ensures
        r@ == file_url(base@, file@),
{
    let base = chars_of(base);
    let mut r = string_of(strip_trailing(base.as_slice(), '/'));
    r.append("/");
    r.append(file);
    r
}

/// The attempt to fetch a file from one repository.
fn attempt_at(repo: &Repo, file: &str) -> (r: FetchAttempt)
    ensures
        r@ == file_attempt(repo@, file@),
{
    let url = repo_file_url(repo.url.as_str(), file);
    FetchAttempt { repo: repo.copy(), trusted: repo.priority < 100, url }
}

/// The name of a package's file.
fn package_file_name(pkg: &str, ext: &str) -> (r: String)
    ensures
        r@ == package_file(pkg@, ext@),
{
    let mut r = pkg.to_string();
    r.append(".");
    r.append(ext);
    r
}

/// Appends the attempts at the repositories that are trusted, or at those that are not.
fn push_attempts(
    r: &mut Vec<FetchAttempt>,
    repos: &Vec<Repo>,
    trusted: bool,
    pkg: &str,
    ext: &str,
)
    ensures
        attempt_models(final(r)@) == attempt_models(old(r)@) + with_trust(
            models(repos@),
            trusted,
        ).map_values(|m: RepoModel| attempt(m, pkg@, ext@)),
{
    let ghost all = models(repos@);
    let ghost at = |m: RepoModel| attempt(m, pkg@, ext@);
    let ghost had = attempt_models(r@);
    let file = package_file_name(pkg, ext);
    let mut i: usize = 0;
    assert(attempt_models(r@) =~= had + with_trust(all.take(0), trusted).map_values(at));
    while i < repos.len()
        invariant
            i <= repos@.len(),
            all == models(repos@),
            all.len() == repos@.len(),
            file@ == package_file(pkg@, ext@),
            forall|m: RepoModel| #[trigger] at(m) == attempt(m, pkg@, ext@),
            attempt_models(r@) == had + with_trust(all.take(i as int), trusted).map_values(at),
        decreases repos@.len() - i,
    {
        let repo = &repos[i];
        proof {
            assert(all[i as int] == repo@);
            assert(all.take(i + 1).drop_last() == all.take(i as int));
        }
        if (repo.priority < 100) == trusted {
            let a = attempt_at(repo, file.as_str());
            let ghost before = r@;
            r.push(a);
            proof {
                let w = with_trust(all.take(i as int), trusted);
                assert(with_trust(all.take(i + 1), trusted) == w.push(repo@));
                assert(w.push(repo@).map_values(at) =~= w.map_values(at).push(at(repo@)));
                assert(attempt_models(r@) =~= attempt_models(before).push(a@));
                assert(attempt_models(r@) =~= had + w.push(repo@).map_values(at));
            }
        }
        i += 1;
    }
    assert(all.take(i as int) == all);
}

/// The attempts to fetch the file `pkg.ext`: every repository in order, those that are
/// not trusted after all the others.
pub fn fetch_package_ext(pkg: &str, ext: &str, repos: &Vec<Repo>) -> (r: Vec<FetchAttempt>)
    ensures
        attempt_models(r@) == attempts(models(repos@), pkg@, ext@),
{
    let mut r: Vec<FetchAttempt> = Vec::new();
    push_attempts(&mut r, repos, true, pkg, ext);
    push_attempts(&mut r, repos, false, pkg, ext);
    assert(attempt_models(r@) =~= attempts(models(repos@), pkg@, ext@));
    r
}

/// The attempts to fetch a package as a bare archive.
pub fn fetch_package(pkg: &str, repos: &Vec<Repo>) -> (r: Vec<FetchAttempt>)
    ensures
        attempt_models(r@) == attempts(models(repos@), pkg@, "tar.xz"@),
{
    fetch_package_ext(pkg, "tar.xz", repos)
}

// ---------------------------------------------------------------- the package index

/// How many characters stand before the first white space.
pub open spec fn word_length(s: Seq<char>) -> nat
    decreases s.len(),
{
    if s.len() == 0 || is_space(s[0]) {
        0
    } else {
        1 + word_length(s.drop_first())
    }
}

/// The first word of a line, if it has one.
pub open spec fn first_word(line: Seq<char>) -> Option<Seq<char>> {
    let s = trimmed_start(line);
    if s.len() == 0 {
        None
    } else {
        Some(s.take(word_length(s) as int))
    }
}

/// The packages that an index lists: the first word of each line.
pub open spec fn index_names(ls: Seq<Seq<char>>) -> Seq<Seq<char>>
    decreases ls.len(),
{
    if ls.len() == 0 {
        seq![]
    } else {
        match first_word(ls.last()) {
            Some(w) => index_names(ls.drop_last()).push(w),
            None => index_names(ls.drop_last()),
        }
    }
}

fn read_word(line: &[char]) -> (r: Option<&[char]>)
    ensures
        match r {
            Some(w) => first_word(line@) == Some(w@),
            None => first_word(line@) is None,
        },
{
    let s = trim_start(line);
    if s.len() == 0 {
        return None;
    }
    let mut n: usize = 0;
    assert(s@.skip(0) == s@);
    while n < s.len() && !space(s[n])
        invariant
            n <= s@.len(),
            word_length(s@) == n + word_length(s@.skip(n as int)),
        decreases s@.len() - n,
    {
        assert(s@.skip(n as int).drop_first() == s@.skip(n + 1));
        n += 1;
    }
    assert(s@.take(n as int) == s@.subrange(0, n as int));
    Some(slice_subrange(s, 0, n))
}

/// Reads an index.
pub fn parse_index(text: &str) -> (r: Vec<String>)
    ensures
        texts(r@) == index_names(lines(text@)),
{
    let mut r: Vec<String> = Vec::new();
    let chars = chars_of(text);
    let ls = split_lines(chars.as_slice());
    let ghost all = lines(text@);
    let mut i: usize = 0;
    assert(texts(r@) =~= index_names(all.take(0)));
    while i < ls.len()
        invariant
            i <= ls@.len(),
            slices(ls@) == all,
            all.len() == ls@.len(),
            texts(r@) == index_names(all.take(i as int)),
        decreases ls@.len() - i,
    {
        proof {
            assert(all[i as int] == ls@[i as int]@);
            assert(all.take(i + 1).drop_last() == all.take(i as int));
        }
        if let Some(w) = read_word(ls[i]) {
            let ghost had = r@;
            let word = string_of(w);
            r.push(word);
            assert(texts(r@) =~= texts(had).push(word@));
        }
        i += 1;
    }
    assert(all.take(i as int) == all);
    r
}

/// What comes next in the search for a package index.
pub enum IndexStep {
    /// Make this attempt to fetch an index, with a warning first if the repository is not
    /// trusted.
    Ask { attempt: FetchAttempt },
    /// The repository of this name lists these packages.
    Found { repo: String, names: Vec<String> },
    /// No repository has an index that lists a package.
    NotFound,
}

/// What an [`IndexStep`] says.
pub enum IndexModel {
    Ask { attempt: AttemptModel },
    Found { repo: Seq<char>, names: Seq<Seq<char>> },
    NotFound,
}

impl View for IndexStep {
    type V = IndexModel;

    open spec fn view(&self) -> IndexModel {
        match self {
            IndexStep::Ask { attempt } => IndexModel::Ask { attempt: attempt@ },
            IndexStep::Found { repo, names } => IndexModel::Found {
                repo: repo@,
                names: texts(names@),
            },
            IndexStep::NotFound => IndexModel::NotFound,
        }
    }
}

/// What comes next in the search for an index, when `asked` repositories were asked
/// before and the last of them gave `last`: the text of its index, or `None` where it
/// could not be fetched.
pub open spec fn index_step(rs: Seq<RepoModel>, asked: int, last: Option<Seq<char>>) -> IndexModel {
    let names = match last {
        Some(text) => index_names(lines(text)),
        None => seq![],
    };
    if asked > 0 && names.len() > 0 {
        IndexModel::Found { repo: rs[asked - 1].name, names }
    } else if asked < rs.len() {
        IndexModel::Ask { attempt: file_attempt(rs[asked], "index.txt"@) }
    } else {
        IndexModel::NotFound
    }
}

/// Searches the repositories, in order, for one whose index lists a package.
pub fn fetch_repo_index(repos: &Vec<Repo>, asked: usize, last: Option<&str>) -> (r: IndexStep)
    requires
        asked <= repos@.len(),
    ensures
        r@ == index_step(models(repos@), asked as int, optional(last)),
{
    let ghost rs = models(repos@);
    if asked > 0 {
        assert(rs[asked - 1] == repos@[asked - 1]@);
        if let Some(text) = last {
            let names = parse_index(text);
            assert(texts(names@).len() == names@.len());
            if names.len() > 0 {
                return IndexStep::Found { repo: repos[asked - 1].name.clone(), names };
            }
        }
    }
    if asked < repos.len() {
        assert(rs[asked as int] == repos@[asked as int]@);
        IndexStep::Ask { attempt: attempt_at(&repos[asked], "index.txt") }
    } else {
        IndexStep::NotFound
    }
}

// ---------------------------------------------------------------- laws

proof fn lemma_with_trust(rs: Seq<RepoModel>, trusted: bool)
    ensures
        forall|i: int|
            0 <= i < with_trust(rs, trusted).len() ==> is_trusted(
                #[trigger] with_trust(rs, trusted)[i],
            ) == trusted,
    decreases rs.len(),
{
    if rs.len() > 0 {
        let w = with_trust(rs.drop_last(), trusted);
        lemma_with_trust(rs.drop_last(), trusted);
        assert forall|i: int| 0 <= i < with_trust(rs, trusted).len() implies is_trusted(
            #[trigger] with_trust(rs, trusted)[i],
        ) == trusted by {
            if i < w.len() {
                assert(with_trust(rs, trusted)[i] == w[i]);
            }
        }
    }
}

/// A repository that is not trusted is a last resort: no trusted one is asked after it.
pub proof fn untrusted_is_last_resort(
    rs: Seq<RepoModel>,
    pkg: Seq<char>,
    ext: Seq<char>,
    i: int,
    j: int,
)
    requires
        0 <= i < j < attempts(rs, pkg, ext).len(),
        !attempts(rs, pkg, ext)[i].trusted,
    ensures
        !attempts(rs, pkg, ext)[j].trusted,
{
    lemma_with_trust(rs, true);
    lemma_with_trust(rs, false);
    let t = with_trust(rs, true);
    if j < t.len() {
        assert(is_trusted(t[i]));
    } else {
        assert(!is_trusted(with_trust(rs, false)[j - t.len()]));
    }
}

proof fn lemma_trust_of_sorted(rs: Seq<RepoModel>)
    requires
        forall|i: int, j: int| 0 <= i <= j < rs.len() ==> rs[i].priority <= rs[j].priority,
    ensures
        ask_order(rs) == rs,
        rs.len() > 0 && is_trusted(rs.last()) ==> with_trust(rs, false).len() == 0,
    decreases rs.len(),
{
    if rs.len() > 0 {
        let some = rs.drop_last();
        assert forall|i: int, j: int| 0 <= i <= j < some.len() implies some[i].priority
            <= some[j].priority by {
            assert(rs[i].priority <= rs[j].priority);
        }
        lemma_trust_of_sorted(some);
        if some.len() > 0 {
            assert(rs[some.len() - 1].priority <= rs[some.len() as int].priority);
        }
        if is_trusted(rs.last()) {
            assert(with_trust(some, false).len() == 0);
            assert(with_trust(some, false) =~= seq![]);
            assert(ask_order(rs) =~= ask_order(some).push(rs.last()));
        } else {
            assert(ask_order(rs) =~= ask_order(some).push(rs.last()));
        }
        assert(ask_order(rs) =~= rs);
    } else {
        assert(ask_order(rs) =~= rs);
    }
}

/// Whatever the configuration file says, every repository is asked, once, in the order
/// of priorities.
pub proof fn asked_in_order_of_priority(conf: Option<Seq<char>>)
    ensures
        ask_order(loaded(conf)) == loaded(conf),
        forall|i: int, j: int|
            0 <= i <= j < loaded(conf).len() ==> loaded(conf)[i].priority <= loaded(conf)[j].priority,
{
    if let Some(text) = conf {
        by_priority_is_a_stable_sort(
            if conf_repos(text).len() == 0 {
                default_models()
            } else {
                conf_repos(text)
            },
        );
    }
    lemma_trust_of_sorted(loaded(conf));
}

/// In the search for an index too a repository that is not trusted is a last resort:
/// where repositories stand in the order of priorities, each that comes before it in that
/// order, and so each trusted one, was asked before, and the attempt says that it is not
/// trusted.
pub proof fn untrusted_index_is_last_resort(
    rs: Seq<RepoModel>,
    asked: int,
    last: Option<Seq<char>>,
)
    requires
        forall|i: int, j: int| 0 <= i <= j < rs.len() ==> rs[i].priority <= rs[j].priority,
        0 <= asked <= rs.len(),
        index_step(rs, asked, last) is Ask,
    ensures
        index_step(rs, asked, last) matches IndexModel::Ask { attempt } && {
            &&& attempt.trusted == is_trusted(attempt.repo)
            &&& forall|j: int|
                0 <= j < rs.len() && (#[trigger] rs[j]).priority < attempt.repo.priority ==> j < asked
            &&& !attempt.trusted ==> forall|j: int|
                0 <= j < rs.len() && is_trusted(#[trigger] rs[j]) ==> j < asked
        },
{
    assert forall|j: int|
        0 <= j < rs.len() && (#[trigger] rs[j]).priority < rs[asked].priority implies j < asked by {
        if asked <= j {
            assert(rs[asked].priority <= rs[j].priority);
        }
    }
}

/// The index that is used is one that was asked for: that of the repository which the step
/// before made an attempt at, and only where that attempt gave packages. So none that is
/// not trusted serves an index unless a step has said so first.
pub proof fn index_is_of_the_asked(
    rs: Seq<RepoModel>,
    asked: int,
    before: Option<Seq<char>>,
    last: Option<Seq<char>>,
)
    requires
        0 <= asked < rs.len(),
        index_step(rs, asked, before) is Ask,
        index_step(rs, asked + 1, last) is Found,
    ensures
        index_step(rs, asked, before) matches IndexModel::Ask { attempt } && index_step(
            rs,
            asked + 1,
            last,
        ) matches IndexModel::Found { repo, names } && {
            &&& repo == attempt.repo.name
            &&& last matches Some(text) && names == index_names(lines(text))
            &&& names.len() > 0
        },
{
}

/// There is always a repository to ask.
pub proof fn some_repo_is_asked(conf: Option<Seq<char>>)
    ensures
        loaded(conf).len() > 0,
{
    if let Some(text) = conf {
        let rs = if conf_repos(text).len() == 0 {
            default_models()
        } else {
            conf_repos(text)
        };
        by_priority_keeps_all(rs, rs.last());
        assert(occurrences(rs, rs.last()) > 0);
    }
}

proof fn lemma_with_trust_has(rs: Seq<RepoModel>, trusted: bool, r: RepoModel)
    ensures
        with_trust(rs, trusted).contains(r) <==> rs.contains(r) && is_trusted(r) == trusted,
        with_trust(rs, true).len() + with_trust(rs, false).len() == rs.len(),
    decreases rs.len(),
{
    if rs.len() > 0 {
        let some = rs.drop_last();
        lemma_with_trust_has(some, trusted, r);
        let was = with_trust(some, trusted);
        let now = with_trust(rs, trusted);
        assert(rs.contains(r) <==> some.contains(r) || r == rs.last()) by {
            if some.contains(r) {
                let k = choose|k: int| 0 <= k < some.len() && some[k] == r;
                assert(rs[k] == r);
            }
            if r == rs.last() {
                assert(rs[rs.len() - 1] == r);
            }
            if rs.contains(r) && r != rs.last() {
                let k = choose|k: int| 0 <= k < rs.len() && rs[k] == r;
                assert(some[k] == r);
            }
        }
        if was.contains(r) {
            let k = choose|k: int| 0 <= k < was.len() && was[k] == r;
            assert(now[k] == r);
        }
        if now.contains(r) && !was.contains(r) {
            let k = choose|k: int| 0 <= k < now.len() && now[k] == r;
            if k < was.len() {
                assert(was[k] == r);
            }
        }
        if is_trusted(rs.last()) == trusted {
            assert(now[now.len() - 1] == rs.last());
        }
    }
}

/// A package is asked of every repository, once each, and of no other; each attempt is for the
/// package's file below that repository's own URL, and is marked as untrusted from a priority of
/// one hundred on.
pub proof fn every_repository_is_tried(
    rs: Seq<RepoModel>,
    pkg: Seq<char>,
    ext: Seq<char>,
    r: RepoModel,
)
    ensures
        ({
            let tries = attempts(rs, pkg, ext);
            &&& tries.len() == rs.len()
            &&& rs.contains(r) <==> exists|k: int| 0 <= k < tries.len() && (#[trigger] tries[k]).repo == r
            &&& forall|k: int|
                0 <= k < tries.len() ==> {
                    &&& (#[trigger] tries[k]).trusted <==> tries[k].repo.priority < 100
                    &&& tries[k].url == file_url(tries[k].repo.url, pkg + "."@ + ext)
                }
        }),
{
    lemma_with_trust_has(rs, true, r);
    lemma_with_trust_has(rs, false, r);
    let t = with_trust(rs, true);
    let u = with_trust(rs, false);
    let tries = attempts(rs, pkg, ext);
    if t.contains(r) {
        let k = choose|k: int| 0 <= k < t.len() && t[k] == r;
        assert(tries[k].repo == r);
    }
    if u.contains(r) {
        let k = choose|k: int| 0 <= k < u.len() && u[k] == r;
        assert(tries[t.len() + k].repo == r);
    }
    if exists|k: int| 0 <= k < tries.len() && (#[trigger] tries[k]).repo == r {
        let k = choose|k: int| 0 <= k < tries.len() && (#[trigger] tries[k]).repo == r;
        if k < t.len() {
            assert(t[k] == r);
        } else {
            assert(u[k - t.len()] == r);
        }
    }
}

/// The repositories of a system are tried in the order in which they are loaded.
pub proof fn configured_repositories_are_tried_in_order(
    conf: Option<Seq<char>>,
    pkg: Seq<char>,
    ext: Seq<char>,
    k: int,
)
    requires
        0 <= k < loaded(conf).len(),
    ensures
        attempts(loaded(conf), pkg, ext).len() == loaded(conf).len(),
        attempts(loaded(conf), pkg, ext)[k].repo == loaded(conf)[k],
{
    asked_in_order_of_priority(conf);
}

/// Between a repository's URL and a file there is one slash, however many the URL ends in.
pub proof fn one_slash_before_a_file(base: Seq<char>, file: Seq<char>)
    ensures
        base.len() == 0 || base.last() != '/' ==> file_url(base, file) == base + "/"@ + file,
        file_url(base.push('/'), file) == file_url(base, file),
{
    only_trailing_separators_go(base, '/');
}

proof fn lemma_word_length(s: Seq<char>)
    ensures
        word_length(s) <= s.len(),
        forall|i: int| 0 <= i < word_length(s) ==> !is_space(#[trigger] s[i]),
        word_length(s) < s.len() ==> is_space(s[word_length(s) as int]),
    decreases s.len(),
{
    if s.len() > 0 && !is_space(s[0]) {
        let t = s.drop_first();
        lemma_word_length(t);
        assert forall|i: int| 0 <= i < word_length(s) implies !is_space(#[trigger] s[i]) by {
            if i > 0 {
                assert(s[i] == t[i - 1]);
            }
        }
        if word_length(t) < t.len() {
            assert(s[word_length(s) as int] == t[word_length(t) as int]);
        }
    }
}

/// The first word of a line is what stands between the white space in front of it, if there is
/// any, and the white space after it, if there is any; a line of white space has none.
pub proof fn a_line_begins_with_its_word(
    indent: Seq<char>,
    word: Seq<char>,
    more: Seq<char>,
)
    requires
        forall|i: int| 0 <= i < indent.len() ==> #[trigger] is_space(indent[i]),
        word.len() > 0,
        forall|i: int| 0 <= i < word.len() ==> !is_space(#[trigger] word[i]),
        more.len() > 0 ==> is_space(more[0]),
    ensures
        first_word(indent + (word + more)) == Some(word),
        first_word(indent) is None,
{
    let s = word + more;
    assert(!is_space(word[0]));
    lemma_indented(indent, s);
    lemma_word_length(s);
    let n = word_length(s) as int;
    assert(n == word.len()) by {
        if n < word.len() {
            assert(!is_space(word[n]));
        }
        if n > word.len() {
            assert(!is_space(s[word.len() as int]));
        }
    }
    assert(s.take(n) =~= word);
    lemma_all_space(indent);
}

proof fn lemma_all_space(s: Seq<char>)
    requires
        forall|i: int| 0 <= i < s.len() ==> #[trigger] is_space(s[i]),
    ensures
        trimmed_start(s).len() == 0,
    decreases s.len(),
{
    if s.len() > 0 {
        assert(is_space(s[0]));
        let t = s.drop_first();
        assert forall|i: int| 0 <= i < t.len() implies #[trigger] is_space(t[i]) by {
            assert(is_space(s[i + 1]));
        }
        lemma_all_space(t);
    }
}

/// An index lists exactly the first words of its lines, in their order.
pub proof fn an_index_lists_first_words(a: Seq<Seq<char>>, b: Seq<Seq<char>>, name: Seq<char>)
    ensures
        index_names(a).contains(name) <==> exists|i: int|
            0 <= i < a.len() && first_word(#[trigger] a[i]) == Some(name),
        index_names(a + b) == index_names(a) + index_names(b),
    decreases a.len(), b.len(),
{
    if b.len() > 0 {
        assert((a + b).drop_last() =~= a + b.drop_last());
        an_index_lists_first_words(a, b.drop_last(), name);
        assert(index_names(a + b) =~= index_names(a) + index_names(b));
    } else {
        assert(a + b =~= a);
        assert(index_names(a + b) =~= index_names(a) + index_names(b));
        if a.len() > 0 {
            let some = a.drop_last();
            an_index_lists_first_words(some, b, name);
            let was = index_names(some);
            let now = index_names(a);
            if was.contains(name) {
                let k = choose|k: int| 0 <= k < was.len() && was[k] == name;
                assert(now[k] == name);
                let i = choose|i: int| 0 <= i < some.len() && first_word(#[trigger] some[i]) == Some(name);
                assert(a[i] == some[i]);
            } else if now.contains(name) {
                let k = choose|k: int| 0 <= k < now.len() && now[k] == name;
                if k < was.len() {
                    assert(was[k] == name);
                }
                assert(first_word(a[a.len() - 1]) == Some(name));
            } else {
                assert forall|i: int| 0 <= i < a.len() implies first_word(#[trigger] a[i]) != Some(
                    name,
                ) by {
                    if i < some.len() {
                        assert(some[i] == a[i]);
                    } else if first_word(a[i]) == Some(name) {
                        assert(now[now.len() - 1] == name);
                    }
                }
            }
        }
    }
}

/// The search for an index goes through the repositories one after the other, until one of
/// them has an index that lists a package; only where none has, none is found.
pub proof fn the_search_for_an_index_is_complete(
    rs: Seq<RepoModel>,
    asked: int,
    last: Option<Seq<char>>,
)
    requires
        0 <= asked <= rs.len(),
    ensures
        ({
            let listed = asked > 0 && (last matches Some(text) && index_names(lines(text)).len() > 0);
            let step = index_step(rs, asked, last);
            &&& listed ==> step == (IndexModel::Found {
                repo: rs[asked - 1].name,
                names: index_names(lines(last->0)),
            })
            &&& !listed && asked < rs.len() ==> (step matches IndexModel::Ask { attempt }
                && attempt.repo == rs[asked] && attempt.url == file_url(
                rs[asked].url,
                "index.txt"@,
            ))
            &&& !listed && asked == rs.len() ==> step is NotFound
        }),
{
}

} // verus!
