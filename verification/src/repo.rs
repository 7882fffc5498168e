//! Repositories: the configuration file that names them, and the order in which they
//! are asked for a package.

use crate::fields::{last_set, lemma_field_push, lemma_setting_puts, read_setting, setting};
use crate::number::{byte_of, parse_byte};
use crate::text::{
    before, begins, chars_of, is_space, is_text, lines, optional, slices, split_lines, starts_with,
    string_of, strip_leading, take_before, text_of, trim, trim_start, trimmed, trimmed_start,
    without_leading,
};
use crate::text_lemmas::{is_trimmed, lemma_trimmed_fixed};
use vstd::prelude::*;
use vstd::slice::slice_subrange;
use vstd::string::*;

verus! {

/// Where packages come from. Repositories are asked in the order of their priorities,
/// one before two; from one hundred on a repository is not trusted.
pub struct Repo {
    pub name: String,
    pub url: String,
    pub priority: u8,
}

/// What a [`Repo`] holds.
pub struct RepoModel {
    pub name: Seq<char>,
    pub url: Seq<char>,
    pub priority: u8,
}

impl View for Repo {
    type V = RepoModel;

    open spec fn view(&self) -> RepoModel {
        RepoModel { name: self.name@, url: self.url@, priority: self.priority }
    }
}

/// What a list of repositories holds.
pub open spec fn models(v: Seq<Repo>) -> Seq<RepoModel> {
    v.map_values(|r: Repo| r@)
}

pub open spec fn default_url() -> Seq<char> {
    "https://github.com/Smech-Labs/SmechDeploy/releases/download/v1.0.0-packages"@
}

/// The repositories of a system that names none.
pub open spec fn default_models() -> Seq<RepoModel> {
    seq![RepoModel { name: "default"@, url: default_url(), priority: 1 }]
}

/// The repositories of a system that names none.
pub fn default_repos() -> (r: Vec<Repo>)
    ensures
        models(r@) == default_models(),
{
    let repo = Repo {
        name: "default".to_string(),
        url: "https://github.com/Smech-Labs/SmechDeploy/releases/download/v1.0.0-packages".to_string(),
        priority: 1,
    };
    let mut r: Vec<Repo> = Vec::new();
    r.push(repo);
    assert(models(r@) =~= default_models());
    r
}

// ---------------------------------------------------------------- the configuration file

/// `s` without the quotation marks `q`, if it has one at either end.
pub open spec fn without_pair(s: Seq<char>, q: char) -> Seq<char> {
    if s.len() >= 2 && s[0] == q && s.last() == q {
        s.subrange(1, s.len() - 1)
    } else {
        s
    }
}

/// A value without the white space around it, and without its quotation marks.
pub open spec fn unquoted(s: Seq<char>) -> Seq<char> {
    without_pair(without_pair(trimmed(s), '"'), '\'')
}

/// The lines that count: comments and what is blank without them are left out, and so
/// is the white space in front.
pub open spec fn conf_lines(ls: Seq<Seq<char>>) -> Seq<Seq<char>>
    decreases ls.len(),
{
    if ls.len() == 0 {
        seq![]
    } else {
        let line = before(ls.last(), '#');
        if trimmed(line).len() == 0 {
            conf_lines(ls.drop_last())
        } else {
            conf_lines(ls.drop_last()).push(trimmed_start(line))
        }
    }
}

/// Whether some line opens the list of repositories.
pub open spec fn opens_list(ls: Seq<Seq<char>>) -> bool {
    exists|i: int| 0 <= i < ls.len() && begins(#[trigger] ls[i], "repos:"@)
}

/// The lines after the first one that opens the list of repositories.
pub open spec fn list_body(ls: Seq<Seq<char>>) -> Seq<Seq<char>>
    decreases ls.len(),
{
    if ls.len() == 0 {
        seq![]
    } else if begins(ls[0], "repos:"@) {
        ls.drop_first()
    } else {
        list_body(ls.drop_first())
    }
}

/// Whether a line begins the next entry of the list.
pub open spec fn opens_entry(line: Seq<char>) -> bool {
    begins(line, "- "@) || line == "-"@
}

/// The lines of the list, entry by entry. What stands before the first dash makes up
/// an entry as well; of a line with a dash, what follows the dash belongs to the entry.
pub open spec fn entries(ls: Seq<Seq<char>>) -> Seq<Seq<Seq<char>>>
    decreases ls.len(),
{
    if ls.len() == 0 {
        seq![seq![]]
    } else {
        let es = entries(ls.drop_last());
        if opens_entry(ls.last()) {
            es.push(seq![trimmed_start(without_leading(ls.last(), '-'))])
        } else {
            es.drop_last().push(es.last().push(ls.last()))
        }
    }
}

/// The name or the URL that an entry gives, if it gives one.
pub open spec fn entry_text(entry: Seq<Seq<char>>, key: Seq<char>) -> Option<Seq<char>> {
    match last_set(entry, key) {
        Some(v) => Some(unquoted(v)),
        None => None,
    }
}

/// The priority that an entry gives, if it gives one that is a number.
pub open spec fn entry_priority(entry: Seq<Seq<char>>) -> Option<u8> {
    match last_set(entry, "priority"@) {
        Some(v) => byte_of(v),
        None => None,
    }
}

/// The repository that an entry describes: it takes a name and a URL, and its priority
/// is fifty unless it says otherwise.
pub open spec fn entry_repo(entry: Seq<Seq<char>>) -> Option<RepoModel> {
    match (entry_text(entry, "name"@), entry_text(entry, "url"@)) {
        (Some(name), Some(url)) => Some(
            RepoModel {
                name,
                url,
                priority: match entry_priority(entry) {
                    Some(p) => p,
                    None => 50,
                },
            },
        ),
        _ => None,
    }
}

/// The repositories that a list of entries describes; entries that describe none are
/// left out.
pub open spec fn entry_repos(es: Seq<Seq<Seq<char>>>) -> Seq<RepoModel>
    decreases es.len(),
{
    if es.len() == 0 {
        seq![]
    } else {
        match entry_repo(es.last()) {
            Some(r) => entry_repos(es.drop_last()).push(r),
            None => entry_repos(es.drop_last()),
        }
    }
}

/// The repositories that a configuration file names, in the order of the file.
pub open spec fn conf_repos(text: Seq<char>) -> Seq<RepoModel> {
    entry_repos(entries(list_body(conf_lines(lines(text)))))
}

fn strip_pair(s: &[char], q: char) -> (r: &[char])
    ensures
        r@ == without_pair(s@, q),
{
    if s.len() >= 2 && s[0] == q && s[s.len() - 1] == q {
        slice_subrange(s, 1, s.len() - 1)
    } else {
        s
    }
}

fn unquote(s: &[char]) -> (r: String)
    ensures
        r@ == unquoted(s@),
{
    string_of(strip_pair(strip_pair(trim(s), '"'), '\''))
}

/// The entry that is being read.
struct Entry {
    name: Option<String>,
    url: Option<String>,
    priority: Option<u8>,
}

impl Entry {
    spec fn holds(self, entry: Seq<Seq<char>>) -> bool {
        &&& text_of(self.name) == entry_text(entry, "name"@)
        &&& text_of(self.url) == entry_text(entry, "url"@)
        &&& self.priority == entry_priority(entry)
    }

    fn new() -> (r: Entry)
        ensures
            r.holds(seq![]),
    {
        Entry { name: None, url: None, priority: None }
    }

    fn read(&mut self, line: &[char], entry: Ghost<Seq<Seq<char>>>)
        requires
            old(self).holds(entry@),
        ensures
            final(self).holds(entry@.push(line@)),
    {
        proof {
            lemma_field_push(entry@, line@, "name"@);
            lemma_field_push(entry@, line@, "url"@);
            lemma_field_push(entry@, line@, "priority"@);
            lemma_conf_keys();
        }
        if let Some((k, v)) = read_setting(line) {
            if is_text(k, "name") {
                self.name = Some(unquote(v));
            } else if is_text(k, "url") {
                self.url = Some(unquote(v));
            } else if is_text(k, "priority") {
                self.priority = parse_byte(v);
            }
        }
    }

    fn flush(self, repos: &mut Vec<Repo>, entry: Ghost<Seq<Seq<char>>>)
        requires
            self.holds(entry@),
        ensures
            models(final(repos)@) == match entry_repo(entry@) {
                Some(r) => models(old(repos)@).push(r),
                None => models(old(repos)@),
            },
    {
        let Entry { name, url, priority } = self;
        if let (Some(name), Some(url)) = (name, url) {
            let priority = match priority {
                Some(p) => p,
                None => 50,
            };
            let repo = Repo { name, url, priority };
            repos.push(repo);
            assert(models(repos@) =~= models(old(repos)@).push(repo@));
        }
    }
}

/// The keys of an entry differ.
pub proof fn lemma_conf_keys()
    ensures
        "name"@ != "url"@,
        "name"@ != "priority"@,
        "url"@ != "priority"@,
{
    reveal_strlit("name");
    reveal_strlit("url");
    reveal_strlit("priority");
    assert("name"@.len() == 4 && "url"@.len() == 3 && "priority"@.len() == 8);
}

/// One more line belongs to the list if the list was open, and may open it if not.
pub proof fn lemma_list_body_push(ls: Seq<Seq<char>>, line: Seq<char>)
    ensures
        opens_list(ls) ==> list_body(ls.push(line)) == list_body(ls).push(line),
        !opens_list(ls) ==> list_body(ls.push(line)).len() == 0,
        opens_list(ls.push(line)) == (opens_list(ls) || begins(line, "repos:"@)),
        !opens_list(ls) ==> list_body(ls).len() == 0,
    decreases ls.len(),
{
    let more = ls.push(line);
    if opens_list(ls) {
        let i = choose|i: int| 0 <= i < ls.len() && begins(#[trigger] ls[i], "repos:"@);
        assert(more[i] == ls[i]);
    }
    if begins(line, "repos:"@) {
        assert(more[ls.len() as int] == line);
    }
    if opens_list(more) {
        let i = choose|i: int| 0 <= i < more.len() && begins(#[trigger] more[i], "repos:"@);
        if i < ls.len() {
            assert(ls[i] == more[i]);
        }
    }
    if ls.len() == 0 {
        assert(more.drop_first() =~= seq![]);
        assert(list_body(more.drop_first()).len() == 0);
    } else {
        assert(more[0] == ls[0]);
        assert(more.drop_first() =~= ls.drop_first().push(line));
        lemma_list_body_push(ls.drop_first(), line);
        if !begins(ls[0], "repos:"@) {
            assert(opens_list(ls) == opens_list(ls.drop_first())) by {
                if opens_list(ls) {
                    let i = choose|i: int| 0 <= i < ls.len() && begins(#[trigger] ls[i], "repos:"@);
                    assert(ls.drop_first()[i - 1] == ls[i]);
                }
                if opens_list(ls.drop_first()) {
                    let i = choose|i: int|
                        0 <= i < ls.drop_first().len() && begins(
                            #[trigger] ls.drop_first()[i],
                            "repos:"@,
                        );
                    assert(ls[i + 1] == ls.drop_first()[i]);
                }
            }
        }
    }
}

/// Reads the configuration file.
pub fn parse_repo_conf(text: &str) -> (r: Vec<Repo>)
    ensures
        models(r@) == conf_repos(text@),
{
    let mut repos: Vec<Repo> = Vec::new();
    let mut entry = Entry::new();
    let mut in_list = false;
    let chars = chars_of(text);
    let ls = split_lines(chars.as_slice());
    let ghost all = lines(text@);
    let ghost mut body: Seq<Seq<char>> = seq![];
    assert(models(repos@) =~= entry_repos(entries(body).drop_last()));
    assert(conf_lines(all.take(0)) =~= seq![]);
    let mut i: usize = 0;
    while i < ls.len()
        invariant
            i <= ls@.len(),
            slices(ls@) == all,
            all.len() == ls@.len(),
            in_list == opens_list(conf_lines(all.take(i as int))),
            body == list_body(conf_lines(all.take(i as int))),
            entries(body).len() > 0,
            entry.holds(entries(body).last()),
            models(repos@) == entry_repos(entries(body).drop_last()),
        decreases ls@.len() - i,
    {
        let line = take_before(ls[i], '#');
        let ghost seen = conf_lines(all.take(i as int));
        proof {
            assert(ls@[i as int]@ == all[i as int]);
            assert(all.take(i + 1).drop_last() == all.take(i as int));
            assert(all.take(i + 1).last() == all[i as int]);
        }
        i += 1;
        if trim(line).len() == 0 {
            continue;
        }
        let trimmed = trim_start(line);
        proof {
            lemma_list_body_push(seen, trimmed@);
        }
        if !in_list {
            if starts_with(trimmed, "repos:") {
                in_list = true;
            }
            proof {
                assert(list_body(seen) =~= seq![]);
                assert(list_body(seen.push(trimmed@)) =~= seq![]);
            }
            continue;
        }
        let ghost old_body = body;
        proof {
            body = old_body.push(trimmed@);
            assert(body.drop_last() == old_body);
        }
        if starts_with(trimmed, "- ") || is_text(trimmed, "-") {
            let rest = trim_start(strip_leading(trimmed, '-'));
            let ghost es = entries(old_body);
            entry.flush(&mut repos, Ghost(es.last()));
            entry = Entry::new();
            entry.read(rest, Ghost(Seq::empty()));
            proof {
                let now = entries(body);
                assert(now =~= es.push(seq![rest@]));
                assert(now.drop_last() =~= es);
                assert(Seq::<Seq<char>>::empty().push(rest@) =~= seq![rest@]);
            }
        } else {
            entry.read(trimmed, Ghost(entries(old_body).last()));
            proof {
                let es = entries(old_body);
                assert(entries(body).drop_last() =~= es.drop_last());
            }
        }
    }
    assert(all.take(i as int) == all);
    entry.flush(&mut repos, Ghost(entries(body).last()));
    repos
}

// ---------------------------------------------------------------- priorities

/// The repositories of one priority, in the order of the list.
pub open spec fn tier(rs: Seq<RepoModel>, p: int) -> Seq<RepoModel>
    decreases rs.len(),
{
    if rs.len() == 0 {
        seq![]
    } else if rs.last().priority == p {
        tier(rs.drop_last(), p).push(rs.last())
    } else {
        tier(rs.drop_last(), p)
    }
}

/// The repositories of the priorities below `p`, one priority after the other.
pub open spec fn tiers_below(rs: Seq<RepoModel>, p: int) -> Seq<RepoModel>
    decreases p,
{
    if p <= 0 {
        seq![]
    } else {
        tiers_below(rs, p - 1) + tier(rs, p - 1)
    }
}

/// The repositories in the order of their priorities; those of one priority stay in the
/// order of the list.
pub open spec fn by_priority(rs: Seq<RepoModel>) -> Seq<RepoModel> {
    tiers_below(rs, 256)
}

impl Repo {
    pub fn copy(&self) -> (r: Repo)
        ensures
            r@ == self@,
    {
        Repo { name: self.name.clone(), url: self.url.clone(), priority: self.priority }
    }
}

/// Sorts repositories by priority; those of one priority keep their order.
pub fn sort_by_priority(repos: &Vec<Repo>) -> (r: Vec<Repo>)
    ensures
        models(r@) == by_priority(models(repos@)),
{
    let mut r: Vec<Repo> = Vec::new();
    let ghost all = models(repos@);
    let mut p: u16 = 0;
    assert(models(r@) =~= tiers_below(all, 0));
    while p < 256
        invariant
            p <= 256,
            all == models(repos@),
            models(r@) == tiers_below(all, p as int),
        decreases 256 - p,
    {
        let mut i: usize = 0;
        assert(models(r@) =~= tiers_below(all, p as int) + tier(all.take(0), p as int));
        while i < repos.len()
            invariant
                i <= repos@.len(),
                p < 256,
                all == models(repos@),
                all.len() == repos@.len(),
                models(r@) == tiers_below(all, p as int) + tier(all.take(i as int), p as int),
            decreases repos@.len() - i,
        {
            proof {
                assert(all[i as int] == repos@[i as int]@);
                assert(all.take(i + 1).drop_last() == all.take(i as int));
            }
            if repos[i].priority as u16 == p {
                let ghost had = r@;
                let repo = repos[i].copy();
                r.push(repo);
                assert(models(r@) =~= models(had).push(repo@));
                assert(models(r@) =~= tiers_below(all, p as int) + tier(
                    all.take(i + 1),
                    p as int,
                ));
            }
            i += 1;
        }
        assert(all.take(i as int) == all);
        p += 1;
    }
    r
}

/// The repositories that are asked, given the text of the configuration file, or `None`
/// where it cannot be read.
pub open spec fn loaded(conf: Option<Seq<char>>) -> Seq<RepoModel> {
    match conf {
        Some(text) => by_priority(
            if conf_repos(text).len() == 0 {
                default_models()
            } else {
                conf_repos(text)
            },
        ),
        None => default_models(),
    }
}

/// The repositories that are asked, given the text of the configuration file, or `None`
/// where it cannot be read; and whether the file could be read but names none.
pub fn load_repos(conf: Option<&str>) -> (r: (Vec<Repo>, bool))
    ensures
        models(r.0@) == loaded(optional(conf)),
        r.1 == (conf matches Some(text) && conf_repos(text@).len() == 0),
{
    match conf {
        Some(text) => {
            let repos = parse_repo_conf(text);
            if repos.len() == 0 {
                (sort_by_priority(&default_repos()), true)
            } else {
                (sort_by_priority(&repos), false)
            }
        },
        None => (default_repos(), false),
    }
}

/// Every repository of a tier has the tier's priority.
proof fn lemma_tier(rs: Seq<RepoModel>, p: int)
    ensures
        forall|i: int| 0 <= i < tier(rs, p).len() ==> (#[trigger] tier(rs, p)[i]).priority == p,
    decreases rs.len(),
{
    if rs.len() > 0 {
        let t = tier(rs.drop_last(), p);
        lemma_tier(rs.drop_last(), p);
        assert forall|i: int| 0 <= i < tier(rs, p).len() implies (#[trigger] tier(
            rs,
            p,
        )[i]).priority == p by {
            if i < t.len() {
                assert(tier(rs, p)[i] == t[i]);
            }
        }
    }
}

proof fn lemma_tier_concat(a: Seq<RepoModel>, b: Seq<RepoModel>, p: int)
    ensures
        tier(a + b, p) == tier(a, p) + tier(b, p),
    decreases b.len(),
{
    if b.len() == 0 {
        assert(a + b =~= a);
    } else {
        assert((a + b).drop_last() =~= a + b.drop_last());
        lemma_tier_concat(a, b.drop_last(), p);
        assert(tier(a + b, p) =~= tier(a, p) + tier(b, p));
    }
}

/// A tier of a tier is all of it or nothing.
proof fn lemma_tier_of_tier(rs: Seq<RepoModel>, p: int, q: int)
    ensures
        tier(tier(rs, q), p) == if p == q {
            tier(rs, q)
        } else {
            seq![]
        },
    decreases rs.len(),
{
    if rs.len() > 0 {
        lemma_tier_of_tier(rs.drop_last(), p, q);
        let t = tier(rs, q);
        if rs.last().priority == q {
            assert(t.drop_last() =~= tier(rs.drop_last(), q));
        }
    }
}

proof fn lemma_tiers_below(rs: Seq<RepoModel>, n: int)
    requires
        0 <= n,
    ensures
        forall|i: int| 0 <= i < tiers_below(rs, n).len() ==> (#[trigger] tiers_below(
            rs,
            n,
        )[i]).priority < n,
        forall|i: int, j: int|
            0 <= i <= j < tiers_below(rs, n).len() ==> tiers_below(rs, n)[i].priority
                <= tiers_below(rs, n)[j].priority,
        forall|p: int| 0 <= p < n ==> #[trigger] tier(tiers_below(rs, n), p) == tier(rs, p),
        forall|p: int| n <= p ==> #[trigger] tier(tiers_below(rs, n), p) == Seq::<RepoModel>::empty(),
    decreases n,
{
    if n > 0 {
        lemma_tiers_below(rs, n - 1);
        lemma_tier(rs, n - 1);
        let a = tiers_below(rs, n - 1);
        let b = tier(rs, n - 1);
        assert forall|p: int| 0 <= p implies #[trigger] tier(tiers_below(rs, n), p) == if p < n {
            tier(rs, p)
        } else {
            seq![]
        } by {
            lemma_tier_concat(a, b, p);
            lemma_tier_of_tier(rs, p, n - 1);
            assert(a + Seq::<RepoModel>::empty() =~= a);
            assert(Seq::<RepoModel>::empty() + b =~= b);
            assert(tier(tiers_below(rs, n), p) =~= tier(a, p) + tier(b, p));
        }
    }
}

/// Sorting by priority puts no repository before one of a smaller number, and keeps of
/// each priority exactly the repositories that the list has, in the list's order.
pub proof fn by_priority_is_a_stable_sort(rs: Seq<RepoModel>)
    ensures
        forall|i: int, j: int|
            0 <= i <= j < by_priority(rs).len() ==> by_priority(rs)[i].priority <= by_priority(
                rs,
            )[j].priority,
        forall|p: int| #[trigger] tier(by_priority(rs), p) == tier(rs, p),
{
    lemma_tiers_below(rs, 256);
    assert forall|p: int| #[trigger] tier(by_priority(rs), p) == tier(rs, p) by {
        lemma_no_such_tier(rs, p);
        lemma_no_such_tier(by_priority(rs), p);
    }
}

proof fn lemma_same_tiers(a: Seq<RepoModel>, b: Seq<RepoModel>, n: int)
    requires
        forall|p: int| #[trigger] tier(a, p) == tier(b, p),
    ensures
        tiers_below(a, n) == tiers_below(b, n),
    decreases n,
{
    if n > 0 {
        lemma_same_tiers(a, b, n - 1);
        assert(tier(a, n - 1) == tier(b, n - 1));
    }
}

/// Sorting by priority changes nothing in a list that is sorted already.
pub proof fn by_priority_is_idempotent(rs: Seq<RepoModel>)
    ensures
        by_priority(by_priority(rs)) == by_priority(rs),
{
    by_priority_is_a_stable_sort(rs);
    lemma_same_tiers(by_priority(rs), rs, 256);
}

/// No repository has a priority that is not a byte.
proof fn lemma_no_such_tier(rs: Seq<RepoModel>, p: int)
    ensures
        p < 0 || p > 255 ==> tier(rs, p) == Seq::<RepoModel>::empty(),
    decreases rs.len(),
{
    if rs.len() > 0 {
        lemma_no_such_tier(rs.drop_last(), p);
    }
}

/// How many entries of a list are the repository `r`.
pub open spec fn occurrences(rs: Seq<RepoModel>, r: RepoModel) -> nat
    decreases rs.len(),
{
    if rs.len() == 0 {
        0
    } else {
        occurrences(rs.drop_last(), r) + if rs.last() == r {
            1nat
        } else {
            0nat
        }
    }
}

proof fn lemma_occurrences_in_tier(rs: Seq<RepoModel>, r: RepoModel)
    ensures
        occurrences(rs, r) == occurrences(tier(rs, r.priority as int), r),
    decreases rs.len(),
{
    if rs.len() > 0 {
        lemma_occurrences_in_tier(rs.drop_last(), r);
        let t = tier(rs, r.priority as int);
        if rs.last().priority == r.priority {
            assert(t.drop_last() =~= tier(rs.drop_last(), r.priority as int));
        }
    }
}

/// Sorting by priority neither loses a repository nor adds one.
pub proof fn by_priority_keeps_all(rs: Seq<RepoModel>, r: RepoModel)
    ensures
        occurrences(by_priority(rs), r) == occurrences(rs, r),
{
    by_priority_is_a_stable_sort(rs);
    lemma_occurrences_in_tier(rs, r);
    lemma_occurrences_in_tier(by_priority(rs), r);
    assert(tier(by_priority(rs), r.priority as int) == tier(rs, r.priority as int));
}

/// A system that names no repository, or none that can be used, has one, which is the same for
/// all of them; any other has exactly those that its configuration file names.
pub proof fn which_repositories_there_are(conf: Option<Seq<char>>, r: RepoModel)
    ensures
        conf is None || conf_repos(conf->0).len() == 0 ==> loaded(conf) == seq![
            RepoModel {
                name: "default"@,
                url:
                    "https://github.com/Smech-Labs/SmechDeploy/releases/download/v1.0.0-packages"@,
                priority: 1,
            },
        ],
        conf matches Some(text) ==> conf_repos(text).len() > 0 ==> occurrences(loaded(conf), r)
            == occurrences(conf_repos(text), r),
{
    let one = default_models();
    if let Some(text) = conf {
        if conf_repos(text).len() == 0 {
            by_priority_is_a_stable_sort(one);
            assert(by_priority(one) =~= one) by {
                lemma_one_tier(one, 256);
            }
        } else {
            by_priority_keeps_all(conf_repos(text), r);
        }
    }
}

proof fn lemma_one_tier(rs: Seq<RepoModel>, p: int)
    requires
        rs.len() == 1,
        p >= 0,
    ensures
        tiers_below(rs, p) == if rs[0].priority < p {
            rs
        } else {
            seq![]
        },
    decreases p,
{
    assert(rs.drop_last() =~= seq![]);
    assert(seq![].push(rs[0]) =~= rs);
    reveal_with_fuel(tier, 2);
    if p > 0 {
        lemma_one_tier(rs, p - 1);
        assert(tiers_below(rs, p) =~= if rs[0].priority < p {
            rs
        } else {
            seq![]
        });
    } else {
        assert(tiers_below(rs, p) =~= seq![]);
    }
}

/// Comments and blank lines in a configuration file make no difference, and neither does
/// white space in front of a line.
pub proof fn comments_make_no_difference(
    ls: Seq<Seq<char>>,
    line: Seq<char>,
    more: Seq<Seq<char>>,
)
    ensures
        trimmed(before(line, '#')).len() == 0 ==> conf_lines(ls + seq![line] + more) == conf_lines(
            ls + more,
        ),
        trimmed(before(line, '#')).len() > 0 ==> conf_lines(ls.push(line)) == conf_lines(ls).push(
            trimmed_start(before(line, '#')),
        ),
    decreases more.len(),
{
    assert(ls.push(line).drop_last() =~= ls);
    if more.len() == 0 {
        assert(ls + seq![line] + more =~= ls.push(line));
        assert(ls + more =~= ls);
    } else {
        let less = more.drop_last();
        comments_make_no_difference(ls, line, less);
        assert((ls + seq![line] + more).drop_last() =~= ls + seq![line] + less);
        assert((ls + more).drop_last() =~= ls + less);
        assert((ls + seq![line] + more).last() == (ls + more).last());
    }
}

/// An entry of the list describes a repository exactly if it gives a name and a URL. Its
/// priority is the number that it gives, and fifty where it gives none that fits. Of each key
/// the last line counts.
pub proof fn what_an_entry_says(
    entry: Seq<Seq<char>>,
    name: Seq<char>,
    url: Seq<char>,
    priority: Seq<char>,
)
    requires
        is_trimmed(name) && !name.contains('\n') && without_marks(name),
        is_trimmed(url) && !url.contains('\n') && without_marks(url),
        is_trimmed(priority) && !priority.contains('\n'),
    ensures
        ({
            let n = "name"@ + ": "@ + name;
            let u = "url"@ + ": "@ + url;
            let p = "priority"@ + ": "@ + priority;
            &&& entry_repo(seq![n, u]) == Some(RepoModel { name, url, priority: 50 })
            &&& entry_repo(entry.push(n).push(u).push(p)) == Some(
                RepoModel {
                    name,
                    url,
                    priority: match byte_of(priority) {
                        Some(b) => b,
                        None => 50,
                    },
                },
            )
            &&& entry_repo(seq![n, p]) is None
            &&& entry_repo(seq![u, p]) is None
        }),
{
    lemma_conf_keys();
    reveal_strlit("name");
    reveal_strlit("url");
    reveal_strlit("priority");
    let n = lemma_setting_puts("name"@, name);
    let u = lemma_setting_puts("url"@, url);
    let p = lemma_setting_puts("priority"@, priority);
    let none = Seq::<Seq<char>>::empty();
    assert forall|e: Seq<Seq<char>>, l: Seq<char>, k: Seq<char>| #[trigger]
        last_set(e.push(l), k) == match setting(l) {
            Some((key, v)) if key == k => Some(v),
            _ => last_set(e, k),
        } by {
        lemma_field_push(e, l, k);
    }
    lemma_trimmed_fixed(name);
    lemma_trimmed_fixed(url);
    assert(seq![n, u] =~= none.push(n).push(u));
    assert(seq![n, p] =~= none.push(n).push(p));
    assert(seq![u, p] =~= none.push(u).push(p));
    assert(last_set(none.push(n).push(u), "name"@) == Some(name));
    assert(last_set(none.push(n).push(u), "url"@) == Some(url));
    assert(last_set(none.push(n).push(u), "priority"@) is None);
    let all = entry.push(n).push(u).push(p);
    assert(last_set(all, "name"@) == Some(name));
    assert(last_set(all, "url"@) == Some(url));
    assert(last_set(all, "priority"@) == Some(priority));
    assert(last_set(none.push(n).push(p), "url"@) is None);
    assert(last_set(none.push(u).push(p), "name"@) is None);
}

/// Whether a value does not stand in quotation marks.
pub open spec fn without_marks(s: Seq<char>) -> bool {
    s.len() < 2 || (s[0] != '"' && s[0] != '\'')
}

/// A name or a URL may stand in quotation marks of either kind, which do not belong to it.
pub proof fn quotation_marks_go(s: Seq<char>)
    requires
        without_marks(s),
    ensures
        unquoted(seq!['"'] + s + seq!['"']) == s,
        unquoted(seq!['\''] + s + seq!['\'']) == s,
        is_trimmed(s) ==> unquoted(s) == s,
{
    let d = seq!['"'] + s + seq!['"'];
    let q = seq!['\''] + s + seq!['\''];
    lemma_trimmed_fixed(d);
    lemma_trimmed_fixed(q);
    assert(d.subrange(1, d.len() - 1) =~= s);
    assert(q.subrange(1, q.len() - 1) =~= s);
    if is_trimmed(s) {
        lemma_trimmed_fixed(s);
    }
}

/// A dash begins the next entry of the list, whether what follows it stands on the same line or
/// not; every other line belongs to the entry that was begun last.
pub proof fn a_dash_begins_an_entry(ls: Seq<Seq<char>>, x: Seq<char>, line: Seq<char>)
    requires
        x.len() > 0 ==> x[0] != '-' && !is_space(x[0]),
        line.len() > 0 && line[0] != '-',
    ensures
        entries(ls).len() > 0,
        entries(ls.push(seq!['-', ' '] + x)) == entries(ls).push(seq![x]),
        entries(ls.push(seq!['-'])) == entries(ls).push(seq![seq![]]),
        entries(ls.push(line)) == entries(ls).drop_last().push(entries(ls).last().push(line)),
{
    reveal_strlit("- ");
    reveal_strlit("-");
    if ls.len() > 0 {
        lemma_some_entry(ls);
    }
    let dash = seq!['-', ' '] + x;
    assert(ls.push(dash).drop_last() =~= ls);
    assert(ls.push(line).drop_last() =~= ls);
    assert(ls.push(seq!['-']).drop_last() =~= ls);
    assert(dash.take(2) =~= "- "@);
    assert(seq!['-'] =~= "-"@);
    let after = seq![' '] + x;
    assert(dash.drop_first() =~= after);
    assert(without_leading(dash, '-') == after) by {
        reveal_with_fuel(without_leading, 2);
        assert(after[0] == ' ');
    }
    assert(trimmed_start(after) == x) by {
        reveal_with_fuel(trimmed_start, 2);
        assert(after.drop_first() =~= x);
    }
    assert(without_leading(seq!['-'], '-') =~= seq![]) by {
        reveal_with_fuel(without_leading, 2);
        assert(seq!['-'].drop_first() =~= seq![]);
    }
    assert(trimmed_start(Seq::<char>::empty()) =~= seq![]);
    assert(!opens_entry(line)) by {
        if begins(line, "- "@) {
            assert(line.take(2)[0] == "- "@[0]);
        }
    }
}

proof fn lemma_some_entry(ls: Seq<Seq<char>>)
    ensures
        entries(ls).len() > 0,
    decreases ls.len(),
{
    if ls.len() > 0 {
        lemma_some_entry(ls.drop_last());
    }
}

/// The repositories of a list are those that its entries describe, in their order; an entry
/// that describes none does not stop the others.
pub proof fn every_entry_counts(
    es: Seq<Seq<Seq<char>>>,
    entry: Seq<Seq<char>>,
    more: Seq<Seq<Seq<char>>>,
)
    ensures
        entry_repos(es + seq![entry] + more) == entry_repos(es) + (match entry_repo(entry) {
            Some(r) => seq![r],
            None => seq![],
        }) + entry_repos(more),
    decreases more.len(),
{
    let one = match entry_repo(entry) {
        Some(r) => seq![r],
        None => Seq::<RepoModel>::empty(),
    };
    let all = es + seq![entry] + more;
    if more.len() == 0 {
        assert(all =~= es.push(entry));
        assert(es.push(entry).drop_last() =~= es);
        assert(entry_repos(all) =~= entry_repos(es) + one + entry_repos(more));
    } else {
        every_entry_counts(es, entry, more.drop_last());
        assert(all.drop_last() =~= es + seq![entry] + more.drop_last());
        assert(all.last() == more.last());
        assert(entry_repos(all) =~= entry_repos(es) + one + entry_repos(more));
    }
}

/// The list begins after the line that opens it; what stands above that line does not count.
pub proof fn the_list_begins_where_it_is_opened(
    above: Seq<Seq<char>>,
    rest: Seq<char>,
    body: Seq<Seq<char>>,
)
    requires
        forall|i: int| 0 <= i < above.len() ==> !begins(#[trigger] above[i], "repos:"@),
    ensures
        list_body(above + seq!["repos:"@ + rest] + body) == body,
        list_body(above).len() == 0,
    decreases above.len(),
{
    let opener = "repos:"@ + rest;
    let all = above + seq![opener] + body;
    assert(opener.take("repos:"@.len() as int) =~= "repos:"@);
    if above.len() == 0 {
        assert(all[0] == opener);
        assert(all.drop_first() =~= body);
    } else {
        let later = above.drop_first();
        assert(!begins(above[0], "repos:"@));
        assert forall|i: int| 0 <= i < later.len() implies !begins(#[trigger] later[i], "repos:"@) by {
            assert(!begins(above[i + 1], "repos:"@));
        }
        the_list_begins_where_it_is_opened(later, rest, body);
        assert(all.drop_first() =~= later + seq![opener] + body);
        assert(all[0] == above[0]);
    }
}

} // verus!
