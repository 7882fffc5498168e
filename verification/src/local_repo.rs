//! A folder of packages on this machine as a repository, and the configuration file
//! that records it.

use crate::fetch::{attempt, attempts, is_trusted, one_slash_before_a_file, with_trust};
use crate::fields::{
    is_key, is_value, last_set, lemma_field_push, lemma_setting_puts, push_setting, puts_line,
    setting_line,
};
use crate::number::{byte_round_trip, decimal, is_digit, lemma_decimal, push_decimal};
use crate::repo::{
    by_priority, by_priority_is_a_stable_sort, by_priority_is_idempotent, by_priority_keeps_all,
    conf_lines, conf_repos, entries, entry_repo, entry_repos, lemma_conf_keys, lemma_list_body_push,
    list_body, load_repos, loaded, models, occurrences, opens_entry, opens_list, sort_by_priority, tier,
    tiers_below, unquoted, Repo, RepoModel,
};
use crate::text::{
    before, begins, equal, is_space, lines, optional, trimmed, trimmed_start, without_leading,
};
use crate::text_lemmas::{lemma_indented, lemma_lines_concat, lemma_lines_cons, lemma_until_is};
use vstd::prelude::*;
use vstd::string::*;

verus! {

/// The repository that stands for a folder.
pub open spec fn local_repo(folder: Seq<char>) -> RepoModel {
    RepoModel { name: "local"@, url: "file://"@ + folder, priority: 1 }
}

/// The repositories with another name than the folder's.
pub open spec fn without_local(rs: Seq<RepoModel>) -> Seq<RepoModel>
    decreases rs.len(),
{
    if rs.len() == 0 {
        seq![]
    } else if rs.last().name == "local"@ {
        without_local(rs.drop_last())
    } else {
        without_local(rs.drop_last()).push(rs.last())
    }
}

/// The repositories once the folder is one of them: it takes the place of the folder
/// that was there before, and goes before the others of its priority.
pub open spec fn with_local(rs: Seq<RepoModel>, folder: Seq<char>) -> Seq<RepoModel> {
    by_priority(seq![local_repo(folder)] + without_local(rs))
}

/// Makes a folder, given by its absolute path, one of the repositories.
pub fn set_local_repo(repos: &Vec<Repo>, folder: &str) -> (r: Vec<Repo>)
    ensures
        models(r@) == with_local(models(repos@), folder@),
{
    let mut url = String::new();
    url.append("file://");
    url.append(folder);
    assert(url@ =~= "file://"@ + folder@);
    let mut kept: Vec<Repo> = Vec::new();
    let local = Repo { name: "local".to_string(), url, priority: 1 };
    kept.push(local);
    let ghost all = models(repos@);
    let ghost first = seq![local_repo(folder@)];
    let mut i: usize = 0;
    assert(models(kept@) =~= first + without_local(all.take(0)));
    while i < repos.len()
        invariant
            i <= repos@.len(),
            all == models(repos@),
            all.len() == repos@.len(),
            models(kept@) == first + without_local(all.take(i as int)),
        decreases repos@.len() - i,
    {
        proof {
            assert(all[i as int] == repos@[i as int]@);
            assert(all.take(i + 1).drop_last() == all.take(i as int));
        }
        if !equal(repos[i].name.as_str(), "local") {
            let ghost had = kept@;
            let repo = repos[i].copy();
            kept.push(repo);
            assert(models(kept@) =~= models(had).push(repo@));
            assert(models(kept@) =~= first + without_local(all.take(i + 1)));
        }
        i += 1;
    }
    assert(all.take(i as int) == all);
    sort_by_priority(&kept)
}

/// One entry of the configuration file.
pub open spec fn entry_text(r: RepoModel) -> Seq<char> {
    "  "@ + setting_line("- name"@, r.name) + ("    "@ + setting_line("url"@, r.url)) + ("    "@
        + setting_line("priority"@, decimal(r.priority as nat)))
}

pub open spec fn entries_text(rs: Seq<RepoModel>) -> Seq<char>
    decreases rs.len(),
{
    if rs.len() == 0 {
        seq![]
    } else {
        entries_text(rs.drop_last()) + entry_text(rs.last())
    }
}

/// The configuration file that names the given repositories.
pub open spec fn conf_text(rs: Seq<RepoModel>) -> Seq<char> {
    "repos:\n"@ + entries_text(rs)
}

/// Writes the configuration file.
pub fn render_repo_conf(repos: &Vec<Repo>) -> (r: String)
    ensures
        r@ == conf_text(models(repos@)),
{
    let mut out = String::new();
    out.append("repos:\n");
    let ghost all = models(repos@);
    let mut i: usize = 0;
    assert(out@ =~= "repos:\n"@ + entries_text(all.take(0)));
    while i < repos.len()
        invariant
            i <= repos@.len(),
            all == models(repos@),
            all.len() == repos@.len(),
            out@ == "repos:\n"@ + entries_text(all.take(i as int)),
        decreases repos@.len() - i,
    {
        let repo = &repos[i];
        let ghost had = out@;
        let mut priority = String::new();
        push_decimal(&mut priority, repo.priority as u64);
        assert(priority@ =~= decimal(repo.priority as nat));
        out.append("  ");
        push_setting(&mut out, "- name", repo.name.as_str());
        out.append("    ");
        push_setting(&mut out, "url", repo.url.as_str());
        out.append("    ");
        push_setting(&mut out, "priority", priority.as_str());
        proof {
            assert(all[i as int] == repo@);
            assert(all.take(i + 1).drop_last() == all.take(i as int));
            assert(out@ =~= had + entry_text(repo@));
            assert(out@ =~= "repos:\n"@ + entries_text(all.take(i + 1)));
        }
        i += 1;
    }
    assert(all.take(i as int) == all);
    out
}

/// The configuration file that makes a folder, given by its absolute path, one of the
/// repositories, given the file so far, or `None` where it cannot be read; and whether the
/// file so far could be read but names no repository.
pub fn cmd_local_package_repo(conf: Option<&str>, folder: &str) -> (r: (String, bool))
    ensures
        r.0@ == conf_text(with_local(loaded(optional(conf)), folder@)),
        all_plain(loaded(optional(conf))) && is_plain("file://"@ + folder@) ==> loaded(Some(r.0@))
            == with_local(loaded(optional(conf)), folder@),
        r.1 == (conf matches Some(text) && conf_repos(text@).len() == 0),
{
    let (repos, unusable) = load_repos(conf);
    proof {
        if all_plain(loaded(optional(conf))) && is_plain("file://"@ + folder@) {
            local_repo_takes_effect(loaded(optional(conf)), folder@);
        }
    }
    (render_repo_conf(&set_local_repo(&repos, folder)), unusable)
}

// ---------------------------------------------------------------- laws

/// A value that the configuration file can carry unchanged.
pub open spec fn is_plain(s: Seq<char>) -> bool {
    is_value(s) && unquoted(s) == s
}

/// A repository that the configuration file can carry unchanged.
pub open spec fn is_plain_repo(r: RepoModel) -> bool {
    is_plain(r.name) && is_plain(r.url)
}

/// Repositories that the configuration file can carry unchanged.
pub open spec fn all_plain(rs: Seq<RepoModel>) -> bool {
    forall|i: int| 0 <= i < rs.len() ==> is_plain_repo(#[trigger] rs[i])
}

/// White space within a line.
spec fn is_indent(s: Seq<char>) -> bool {
    forall|i: int| 0 <= i < s.len() ==> #[trigger] is_space(s[i]) && s[i] != '\n'
}

/// A line `key: value` behind an indentation, in the configuration file.
proof fn lemma_conf_line(indent: Seq<char>, key: Seq<char>, v: Seq<char>) -> (line: Seq<char>)
    requires
        is_indent(indent),
        is_key(key),
        is_value(v),
    ensures
        puts_line(indent + setting_line(key, v), line),
        before(line, '#') == line,
        trimmed(line).len() > 0,
        trimmed_start(line) == key + ": "@ + v,
{
    reveal_strlit(": ");
    reveal_strlit("\n");
    let body = lemma_setting_puts(key, v);
    let line = indent + body;
    assert forall|i: int| 0 <= i < line.len() implies line[i] != '\n' && line[i] != '#' by {
        if i < indent.len() {
            assert(is_space(indent[i]));
        } else if i < indent.len() + key.len() {
            assert(key.contains(key[i - indent.len()]));
            assert(line[i] == key[i - indent.len()]);
        } else if i >= indent.len() + key.len() + 2 {
            let j = i - indent.len() - key.len() - 2;
            assert(v.contains(v[j]));
            assert(line[i] == v[j]);
        }
    }
    lemma_until_is(line, '#', line.len());
    assert(before(line, '#') =~= line);
    assert(body[0] == key[0]);
    lemma_indented(indent, body);
    if v.len() > 0 {
        assert(line.last() == v.last());
    }
    assert forall|rest: Seq<char>| #[trigger]
        lines(indent + setting_line(key, v) + rest) == seq![line] + lines(rest) by {
        assert(indent + setting_line(key, v) + rest =~= line + seq!['\n'] + rest);
        lemma_lines_cons(line, rest);
    }
    line
}

/// Three chunks of one line each.
proof fn lemma_three_lines(t: Seq<Seq<char>>, l: Seq<Seq<char>>)
    requires
        t.len() == 3,
        l.len() == 3,
        forall|i: int| 0 <= i < 3 ==> puts_line(#[trigger] t[i], l[i]),
    ensures
        lines(t[0] + t[1] + t[2]) == l,
{
    let e = Seq::<char>::empty();
    assert(lines(t[2] + e) == seq![l[2]] + lines(e));
    assert(lines(t[1] + (t[2] + e)) == seq![l[1]] + lines(t[2] + e));
    assert(lines(t[0] + (t[1] + (t[2] + e))) == seq![l[0]] + lines(t[1] + (t[2] + e)));
    assert(t[0] + t[1] + t[2] =~= t[0] + (t[1] + (t[2] + e)));
    assert(lines(t[0] + t[1] + t[2]) =~= l);
}

/// What stands at the front of an entry's lines are keys.
proof fn lemma_are_keys()
    ensures
        is_key("- name"@),
        is_key("name"@),
        is_key("url"@),
        is_key("priority"@),
{
    reveal_strlit("- name");
    reveal_strlit("name");
    reveal_strlit("url");
    reveal_strlit("priority");
}

/// What the three lines of an entry are in the configuration file.
proof fn lemma_entry_lines(r: RepoModel) -> (ls: Seq<Seq<char>>)
    requires
        is_plain_repo(r),
    ensures
        lines(entry_text(r)) == ls,
        entry_text(r).len() > 0,
        entry_text(r).last() == '\n',
        ls.len() == 3,
        forall|i: int| 0 <= i < 3 ==> before(#[trigger] ls[i], '#') == ls[i] && trimmed(ls[i]).len() > 0,
        trimmed_start(ls[0]) == "- name"@ + ": "@ + r.name,
        trimmed_start(ls[1]) == "url"@ + ": "@ + r.url,
        trimmed_start(ls[2]) == "priority"@ + ": "@ + decimal(r.priority as nat),
{
    lemma_are_keys();
    lemma_decimal_value(r.priority);
    assert(is_indent("  "@)) by {
        reveal_strlit("  ");
    }
    assert(is_indent("    "@)) by {
        reveal_strlit("    ");
    }
    let d = decimal(r.priority as nat);
    let l0 = lemma_conf_line("  "@, "- name"@, r.name);
    let l1 = lemma_conf_line("    "@, "url"@, r.url);
    let l2 = lemma_conf_line("    "@, "priority"@, d);
    let ls = seq![l0, l1, l2];
    lemma_three_lines(
        seq![
            "  "@ + setting_line("- name"@, r.name),
            "    "@ + setting_line("url"@, r.url),
            "    "@ + setting_line("priority"@, d),
        ],
        ls,
    );
    assert("\n"@.len() == 1 && "\n"@[0] == '\n') by {
        reveal_strlit("\n");
    }
    assert(setting_line("priority"@, d).last() == '\n');
    ls
}

/// A number in base ten is a value that a line can carry.
proof fn lemma_decimal_value(n: u8)
    ensures
        is_value(decimal(n as nat)),
{
    lemma_decimal(n as nat);
    let d = decimal(n as nat);
    assert forall|i: int| 0 <= i < d.len() implies !is_space(d[i]) && d[i] != '#' && d[i]
        != '\n' by {
        assert(is_digit(d[i]));
    }
}

/// The first line of an entry opens it, and the other two do not.
proof fn lemma_entry_opening(ls: Seq<Seq<char>>, r: RepoModel)
    requires
        ls.len() == 3,
        ls[0] == "- name"@ + ": "@ + r.name,
        ls[1] == "url"@ + ": "@ + r.url,
        ls[2] == "priority"@ + ": "@ + decimal(r.priority as nat),
    ensures
        opens_entry(ls[0]),
        trimmed_start(without_leading(ls[0], '-')) == "name"@ + ": "@ + r.name,
        !opens_entry(ls[1]),
        !opens_entry(ls[2]),
{
    reveal_strlit("- name");
    reveal_strlit("name");
    reveal_strlit("url");
    reveal_strlit("priority");
    reveal_strlit("- ");
    reveal_strlit("-");
    let name = "name"@ + ": "@ + r.name;
    assert(ls[0].take(2) =~= "- "@);
    assert(ls[0].drop_first() =~= seq![' '] + name);
    assert(ls[0][0] == '-');
    assert((seq![' '] + name)[0] == ' ');
    assert(without_leading(seq![' '] + name, '-') == seq![' '] + name);
    assert(name[0] == 'n');
    lemma_indented(seq![' '], name);
    assert(ls[1].take(2)[0] != "- "@[0]);
    assert(ls[1][0] != "-"@[0]);
    assert(ls[2].take(2)[0] != "- "@[0]);
    assert(ls[2][0] != "-"@[0]);
}

/// An entry's three lines add one repository to the list that is open.
proof fn lemma_entry_adds(cs: Seq<Seq<char>>, r: RepoModel, ls: Seq<Seq<char>>)
    requires
        is_plain_repo(r),
        opens_list(cs),
        entries(list_body(cs)).len() > 0,
        ls.len() == 3,
        ls[0] == "- name"@ + ": "@ + r.name,
        ls[1] == "url"@ + ": "@ + r.url,
        ls[2] == "priority"@ + ": "@ + decimal(r.priority as nat),
    ensures
        ({
            let more = cs.push(ls[0]).push(ls[1]).push(ls[2]);
            &&& opens_list(more)
            &&& entries(list_body(more)).len() > 0
            &&& entry_repos(entries(list_body(more))) == entry_repos(entries(list_body(cs))).push(r)
        }),
{
    lemma_are_keys();
    lemma_conf_keys();
    lemma_decimal_value(r.priority);
    byte_round_trip(r.priority);
    let body = list_body(cs);
    lemma_list_body_push(cs, ls[0]);
    lemma_list_body_push(cs.push(ls[0]), ls[1]);
    lemma_list_body_push(cs.push(ls[0]).push(ls[1]), ls[2]);
    let b0 = body.push(ls[0]);
    let b1 = b0.push(ls[1]);
    let b2 = b1.push(ls[2]);
    let name = lemma_setting_puts("name"@, r.name);
    lemma_setting_puts("url"@, r.url);
    lemma_setting_puts("priority"@, decimal(r.priority as nat));
    lemma_entry_opening(ls, r);
    assert(b0.drop_last() =~= body);
    assert(entries(b0) =~= entries(body).push(seq![name]));
    // The other two belong to it.
    assert(b1.drop_last() =~= b0);
    assert(b2.drop_last() =~= b1);
    let e0 = Seq::<Seq<char>>::empty();
    assert(seq![name] =~= e0.push(name));
    assert(entries(b1) =~= entries(body).push(e0.push(name).push(ls[1])));
    assert(entries(b2) =~= entries(body).push(e0.push(name).push(ls[1]).push(ls[2])));
    let entry = e0.push(name).push(ls[1]).push(ls[2]);
    assert(last_set(entry, "name"@) == Some(r.name)) by {
        lemma_field_push(e0, name, "name"@);
        lemma_field_push(e0.push(name), ls[1], "name"@);
        lemma_field_push(e0.push(name).push(ls[1]), ls[2], "name"@);
    }
    assert(last_set(entry, "url"@) == Some(r.url)) by {
        lemma_field_push(e0.push(name), ls[1], "url"@);
        lemma_field_push(e0.push(name).push(ls[1]), ls[2], "url"@);
    }
    assert(last_set(entry, "priority"@) == Some(decimal(r.priority as nat))) by {
        lemma_field_push(e0.push(name).push(ls[1]), ls[2], "priority"@);
    }
    assert(entry_repo(entry) == Some(r));
    assert(entries(b2).drop_last() =~= entries(body));
}

proof fn lemma_conf_lines_push(ls: Seq<Seq<char>>, line: Seq<char>)
    requires
        before(line, '#') == line,
        trimmed(line).len() > 0,
    ensures
        conf_lines(ls.push(line)) == conf_lines(ls).push(trimmed_start(line)),
{
    assert(ls.push(line).drop_last() =~= ls);
}

/// What a configuration file that was written reads back as, and that its list is open.
spec fn reads_back(rs: Seq<RepoModel>) -> bool {
    let cs = conf_lines(lines(conf_text(rs)));
    &&& conf_text(rs).len() > 0
    &&& conf_text(rs).last() == '\n'
    &&& opens_list(cs)
    &&& entries(list_body(cs)).len() > 0
    &&& conf_repos(conf_text(rs)) == rs
}

#[verifier::spinoff_prover]
proof fn lemma_empty_conf()
    ensures
        reads_back(Seq::empty()),
{
    let rs = Seq::<RepoModel>::empty();
    reveal_strlit("repos:\n");
    reveal_strlit("repos:");
    let l = "repos:"@;
    assert(conf_text(rs) =~= l + seq!['\n'] + Seq::<char>::empty());
    lemma_lines_cons(l, Seq::empty());
    assert(lines(conf_text(rs)) =~= Seq::<Seq<char>>::empty().push(l));
    lemma_until_is(l, '#', l.len());
    assert(before(l, '#') =~= l);
    assert(trimmed_start(l) == l);
    lemma_conf_lines_push(Seq::empty(), l);
    let cs = conf_lines(lines(conf_text(rs)));
    assert(cs =~= seq![l]);
    assert(l.take(l.len() as int) =~= l);
    assert(begins(cs[0], "repos:"@));
    assert(list_body(cs) =~= seq![]);
    let es = entries(list_body(cs));
    assert(es =~= seq![seq![]]);
    assert(last_set(es.last(), "name"@) is None);
    assert(entry_repo(es.last()) is None);
    let none = Seq::<Seq<Seq<char>>>::empty();
    assert(es.drop_last() =~= none);
    assert(entry_repos(es) == entry_repos(none));
    assert(entry_repos(none) =~= seq![]);
    assert(conf_repos(conf_text(rs)) =~= rs);
}

#[verifier::spinoff_prover]
proof fn lemma_longer_conf(rs: Seq<RepoModel>)
    requires
        rs.len() > 0,
        is_plain_repo(rs.last()),
        reads_back(rs.drop_last()),
    ensures
        reads_back(rs),
{
    let some = rs.drop_last();
    let r = rs.last();
    let ls = lemma_entry_lines(r);
    assert(conf_text(rs) =~= conf_text(some) + entry_text(r));
    lemma_lines_concat(conf_text(some), entry_text(r));
    let had = lines(conf_text(some));
    assert(lines(conf_text(rs)) =~= had.push(ls[0]).push(ls[1]).push(ls[2]));
    lemma_conf_lines_push(had, ls[0]);
    lemma_conf_lines_push(had.push(ls[0]), ls[1]);
    lemma_conf_lines_push(had.push(ls[0]).push(ls[1]), ls[2]);
    let cs = conf_lines(had);
    lemma_entry_adds(
        cs,
        r,
        seq![trimmed_start(ls[0]), trimmed_start(ls[1]), trimmed_start(ls[2])],
    );
    assert(conf_repos(conf_text(rs)) =~= rs);
}

proof fn lemma_conf_round_trip(rs: Seq<RepoModel>)
    requires
        forall|i: int| 0 <= i < rs.len() ==> is_plain_repo(#[trigger] rs[i]),
    ensures
        reads_back(rs),
    decreases rs.len(),
{
    if rs.len() == 0 {
        lemma_empty_conf();
        assert(rs =~= Seq::empty());
    } else {
        let some = rs.drop_last();
        assert forall|i: int| 0 <= i < some.len() implies is_plain_repo(#[trigger] some[i]) by {
            assert(some[i] == rs[i]);
        }
        lemma_conf_round_trip(some);
        assert(is_plain_repo(rs[rs.len() - 1]));
        lemma_longer_conf(rs);
    }
}

/// What reads back of a configuration file that was written is the list of repositories
/// it was written from, wherever the file can carry their names and URLs.
pub proof fn conf_round_trip(rs: Seq<RepoModel>)
    requires
        forall|i: int| 0 <= i < rs.len() ==> is_plain_repo(#[trigger] rs[i]),
    ensures
        conf_repos(conf_text(rs)) == rs,
{
    lemma_conf_round_trip(rs);
}

/// The folder is asked first, wherever priorities begin at one.
pub proof fn local_is_asked_first(rs: Seq<RepoModel>, folder: Seq<char>)
    requires
        forall|i: int| 0 <= i < rs.len() ==> (#[trigger] rs[i]).priority >= 1,
    ensures
        with_local(rs, folder).len() > 0,
        with_local(rs, folder)[0] == local_repo(folder),
{
    let list = seq![local_repo(folder)] + without_local(rs);
    let sorted = by_priority(list);
    lemma_without_local(rs);
    by_priority_is_a_stable_sort(list);
    assert(tier(sorted, 0) == tier(list, 0));
    assert(tier(sorted, 1) == tier(list, 1));
    assert(tier(list, 0).len() == 0) by {
        assert forall|i: int| 0 <= i < list.len() implies (#[trigger] list[i]).priority != 0 by {
            if i > 0 {
                assert(list[i] == without_local(rs)[i - 1]);
            }
        }
        lemma_empty_tier(list, 0);
    }
    lemma_tier_front(list, 1);
    lemma_tier_head(sorted);
}

/// A list without a priority has an empty tier of it.
proof fn lemma_empty_tier(rs: Seq<RepoModel>, p: int)
    requires
        forall|i: int| 0 <= i < rs.len() ==> (#[trigger] rs[i]).priority != p,
    ensures
        tier(rs, p).len() == 0,
    decreases rs.len(),
{
    if rs.len() > 0 {
        assert(rs[rs.len() - 1].priority != p);
        assert forall|i: int| 0 <= i < rs.drop_last().len() implies (#[trigger]
        rs.drop_last()[i]).priority != p by {
            assert(rs[i].priority != p);
        }
        lemma_empty_tier(rs.drop_last(), p);
    }
}

/// The first of a list is the first of its tier.
proof fn lemma_tier_front(rs: Seq<RepoModel>, p: int)
    requires
        rs.len() > 0,
        rs[0].priority == p,
    ensures
        tier(rs, p).len() > 0,
        tier(rs, p)[0] == rs[0],
    decreases rs.len(),
{
    if rs.len() > 1 {
        assert(rs.drop_last()[0] == rs[0]);
        lemma_tier_front(rs.drop_last(), p);
    } else {
        reveal_with_fuel(tier, 2);
    }
}

/// In a sorted list without priority zero, the first of priority one is the first of all.
proof fn lemma_tier_head(rs: Seq<RepoModel>)
    requires
        forall|i: int, j: int| 0 <= i <= j < rs.len() ==> rs[i].priority <= rs[j].priority,
        tier(rs, 0).len() == 0,
        tier(rs, 1).len() > 0,
    ensures
        rs.len() > 0,
        rs[0] == tier(rs, 1)[0],
{
    if rs.len() > 0 {
        if rs[0].priority == 0 {
            lemma_tier_front(rs, 0);
        } else if rs[0].priority == 1 {
            lemma_tier_front(rs, 1);
        } else {
            assert forall|i: int| 0 <= i < rs.len() implies (#[trigger] rs[i]).priority != 1 by {
                assert(rs[0].priority <= rs[i].priority);
            }
            lemma_empty_tier(rs, 1);
        }
    }
}

/// Leaving out the folder's repository leaves nothing else out.
proof fn lemma_without_local(rs: Seq<RepoModel>)
    ensures
        forall|r: RepoModel| #[trigger]
            occurrences(without_local(rs), r) == if r.name == "local"@ {
                0
            } else {
                occurrences(rs, r)
            },
        forall|i: int|
            0 <= i < without_local(rs).len() ==> exists|j: int|
                0 <= j < rs.len() && rs[j] == #[trigger] without_local(rs)[i],
    decreases rs.len(),
{
    if rs.len() > 0 {
        let some = rs.drop_last();
        let w = without_local(rs);
        lemma_without_local(some);
        if rs.last().name != "local"@ {
            assert(w.drop_last() =~= without_local(some));
        }
        assert forall|r: RepoModel| #[trigger] occurrences(w, r) == if r.name == "local"@ {
            0
        } else {
            occurrences(rs, r)
        } by {
            assert(occurrences(without_local(some), r) == if r.name == "local"@ {
                0
            } else {
                occurrences(some, r)
            });
        }
        assert forall|i: int| 0 <= i < w.len() implies exists|j: int|
            0 <= j < rs.len() && rs[j] == #[trigger] w[i] by {
            if i < without_local(some).len() {
                assert(w[i] == without_local(some)[i]);
                let j = choose|j: int| 0 <= j < some.len() && some[j] == without_local(some)[i];
                assert(rs[j] == w[i]);
            } else {
                assert(rs[rs.len() - 1] == w[i]);
            }
        }
    }
}

proof fn lemma_occurrences_front(rs: Seq<RepoModel>, first: RepoModel, r: RepoModel)
    ensures
        occurrences(seq![first] + rs, r) == occurrences(rs, r) + if first == r {
            1nat
        } else {
            0nat
        },
    decreases rs.len(),
{
    let more = seq![first] + rs;
    if rs.len() == 0 {
        reveal_with_fuel(occurrences, 2);
        assert(more.last() == first);
    } else {
        assert(more.drop_last() =~= seq![first] + rs.drop_last());
        lemma_occurrences_front(rs.drop_last(), first, r);
    }
}

/// There is one local repository at a time, and every other repository stays.
pub proof fn one_local_repo(rs: Seq<RepoModel>, folder: Seq<char>, r: RepoModel)
    ensures
        occurrences(with_local(rs, folder), r) == if r == local_repo(folder) {
            1
        } else if r.name == "local"@ {
            0
        } else {
            occurrences(rs, r)
        },
{
    lemma_without_local(rs);
    by_priority_keeps_all(seq![local_repo(folder)] + without_local(rs), r);
    lemma_occurrences_front(without_local(rs), local_repo(folder), r);
    assert(occurrences(without_local(rs), r) == if r.name == "local"@ {
        0
    } else {
        occurrences(rs, r)
    });
}

proof fn lemma_tier_within(rs: Seq<RepoModel>, p: int)
    ensures
        forall|i: int|
            0 <= i < tier(rs, p).len() ==> exists|j: int|
                0 <= j < rs.len() && rs[j] == #[trigger] tier(rs, p)[i],
    decreases rs.len(),
{
    if rs.len() > 0 {
        let some = rs.drop_last();
        lemma_tier_within(some, p);
        assert forall|i: int| 0 <= i < tier(rs, p).len() implies exists|j: int|
            0 <= j < rs.len() && rs[j] == #[trigger] tier(rs, p)[i] by {
            if i < tier(some, p).len() {
                assert(tier(rs, p)[i] == tier(some, p)[i]);
                let j = choose|j: int| 0 <= j < some.len() && some[j] == tier(some, p)[i];
                assert(rs[j] == tier(rs, p)[i]);
            } else {
                assert(rs[rs.len() - 1] == tier(rs, p)[i]);
            }
        }
    }
}

proof fn lemma_tiers_within(rs: Seq<RepoModel>, n: int)
    ensures
        forall|i: int|
            0 <= i < tiers_below(rs, n).len() ==> exists|j: int|
                0 <= j < rs.len() && rs[j] == #[trigger] tiers_below(rs, n)[i],
    decreases n,
{
    if n > 0 {
        lemma_tiers_within(rs, n - 1);
        lemma_tier_within(rs, n - 1);
        let a = tiers_below(rs, n - 1);
        assert forall|i: int| 0 <= i < tiers_below(rs, n).len() implies exists|j: int|
            0 <= j < rs.len() && rs[j] == #[trigger] tiers_below(rs, n)[i] by {
            if i < a.len() {
                assert(tiers_below(rs, n)[i] == a[i]);
            } else {
                assert(tiers_below(rs, n)[i] == tier(rs, n - 1)[i - a.len()]);
            }
        }
    }
}

/// The repositories with a folder among them come back from the file that records them:
/// the next command asks the repositories that this one has set.
pub proof fn local_repo_takes_effect(rs: Seq<RepoModel>, folder: Seq<char>)
    requires
        forall|i: int| 0 <= i < rs.len() ==> is_plain_repo(#[trigger] rs[i]),
        is_plain("file://"@ + folder),
    ensures
        loaded(Some(conf_text(with_local(rs, folder)))) == with_local(rs, folder),
{
    let list = seq![local_repo(folder)] + without_local(rs);
    let set = with_local(rs, folder);
    lemma_without_local(rs);
    lemma_tiers_within(list, 256);
    assert(is_plain("local"@)) by {
        reveal_strlit("local");
    }
    assert forall|i: int| 0 <= i < set.len() implies is_plain_repo(#[trigger] set[i]) by {
        let j = choose|j: int| 0 <= j < list.len() && list[j] == tiers_below(list, 256)[i];
        if j > 0 {
            assert(list[j] == without_local(rs)[j - 1]);
        }
    }
    conf_round_trip(set);
    by_priority_is_idempotent(list);
    one_local_repo(rs, folder, local_repo(folder));
    assert(set.len() > 0);
}


proof fn lemma_trusted_front(rs: Seq<RepoModel>)
    requires
        rs.len() > 0,
        is_trusted(rs[0]),
    ensures
        with_trust(rs, true).len() > 0,
        with_trust(rs, true)[0] == rs[0],
    decreases rs.len(),
{
    if rs.len() > 1 {
        lemma_trusted_front(rs.drop_last());
    } else {
        reveal_with_fuel(with_trust, 2);
    }
}

/// Once a folder is set, and wherever priorities begin at one, the next command looks for
/// every package in that folder first.
pub proof fn the_folder_is_searched_first(
    rs: Seq<RepoModel>,
    folder: Seq<char>,
    pkg: Seq<char>,
    ext: Seq<char>,
)
    requires
        forall|i: int|
            0 <= i < rs.len() ==> is_plain_repo(#[trigger] rs[i]) && rs[i].priority >= 1,
        is_plain("file://"@ + folder),
    ensures
        ({
            let tries = attempts(loaded(Some(conf_text(with_local(rs, folder)))), pkg, ext);
            &&& tries.len() > 0
            &&& tries[0] == attempt(local_repo(folder), pkg, ext)
        }),
{
    local_repo_takes_effect(rs, folder);
    local_is_asked_first(rs, folder);
    lemma_trusted_front(with_local(rs, folder));
}

/// The folder is a repository of its own name, which is read from the disk and comes before
/// all others; a package is looked for right below it, however many slashes its path ends in.
pub proof fn what_a_folder_is_as_a_repository(
    rs: Seq<RepoModel>,
    folder: Seq<char>,
    pkg: Seq<char>,
    ext: Seq<char>,
)
    requires
        forall|i: int| 0 <= i < rs.len() ==> (#[trigger] rs[i]).priority >= 1,
        folder.len() > 0 && folder.last() != '/',
    ensures
        with_local(rs, folder).len() > 0,
        with_local(rs, folder)[0].name == "local"@,
        with_local(rs, folder)[0].url == "file://"@ + folder,
        with_local(rs, folder)[0].priority == 1,
        attempt(with_local(rs, folder)[0], pkg, ext).url == "file://"@ + folder + "/"@ + pkg + "."@
            + ext,
        attempt(with_local(rs, folder)[0], pkg, ext).trusted,
{
    local_is_asked_first(rs, folder);
    one_slash_before_a_file("file://"@ + folder, pkg + "."@ + ext);
    assert(attempt(with_local(rs, folder)[0], pkg, ext).url =~= "file://"@ + folder + "/"@ + pkg
        + "."@ + ext);
}

/// Of the other repositories none is lost, and none changes, but for a folder that was set
/// before.
pub proof fn other_repositories_stay(rs: Seq<RepoModel>, folder: Seq<char>, r: RepoModel)
    requires
        r.name != "local"@,
    ensures
        occurrences(with_local(rs, folder), r) == occurrences(rs, r),
        forall|i: int|
            0 <= i < with_local(rs, folder).len() && (#[trigger] with_local(rs, folder)[i]).name
                == "local"@ ==> with_local(rs, folder)[i].url == "file://"@ + folder,
{
    one_local_repo(rs, folder, r);
    let all = with_local(rs, folder);
    assert forall|i: int| 0 <= i < all.len() && (#[trigger] all[i]).name == "local"@ implies all[i].url
        == "file://"@ + folder by {
        one_local_repo(rs, folder, all[i]);
        lemma_occurs(all, i);
    }
}

proof fn lemma_occurs(rs: Seq<RepoModel>, i: int)
    requires
        0 <= i < rs.len(),
    ensures
        occurrences(rs, rs[i]) > 0,
    decreases rs.len(),
{
    if i < rs.len() - 1 {
        lemma_occurs(rs.drop_last(), i);
        assert(rs.drop_last()[i] == rs[i]);
    }
}

/// Setting a folder changes the configuration by that folder alone: the next command has it as
/// its local repository, and has every other repository as before.
pub proof fn a_folder_is_all_that_changes(
    conf: Option<Seq<char>>,
    folder: Seq<char>,
    r: RepoModel,
)
    requires
        all_plain(loaded(conf)),
        is_plain("file://"@ + folder),
    ensures
        ({
            let next = loaded(Some(conf_text(with_local(loaded(conf), folder))));
            &&& r.name != "local"@ ==> occurrences(next, r) == occurrences(loaded(conf), r)
            &&& r.name == "local"@ ==> occurrences(next, r) == if r.url == "file://"@ + folder
                && r.priority == 1 {
                1nat
            } else {
                0nat
            }
        }),
{
    local_repo_takes_effect(loaded(conf), folder);
    one_local_repo(loaded(conf), folder, r);
    if r.name == "local"@ && r.url == "file://"@ + folder && r.priority == 1 {
        assert(r == local_repo(folder));
    }
}

} // verus!
