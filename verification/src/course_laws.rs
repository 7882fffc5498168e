//! The course that installations take.

use crate::control::{control_of, ControlModel};
use crate::database::{db_dir, db_path, dependencies, record_text};
use crate::fetch::attempts;
use crate::install_model::{
    begin_fetch, begin_file, chain, next_effect, next_state, notice, repo_job, stage_dir, succ,
    EffectModel, EventModel, InstallerModel, JobModel, NoticeKind, Phase,
};
use crate::repo::RepoModel;
use crate::run_laws::run;
use crate::text::lines;
use vstd::prelude::*;

verus! {

/// A job is on top of others in an installation.
pub open spec fn on_top(st: InstallerModel, rest: Seq<JobModel>, job: JobModel) -> bool {
    st.jobs == rest.push(job)
}

/// The answer that something went well, or is there.
pub open spec fn yes() -> EventModel {
    EventModel::Outcome { ok: true }
}

/// The answer that something failed, or is not there.
pub open spec fn no() -> EventModel {
    EventModel::Outcome { ok: false }
}

/// Any of the two.
pub open spec fn either(ok: bool) -> EventModel {
    EventModel::Outcome { ok }
}

proof fn lemma_step(st: InstallerModel, rest: Seq<JobModel>, job: JobModel, event: EventModel)
    requires
        on_top(st, rest, job),
    ensures
        st.jobs.last() == job,
        st.jobs.drop_last() == rest,
        next_state(st, event).root == st.root,
        next_state(st, event).pid == st.pid,
{
    reveal(next_state);
    assert(rest.push(job).drop_last() =~= rest);
}

/// A package that is at hand is opened in a directory of its own: it is unpacked there, both
/// its parts must be there, the first of them is unpacked, and the control file in it is read.
pub proof fn a_package_is_opened(
    st: InstallerModel,
    rest: Seq<JobModel>,
    job: JobModel,
    text: Seq<char>,
)
    requires
        on_top(st, rest, job),
        job.phase == Phase::MakeStage,
    ensures
        ({
            let dir = stage_dir(st.pid, job.stage);
            let s1 = next_state(st, yes());
            let s2 = next_state(s1, yes());
            let s3 = next_state(s2, yes());
            let s4 = next_state(s3, yes());
            let s5 = next_state(s4, EventModel::Text { text });
            let m = control_of(lines(text));
            &&& next_effect(st) == (EffectModel::MakeStage { dir })
            &&& next_effect(s1) == (EffectModel::Unpack { archive: job.archive, dir })
            &&& next_effect(s2) == (EffectModel::CheckFiles {
                first: dir + "/"@ + "control.tar.xz"@,
                second: dir + "/"@ + "data.tar.xz"@,
            })
            &&& next_effect(s3) == (EffectModel::Unpack {
                archive: dir + "/"@ + "control.tar.xz"@,
                dir: dir + "/"@ + "control"@,
            })
            &&& next_effect(s4) == (EffectModel::ReadFile {
                path: dir + "/"@ + "control"@ + "/"@ + "control"@,
            })
            &&& s5.root == st.root && s5.pid == st.pid && s5.stages == st.stages
            &&& m.name.len() > 0 ==> on_top(
                s5,
                rest,
                JobModel {
                    staged: true,
                    meta: m,
                    deps: dependencies(m.depends),
                    met: 0,
                    phase: if dependencies(m.depends).len() > 0 {
                        Phase::Depend
                    } else {
                        Phase::CheckInstalled
                    },
                    ..job
                },
            ) && s5.notices == seq![notice(NoticeKind::About, m.name)]
        }),
{
    reveal(next_state);
    lemma_step(st, rest, job, yes());
    let s1 = next_state(st, yes());
    let j1 = JobModel { staged: true, phase: Phase::Unpack, ..job };
    assert(on_top(s1, rest, j1));
    lemma_step(s1, rest, j1, yes());
    let s2 = next_state(s1, yes());
    let j2 = JobModel { phase: Phase::CheckParts, ..j1 };
    assert(on_top(s2, rest, j2));
    lemma_step(s2, rest, j2, yes());
    let s3 = next_state(s2, yes());
    let j3 = JobModel { phase: Phase::UnpackControl, ..j1 };
    assert(on_top(s3, rest, j3));
    lemma_step(s3, rest, j3, yes());
    let s4 = next_state(s3, yes());
    let j4 = JobModel { phase: Phase::ReadControl, ..j1 };
    assert(on_top(s4, rest, j4));
    lemma_step(s4, rest, j4, EventModel::Text { text });
    let s5 = next_state(s4, EventModel::Text { text });
    let m = control_of(lines(text));
    if m.name.len() > 0 {
        assert(s5.notices =~= seq![notice(NoticeKind::About, m.name)]);
    }
}

/// A package that cannot be opened is given up at once: what it says depends on what has
/// failed, its directory is cleared away, and it does not count as installed.
pub proof fn a_package_that_cannot_be_opened_is_given_up(
    st: InstallerModel,
    rest: Seq<JobModel>,
    job: JobModel,
)
    requires
        on_top(st, rest, job),
    ensures
        ({
            let next = next_state(st, no());
            let kind = match job.phase {
                Phase::Unpack => Some(NoticeKind::NotAPackage),
                Phase::CheckParts => Some(NoticeKind::PartMissing),
                Phase::UnpackControl => Some(NoticeKind::ControlFailed),
                Phase::Extract => Some(NoticeKind::DataFailed),
                _ => None,
            };
            kind matches Some(k) ==> {
                &&& on_top(next, rest, JobModel { phase: Phase::DropStage, ..job })
                &&& next.notices == seq![notice(k, job.archive)]
                &&& next_effect(next) == (EffectModel::RemoveStage {
                    dir: stage_dir(st.pid, job.stage),
                })
            }
        }),
{
    reveal(next_state);
    lemma_step(st, rest, job, no());
    let next = next_state(st, no());
    assert(next.notices.len() == 1 ==> next.notices =~= seq![next.notices[0]]);
}

/// The dependencies of a package are looked up in the order of its list, one after the other;
/// one that is found is not installed again.
pub proof fn dependencies_are_looked_up_in_turn(
    st: InstallerModel,
    rest: Seq<JobModel>,
    job: JobModel,
)
    requires
        on_top(st, rest, job),
        job.phase == Phase::Depend,
        job.met < job.deps.len(),
    ensures
        next_effect(st) == (EffectModel::Probe { path: db_path(st.root, job.deps[job.met as int]) }),
        on_top(
            next_state(st, yes()),
            rest,
            JobModel {
                met: (job.met + 1) as nat,
                phase: if job.met + 1 < job.deps.len() {
                    Phase::Depend
                } else {
                    Phase::CheckInstalled
                },
                ..job
            },
        ),
        next_state(st, yes()).root == st.root,
        next_state(st, yes()).pid == st.pid,
        next_state(st, yes()).stages == st.stages,
        next_state(st, yes()).notices.len() == 0,
{
    reveal(next_state);
    lemma_step(st, rest, job, yes());
}

/// A dependency that is missing is installed from the repositories first, while the package
/// waits, unless it is being installed already; the user is told of it.
pub proof fn a_missing_dependency_is_installed(
    st: InstallerModel,
    rest: Seq<JobModel>,
    job: JobModel,
)
    requires
        on_top(st, rest, job),
        job.phase == Phase::Depend,
        job.met < job.deps.len(),
        !chain(st).contains(job.deps[job.met as int]),
    ensures
        ({
            let dep = job.deps[job.met as int];
            let next = next_state(st, no());
            &&& on_top(next, rest.push(JobModel { phase: Phase::Wait, ..job }), repo_job(dep))
            &&& next_effect(next) is LoadRepos
            &&& next.notices == seq![
                notice(NoticeKind::Resolving, dep),
                notice(NoticeKind::Fetching, dep),
            ]
            &&& next.root == st.root && next.pid == st.pid && next.stages == st.stages
        }),
{
    reveal(next_state);
    lemma_step(st, rest, job, no());
    let quiet = InstallerModel { notices: seq![], ..st };
    assert(chain(quiet) == chain(st));
    let dep = job.deps[job.met as int];
    assert(next_state(st, no()).notices =~= seq![
        notice(NoticeKind::Resolving, dep),
        notice(NoticeKind::Fetching, dep),
    ]);
}

/// Once its dependencies are there, a package is put in place: its own record is looked for, the
/// script before the installation is run, the root is made, the second part is extracted into
/// it, the script after the installation is run, the files of that part are listed, the record
/// is written, the scripts for a removal are kept beside it, and the directory is cleared away.
/// What came of the steps other than the extraction does not stop it.
#[verifier::rlimit(50)]
pub proof fn a_package_is_put_in_place(
    st: InstallerModel,
    rest: Seq<JobModel>,
    job: JobModel,
    files: Seq<Seq<char>>,
    oks: Seq<bool>,
)
    requires
        on_top(st, rest, job),
        job.phase == Phase::CheckInstalled,
        oks.len() == 7,
    ensures
        ({
            let dir = stage_dir(st.pid, job.stage);
            let control = dir + "/"@ + "control"@;
            let data = dir + "/"@ + "data.tar.xz"@;
            let record = db_path(st.root, job.meta.name);
            let s1 = next_state(st, either(oks[0]));
            let s2 = next_state(s1, either(oks[1]));
            let s3 = next_state(s2, either(oks[2]));
            let s4 = next_state(s3, yes());
            let s5 = next_state(s4, either(oks[3]));
            let s6 = next_state(s5, EventModel::Files { files });
            let s7 = next_state(s6, either(oks[4]));
            let s8 = next_state(s7, either(oks[5]));
            let s9 = next_state(s8, either(oks[6]));
            &&& next_effect(st) == (EffectModel::Probe { path: record })
            &&& next_effect(s1) == (EffectModel::RunHook { dir: control, name: "preinst"@ })
            &&& next_effect(s2) == (EffectModel::MakeDir { path: st.root })
            &&& next_effect(s3) == (EffectModel::Extract { archive: data, root: st.root })
            &&& next_effect(s4) == (EffectModel::RunHook { dir: control, name: "postinst"@ })
            &&& next_effect(s5) == (EffectModel::ListMembers { archive: data })
            &&& next_effect(s6) == (EffectModel::WriteRecord {
                dir: db_dir(st.root),
                path: record,
                content: record_text(job.meta, files),
            })
            &&& next_effect(s7) == (EffectModel::KeepHook {
                from: control + "/"@ + "prerm"@,
                to: record + ".prerm"@,
            })
            &&& next_effect(s8) == (EffectModel::KeepHook {
                from: control + "/"@ + "postrm"@,
                to: record + ".postrm"@,
            })
            &&& next_effect(s9) == (EffectModel::RemoveStage { dir })
            &&& on_top(s9, rest, JobModel { files, ok: true, phase: Phase::DropStage, ..job })
            &&& s9.root == st.root && s9.pid == st.pid && s9.stages == st.stages
            &&& s1.notices == if oks[0] {
                seq![notice(NoticeKind::Reinstalling, job.meta.name)]
            } else {
                seq![]
            }
            &&& s3.notices == seq![notice(NoticeKind::Extracting, job.meta.name)]
            &&& s7.notices == if oks[4] {
                seq![]
            } else {
                seq![notice(NoticeKind::Unrecorded, job.meta.name)]
            }
            &&& s9.notices == seq![notice(NoticeKind::Installed, job.meta.name)]
        }),
{
    let name = job.meta.name;
    let s1 = lemma_go(st, rest, job, either(oks[0]));
    let j1 = JobModel { phase: Phase::PreInst, ..job };
    assert(on_top(s1, rest, j1));
    let s2 = lemma_go(s1, rest, j1, either(oks[1]));
    let j2 = JobModel { phase: Phase::MakeRoot, ..job };
    assert(on_top(s2, rest, j2));
    let s3 = lemma_go(s2, rest, j2, either(oks[2]));
    let j3 = JobModel { phase: Phase::Extract, ..job };
    assert(on_top(s3, rest, j3));
    let s4 = lemma_go(s3, rest, j3, yes());
    let j4 = JobModel { ok: true, phase: Phase::PostInst, ..job };
    assert(on_top(s4, rest, j4));
    let s5 = lemma_go(s4, rest, j4, either(oks[3]));
    let j5 = JobModel { phase: Phase::Files, ..j4 };
    assert(on_top(s5, rest, j5));
    let s6 = lemma_go(s5, rest, j5, EventModel::Files { files });
    let j6 = JobModel { files, phase: Phase::Record, ..j4 };
    assert(on_top(s6, rest, j6));
    let s7 = lemma_go(s6, rest, j6, either(oks[4]));
    let j7 = JobModel { phase: Phase::KeepPrerm, ..j6 };
    assert(on_top(s7, rest, j7));
    let s8 = lemma_go(s7, rest, j7, either(oks[5]));
    let j8 = JobModel { phase: Phase::KeepPostrm, ..j6 };
    assert(on_top(s8, rest, j8));
    let s9 = lemma_go(s8, rest, j8, either(oks[6]));
    let j9 = JobModel { phase: Phase::DropStage, ..j6 };
    assert(on_top(s9, rest, j9));
}

/// One step of a job that goes on, in the phases that install a package's files.
proof fn lemma_go(
    st: InstallerModel,
    rest: Seq<JobModel>,
    job: JobModel,
    event: EventModel,
) -> (next: InstallerModel)
    requires
        on_top(st, rest, job),
    ensures
        next == next_state(st, event),
        st.jobs.last() == job,
        next.root == st.root,
        next.pid == st.pid,
        match (job.phase, event) {
            (Phase::CheckInstalled, EventModel::Outcome { ok }) => {
                &&& on_top(next, rest, JobModel { phase: Phase::PreInst, ..job })
                &&& next.stages == st.stages
                &&& next.notices == if ok {
                    seq![notice(NoticeKind::Reinstalling, job.meta.name)]
                } else {
                    seq![]
                }
            },
            (Phase::PreInst, EventModel::Outcome { .. }) => {
                &&& on_top(next, rest, JobModel { phase: Phase::MakeRoot, ..job })
                &&& next.stages == st.stages
            },
            (Phase::MakeRoot, EventModel::Outcome { .. }) => {
                &&& on_top(next, rest, JobModel { phase: Phase::Extract, ..job })
                &&& next.stages == st.stages
                &&& next.notices == seq![notice(NoticeKind::Extracting, job.meta.name)]
            },
            (Phase::Extract, EventModel::Outcome { ok }) => ok ==> {
                &&& on_top(next, rest, JobModel { ok: true, phase: Phase::PostInst, ..job })
                &&& next.stages == st.stages
            },
            (Phase::PostInst, EventModel::Outcome { .. }) => {
                &&& on_top(next, rest, JobModel { phase: Phase::Files, ..job })
                &&& next.stages == st.stages
            },
            (Phase::Files, EventModel::Files { files }) => {
                &&& on_top(next, rest, JobModel { files, phase: Phase::Record, ..job })
                &&& next.stages == st.stages
            },
            (Phase::Record, EventModel::Outcome { ok }) => {
                &&& on_top(next, rest, JobModel { phase: Phase::KeepPrerm, ..job })
                &&& next.stages == st.stages
                &&& next.notices == if ok {
                    seq![]
                } else {
                    seq![notice(NoticeKind::Unrecorded, job.meta.name)]
                }
            },
            (Phase::KeepPrerm, EventModel::Outcome { .. }) => {
                &&& on_top(next, rest, JobModel { phase: Phase::KeepPostrm, ..job })
                &&& next.stages == st.stages
            },
            (Phase::KeepPostrm, EventModel::Outcome { .. }) => {
                &&& on_top(next, rest, JobModel { phase: Phase::DropStage, ..job })
                &&& next.stages == st.stages
                &&& next.notices == seq![notice(NoticeKind::Installed, job.meta.name)]
            },
            _ => true,
        },
{
    reveal(next_state);
    lemma_step(st, rest, job, event);
    let next = next_state(st, event);
    assert(next.notices.len() == 0 ==> next.notices =~= seq![]);
    assert(next.notices.len() == 1 ==> next.notices =~= seq![next.notices[0]]);
    next
}

/// A job whose directory has been cleared away clears away what it had fetched, and nothing
/// that it had not. Then it ends: the package that waits for it goes on with its next
/// dependency, or, if the job has extracted nothing, gives up; where none waits, the
/// installation is over, and has succeeded exactly if the job has extracted its files.
pub proof fn a_job_ends(st: InstallerModel, rest: Seq<JobModel>, job: JobModel, ok: bool, then: bool)
    requires
        on_top(st, rest, job),
        job.phase == Phase::DropStage,
        rest.len() > 0 ==> rest.last().met < rest.last().deps.len(),
    ensures
        ({
            let s1 = next_state(st, either(ok));
            let s2 = next_state(s1, either(then));
            let over = if job.fetched {
                s2
            } else {
                s1
            };
            &&& job.fetched ==> next_effect(s1) == (EffectModel::RemoveFile { path: job.archive })
            &&& over.root == st.root && over.pid == st.pid && over.stages == st.stages
            &&& rest.len() == 0 ==> next_effect(over) == (EffectModel::Done { ok: job.ok })
            &&& rest.len() > 0 && job.ok ==> on_top(
                over,
                rest.drop_last(),
                JobModel {
                    met: (rest.last().met + 1) as nat,
                    phase: if rest.last().met + 1 < rest.last().deps.len() {
                        Phase::Depend
                    } else {
                        Phase::CheckInstalled
                    },
                    ..rest.last()
                },
            )
            &&& rest.len() > 0 && !job.ok ==> on_top(
                over,
                rest.drop_last(),
                JobModel { phase: Phase::DropStage, ..rest.last() },
            ) && over.notices == seq![
                notice(NoticeKind::DependencyFailed, rest.last().deps[rest.last().met as int]),
            ]
        }),
{
    reveal(next_state);
    lemma_step(st, rest, job, either(ok));
    let s1 = next_state(st, either(ok));
    let quiet = InstallerModel { notices: seq![], ..st };
    let cleared = JobModel { staged: false, ..job };
    assert(quiet.jobs.drop_last().push(cleared) =~= rest.push(cleared));
    assert(rest.push(cleared).drop_last() =~= rest);
    if job.fetched {
        let j1 = JobModel { phase: Phase::DropArchive, ..cleared };
        assert(on_top(s1, rest, j1));
        lemma_step(s1, rest, j1, either(then));
        let s2 = next_state(s1, either(then));
        if rest.len() > 0 && !job.ok {
            assert(s2.notices =~= seq![
                notice(NoticeKind::DependencyFailed, rest.last().deps[rest.last().met as int]),
            ]);
        }
    } else if rest.len() > 0 && !job.ok {
        assert(s1.notices =~= seq![
            notice(NoticeKind::DependencyFailed, rest.last().deps[rest.last().met as int]),
        ]);
    }
}

/// A package is asked of the repositories that there are, one after the other, until one of
/// them has it: with its file at hand, it is opened in the next directory.
pub proof fn repositories_are_tried_in_turn(
    st: InstallerModel,
    rest: Seq<JobModel>,
    job: JobModel,
    repos: Seq<RepoModel>,
    k: nat,
)
    requires
        on_top(st, rest, job),
        job.phase == Phase::AskSpkg,
        k < attempts(repos, job.package, "spkg"@).len(),
    ensures
        ({
            let tries = attempts(repos, job.package, "spkg"@);
            let events = seq![EventModel::Repos { repos }] + Seq::new(k, |i: int| no());
            let s = run(st, events);
            let next = next_state(s, yes());
            &&& next_effect(st) is LoadRepos
            &&& next_effect(s) == (EffectModel::Fetch { attempt: tries[k as int], dest: job.archive })
            &&& on_top(
                next,
                rest,
                JobModel {
                    attempts: tries,
                    tried: k,
                    stage: st.stages,
                    phase: Phase::MakeStage,
                    ..job
                },
            )
            &&& next.root == st.root && next.pid == st.pid && next.stages == succ(st.stages)
            &&& on_top(
                s,
                rest,
                JobModel { attempts: tries, tried: k, phase: Phase::GetSpkg, ..job },
            )
            &&& s.root == st.root && s.pid == st.pid && s.stages == st.stages
        }),
    decreases k,
{
    reveal(next_state);
    let tries = attempts(repos, job.package, "spkg"@);
    let events = seq![EventModel::Repos { repos }] + Seq::new(k, |i: int| no());
    let s = run(st, events);
    let now = JobModel { attempts: tries, tried: k, phase: Phase::GetSpkg, ..job };
    if k == 0 {
        lemma_step(st, rest, job, EventModel::Repos { repos });
        assert(events.drop_last() =~= seq![]);
        assert(events.last() == EventModel::Repos { repos });
        assert(run(st, events.drop_last()) == st);
        assert(on_top(s, rest, now));
    } else {
        let fewer = (k - 1) as nat;
        repositories_are_tried_in_turn(st, rest, job, repos, fewer);
        let before = seq![EventModel::Repos { repos }] + Seq::new(fewer, |i: int| no());
        assert(events.drop_last() =~= before);
        assert(events.last() == no());
        let b = run(st, before);
        let was = JobModel { attempts: tries, tried: fewer, phase: Phase::GetSpkg, ..job };
        lemma_step(b, rest, was, no());
        assert(on_top(s, rest, now));
    }
    lemma_step(s, rest, now, yes());
}

/// Where no repository has a package, what the attempts have left is cleared away, and the
/// user is told; the same repositories are asked for a bare archive then.
pub proof fn then_a_bare_archive_is_tried(
    st: InstallerModel,
    rest: Seq<JobModel>,
    job: JobModel,
    repos: Seq<RepoModel>,
    ok: bool,
)
    requires
        on_top(st, rest, job),
        job.phase == Phase::GetSpkg,
        job.tried + 1 == job.attempts.len(),
    ensures
        ({
            let s1 = next_state(st, no());
            let s2 = next_state(s1, either(ok));
            let s3 = next_state(s2, EventModel::Repos { repos });
            let tries = attempts(repos, job.package, "tar.xz"@);
            let dest = "/tmp/spk-"@ + job.package + "."@ + "tar.xz"@;
            &&& next_effect(s1) == (EffectModel::RemoveFile { path: job.archive })
            &&& next_effect(s2) is LoadRepos
            &&& s2.notices == seq![notice(NoticeKind::TryingBare, job.package)]
            &&& tries.len() > 0 ==> next_effect(s3) == (EffectModel::Fetch {
                attempt: tries[0],
                dest,
            }) && on_top(
                s3,
                rest,
                JobModel { archive: dest, attempts: tries, tried: 0, phase: Phase::GetTar, ..job },
            )
            &&& tries.len() == 0 ==> s3.notices == seq![notice(NoticeKind::NotFound, job.package)]
                && next_effect(s3) == (EffectModel::RemoveFile { path: dest })
            &&& s3.root == st.root && s3.pid == st.pid
        }),
{
    reveal(next_state);
    lemma_step(st, rest, job, no());
    let s1 = next_state(st, no());
    let j1 = JobModel { tried: (job.tried + 1) as nat, phase: Phase::DropSpkg, ..job };
    assert(on_top(s1, rest, j1));
    lemma_step(s1, rest, j1, either(ok));
    let s2 = next_state(s1, either(ok));
    let dest = "/tmp/spk-"@ + job.package + "."@ + "tar.xz"@;
    let j2 = JobModel { archive: dest, phase: Phase::AskTar, ..j1 };
    assert(on_top(s2, rest, j2));
    assert(s2.notices =~= seq![notice(NoticeKind::TryingBare, job.package)]);
    lemma_step(s2, rest, j2, EventModel::Repos { repos });
    let s3 = next_state(s2, EventModel::Repos { repos });
    assert(s3.notices.len() == 1 ==> s3.notices =~= seq![s3.notices[0]]);
}

/// A repository that lacks the bare archive makes room for the next one; after the last, the
/// user is told that there is no such package, and it does not count as installed.
pub proof fn bare_archives_are_tried_in_turn(
    st: InstallerModel,
    rest: Seq<JobModel>,
    job: JobModel,
    ok: bool,
)
    requires
        on_top(st, rest, job),
        job.phase == Phase::GetTar,
        job.tried < job.attempts.len(),
        !job.ok,
    ensures
        ({
            let s1 = next_state(st, no());
            let s2 = next_state(s1, either(ok));
            &&& next_effect(st) == (EffectModel::Fetch {
                attempt: job.attempts[job.tried as int],
                dest: job.archive,
            })
            &&& job.tried + 1 < job.attempts.len() ==> on_top(
                s1,
                rest,
                JobModel { tried: (job.tried + 1) as nat, ..job },
            )
            &&& job.tried + 1 == job.attempts.len() ==> {
                &&& s1.notices == seq![notice(NoticeKind::NotFound, job.package)]
                &&& next_effect(s1) == (EffectModel::RemoveFile { path: job.archive })
                &&& rest.len() == 0 ==> next_effect(s2) == (EffectModel::Done { ok: false })
            }
        }),
{
    reveal(next_state);
    lemma_step(st, rest, job, no());
    let s1 = next_state(st, no());
    assert(s1.notices.len() == 1 ==> s1.notices =~= seq![s1.notices[0]]);
    if job.tried + 1 == job.attempts.len() {
        let j1 = JobModel { tried: (job.tried + 1) as nat, phase: Phase::DropTar, ..job };
        assert(on_top(s1, rest, j1));
        lemma_step(s1, rest, j1, either(ok));
    }
}

/// A bare archive is put in place: the root is made, the archive is listed and extracted into
/// the root, it is cleared away, and its record is written. If it cannot be extracted, nothing
/// is recorded, and it does not count as installed.
pub proof fn a_bare_archive_is_put_in_place(
    st: InstallerModel,
    rest: Seq<JobModel>,
    job: JobModel,
    files: Seq<Seq<char>>,
    oks: Seq<bool>,
)
    requires
        on_top(st, rest, job),
        job.phase == Phase::GetTar,
        !job.ok,
        oks.len() == 3,
        rest.len() > 0 ==> rest.last().met < rest.last().deps.len(),
    ensures
        ({
            let s1 = next_state(st, yes());
            let s2 = next_state(s1, either(oks[0]));
            let s3 = next_state(s2, EventModel::Files { files });
            let s4 = next_state(s3, yes());
            let s5 = next_state(s4, either(oks[1]));
            let s6 = next_state(s5, either(oks[2]));
            let f4 = next_state(s3, no());
            let f5 = next_state(f4, either(oks[1]));
            &&& next_effect(s1) == (EffectModel::MakeDir { path: st.root })
            &&& next_effect(s2) == (EffectModel::ListMembers { archive: job.archive })
            &&& next_effect(s3) == (EffectModel::Extract { archive: job.archive, root: st.root })
            &&& s3.notices == seq![notice(NoticeKind::Extracting, job.package)]
            &&& next_effect(s4) == (EffectModel::RemoveFile { path: job.archive })
            &&& next_effect(s5) == (EffectModel::WriteRecord {
                dir: db_dir(st.root),
                path: db_path(st.root, job.package),
                content: record_text(
                    ControlModel {
                        name: job.package,
                        version: "unknown (legacy .tar.xz, no metadata)"@,
                        architecture: "x86_64"@,
                        depends: seq![],
                        description: seq![],
                    },
                    files,
                ),
            })
            &&& s6.notices == seq![notice(NoticeKind::Installed, job.package)]
            &&& rest.len() == 0 ==> next_effect(s6) == (EffectModel::Done { ok: true })
            &&& rest.len() > 0 ==> s6.jobs.len() == rest.len() && s6.jobs.last().met
                == rest.last().met + 1
            &&& f4.notices == seq![notice(NoticeKind::BareFailed, job.package)]
            &&& next_effect(f4) == (EffectModel::RemoveFile { path: job.archive })
            &&& rest.len() == 0 ==> next_effect(f5) == (EffectModel::Done { ok: false })
            &&& rest.len() > 0 ==> f5.jobs.len() == rest.len() && f5.notices == seq![
                notice(NoticeKind::DependencyFailed, rest.last().deps[rest.last().met as int]),
            ]
        }),
{
    reveal(next_state);
    lemma_step(st, rest, job, yes());
    let s1 = next_state(st, yes());
    let j1 = JobModel { phase: Phase::BareRoot, ..job };
    assert(on_top(s1, rest, j1));
    lemma_step(s1, rest, j1, either(oks[0]));
    let s2 = next_state(s1, either(oks[0]));
    let j2 = JobModel { phase: Phase::BareFiles, ..job };
    assert(on_top(s2, rest, j2));
    lemma_step(s2, rest, j2, EventModel::Files { files });
    let s3 = next_state(s2, EventModel::Files { files });
    let j3 = JobModel { files, phase: Phase::BareExtract, ..job };
    assert(on_top(s3, rest, j3));
    assert(s3.notices =~= seq![notice(NoticeKind::Extracting, job.package)]);
    lemma_step(s3, rest, j3, yes());
    let s4 = next_state(s3, yes());
    let j4 = JobModel { ok: true, phase: Phase::DropTar, ..j3 };
    assert(on_top(s4, rest, j4));
    lemma_step(s4, rest, j4, either(oks[1]));
    let s5 = next_state(s4, either(oks[1]));
    let j5 = JobModel { phase: Phase::BareRecord, ..j4 };
    assert(on_top(s5, rest, j5));
    lemma_step(s5, rest, j5, either(oks[2]));
    let s6 = next_state(s5, either(oks[2]));
    assert(s6.notices =~= seq![notice(NoticeKind::Installed, job.package)]);
    lemma_step(s3, rest, j3, no());
    let f4 = next_state(s3, no());
    let g4 = JobModel { phase: Phase::DropTar, ..j3 };
    assert(on_top(f4, rest, g4));
    assert(f4.notices =~= seq![notice(NoticeKind::BareFailed, job.package)]);
    lemma_step(f4, rest, g4, either(oks[1]));
    let f5 = next_state(f4, either(oks[1]));
    if rest.len() > 0 {
        assert(f5.notices =~= seq![
            notice(NoticeKind::DependencyFailed, rest.last().deps[rest.last().met as int]),
        ]);
    }
}

/// Both ways to begin: a package from the repositories is first asked of them, and goes into a
/// file that is cleared away in the end; a package in a file is opened where it is, and stays.
pub proof fn what_an_installation_begins_with(
    argument: Seq<char>,
    root: Seq<char>,
    pid: u32,
    stages: u64,
)
    ensures
        ({
            let f = begin_fetch(argument, root, pid, stages);
            &&& next_effect(f) is LoadRepos
            &&& f.jobs.len() == 1 && on_top(f, seq![], repo_job(argument))
            &&& f.root == root && f.pid == pid && f.stages == stages
            &&& f.notices == seq![notice(NoticeKind::Fetching, argument)]
        }),
        ({
            let f = begin_file(argument, root, pid, stages);
            &&& next_effect(f) == (EffectModel::MakeStage { dir: stage_dir(pid, stages) })
            &&& f.jobs.len() == 1 && on_top(f, seq![], f.jobs[0])
            &&& f.jobs[0].archive == argument && !f.jobs[0].fetched && !f.jobs[0].ok
            &&& f.jobs[0].stage == stages && f.jobs[0].phase == Phase::MakeStage
            &&& f.root == root && f.pid == pid && f.stages == succ(stages)
            &&& f.notices.len() == 0
        }),
        ({
            let job = repo_job(argument);
            &&& job.package == argument
            &&& job.archive == "/tmp/spk-"@ + argument + "."@ + "spkg"@
            &&& job.fetched && !job.ok && job.phase == Phase::AskSpkg
        }),
        stages < u64::MAX ==> succ(stages) == stages + 1,
{
    assert(begin_fetch(argument, root, pid, stages).jobs =~= seq![].push(repo_job(argument)));
    let f = begin_file(argument, root, pid, stages);
    assert(f.jobs =~= seq![].push(f.jobs[0]));
}

/// A package is being installed already, as far as cycles go, exactly if one of the jobs above
/// the bottom one is for it.
pub proof fn what_makes_a_cycle(st: InstallerModel, package: Seq<char>)
    requires
        st.jobs.len() > 0,
    ensures
        chain(st).contains(package) <==> exists|i: int|
            0 < i < st.jobs.len() && (#[trigger] st.jobs[i]).package == package,
{
    if chain(st).contains(package) {
        let i = choose|i: int| 0 <= i < chain(st).len() && chain(st)[i] == package;
        assert(st.jobs[i + 1].package == package);
    }
    if exists|i: int| 0 < i < st.jobs.len() && (#[trigger] st.jobs[i]).package == package {
        let i = choose|i: int| 0 < i < st.jobs.len() && (#[trigger] st.jobs[i]).package == package;
        assert(chain(st)[i - 1] == package);
    }
}

/// A package whose directory cannot be made is given up; what was fetched is cleared away, and
/// a file that was given stays where it is.
pub proof fn no_package_without_a_directory(
    st: InstallerModel,
    rest: Seq<JobModel>,
    job: JobModel,
)
    requires
        on_top(st, rest, job),
        job.phase == Phase::MakeStage,
        !job.ok,
    ensures
        ({
            let next = next_state(st, no());
            let dir = stage_dir(st.pid, job.stage);
            &&& job.fetched ==> next_effect(next) == (EffectModel::RemoveFile { path: job.archive })
                && on_top(next, rest, JobModel { phase: Phase::DropArchive, ..job })
            &&& !job.fetched && rest.len() == 0 ==> next_effect(next) == (EffectModel::Done {
                ok: false,
            })
            &&& next.notices.len() > 0 && next.notices[0] == notice(NoticeKind::StageFailed, dir)
        }),
{
    reveal(next_state);
    lemma_step(st, rest, job, no());
    let quiet = InstallerModel { notices: seq![], ..st };
    assert(quiet.jobs.drop_last() =~= rest);
}

/// Metadata without a name do not make a package: the user is told which file that was, and its
/// directory is cleared away.
pub proof fn no_package_without_a_name(
    st: InstallerModel,
    rest: Seq<JobModel>,
    job: JobModel,
    text: Seq<char>,
)
    requires
        on_top(st, rest, job),
        job.phase == Phase::ReadControl,
        control_of(lines(text)).name.len() == 0,
    ensures
        ({
            let next = next_state(st, EventModel::Text { text });
            &&& next_effect(next) == (EffectModel::RemoveStage {
                dir: stage_dir(st.pid, job.stage),
            })
            &&& next.jobs.len() == st.jobs.len() && next.jobs.last().ok == job.ok
            &&& next.notices == seq![notice(NoticeKind::Nameless, job.archive)]
        }),
{
    reveal(next_state);
    lemma_step(st, rest, job, EventModel::Text { text });
    let next = next_state(st, EventModel::Text { text });
    assert(next.notices =~= seq![notice(NoticeKind::Nameless, job.archive)]);
}

/// Where there is no repository at all, a bare archive is not left untried for that.
pub proof fn without_repositories(
    st: InstallerModel,
    rest: Seq<JobModel>,
    job: JobModel,
    repos: Seq<RepoModel>,
)
    requires
        on_top(st, rest, job),
        job.phase == Phase::AskSpkg,
        attempts(repos, job.package, "spkg"@).len() == 0,
    ensures
        next_effect(next_state(st, EventModel::Repos { repos })) == (EffectModel::RemoveFile {
            path: job.archive,
        }),
        next_effect(next_state(next_state(st, EventModel::Repos { repos }), yes())) is LoadRepos,
{
    reveal(next_state);
    lemma_step(st, rest, job, EventModel::Repos { repos });
    let s1 = next_state(st, EventModel::Repos { repos });
    let j1 = s1.jobs.last();
    assert(on_top(s1, rest, j1));
    lemma_step(s1, rest, j1, yes());
}

/// So many answers that something is there.
pub open spec fn all_there(k: nat) -> Seq<EventModel> {
    Seq::new(k, |i: int| yes())
}

proof fn lemma_all_found(st: InstallerModel, rest: Seq<JobModel>, job: JobModel, k: nat)
    requires
        on_top(st, rest, job),
        job.met == 0,
        k <= job.deps.len(),
        job.phase == if job.deps.len() > 0 {
            Phase::Depend
        } else {
            Phase::CheckInstalled
        },
    ensures
        ({
            let s = run(st, all_there(k));
            &&& on_top(
                s,
                rest,
                JobModel {
                    met: k,
                    phase: if k < job.deps.len() {
                        Phase::Depend
                    } else {
                        Phase::CheckInstalled
                    },
                    ..job
                },
            )
            &&& s.root == st.root && s.pid == st.pid && s.stages == st.stages
        }),
    decreases k,
{
    if k == 0 {
        assert(all_there(0) =~= seq![]);
        assert(run(st, all_there(0)) == st);
    } else {
        let less = (k - 1) as nat;
        lemma_all_found(st, rest, job, less);
        assert(all_there(k).drop_last() =~= all_there(less));
        let was = JobModel {
            met: less,
            phase: if less < job.deps.len() {
                Phase::Depend
            } else {
                Phase::CheckInstalled
            },
            ..job
        };
        dependencies_are_looked_up_in_turn(run(st, all_there(less)), rest, was);
    }
}

/// A package in a file, whose dependencies are all there, is installed from beginning to end:
/// the file is opened, each dependency that its metadata list is looked up, the second part is
/// extracted into the root, the record of what was read is written, the directory is cleared
/// away, and the installation has succeeded.
#[verifier::rlimit(40)]
pub proof fn a_package_file_is_installed(
    path: Seq<char>,
    root: Seq<char>,
    pid: u32,
    stages: u64,
    text: Seq<char>,
    files: Seq<Seq<char>>,
    oks: Seq<bool>,
    k: nat,
)
    requires
        control_of(lines(text)).name.len() > 0,
        oks.len() == 8,
    ensures
        ({
            let m = control_of(lines(text));
            let deps = dependencies(m.depends);
            let dir = stage_dir(pid, stages);
            let s0 = begin_file(path, root, pid, stages);
            let s1 = next_state(s0, yes());
            let s4 = next_state(next_state(next_state(s1, yes()), yes()), yes());
            let s5 = next_state(s4, EventModel::Text { text });
            let t0 = run(s5, all_there(deps.len()));
            let t3 = next_state(
                next_state(next_state(t0, either(oks[0])), either(oks[1])),
                either(oks[2]),
            );
            let t6 = next_state(
                next_state(next_state(t3, yes()), either(oks[3])),
                EventModel::Files { files },
            );
            let t9 = next_state(
                next_state(next_state(t6, either(oks[4])), either(oks[5])),
                either(oks[6]),
            );
            &&& next_effect(s1) == (EffectModel::Unpack { archive: path, dir })
            &&& next_effect(s4) == (EffectModel::ReadFile {
                path: dir + "/"@ + "control"@ + "/"@ + "control"@,
            })
            &&& k < deps.len() ==> next_effect(run(s5, all_there(k))) == (EffectModel::Probe {
                path: db_path(root, deps[k as int]),
            })
            &&& next_effect(t0) == (EffectModel::Probe { path: db_path(root, m.name) })
            &&& next_effect(t3) == (EffectModel::Extract {
                archive: dir + "/"@ + "data.tar.xz"@,
                root,
            })
            &&& next_effect(t6) == (EffectModel::WriteRecord {
                dir: db_dir(root),
                path: db_path(root, m.name),
                content: record_text(m, files),
            })
            &&& next_effect(t9) == (EffectModel::RemoveStage { dir })
            &&& next_effect(next_state(t9, either(oks[7]))) == (EffectModel::Done { ok: true })
        }),
{
    let m = control_of(lines(text));
    let deps = dependencies(m.depends);
    let s0 = begin_file(path, root, pid, stages);
    what_an_installation_begins_with(path, root, pid, stages);
    let j0 = s0.jobs[0];
    let none = Seq::<JobModel>::empty();
    a_package_is_opened(s0, none, j0, text);
    let s4 = next_state(next_state(next_state(next_state(s0, yes()), yes()), yes()), yes());
    let s5 = next_state(s4, EventModel::Text { text });
    let j5 = JobModel {
        staged: true,
        meta: m,
        deps,
        met: 0,
        phase: if deps.len() > 0 {
            Phase::Depend
        } else {
            Phase::CheckInstalled
        },
        ..j0
    };
    assert(on_top(s5, none, j5));
    lemma_all_found(s5, none, j5, deps.len());
    if k < deps.len() {
        lemma_all_found(s5, none, j5, k);
        dependencies_are_looked_up_in_turn(
            run(s5, all_there(k)),
            none,
            JobModel { met: k, phase: Phase::Depend, ..j5 },
        );
    }
    let t0 = run(s5, all_there(deps.len()));
    let j6 = JobModel { met: deps.len(), phase: Phase::CheckInstalled, ..j5 };
    a_package_is_put_in_place(t0, none, j6, files, oks.take(7));
    assert(forall|i: int| 0 <= i < 7 ==> oks.take(7)[i] == oks[i]);
    let t3 = next_state(
        next_state(next_state(t0, either(oks[0])), either(oks[1])),
        either(oks[2]),
    );
    let t6 = next_state(
        next_state(next_state(t3, yes()), either(oks[3])),
        EventModel::Files { files },
    );
    let t9 = next_state(
        next_state(next_state(t6, either(oks[4])), either(oks[5])),
        either(oks[6]),
    );
    a_job_ends(t9, none, t9.jobs.last(), oks[7], true);
}

} // verus!
