//! What holds of every installation.

use crate::database::db_path;
use crate::install_model::{
    after_outcome, answers, at, at_dependency, awaited, chain, ended, finished, leaving,
    next_effect, next_state, notice, repo_job, stage_dir, valid, valid_job, with_top, EffectModel,
    EventModel, InstallerModel, JobModel, NoticeKind, Phase,
};
use crate::number::{decimal, lemma_decimal};
use vstd::prelude::*;

verus! {

proof fn lemma_with_top(st: InstallerModel, job: JobModel)
    requires
        valid(st),
        st.jobs.len() > 0,
        valid_job(job, true),
        job.package == st.jobs.last().package,
    ensures
        valid(with_top(st, job)),
        with_top(st, job).jobs.last() == job,
{
    let next = with_top(st, job);
    assert(chain(next) =~= chain(st));
    assert forall|i: int| 0 <= i < next.jobs.len() implies valid_job(
        #[trigger] next.jobs[i],
        i == next.jobs.len() - 1,
    ) by {
        assert(valid_job(st.jobs[i], i == st.jobs.len() - 1));
    }
    assert forall|i: int| 0 <= i < next.jobs.len() - 1 implies #[trigger] awaited(next.jobs[i])
        == next.jobs[i + 1].package by {
        assert(awaited(st.jobs[i]) == st.jobs[i + 1].package);
    }
}

proof fn lemma_finished(st: InstallerModel)
    requires
        st.jobs.len() > 0,
        chain(st).no_duplicates(),
        forall|i: int| 0 <= i < st.jobs.len() - 1 ==> valid_job(#[trigger] st.jobs[i], false),
        forall|i: int|
            0 <= i < st.jobs.len() - 1 ==> #[trigger] awaited(st.jobs[i]) == st.jobs[i
                + 1].package,
    ensures
        valid(finished(st)),
{
    let rest = InstallerModel { jobs: st.jobs.drop_last(), ..st };
    let ok = st.jobs.last().ok;
    let next = finished(st);
    if rest.jobs.len() > 0 {
        let top = next.jobs.last();
        assert(valid_job(st.jobs[st.jobs.len() - 2], false));
        assert(valid_job(top, true));
        assert(chain(next) =~= chain(st).drop_last());
        assert forall|i: int| 0 <= i < next.jobs.len() implies valid_job(
            #[trigger] next.jobs[i],
            i == next.jobs.len() - 1,
        ) by {
            if i < next.jobs.len() - 1 {
                assert(next.jobs[i] == st.jobs[i]);
            }
        }
        assert forall|i: int| 0 <= i < next.jobs.len() - 1 implies #[trigger] awaited(
            next.jobs[i],
        ) == next.jobs[i + 1].package by {
            assert(awaited(st.jobs[i]) == st.jobs[i + 1].package);
        }
    }
}

proof fn lemma_leaving(st: InstallerModel)
    requires
        st.jobs.len() > 0,
        chain(st).no_duplicates(),
        forall|i: int| 0 <= i < st.jobs.len() - 1 ==> valid_job(#[trigger] st.jobs[i], false),
        forall|i: int|
            0 <= i < st.jobs.len() - 1 ==> #[trigger] awaited(st.jobs[i]) == st.jobs[i
                + 1].package,
        !st.jobs.last().staged,
        st.jobs.last().met <= st.jobs.last().deps.len(),
    ensures
        valid(leaving(st)),
{
    let job = st.jobs.last();
    let next = leaving(st);
    if job.fetched {
        assert(chain(next) =~= chain(st));
        assert(valid_job(at(job, Phase::DropArchive), true));
    } else {
        lemma_finished(st);
    }
}

proof fn lemma_depend(st: InstallerModel, ok: bool)
    requires
        valid(st),
        st.jobs.len() > 0,
        st.jobs.last().phase == Phase::Depend,
    ensures
        valid(after_outcome(st, ok)),
{
    let job = st.jobs.last();
    let next = after_outcome(st, ok);
    let dep = job.deps[job.met as int];
    assert(valid_job(st.jobs[st.jobs.len() - 1], true));
    if ok {
        lemma_with_top(st, at_dependency(JobModel { met: job.met + 1, ..job }));
    } else if chain(st).contains(dep) {
        lemma_with_top(st, at(job, Phase::DropStage));
    } else {
        assert(next.jobs == st.jobs.drop_last().push(at(job, Phase::Wait)).push(repo_job(dep)));
        assert(chain(next) =~= chain(st).push(dep));
        assert forall|i: int| 0 <= i < next.jobs.len() implies valid_job(
            #[trigger] next.jobs[i],
            i == next.jobs.len() - 1,
        ) by {
            if i < st.jobs.len() - 1 {
                assert(valid_job(st.jobs[i], false));
            }
        }
        assert forall|i: int| 0 <= i < next.jobs.len() - 1 implies #[trigger] awaited(
            next.jobs[i],
        ) == next.jobs[i + 1].package by {
            if i < st.jobs.len() - 1 {
                assert(awaited(st.jobs[i]) == st.jobs[i + 1].package);
            }
        }
    }
}

proof fn lemma_outcome(st: InstallerModel, ok: bool)
    requires
        valid(st),
        st.jobs.len() > 0,
    ensures
        answers(next_effect(st), EventModel::Outcome { ok }) ==> valid(after_outcome(st, ok)),
{
    let job = st.jobs.last();
    let next = after_outcome(st, ok);
    assert(valid_job(st.jobs[st.jobs.len() - 1], true));
    if answers(next_effect(st), EventModel::Outcome { ok }) {
        match job.phase {
            Phase::Depend => lemma_depend(st, ok),
            Phase::BareRecord => {
                assert(next.jobs == finished(st).jobs);
                assert(chain(next) == chain(finished(st)));
                lemma_finished(st);
            },
            Phase::DropArchive => lemma_finished(st),
            Phase::DropTar => if job.ok {
                lemma_with_top(st, next.jobs.last());
            } else {
                lemma_finished(st);
            },
            Phase::MakeStage => if ok {
                lemma_with_top(st, next.jobs.last());
            } else {
                lemma_leaving(st);
                assert(next.jobs == leaving(st).jobs);
                assert(chain(next) == chain(leaving(st)));
            },
            Phase::DropStage => {
                let cleared = with_top(st, JobModel { staged: false, ..job });
                assert(chain(cleared) =~= chain(st));
                lemma_leaving(cleared);
            },
            _ => {
                lemma_with_top(st, next.jobs.last());
                assert(next.jobs == with_top(st, next.jobs.last()).jobs);
                assert(chain(next) == chain(with_top(st, next.jobs.last())));
            },
        }
    }
}

/// Every installation stays valid.
pub proof fn next_state_is_valid(st: InstallerModel, event: EventModel)
    requires
        valid(st),
        answers(next_effect(st), event),
    ensures
        valid(next_state(st, event)),
{
    reveal(next_state);
    let quiet = InstallerModel { notices: seq![], ..st };
    assert(chain(quiet) == chain(st));
    assert(valid(quiet));
    let next = next_state(st, event);
    assert(valid_job(st.jobs[st.jobs.len() - 1], true));
    match event {
        EventModel::Outcome { ok } => lemma_outcome(quiet, ok),
        _ => {
            lemma_with_top(quiet, next.jobs.last());
            assert(next.jobs =~= with_top(quiet, next.jobs.last()).jobs);
            assert(chain(next) == chain(with_top(quiet, next.jobs.last())));
        },
    }
}


// ---------------------------------------------------------------- one step

/// The files of the topmost job's package are extracted.
pub open spec fn extracts(st: InstallerModel, event: EventModel) -> bool {
    &&& st.jobs.len() > 0
    &&& next_effect(st) matches EffectModel::Extract { root, .. } && root == st.root
    &&& event == EventModel::Outcome { ok: true }
}

/// The topmost job sees that a package is installed already.
pub open spec fn finds(st: InstallerModel, event: EventModel, package: Seq<char>) -> bool {
    &&& next_effect(st) == (EffectModel::Probe { path: db_path(st.root, package) })
    &&& event == EventModel::Outcome { ok: true }
}

/// The topmost job is over after the event.
pub open spec fn ends(st: InstallerModel, event: EventModel) -> bool {
    next_state(st, event).jobs.len() < st.jobs.len()
}

/// What becomes of a job in one step, unless it ends: it stays the same package, it counts
/// as extracted only once its files have been, and it counts a dependency as met only when
/// that is found installed, or when the job above it has extracted just that package and
/// ends.
pub proof fn a_step_of_a_job(st: InstallerModel, event: EventModel, i: int)
    requires
        valid(st),
        answers(next_effect(st), event),
        0 <= i < next_state(st, event).jobs.len(),
        i < st.jobs.len(),
    ensures
        ({
            let job = st.jobs[i];
            let next = next_state(st, event).jobs[i];
            let top = st.jobs.len() - 1;
            &&& next.package == job.package
            &&& next.ok ==> job.ok || (i == top && extracts(st, event))
            &&& next.met == 0 || next.deps == job.deps
            &&& next.met == 0 || next.met == job.met || {
                &&& next.met == job.met + 1
                &&& {
                    ||| i == top && finds(st, event, job.deps[job.met as int])
                    ||| {
                        &&& i == top - 1
                        &&& ends(st, event)
                        &&& st.jobs[top].package == job.deps[job.met as int]
                        &&& st.jobs[top].ok
                    }
                }
            }
        }),
{
    reveal(next_state);
    assert(valid_job(st.jobs[st.jobs.len() - 1], true));
    let top = st.jobs.len() - 1;
    if i < top {
        assert(valid_job(st.jobs[i], false));
        assert(awaited(st.jobs[i]) == st.jobs[i + 1].package);
    }
}

/// A job is added for a dependency only, when that is found missing; it is then on top, and
/// has met no dependency and extracted nothing.
pub proof fn a_new_job(st: InstallerModel, event: EventModel)
    requires
        valid(st),
        answers(next_effect(st), event),
        next_state(st, event).jobs.len() > st.jobs.len(),
    ensures
        ({
            let next = next_state(st, event);
            let missing = awaited(st.jobs.last());
            &&& next_effect(st) == (EffectModel::Probe { path: db_path(st.root, missing) })
            &&& event == EventModel::Outcome { ok: false }
            &&& next.jobs.len() == st.jobs.len() + 1
            &&& next.jobs.last() == repo_job(missing)
        }),
{
    reveal(next_state);
}

/// A package that is being installed as a dependency, and turns out to depend on itself, is
/// not installed a second time: what asked for it gives up.
pub proof fn a_cycle_is_refused(st: InstallerModel)
    requires
        valid(st),
        st.jobs.len() > 0,
        st.jobs.last().phase == Phase::Depend,
        chain(st).contains(awaited(st.jobs.last())),
    ensures
        ({
            let next = next_state(st, EventModel::Outcome { ok: false });
            &&& next.jobs.len() == st.jobs.len()
            &&& next.jobs.last().phase == Phase::DropStage
            &&& !next.jobs.last().ok
            &&& next.notices == seq![notice(NoticeKind::Cycle, awaited(st.jobs.last()))]
        }),
{
    reveal(next_state);
    assert(valid_job(st.jobs[st.jobs.len() - 1], true));
    let quiet = InstallerModel { notices: seq![], ..st };
    assert(chain(quiet) == chain(st));
    assert(next_state(st, EventModel::Outcome { ok: false }).notices =~= seq![
        notice(NoticeKind::Cycle, awaited(st.jobs.last())),
    ]);
}

/// However packages depend on each other, installations are not nested deeper than there are
/// packages to depend on.
pub proof fn nesting_is_bounded(st: InstallerModel, names: Set<Seq<char>>)
    requires
        valid(st),
        names.finite(),
        forall|i: int| 0 < i < st.jobs.len() ==> names.contains((#[trigger] st.jobs[i]).package),
    ensures
        st.jobs.len() <= names.len() + 1,
{
    if st.jobs.len() > 0 {
        let c = chain(st);
        c.unique_seq_to_set();
        assert forall|n: Seq<char>| c.to_set().contains(n) implies names.contains(n) by {
            let i = choose|i: int| 0 <= i < c.len() && c[i] == n;
            assert(names.contains(st.jobs[i + 1].package));
        }
        vstd::set_lib::lemma_len_subset(c.to_set(), names);
    }
}

/// A package's own scripts and files come after all its dependencies.
pub proof fn dependencies_come_first(st: InstallerModel)
    requires
        valid(st),
        st.jobs.len() > 0,
        next_effect(st) is RunHook || st.jobs.last().phase == Phase::Extract,
    ensures
        st.jobs.last().met == st.jobs.last().deps.len(),
{
    assert(valid_job(st.jobs[st.jobs.len() - 1], true));
}

/// A package is recorded, and its scripts are kept, only after its files were extracted.
pub proof fn a_record_follows_the_files(st: InstallerModel)
    requires
        valid(st),
        next_effect(st) is WriteRecord || next_effect(st) is KeepHook,
    ensures
        st.jobs.last().ok,
{
    assert(valid_job(st.jobs[st.jobs.len() - 1], true));
}

/// A bare archive is asked for only after every attempt to fetch the package has failed.
pub proof fn a_bare_archive_is_a_last_resort(st: InstallerModel, event: EventModel)
    requires
        valid(st),
        answers(next_effect(st), event),
        st.jobs.len() > 0,
        next_state(st, event).jobs.len() == st.jobs.len(),
        next_state(st, event).jobs.last().phase == Phase::AskTar,
    ensures
        st.jobs.last().tried == st.jobs.last().attempts.len(),
{
    reveal(next_state);
    assert(valid_job(st.jobs[st.jobs.len() - 1], true));
}

/// A dependency that could not be installed fails the package that asked for it.
pub proof fn a_failed_dependency_fails_its_package(st: InstallerModel, event: EventModel)
    requires
        valid(st),
        answers(next_effect(st), event),
        ends(st, event),
        !st.jobs.last().ok,
        st.jobs.len() > 1,
    ensures
        next_state(st, event).jobs.last().phase == Phase::DropStage,
        !next_state(st, event).jobs.last().ok,
{
    reveal(next_state);
    assert(valid_job(st.jobs[st.jobs.len() - 1], true));
    assert(valid_job(st.jobs[st.jobs.len() - 2], false));
}

/// A job that is clearing up ends as it stands: its outcome changes no more.
pub proof fn clearing_up_keeps_the_outcome(st: InstallerModel, event: EventModel)
    requires
        valid(st),
        answers(next_effect(st), event),
        st.jobs.len() > 0,
        st.jobs.last().phase == Phase::DropStage || st.jobs.last().phase == Phase::DropArchive,
    ensures
        ({
            let job = st.jobs.last();
            let next = next_state(st, event);
            let rest = InstallerModel { jobs: st.jobs.drop_last(), notices: seq![], ..st };
            ||| next == ended(rest, job.ok)
            ||| next.jobs == st.jobs.drop_last().push(
                JobModel { staged: false, phase: Phase::DropArchive, ..job },
            )
        }),
{
    reveal(next_state);
    let job = st.jobs.last();
    let quiet = InstallerModel { notices: seq![], ..st };
    let cleared = with_top(quiet, JobModel { staged: false, ..job });
    assert(cleared.jobs.drop_last() =~= st.jobs.drop_last());
    assert(valid_job(st.jobs[st.jobs.len() - 1], true));
}

/// A job whose directory is there ends only by clearing the directory away.
pub proof fn no_directory_is_left(st: InstallerModel, event: EventModel)
    requires
        valid(st),
        answers(next_effect(st), event),
        ends(st, event),
        st.jobs.last().staged,
    ensures
        next_effect(st) == (EffectModel::RemoveStage {
            dir: stage_dir(st.pid, st.jobs.last().stage),
        }),
{
    reveal(next_state);
    assert(valid_job(st.jobs[st.jobs.len() - 1], true));
}

/// A step keeps the root and the process; the installation is over when the bottom job is,
/// and its outcome is that of the bottom job.
pub proof fn a_step_of_an_installation(st: InstallerModel, event: EventModel)
    requires
        valid(st),
        answers(next_effect(st), event),
    ensures
        ({
            let next = next_state(st, event);
            &&& next.root == st.root && next.pid == st.pid
            &&& next.jobs.len() > 0 ==> next.ok == st.ok
            &&& next.jobs.len() == 0 ==> st.jobs.len() == 1 && next.ok == st.jobs[0].ok
        }),
{
    reveal(next_state);
    assert(valid_job(st.jobs[st.jobs.len() - 1], true));
}

// ---------------------------------------------------------------- directories

/// Whether a job has a directory, or is about to make it.
pub open spec fn has_directory(job: JobModel) -> bool {
    job.staged || job.phase == Phase::MakeStage
}

/// The directories of the jobs bear different numbers, which have all been given out.
pub open spec fn numbered(st: InstallerModel) -> bool {
    &&& forall|i: int|
        0 <= i < st.jobs.len() && has_directory(#[trigger] st.jobs[i]) ==> st.jobs[i].stage
            < st.stages
    &&& forall|i: int, j: int|
        0 <= i < j < st.jobs.len() && has_directory(#[trigger] st.jobs[i]) && has_directory(
            #[trigger] st.jobs[j],
        ) ==> st.jobs[i].stage != st.jobs[j].stage
}

/// However deep the jobs are nested, no two of them use the same directory.
pub proof fn directories_stay_apart(st: InstallerModel, event: EventModel)
    requires
        valid(st),
        answers(next_effect(st), event),
        numbered(st),
        st.stages < u64::MAX,
    ensures
        numbered(next_state(st, event)),
{
    reveal(next_state);
    assert(valid_job(st.jobs[st.jobs.len() - 1], true));
    let next = next_state(st, event);
    let top = st.jobs.len() - 1;
    assert forall|i: int| 0 <= i < top implies #[trigger] st.jobs[i].staged by {
        assert(valid_job(st.jobs[i], false));
    }
    assert forall|i: int| 0 <= i < next.jobs.len() && i < top implies #[trigger] next.jobs[i].stage
        == st.jobs[i].stage && next.jobs[i].staged == st.jobs[i].staged by {
        assert(st.jobs[i].staged);
    }
}

/// Different numbers make different directories.
pub proof fn directories_differ(pid: u32, a: u64, b: u64)
    requires
        a != b,
    ensures
        stage_dir(pid, a) != stage_dir(pid, b),
{
    let prefix = "/tmp/spk-spkg-stage-"@ + decimal(pid as nat) + "-"@;
    assert(stage_dir(pid, a) == prefix + decimal(a as nat));
    assert(stage_dir(pid, b) == prefix + decimal(b as nat));
    assert((prefix + decimal(a as nat)).skip(prefix.len() as int) =~= decimal(a as nat));
    assert((prefix + decimal(b as nat)).skip(prefix.len() as int) =~= decimal(b as nat));
    lemma_decimal(a as nat);
    lemma_decimal(b as nat);
}

} // verus!
