//! What holds of whole installations, from their beginning.

use crate::install_laws::{
    a_new_job, a_step_of_a_job, a_step_of_an_installation, ends, extracts, finds,
    next_state_is_valid,
};
use crate::install_model::{
    answers, begin_fetch, begin_file, next_effect, next_state, valid, valid_job, EffectModel,
    EventModel, InstallerModel, JobModel, Phase,
};
use vstd::prelude::*;

verus! {

/// The state after some events.
pub open spec fn run(st: InstallerModel, events: Seq<EventModel>) -> InstallerModel
    decreases events.len(),
{
    if events.len() == 0 {
        st
    } else {
        next_state(run(st, events.drop_last()), events.last())
    }
}

/// Whether each event is an answer to what was to be done.
pub open spec fn answered(st: InstallerModel, events: Seq<EventModel>) -> bool
    decreases events.len(),
{
    events.len() > 0 ==> {
        &&& answered(st, events.drop_last())
        &&& answers(next_effect(run(st, events.drop_last())), events.last())
    }
}

/// Among the events is one by which a package's files were extracted into the root.
pub open spec fn landed(st: InstallerModel, events: Seq<EventModel>, package: Seq<char>) -> bool {
    exists|k: int|
        0 <= k < events.len() && extracts(run(st, events.take(k)), #[trigger] events[k]) && run(
            st,
            events.take(k),
        ).jobs.last().package == package
}

/// A package was found installed, or its files were extracted.
pub open spec fn present(st: InstallerModel, events: Seq<EventModel>, package: Seq<char>) -> bool {
    ||| landed(st, events, package)
    ||| exists|k: int|
        0 <= k < events.len() && finds(run(st, events.take(k)), #[trigger] events[k], package)
}

proof fn lemma_more_events(st: InstallerModel, events: Seq<EventModel>, package: Seq<char>)
    requires
        events.len() > 0,
    ensures
        landed(st, events.drop_last(), package) ==> landed(st, events, package),
        present(st, events.drop_last(), package) ==> present(st, events, package),
{
    let fewer = events.drop_last();
    assert forall|k: int| 0 <= k < fewer.len() implies fewer[k] == #[trigger] events[k]
        && fewer.take(k) == events.take(k) by {
        assert(fewer.take(k) =~= events.take(k));
    }
    if landed(st, fewer, package) {
        let k = choose|k: int|
            0 <= k < fewer.len() && extracts(run(st, fewer.take(k)), #[trigger] fewer[k]) && run(
                st,
                fewer.take(k),
            ).jobs.last().package == package;
        assert(extracts(run(st, events.take(k)), events[k]));
    }
    if present(st, fewer, package) && !landed(st, fewer, package) {
        let k = choose|k: int|
            0 <= k < fewer.len() && finds(run(st, fewer.take(k)), #[trigger] fewer[k], package);
        assert(finds(run(st, events.take(k)), events[k], package));
    }
}

/// An installation at its beginning.
pub open spec fn beginning(st: InstallerModel) -> bool {
    &&& valid(st)
    &&& st.jobs.len() == 1
    &&& st.jobs[0].met == 0
    &&& !st.jobs[0].ok
    &&& !st.ok
}

/// Both ways to begin an installation.
pub proof fn installations_begin(argument: Seq<char>, root: Seq<char>, pid: u32, stages: u64)
    ensures
        beginning(begin_fetch(argument, root, pid, stages)),
        beginning(begin_file(argument, root, pid, stages)),
{
}

/// Every state of a run is valid, and concerns the same root and the same process.
pub proof fn runs_stay_valid(st: InstallerModel, events: Seq<EventModel>)
    requires
        valid(st),
        answered(st, events),
    ensures
        valid(run(st, events)),
        run(st, events).root == st.root,
        run(st, events).pid == st.pid,
    decreases events.len(),
{
    if events.len() > 0 {
        runs_stay_valid(st, events.drop_last());
        next_state_is_valid(run(st, events.drop_last()), events.last());
        a_step_of_an_installation(run(st, events.drop_last()), events.last());
    }
}

/// What a job counts is there: its files have been extracted, if it says so, and each
/// dependency that it counts as met was found installed or had its files extracted.
pub open spec fn counts_rightly(
    st: InstallerModel,
    events: Seq<EventModel>,
    job: JobModel,
) -> bool {
    &&& job.ok ==> landed(st, events, job.package)
    &&& forall|d: int| 0 <= d < job.met ==> present(st, events, #[trigger] job.deps[d])
}

/// A step of a job that was there before.
proof fn lemma_counts_on(st: InstallerModel, events: Seq<EventModel>, i: int)
    requires
        events.len() > 0,
        valid(run(st, events.drop_last())),
        answers(next_effect(run(st, events.drop_last())), events.last()),
        0 <= i < run(st, events.drop_last()).jobs.len(),
        i < run(st, events).jobs.len(),
        counts_rightly(st, events.drop_last(), run(st, events.drop_last()).jobs[i]),
        counts_rightly(st, events.drop_last(), run(st, events.drop_last()).jobs.last()),
    ensures
        counts_rightly(st, events, run(st, events).jobs[i]),
{
    let fewer = events.drop_last();
    let before = run(st, fewer);
    let event = events.last();
    let last = events.len() - 1;
    let was = before.jobs[i];
    let job = run(st, events).jobs[i];
    let top = before.jobs.last();
    assert(events.take(last) =~= fewer);
    a_step_of_a_job(before, event, i);
    lemma_more_events(st, events, job.package);
    if job.ok && !was.ok {
        assert(extracts(run(st, events.take(last)), events[last]));
    }
    assert forall|d: int| 0 <= d < job.met implies present(st, events, #[trigger] job.deps[d]) by {
        let dep = job.deps[d];
        lemma_more_events(st, events, dep);
        if d < was.met {
            assert(present(st, fewer, was.deps[d]));
        } else if finds(before, event, dep) {
            assert(finds(run(st, events.take(last)), events[last], dep));
        } else {
            assert(top.ok && top.package == dep);
        }
    }
}

/// In every run, every job counts rightly.
pub proof fn what_counts_is_there(st: InstallerModel, events: Seq<EventModel>, i: int)
    requires
        beginning(st),
        answered(st, events),
        0 <= i < run(st, events).jobs.len(),
    ensures
        counts_rightly(st, events, run(st, events).jobs[i]),
    decreases events.len(),
{
    if events.len() > 0 {
        let fewer = events.drop_last();
        let before = run(st, fewer);
        runs_stay_valid(st, fewer);
        if i < before.jobs.len() {
            what_counts_is_there(st, fewer, i);
            what_counts_is_there(st, fewer, before.jobs.len() - 1);
            lemma_counts_on(st, events, i);
        } else {
            a_new_job(before, events.last());
        }
    }
}

/// The bottom job stays the package that was asked for; once it is gone, the outcome of the
/// installation is its own.
proof fn lemma_bottom(st: InstallerModel, events: Seq<EventModel>)
    requires
        beginning(st),
        answered(st, events),
    ensures
        run(st, events).jobs.len() > 0 ==> run(st, events).jobs[0].package == st.jobs[0].package
            && !run(st, events).ok,
        run(st, events).jobs.len() == 0 && run(st, events).ok ==> landed(
            st,
            events,
            st.jobs[0].package,
        ),
    decreases events.len(),
{
    if events.len() > 0 {
        let fewer = events.drop_last();
        let before = run(st, fewer);
        runs_stay_valid(st, fewer);
        lemma_bottom(st, fewer);
        lemma_more_events(st, events, st.jobs[0].package);
        let after = run(st, events);
        a_step_of_an_installation(before, events.last());
        if after.jobs.len() > 0 {
            a_step_of_a_job(before, events.last(), 0);
        } else {
            what_counts_is_there(st, fewer, 0);
        }
    }
}

/// Among the events is an answer to the writing of a package's record.
pub open spec fn recorded(st: InstallerModel, events: Seq<EventModel>, package: Seq<char>) -> bool {
    exists|k: int|
        0 <= k < events.len() && records(run(st, events.take(k)), package) && #[trigger] answers(
            next_effect(run(st, events.take(k))),
            events[k],
        )
}

/// The topmost job is about to write its package's record.
pub open spec fn records(st: InstallerModel, package: Seq<char>) -> bool {
    &&& st.jobs.len() > 0
    &&& st.jobs.last().package == package
    &&& next_effect(st) is WriteRecord
}

/// Whether the record of a job's package has been written, or at least tried.
spec fn past_record(job: JobModel) -> bool {
    job.ok && match job.phase {
        Phase::KeepPrerm | Phase::KeepPostrm | Phase::DropStage | Phase::DropArchive => true,
        _ => false,
    }
}

/// A job gets past its record only by writing it, and ends well only past it.
proof fn lemma_record_step(st: InstallerModel, event: EventModel)
    requires
        valid(st),
        answers(next_effect(st), event),
    ensures
        ({
            let next = next_state(st, event);
            let top = st.jobs.len() - 1;
            &&& next.jobs.len() > top && past_record(next.jobs[top]) ==> past_record(st.jobs[top])
                || records(st, st.jobs[top].package)
            &&& forall|i: int|
                0 <= i < top && i < next.jobs.len() ==> !past_record(#[trigger] next.jobs[i])
            &&& next.jobs.len() > top + 1 ==> !past_record(next.jobs[top + 1])
            &&& ends(st, event) && st.jobs[top].ok ==> past_record(st.jobs[top]) || records(
                st,
                st.jobs[top].package,
            )
        }),
{
    reveal(next_state);
    let next = next_state(st, event);
    let top = st.jobs.len() - 1;
    assert(valid_job(st.jobs[top], true));
    assert forall|i: int| 0 <= i < top && i < next.jobs.len() implies !past_record(
        #[trigger] next.jobs[i],
    ) by {
        assert(valid_job(st.jobs[i], false));
    }
}

proof fn lemma_recorded_more(st: InstallerModel, events: Seq<EventModel>, package: Seq<char>)
    requires
        events.len() > 0,
        recorded(st, events.drop_last(), package),
    ensures
        recorded(st, events, package),
{
    let fewer = events.drop_last();
    let k = choose|k: int|
        0 <= k < fewer.len() && records(run(st, fewer.take(k)), package) && #[trigger] answers(
            next_effect(run(st, fewer.take(k))),
            fewer[k],
        );
    assert(fewer.take(k) =~= events.take(k));
    assert(answers(next_effect(run(st, events.take(k))), events[k]));
}

proof fn lemma_recorded(st: InstallerModel, events: Seq<EventModel>)
    requires
        beginning(st),
        answered(st, events),
    ensures
        ({
            let now = run(st, events);
            &&& now.jobs.len() > 0 && past_record(now.jobs.last()) ==> recorded(
                st,
                events,
                now.jobs.last().package,
            )
            &&& now.jobs.len() == 0 && now.ok ==> recorded(st, events, st.jobs[0].package)
        }),
    decreases events.len(),
{
    if events.len() > 0 {
        let fewer = events.drop_last();
        let last = events.len() - 1;
        let before = run(st, fewer);
        let event = events.last();
        let now = run(st, events);
        let top = before.jobs.len() - 1;
        runs_stay_valid(st, fewer);
        lemma_recorded(st, fewer);
        lemma_bottom(st, fewer);
        lemma_record_step(before, event);
        a_step_of_an_installation(before, event);
        assert(events.take(last) =~= fewer);
        let package = before.jobs[top].package;
        if past_record(before.jobs[top]) {
            lemma_recorded_more(st, events, package);
        }
        if records(before, package) {
            assert(answers(next_effect(run(st, events.take(last))), events[last]));
            assert(recorded(st, events, package));
        }
        if 0 <= top < now.jobs.len() {
            a_step_of_a_job(before, event, top);
        }
        if now.jobs.len() > before.jobs.len() {
            a_new_job(before, event);
        }
        if now.jobs.len() == 0 && now.ok {
            assert(ends(before, event));
        }
    }
}

/// An installation that succeeds has written the record of the package that was asked for,
/// or has at least tried to.
pub proof fn success_means_recorded(st: InstallerModel, events: Seq<EventModel>)
    requires
        beginning(st),
        answered(st, events),
        next_effect(run(st, events)) == (EffectModel::Done { ok: true }),
    ensures
        recorded(st, events, st.jobs[0].package),
{
    lemma_recorded(st, events);
}

/// An installation that succeeds has extracted the package that was asked for.
pub proof fn success_means_extracted(st: InstallerModel, events: Seq<EventModel>)
    requires
        beginning(st),
        answered(st, events),
        next_effect(run(st, events)) == (EffectModel::Done { ok: true }),
    ensures
        landed(st, events, st.jobs[0].package),
{
    lemma_bottom(st, events);
}

} // verus!
