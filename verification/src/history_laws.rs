//! What installations have read, and what they do with it.

use crate::control::{control_of, parsed_control_carries};
use crate::database::{
    a_record_says_for_which_machines, db_dir, db_path, dependencies, is_line, record_carries,
    record_of, record_round_trip, record_text, InstalledModel,
};
use crate::install_laws::{extracts, finds};
use crate::install_model::{
    answers, bare_meta, begin_fetch, begin_file, fetched_path, next_effect, next_state, no_meta,
    past_dependencies, stage_dir, valid, valid_job, EffectModel, EventModel, InstallerModel,
    JobModel, Phase,
};
use crate::run_laws::{
    answered, beginning, landed, present, run, runs_stay_valid, what_counts_is_there,
};
use crate::text::lines;
use vstd::prelude::*;

verus! {

/// The control text that the job at `i` has read, if it has read one.
pub open spec fn read_by(st: InstallerModel, events: Seq<EventModel>, i: int) -> Option<Seq<char>>
    decreases events.len(),
{
    if events.len() == 0 {
        None
    } else {
        let fewer = events.drop_last();
        let before = run(st, fewer);
        if i >= before.jobs.len() {
            None
        } else {
            match events.last() {
                EventModel::Text { text } if i == before.jobs.len() - 1 => Some(text),
                _ => read_by(st, fewer, i),
            }
        }
    }
}

/// The files that the job at `i` has learned of, if it has.
pub open spec fn listed_by(st: InstallerModel, events: Seq<EventModel>, i: int) -> Option<
    Seq<Seq<char>>,
>
    decreases events.len(),
{
    if events.len() == 0 {
        None
    } else {
        let fewer = events.drop_last();
        let before = run(st, fewer);
        if i >= before.jobs.len() {
            None
        } else {
            match events.last() {
                EventModel::Files { files } if i == before.jobs.len() - 1 => Some(files),
                _ => listed_by(st, fewer, i),
            }
        }
    }
}

/// An installation at its beginning, which has read nothing yet.
pub open spec fn fresh(st: InstallerModel) -> bool {
    &&& beginning(st)
    &&& st.jobs[0].meta == no_meta()
    &&& st.jobs[0].deps.len() == 0
    &&& st.jobs[0].files.len() == 0
    &&& st.jobs[0].phase == Phase::AskSpkg || st.jobs[0].phase == Phase::MakeStage
}

/// Both ways to begin an installation.
pub proof fn installations_begin_afresh(argument: Seq<char>, root: Seq<char>, pid: u32, stages: u64)
    ensures
        fresh(begin_fetch(argument, root, pid, stages)),
        fresh(begin_file(argument, root, pid, stages)),
        begin_fetch(argument, root, pid, stages).root == root,
        begin_file(argument, root, pid, stages).root == root,
        begin_fetch(argument, root, pid, stages).jobs[0].package == argument,
        begin_file(argument, root, pid, stages).jobs[0].archive == argument,
{
}

/// Whether a job in this phase has read its package's metadata, and they have a name.
spec fn has_meta(phase: Phase) -> bool {
    phase == Phase::Depend || phase == Phase::Wait || past_dependencies(phase)
}

/// Whether a job in this phase has yet to read its package's metadata, if there are any.
spec fn lacks_meta(phase: Phase) -> bool {
    match phase {
        Phase::AskSpkg
        | Phase::GetSpkg
        | Phase::DropSpkg
        | Phase::AskTar
        | Phase::GetTar
        | Phase::BareRoot
        | Phase::BareFiles
        | Phase::BareExtract
        | Phase::DropTar
        | Phase::BareRecord
        | Phase::MakeStage
        | Phase::Unpack
        | Phase::CheckParts
        | Phase::UnpackControl
        | Phase::ReadControl => true,
        _ => false,
    }
}

/// Whether a job that is in this phase, and has extracted its files, knows which they are.
spec fn has_files(job: JobModel) -> bool {
    match job.phase {
        Phase::Record | Phase::KeepPrerm | Phase::KeepPostrm | Phase::BareExtract | Phase::BareRecord =>
        true,
        Phase::DropTar => job.ok,
        _ => false,
    }
}

/// Whether the file of a job in this phase is a bare archive.
spec fn is_bare(phase: Phase) -> bool {
    match phase {
        Phase::AskTar
        | Phase::GetTar
        | Phase::BareRoot
        | Phase::BareFiles
        | Phase::BareExtract
        | Phase::DropTar
        | Phase::BareRecord => true,
        _ => false,
    }
}

/// What a job knows is what it has read.
spec fn knows(job: JobModel, text: Option<Seq<char>>, files: Option<Seq<Seq<char>>>) -> bool {
    &&& match text {
        Some(t) => {
            &&& job.meta == control_of(lines(t))
            &&& job.deps == dependencies(control_of(lines(t)).depends)
            &&& has_meta(job.phase) ==> control_of(lines(t)).name.len() > 0
        },
        None => job.meta == no_meta() && job.deps.len() == 0,
    }
    &&& files matches Some(fs) ==> job.files == fs
    &&& has_meta(job.phase) ==> text is Some
    &&& lacks_meta(job.phase) ==> text is None
    &&& has_files(job) ==> files is Some
    &&& is_bare(job.phase) ==> job.archive == fetched_path(job.package, "tar.xz"@)
}

proof fn lemma_knows_step(
    st: InstallerModel,
    event: EventModel,
    i: int,
    text: Option<Seq<char>>,
    files: Option<Seq<Seq<char>>>,
)
    requires
        valid(st),
        answers(next_effect(st), event),
        0 <= i < st.jobs.len(),
        i < next_state(st, event).jobs.len(),
        knows(st.jobs[i], text, files),
    ensures
        knows(
            next_state(st, event).jobs[i],
            match event {
                EventModel::Text { text: t } if i == st.jobs.len() - 1 => Some(t),
                _ => text,
            },
            match event {
                EventModel::Files { files: fs } if i == st.jobs.len() - 1 => Some(fs),
                _ => files,
            },
        ),
{
    reveal(next_state);
    assert(valid_job(st.jobs[st.jobs.len() - 1], true));
    if i < st.jobs.len() - 1 {
        assert(valid_job(st.jobs[i], false));
    }
}

proof fn lemma_knows_new(st: InstallerModel, event: EventModel)
    requires
        valid(st),
        answers(next_effect(st), event),
        next_state(st, event).jobs.len() > st.jobs.len(),
    ensures
        next_state(st, event).jobs.len() == st.jobs.len() + 1,
        knows(next_state(st, event).jobs.last(), None, None),
{
    reveal(next_state);
}

proof fn lemma_knows(st: InstallerModel, events: Seq<EventModel>, i: int)
    requires
        fresh(st),
        answered(st, events),
        0 <= i < run(st, events).jobs.len(),
    ensures
        knows(run(st, events).jobs[i], read_by(st, events, i), listed_by(st, events, i)),
    decreases events.len(),
{
    if events.len() > 0 {
        let fewer = events.drop_last();
        let before = run(st, fewer);
        runs_stay_valid(st, fewer);
        if i < before.jobs.len() {
            lemma_knows(st, fewer, i);
            lemma_knows_step(
                before,
                events.last(),
                i,
                read_by(st, fewer, i),
                listed_by(st, fewer, i),
            );
        } else {
            lemma_knows_new(before, events.last());
        }
    }
}

/// A job that has read its package's metadata goes through exactly the dependencies which
/// these list, from the first on; without a name in them, it goes no further.
pub proof fn all_listed_dependencies_are_gone_through(
    st: InstallerModel,
    event: EventModel,
    text: Seq<char>,
)
    requires
        valid(st),
        next_effect(st) is ReadFile,
        event == (EventModel::Text { text }),
    ensures
        ({
            let m = control_of(lines(text));
            let next = next_state(st, event);
            let job = next.jobs.last();
            &&& next.jobs.len() == st.jobs.len()
            &&& job.meta == m
            &&& m.name.len() > 0 ==> job.deps == dependencies(m.depends) && job.met == 0
            &&& m.name.len() > 0 && dependencies(m.depends).len() > 0 ==> next_effect(next) == (
            EffectModel::Probe { path: db_path(st.root, dependencies(m.depends)[0]) })
            &&& m.name.len() > 0 && dependencies(m.depends).len() == 0 ==> next_effect(next) == (
            EffectModel::Probe { path: db_path(st.root, m.name) })
            &&& m.name.len() == 0 ==> next_effect(next) == (EffectModel::RemoveStage {
                dir: stage_dir(st.pid, st.jobs.last().stage),
            }) && !job.ok
        }),
{
    reveal(next_state);
    assert(valid_job(st.jobs[st.jobs.len() - 1], true));
}

/// Nothing of a package is extracted, and none of its scripts is run, before every dependency
/// that its control text lists was found installed, or had its own files extracted.
pub proof fn a_package_comes_after_all_it_depends_on(
    st: InstallerModel,
    events: Seq<EventModel>,
    text: Seq<char>,
    d: int,
)
    requires
        fresh(st),
        answered(st, events),
        next_effect(run(st, events)) is Extract || next_effect(run(st, events)) is RunHook,
        read_by(st, events, run(st, events).jobs.len() - 1) == Some(text),
        0 <= d < dependencies(control_of(lines(text)).depends).len(),
    ensures
        present(st, events, dependencies(control_of(lines(text)).depends)[d]),
{
    let now = run(st, events);
    let top = now.jobs.len() - 1;
    runs_stay_valid(st, events);
    lemma_knows(st, events, top);
    assert(valid_job(now.jobs[top], true));
    what_counts_is_there(st, events, top);
    assert(present(st, events, now.jobs[top].deps[d]));
}

proof fn lemma_answered_before(st: InstallerModel, events: Seq<EventModel>, k: int)
    requires
        answered(st, events),
        0 <= k <= events.len(),
    ensures
        answered(st, events.take(k)),
    decreases events.len() - k,
{
    if k == events.len() {
        assert(events.take(k) =~= events);
    } else {
        lemma_answered_before(st, events, k + 1);
        assert(events.take(k + 1).drop_last() =~= events.take(k));
    }
}

proof fn lemma_present_later(
    st: InstallerModel,
    events: Seq<EventModel>,
    k: int,
    package: Seq<char>,
)
    requires
        0 <= k <= events.len(),
        present(st, events.take(k), package),
    ensures
        present(st, events, package),
{
    let some = events.take(k);
    assert forall|j: int| 0 <= j < k implies some[j] == #[trigger] events[j] && some.take(j)
        == events.take(j) by {
        assert(some.take(j) =~= events.take(j));
    }
    if landed(st, some, package) {
        let j = choose|j: int|
            0 <= j < some.len() && extracts(run(st, some.take(j)), #[trigger] some[j]) && run(
                st,
                some.take(j),
            ).jobs.last().package == package;
        assert(extracts(run(st, events.take(j)), events[j]));
    } else {
        let j = choose|j: int|
            0 <= j < some.len() && finds(run(st, some.take(j)), #[trigger] some[j], package);
        assert(finds(run(st, events.take(j)), events[j], package));
    }
}

/// Of everything that a whole installation has extracted along with its metadata, every
/// dependency that these list was found installed or extracted too, and was so before.
pub proof fn what_was_extracted_has_its_dependencies(
    st: InstallerModel,
    events: Seq<EventModel>,
    k: int,
    text: Seq<char>,
    d: int,
)
    requires
        fresh(st),
        answered(st, events),
        0 <= k < events.len(),
        extracts(run(st, events.take(k)), events[k]),
        read_by(st, events.take(k), run(st, events.take(k)).jobs.len() - 1) == Some(text),
        0 <= d < dependencies(control_of(lines(text)).depends).len(),
    ensures
        present(st, events.take(k), dependencies(control_of(lines(text)).depends)[d]),
        present(st, events, dependencies(control_of(lines(text)).depends)[d]),
{
    lemma_answered_before(st, events, k);
    a_package_comes_after_all_it_depends_on(st, events.take(k), text, d);
    lemma_present_later(st, events, k, dependencies(control_of(lines(text)).depends)[d]);
}

/// What is extracted goes into the root that was asked for. It is the second part of a package
/// whose metadata were read, and have a name; only a file that was fetched as a bare archive
/// is extracted without any.
pub proof fn what_is_extracted_where(st: InstallerModel, events: Seq<EventModel>)
    requires
        fresh(st),
        answered(st, events),
        next_effect(run(st, events)) is Extract,
    ensures
        ({
            let now = run(st, events);
            let job = now.jobs.last();
            next_effect(now) matches EffectModel::Extract { archive, root } && {
                &&& root == st.root
                &&& match read_by(st, events, now.jobs.len() - 1) {
                    Some(text) => control_of(lines(text)).name.len() > 0 && archive == stage_dir(
                        st.pid,
                        job.stage,
                    ) + "/"@ + "data.tar.xz"@,
                    None => archive == "/tmp/spk-"@ + job.package + "."@ + "tar.xz"@,
                }
            }
        }),
{
    let now = run(st, events);
    runs_stay_valid(st, events);
    lemma_knows(st, events, now.jobs.len() - 1);
}

proof fn lemma_bare_carries(package: Seq<char>)
    ensures
        record_carries(bare_meta(package)),
{
    reveal_strlit("unknown (legacy .tar.xz, no metadata)");
    reveal_strlit("x86_64");
    let v = "unknown (legacy .tar.xz, no metadata)"@;
    let a = "x86_64"@;
    assert(forall|i: int| 0 <= i < v.len() ==> v[i] != '\n');
    assert(forall|i: int| 0 <= i < a.len() ==> a[i] != '\n');
}

/// What an installation records is the package that was read: its record is in the place of
/// its name, and reads back as the version and the dependencies that its control text gives,
/// and the files that were listed, wherever lines can carry their names. It also says for which
/// machines the package is. The record of a bare archive, which has no metadata, is in the
/// place of the name that was asked for, and says so.
pub proof fn what_is_recorded_is_what_was_read(st: InstallerModel, events: Seq<EventModel>)
    requires
        fresh(st),
        answered(st, events),
        next_effect(run(st, events)) is WriteRecord,
    ensures
        ({
            let now = run(st, events);
            let top = now.jobs.len() - 1;
            next_effect(now) matches EffectModel::WriteRecord { dir, path, content } && listed_by(
                st,
                events,
                top,
            ) matches Some(files) && {
                let plain = forall|i: int| 0 <= i < files.len() ==> is_line(#[trigger] files[i]);
                &&& dir == db_dir(st.root)
                &&& match read_by(st, events, top) {
                    Some(text) => {
                        let m = control_of(lines(text));
                        &&& m.name.len() > 0
                        &&& path == db_path(st.root, m.name)
                        &&& plain ==> record_of(m.name, lines(content)) == (InstalledModel {
                            name: m.name,
                            version: m.version,
                            depends: m.depends,
                            files,
                        })
                        &&& lines(content).len() > 3 && lines(content)[1] == "architecture: "@
                            + m.architecture
                    },
                    None => {
                        let package = now.jobs.last().package;
                        &&& path == db_path(st.root, package)
                        &&& plain ==> record_of(package, lines(content)) == (InstalledModel {
                            name: package,
                            version: "unknown (legacy .tar.xz, no metadata)"@,
                            depends: seq![],
                            files,
                        })
                        &&& lines(content).len() > 3 && lines(content)[1] == "architecture: x86_64"@
                    },
                }
            }
        }),
{
    let now = run(st, events);
    let top = now.jobs.len() - 1;
    let job = now.jobs.last();
    runs_stay_valid(st, events);
    lemma_knows(st, events, top);
    let files = job.files;
    match read_by(st, events, top) {
        Some(text) => {
            let m = control_of(lines(text));
            parsed_control_carries(text);
            assert(record_carries(m));
            a_record_says_for_which_machines(m, files);
            assert(lines(record_text(m, files)).take(4)[1] == "architecture: "@
                + m.architecture);
            if forall|i: int| 0 <= i < files.len() ==> is_line(#[trigger] files[i]) {
                record_round_trip(m, files);
            }
        },
        None => {
            let m = bare_meta(job.package);
            lemma_bare_carries(job.package);
            a_record_says_for_which_machines(m, files);
            assert(lines(record_text(m, files)).take(4)[1] == "architecture: "@
                + m.architecture);
            reveal_strlit("architecture: ");
            reveal_strlit("x86_64");
            reveal_strlit("architecture: x86_64");
            assert("architecture: "@ + "x86_64"@ =~= "architecture: x86_64"@);
            if forall|i: int| 0 <= i < files.len() ==> is_line(#[trigger] files[i]) {
                record_round_trip(m, files);
            }
        },
    }
}

} // verus!
