//! What an installation does, step by step, as a machine: its state says what to do
//! next, and what came of it leads to the next state.
//!
//! An installation is a stack of jobs. At the bottom is the package that was asked for;
//! each other job is a dependency of the one below it, which waits for it.

use crate::control::{control_of, ControlModel};
use crate::database::{db_dir, db_path, dependencies, record_text};
use crate::fetch::{attempts, AttemptModel};
use crate::number::decimal;
use crate::paths::below;
use crate::repo::RepoModel;
use crate::text::lines;
use vstd::prelude::*;

verus! {

/// Where a job is.
#[derive(Clone, Copy, Debug, PartialEq, Eq, Structural)]
pub enum Phase {
    /// Learn which repositories there are, to fetch a package.
    AskSpkg,
    /// Try the next repository for a package.
    GetSpkg,
    /// No repository has a package: clear away what the attempts left.
    DropSpkg,
    /// Learn which repositories there are, to fetch a bare archive.
    AskTar,
    /// Try the next repository for a bare archive.
    GetTar,
    /// Make the root that the bare archive goes into.
    BareRoot,
    /// List the files of the bare archive.
    BareFiles,
    /// Extract the bare archive.
    BareExtract,
    /// Clear the bare archive away.
    DropTar,
    /// Record the bare archive's files.
    BareRecord,
    /// Make an empty directory to open the package in.
    MakeStage,
    /// Open the package.
    Unpack,
    /// See that both parts of the package are there.
    CheckParts,
    /// Open the part with the metadata.
    UnpackControl,
    /// Read the metadata.
    ReadControl,
    /// See whether the next dependency is installed.
    Depend,
    /// Wait for the job that installs the dependency.
    Wait,
    /// See whether the package itself is installed already.
    CheckInstalled,
    /// Run the script that comes before the installation.
    PreInst,
    /// Make the root that the package goes into.
    MakeRoot,
    /// Extract the package's files.
    Extract,
    /// Run the script that comes after the installation.
    PostInst,
    /// List the package's files.
    Files,
    /// Record the package and its files.
    Record,
    /// Keep the script that comes before a removal.
    KeepPrerm,
    /// Keep the script that comes after a removal.
    KeepPostrm,
    /// Clear the directory away in which the package was opened.
    DropStage,
    /// Clear the package away that was fetched.
    DropArchive,
}

/// What the user is told.
#[derive(Clone, Copy, Debug, PartialEq, Eq, Structural)]
pub enum NoticeKind {
    /// The package of this name is being fetched.
    Fetching,
    /// No repository has a package of this name; a bare archive is tried.
    TryingBare,
    /// No repository has this package in any form.
    NotFound,
    /// The package of this name is being extracted.
    Extracting,
    /// The bare archive of this name could not be extracted.
    BareFailed,
    /// This directory could not be made.
    StageFailed,
    /// This file could not be opened as a package.
    NotAPackage,
    /// This package lacks one of its two parts.
    PartMissing,
    /// The metadata of this package could not be opened.
    ControlFailed,
    /// The metadata of this package give no name.
    Nameless,
    /// The metadata of the package of this name have been read.
    About,
    /// The dependency of this name is being installed.
    Resolving,
    /// The dependency of this name depends on itself.
    Cycle,
    /// The dependency of this name could not be installed.
    DependencyFailed,
    /// The package of this name is installed already, and is installed over itself.
    Reinstalling,
    /// The files of this package could not be extracted.
    DataFailed,
    /// The package of this name is installed, but could not be recorded.
    Unrecorded,
    /// The package of this name is installed.
    Installed,
}

#[verifier::ext_equal]
pub struct NoticeModel {
    pub kind: NoticeKind,
    pub subject: Seq<char>,
}

/// One package on its way.
#[verifier::ext_equal]
pub struct JobModel {
    /// The name that was asked for; empty for a package given as a file.
    pub package: Seq<char>,
    /// The file with the package.
    pub archive: Seq<char>,
    /// Whether that file was fetched, and is cleared away in the end.
    pub fetched: bool,
    /// The attempts to fetch it, and how many have failed.
    pub attempts: Seq<AttemptModel>,
    pub tried: nat,
    /// The number of the directory in which the package is opened.
    pub stage: u64,
    /// Whether that directory is there.
    pub staged: bool,
    pub meta: ControlModel,
    /// The names of the dependencies, and how many of them are there.
    pub deps: Seq<Seq<char>>,
    pub met: nat,
    pub files: Seq<Seq<char>>,
    pub phase: Phase,
    /// Whether the package's files have been extracted.
    pub ok: bool,
}

/// An installation.
#[verifier::ext_equal]
pub struct InstallerModel {
    pub root: Seq<char>,
    /// The number of the process, which goes into the names of directories.
    pub pid: u32,
    /// The number of the next directory.
    pub stages: u64,
    pub jobs: Seq<JobModel>,
    /// What the user is told before the next effect.
    pub notices: Seq<NoticeModel>,
    /// Once there is no job left: whether the installation has succeeded.
    pub ok: bool,
}

/// What is to be done.
#[verifier::ext_equal]
pub enum EffectModel {
    /// Read the configuration file of the repositories.
    LoadRepos,
    /// Fetch a URL into a file; where that fails, remove the file.
    Fetch { attempt: AttemptModel, dest: Seq<char> },
    RemoveFile { path: Seq<char> },
    MakeDir { path: Seq<char> },
    /// List the members of an archive.
    ListMembers { archive: Seq<char> },
    /// Extract an archive into a system, with the rights that takes.
    Extract { archive: Seq<char>, root: Seq<char> },
    /// Make a directory that is empty.
    MakeStage { dir: Seq<char> },
    /// Extract an archive into a directory, which is made if it is missing.
    Unpack { archive: Seq<char>, dir: Seq<char> },
    /// See whether both files exist.
    CheckFiles { first: Seq<char>, second: Seq<char> },
    /// Read a file; one that cannot be read is taken as empty.
    ReadFile { path: Seq<char> },
    /// See whether a path exists.
    Probe { path: Seq<char> },
    /// Run a script of a package, if the package has it.
    RunHook { dir: Seq<char>, name: Seq<char> },
    /// Write a package's record.
    WriteRecord { dir: Seq<char>, path: Seq<char>, content: Seq<char> },
    /// Copy a script, if the package has it.
    KeepHook { from: Seq<char>, to: Seq<char> },
    RemoveStage { dir: Seq<char> },
    /// The installation is over.
    Done { ok: bool },
}

/// What came of an effect.
#[verifier::ext_equal]
pub enum EventModel {
    /// Whether it succeeded, or whether what was looked for is there.
    Outcome { ok: bool },
    /// The repositories.
    Repos { repos: Seq<RepoModel> },
    /// The files among the members of an archive.
    Files { files: Seq<Seq<char>> },
    /// The text of a file.
    Text { text: Seq<char> },
}

/// Whether an event is an answer to an effect.
pub open spec fn answers(effect: EffectModel, event: EventModel) -> bool {
    match effect {
        EffectModel::LoadRepos => event is Repos,
        EffectModel::ListMembers { .. } => event is Files,
        EffectModel::ReadFile { .. } => event is Text,
        EffectModel::Done { .. } => false,
        _ => event is Outcome,
    }
}

// ---------------------------------------------------------------- places

/// The file that a package is fetched into.
pub open spec fn fetched_path(package: Seq<char>, ext: Seq<char>) -> Seq<char> {
    "/tmp/spk-"@ + package + "."@ + ext
}

/// The directory in which a package is opened.
pub open spec fn stage_dir(pid: u32, stage: u64) -> Seq<char> {
    "/tmp/spk-spkg-stage-"@ + decimal(pid as nat) + "-"@ + decimal(stage as nat)
}

/// The metadata of a bare archive, which carries none.
pub open spec fn bare_meta(package: Seq<char>) -> ControlModel {
    ControlModel {
        name: package,
        version: "unknown (legacy .tar.xz, no metadata)"@,
        architecture: "x86_64"@,
        depends: seq![],
        description: seq![],
    }
}

pub open spec fn no_meta() -> ControlModel {
    ControlModel {
        name: seq![],
        version: seq![],
        architecture: seq![],
        depends: seq![],
        description: seq![],
    }
}

// ---------------------------------------------------------------- the beginning

/// The job of installing a package from the repositories.
pub open spec fn repo_job(package: Seq<char>) -> JobModel {
    JobModel {
        package,
        archive: fetched_path(package, "spkg"@),
        fetched: true,
        attempts: seq![],
        tried: 0,
        stage: 0,
        staged: false,
        meta: no_meta(),
        deps: seq![],
        met: 0,
        files: seq![],
        phase: Phase::AskSpkg,
        ok: false,
    }
}

/// The job of installing a package from a file.
pub open spec fn file_job(path: Seq<char>, stage: u64) -> JobModel {
    JobModel {
        package: seq![],
        archive: path,
        fetched: false,
        stage,
        phase: Phase::MakeStage,
        ..repo_job(seq![])
    }
}

pub open spec fn notice(kind: NoticeKind, subject: Seq<char>) -> NoticeModel {
    NoticeModel { kind, subject }
}

/// The installation of a package from the repositories, at its beginning.
pub open spec fn begin_fetch(
    package: Seq<char>,
    root: Seq<char>,
    pid: u32,
    stages: u64,
) -> InstallerModel {
    InstallerModel {
        root,
        pid,
        stages,
        jobs: seq![repo_job(package)],
        notices: seq![notice(NoticeKind::Fetching, package)],
        ok: false,
    }
}

/// The number after the given one.
pub open spec fn succ(n: u64) -> u64 {
    if n == u64::MAX {
        0
    } else {
        (n + 1) as u64
    }
}

/// The installation of a package from a file, at its beginning.
pub open spec fn begin_file(
    path: Seq<char>,
    root: Seq<char>,
    pid: u32,
    stages: u64,
) -> InstallerModel {
    InstallerModel {
        root,
        pid,
        stages: succ(stages),
        jobs: seq![file_job(path, stages)],
        notices: seq![],
        ok: false,
    }
}

// ---------------------------------------------------------------- what to do

/// What a job has to do next.
pub open spec fn job_effect(st: InstallerModel, job: JobModel) -> EffectModel {
    let stage = stage_dir(st.pid, job.stage);
    let control = below(stage, "control"@);
    let record = db_path(st.root, job.meta.name);
    match job.phase {
        Phase::AskSpkg | Phase::AskTar => EffectModel::LoadRepos,
        Phase::GetSpkg | Phase::GetTar => EffectModel::Fetch {
            attempt: job.attempts[job.tried as int],
            dest: job.archive,
        },
        Phase::DropSpkg | Phase::DropTar | Phase::DropArchive => EffectModel::RemoveFile {
            path: job.archive,
        },
        Phase::BareRoot | Phase::MakeRoot => EffectModel::MakeDir { path: st.root },
        Phase::BareFiles => EffectModel::ListMembers { archive: job.archive },
        Phase::BareExtract => EffectModel::Extract { archive: job.archive, root: st.root },
        Phase::BareRecord => EffectModel::WriteRecord {
            dir: db_dir(st.root),
            path: db_path(st.root, job.package),
            content: record_text(bare_meta(job.package), job.files),
        },
        Phase::MakeStage => EffectModel::MakeStage { dir: stage },
        Phase::Unpack => EffectModel::Unpack { archive: job.archive, dir: stage },
        Phase::CheckParts => EffectModel::CheckFiles {
            first: below(stage, "control.tar.xz"@),
            second: below(stage, "data.tar.xz"@),
        },
        Phase::UnpackControl => EffectModel::Unpack {
            archive: below(stage, "control.tar.xz"@),
            dir: control,
        },
        Phase::ReadControl => EffectModel::ReadFile { path: below(control, "control"@) },
        Phase::Depend | Phase::Wait => EffectModel::Probe {
            path: db_path(st.root, job.deps[job.met as int]),
        },
        Phase::CheckInstalled => EffectModel::Probe { path: record },
        Phase::PreInst => EffectModel::RunHook { dir: control, name: "preinst"@ },
        Phase::Extract => EffectModel::Extract {
            archive: below(stage, "data.tar.xz"@),
            root: st.root,
        },
        Phase::PostInst => EffectModel::RunHook { dir: control, name: "postinst"@ },
        Phase::Files => EffectModel::ListMembers { archive: below(stage, "data.tar.xz"@) },
        Phase::Record => EffectModel::WriteRecord {
            dir: db_dir(st.root),
            path: record,
            content: record_text(job.meta, job.files),
        },
        Phase::KeepPrerm => EffectModel::KeepHook {
            from: below(control, "prerm"@),
            to: record + ".prerm"@,
        },
        Phase::KeepPostrm => EffectModel::KeepHook {
            from: below(control, "postrm"@),
            to: record + ".postrm"@,
        },
        Phase::DropStage => EffectModel::RemoveStage { dir: stage },
    }
}

/// What the installation has to do next: what its topmost job has to do.
pub open spec fn next_effect(st: InstallerModel) -> EffectModel {
    if st.jobs.len() == 0 {
        EffectModel::Done { ok: st.ok }
    } else {
        job_effect(st, st.jobs.last())
    }
}

// ---------------------------------------------------------------- what follows

/// The installation with another topmost job.
pub open spec fn with_top(st: InstallerModel, job: JobModel) -> InstallerModel {
    InstallerModel { jobs: st.jobs.drop_last().push(job), ..st }
}

/// The installation with one more notice.
pub open spec fn telling(
    st: InstallerModel,
    kind: NoticeKind,
    subject: Seq<char>,
) -> InstallerModel {
    InstallerModel { notices: st.notices.push(notice(kind, subject)), ..st }
}

/// The job in another phase.
pub open spec fn at(job: JobModel, phase: Phase) -> JobModel {
    JobModel { phase, ..job }
}

/// A job turns to its next dependency; once all are there, to itself.
pub open spec fn at_dependency(job: JobModel) -> JobModel {
    at(
        job,
        if job.met < job.deps.len() {
            Phase::Depend
        } else {
            Phase::CheckInstalled
        },
    )
}

/// A job is over and gone: the job that is now topmost goes on, or fails as well.
pub open spec fn ended(rest: InstallerModel, ok: bool) -> InstallerModel {
    if rest.jobs.len() == 0 {
        InstallerModel { ok, ..rest }
    } else {
        let parent = rest.jobs.last();
        if ok {
            with_top(rest, at_dependency(JobModel { met: parent.met + 1, ..parent }))
        } else {
            telling(
                with_top(rest, at(parent, Phase::DropStage)),
                NoticeKind::DependencyFailed,
                parent.deps[parent.met as int],
            )
        }
    }
}

/// The topmost job is over.
pub open spec fn finished(st: InstallerModel) -> InstallerModel {
    ended(InstallerModel { jobs: st.jobs.drop_last(), ..st }, st.jobs.last().ok)
}

/// The topmost job has nothing left but to clear away what was fetched, and to end.
pub open spec fn leaving(st: InstallerModel) -> InstallerModel {
    if st.jobs.last().fetched {
        with_top(st, at(st.jobs.last(), Phase::DropArchive))
    } else {
        finished(st)
    }
}

/// The topmost job gives up: it says why, clears its directory away and ends.
pub open spec fn giving_up(
    st: InstallerModel,
    kind: NoticeKind,
    subject: Seq<char>,
) -> InstallerModel {
    telling(with_top(st, at(st.jobs.last(), Phase::DropStage)), kind, subject)
}

/// The packages on whose account something is being installed: the jobs above the
/// bottom one.
pub open spec fn chain(st: InstallerModel) -> Seq<Seq<char>> {
    Seq::new((st.jobs.len() - 1) as nat, |i: int| st.jobs[i + 1].package)
}

/// The repositories are known: the topmost job tries the first of them.
pub open spec fn with_attempts(job: JobModel, repos: Seq<RepoModel>, ext: Seq<char>) -> JobModel {
    JobModel { attempts: attempts(repos, job.package, ext), tried: 0, ..job }
}

/// The topmost job begins to open the package, in a directory of its own.
pub open spec fn staging(st: InstallerModel) -> InstallerModel {
    let job = st.jobs.last();
    InstallerModel {
        stages: succ(st.stages),
        ..with_top(st, JobModel { stage: st.stages, phase: Phase::MakeStage, ..job })
    }
}

/// What follows a phase of the topmost job that was answered by an outcome.
pub open spec fn after_outcome(st: InstallerModel, ok: bool) -> InstallerModel {
    let job = st.jobs.last();
    match job.phase {
        Phase::GetSpkg => if ok {
            staging(st)
        } else {
            with_top(
                st,
                at(
                    JobModel { tried: job.tried + 1, ..job },
                    if job.tried + 1 < job.attempts.len() {
                        Phase::GetSpkg
                    } else {
                        Phase::DropSpkg
                    },
                ),
            )
        },
        Phase::DropSpkg => telling(
            with_top(
                st,
                at(
                    JobModel { archive: fetched_path(job.package, "tar.xz"@), ..job },
                    Phase::AskTar,
                ),
            ),
            NoticeKind::TryingBare,
            job.package,
        ),
        Phase::GetTar => if ok {
            with_top(st, at(job, Phase::BareRoot))
        } else if job.tried + 1 < job.attempts.len() {
            with_top(st, JobModel { tried: job.tried + 1, ..job })
        } else {
            telling(
                with_top(st, at(JobModel { tried: job.tried + 1, ..job }, Phase::DropTar)),
                NoticeKind::NotFound,
                job.package,
            )
        },
        Phase::BareRoot => with_top(st, at(job, Phase::BareFiles)),
        Phase::BareExtract => if ok {
            with_top(st, at(JobModel { ok: true, ..job }, Phase::DropTar))
        } else {
            telling(
                with_top(st, at(job, Phase::DropTar)),
                NoticeKind::BareFailed,
                job.package,
            )
        },
        Phase::DropTar => if job.ok {
            with_top(st, at(job, Phase::BareRecord))
        } else {
            finished(st)
        },
        Phase::BareRecord => finished(telling(st, NoticeKind::Installed, job.package)),
        Phase::MakeStage => if ok {
            with_top(st, at(JobModel { staged: true, ..job }, Phase::Unpack))
        } else {
            leaving(telling(st, NoticeKind::StageFailed, stage_dir(st.pid, job.stage)))
        },
        Phase::Unpack => if ok {
            with_top(st, at(job, Phase::CheckParts))
        } else {
            giving_up(st, NoticeKind::NotAPackage, job.archive)
        },
        Phase::CheckParts => if ok {
            with_top(st, at(job, Phase::UnpackControl))
        } else {
            giving_up(st, NoticeKind::PartMissing, job.archive)
        },
        Phase::UnpackControl => if ok {
            with_top(st, at(job, Phase::ReadControl))
        } else {
            giving_up(st, NoticeKind::ControlFailed, job.archive)
        },
        Phase::Depend => {
            let dep = job.deps[job.met as int];
            if ok {
                with_top(st, at_dependency(JobModel { met: job.met + 1, ..job }))
            } else if chain(st).contains(dep) {
                giving_up(st, NoticeKind::Cycle, dep)
            } else {
                let waiting = with_top(st, at(job, Phase::Wait));
                telling(
                    telling(
                        InstallerModel { jobs: waiting.jobs.push(repo_job(dep)), ..waiting },
                        NoticeKind::Resolving,
                        dep,
                    ),
                    NoticeKind::Fetching,
                    dep,
                )
            }
        },
        Phase::CheckInstalled => {
            let next = with_top(st, at(job, Phase::PreInst));
            if ok {
                telling(next, NoticeKind::Reinstalling, job.meta.name)
            } else {
                next
            }
        },
        Phase::PreInst => with_top(st, at(job, Phase::MakeRoot)),
        Phase::MakeRoot => telling(
            with_top(st, at(job, Phase::Extract)),
            NoticeKind::Extracting,
            job.meta.name,
        ),
        Phase::Extract => if ok {
            with_top(st, at(JobModel { ok: true, ..job }, Phase::PostInst))
        } else {
            giving_up(st, NoticeKind::DataFailed, job.archive)
        },
        Phase::PostInst => with_top(st, at(job, Phase::Files)),
        Phase::Record => {
            let next = with_top(st, at(job, Phase::KeepPrerm));
            if ok {
                next
            } else {
                telling(next, NoticeKind::Unrecorded, job.meta.name)
            }
        },
        Phase::KeepPrerm => with_top(st, at(job, Phase::KeepPostrm)),
        Phase::KeepPostrm => telling(
            with_top(st, at(job, Phase::DropStage)),
            NoticeKind::Installed,
            job.meta.name,
        ),
        Phase::DropStage => leaving(with_top(st, JobModel { staged: false, ..job })),
        Phase::DropArchive => finished(st),
        _ => st,
    }
}

/// What follows when the topmost job has learned which repositories there are.
pub open spec fn after_repos(st: InstallerModel, repos: Seq<RepoModel>) -> InstallerModel {
    let job = st.jobs.last();
    if job.phase == Phase::AskSpkg {
        let next = with_attempts(job, repos, "spkg"@);
        with_top(
            st,
            at(
                next,
                if next.attempts.len() > 0 {
                    Phase::GetSpkg
                } else {
                    Phase::DropSpkg
                },
            ),
        )
    } else {
        let next = with_attempts(job, repos, "tar.xz"@);
        if next.attempts.len() > 0 {
            with_top(st, at(next, Phase::GetTar))
        } else {
            telling(with_top(st, at(next, Phase::DropTar)), NoticeKind::NotFound, job.package)
        }
    }
}

/// What follows when the topmost job has learned which files there are.
pub open spec fn after_files(st: InstallerModel, files: Seq<Seq<char>>) -> InstallerModel {
    let job = JobModel { files, ..st.jobs.last() };
    if job.phase == Phase::BareFiles {
        telling(
            with_top(st, at(job, Phase::BareExtract)),
            NoticeKind::Extracting,
            job.package,
        )
    } else {
        with_top(st, at(job, Phase::Record))
    }
}

/// What follows when the topmost job has read its package's metadata.
pub open spec fn after_text(st: InstallerModel, text: Seq<char>) -> InstallerModel {
    let meta = control_of(lines(text));
    let job = JobModel { meta, deps: dependencies(meta.depends), met: 0, ..st.jobs.last() };
    if meta.name.len() == 0 {
        giving_up(with_top(st, job), NoticeKind::Nameless, job.archive)
    } else {
        telling(with_top(st, at_dependency(job)), NoticeKind::About, meta.name)
    }
}

/// The state after an event.
#[verifier::opaque]
pub open spec fn next_state(st: InstallerModel, event: EventModel) -> InstallerModel {
    let quiet = InstallerModel { notices: seq![], ..st };
    match event {
        EventModel::Outcome { ok } => after_outcome(quiet, ok),
        EventModel::Repos { repos } => after_repos(quiet, repos),
        EventModel::Files { files } => after_files(quiet, files),
        EventModel::Text { text } => after_text(quiet, text),
    }
}

// ---------------------------------------------------------------- validity

/// Whether the directory of a job in this phase is there.
pub open spec fn has_stage(phase: Phase) -> bool {
    match phase {
        Phase::Unpack
        | Phase::CheckParts
        | Phase::UnpackControl
        | Phase::ReadControl
        | Phase::Depend
        | Phase::Wait
        | Phase::CheckInstalled
        | Phase::PreInst
        | Phase::MakeRoot
        | Phase::Extract
        | Phase::PostInst
        | Phase::Files
        | Phase::Record
        | Phase::KeepPrerm
        | Phase::KeepPostrm
        | Phase::DropStage => true,
        _ => false,
    }
}

/// Whether a job in this phase is past its dependencies, and not giving up.
pub open spec fn past_dependencies(phase: Phase) -> bool {
    match phase {
        Phase::CheckInstalled
        | Phase::PreInst
        | Phase::MakeRoot
        | Phase::Extract
        | Phase::PostInst
        | Phase::Files
        | Phase::Record
        | Phase::KeepPrerm
        | Phase::KeepPostrm => true,
        _ => false,
    }
}

/// Whether a job in this phase has extracted its package's files; `None` where a job
/// may be in this phase either way.
pub open spec fn extracted(phase: Phase) -> Option<bool> {
    match phase {
        Phase::PostInst
        | Phase::Files
        | Phase::Record
        | Phase::KeepPrerm
        | Phase::KeepPostrm
        | Phase::BareRecord => Some(true),
        Phase::DropTar | Phase::DropStage | Phase::DropArchive => None,
        _ => Some(false),
    }
}

/// The dependency that a job is at.
pub open spec fn awaited(job: JobModel) -> Seq<char> {
    job.deps[job.met as int]
}

/// What holds of every job.
pub open spec fn valid_job(job: JobModel, topmost: bool) -> bool {
    &&& (job.phase == Phase::Wait) == !topmost
    &&& job.staged == has_stage(job.phase)
    &&& job.met <= job.deps.len()
    &&& job.phase == Phase::Depend || job.phase == Phase::Wait ==> job.met < job.deps.len()
    &&& past_dependencies(job.phase) ==> job.met == job.deps.len()
    &&& job.phase == Phase::GetSpkg || job.phase == Phase::GetTar ==> job.tried
        < job.attempts.len()
    &&& job.phase == Phase::DropSpkg ==> job.tried == job.attempts.len()
    &&& extracted(job.phase) matches Some(ok) ==> job.ok == ok
}

/// What holds of every installation: its jobs are as they should be, all but the topmost
/// wait, each for the job above it, and no package waits for itself.
pub open spec fn valid(st: InstallerModel) -> bool {
    &&& forall|i: int|
        0 <= i < st.jobs.len() ==> valid_job(#[trigger] st.jobs[i], i == st.jobs.len() - 1)
    &&& forall|i: int|
        0 <= i < st.jobs.len() - 1 ==> #[trigger] awaited(st.jobs[i]) == st.jobs[i + 1].package
    &&& st.jobs.len() > 0 ==> chain(st).no_duplicates()
}

} // verus!
