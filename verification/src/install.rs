//! Installations that run: see [`crate::install_model`] for what they do.

use crate::control::{control_of, parse_control, ControlMeta};
use crate::database::{dependencies, installed_db_path, parse_depends, write_installed_record};
use crate::fetch::{attempt_models, fetch_package_ext, FetchAttempt};
use crate::install_laws::next_state_is_valid;
use crate::install_model::{
    after_files, after_outcome, after_repos, after_text, answers, at, at_dependency, bare_meta,
    begin_fetch, begin_file, chain, ended, fetched_path, file_job, giving_up, leaving, next_effect,
    next_state, no_meta, repo_job, stage_dir, staging, succ, telling, valid, valid_job,
    with_attempts, with_top, EffectModel, EventModel, InstallerModel, JobModel, NoticeKind,
    NoticeModel, Phase,
};
use crate::number::push_decimal;
use crate::paths::{below, join_path};
use crate::repo::{models, Repo};
use crate::text::{equal, lines, texts};
use vstd::prelude::*;
use vstd::string::*;

verus! {

/// Something that the user is told.
pub struct Notice {
    pub kind: NoticeKind,
    pub subject: String,
}

impl View for Notice {
    type V = NoticeModel;

    open spec fn view(&self) -> NoticeModel {
        NoticeModel { kind: self.kind, subject: self.subject@ }
    }
}

pub open spec fn notice_models(v: Seq<Notice>) -> Seq<NoticeModel> {
    v.map_values(|n: Notice| n@)
}

/// Something that is to be done: see [`EffectModel`].
pub enum Effect {
    LoadRepos,
    Fetch { attempt: FetchAttempt, dest: String },
    RemoveFile { path: String },
    MakeDir { path: String },
    ListMembers { archive: String },
    Extract { archive: String, root: String },
    MakeStage { dir: String },
    Unpack { archive: String, dir: String },
    CheckFiles { first: String, second: String },
    ReadFile { path: String },
    Probe { path: String },
    RunHook { dir: String, name: String },
    WriteRecord { dir: String, path: String, content: String },
    KeepHook { from: String, to: String },
    RemoveStage { dir: String },
    Done { ok: bool },
}

impl View for Effect {
    type V = EffectModel;

    open spec fn view(&self) -> EffectModel {
        match self {
            Effect::LoadRepos => EffectModel::LoadRepos,
            Effect::Fetch { attempt, dest } => EffectModel::Fetch { attempt: attempt@, dest: dest@ },
            Effect::RemoveFile { path } => EffectModel::RemoveFile { path: path@ },
            Effect::MakeDir { path } => EffectModel::MakeDir { path: path@ },
            Effect::ListMembers { archive } => EffectModel::ListMembers { archive: archive@ },
            Effect::Extract { archive, root } => EffectModel::Extract {
                archive: archive@,
                root: root@,
            },
            Effect::MakeStage { dir } => EffectModel::MakeStage { dir: dir@ },
            Effect::Unpack { archive, dir } => EffectModel::Unpack { archive: archive@, dir: dir@ },
            Effect::CheckFiles { first, second } => EffectModel::CheckFiles {
                first: first@,
                second: second@,
            },
            Effect::ReadFile { path } => EffectModel::ReadFile { path: path@ },
            Effect::Probe { path } => EffectModel::Probe { path: path@ },
            Effect::RunHook { dir, name } => EffectModel::RunHook { dir: dir@, name: name@ },
            Effect::WriteRecord { dir, path, content } => EffectModel::WriteRecord {
                dir: dir@,
                path: path@,
                content: content@,
            },
            Effect::KeepHook { from, to } => EffectModel::KeepHook { from: from@, to: to@ },
            Effect::RemoveStage { dir } => EffectModel::RemoveStage { dir: dir@ },
            Effect::Done { ok } => EffectModel::Done { ok: *ok },
        }
    }
}

/// What came of an effect: see [`EventModel`].
pub enum Event {
    Outcome { ok: bool },
    Repos { repos: Vec<Repo> },
    Files { files: Vec<String> },
    Text { text: String },
}

impl View for Event {
    type V = EventModel;

    open spec fn view(&self) -> EventModel {
        match self {
            Event::Outcome { ok } => EventModel::Outcome { ok: *ok },
            Event::Repos { repos } => EventModel::Repos { repos: models(repos@) },
            Event::Files { files } => EventModel::Files { files: texts(files@) },
            Event::Text { text } => EventModel::Text { text: text@ },
        }
    }
}

/// One package on its way: see [`JobModel`].
struct Job {
    package: String,
    archive: String,
    fetched: bool,
    attempts: Vec<FetchAttempt>,
    tried: usize,
    stage: u64,
    staged: bool,
    meta: ControlMeta,
    deps: Vec<String>,
    met: usize,
    files: Vec<String>,
    phase: Phase,
    ok: bool,
}

impl View for Job {
    type V = JobModel;

    closed spec fn view(&self) -> JobModel {
        JobModel {
            package: self.package@,
            archive: self.archive@,
            fetched: self.fetched,
            attempts: attempt_models(self.attempts@),
            tried: self.tried as nat,
            stage: self.stage,
            staged: self.staged,
            meta: self.meta@,
            deps: texts(self.deps@),
            met: self.met as nat,
            files: texts(self.files@),
            phase: self.phase,
            ok: self.ok,
        }
    }
}

spec fn job_models(v: Seq<Job>) -> Seq<JobModel> {
    v.map_values(|j: Job| j@)
}

/// An installation: see [`InstallerModel`].
pub struct Installer {
    root: String,
    pid: u32,
    stages: u64,
    jobs: Vec<Job>,
    notices: Vec<Notice>,
    ok: bool,
}

impl View for Installer {
    type V = InstallerModel;

    closed spec fn view(&self) -> InstallerModel {
        InstallerModel {
            root: self.root@,
            pid: self.pid,
            stages: self.stages,
            jobs: job_models(self.jobs@),
            notices: notice_models(self.notices@),
            ok: self.ok,
        }
    }
}

fn fetched_file(package: &str, ext: &str) -> (r: String)
    ensures
        r@ == fetched_path(package@, ext@),
{
    let mut r = String::new();
    r.append("/tmp/spk-");
    r.append(package);
    r.append(".");
    r.append(ext);
    assert(r@ =~= fetched_path(package@, ext@));
    r
}

fn stage_path(pid: u32, stage: u64) -> (r: String)
    ensures
        r@ == stage_dir(pid, stage),
{
    let mut r = String::new();
    r.append("/tmp/spk-spkg-stage-");
    push_decimal(&mut r, pid as u64);
    r.append("-");
    push_decimal(&mut r, stage);
    assert(r@ =~= stage_dir(pid, stage));
    r
}

fn empty_meta() -> (r: ControlMeta)
    ensures
        r@ == no_meta(),
{
    let r = ControlMeta {
        name: String::new(),
        version: String::new(),
        architecture: String::new(),
        depends: String::new(),
        description: String::new(),
    };
    assert(r@.name =~= no_meta().name);
    assert(r@.version =~= no_meta().version);
    assert(r@.architecture =~= no_meta().architecture);
    assert(r@.depends =~= no_meta().depends);
    assert(r@.description =~= no_meta().description);
    r
}

fn bare_metadata(package: &str) -> (r: ControlMeta)
    ensures
        r@ == bare_meta(package@),
{
    let r = ControlMeta {
        name: package.to_string(),
        version: "unknown (legacy .tar.xz, no metadata)".to_string(),
        architecture: "x86_64".to_string(),
        depends: String::new(),
        description: String::new(),
    };
    assert(r@.depends =~= bare_meta(package@).depends);
    assert(r@.description =~= bare_meta(package@).description);
    r
}

fn next_number(n: u64) -> (r: u64)
    ensures
        r == succ(n),
{
    if n == u64::MAX {
        0
    } else {
        n + 1
    }
}

impl Job {
    fn from_repo(package: &str) -> (r: Job)
        ensures
            r@ == repo_job(package@),
    {
        let r = Job {
            package: package.to_string(),
            archive: fetched_file(package, "spkg"),
            fetched: true,
            attempts: Vec::new(),
            tried: 0,
            stage: 0,
            staged: false,
            meta: empty_meta(),
            deps: Vec::new(),
            met: 0,
            files: Vec::new(),
            phase: Phase::AskSpkg,
            ok: false,
        };
        assert(r@ =~= repo_job(package@));
        r
    }

    fn from_file(path: &str, stage: u64) -> (r: Job)
        ensures
            r@ == file_job(path@, stage),
    {
        let r = Job {
            package: String::new(),
            archive: path.to_string(),
            fetched: false,
            attempts: Vec::new(),
            tried: 0,
            stage,
            staged: false,
            meta: empty_meta(),
            deps: Vec::new(),
            met: 0,
            files: Vec::new(),
            phase: Phase::MakeStage,
            ok: false,
        };
        assert(r@ =~= file_job(path@, stage));
        r
    }

    fn turn_to_dependency(&mut self)
        ensures
            final(self)@ == at_dependency(old(self)@),
    {
        self.phase = if self.met < self.deps.len() {
            Phase::Depend
        } else {
            Phase::CheckInstalled
        };
        assert(self@ =~= at_dependency(old(self)@));
    }
}

/// Begins to install a package from the repositories. `stages` is the number of the next
/// directory that a package is opened in.
pub fn fetch_and_install(package: &str, root: &str, pid: u32, stages: u64) -> (r: Installer)
    ensures
        r@ == begin_fetch(package@, root@, pid, stages),
        valid(r@),
{
    let mut jobs: Vec<Job> = Vec::new();
    jobs.push(Job::from_repo(package));
    let mut notices: Vec<Notice> = Vec::new();
    notices.push(Notice { kind: NoticeKind::Fetching, subject: package.to_string() });
    let r = Installer { root: root.to_string(), pid, stages, jobs, notices, ok: false };
    assert(r@ =~= begin_fetch(package@, root@, pid, stages));
    r
}

/// Begins to install a package from a file.
pub fn install_spkg_file(path: &str, root: &str, pid: u32, stages: u64) -> (r: Installer)
    ensures
        r@ == begin_file(path@, root@, pid, stages),
        valid(r@),
{
    let mut jobs: Vec<Job> = Vec::new();
    jobs.push(Job::from_file(path, stages));
    let r = Installer {
        root: root.to_string(),
        pid,
        stages: next_number(stages),
        jobs,
        notices: Vec::new(),
        ok: false,
    };
    assert(r@ =~= begin_file(path@, root@, pid, stages));
    r
}

impl Installer {
    /// What the user is told before the next effect.
    pub fn notices(&self) -> (r: &Vec<Notice>)
        ensures
            notice_models(r@) == self@.notices,
    {
        &self.notices
    }

    /// The number of the next directory that a package is opened in.
    pub fn stages(&self) -> (r: u64)
        ensures
            r == self@.stages,
    {
        self.stages
    }

    /// The metadata of the topmost package.
    pub fn about(&self) -> (r: Option<&ControlMeta>)
        ensures
            match r {
                Some(meta) => self@.jobs.len() > 0 && meta@ == self@.jobs.last().meta,
                None => self@.jobs.len() == 0,
            },
    {
        if self.jobs.len() == 0 {
            None
        } else {
            Some(&self.jobs[self.jobs.len() - 1].meta)
        }
    }

    /// What is to be done next.
    pub fn effect(&self) -> (r: Effect)
        requires
            valid(self@),
        ensures
            r@ == next_effect(self@),
    {
        if self.jobs.len() == 0 {
            return Effect::Done { ok: self.ok };
        }
        let job = &self.jobs[self.jobs.len() - 1];
        let root = self.root.as_str();
        let stage = stage_path(self.pid, job.stage);
        let control = join_path(stage.as_str(), "control");
        let record = installed_db_path(root, job.meta.name.as_str());
        proof {
            assert(self@.jobs.last() == job@);
            assert(valid_job(self@.jobs[self@.jobs.len() - 1], true));
            assert(job@.attempts.len() == job.attempts@.len());
            assert(job@.deps.len() == job.deps@.len());
        }
        match job.phase {
            Phase::AskSpkg | Phase::AskTar => Effect::LoadRepos,
            Phase::GetSpkg | Phase::GetTar => {
                assert(job@.attempts[job.tried as int] == job.attempts@[job.tried as int]@);
                Effect::Fetch {
                    attempt: job.attempts[job.tried].copy(),
                    dest: job.archive.clone(),
                }
            },
            Phase::DropSpkg | Phase::DropTar | Phase::DropArchive => Effect::RemoveFile {
                path: job.archive.clone(),
            },
            Phase::BareRoot | Phase::MakeRoot => Effect::MakeDir { path: root.to_string() },
            Phase::BareFiles => Effect::ListMembers { archive: job.archive.clone() },
            Phase::BareExtract => Effect::Extract {
                archive: job.archive.clone(),
                root: root.to_string(),
            },
            Phase::BareRecord => {
                let w = write_installed_record(
                    root,
                    &bare_metadata(job.package.as_str()),
                    &job.files,
                );
                Effect::WriteRecord { dir: w.dir, path: w.path, content: w.content }
            },
            Phase::MakeStage => Effect::MakeStage { dir: stage },
            Phase::Unpack => Effect::Unpack { archive: job.archive.clone(), dir: stage },
            Phase::CheckParts => Effect::CheckFiles {
                first: join_path(stage.as_str(), "control.tar.xz"),
                second: join_path(stage.as_str(), "data.tar.xz"),
            },
            Phase::UnpackControl => Effect::Unpack {
                archive: join_path(stage.as_str(), "control.tar.xz"),
                dir: control,
            },
            Phase::ReadControl => Effect::ReadFile { path: join_path(control.as_str(), "control") },
            Phase::Depend | Phase::Wait => {
                assert(job@.deps[job.met as int] == job.deps@[job.met as int]@);
                Effect::Probe { path: installed_db_path(root, job.deps[job.met].as_str()) }
            },
            Phase::CheckInstalled => Effect::Probe { path: record },
            Phase::PreInst => Effect::RunHook { dir: control, name: "preinst".to_string() },
            Phase::Extract => Effect::Extract {
                archive: join_path(stage.as_str(), "data.tar.xz"),
                root: root.to_string(),
            },
            Phase::PostInst => Effect::RunHook { dir: control, name: "postinst".to_string() },
            Phase::Files => Effect::ListMembers {
                archive: join_path(stage.as_str(), "data.tar.xz"),
            },
            Phase::Record => {
                let w = write_installed_record(root, &job.meta, &job.files);
                Effect::WriteRecord { dir: w.dir, path: w.path, content: w.content }
            },
            Phase::KeepPrerm => {
                let from = join_path(control.as_str(), "prerm");
                Effect::KeepHook { from, to: record.concat(".prerm") }
            },
            Phase::KeepPostrm => {
                let from = join_path(control.as_str(), "postrm");
                Effect::KeepHook { from, to: record.concat(".postrm") }
            },
            Phase::DropStage => Effect::RemoveStage { dir: stage },
        }
    }
}


/// The installation with one more job.
spec fn restored(rest: InstallerModel, job: JobModel) -> InstallerModel {
    InstallerModel { jobs: rest.jobs.push(job), ..rest }
}

proof fn lemma_restored(rest: InstallerModel, job: JobModel)
    ensures
        restored(rest, job).jobs.last() == job,
        restored(rest, job).jobs.drop_last() == rest.jobs,
        forall|other: JobModel| #[trigger]
            with_top(restored(rest, job), other) == restored(rest, other),
{
    assert(restored(rest, job).jobs.drop_last() =~= rest.jobs);
}

impl Installer {
    /// Whether one of the jobs above the bottom one installs a package; the topmost job has
    /// been taken off.
    fn is_pending(&self, top: &Job, package: &str) -> (r: bool)
        ensures
            r == chain(restored(self@, top@)).contains(package@),
    {
        let ghost c = chain(restored(self@, top@));
        let ghost all = self@.jobs;
        let n = self.jobs.len();
        let mut i: usize = 1;
        while i < n
            invariant
                1 <= i,
                n == self.jobs@.len(),
                all == job_models(self.jobs@),
                c == chain(restored(self@, top@)),
                c.len() == n,
                all == self@.jobs,
                forall|k: int| 0 <= k < i - 1 && k < n - 1 ==> c[k] != package@,
            decreases n - i,
        {
            assert(all[i as int] == self.jobs@[i as int]@);
            assert(c[i - 1] == all[i as int].package);
            if equal(self.jobs[i].package.as_str(), package) {
                return true;
            }
            i += 1;
        }
        let r = n > 0 && equal(top.package.as_str(), package);
        proof {
            if n > 0 {
                assert(c[n - 1] == top@.package);
            }
        }
        r
    }
}

impl Installer {
    fn tell(&mut self, kind: NoticeKind, subject: &str)
        ensures
            final(self)@ == telling(old(self)@, kind, subject@),
    {
        self.notices.push(Notice { kind, subject: subject.to_string() });
        assert(self@ =~= telling(old(self)@, kind, subject@));
    }

    fn put(&mut self, job: Job)
        ensures
            final(self)@ == restored(old(self)@, job@),
    {
        self.jobs.push(job);
        assert(self@ =~= restored(old(self)@, job@));
    }

    /// Ends a job that has been taken off.
    fn end(&mut self, ok: bool)
        requires
            awaiting(old(self)@),
        ensures
            final(self)@ == ended(old(self)@, ok),
    {
        let ghost all = self.jobs@;
        assert(self@.jobs == job_models(all));
        match self.jobs.pop() {
            None => {
                self.ok = ok;
                assert(self@ =~= ended(old(self)@, ok));
            },
            Some(top) => {
                let mut parent = top;
                proof {
                    assert(old(self)@.jobs.last() == parent@);
                    assert(self@.jobs =~= old(self)@.jobs.drop_last());
                    assert(self@ =~= InstallerModel {
                        jobs: old(self)@.jobs.drop_last(),
                        ..old(self)@
                    });
                    assert(parent@.deps.len() == parent.deps@.len());
                }
                if ok {
                    assert(parent.met < parent.deps.len());
                    parent.met = parent.met + 1;
                    assert(parent@ =~= JobModel { met: (top@.met + 1) as nat, ..top@ });
                    parent.turn_to_dependency();
                    self.put(parent);
                } else {
                    assert(parent@.deps[parent.met as int] == parent.deps@[parent.met as int]@);
                    let dep = parent.deps[parent.met].clone();
                    parent.phase = Phase::DropStage;
                    assert(parent@ =~= at(top@, Phase::DropStage));
                    self.put(parent);
                    self.tell(NoticeKind::DependencyFailed, dep.as_str());
                }
            },
        }
    }
}


/// Whether the topmost job, where there is one, has a dependency left to wait for.
spec fn awaiting(rest: InstallerModel) -> bool {
    rest.jobs.len() > 0 ==> rest.jobs.last().met < rest.jobs.last().deps.len()
}

impl Installer {
    /// The topmost job goes on in another phase.
    fn go(&mut self, job: Job, phase: Phase)
        ensures
            final(self)@ == restored(old(self)@, at(job@, phase)),
    {
        let mut next = job;
        next.phase = phase;
        assert(next@ =~= at(job@, phase));
        self.put(next);
    }

    /// The topmost job gives up.
    fn give_up(&mut self, job: Job, kind: NoticeKind, subject: &str)
        ensures
            final(self)@ == giving_up(restored(old(self)@, job@), kind, subject@),
    {
        proof {
            lemma_restored(self@, job@);
        }
        self.go(job, Phase::DropStage);
        self.tell(kind, subject);
    }

    /// The topmost job has nothing left but to clear away what was fetched.
    fn leave(&mut self, job: Job)
        requires
            awaiting(old(self)@),
        ensures
            final(self)@ == leaving(restored(old(self)@, job@)),
    {
        proof {
            lemma_restored(self@, job@);
        }
        if job.fetched {
            self.go(job, Phase::DropArchive);
        } else {
            assert(self@ == InstallerModel { jobs: self@.jobs, ..restored(self@, job@) });
            self.end(job.ok);
        }
    }

    /// An attempt of the topmost job to fetch its package has failed.
    fn after_failed_fetch(&mut self, job: Job, more: Phase)
        requires
            job@.phase == Phase::GetSpkg || job@.phase == Phase::GetTar,
            job@.phase == more,
            job@.tried < job@.attempts.len(),
        ensures
            final(self)@ == after_outcome(restored(old(self)@, job@), false),
    {
        proof {
            lemma_restored(self@, job@);
            assert(job@.attempts.len() == job.attempts@.len());
        }
        let mut next = job;
        assert(next.tried < next.attempts.len());
        next.tried = next.tried + 1;
        assert(next@ =~= JobModel { tried: (job@.tried + 1) as nat, ..job@ });
        if next.tried < next.attempts.len() {
            self.put(next);
        } else if more == Phase::GetSpkg {
            self.go(next, Phase::DropSpkg);
        } else {
            let package = next.package.clone();
            self.go(next, Phase::DropTar);
            self.tell(NoticeKind::NotFound, package.as_str());
        }
    }
}


impl Installer {
    /// The next dependency of the topmost job is installed, or is not.
    fn after_probe(&mut self, job: Job, ok: bool)
        requires
            job@.phase == Phase::Depend,
            job@.met < job@.deps.len(),
        ensures
            final(self)@ == after_outcome(restored(old(self)@, job@), ok),
    {
        let ghost rest = self@;
        proof {
            lemma_restored(rest, job@);
            assert(job@.deps.len() == job.deps@.len());
            assert(job@.deps[job.met as int] == job.deps@[job.met as int]@);
        }
        if ok {
            let mut next = job;
            assert(next.met < next.deps.len());
            next.met = next.met + 1;
            assert(next@ =~= JobModel { met: (job@.met + 1) as nat, ..job@ });
            next.turn_to_dependency();
            self.put(next);
            return;
        }
        let dep = job.deps[job.met].clone();
        if self.is_pending(&job, dep.as_str()) {
            self.give_up(job, NoticeKind::Cycle, dep.as_str());
        } else {
            self.go(job, Phase::Wait);
            self.put(Job::from_repo(dep.as_str()));
            self.tell(NoticeKind::Resolving, dep.as_str());
            self.tell(NoticeKind::Fetching, dep.as_str());
        }
    }

    /// What follows when the topmost job deals with a bare archive, or has yet to get hold of
    /// its package.
    fn after_fetching(&mut self, job: Job, ok: bool)
        requires
            valid_job(job@, true),
            !job@.staged,
            awaiting(old(self)@),
        ensures
            final(self)@ == after_outcome(restored(old(self)@, job@), ok),
    {
        let ghost rest = self@;
        proof {
            lemma_restored(rest, job@);
        }
        match job.phase {
            Phase::GetSpkg => if ok {
                let mut next = job;
                next.stage = self.stages;
                next.phase = Phase::MakeStage;
                assert(next@ =~= JobModel {
                    stage: rest.stages,
                    phase: Phase::MakeStage,
                    ..job@
                });
                self.stages = next_number(self.stages);
                self.put(next);
                assert(self@ =~= staging(restored(rest, job@)));
            } else {
                self.after_failed_fetch(job, Phase::GetSpkg);
            },
            Phase::DropSpkg => {
                let mut next = job;
                let package = next.package.clone();
                next.archive = fetched_file(package.as_str(), "tar.xz");
                assert(next@ =~= JobModel {
                    archive: fetched_path(job@.package, "tar.xz"@),
                    ..job@
                });
                self.go(next, Phase::AskTar);
                self.tell(NoticeKind::TryingBare, package.as_str());
            },
            Phase::GetTar => if ok {
                self.go(job, Phase::BareRoot);
            } else {
                self.after_failed_fetch(job, Phase::GetTar);
            },
            Phase::BareRoot => self.go(job, Phase::BareFiles),
            Phase::BareExtract => if ok {
                let mut next = job;
                next.ok = true;
                assert(next@ =~= JobModel { ok: true, ..job@ });
                self.go(next, Phase::DropTar);
            } else {
                let package = job.package.clone();
                self.go(job, Phase::DropTar);
                self.tell(NoticeKind::BareFailed, package.as_str());
            },
            Phase::DropTar => if job.ok {
                self.go(job, Phase::BareRecord);
            } else {
                self.end(job.ok);
            },
            Phase::BareRecord => {
                self.tell(NoticeKind::Installed, job.package.as_str());
                proof {
                    lemma_restored(self@, job@);
                }
                self.end(job.ok);
            },
            Phase::MakeStage => if ok {
                let mut next = job;
                next.staged = true;
                assert(next@ =~= JobModel { staged: true, ..job@ });
                self.go(next, Phase::Unpack);
            } else {
                let dir = stage_path(self.pid, job.stage);
                self.tell(NoticeKind::StageFailed, dir.as_str());
                self.leave(job);
            },
            Phase::DropArchive => self.end(job.ok),
            _ => self.put(job),
        }
    }

    /// What follows when the topmost job has opened its package.
    fn after_opening(&mut self, job: Job, ok: bool)
        requires
            valid_job(job@, true),
            job@.staged,
            awaiting(old(self)@),
        ensures
            final(self)@ == after_outcome(restored(old(self)@, job@), ok),
    {
        let ghost rest = self@;
        proof {
            lemma_restored(rest, job@);
        }
        let archive = job.archive.clone();
        let name = job.meta.name.clone();
        match job.phase {
            Phase::Unpack => if ok {
                self.go(job, Phase::CheckParts);
            } else {
                self.give_up(job, NoticeKind::NotAPackage, archive.as_str());
            },
            Phase::CheckParts => if ok {
                self.go(job, Phase::UnpackControl);
            } else {
                self.give_up(job, NoticeKind::PartMissing, archive.as_str());
            },
            Phase::UnpackControl => if ok {
                self.go(job, Phase::ReadControl);
            } else {
                self.give_up(job, NoticeKind::ControlFailed, archive.as_str());
            },
            Phase::Depend => self.after_probe(job, ok),
            Phase::CheckInstalled => {
                self.go(job, Phase::PreInst);
                if ok {
                    self.tell(NoticeKind::Reinstalling, name.as_str());
                }
            },
            Phase::PreInst => self.go(job, Phase::MakeRoot),
            Phase::MakeRoot => {
                self.go(job, Phase::Extract);
                self.tell(NoticeKind::Extracting, name.as_str());
            },
            Phase::Extract => if ok {
                let mut next = job;
                next.ok = true;
                assert(next@ =~= JobModel { ok: true, ..job@ });
                self.go(next, Phase::PostInst);
            } else {
                self.give_up(job, NoticeKind::DataFailed, archive.as_str());
            },
            Phase::PostInst => self.go(job, Phase::Files),
            Phase::Record => {
                self.go(job, Phase::KeepPrerm);
                if !ok {
                    self.tell(NoticeKind::Unrecorded, name.as_str());
                }
            },
            Phase::KeepPrerm => self.go(job, Phase::KeepPostrm),
            Phase::KeepPostrm => {
                self.go(job, Phase::DropStage);
                self.tell(NoticeKind::Installed, name.as_str());
            },
            Phase::DropStage => {
                let mut next = job;
                next.staged = false;
                assert(next@ =~= JobModel { staged: false, ..job@ });
                self.leave(next);
            },
            _ => self.put(job),
        }
    }

    /// What follows when the topmost job has learned which repositories there are.
    fn after_asking(&mut self, job: Job, repos: &Vec<Repo>)
        ensures
            final(self)@ == after_repos(restored(old(self)@, job@), models(repos@)),
    {
        proof {
            lemma_restored(self@, job@);
        }
        let mut next = job;
        let spkg = next.phase == Phase::AskSpkg;
        next.attempts = fetch_package_ext(
            next.package.as_str(),
            if spkg {
                "spkg"
            } else {
                "tar.xz"
            },
            repos,
        );
        next.tried = 0;
        proof {
            let ext = if spkg {
                "spkg"@
            } else {
                "tar.xz"@
            };
            assert(next@ =~= with_attempts(job@, models(repos@), ext));
            assert(next@.attempts.len() == next.attempts@.len());
        }
        let some = next.attempts.len() > 0;
        if spkg {
            self.go(
                next,
                if some {
                    Phase::GetSpkg
                } else {
                    Phase::DropSpkg
                },
            );
        } else if some {
            self.go(next, Phase::GetTar);
        } else {
            let package = next.package.clone();
            self.go(next, Phase::DropTar);
            self.tell(NoticeKind::NotFound, package.as_str());
        }
    }

    /// What follows when the topmost job has learned which files there are.
    fn after_listing(&mut self, job: Job, files: Vec<String>)
        ensures
            final(self)@ == after_files(restored(old(self)@, job@), texts(files@)),
    {
        proof {
            lemma_restored(self@, job@);
        }
        let mut next = job;
        next.files = files;
        assert(next@ =~= JobModel { files: texts(files@), ..job@ });
        if next.phase == Phase::BareFiles {
            let package = next.package.clone();
            self.go(next, Phase::BareExtract);
            self.tell(NoticeKind::Extracting, package.as_str());
        } else {
            self.go(next, Phase::Record);
        }
    }

    /// What follows when the topmost job has read its package's metadata.
    fn after_reading(&mut self, job: Job, text: &str)
        ensures
            final(self)@ == after_text(restored(old(self)@, job@), text@),
    {
        proof {
            lemma_restored(self@, job@);
        }
        let meta = parse_control(text);
        let name = meta.name.clone();
        let mut next = job;
        next.deps = parse_depends(meta.depends.as_str());
        next.meta = meta;
        next.met = 0;
        let ghost read = control_of(lines(text@));
        assert(next@ =~= JobModel {
            meta: read,
            deps: dependencies(read.depends),
            met: 0,
            ..job@
        });
        proof {
            lemma_restored(self@, next@);
        }
        if name.as_str().is_empty() {
            let archive = next.archive.clone();
            self.give_up(next, NoticeKind::Nameless, archive.as_str());
        } else {
            next.turn_to_dependency();
            self.put(next);
            self.tell(NoticeKind::About, name.as_str());
        }
    }

    /// Takes in what came of the effect, and goes on to the next.
    pub fn advance(&mut self, event: Event)
        requires
            valid(old(self)@),
            answers(next_effect(old(self)@), event@),
        ensures
            final(self)@ == next_state(old(self)@, event@),
            valid(final(self)@),
    {
        proof {
            next_state_is_valid(self@, event@);
            reveal(next_state);
        }
        let ghost before = self@;
        let ghost jobs = self.jobs@;
        self.notices = Vec::new();
        assert(before.jobs == job_models(jobs));
        if let Some(job) = self.jobs.pop() {
            let ghost rest = self@;
            proof {
                assert(before.jobs.last() == job@);
                assert(before.jobs.drop_last() =~= rest.jobs);
                assert(restored(rest, job@) =~= InstallerModel { notices: seq![], ..before });
                assert(valid_job(before.jobs[before.jobs.len() - 1], true));
                if rest.jobs.len() > 0 {
                    assert(valid_job(before.jobs[before.jobs.len() - 2], false));
                }
            }
            match event {
                Event::Outcome { ok } => if job.staged {
                    self.after_opening(job, ok);
                } else {
                    self.after_fetching(job, ok);
                },
                Event::Repos { repos } => self.after_asking(job, &repos),
                Event::Files { files } => self.after_listing(job, files),
                Event::Text { text } => self.after_reading(job, text.as_str()),
            }
        }
    }
}

} // verus!
