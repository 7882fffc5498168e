use spk::install::{fetch_and_install, install_spkg_file, Effect, Event, Installer};
use spk::install_model::NoticeKind;
use spk::repo::Repo;

/// A machine that an installation runs on.
struct Host {
    /// The packages that the repositories have, as `name.ext`, and their control files.
    published: Vec<(String, String)>,
    /// The paths that exist.
    paths: Vec<String>,
    /// What is done, in order.
    done: Vec<String>,
    /// What the user is told.
    told: Vec<(NoticeKind, String)>,
    /// What fails.
    broken: Vec<String>,
}

impl Host {
    fn new(published: &[(&str, &str)]) -> Host {
        Host {
            published: published
                .iter()
                .map(|p| (p.0.to_string(), p.1.to_string()))
                .collect(),
            paths: Vec::new(),
            done: Vec::new(),
            told: Vec::new(),
            broken: Vec::new(),
        }
    }

    fn control_of(&self, archive: &str) -> Option<String> {
        let file = archive.trim_start_matches("/tmp/spk-");
        self.published.iter().find(|p| p.0 == file).map(|p| p.1.clone())
    }

    fn run(&mut self, mut installer: Installer) -> bool {
        // What has been opened in which directory.
        let mut opened: Vec<(String, String)> = Vec::new();
        loop {
            for n in installer.notices() {
                self.told.push((n.kind, n.subject.clone()));
            }
            let event = match installer.effect() {
                Effect::LoadRepos => Event::Repos {
                    repos: vec![
                        Repo { name: "b".to_string(), url: "https://b".to_string(), priority: 100 },
                        Repo { name: "a".to_string(), url: "https://a/".to_string(), priority: 1 },
                    ],
                },
                Effect::Fetch { attempt, dest } => {
                    let file = attempt.url.trim_start_matches("https://a/").to_string();
                    let ok = self.published.iter().any(|p| p.0 == file);
                    self.note(format!("fetch {} to {dest}: {ok}", attempt.url));
                    Event::Outcome { ok }
                }
                Effect::RemoveFile { path } => self.outcome(format!("remove {path}")),
                Effect::MakeDir { path } => self.outcome(format!("mkdir {path}")),
                Effect::ListMembers { archive } => {
                    self.note(format!("list {archive}"));
                    Event::Files { files: vec!["usr/bin/x".to_string()] }
                }
                Effect::Extract { archive, root } => {
                    self.outcome(format!("extract {archive} into {root}"))
                }
                Effect::MakeStage { dir } => self.outcome(format!("stage {dir}")),
                Effect::Unpack { archive, dir } => {
                    opened.push((dir.clone(), archive.clone()));
                    self.outcome(format!("unpack {archive} in {dir}"))
                }
                Effect::CheckFiles { first, second } => {
                    self.outcome(format!("check {first} {second}"))
                }
                Effect::ReadFile { path } => {
                    let archive = opened
                        .iter()
                        .find(|o| path.starts_with(&format!("{}/", o.0)))
                        .map(|o| o.1.clone())
                        .unwrap();
                    Event::Text { text: self.control_of(&archive).unwrap_or_default() }
                }
                Effect::Probe { path } => Event::Outcome { ok: self.paths.contains(&path) },
                Effect::RunHook { dir, name } => self.outcome(format!("run {dir}/{name}")),
                Effect::WriteRecord { path, content, .. } => {
                    let event = self.outcome(format!("record {path}: {content:?}"));
                    self.paths.push(path);
                    event
                }
                Effect::KeepHook { from, to } => self.outcome(format!("keep {from} as {to}")),
                Effect::RemoveStage { dir } => self.outcome(format!("clear {dir}")),
                Effect::Done { ok } => return ok,
            };
            installer.advance(event);
        }
    }

    fn note(&mut self, s: String) {
        self.done.push(s);
    }

    fn outcome(&mut self, s: String) -> Event {
        let ok = !self.broken.iter().any(|b| s.starts_with(b));
        self.note(s);
        Event::Outcome { ok }
    }

    fn did(&self, prefix: &str) -> Vec<String> {
        self.done.iter().filter(|d| d.starts_with(prefix)).cloned().collect()
    }

    fn was_told(&self, kind: NoticeKind, subject: &str) -> bool {
        self.told.iter().any(|t| t.0 == kind && t.1 == subject)
    }
}

#[test]
fn a_package_is_fetched_and_installed() {
    let mut host = Host::new(&[("foo.spkg", "name: foo\nversion: 2\narchitecture: x86_64\n")]);
    assert!(host.run(fetch_and_install("foo", "/", 7, 3)));
    let stage = "/tmp/spk-spkg-stage-7-3";
    assert_eq!(
        host.done,
        vec![
            "fetch https://a/foo.spkg to /tmp/spk-foo.spkg: true".to_string(),
            format!("stage {stage}"),
            format!("unpack /tmp/spk-foo.spkg in {stage}"),
            format!("check {stage}/control.tar.xz {stage}/data.tar.xz"),
            format!("unpack {stage}/control.tar.xz in {stage}/control"),
            format!("run {stage}/control/preinst"),
            "mkdir /".to_string(),
            format!("extract {stage}/data.tar.xz into /"),
            format!("run {stage}/control/postinst"),
            format!("list {stage}/data.tar.xz"),
            "record /var/lib/spk/installed/foo: \"version: 2\\narchitecture: x86_64\\n\
             depends: \\nfiles:\\nusr/bin/x\\n\""
                .to_string(),
            format!("keep {stage}/control/prerm as /var/lib/spk/installed/foo.prerm"),
            format!("keep {stage}/control/postrm as /var/lib/spk/installed/foo.postrm"),
            format!("clear {stage}"),
            "remove /tmp/spk-foo.spkg".to_string(),
        ]
    );
    let kinds: Vec<NoticeKind> = host.told.iter().map(|t| t.0).collect();
    assert_eq!(
        kinds,
        vec![
            NoticeKind::Fetching,
            NoticeKind::About,
            NoticeKind::Extracting,
            NoticeKind::Installed,
        ]
    );
}

#[test]
fn dependencies_are_installed_first_and_only_where_missing() {
    let mut host = Host::new(&[
        ("a.spkg", "name: a\ndepends: b, c (>= 1), d\n"),
        ("b.spkg", "name: b\ndepends: c\n"),
        ("c.spkg", "name: c\n"),
    ]);
    host.paths.push("/r/var/lib/spk/installed/d".to_string());
    assert!(host.run(fetch_and_install("a", "/r", 1, 0)));
    assert_eq!(
        host.did("extract"),
        vec![
            "extract /tmp/spk-spkg-stage-1-2/data.tar.xz into /r",
            "extract /tmp/spk-spkg-stage-1-1/data.tar.xz into /r",
            "extract /tmp/spk-spkg-stage-1-0/data.tar.xz into /r",
        ]
    );
    assert_eq!(host.did("fetch").len(), 3);
    assert!(host.was_told(NoticeKind::Resolving, "b"));
    assert!(!host.was_told(NoticeKind::Resolving, "d"));
}

#[test]
fn a_cycle_of_dependencies_is_refused() {
    let mut host = Host::new(&[
        ("a.spkg", "name: a\ndepends: b\n"),
        ("b.spkg", "name: b\ndepends: c\n"),
        ("c.spkg", "name: c\ndepends: b\n"),
    ]);
    assert!(!host.run(fetch_and_install("a", "/", 1, 0)));
    assert!(host.was_told(NoticeKind::Cycle, "b"));
    assert!(host.was_told(NoticeKind::DependencyFailed, "c"));
    assert!(host.was_told(NoticeKind::DependencyFailed, "b"));
    assert!(host.did("extract").is_empty());
    assert!(host.did("record").is_empty());
    // Every directory that was made is cleared away.
    assert_eq!(host.did("stage").len(), 3);
    assert_eq!(host.did("clear").len(), 3);
}

#[test]
fn a_failed_dependency_fails_its_package() {
    let mut host = Host::new(&[("a.spkg", "name: a\ndepends: missing\n")]);
    assert!(!host.run(fetch_and_install("a", "/", 1, 0)));
    assert!(host.was_told(NoticeKind::TryingBare, "missing"));
    assert!(host.was_told(NoticeKind::NotFound, "missing"));
    assert!(host.was_told(NoticeKind::DependencyFailed, "missing"));
    assert!(host.did("extract").is_empty());
    assert_eq!(host.did("clear"), vec!["clear /tmp/spk-spkg-stage-1-0"]);
}

#[test]
fn a_bare_archive_serves_where_there_is_no_package() {
    let mut host = Host::new(&[("old.tar.xz", "")]);
    assert!(host.run(fetch_and_install("old", "/", 1, 0)));
    assert_eq!(
        host.done,
        vec![
            "fetch https://a/old.spkg to /tmp/spk-old.spkg: false",
            "fetch https://b/old.spkg to /tmp/spk-old.spkg: false",
            "remove /tmp/spk-old.spkg",
            "fetch https://a/old.tar.xz to /tmp/spk-old.tar.xz: true",
            "mkdir /",
            "list /tmp/spk-old.tar.xz",
            "extract /tmp/spk-old.tar.xz into /",
            "remove /tmp/spk-old.tar.xz",
            "record /var/lib/spk/installed/old: \"version: unknown (legacy .tar.xz, no \
             metadata)\\narchitecture: x86_64\\ndepends: \\nfiles:\\nusr/bin/x\\n\"",
        ]
    );
}

#[test]
fn a_bare_archive_that_cannot_be_extracted_is_not_recorded() {
    let mut host = Host::new(&[("old.tar.xz", "")]);
    host.broken.push("extract".to_string());
    assert!(!host.run(fetch_and_install("old", "/", 1, 0)));
    assert!(host.was_told(NoticeKind::BareFailed, "old"));
    assert!(host.did("record").is_empty());
}

#[test]
fn a_file_is_installed_and_stays() {
    let mut host = Host::new(&[("/home/x.spkg", "name: x\n")]);
    host.paths.push("/var/lib/spk/installed/x".to_string());
    let installer = install_spkg_file("/home/x.spkg", "/", 9, 4);
    assert_eq!(installer.stages(), 5);
    assert!(host.run(installer));
    assert!(host.was_told(NoticeKind::Reinstalling, "x"));
    assert!(host.did("remove").is_empty());
    assert!(host.did("fetch").is_empty());
    assert_eq!(host.did("stage"), vec!["stage /tmp/spk-spkg-stage-9-4"]);
}

#[test]
fn each_failure_is_told_and_cleared_up() {
    for (broken, kind, cleared) in [
        ("stage", NoticeKind::StageFailed, 0),
        ("unpack /tmp/spk-foo.spkg", NoticeKind::NotAPackage, 1),
        ("check", NoticeKind::PartMissing, 1),
        ("unpack /tmp/spk-spkg-stage", NoticeKind::ControlFailed, 1),
        ("extract", NoticeKind::DataFailed, 1),
    ] {
        let mut host = Host::new(&[("foo.spkg", "name: foo\n")]);
        host.broken.push(broken.to_string());
        assert!(!host.run(fetch_and_install("foo", "/", 1, 0)), "{broken}");
        assert_eq!(host.told.last().unwrap().0, kind);
        assert_eq!(host.did("clear").len(), cleared);
        assert_eq!(host.did("remove"), vec!["remove /tmp/spk-foo.spkg"]);
        assert!(host.did("record").is_empty());
    }
}

#[test]
fn a_package_without_a_name_is_refused() {
    let mut host = Host::new(&[("foo.spkg", "version: 1\n")]);
    assert!(!host.run(fetch_and_install("foo", "/", 1, 0)));
    assert!(host.was_told(NoticeKind::Nameless, "/tmp/spk-foo.spkg"));
}

#[test]
fn a_package_that_cannot_be_recorded_is_installed_all_the_same() {
    let mut host = Host::new(&[("foo.spkg", "name: foo\n")]);
    host.broken.push("record".to_string());
    assert!(host.run(fetch_and_install("foo", "/", 1, 0)));
    assert!(host.was_told(NoticeKind::Unrecorded, "foo"));
    assert!(host.was_told(NoticeKind::Installed, "foo"));
}

#[test]
fn the_metadata_can_be_shown() {
    let mut installer = install_spkg_file("f", "/", 1, u64::MAX);
    assert_eq!(installer.stages(), 0);
    for _ in 0..4 {
        installer.advance(Event::Outcome { ok: true });
    }
    installer.advance(Event::Text { text: "name: n\ndescription: d\n".to_string() });
    let meta = installer.about().unwrap();
    assert_eq!((meta.name.as_str(), meta.description.as_str()), ("n", "d"));
}
