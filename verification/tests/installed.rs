use spk::control::ControlMeta;
use spk::database::{
    archive_members, find_dependents, installed_db_dir, installed_db_path, is_installed,
    list_installed_names, parse_depends, parse_members, read_installed, write_installed_record,
    InstalledPkg,
};
use spk::depends::{cmd_depends, TreeKind};
use spk::remove::{cmd_remove, confirms, is_yes, removal_steps, Removal, RemoveStep};
use spk::system::{
    build_exit, cmd_build_image, find_spk_compile, is_root, is_smechvisor, target_root,
};

fn strings(v: &[&str]) -> Vec<String> {
    v.iter().map(|s| s.to_string()).collect()
}

fn pkg(name: &str, depends: &str, files: &[&str]) -> InstalledPkg {
    InstalledPkg {
        name: name.to_string(),
        version: "1".to_string(),
        depends: depends.to_string(),
        files: strings(files),
    }
}

#[test]
fn the_database_lies_below_its_root() {
    assert_eq!(installed_db_dir("/"), "/var/lib/spk/installed");
    assert_eq!(installed_db_dir("/mnt/smechos/"), "/mnt/smechos/var/lib/spk/installed");
    assert_eq!(installed_db_path("/r", "p"), "/r/var/lib/spk/installed/p");
    let there = strings(&["/var/lib/spk/installed/p"]);
    assert!(is_installed("/", "p", &there));
    assert!(!is_installed("/", "q", &there));
    assert!(!is_installed("/r", "p", &there));
}

#[test]
fn a_record_reads_back() {
    let meta = ControlMeta {
        name: "p".to_string(),
        version: "1.2".to_string(),
        architecture: "x86_64".to_string(),
        depends: "a, b (>= 2)".to_string(),
        description: "d".to_string(),
    };
    let files = strings(&["usr/bin/p", "usr/share/a b", "files:", "x: y"]);
    let w = write_installed_record("/r/", &meta, &files);
    assert_eq!(w.dir, "/r/var/lib/spk/installed");
    assert_eq!(w.path, "/r/var/lib/spk/installed/p");
    assert_eq!(
        w.content,
        "version: 1.2\narchitecture: x86_64\ndepends: a, b (>= 2)\nfiles:\n\
         usr/bin/p\nusr/share/a b\nfiles:\nx: y\n"
    );
    let p = read_installed("p", &w.content);
    assert_eq!(p.name, "p");
    assert_eq!(p.version, "1.2");
    assert_eq!(p.depends, "a, b (>= 2)");
    assert_eq!(p.files, files);
}

#[test]
fn a_record_without_files_has_none() {
    let p = read_installed("p", "version: 1\n\ndepends:\n");
    assert_eq!(p.files.len(), 0);
    assert_eq!(p.version, "1");
    let p = read_installed("p", "  files:  \n\na\n\nb");
    assert_eq!(p.files, strings(&["a", "b"]));
}

#[test]
fn directories_are_no_members() {
    let text = "./\n.\nusr/\n./usr/bin/a\n././b\nc\n \n\n.hidden\n";
    assert_eq!(parse_members(text), strings(&["usr/bin/a", "b", "c", ".hidden"]));
    assert_eq!(parse_members("usr/x\n"), parse_members("./usr/x\n"));
}

#[test]
fn members_that_are_no_text_are_kept_as_well_as_can_be() {
    assert_eq!(archive_members(&b"./a\nb\xffc\n".to_vec()), strings(&["a", "b\u{fffd}c"]));
    assert_eq!(archive_members(&"./\u{e9}\n".as_bytes().to_vec()), strings(&["\u{e9}"]));
}

#[test]
fn dependencies_are_names() {
    assert_eq!(
        parse_depends(" qt6-base (>= 6.10.0), b ,, (x), c(1)d"),
        strings(&["qt6-base", "b", "", "c"])
    );
    assert!(parse_depends("").is_empty());
    assert!(parse_depends(" , ").is_empty());
}

#[test]
fn dependents_are_found() {
    let db = vec![pkg("a", "b, c", &[]), pkg("b", "b", &[]), pkg("d", "b (>= 1)", &[])];
    assert_eq!(find_dependents(&db, "b"), strings(&["a", "d"]));
    assert_eq!(find_dependents(&db, "c"), strings(&["a"]));
    assert!(find_dependents(&db, "x").is_empty());
}

#[test]
fn names_are_listed_in_order() {
    let v = strings(&["b", "a", "\u{e9}", "B", "ab", "a"]);
    let mut sorted = v.clone();
    sorted.sort();
    assert_eq!(list_installed_names(&v), sorted);
    assert!(list_installed_names(&Vec::new()).is_empty());
}

#[test]
fn a_file_that_others_have_stays() {
    let db = vec![
        pkg("p", "", &["usr/lib/shared", "usr/bin/p", "q"]),
        pkg("o", "", &["usr/lib/shared", "x"]),
    ];
    let record = "version: 3\nfiles:\nusr/lib/shared\nusr/bin/p\nq\n";
    match cmd_remove(Some(record), "p", &db, false) {
        Removal::Planned { package, dependents, delete, keep } => {
            assert_eq!(package.version, "3");
            assert!(dependents.is_empty());
            assert_eq!(delete, strings(&["usr/bin/p", "q"]));
            assert_eq!(keep, strings(&["usr/lib/shared"]));
        }
        _ => panic!(),
    }
}

#[test]
fn a_package_that_is_needed_stays_unless_forced() {
    let db = vec![pkg("p", "", &["a"]), pkg("o", "p (>= 2)", &[])];
    match cmd_remove(Some("files:\na\n"), "p", &db, false) {
        Removal::Refused { dependents } => assert_eq!(dependents, strings(&["o"])),
        _ => panic!(),
    }
    match cmd_remove(Some("files:\na\n"), "p", &db, true) {
        Removal::Planned { dependents, delete, .. } => {
            assert_eq!(dependents, strings(&["o"]));
            assert_eq!(delete, strings(&["a"]));
        }
        _ => panic!(),
    }
    assert!(matches!(cmd_remove(None, "p", &db, true), Removal::NotInstalled));
}

#[test]
fn a_removal_undoes_an_installation() {
    let meta = spk::control::parse_control("name: p\nversion: 1 # new\n");
    let files = parse_members("./\n./usr/\n./usr/bin/p\n./usr/lib/s\n");
    let w = write_installed_record("/", &meta, &files);
    let db = vec![read_installed("p", &w.content), pkg("o", "", &["usr/lib/s"])];
    match cmd_remove(Some(&w.content), "p", &db, false) {
        Removal::Planned { delete, keep, .. } => {
            assert_eq!(delete, strings(&["usr/bin/p"]));
            assert_eq!(keep, strings(&["usr/lib/s"]));
        }
        _ => panic!(),
    }
}

#[test]
fn only_a_yes_confirms() {
    for s in ["y", "Y", " y\n", "\tY \r\n"] {
        assert!(confirms(s), "{s:?}");
    }
    for s in ["", "\n", "yes", "n", "yy", "\u{fd}", "Yes"] {
        assert!(!confirms(s), "{s:?}");
    }
    assert!(is_yes("y"));
    assert!(!is_yes("Y"));
}

#[test]
fn files_go_between_the_scripts_and_the_record_last() {
    let steps: Vec<String> = removal_steps("/", "p", &strings(&["usr/bin/p", "b"]))
        .iter()
        .map(|s| match s {
            RemoveStep::Hook { name, path } => format!("run {name}: {path}"),
            RemoveStep::Delete { path } => format!("delete {path}"),
        })
        .collect();
    assert_eq!(
        steps,
        strings(&[
            "run prerm: /var/lib/spk/installed/p.prerm",
            "delete /usr/bin/p",
            "delete /b",
            "run postrm: /var/lib/spk/installed/p.postrm",
            "delete /var/lib/spk/installed/p.prerm",
            "delete /var/lib/spk/installed/p.postrm",
            "delete /var/lib/spk/installed/p",
        ])
    );
    match &removal_steps("/mnt/x//", "p", &strings(&["f"]))[1] {
        RemoveStep::Delete { path } => assert_eq!(path, "/mnt/x/f"),
        _ => panic!(),
    }
}

/// Draws the tree of a package, given the records that there are.
fn draw(name: &str, records: &[(&str, &str)]) -> Vec<String> {
    let mut tree = cmd_depends(name);
    let mut asked: Vec<String> = Vec::new();
    while let Some(next) = tree.request() {
        assert!(!asked.contains(&next));
        let text = records.iter().find(|r| r.0 == next).map(|r| r.1);
        asked.push(next);
        tree.read(text);
    }
    tree.lines()
        .iter()
        .map(|l| {
            let mark = match l.kind {
                TreeKind::Installed => "+",
                TreeKind::Missing => "-",
                TreeKind::Repeated => "*",
            };
            format!("{}{mark}{} {}", "  ".repeat(l.depth), l.name, l.version)
        })
        .collect()
}

#[test]
fn a_tree_shows_each_package_once() {
    let records = [
        ("a", "version: 1\ndepends: b, c, d\n"),
        ("b", "version: 2\ndepends: c\n"),
        ("c", "version: 3\ndepends: a\n"),
    ];
    assert_eq!(
        draw("a", &records),
        strings(&["+a 1", "  +b 2", "    +c 3", "      *a ", "  *c ", "  -d "])
    );
    assert_eq!(draw("x", &records), strings(&["-x "]));
    assert_eq!(draw("s", &[("s", "depends: s, s\n")]), strings(&["+s ", "  *s ", "  *s "]));
}

#[test]
fn systems_are_told_apart() {
    assert_eq!(target_root(&strings(&["/mnt/smechos"])), "/mnt/smechos");
    assert_eq!(target_root(&strings(&["/mnt"])), "/");
    assert!(is_smechvisor(&strings(&["/usr/bin/smechvisord"])));
    assert!(is_smechvisor(&strings(&["/etc/smechvisor-release"])));
    assert!(!is_smechvisor(&strings(&["/etc"])));
}

#[test]
fn root_is_the_user_with_number_zero() {
    assert!(is_root(Some(b"0\n".to_vec())));
    assert!(!is_root(Some(b"1000\n".to_vec())));
    assert!(!is_root(Some(b"0\xff".to_vec())));
    assert!(!is_root(Some("\u{660}".as_bytes().to_vec())));
    assert!(!is_root(None));
}

#[test]
fn the_image_builder_is_found_and_run() {
    let a = "/usr/share/spk/spk-compile.py";
    let b = "/opt/smechdeploy/spk-compile.py";
    let c = "spk-compile.py";
    assert_eq!(find_spk_compile(&strings(&[c, b, a])), Some(a.to_string()));
    assert_eq!(find_spk_compile(&strings(&[c, b])), Some(b.to_string()));
    assert_eq!(find_spk_compile(&strings(&[c])), Some(c.to_string()));
    assert_eq!(find_spk_compile(&Vec::new()), None);
    assert_eq!(
        cmd_build_image(&strings(&[c]), &strings(&["iso", "shim"])),
        Some(strings(&[c, "iso", "shim"]))
    );
    assert_eq!(cmd_build_image(&Vec::new(), &strings(&["x"])), None);
    assert_eq!(build_exit(true, Some(0)), 0);
    assert_eq!(build_exit(false, Some(7)), 7);
    assert_eq!(build_exit(false, None), 1);
}
