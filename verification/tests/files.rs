use spk::cli::looks_like_local_path;
use spk::control::parse_control;
use spk::repo::parse_repo_conf;

#[test]
fn parses_multiple_repos_with_priority_order() {
    let yaml = r#"
repos:
  - name: primary
    url: https://pkg.smech.xyz
    priority: 1
  - name: github-fallback
    url: https://github.com/Smech-Labs/SmechDeploy/releases/download/v1.0.0-packages
    priority: 50
  - name: sketchy-mirror
    url: http://example.com/mirror
    priority: 100
"#;
    let mut repos = parse_repo_conf(yaml);
    assert_eq!(repos.len(), 3);
    repos.sort_by_key(|r| r.priority);
    assert_eq!(repos[0].name, "primary");
    assert_eq!(repos[0].priority, 1);
    assert_eq!(repos[1].name, "github-fallback");
    assert_eq!(repos[1].priority, 50);
    assert_eq!(repos[2].name, "sketchy-mirror");
    assert_eq!(repos[2].priority, 100);
}

#[test]
fn defaults_missing_priority_to_50() {
    let yaml = r#"
repos:
  - name: no-priority
    url: https://example.com
"#;
    let repos = parse_repo_conf(yaml);
    assert_eq!(repos.len(), 1);
    assert_eq!(repos[0].priority, 50);
}

#[test]
fn ignores_comments_and_blank_lines() {
    let yaml = r#"
# top comment
repos:
  # a comment inside the list too
  - name: one

    url: https://example.com/one
    priority: 5
"#;
    let repos = parse_repo_conf(yaml);
    assert_eq!(repos.len(), 1);
    assert_eq!(repos[0].name, "one");
    assert_eq!(repos[0].url, "https://example.com/one");
    assert_eq!(repos[0].priority, 5);
}

#[test]
fn handles_quoted_values() {
    let yaml = r#"
repos:
  - name: "quoted"
    url: 'https://example.com/single'
    priority: 3
"#;
    let repos = parse_repo_conf(yaml);
    assert_eq!(repos[0].name, "quoted");
    assert_eq!(repos[0].url, "https://example.com/single");
}

#[test]
fn empty_input_yields_no_repos() {
    assert!(parse_repo_conf("").is_empty());
    assert!(parse_repo_conf("some: other\nyaml: entirely").is_empty());
}

#[test]
fn single_repo_no_list_wrapper_needed() {
    let yaml = r#"
repos:
  - name: only
    url: https://pkg.smech.xyz
    priority: 1
"#;
    let repos = parse_repo_conf(yaml);
    assert_eq!(repos.len(), 1);
    assert_eq!(repos[0].url, "https://pkg.smech.xyz");
}

#[test]
fn parses_control_file() {
    let text = "name: kcoreaddons\nversion: 6.24.0\narchitecture: x86_64\ndepends: qt6-base\ndescription: KDE Frameworks - KCoreAddons\n";
    let m = parse_control(text);
    assert_eq!(m.name, "kcoreaddons");
    assert_eq!(m.version, "6.24.0");
    assert_eq!(m.architecture, "x86_64");
    assert_eq!(m.depends, "qt6-base");
    assert_eq!(m.description, "KDE Frameworks - KCoreAddons");
}

#[test]
fn control_file_ignores_comments() {
    let text = "# a comment\nname: foo\n# depends: ignored\nversion: 1.0\n";
    let m = parse_control(text);
    assert_eq!(m.name, "foo");
    assert_eq!(m.version, "1.0");
    assert!(m.depends.is_empty());
}

#[test]
fn detects_local_paths() {
    assert!(looks_like_local_path("./foo.spkg"));
    assert!(looks_like_local_path("/home/smech/foo.spkg"));
    assert!(looks_like_local_path("~/foo.spkg"));
    assert!(looks_like_local_path("foo.spkg"));
    assert!(looks_like_local_path("foo.tar.xz"));
    assert!(!looks_like_local_path("firefox"));
    assert!(!looks_like_local_path("kde-frameworks"));
}
