use spk::control::{parse_control, render_control, ControlMeta};
use spk::fetch::{
    fetch_package, fetch_package_ext, fetch_repo_index, parse_index, repo_file_url, IndexStep,
};
use spk::local_repo::{cmd_local_package_repo, render_repo_conf, set_local_repo};
use spk::number::{digit_char, parse_byte, push_decimal, push_hex};
use spk::repo::{default_repos, load_repos, parse_repo_conf, sort_by_priority, Repo};
use spk::text::{
    chars_of, cut_once, ends_with, equal, find, has_char, has_text, is_text, space, split,
    split_lines, starts_with, string_of, strip_leading, strip_trailing, take_before, trim,
    trim_end, trim_start,
};

fn repo(name: &str, url: &str, priority: u8) -> Repo {
    Repo { name: name.to_string(), url: url.to_string(), priority }
}

fn names(repos: &[Repo]) -> Vec<String> {
    repos.iter().map(|r| r.name.clone()).collect()
}

#[test]
fn white_space_is_that_of_unicode() {
    for u in 0..=0x10ffffu32 {
        if let Some(c) = char::from_u32(u) {
            assert_eq!(space(c), c.is_whitespace(), "{u:x}");
        }
    }
}

#[test]
fn strings_go_to_characters_and_back() {
    let s = "häß\u{1f600}\0x";
    let v = chars_of(s);
    assert_eq!(v, s.chars().collect::<Vec<char>>());
    assert_eq!(string_of(&v), s);
    assert_eq!(string_of(&[]), "");
    assert!(is_text(&v, s));
    assert!(!is_text(&v, "hä"));
    assert!(equal("a", "a"));
    assert!(!equal("a", "b"));
    assert!(!equal("a", "aa"));
}

#[test]
fn cuts_are_those_of_std() {
    for s in ["", " ", "a", " a ", "\u{3000}a b\t\n", "a:b:c", ":", "//x//", "a\r", "\u{85}x"] {
        let v = chars_of(s);
        assert_eq!(string_of(trim(&v)), s.trim());
        assert_eq!(string_of(trim_start(&v)), s.trim_start());
        assert_eq!(string_of(trim_end(&v)), s.trim_end());
        assert_eq!(string_of(strip_leading(&v, '/')), s.trim_start_matches('/'));
        assert_eq!(string_of(strip_trailing(&v, '/')), s.trim_end_matches('/'));
        assert_eq!(string_of(take_before(&v, ':')), s.split(':').next().unwrap());
        assert_eq!(has_char(&v, ':'), s.contains(':'));
        assert_eq!(starts_with(&v, "a"), s.starts_with('a'));
        assert_eq!(ends_with(&v, "a"), s.ends_with('a'));
        assert_eq!(find(&v, ':'), s.chars().position(|c| c == ':').unwrap_or(v.len()));
        let pieces: Vec<String> = split(&v, ':').into_iter().map(string_of).collect();
        assert_eq!(pieces, s.split(':').collect::<Vec<&str>>());
        let cut = cut_once(&v, ':').map(|(a, b)| (string_of(a), string_of(b)));
        let std = s.split_once(':').map(|(a, b)| (a.to_string(), b.to_string()));
        assert_eq!(cut, std);
    }
}

#[test]
fn lines_are_those_of_std() {
    for s in ["", "\n", "a", "a\n", "a\r\n", "a\r", "a\r\r\nb", "\n\na\n\n", "x\ny", "\r\n"] {
        let v = chars_of(s);
        let got: Vec<String> = split_lines(&v).into_iter().map(string_of).collect();
        assert_eq!(got, s.lines().collect::<Vec<&str>>(), "{s:?}");
    }
}

#[test]
fn a_list_has_its_texts() {
    let v = vec!["a".to_string(), "b".to_string()];
    assert!(has_text(&v, "b"));
    assert!(!has_text(&v, "c"));
    assert!(!has_text(&Vec::new(), ""));
}

#[test]
fn numbers_are_written() {
    for n in [0u64, 7, 10, 255, 1_000, u64::MAX] {
        let mut s = "n".to_string();
        push_decimal(&mut s, n);
        assert_eq!(s, format!("n{n}"));
    }
    let mut s = String::new();
    push_hex(&mut s, 0xabc, 7);
    assert_eq!(s, "0000abc");
    assert_eq!(digit_char(9), '9');
    assert_eq!(digit_char(15), 'f');
}

#[test]
fn bytes_are_read_as_std_reads_them() {
    for s in ["", "+", "0", "+7", "-1", "255", "256", "0255", "00000000000000000001", "1 ", "a",
        "99999999999999999999999", "++1", "\u{663}"]
    {
        assert_eq!(parse_byte(&chars_of(s)), s.parse::<u8>().ok(), "{s:?}");
    }
}

#[test]
fn a_byte_reads_back() {
    for n in 0..=255u8 {
        let mut s = String::new();
        push_decimal(&mut s, n as u64);
        assert_eq!(parse_byte(&chars_of(&s)), Some(n));
    }
}

#[test]
fn a_control_file_reads_back() {
    let m = ControlMeta {
        name: "kcoreaddons".to_string(),
        version: "6.24.0".to_string(),
        architecture: "x86_64".to_string(),
        depends: "qt6-base (>= 6.10.0), b".to_string(),
        description: "KDE: a module".to_string(),
    };
    let text = render_control(&m);
    assert_eq!(
        text,
        "name: kcoreaddons\nversion: 6.24.0\narchitecture: x86_64\n\
         depends: qt6-base (>= 6.10.0), b\ndescription: KDE: a module\n"
    );
    let n = parse_control(&text);
    assert_eq!(n.name, m.name);
    assert_eq!(n.version, m.version);
    assert_eq!(n.architecture, m.architecture);
    assert_eq!(n.depends, m.depends);
    assert_eq!(n.description, m.description);
}

#[test]
fn the_last_value_of_a_key_counts() {
    let m = parse_control("name: a\r\nname : b # c\nother: x\nversion\n");
    assert_eq!(m.name, "b");
    assert_eq!(m.version, "");
}

#[test]
fn defaults_serve_where_nothing_is_configured() {
    let url = "https://github.com/Smech-Labs/SmechDeploy/releases/download/v1.0.0-packages";
    let d = default_repos();
    assert_eq!(d.len(), 1);
    assert_eq!(d[0].name, "default");
    assert_eq!(d[0].url, url);
    assert_eq!(d[0].priority, 1);
    let (r, unusable) = load_repos(None);
    assert_eq!((names(&r), unusable), (vec!["default".to_string()], false));
    let (r, unusable) = load_repos(Some("nothing here"));
    assert_eq!((names(&r), unusable), (vec!["default".to_string()], true));
}

#[test]
fn repositories_are_sorted_and_equal_ones_keep_their_order() {
    let rs = vec![
        repo("a", "u", 50),
        repo("b", "u", 1),
        repo("c", "u", 255),
        repo("d", "u", 50),
        repo("e", "u", 0),
    ];
    let sorted = sort_by_priority(&rs);
    assert_eq!(names(&sorted), vec!["e", "b", "a", "d", "c"]);
    assert_eq!(names(&sort_by_priority(&sorted)), names(&sorted));
    let conf = "repos:\n- name: x\n  url: u\n  priority: 9\n- name: y\n  url: u\n  priority: 2\n";
    assert_eq!(names(&load_repos(Some(conf)).0), vec!["y", "x"]);
}

#[test]
fn a_priority_that_is_no_byte_becomes_the_usual_one() {
    let rs = parse_repo_conf("repos:\n  - name: a\n    url: u\n    priority: 256\n");
    assert_eq!(rs[0].priority, 50);
}

#[test]
fn an_entry_without_url_is_left_out() {
    let rs = parse_repo_conf("repos:\n  - name: a\n  - name: b\n    url: u\n");
    assert_eq!(names(&rs), vec!["b"]);
}

#[test]
fn a_local_folder_is_asked_first() {
    let rs = vec![
        repo("smech-pkg", "https://pkg.smech.xyz", 1),
        repo("local", "file:///old", 1),
        repo("mirror", "https://m", 10),
    ];
    let with = set_local_repo(&rs, "/srv/pkgs");
    assert_eq!(names(&with), vec!["local", "smech-pkg", "mirror"]);
    assert_eq!(with[0].url, "file:///srv/pkgs");
    assert_eq!(with[0].priority, 1);
    let attempts = fetch_package_ext("foo", "spkg", &with);
    assert_eq!(attempts[0].url, "file:///srv/pkgs/foo.spkg");
}

#[test]
fn a_configuration_file_reads_back() {
    let rs = vec![repo("a", "https://a", 1), repo("b", "http://b/x", 100)];
    let text = render_repo_conf(&rs);
    assert_eq!(
        text,
        "repos:\n  - name: a\n    url: https://a\n    priority: 1\n  \
         - name: b\n    url: http://b/x\n    priority: 100\n"
    );
    let back = parse_repo_conf(&text);
    assert_eq!(names(&back), names(&rs));
    assert_eq!(back[1].url, "http://b/x");
    assert_eq!(back[1].priority, 100);
}

#[test]
fn a_local_folder_goes_into_the_configuration() {
    let (text, unusable) = cmd_local_package_repo(None, "/p");
    assert!(!unusable);
    let (rs, _) = load_repos(Some(&text));
    assert_eq!(names(&rs), vec!["local", "default"]);
    let (text, unusable) = cmd_local_package_repo(Some(&text), "/q");
    assert!(!unusable);
    let (rs, _) = load_repos(Some(&text));
    assert_eq!(names(&rs), vec!["local", "default"]);
    assert_eq!(rs[0].url, "file:///q");
    assert!(cmd_local_package_repo(Some(""), "/q").1);
}

#[test]
fn untrusted_repositories_are_a_last_resort() {
    let rs = vec![
        repo("shady", "http://s/", 100),
        repo("good", "https://g//", 1),
        repo("worse", "http://w", 200),
        repo("fine", "https://f", 99),
    ];
    let a = fetch_package(&"p".to_string(), &rs);
    let order: Vec<(String, bool)> = a.iter().map(|x| (x.url.clone(), x.trusted)).collect();
    assert_eq!(
        order,
        vec![
            ("https://g/p.tar.xz".to_string(), true),
            ("https://f/p.tar.xz".to_string(), true),
            ("http://s/p.tar.xz".to_string(), false),
            ("http://w/p.tar.xz".to_string(), false),
        ]
    );
    assert_eq!(repo_file_url("https://g//", "index.txt"), "https://g/index.txt");
}

#[test]
fn an_index_lists_the_first_word_of_each_line() {
    let names = parse_index("qt6-base 6.10\n\n  plasma\t6\n \nkf6\u{3000}x\n");
    assert_eq!(names, vec!["qt6-base", "plasma", "kf6"]);
}

#[test]
fn the_first_repository_with_an_index_serves() {
    let rs = vec![repo("a", "https://a/", 1), repo("b", "https://b", 2)];
    match fetch_repo_index(&rs, 0, None) {
        IndexStep::Ask { attempt } => assert_eq!(attempt.url, "https://a/index.txt"),
        _ => panic!(),
    }
    match fetch_repo_index(&rs, 1, None) {
        IndexStep::Ask { attempt } => assert_eq!(attempt.url, "https://b/index.txt"),
        _ => panic!(),
    }
    assert!(matches!(fetch_repo_index(&rs, 1, Some("\n \n")), IndexStep::Ask { .. }));
    match fetch_repo_index(&rs, 2, Some("p 1\nq 2\n")) {
        IndexStep::Found { repo, names } => {
            assert_eq!(repo, "b");
            assert_eq!(names, vec!["p", "q"]);
        }
        _ => panic!(),
    }
    assert!(matches!(fetch_repo_index(&rs, 2, None), IndexStep::NotFound));
}

#[test]
fn an_untrusted_index_is_asked_for_last_and_as_such() {
    let conf = "repos:\n  - name: shady\n    url: http://s/\n    priority: 100\n  \
                - name: good\n    url: https://g\n    priority: 1\n  \
                - name: fine\n    url: https://f\n    priority: 99\n";
    let (rs, _) = load_repos(Some(conf));
    let mut seen = Vec::new();
    for asked in 0..3 {
        match fetch_repo_index(&rs, asked, None) {
            IndexStep::Ask { attempt } => {
                seen.push((attempt.repo.name, attempt.trusted, attempt.url))
            }
            _ => panic!(),
        }
    }
    assert_eq!(
        seen,
        vec![
            ("good".to_string(), true, "https://g/index.txt".to_string()),
            ("fine".to_string(), true, "https://f/index.txt".to_string()),
            ("shady".to_string(), false, "http://s/index.txt".to_string()),
        ]
    );
    match fetch_repo_index(&rs, 3, Some("p\n")) {
        IndexStep::Found { repo, .. } => assert_eq!(repo, "shady"),
        _ => panic!(),
    }
}
