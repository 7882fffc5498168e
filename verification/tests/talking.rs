use spk::cli::{parse_arguments, Command, UsageError};
use spk::commands::{
    assemble_command, extract_command, fetch_command, list_command, make_dir_as_root_command,
    pack_command, receive_command, remove_as_root_command, unpack_command, write_as_root_command,
    CommandLine,
};
use spk::deploy::{
    announce, announces, deploy_file, deploy_packages, gen_code, is_announcement,
};
use spk::packagekit::{cmd_packagekit_backend, PkAnswer};
use spk::receive::{cmd_receive_deploy, ReceiveEffect, ReceiveEvent};
use spk::repo::Repo;
use spk::send::{cmd_deploy_to, SendEffect, SendEvent};
use spk::wire::{frame_header, read_be, stream_end};

fn strings(v: &[&str]) -> Vec<String> {
    v.iter().map(|s| s.to_string()).collect()
}

fn shown(c: CommandLine) -> String {
    format!("{} {}", c.program, c.arguments.join("|"))
}

#[test]
fn tools_are_called() {
    assert_eq!(shown(fetch_command("u", "d")), "curl -sfL|-o|d|u");
    assert_eq!(shown(unpack_command("a", "d")), "tar -xf|a|-C|d");
    assert_eq!(shown(extract_command("a", "r", true)), "sh -c|tar -xf 'a' -C 'r'");
    assert_eq!(shown(extract_command("a", "r", false)), "sudo -S|sh|-c|tar -xf 'a' -C 'r'");
    assert_eq!(shown(list_command("a")), "tar -tf|a");
    assert_eq!(shown(pack_command("a", "d")), "tar -cJf|a|-C|d|.");
    assert_eq!(shown(assemble_command("a", "d")), "tar -cf|a|-C|d|control.tar.xz|data.tar.xz");
    assert_eq!(shown(receive_command("d")), "tar -xJf|-|-C|d");
    assert_eq!(shown(write_as_root_command("p")), "sudo -S|tee|p");
    assert_eq!(shown(remove_as_root_command("p")), "sudo -S|rm|-f|p");
    assert_eq!(shown(make_dir_as_root_command("p")), "sudo -S|mkdir|-p|p");
}

#[test]
fn a_code_has_seven_digits() {
    for (t, pid) in [(0u128, 0u32), (1, 0), (0x1234_5678_9abc_def0, 4711), (u128::MAX, u32::MAX)] {
        let code = gen_code(t, pid);
        assert_eq!(code, format!("{:07x}", (t ^ ((pid as u128) << 17)) & 0x0FFF_FFFF));
        assert_eq!(code.len(), 7);
    }
}

#[test]
fn a_machine_is_found_by_its_code() {
    let code = gen_code(99, 3);
    let message = announce(&code);
    assert_eq!(message, format!("SMECHVISOR_SHIM:{code}"));
    assert!(is_announcement(message.as_bytes(), &code));
    assert!(is_announcement(format!(" {message}\n").as_bytes(), &code));
    assert!(!is_announcement(message.as_bytes(), "0000000"));
    assert!(!is_announcement(b"SMECHVISOR_SHIM:\xff", "x"));
    assert!(is_announcement(b"SMECHVISOR_SHIM:\xff", "\u{fffd}"));
    assert!(announces("SMECHVISOR_SHIM:x ", "x"));
    assert!(!announces("SMECHVISOR_SHIM", "x"));
}

#[test]
fn the_packages_of_a_deployment() {
    assert_eq!(deploy_packages(), strings(&["smechvisor-base", "smechvisor-daemon"]));
    assert_eq!(deploy_file("p"), "/tmp/spk-deploy-p.tar.xz");
}

#[test]
fn numbers_have_their_highest_byte_first() {
    assert_eq!(read_be(&[]), 0);
    assert_eq!(read_be(&[1, 2, 3, 4]), 0x0102_0304);
    assert_eq!(read_be(&[255; 8]), u64::MAX);
    assert_eq!(stream_end(), vec![0, 0, 0, 0]);
    assert_eq!(
        frame_header("\u{e9}p", 0x0102),
        vec![0, 0, 0, 3, 0xc3, 0xa9, b'p', 0, 0, 0, 0, 0, 0, 1, 2]
    );
}

/// Receives a stream in pieces of at most so many bytes; the packages that arrive, and
/// whether the stream broke off.
fn receive(stream: &[u8], piece: usize) -> (Vec<(String, Vec<u8>)>, bool) {
    let mut receiver = cmd_receive_deploy();
    let mut at = 0;
    let mut got: Vec<(String, Vec<u8>)> = Vec::new();
    loop {
        let event = match receiver.effect() {
            ReceiveEffect::Read { count } => {
                if at + count <= stream.len() {
                    at += count;
                    ReceiveEvent::Bytes { bytes: stream[at - count..at].to_vec() }
                } else {
                    ReceiveEvent::Missing
                }
            }
            ReceiveEffect::Start { name, .. } => {
                got.push((name, Vec::new()));
                ReceiveEvent::Done
            }
            ReceiveEffect::Pass { limit } => {
                assert!(limit <= 65536);
                let n = limit.min(piece).min(stream.len() - at);
                got.last_mut().unwrap().1.extend_from_slice(&stream[at..at + n]);
                at += n;
                ReceiveEvent::Passed { count: n }
            }
            ReceiveEffect::End { name } => {
                assert_eq!(name, got.last().unwrap().0);
                ReceiveEvent::Done
            }
            ReceiveEffect::Over => return (got, false),
            ReceiveEffect::Broken => return (got, true),
        };
        receiver.advance(event);
    }
}

#[test]
fn what_is_sent_is_received() {
    let big = vec![7u8; 200_000];
    let mut stream = frame_header("base", 3);
    stream.extend_from_slice(b"abc");
    stream.extend(frame_header("empty", 0));
    stream.extend(frame_header("big", big.len() as u64));
    stream.extend_from_slice(&big);
    stream.extend(stream_end());
    stream.extend_from_slice(b"more");
    for piece in [1, 1000, 1_000_000] {
        let (got, broken) = receive(&stream, piece);
        assert!(!broken);
        assert_eq!(
            got,
            vec![
                ("base".to_string(), b"abc".to_vec()),
                ("empty".to_string(), Vec::new()),
                ("big".to_string(), big.clone()),
            ]
        );
    }
}

#[test]
fn a_stream_that_breaks_off_is_noticed() {
    let mut stream = frame_header("p", 5);
    stream.extend_from_slice(b"ab");
    let (got, broken) = receive(&stream, 10);
    assert_eq!((got, broken), (vec![("p".to_string(), b"ab".to_vec())], false));
    assert_eq!(receive(&stream[..3], 10), (vec![], false));
    assert_eq!(receive(&stream[..4], 10), (vec![], false));
    assert_eq!(receive(&stream[..9], 10), (vec![], true));
    assert_eq!(receive(&[], 10), (vec![], false));
    let odd = [&[0, 0, 0, 1, 0xff][..], &[0; 8][..], &[0; 4][..]].concat();
    assert_eq!(receive(&odd, 10).0[0].0, "\u{fffd}");
}

/// Deploys to a machine; what goes over the network, and what is done besides. The files of
/// the given names can be fetched.
fn deploy(code: &str, heard: &[&str], files: &[(&str, &[u8])]) -> (Vec<u8>, Vec<String>) {
    let mut sender = cmd_deploy_to(code);
    let mut heard = heard.iter();
    let mut sent = Vec::new();
    let mut done = Vec::new();
    let mut data: Vec<u8> = Vec::new();
    loop {
        if let Some(p) = sender.skipped() {
            done.push(format!("skipped {p}"));
        }
        let event = match sender.effect() {
            SendEffect::Listen => match heard.next() {
                Some(h) => SendEvent::Datagram { bytes: h.as_bytes().to_vec() },
                None => SendEvent::Timeout,
            },
            SendEffect::Connect => {
                done.push("connect".to_string());
                SendEvent::Done
            }
            SendEffect::LoadRepos { package } => {
                done.push(format!("look for {package}"));
                SendEvent::Repos {
                    repos: ["https://x", "https://y/"]
                        .iter()
                        .map(|u| Repo { name: "r".to_string(), url: u.to_string(), priority: 1 })
                        .collect(),
                }
            }
            SendEffect::Fetch { attempt, dest } => {
                done.push(format!("{} to {dest}", attempt.url));
                SendEvent::Outcome { ok: files.iter().any(|f| f.0 == attempt.url) }
            }
            SendEffect::Read { path } => {
                let name = path.trim_start_matches("/tmp/spk-deploy-");
                data = files.iter().find(|f| f.0.ends_with(name)).unwrap().1.to_vec();
                SendEvent::Size { size: data.len() as u64 }
            }
            SendEffect::Send { package, head } => {
                done.push(format!("send {package}"));
                sent.extend(head);
                sent.extend_from_slice(&data);
                SendEvent::Done
            }
            SendEffect::Finish { bytes } => {
                sent.extend(bytes);
                SendEvent::Done
            }
            SendEffect::Over => return (sent, done),
            SendEffect::TimedOut => {
                done.push("timed out".to_string());
                return (sent, done);
            }
        };
        sender.advance(event);
    }
}

#[test]
fn a_deployment_arrives() {
    let (sent, done) = deploy(
        "abc",
        &["noise", "SMECHVISOR_SHIM:abd", "SMECHVISOR_SHIM:abc\n", "late"],
        &[
            ("https://y/smechvisor-base.tar.xz", b"base data"),
            ("https://x/smechvisor-daemon.tar.xz", b"d"),
        ],
    );
    assert_eq!(
        done,
        strings(&[
            "connect",
            "look for smechvisor-base",
            "https://x/smechvisor-base.tar.xz to /tmp/spk-deploy-smechvisor-base.tar.xz",
            "https://y/smechvisor-base.tar.xz to /tmp/spk-deploy-smechvisor-base.tar.xz",
            "send smechvisor-base",
            "look for smechvisor-daemon",
            "https://x/smechvisor-daemon.tar.xz to /tmp/spk-deploy-smechvisor-daemon.tar.xz",
            "send smechvisor-daemon",
        ])
    );
    assert_eq!(
        receive(&sent, 4),
        (
            vec![
                ("smechvisor-base".to_string(), b"base data".to_vec()),
                ("smechvisor-daemon".to_string(), b"d".to_vec()),
            ],
            false
        )
    );
}

#[test]
fn a_package_that_cannot_be_fetched_is_left_out() {
    let (sent, done) = deploy(
        "c",
        &["SMECHVISOR_SHIM:c"],
        &[("https://x/smechvisor-daemon.tar.xz", b"")],
    );
    assert!(done.contains(&"skipped smechvisor-base".to_string()));
    assert_eq!(receive(&sent, 1).0, vec![("smechvisor-daemon".to_string(), Vec::new())]);
    let (sent, done) = deploy("c", &["SMECHVISOR_SHIM:c"], &[]);
    assert!(done.contains(&"skipped smechvisor-daemon".to_string()));
    assert_eq!(sent, stream_end());
}

#[test]
fn nothing_is_sent_without_an_announcement() {
    assert_eq!(
        deploy("c", &["SMECHVISOR_SHIM:d"], &[]),
        (Vec::new(), vec!["timed out".to_string()])
    );
}

fn reply(line: &str, visor: bool) -> Vec<String> {
    match cmd_packagekit_backend(line, visor) {
        PkAnswer::Reply { lines } => lines,
        _ => panic!(),
    }
}

#[test]
fn packagekit_lists_packages() {
    let lines = reply("get-packages\tx", true);
    assert_eq!(
        lines,
        strings(&[
            "status\tquery",
            "package\tavailable\tsmechvisor-daemon;2.0.0;x86_64;smechvisor\tSmech Labs package: smechvisor-daemon",
            "package\tavailable\tsmechvisor-base;2.0.0;x86_64;smechvisor\tSmech Labs package: smechvisor-base",
            "finished",
        ])
    );
    let lines = reply("  get-updates ", false);
    assert_eq!(lines.len(), 12);
    assert_eq!(lines[1], "package\tavailable\tbase-system;2.0.0;x86_64;smechos\tUpdate available: base-system");
    assert_eq!(reply("update-packages", false), lines);
}

#[test]
fn packagekit_looks_packages_up() {
    assert_eq!(
        reply("resolve\tnone\tqt6\trest\tmore\tand more", false),
        strings(&[
            "status\tquery",
            "package\tavailable\tqt6;2.0.0;x86_64;smechos\tSmech Labs package: qt6",
            "finished",
        ])
    );
    assert_eq!(
        reply("resolve\tnone\tqt6", true)[1],
        "error\tpackage-not-found\tPackage 'qt6' not found in SPK repos"
    );
    assert_eq!(
        reply("resolve", true)[1],
        "error\tpackage-not-found\tPackage '' not found in SPK repos"
    );
}

#[test]
fn packagekit_installs_packages() {
    match cmd_packagekit_backend("install-packages\t0\tqt6;2.0.0;x86_64;smechos", false) {
        PkAnswer::Install { package, first, success, failure } => {
            assert_eq!(package, "qt6");
            assert_eq!(
                first,
                strings(&[
                    "status\tinstall",
                    "package\tinstalling\tqt6;2.0.0;x86_64;smechos\tInstalling qt6...",
                    "progress\t10",
                ])
            );
            assert_eq!(
                success,
                strings(&[
                    "progress\t100",
                    "package\tinstalled\tqt6;2.0.0;x86_64;smechos\tqt6 installed",
                    "finished",
                ])
            );
            assert_eq!(
                failure,
                strings(&["error\tpackage-install-failed\tFailed to install qt6", "finished"])
            );
        }
        _ => panic!(),
    }
}

#[test]
fn packagekit_is_answered_in_any_case() {
    assert_eq!(
        reply("remove-packages\tx\ty", false),
        strings(&[
            "error\tnot-supported\tSPK does not support package removal in this version",
            "finished",
        ])
    );
    assert_eq!(reply("refresh-cache", false), strings(&["status\trefresh-cache", "finished"]));
    assert_eq!(
        reply("get-repo-list", false),
        strings(&[
            "status\tquery",
            "repo-detail\tsmechos\tSmech Labs Package Repository\ttrue",
            "finished",
        ])
    );
    assert_eq!(
        reply("dance\tx", false),
        strings(&["error\tnot-supported\tUnknown command: dance", "finished"])
    );
    for line in ["quit", " quit\tnow", "", "  \t "] {
        assert!(matches!(cmd_packagekit_backend(line, false), PkAnswer::Quit), "{line:?}");
    }
}

fn parse(args: &[&str]) -> Result<Command, UsageError> {
    parse_arguments(&strings(args))
}

#[test]
fn commands_are_understood() {
    for args in [&[][..], &["help"], &["--help", "x"], &["-h"]] {
        assert!(matches!(parse(args), Ok(Command::Help)));
    }
    for a in ["version", "--version", "-v"] {
        assert!(matches!(parse(&[a]), Ok(Command::Version)));
    }
    assert!(matches!(parse(&["about"]), Ok(Command::About)));
    assert!(matches!(parse(&["list", "x"]), Ok(Command::List)));
    assert!(matches!(parse(&["receive-deploy"]), Ok(Command::ReceiveDeploy)));
    assert!(matches!(parse(&["packagekit-backend"]), Ok(Command::PackagekitBackend)));
    assert!(matches!(
        parse(&["system-upgrade"]),
        Ok(Command::SystemUpgrade { renamed: false })
    ));
    assert!(matches!(
        parse(&["entire-system-upgrade"]),
        Ok(Command::SystemUpgrade { renamed: true })
    ));
    assert!(matches!(parse(&["depends", "p"]), Ok(Command::Depends { package }) if package == "p"));
    assert!(matches!(parse(&["depends"]), Err(UsageError::NoPackageToShow)));
    assert!(matches!(
        parse(&["deploy-system-img-copy", "c"]),
        Ok(Command::Deploy { code }) if code == "c"
    ));
    assert!(matches!(parse(&["deploy-system-img-copy"]), Err(UsageError::NoCode)));
    assert!(matches!(
        parse(&["local-package-repo", "f"]),
        Ok(Command::LocalPackageRepo { folder }) if folder == "f"
    ));
    assert!(matches!(parse(&["local-package-repo"]), Err(UsageError::NoFolder)));
    assert!(matches!(
        parse(&["build-image", "iso", "shim"]),
        Ok(Command::BuildImage { arguments }) if arguments == strings(&["iso", "shim"])
    ));
    assert!(matches!(
        parse(&["create-live-image", "o", "a", "b"]),
        Ok(Command::CreateLiveImage { out, extra }) if out == "o" && extra == strings(&["a", "b"])
    ));
    assert!(matches!(parse(&["create-live-image"]), Err(UsageError::NoOutput)));
    assert!(matches!(
        parse(&["dance"]),
        Err(UsageError::Unknown { command }) if command == "dance"
    ));
}

#[test]
fn files_are_installed_by_their_flag_only() {
    assert!(matches!(
        parse(&["install", "foo"]),
        Ok(Command::Install { package, alias: None }) if package == "foo"
    ));
    assert!(matches!(
        parse(&["install", "foo", "--local-package", "./x.spkg"]),
        Ok(Command::InstallLocal { path, alias: None }) if path == "./x.spkg"
    ));
    assert!(matches!(
        parse(&["install", "--local-package"]),
        Err(UsageError::NoPath { alias: None })
    ));
    assert!(matches!(parse(&["install"]), Err(UsageError::NoPackage { alias: None })));
    for p in ["./x.spkg", "x.spkg", "/x", "~x", "a.tar.xz", ".x"] {
        assert!(matches!(
            parse(&["install", p]),
            Err(UsageError::LocalPath { path, alias: None }) if path == p
        ));
    }
    assert!(matches!(
        parse(&["system-install", "foo"]),
        Ok(Command::Install { package, alias: Some(a) }) if package == "foo" && a == "system-install"
    ));
    assert!(matches!(
        parse(&["userland-install"]),
        Err(UsageError::NoPackage { alias: Some(a) }) if a == "userland-install"
    ));
}

#[test]
fn older_names_follow_the_same_rules() {
    for name in ["system-install", "userland-install"] {
        assert!(matches!(
            parse(&[name, "foo"]),
            Ok(Command::Install { package, alias: Some(a) }) if package == "foo" && a == name
        ));
        assert!(matches!(
            parse(&[name, "./foo.spkg"]),
            Err(UsageError::LocalPath { path, alias: Some(a) }) if path == "./foo.spkg" && a == name
        ));
        assert!(matches!(
            parse(&[name, "--local-package", "./foo.spkg"]),
            Ok(Command::InstallLocal { path, alias: Some(a) }) if path == "./foo.spkg" && a == name
        ));
        assert!(matches!(
            parse(&[name, "--local-package"]),
            Err(UsageError::NoPath { alias: Some(a) }) if a == name
        ));
        assert!(matches!(
            parse(&[name]),
            Err(UsageError::NoPackage { alias: Some(a) }) if a == name
        ));
    }
}

#[test]
fn flags_stand_anywhere() {
    assert!(matches!(
        parse(&["remove", "-y", "p", "--force"]),
        Ok(Command::Remove { package, force: true, yes: true }) if package == "p"
    ));
    assert!(matches!(
        parse(&["uninstall", "p", "--yes"]),
        Ok(Command::Remove { package, force: false, yes: true }) if package == "p"
    ));
    assert!(matches!(parse(&["remove", "-y"]), Err(UsageError::NoPackageToRemove)));
    assert!(matches!(
        parse(&["compile", "r"]),
        Ok(Command::Compile { recipe, output: None }) if recipe == "r"
    ));
    assert!(matches!(
        parse(&["compile", "r", "-o", "x"]),
        Ok(Command::Compile { recipe, output: Some(o) }) if recipe == "r" && o == "x"
    ));
    assert!(matches!(
        parse(&["compile", "r", "--output"]),
        Ok(Command::Compile { output: None, .. })
    ));
    assert!(matches!(parse(&["compile"]), Err(UsageError::NoRecipe)));
    assert!(matches!(parse(&["compile", "-o"]), Err(UsageError::NoRecipe)));
}
