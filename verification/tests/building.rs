use spk::batch::failures;
use spk::compile::{
    cmd_compile_package, plan_package, Compile, CompileEffect, CompileOutcome, RecipeError,
};
use spk::control::parse_control;
use spk::image::{
    cmd_create_live_image, image_packages, FileAction, Image, ImageEffect, ImageOutcome,
};
use spk::recipe::{find_section, merge_sections, parse_recipe, split_recipe, Section};
use spk::upgrade::{cmd_system_upgrade, UpgradeEffect, UpgradeNotice};

const RECIPE: &str = "name: hello-spk\nversion: 1.0.0\ndepends:\ndescription: Example package\n\
    \n#--build--\ncc -O2 -o hello main.c\necho \"name: wrong\"\n\n\
    #--Install--\nmkdir -p \"$SPK_STAGE/usr/bin\"\n\n  #-- PostInst --  \necho \"installed\"\n";

fn strings(v: &[&str]) -> Vec<String> {
    v.iter().map(|s| s.to_string()).collect()
}

fn section(name: &str, body: &str) -> Section {
    Section { name: name.to_string(), body: body.to_string() }
}

fn body<'a>(ss: &'a Vec<Section>, name: &str) -> Option<&'a str> {
    let k = find_section(ss, name);
    ss.get(k).map(|s| s.body.as_str())
}

#[test]
fn a_recipe_has_a_header_and_scripts() {
    let (meta, ss) = parse_recipe(RECIPE);
    assert_eq!(meta.name, "hello-spk");
    assert_eq!(meta.version, "1.0.0");
    assert_eq!(meta.architecture, "");
    assert_eq!(ss.len(), 3);
    assert_eq!(body(&ss, "build"), Some("cc -O2 -o hello main.c\necho \"name: wrong\"\n\n"));
    assert_eq!(body(&ss, "install"), Some("mkdir -p \"$SPK_STAGE/usr/bin\"\n\n"));
    assert_eq!(body(&ss, "postinst"), Some("echo \"installed\"\n"));
    assert_eq!(body(&ss, "prerm"), None);
}

#[test]
fn markers_have_something_between_their_dashes() {
    let (head, bs) = split_recipe("a\n#----\n#-----\n#-- --\nx\r\n#--\n#--B--\n--\n");
    assert_eq!(head, "a\n#----\n");
    let got: Vec<(String, String)> = bs.into_iter().map(|b| (b.name, b.body)).collect();
    assert_eq!(
        got,
        vec![
            ("-".to_string(), "".to_string()),
            ("".to_string(), "x\n#--\n".to_string()),
            ("B".to_string(), "--\n".to_string()),
        ]
    );
}

#[test]
fn a_section_that_comes_again_goes_on() {
    let ss = merge_sections(vec![
        section("a", "1\n"),
        section("b", "2\n"),
        section("a", "3\n"),
    ]);
    let got: Vec<(String, String)> = ss.into_iter().map(|s| (s.name, s.body)).collect();
    assert_eq!(
        got,
        vec![("a".to_string(), "1\n3\n".to_string()), ("b".to_string(), "2\n".to_string())]
    );
    let (_, ss) = parse_recipe("#--build--\nx\n#--install--\ny\n#--BUILD--\nz\n");
    assert_eq!(body(&ss, "build"), Some("x\nz\n"));
    let (_, ss) = parse_recipe("#--\u{c4}\u{130}--\nx\n");
    assert_eq!(ss[0].name, "\u{c4}\u{130}".to_lowercase());
}

#[test]
fn a_recipe_needs_a_name_a_version_and_both_scripts() {
    let scripts = "#--build--\nx\n#--install--\ny\n";
    for head in ["", "name: a\n", "version: 1\n"] {
        let r = cmd_compile_package(&format!("{head}{scripts}"), 1, 0, None);
        assert!(matches!(r, Err(RecipeError::NoNameOrVersion)));
    }
    for scripts in ["", "#--build--\nx\n", "#--install--\nx\n", "#--build--\n \n#--install--\nx\n"]
    {
        let r = cmd_compile_package(&format!("name: a\nversion: 1\n{scripts}"), 1, 0, None);
        assert!(matches!(r, Err(RecipeError::NoScripts)));
    }
    assert!(matches!(
        plan_package(parse_control(""), &Vec::new(), 1, 0, None),
        Err(RecipeError::NoNameOrVersion)
    ));
}

/// Builds a package; what is done, and what comes of it.
fn build(mut compile: Compile, broken: &str) -> (Vec<String>, CompileOutcome) {
    let mut done = Vec::new();
    loop {
        let what = match compile.effect() {
            CompileEffect::MakeDirs { root, control, stage } => {
                format!("mkdirs {root} {control} {stage}")
            }
            CompileEffect::RunScript { dir, name, body, target } => {
                format!("sh {dir}/{name} {body:?} {target:?}")
            }
            CompileEffect::CheckStage { dir } => format!("look {dir}"),
            CompileEffect::WriteFile { path, content } => format!("write {path} {content:?}"),
            CompileEffect::WriteScript { dir, name, body } => {
                format!("hook {dir}/{name} {body:?}")
            }
            CompileEffect::Pack { archive, dir } => format!("pack {archive} {dir}"),
            CompileEffect::Assemble { archive, dir } => format!("assemble {archive} {dir}"),
            CompileEffect::RemoveDir { dir } => format!("clear {dir}"),
            CompileEffect::Over { outcome } => return (done, outcome),
        };
        let ok = broken.is_empty() || !what.starts_with(broken);
        done.push(what);
        compile.advance(ok);
    }
}

#[test]
fn a_package_is_built() {
    let c = cmd_compile_package(RECIPE, 5, 2, None).ok().unwrap();
    assert_eq!(c.plan().out, "hello-spk-1.0.0.spkg");
    let r = "/tmp/spk-compile-hello-spk-5-2";
    let (done, outcome) = build(c, "");
    assert_eq!(outcome, CompileOutcome::Built);
    assert_eq!(
        done,
        vec![
            format!("mkdirs {r} {r}/control {r}/stage"),
            format!("sh {r}/build.sh \"cc -O2 -o hello main.c\\necho \\\"name: wrong\\\"\" None"),
            format!("sh {r}/install.sh \"mkdir -p \\\"$SPK_STAGE/usr/bin\\\"\" Some(\"{r}/stage\")"),
            format!("look {r}/stage"),
            format!(
                "write {r}/control/control \"name: hello-spk\\nversion: 1.0.0\\narchitecture: \
                 x86_64\\ndepends: \\ndescription: Example package\\n\""
            ),
            format!("hook {r}/control/postinst \"echo \\\"installed\\\"\\n\""),
            format!("pack {r}/control.tar.xz {r}/control"),
            format!("pack {r}/data.tar.xz {r}/stage"),
            format!("assemble hello-spk-1.0.0.spkg {r}"),
            format!("clear {r}"),
        ]
    );
}

#[test]
fn the_output_can_be_chosen() {
    let c = cmd_compile_package(RECIPE, 5, 2, Some("/o/x.spkg")).ok().unwrap();
    assert_eq!(c.plan().out, "/o/x.spkg");
    assert_eq!(c.plan().hooks.len(), 1);
}

#[test]
fn a_build_fails_where_a_step_does() {
    for (broken, outcome, clears, packs) in [
        ("mkdirs", CompileOutcome::NoDirectory, false, 0),
        ("sh /tmp/spk-compile-hello-spk-1-0/build", CompileOutcome::BuildFailed, false, 0),
        ("sh /tmp/spk-compile-hello-spk-1-0/inst", CompileOutcome::InstallFailed, false, 0),
        ("look", CompileOutcome::NothingStaged, false, 0),
        ("pack /tmp/spk-compile-hello-spk-1-0/control", CompileOutcome::NotPacked, false, 2),
        ("pack /tmp/spk-compile-hello-spk-1-0/data", CompileOutcome::NotPacked, false, 2),
        ("assemble", CompileOutcome::NotAssembled, true, 2),
        ("write", CompileOutcome::Built, true, 2),
        ("hook", CompileOutcome::Built, true, 2),
        ("clear", CompileOutcome::Built, true, 2),
    ] {
        let (done, got) = build(cmd_compile_package(RECIPE, 1, 0, None).ok().unwrap(), broken);
        assert_eq!(got, outcome, "{broken}");
        assert_eq!(done.last().unwrap().starts_with("clear"), clears, "{broken}");
        assert_eq!(done.iter().filter(|d| d.starts_with("pack")).count(), packs, "{broken}");
    }
}

#[test]
fn failures_are_named() {
    let names = strings(&["a", "b", "c"]);
    assert_eq!(failures(&names, &vec![false, true, false]), strings(&["a", "c"]));
    assert!(failures(&names, &vec![true]).is_empty());
}

/// Upgrades a system; what is done, what is told, and what could not be installed.
fn upgrade(visor: bool, broken: &str) -> (Vec<String>, Vec<UpgradeNotice>, Vec<String>) {
    let mut u = cmd_system_upgrade(visor, "/mnt/smechos");
    let mut done = Vec::new();
    let mut told = Vec::new();
    loop {
        if u.notice() != UpgradeNotice::Nothing {
            told.push(u.notice());
        }
        let ok = match u.effect() {
            UpgradeEffect::Stop => {
                done.push("stop".to_string());
                true
            }
            UpgradeEffect::Start => {
                done.push("start".to_string());
                true
            }
            UpgradeEffect::Install { index, package, root } => {
                done.push(format!("{}/{} {package} {root}", index + 1, u.total()));
                package != broken
            }
            UpgradeEffect::Over { failures } => return (done, told, failures),
        };
        u.advance(ok);
    }
}

#[test]
fn smechos_is_upgraded_package_by_package() {
    let (done, told, failed) = upgrade(false, "firmware");
    assert_eq!(done.len(), 10);
    assert_eq!(done[0], "1/10 base-system /mnt/smechos");
    assert_eq!(done[9], "10/10 packagekit-spk /mnt/smechos");
    assert!(told.is_empty());
    assert_eq!(failed, strings(&["firmware"]));
    let names: Vec<String> =
        done.iter().map(|d| d.split(' ').nth(1).unwrap().to_string()).collect();
    assert_eq!(
        names,
        strings(&[
            "base-system",
            "kernel-modules",
            "firmware",
            "bootloader-grub",
            "kde-frameworks",
            "plasma",
            "qt6",
            "mesa-graphics",
            "plasma-discover",
            "packagekit-spk",
        ])
    );
}

#[test]
fn the_daemon_is_started_whatever_came_of_it() {
    let order = strings(&["stop", "1/2 smechvisor-daemon /", "start", "2/2 smechvisor-base /"]);
    let (done, told, failed) = upgrade(true, "");
    assert_eq!(done, order);
    assert_eq!(told, vec![UpgradeNotice::Restarted, UpgradeNotice::Reboot]);
    assert!(failed.is_empty());
    let (done, told, failed) = upgrade(true, "smechvisor-daemon");
    assert_eq!(done, order);
    assert_eq!(told, vec![UpgradeNotice::Reboot]);
    assert_eq!(failed, strings(&["smechvisor-daemon"]));
    let (_, told, failed) = upgrade(true, "smechvisor-base");
    assert_eq!(told, vec![UpgradeNotice::Restarted]);
    assert_eq!(failed, strings(&["smechvisor-base"]));
}

#[test]
fn an_image_has_the_index_and_what_is_asked_for() {
    let names = image_packages(strings(&["a", "b"]), &strings(&["b", "c", "c"]));
    assert_eq!(names, strings(&["a", "b", "c"]));
    assert!(cmd_create_live_image("o", Vec::new(), &Vec::new(), 1).is_none());
    assert!(cmd_create_live_image("o", Vec::new(), &strings(&["x"]), 1).is_some());
}

/// Makes an image; what is done, and what comes of it.
fn make(mut image: Image, broken: &[&str]) -> (Vec<String>, ImageOutcome) {
    let mut done = Vec::new();
    loop {
        let what = match image.effect() {
            ImageEffect::MakeRoot { dir } => format!("mkdir {dir}"),
            ImageEffect::Install { index, package, root } => {
                format!("{}/{} {package} {root}", index + 1, image.total())
            }
            ImageEffect::CheckFiles { first, second } => format!("boot {first} {second}"),
            ImageEffect::Squash { arguments } => format!("mksquashfs {}", arguments.join(" ")),
            ImageEffect::LayOut { actions } => {
                let a: Vec<String> = actions.iter().map(show).collect();
                format!("lay out\n{}", a.join("\n"))
            }
            ImageEffect::Probe { path } => format!("probe {path}"),
            ImageEffect::MakeIso { program, arguments } => {
                format!("iso {program} {}", arguments.join(" "))
            }
            ImageEffect::RemoveDir { dir } => format!("clear {dir}"),
            ImageEffect::Over { outcome } => return (done, outcome),
        };
        let ok = !broken.iter().any(|b| what.starts_with(b));
        done.push(what);
        image.advance(ok);
    }
}

fn show(action: &FileAction) -> String {
    match action {
        FileAction::Clear { dir } => format!("clear {dir}"),
        FileAction::MakeDir { dir } => format!("mkdir {dir}"),
        FileAction::Copy { from, to } => format!("cp {from} {to}"),
        FileAction::Rename { from, to } => format!("mv {from} {to}"),
        FileAction::Write { path, content } => format!("write {path}\n{content}"),
    }
}

fn image() -> Image {
    cmd_create_live_image("out.iso", strings(&["a"]), &strings(&["b"]), 42).unwrap()
}

#[test]
fn an_image_is_made() {
    let r = "/tmp/spk-live-image-root-42";
    assert_eq!(image().scratch(), r);
    let (done, outcome) = make(image(), &["1/2"]);
    assert_eq!(outcome, ImageOutcome::Bootable);
    assert_eq!(
        done,
        vec![
            format!("mkdir {r}"),
            format!("1/2 a {r}"),
            format!("2/2 b {r}"),
            format!("boot {r}/boot/vmlinuz {r}/boot/live-initrd.img"),
            format!("mksquashfs {r} {r}.squashfs -comp xz -e {r}/boot -noappend"),
            format!(
                "lay out\nclear {r}-iso-root\nmkdir {r}-iso-root/boot/grub\n\
                 mkdir {r}-iso-root/live\n\
                 cp {r}/boot/vmlinuz {r}-iso-root/boot/vmlinuz\n\
                 cp {r}/boot/live-initrd.img {r}-iso-root/boot/live-initrd.img\n\
                 mv {r}.squashfs {r}-iso-root/live/filesystem.squashfs\n\
                 write {r}-iso-root/boot/grub/grub.cfg\n\
                 set timeout=10\nset default=0\n\n\
                 menuentry \"SmechOS (from repo image)\" {{\n\
                 \x20   linux  /boot/vmlinuz boot=live quiet splash loglevel=3\n\
                 \x20   initrd /boot/live-initrd.img\n}}\n"
            ),
            format!("probe {r}/usr/bin/grub-mkrescue"),
            format!(
                "iso {r}/usr/bin/grub-mkrescue -o out.iso {r}-iso-root -- -volid SMECHOS_LIVE"
            ),
            format!("clear {r}-iso-root"),
        ]
    );
}

#[test]
fn an_image_without_boot_files_is_a_file_system_only() {
    let (done, outcome) = make(image(), &["boot"]);
    assert_eq!(outcome, ImageOutcome::SquashOnly);
    assert!(done.last().unwrap().starts_with("mksquashfs"));
    assert!(!done.iter().any(|d| d.starts_with("iso")));
}

#[test]
fn an_image_fails_where_a_step_does() {
    assert_eq!(make(image(), &["mkdir"]).1, ImageOutcome::NoRoot);
    assert_eq!(make(image(), &["mksquashfs"]).1, ImageOutcome::SquashFailed);
    let (done, outcome) = make(image(), &["iso", "probe"]);
    assert_eq!(outcome, ImageOutcome::IsoFailed);
    assert!(done.iter().any(|d| d.starts_with("iso grub-mkrescue ")));
    assert!(done.last().unwrap().starts_with("clear"));
}

#[test]
fn the_failures_of_an_image_are_named() {
    let mut i = image();
    i.advance(true);
    i.advance(false);
    i.advance(true);
    assert_eq!(i.failures(), strings(&["a"]));
}
