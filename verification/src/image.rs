//! Live images: a system put together from the packages of a repository.

use crate::batch::{failed, failures};
use crate::number::{decimal, push_decimal};
use crate::paths::{below, join_path};
use crate::text::{has_text, texts};
use vstd::prelude::*;
use vstd::string::*;

verus! {

// ---------------------------------------------------------------- what goes into it

/// The packages of an image: those of the index, and after them those asked for besides
/// that are not there yet.
pub open spec fn image_names(index: Seq<Seq<char>>, extra: Seq<Seq<char>>) -> Seq<Seq<char>>
    decreases extra.len(),
{
    if extra.len() == 0 {
        index
    } else {
        let some = image_names(index, extra.drop_last());
        if some.contains(extra.last()) {
            some
        } else {
            some.push(extra.last())
        }
    }
}

/// The packages of an image.
pub fn image_packages(index: Vec<String>, extra: &Vec<String>) -> (r: Vec<String>)
    ensures
        texts(r@) == image_names(texts(index@), texts(extra@)),
{
    let ghost all = texts(extra@);
    let mut r = index;
    let mut i: usize = 0;
    assert(texts(r@) == image_names(texts(index@), all.take(0)));
    while i < extra.len()
        invariant
            i <= extra@.len(),
            all == texts(extra@),
            texts(r@) == image_names(texts(index@), all.take(i as int)),
        decreases extra@.len() - i,
    {
        let ghost had = r@;
        proof {
            assert(all[i as int] == extra@[i as int]@);
            assert(all.take(i + 1).drop_last() =~= all.take(i as int));
        }
        if !has_text(&r, extra[i].as_str()) {
            r.push(extra[i].clone());
            assert(texts(r@) =~= texts(had).push(all[i as int]));
        }
        i += 1;
    }
    assert(all.take(i as int) =~= all);
    r
}

// ---------------------------------------------------------------- its places

/// The directory in which the system is put together.
pub open spec fn scratch_root(pid: u32) -> Seq<char> {
    "/tmp/spk-live-image-root-"@ + decimal(pid as nat)
}

pub open spec fn kernel(scratch: Seq<char>) -> Seq<char> {
    scratch + "/boot/vmlinuz"@
}

pub open spec fn initrd(scratch: Seq<char>) -> Seq<char> {
    scratch + "/boot/live-initrd.img"@
}

pub open spec fn squashfs(scratch: Seq<char>) -> Seq<char> {
    scratch + ".squashfs"@
}

pub open spec fn iso_root(scratch: Seq<char>) -> Seq<char> {
    scratch + "-iso-root"@
}

pub open spec fn own_tool(scratch: Seq<char>) -> Seq<char> {
    scratch + "/usr/bin/grub-mkrescue"@
}

/// The arguments with which the file system is packed: everything but the boot files.
pub open spec fn squash_arguments(scratch: Seq<char>) -> Seq<Seq<char>> {
    seq![
        scratch,
        squashfs(scratch),
        "-comp"@,
        "xz"@,
        "-e"@,
        below(scratch, "boot"@),
        "-noappend"@,
    ]
}

/// The arguments with which the image is made.
pub open spec fn iso_arguments(scratch: Seq<char>, out: Seq<char>) -> Seq<Seq<char>> {
    seq!["-o"@, out, iso_root(scratch), "--"@, "-volid"@, "SMECHOS_LIVE"@]
}

/// The boot menu of an image.
pub open spec fn boot_menu() -> Seq<char> {
    "set timeout=10\nset default=0\n\nmenuentry \"SmechOS (from repo image)\" {\n    linux  /boot/vmlinuz boot=live quiet splash loglevel=3\n    initrd /boot/live-initrd.img\n}\n"@
}

/// Something done to files. What comes of it does not matter.
pub enum FileAction {
    Clear { dir: String },
    MakeDir { dir: String },
    Copy { from: String, to: String },
    Rename { from: String, to: String },
    Write { path: String, content: String },
}

#[verifier::ext_equal]
pub enum FileActionModel {
    Clear { dir: Seq<char> },
    MakeDir { dir: Seq<char> },
    Copy { from: Seq<char>, to: Seq<char> },
    Rename { from: Seq<char>, to: Seq<char> },
    Write { path: Seq<char>, content: Seq<char> },
}

impl View for FileAction {
    type V = FileActionModel;

    open spec fn view(&self) -> FileActionModel {
        match self {
            FileAction::Clear { dir } => FileActionModel::Clear { dir: dir@ },
            FileAction::MakeDir { dir } => FileActionModel::MakeDir { dir: dir@ },
            FileAction::Copy { from, to } => FileActionModel::Copy { from: from@, to: to@ },
            FileAction::Rename { from, to } => FileActionModel::Rename { from: from@, to: to@ },
            FileAction::Write { path, content } => FileActionModel::Write {
                path: path@,
                content: content@,
            },
        }
    }
}

pub open spec fn actions(v: Seq<FileAction>) -> Seq<FileActionModel> {
    v.map_values(|a: FileAction| a@)
}

/// How the contents of a bootable image are laid out.
pub open spec fn iso_layout(scratch: Seq<char>) -> Seq<FileActionModel> {
    let root = iso_root(scratch);
    seq![
        FileActionModel::Clear { dir: root },
        FileActionModel::MakeDir { dir: below(root, "boot/grub"@) },
        FileActionModel::MakeDir { dir: below(root, "live"@) },
        FileActionModel::Copy { from: kernel(scratch), to: below(root, "boot/vmlinuz"@) },
        FileActionModel::Copy { from: initrd(scratch), to: below(root, "boot/live-initrd.img"@) },
        FileActionModel::Rename {
            from: squashfs(scratch),
            to: below(root, "live/filesystem.squashfs"@),
        },
        FileActionModel::Write { path: below(root, "boot/grub/grub.cfg"@), content: boot_menu() },
    ]
}

fn suffixed(s: &str, suffix: &str) -> (r: String)
    ensures
        r@ == s@ + suffix@,
{
    let mut r = s.to_string();
    r.append(suffix);
    r
}

fn lay_out_iso(scratch: &str) -> (r: Vec<FileAction>)
    ensures
        actions(r@) == iso_layout(scratch@),
{
    let root = suffixed(scratch, "-iso-root");
    let root = root.as_str();
    let mut v: Vec<FileAction> = Vec::new();
    v.push(FileAction::Clear { dir: root.to_string() });
    v.push(FileAction::MakeDir { dir: join_path(root, "boot/grub") });
    v.push(FileAction::MakeDir { dir: join_path(root, "live") });
    v.push(
        FileAction::Copy {
            from: suffixed(scratch, "/boot/vmlinuz"),
            to: join_path(root, "boot/vmlinuz"),
        },
    );
    v.push(
        FileAction::Copy {
            from: suffixed(scratch, "/boot/live-initrd.img"),
            to: join_path(root, "boot/live-initrd.img"),
        },
    );
    v.push(
        FileAction::Rename {
            from: suffixed(scratch, ".squashfs"),
            to: join_path(root, "live/filesystem.squashfs"),
        },
    );
    v.push(
        FileAction::Write {
            path: join_path(root, "boot/grub/grub.cfg"),
            content:
                "set timeout=10\nset default=0\n\nmenuentry \"SmechOS (from repo image)\" {\n    linux  /boot/vmlinuz boot=live quiet splash loglevel=3\n    initrd /boot/live-initrd.img\n}\n".to_string(),
        },
    );
    assert(actions(v@) =~= iso_layout(scratch@));
    v
}

fn list_squash_arguments(scratch: &str) -> (r: Vec<String>)
    ensures
        texts(r@) == squash_arguments(scratch@),
{
    let mut v: Vec<String> = Vec::new();
    v.push(scratch.to_string());
    v.push(suffixed(scratch, ".squashfs"));
    v.push("-comp".to_string());
    v.push("xz".to_string());
    v.push("-e".to_string());
    v.push(join_path(scratch, "boot"));
    v.push("-noappend".to_string());
    assert(texts(v@) =~= squash_arguments(scratch@));
    v
}

fn list_iso_arguments(scratch: &str, out: &str) -> (r: Vec<String>)
    ensures
        texts(r@) == iso_arguments(scratch@, out@),
{
    let mut v: Vec<String> = Vec::new();
    v.push("-o".to_string());
    v.push(out.to_string());
    v.push(suffixed(scratch, "-iso-root"));
    v.push("--".to_string());
    v.push("-volid".to_string());
    v.push("SMECHOS_LIVE".to_string());
    assert(texts(v@) =~= iso_arguments(scratch@, out@));
    v
}


// ---------------------------------------------------------------- the making of it

/// Where the making of an image is.
#[derive(Clone, Copy, Debug, PartialEq, Eq, Structural)]
pub enum ImagePhase {
    MakeRoot,
    Install,
    CheckBoot,
    Squash,
    LayOut,
    ChooseTool,
    MakeIso,
    ClearIso,
    Over,
}

/// How the making of an image ends.
#[derive(Clone, Copy, Debug, PartialEq, Eq, Structural)]
pub enum ImageOutcome {
    /// There is an image that boots.
    Bootable,
    /// There is a file system, but nothing to boot it with.
    SquashOnly,
    /// The directory could not be made.
    NoRoot,
    SquashFailed,
    IsoFailed,
}

/// An image that is being made.
pub struct Image {
    out: String,
    scratch: String,
    names: Vec<String>,
    /// What came of the packages so far.
    results: Vec<bool>,
    /// Whether the packages brought what it takes to boot.
    boot: bool,
    /// Whether they brought the tool that makes images.
    own: bool,
    phase: ImagePhase,
    outcome: ImageOutcome,
}

#[verifier::ext_equal]
pub struct ImageModel {
    pub out: Seq<char>,
    pub scratch: Seq<char>,
    pub names: Seq<Seq<char>>,
    pub results: Seq<bool>,
    pub boot: bool,
    pub own: bool,
    pub phase: ImagePhase,
    pub outcome: ImageOutcome,
}

impl View for Image {
    type V = ImageModel;

    closed spec fn view(&self) -> ImageModel {
        ImageModel {
            out: self.out@,
            scratch: self.scratch@,
            names: texts(self.names@),
            results: self.results@,
            boot: self.boot,
            own: self.own,
            phase: self.phase,
            outcome: self.outcome,
        }
    }
}

/// What is to be done; each is answered by whether it succeeded, or whether what was
/// looked for is there.
pub enum ImageEffect {
    /// Make a directory that is empty.
    MakeRoot { dir: String },
    /// Install a package from the repositories; it is the one with this index.
    Install { index: usize, package: String, root: String },
    /// See whether both files exist.
    CheckFiles { first: String, second: String },
    /// Pack the file system.
    Squash { arguments: Vec<String> },
    LayOut { actions: Vec<FileAction> },
    /// See whether a path exists.
    Probe { path: String },
    MakeIso { program: String, arguments: Vec<String> },
    RemoveDir { dir: String },
    Over { outcome: ImageOutcome },
}

#[verifier::ext_equal]
pub enum ImageEffectModel {
    MakeRoot { dir: Seq<char> },
    Install { index: nat, package: Seq<char>, root: Seq<char> },
    CheckFiles { first: Seq<char>, second: Seq<char> },
    Squash { arguments: Seq<Seq<char>> },
    LayOut { actions: Seq<FileActionModel> },
    Probe { path: Seq<char> },
    MakeIso { program: Seq<char>, arguments: Seq<Seq<char>> },
    RemoveDir { dir: Seq<char> },
    Over { outcome: ImageOutcome },
}

impl View for ImageEffect {
    type V = ImageEffectModel;

    open spec fn view(&self) -> ImageEffectModel {
        match self {
            ImageEffect::MakeRoot { dir } => ImageEffectModel::MakeRoot { dir: dir@ },
            ImageEffect::Install { index, package, root } => ImageEffectModel::Install {
                index: *index as nat,
                package: package@,
                root: root@,
            },
            ImageEffect::CheckFiles { first, second } => ImageEffectModel::CheckFiles {
                first: first@,
                second: second@,
            },
            ImageEffect::Squash { arguments } => ImageEffectModel::Squash {
                arguments: texts(arguments@),
            },
            ImageEffect::LayOut { actions: a } => ImageEffectModel::LayOut { actions: actions(a@) },
            ImageEffect::Probe { path } => ImageEffectModel::Probe { path: path@ },
            ImageEffect::MakeIso { program, arguments } => ImageEffectModel::MakeIso {
                program: program@,
                arguments: texts(arguments@),
            },
            ImageEffect::RemoveDir { dir } => ImageEffectModel::RemoveDir { dir: dir@ },
            ImageEffect::Over { outcome } => ImageEffectModel::Over { outcome: *outcome },
        }
    }
}

/// The making of an image, at its beginning.
pub open spec fn image_begin(out: Seq<char>, names: Seq<Seq<char>>, pid: u32) -> ImageModel {
    ImageModel {
        out,
        scratch: scratch_root(pid),
        names,
        results: seq![],
        boot: false,
        own: false,
        phase: ImagePhase::MakeRoot,
        outcome: ImageOutcome::NoRoot,
    }
}

/// What is to be done next.
pub open spec fn image_effect(st: ImageModel) -> ImageEffectModel {
    match st.phase {
        ImagePhase::MakeRoot => ImageEffectModel::MakeRoot { dir: st.scratch },
        ImagePhase::Install => ImageEffectModel::Install {
            index: st.results.len(),
            package: st.names[st.results.len() as int],
            root: st.scratch,
        },
        ImagePhase::CheckBoot => ImageEffectModel::CheckFiles {
            first: kernel(st.scratch),
            second: initrd(st.scratch),
        },
        ImagePhase::Squash => ImageEffectModel::Squash { arguments: squash_arguments(st.scratch) },
        ImagePhase::LayOut => ImageEffectModel::LayOut { actions: iso_layout(st.scratch) },
        ImagePhase::ChooseTool => ImageEffectModel::Probe { path: own_tool(st.scratch) },
        ImagePhase::MakeIso => ImageEffectModel::MakeIso {
            program: if st.own {
                own_tool(st.scratch)
            } else {
                "grub-mkrescue"@
            },
            arguments: iso_arguments(st.scratch, st.out),
        },
        ImagePhase::ClearIso => ImageEffectModel::RemoveDir { dir: iso_root(st.scratch) },
        ImagePhase::Over => ImageEffectModel::Over { outcome: st.outcome },
    }
}

/// The image turns to its next package; once all are done, to the system itself.
pub open spec fn image_turn(st: ImageModel) -> ImageModel {
    ImageModel {
        phase: if st.results.len() < st.names.len() {
            ImagePhase::Install
        } else {
            ImagePhase::CheckBoot
        },
        ..st
    }
}

pub open spec fn image_over(st: ImageModel, outcome: ImageOutcome) -> ImageModel {
    ImageModel { phase: ImagePhase::Over, outcome, ..st }
}

/// What follows.
pub open spec fn image_next(st: ImageModel, ok: bool) -> ImageModel {
    match st.phase {
        ImagePhase::MakeRoot => if ok {
            image_turn(st)
        } else {
            image_over(st, ImageOutcome::NoRoot)
        },
        ImagePhase::Install => image_turn(ImageModel { results: st.results.push(ok), ..st }),
        ImagePhase::CheckBoot => ImageModel { boot: ok, phase: ImagePhase::Squash, ..st },
        ImagePhase::Squash => if !ok {
            image_over(st, ImageOutcome::SquashFailed)
        } else if st.boot {
            ImageModel { phase: ImagePhase::LayOut, ..st }
        } else {
            image_over(st, ImageOutcome::SquashOnly)
        },
        ImagePhase::LayOut => ImageModel { phase: ImagePhase::ChooseTool, ..st },
        ImagePhase::ChooseTool => ImageModel { own: ok, phase: ImagePhase::MakeIso, ..st },
        ImagePhase::MakeIso => ImageModel {
            phase: ImagePhase::ClearIso,
            outcome: if ok {
                ImageOutcome::Bootable
            } else {
                ImageOutcome::IsoFailed
            },
            ..st
        },
        ImagePhase::ClearIso | ImagePhase::Over => ImageModel { phase: ImagePhase::Over, ..st },
    }
}

/// What holds while an image is being made.
pub open spec fn image_valid(st: ImageModel) -> bool {
    &&& st.results.len() <= st.names.len()
    &&& st.phase == ImagePhase::Install ==> st.results.len() < st.names.len()
    &&& match st.phase {
        ImagePhase::LayOut
        | ImagePhase::ChooseTool
        | ImagePhase::MakeIso
        | ImagePhase::ClearIso => st.boot,
        _ => true,
    }
}

/// Begins to make an image of the packages in an index and of some others; `None` if there
/// is no package to make it of.
pub fn cmd_create_live_image(out: &str, index: Vec<String>, extra: &Vec<String>, pid: u32) -> (r:
    Option<Image>)
    ensures
        ({
            let names = image_names(texts(index@), texts(extra@));
            match r {
                Some(image) => names.len() > 0 && image@ == image_begin(out@, names, pid)
                    && image_valid(image@),
                None => names.len() == 0,
            }
        }),
{
    let names = image_packages(index, extra);
    assert(texts(names@).len() == names@.len());
    if names.len() == 0 {
        return None;
    }
    let mut scratch = String::new();
    scratch.append("/tmp/spk-live-image-root-");
    push_decimal(&mut scratch, pid as u64);
    assert(scratch@ =~= scratch_root(pid));
    let image = Image {
        out: out.to_string(),
        scratch,
        names,
        results: Vec::new(),
        boot: false,
        own: false,
        phase: ImagePhase::MakeRoot,
        outcome: ImageOutcome::NoRoot,
    };
    assert(image@ =~= image_begin(out@, texts(names@), pid));
    Some(image)
}

impl Image {
    /// How many packages there are.
    pub fn total(&self) -> (r: usize)
        ensures
            r == self@.names.len(),
    {
        self.names.len()
    }

    /// The directory in which the system is put together.
    pub fn scratch(&self) -> (r: &String)
        ensures
            r@ == self@.scratch,
    {
        &self.scratch
    }

    /// The packages that could not be installed so far.
    pub fn failures(&self) -> (r: Vec<String>)
        requires
            image_valid(self@),
        ensures
            texts(r@) == failed(self@.names, self@.results),
    {
        assert(self@.names.len() == self.names@.len());
        failures(&self.names, &self.results)
    }

    /// What is to be done next.
    pub fn effect(&self) -> (r: ImageEffect)
        requires
            image_valid(self@),
        ensures
            r@ == image_effect(self@),
    {
        let scratch = self.scratch.as_str();
        assert(self@.names.len() == self.names@.len());
        match self.phase {
            ImagePhase::MakeRoot => ImageEffect::MakeRoot { dir: scratch.to_string() },
            ImagePhase::Install => {
                let k = self.results.len();
                assert(self@.names[k as int] == self.names@[k as int]@);
                ImageEffect::Install {
                    index: k,
                    package: self.names[k].clone(),
                    root: scratch.to_string(),
                }
            },
            ImagePhase::CheckBoot => ImageEffect::CheckFiles {
                first: suffixed(scratch, "/boot/vmlinuz"),
                second: suffixed(scratch, "/boot/live-initrd.img"),
            },
            ImagePhase::Squash => ImageEffect::Squash { arguments: list_squash_arguments(scratch) },
            ImagePhase::LayOut => ImageEffect::LayOut { actions: lay_out_iso(scratch) },
            ImagePhase::ChooseTool => ImageEffect::Probe {
                path: suffixed(scratch, "/usr/bin/grub-mkrescue"),
            },
            ImagePhase::MakeIso => ImageEffect::MakeIso {
                program: if self.own {
                    suffixed(scratch, "/usr/bin/grub-mkrescue")
                } else {
                    "grub-mkrescue".to_string()
                },
                arguments: list_iso_arguments(scratch, self.out.as_str()),
            },
            ImagePhase::ClearIso => ImageEffect::RemoveDir { dir: suffixed(scratch, "-iso-root") },
            ImagePhase::Over => ImageEffect::Over { outcome: self.outcome },
        }
    }

    fn turn(&mut self)
        ensures
            final(self)@ == image_turn(old(self)@),
    {
        assert(self@.names.len() == self.names@.len());
        self.phase = if self.results.len() < self.names.len() {
            ImagePhase::Install
        } else {
            ImagePhase::CheckBoot
        };
    }

    fn end(&mut self, outcome: ImageOutcome)
        ensures
            final(self)@ == image_over(old(self)@, outcome),
    {
        self.phase = ImagePhase::Over;
        self.outcome = outcome;
    }

    /// Takes in what came of the effect, and goes on to the next.
    pub fn advance(&mut self, ok: bool)
        requires
            image_valid(old(self)@),
        ensures
            final(self)@ == image_next(old(self)@, ok),
            image_valid(final(self)@),
    {
        match self.phase {
            ImagePhase::MakeRoot => if ok {
                self.turn();
            } else {
                self.end(ImageOutcome::NoRoot);
            },
            ImagePhase::Install => {
                self.results.push(ok);
                self.turn();
            },
            ImagePhase::CheckBoot => {
                self.boot = ok;
                self.phase = ImagePhase::Squash;
            },
            ImagePhase::Squash => if !ok {
                self.end(ImageOutcome::SquashFailed);
            } else if self.boot {
                self.phase = ImagePhase::LayOut;
            } else {
                self.end(ImageOutcome::SquashOnly);
            },
            ImagePhase::LayOut => {
                self.phase = ImagePhase::ChooseTool;
            },
            ImagePhase::ChooseTool => {
                self.own = ok;
                self.phase = ImagePhase::MakeIso;
            },
            ImagePhase::MakeIso => {
                self.outcome = if ok {
                    ImageOutcome::Bootable
                } else {
                    ImageOutcome::IsoFailed
                };
                self.phase = ImagePhase::ClearIso;
            },
            ImagePhase::ClearIso | ImagePhase::Over => {
                self.phase = ImagePhase::Over;
            },
        }
        assert(self@ =~= image_next(old(self)@, ok));
    }
}

// ---------------------------------------------------------------- laws

/// Every package of the index and every package asked for goes in, the index first and in
/// its order.
pub proof fn an_image_has_every_package(index: Seq<Seq<char>>, extra: Seq<Seq<char>>)
    ensures
        image_names(index, extra).len() >= index.len(),
        image_names(index, extra).take(index.len() as int) == index,
        forall|i: int| 0 <= i < extra.len() ==> image_names(index, extra).contains(#[trigger] extra[i]),
    decreases extra.len(),
{
    let all = image_names(index, extra);
    if extra.len() == 0 {
        assert(all.take(index.len() as int) =~= index);
    } else {
        let fewer = extra.drop_last();
        let some = image_names(index, fewer);
        an_image_has_every_package(index, fewer);
        assert(all.take(index.len() as int) =~= some.take(index.len() as int));
        assert forall|i: int| 0 <= i < extra.len() implies all.contains(#[trigger] extra[i]) by {
            if i < fewer.len() {
                assert(some.contains(fewer[i]));
                let k = choose|k: int| 0 <= k < some.len() && some[k] == extra[i];
                assert(all[k] == extra[i]);
            } else if !some.contains(extra[i]) {
                assert(all[all.len() - 1] == extra[i]);
            }
        }
    }
}

/// No package goes in twice, unless the index lists it twice.
pub proof fn no_package_goes_in_twice(index: Seq<Seq<char>>, extra: Seq<Seq<char>>)
    requires
        index.no_duplicates(),
    ensures
        image_names(index, extra).no_duplicates(),
    decreases extra.len(),
{
    if extra.len() > 0 {
        let some = image_names(index, extra.drop_last());
        no_package_goes_in_twice(index, extra.drop_last());
        if !some.contains(extra.last()) {
            assert forall|i: int| 0 <= i < some.len() implies some[i] != extra.last() by {
                assert(some.contains(some[i]));
            }
        }
    }
}

/// The state after some answers.
pub open spec fn image_run(st: ImageModel, oks: Seq<bool>) -> ImageModel
    decreases oks.len(),
{
    if oks.len() == 0 {
        st
    } else {
        image_next(image_run(st, oks.drop_last()), oks.last())
    }
}

proof fn lemma_image_run(out: Seq<char>, names: Seq<Seq<char>>, pid: u32, oks: Seq<bool>)
    ensures
        ({
            let st = image_run(image_begin(out, names, pid), oks);
            let n = names.len() as int;
            &&& image_valid(st)
            &&& st.names == names
            &&& st.scratch == scratch_root(pid)
            &&& st.boot ==> oks.len() > n + 1 && oks[0] && oks[n + 1]
            &&& st.phase == ImagePhase::MakeRoot ==> oks.len() == 0
            &&& st.phase == ImagePhase::Install ==> oks.len() == st.results.len() + 1 && oks[0]
            &&& st.phase == ImagePhase::CheckBoot ==> oks.len() == n + 1 && st.results.len() == n
                && oks[0]
            &&& match st.phase {
                ImagePhase::MakeRoot | ImagePhase::Install => true,
                ImagePhase::Over => st.outcome != ImageOutcome::NoRoot ==> st.results.len() == n,
                _ => st.results.len() == n,
            }
            &&& st.phase == ImagePhase::Squash && !st.boot ==> oks.len() > n + 1 && !oks[n + 1]
            &&& st.phase == ImagePhase::Over && st.outcome == ImageOutcome::SquashOnly ==> oks.len()
                > n + 1 && !oks[n + 1]
            &&& st.outcome == ImageOutcome::Bootable ==> st.boot
            &&& st.outcome == ImageOutcome::SquashOnly ==> st.phase == ImagePhase::Over
            &&& st.outcome == ImageOutcome::NoRoot || st.phase == ImagePhase::Over || st.phase
                == ImagePhase::ClearIso
        }),
    decreases oks.len(),
{
    if oks.len() > 0 {
        lemma_image_run(out, names, pid, oks.drop_last());
        assert(forall|i: int| 0 <= i < oks.len() - 1 ==> oks.drop_last()[i] == oks[i]);
    }
}

/// An image that should boot is made only of a system that has both boot files; where they
/// are missing, the file system alone comes out.
pub proof fn no_image_without_boot_files(
    out: Seq<char>,
    names: Seq<Seq<char>>,
    pid: u32,
    oks: Seq<bool>,
)
    ensures
        ({
            let st = image_run(image_begin(out, names, pid), oks);
            let n = names.len() as int;
            &&& image_effect(st) is MakeIso || image_effect(st) == (ImageEffectModel::Over {
                outcome: ImageOutcome::Bootable,
            }) ==> oks.len() > n + 1 && oks[n + 1]
            &&& image_effect(st) == (ImageEffectModel::Over { outcome: ImageOutcome::SquashOnly })
                ==> oks.len() > n + 1 && !oks[n + 1]
        }),
{
    lemma_image_run(out, names, pid, oks);
}

/// The answer that decides it is the one to whether both boot files are there, after every
/// package has been tried.
pub proof fn boot_files_are_looked_for_last(
    out: Seq<char>,
    names: Seq<Seq<char>>,
    pid: u32,
    oks: Seq<bool>,
)
    requires
        oks.len() == names.len() + 1,
        oks[0],
    ensures
        image_effect(image_run(image_begin(out, names, pid), oks)) == (
        ImageEffectModel::CheckFiles {
            first: kernel(scratch_root(pid)),
            second: initrd(scratch_root(pid)),
        }),
        image_run(image_begin(out, names, pid), oks).results == oks.skip(1),
{
    lemma_installs(out, names, pid, oks);
}

proof fn lemma_installs(out: Seq<char>, names: Seq<Seq<char>>, pid: u32, oks: Seq<bool>)
    requires
        0 < oks.len() <= names.len() + 1,
        oks[0],
    ensures
        image_run(image_begin(out, names, pid), oks) == image_turn(
            ImageModel { results: oks.skip(1), ..image_begin(out, names, pid) },
        ),
    decreases oks.len(),
{
    reveal_with_fuel(image_run, 2);
    if oks.len() == 1 {
        assert(oks.drop_last() =~= seq![]);
        assert(oks.skip(1) =~= seq![]);
    } else {
        let fewer = oks.drop_last();
        lemma_installs(out, names, pid, fewer);
        assert(oks.skip(1) =~= fewer.skip(1).push(oks.last()));
    }
}

/// Nothing goes into an image but what the index lists or the user asks for.
pub proof fn nothing_else_goes_into_an_image(
    index: Seq<Seq<char>>,
    extra: Seq<Seq<char>>,
    name: Seq<char>,
)
    ensures
        image_names(index, extra).contains(name) <==> index.contains(name) || extra.contains(name),
    decreases extra.len(),
{
    if extra.len() > 0 {
        let fewer = extra.drop_last();
        nothing_else_goes_into_an_image(index, fewer, name);
        let some = image_names(index, fewer);
        let all = image_names(index, extra);
        assert(extra.contains(name) <==> fewer.contains(name) || name == extra.last()) by {
            if extra.contains(name) && name != extra.last() {
                let k = choose|k: int| 0 <= k < extra.len() && extra[k] == name;
                assert(fewer[k] == name);
            }
            if fewer.contains(name) {
                let k = choose|k: int| 0 <= k < fewer.len() && fewer[k] == name;
                assert(extra[k] == name);
            }
            if name == extra.last() {
                assert(extra[extra.len() - 1] == name);
            }
        }
        if !some.contains(extra.last()) {
            assert(all == some.push(extra.last()));
            if all.contains(name) && name != extra.last() {
                let k = choose|k: int| 0 <= k < all.len() && all[k] == name;
                assert(some[k] == name);
            }
            if some.contains(name) {
                let k = choose|k: int| 0 <= k < some.len() && some[k] == name;
                assert(all[k] == name);
            }
            assert(all[all.len() - 1] == extra.last());
        }
    }
}

/// An image is made in a directory of its own. Every package is installed into that directory,
/// in order and whatever came of the ones before. Then the boot files are looked for, and the
/// file system is packed, without them.
pub proof fn an_image_is_made_package_by_package(
    out: Seq<char>,
    names: Seq<Seq<char>>,
    pid: u32,
    oks: Seq<bool>,
)
    requires
        oks.len() <= names.len() + 2,
        oks.len() > 0 ==> oks[0],
    ensures
        ({
            let st = image_run(image_begin(out, names, pid), oks);
            let e = image_effect(st);
            let k = oks.len();
            let n = names.len();
            let dir = "/tmp/spk-live-image-root-"@ + decimal(pid as nat);
            &&& k == 0 ==> e == (ImageEffectModel::MakeRoot { dir })
            &&& 0 < k <= n ==> e == (ImageEffectModel::Install {
                index: (k - 1) as nat,
                package: names[k - 1],
                root: dir,
            })
            &&& k == n + 1 ==> e == (ImageEffectModel::CheckFiles {
                first: dir + "/boot/vmlinuz"@,
                second: dir + "/boot/live-initrd.img"@,
            })
            &&& k == n + 2 ==> e == (ImageEffectModel::Squash {
                arguments: seq![
                    dir,
                    dir + ".squashfs"@,
                    "-comp"@,
                    "xz"@,
                    "-e"@,
                    dir + "/"@ + "boot"@,
                    "-noappend"@,
                ],
            })
            &&& k == n + 2 ==> st == (ImageModel {
                out,
                scratch: dir,
                names,
                results: oks.subrange(1, n as int + 1),
                boot: oks[n as int + 1],
                own: false,
                phase: ImagePhase::Squash,
                outcome: ImageOutcome::NoRoot,
            })
        }),
{
    let k = oks.len();
    let n = names.len();
    if 0 < k <= n + 1 {
        lemma_installs(out, names, pid, oks);
    } else if k == n + 2 {
        let fewer = oks.drop_last();
        lemma_installs(out, names, pid, fewer);
        assert(fewer.skip(1) =~= oks.subrange(1, n as int + 1));
    }
}

/// What comes of a file system that has been packed: where packing failed, or where the boot
/// files are missing, the image is over, and its outcome says so. Else the boot files, the file
/// system and a boot menu are laid out, and the image is made of them, at the place that was
/// asked for, by the tool of the new system if it has one; what was laid out is cleared away.
#[verifier::rlimit(30)]
pub proof fn a_packed_system_becomes_an_image(st: ImageModel, oks: Seq<bool>)
    requires
        st.phase == ImagePhase::Squash,
        oks.len() == 4,
    ensures
        ({
            let dir = st.scratch;
            let iso = dir + "-iso-root"@;
            let f1 = image_next(st, false);
            let s1 = image_next(st, true);
            let s2 = image_next(s1, oks[0]);
            let s3 = image_next(s2, oks[1]);
            let s4 = image_next(s3, oks[2]);
            let s5 = image_next(s4, oks[3]);
            &&& image_effect(f1) == (ImageEffectModel::Over { outcome: ImageOutcome::SquashFailed })
            &&& !st.boot ==> image_effect(s1) == (ImageEffectModel::Over {
                outcome: ImageOutcome::SquashOnly,
            })
            &&& st.boot ==> {
                &&& image_effect(s1) == (ImageEffectModel::LayOut {
                    actions: seq![
                        FileActionModel::Clear { dir: iso },
                        FileActionModel::MakeDir { dir: iso + "/"@ + "boot/grub"@ },
                        FileActionModel::MakeDir { dir: iso + "/"@ + "live"@ },
                        FileActionModel::Copy {
                            from: dir + "/boot/vmlinuz"@,
                            to: iso + "/"@ + "boot/vmlinuz"@,
                        },
                        FileActionModel::Copy {
                            from: dir + "/boot/live-initrd.img"@,
                            to: iso + "/"@ + "boot/live-initrd.img"@,
                        },
                        FileActionModel::Rename {
                            from: dir + ".squashfs"@,
                            to: iso + "/"@ + "live/filesystem.squashfs"@,
                        },
                        FileActionModel::Write {
                            path: iso + "/"@ + "boot/grub/grub.cfg"@,
                            content: "set timeout=10\nset default=0\n\nmenuentry \"SmechOS (from repo image)\" {\n    linux  /boot/vmlinuz boot=live quiet splash loglevel=3\n    initrd /boot/live-initrd.img\n}\n"@,
                        },
                    ],
                })
                &&& image_effect(s2) == (ImageEffectModel::Probe {
                    path: dir + "/usr/bin/grub-mkrescue"@,
                })
                &&& image_effect(s3) == (ImageEffectModel::MakeIso {
                    program: if oks[1] {
                        dir + "/usr/bin/grub-mkrescue"@
                    } else {
                        "grub-mkrescue"@
                    },
                    arguments: seq!["-o"@, st.out, iso, "--"@, "-volid"@, "SMECHOS_LIVE"@],
                })
                &&& image_effect(s4) == (ImageEffectModel::RemoveDir { dir: iso })
                &&& image_effect(s5) == (ImageEffectModel::Over {
                    outcome: if oks[2] {
                        ImageOutcome::Bootable
                    } else {
                        ImageOutcome::IsoFailed
                    },
                })
            }
        }),
{
    if st.boot {
        let s1 = image_next(st, true);
        let s2 = image_next(s1, oks[0]);
        let s3 = image_next(s2, oks[1]);
        assert(s1.phase == ImagePhase::LayOut);
        assert(s2.phase == ImagePhase::ChooseTool);
        assert(s3.phase == ImagePhase::MakeIso);
    }
}

/// Where its directory cannot be made, an image is over at once.
pub proof fn no_image_without_a_directory(out: Seq<char>, names: Seq<Seq<char>>, pid: u32)
    ensures
        image_effect(image_next(image_begin(out, names, pid), false)) == (ImageEffectModel::Over {
            outcome: ImageOutcome::NoRoot,
        }),
{
}

} // verus!
