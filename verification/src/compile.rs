//! Building one package from its source.

use crate::control::{
    carries, control_of, control_round_trip, control_text, parsed_control_carries, render_control,
    ControlMeta, ControlModel,
};
use crate::number::{decimal, push_decimal};
use crate::paths::{below, join_path};
use crate::recipe::{
    a_section_holds_all_its_blocks, above, blocks, bodies, find_section, header, lowered,
    lowers_ascii, merged, parse_recipe, recipe_meta, recipe_sections, script,
    scripts_are_never_metadata, sections, Section, SectionModel,
};
use crate::text::{chars_of, lines, optional, string_of, trim, trimmed};
use crate::text_lemmas::lemma_trimmed_fixed;
use vstd::prelude::*;
use vstd::string::*;

verus! {

// ---------------------------------------------------------------- the plan

/// Why a recipe cannot be used.
#[derive(Clone, Copy, Debug, PartialEq, Eq, Structural)]
pub enum RecipeError {
    /// The header lacks the name or the version.
    NoNameOrVersion,
    /// The script that builds or the one that installs is missing or empty.
    NoScripts,
}

/// What building a package takes.
pub struct CompilePlan {
    pub meta: ControlMeta,
    pub build: String,
    pub install: String,
    /// The scripts that go into the package.
    pub hooks: Vec<Section>,
    /// The directory in which the package is built.
    pub root: String,
    pub out: String,
}

#[verifier::ext_equal]
pub struct PlanModel {
    pub meta: ControlModel,
    pub build: Seq<char>,
    pub install: Seq<char>,
    pub hooks: Seq<SectionModel>,
    pub root: Seq<char>,
    pub out: Seq<char>,
}

impl View for CompilePlan {
    type V = PlanModel;

    open spec fn view(&self) -> PlanModel {
        PlanModel {
            meta: self.meta@,
            build: self.build@,
            install: self.install@,
            hooks: sections(self.hooks@),
            root: self.root@,
            out: self.out@,
        }
    }
}

/// A script without the white space around it; empty where there is none.
pub open spec fn trimmed_script(ss: Seq<SectionModel>, name: Seq<char>) -> Seq<char> {
    match script(ss, name) {
        Some(body) => trimmed(body),
        None => seq![],
    }
}

/// Those of the named scripts that are there and hold more than white space.
pub open spec fn scripts_of(ss: Seq<SectionModel>, names: Seq<Seq<char>>) -> Seq<SectionModel>
    decreases names.len(),
{
    if names.len() == 0 {
        seq![]
    } else {
        let some = scripts_of(ss, names.drop_last());
        match script(ss, names.last()) {
            Some(body) if trimmed(body).len() > 0 => some.push(
                SectionModel { name: names.last(), body },
            ),
            _ => some,
        }
    }
}

/// The scripts that a package may carry.
pub open spec fn hook_names() -> Seq<Seq<char>> {
    seq!["preinst"@, "postinst"@, "prerm"@, "postrm"@]
}

/// The directory in which a package is built.
pub open spec fn build_root(name: Seq<char>, pid: u32, build: u64) -> Seq<char> {
    "/tmp/spk-compile-"@ + name + "-"@ + decimal(pid as nat) + "-"@ + decimal(build as nat)
}

/// The metadata with an architecture: the usual one, where none is given.
pub open spec fn with_architecture(m: ControlModel) -> ControlModel {
    if m.architecture.len() == 0 {
        ControlModel { architecture: "x86_64"@, ..m }
    } else {
        m
    }
}

/// The package's file: where none is given, it is named after the package.
pub open spec fn out_path(m: ControlModel, out: Option<Seq<char>>) -> Seq<char> {
    match out {
        Some(path) => path,
        None => m.name + "-"@ + m.version + ".spkg"@,
    }
}

/// What building a package takes, or why its recipe cannot be used.
pub open spec fn plan(
    m: ControlModel,
    ss: Seq<SectionModel>,
    pid: u32,
    build: u64,
    out: Option<Seq<char>>,
) -> Result<PlanModel, RecipeError> {
    if m.name.len() == 0 || m.version.len() == 0 {
        Err(RecipeError::NoNameOrVersion)
    } else if trimmed_script(ss, "build"@).len() == 0 || trimmed_script(ss, "install"@).len() == 0 {
        Err(RecipeError::NoScripts)
    } else {
        Ok(
            PlanModel {
                meta: with_architecture(m),
                build: trimmed_script(ss, "build"@),
                install: trimmed_script(ss, "install"@),
                hooks: scripts_of(ss, hook_names()),
                root: build_root(m.name, pid, build),
                out: out_path(m, out),
            },
        )
    }
}

/// What a plan says, or why there is none.
pub open spec fn planned(r: Result<CompilePlan, RecipeError>) -> Result<PlanModel, RecipeError> {
    match r {
        Ok(p) => Ok(p@),
        Err(e) => Err(e),
    }
}

fn trim_script(ss: &Vec<Section>, name: &str) -> (r: String)
    ensures
        r@ == trimmed_script(sections(ss@), name@),
{
    let k = find_section(ss, name);
    if k < ss.len() {
        assert(sections(ss@)[k as int] == ss@[k as int]@);
        let body = chars_of(ss[k].body.as_str());
        string_of(trim(body.as_slice()))
    } else {
        let r = String::new();
        assert(r@ =~= seq![]);
        r
    }
}

fn push_hook(
    hooks: &mut Vec<Section>,
    ss: &Vec<Section>,
    name: &str,
    Ghost(names): Ghost<Seq<Seq<char>>>,
)
    requires
        sections(old(hooks)@) == scripts_of(sections(ss@), names),
    ensures
        sections(final(hooks)@) == scripts_of(sections(ss@), names.push(name@)),
{
    let ghost had = hooks@;
    assert(names.push(name@).drop_last() =~= names);
    let k = find_section(ss, name);
    if k < ss.len() {
        assert(sections(ss@)[k as int] == ss@[k as int]@);
        let body = chars_of(ss[k].body.as_str());
        if trim(body.as_slice()).len() > 0 {
            let s = Section { name: name.to_string(), body: ss[k].body.clone() };
            hooks.push(s);
            assert(sections(hooks@) =~= sections(had).push(s@));
        }
    }
}

fn collect_hooks(ss: &Vec<Section>) -> (r: Vec<Section>)
    ensures
        sections(r@) == scripts_of(sections(ss@), hook_names()),
{
    let mut hooks: Vec<Section> = Vec::new();
    let ghost names = Seq::<Seq<char>>::empty();
    assert(sections(hooks@) =~= scripts_of(sections(ss@), names));
    push_hook(&mut hooks, ss, "preinst", Ghost(names));
    push_hook(&mut hooks, ss, "postinst", Ghost(names.push("preinst"@)));
    push_hook(&mut hooks, ss, "prerm", Ghost(names.push("preinst"@).push("postinst"@)));
    push_hook(
        &mut hooks,
        ss,
        "postrm",
        Ghost(names.push("preinst"@).push("postinst"@).push("prerm"@)),
    );
    assert(hook_names() =~= names.push("preinst"@).push("postinst"@).push("prerm"@).push(
        "postrm"@,
    ));
    hooks
}

/// Plans how a package is built. `build` tells apart what one process builds.
pub fn plan_package(
    meta: ControlMeta,
    ss: &Vec<Section>,
    pid: u32,
    build: u64,
    out: Option<&str>,
) -> (r: Result<CompilePlan, RecipeError>)
    ensures
        planned(r) == plan(meta@, sections(ss@), pid, build, optional(out)),
{
    if meta.name.as_str().is_empty() || meta.version.as_str().is_empty() {
        return Err(RecipeError::NoNameOrVersion);
    }
    let build_script = trim_script(ss, "build");
    let install_script = trim_script(ss, "install");
    if build_script.as_str().is_empty() || install_script.as_str().is_empty() {
        return Err(RecipeError::NoScripts);
    }
    let mut root = String::new();
    root.append("/tmp/spk-compile-");
    root.append(meta.name.as_str());
    root.append("-");
    push_decimal(&mut root, pid as u64);
    root.append("-");
    push_decimal(&mut root, build);
    assert(root@ =~= build_root(meta@.name, pid, build));
    let path = match out {
        Some(path) => path.to_string(),
        None => {
            let mut path = meta.name.clone();
            path.append("-");
            path.append(meta.version.as_str());
            path.append(".spkg");
            path
        },
    };
    let mut full = meta;
    if full.architecture.as_str().is_empty() {
        full.architecture = "x86_64".to_string();
    }
    let p = CompilePlan {
        meta: full,
        build: build_script,
        install: install_script,
        hooks: collect_hooks(ss),
        root,
        out: path,
    };
    Ok(p)
}


// ---------------------------------------------------------------- the building

/// Where the building of a package is.
#[derive(Clone, Copy, Debug, PartialEq, Eq, Structural)]
pub enum CompilePhase {
    MakeDirs,
    Build,
    Install,
    CheckStage,
    Control,
    Hooks,
    PackControl,
    PackData,
    Assemble,
    Clear,
    Over,
}

/// How the building of a package ends.
#[derive(Clone, Copy, Debug, PartialEq, Eq, Structural)]
pub enum CompileOutcome {
    Built,
    /// The directories could not be made.
    NoDirectory,
    /// The script that builds failed; the directory is left for inspection.
    BuildFailed,
    /// The script that installs failed; the directory is left for inspection.
    InstallFailed,
    /// The script that installs has put no file anywhere.
    NothingStaged,
    /// One of the package's parts could not be packed.
    NotPacked,
    /// The parts could not be put together.
    NotAssembled,
}

/// A package that is being built.
pub struct Compile {
    plan: CompilePlan,
    phase: CompilePhase,
    /// How many of the package's scripts have been written.
    written: usize,
    /// Whether the part with the metadata was packed.
    packed: bool,
    outcome: CompileOutcome,
}

#[verifier::ext_equal]
pub struct CompileModel {
    pub plan: PlanModel,
    pub phase: CompilePhase,
    pub written: nat,
    pub packed: bool,
    pub outcome: CompileOutcome,
}

impl View for Compile {
    type V = CompileModel;

    closed spec fn view(&self) -> CompileModel {
        CompileModel {
            plan: self.plan@,
            phase: self.phase,
            written: self.written as nat,
            packed: self.packed,
            outcome: self.outcome,
        }
    }
}

/// What is to be done; each is answered by whether it succeeded.
pub enum CompileEffect {
    /// Clear a directory away, and make two directories below it.
    MakeDirs { root: String, control: String, stage: String },
    /// Write a script and run it where the user is, with the directory to install into, if
    /// one is given.
    RunScript { dir: String, name: String, body: String, target: Option<String> },
    /// See whether there is anything in a directory.
    CheckStage { dir: String },
    WriteFile { path: String, content: String },
    /// Write a script.
    WriteScript { dir: String, name: String, body: String },
    /// Pack all that is in a directory.
    Pack { archive: String, dir: String },
    /// Put the two parts in a directory together.
    Assemble { archive: String, dir: String },
    RemoveDir { dir: String },
    Over { outcome: CompileOutcome },
}

#[verifier::ext_equal]
pub enum CompileEffectModel {
    MakeDirs { root: Seq<char>, control: Seq<char>, stage: Seq<char> },
    RunScript { dir: Seq<char>, name: Seq<char>, body: Seq<char>, target: Option<Seq<char>> },
    CheckStage { dir: Seq<char> },
    WriteFile { path: Seq<char>, content: Seq<char> },
    WriteScript { dir: Seq<char>, name: Seq<char>, body: Seq<char> },
    Pack { archive: Seq<char>, dir: Seq<char> },
    Assemble { archive: Seq<char>, dir: Seq<char> },
    RemoveDir { dir: Seq<char> },
    Over { outcome: CompileOutcome },
}

impl View for CompileEffect {
    type V = CompileEffectModel;

    open spec fn view(&self) -> CompileEffectModel {
        match self {
            CompileEffect::MakeDirs { root, control, stage } => CompileEffectModel::MakeDirs {
                root: root@,
                control: control@,
                stage: stage@,
            },
            CompileEffect::RunScript { dir, name, body, target } => CompileEffectModel::RunScript {
                dir: dir@,
                name: name@,
                body: body@,
                target: match target {
                    Some(s) => Some(s@),
                    None => None,
                },
            },
            CompileEffect::CheckStage { dir } => CompileEffectModel::CheckStage { dir: dir@ },
            CompileEffect::WriteFile { path, content } => CompileEffectModel::WriteFile {
                path: path@,
                content: content@,
            },
            CompileEffect::WriteScript { dir, name, body } => CompileEffectModel::WriteScript {
                dir: dir@,
                name: name@,
                body: body@,
            },
            CompileEffect::Pack { archive, dir } => CompileEffectModel::Pack {
                archive: archive@,
                dir: dir@,
            },
            CompileEffect::Assemble { archive, dir } => CompileEffectModel::Assemble {
                archive: archive@,
                dir: dir@,
            },
            CompileEffect::RemoveDir { dir } => CompileEffectModel::RemoveDir { dir: dir@ },
            CompileEffect::Over { outcome } => CompileEffectModel::Over { outcome: *outcome },
        }
    }
}

/// The building of a package, at its beginning.
pub open spec fn compile_begin(p: PlanModel) -> CompileModel {
    CompileModel {
        plan: p,
        phase: CompilePhase::MakeDirs,
        written: 0,
        packed: false,
        outcome: CompileOutcome::Built,
    }
}

/// What is to be done next.
pub open spec fn compile_effect(st: CompileModel) -> CompileEffectModel {
    let root = st.plan.root;
    let control = below(root, "control"@);
    let stage = below(root, "stage"@);
    match st.phase {
        CompilePhase::MakeDirs => CompileEffectModel::MakeDirs { root, control, stage },
        CompilePhase::Build => CompileEffectModel::RunScript {
            dir: root,
            name: "build.sh"@,
            body: st.plan.build,
            target: None,
        },
        CompilePhase::Install => CompileEffectModel::RunScript {
            dir: root,
            name: "install.sh"@,
            body: st.plan.install,
            target: Some(stage),
        },
        CompilePhase::CheckStage => CompileEffectModel::CheckStage { dir: stage },
        CompilePhase::Control => CompileEffectModel::WriteFile {
            path: below(control, "control"@),
            content: control_text(st.plan.meta),
        },
        CompilePhase::Hooks => CompileEffectModel::WriteScript {
            dir: control,
            name: st.plan.hooks[st.written as int].name,
            body: st.plan.hooks[st.written as int].body,
        },
        CompilePhase::PackControl => CompileEffectModel::Pack {
            archive: below(root, "control.tar.xz"@),
            dir: control,
        },
        CompilePhase::PackData => CompileEffectModel::Pack {
            archive: below(root, "data.tar.xz"@),
            dir: stage,
        },
        CompilePhase::Assemble => CompileEffectModel::Assemble { archive: st.plan.out, dir: root },
        CompilePhase::Clear => CompileEffectModel::RemoveDir { dir: root },
        CompilePhase::Over => CompileEffectModel::Over { outcome: st.outcome },
    }
}

pub open spec fn compile_at(st: CompileModel, phase: CompilePhase) -> CompileModel {
    CompileModel { phase, ..st }
}

/// The next phase, if all went well; the end, if not.
pub open spec fn compile_if(
    st: CompileModel,
    ok: bool,
    phase: CompilePhase,
    failure: CompileOutcome,
) -> CompileModel {
    if ok {
        compile_at(st, phase)
    } else {
        CompileModel { phase: CompilePhase::Over, outcome: failure, ..st }
    }
}

/// The phase in which the next of the package's scripts is written; once all are, the
/// phase after it.
pub open spec fn compile_hooks(st: CompileModel) -> CompileModel {
    compile_at(
        st,
        if st.written < st.plan.hooks.len() {
            CompilePhase::Hooks
        } else {
            CompilePhase::PackControl
        },
    )
}

/// What follows.
pub open spec fn compile_next(st: CompileModel, ok: bool) -> CompileModel {
    match st.phase {
        CompilePhase::MakeDirs => compile_if(
            st,
            ok,
            CompilePhase::Build,
            CompileOutcome::NoDirectory,
        ),
        CompilePhase::Build => compile_if(
            st,
            ok,
            CompilePhase::Install,
            CompileOutcome::BuildFailed,
        ),
        CompilePhase::Install => compile_if(
            st,
            ok,
            CompilePhase::CheckStage,
            CompileOutcome::InstallFailed,
        ),
        CompilePhase::CheckStage => compile_if(
            st,
            ok,
            CompilePhase::Control,
            CompileOutcome::NothingStaged,
        ),
        CompilePhase::Control => compile_hooks(st),
        CompilePhase::Hooks => compile_hooks(CompileModel { written: st.written + 1, ..st }),
        CompilePhase::PackControl => compile_at(
            CompileModel { packed: ok, ..st },
            CompilePhase::PackData,
        ),
        CompilePhase::PackData => compile_if(
            st,
            st.packed && ok,
            CompilePhase::Assemble,
            CompileOutcome::NotPacked,
        ),
        CompilePhase::Assemble => compile_at(
            CompileModel {
                outcome: if ok {
                    CompileOutcome::Built
                } else {
                    CompileOutcome::NotAssembled
                },
                ..st
            },
            CompilePhase::Clear,
        ),
        CompilePhase::Clear | CompilePhase::Over => compile_at(st, CompilePhase::Over),
    }
}

/// What holds while a package is being built.
pub open spec fn compile_valid(st: CompileModel) -> bool {
    &&& st.written <= st.plan.hooks.len()
    &&& st.phase == CompilePhase::Hooks ==> st.written < st.plan.hooks.len()
}

/// Begins to build the package of a recipe.
pub fn cmd_compile_package(text: &str, pid: u32, build: u64, out: Option<&str>) -> (r: Result<
    Compile,
    RecipeError,
>)
    ensures
        ({
            let p = plan(recipe_meta(text@), recipe_sections(text@), pid, build, optional(out));
            match r {
                Ok(c) => p matches Ok(p) && c@ == compile_begin(p) && compile_valid(c@),
                Err(e) => p == Err::<PlanModel, RecipeError>(e),
            }
        }),
        lowers_ascii(blocks(lines(text@))),
{
    let (meta, ss) = parse_recipe(text);
    match plan_package(meta, &ss, pid, build, out) {
        Ok(p) => Ok(Compile::new(p)),
        Err(e) => Err(e),
    }
}

impl Compile {
    /// Begins to build a package.
    pub fn new(plan: CompilePlan) -> (r: Compile)
        ensures
            r@ == compile_begin(plan@),
            compile_valid(r@),
    {
        Compile {
            plan,
            phase: CompilePhase::MakeDirs,
            written: 0,
            packed: false,
            outcome: CompileOutcome::Built,
        }
    }

    /// The plan that is being followed.
    pub fn plan(&self) -> (r: &CompilePlan)
        ensures
            r@ == self@.plan,
    {
        &self.plan
    }

    /// What is to be done next.
    pub fn effect(&self) -> (r: CompileEffect)
        requires
            compile_valid(self@),
        ensures
            r@ == compile_effect(self@),
    {
        let root = self.plan.root.clone();
        let control = join_path(root.as_str(), "control");
        let stage = join_path(root.as_str(), "stage");
        match self.phase {
            CompilePhase::MakeDirs => CompileEffect::MakeDirs { root, control, stage },
            CompilePhase::Build => CompileEffect::RunScript {
                dir: root,
                name: "build.sh".to_string(),
                body: self.plan.build.clone(),
                target: None,
            },
            CompilePhase::Install => CompileEffect::RunScript {
                dir: root,
                name: "install.sh".to_string(),
                body: self.plan.install.clone(),
                target: Some(stage),
            },
            CompilePhase::CheckStage => CompileEffect::CheckStage { dir: stage },
            CompilePhase::Control => CompileEffect::WriteFile {
                path: join_path(control.as_str(), "control"),
                content: render_control(&self.plan.meta),
            },
            CompilePhase::Hooks => {
                let hook = &self.plan.hooks[self.written];
                assert(self@.plan.hooks[self.written as int] == hook@);
                CompileEffect::WriteScript {
                    dir: control,
                    name: hook.name.clone(),
                    body: hook.body.clone(),
                }
            },
            CompilePhase::PackControl => CompileEffect::Pack {
                archive: join_path(root.as_str(), "control.tar.xz"),
                dir: control,
            },
            CompilePhase::PackData => CompileEffect::Pack {
                archive: join_path(root.as_str(), "data.tar.xz"),
                dir: stage,
            },
            CompilePhase::Assemble => CompileEffect::Assemble {
                archive: self.plan.out.clone(),
                dir: root,
            },
            CompilePhase::Clear => CompileEffect::RemoveDir { dir: root },
            CompilePhase::Over => CompileEffect::Over { outcome: self.outcome },
        }
    }

    fn go_if(&mut self, ok: bool, phase: CompilePhase, failure: CompileOutcome)
        ensures
            final(self)@ == compile_if(old(self)@, ok, phase, failure),
    {
        if ok {
            self.phase = phase;
        } else {
            self.phase = CompilePhase::Over;
            self.outcome = failure;
        }
    }

    fn go_on_with_hooks(&mut self)
        ensures
            final(self)@ == compile_hooks(old(self)@),
    {
        assert(self@.plan.hooks.len() == self.plan.hooks@.len());
        self.phase = if self.written < self.plan.hooks.len() {
            CompilePhase::Hooks
        } else {
            CompilePhase::PackControl
        };
    }

    /// Takes in whether the effect succeeded, and goes on to the next.
    pub fn advance(&mut self, ok: bool)
        requires
            compile_valid(old(self)@),
        ensures
            final(self)@ == compile_next(old(self)@, ok),
            compile_valid(final(self)@),
    {
        match self.phase {
            CompilePhase::MakeDirs => self.go_if(
                ok,
                CompilePhase::Build,
                CompileOutcome::NoDirectory,
            ),
            CompilePhase::Build => self.go_if(
                ok,
                CompilePhase::Install,
                CompileOutcome::BuildFailed,
            ),
            CompilePhase::Install => self.go_if(
                ok,
                CompilePhase::CheckStage,
                CompileOutcome::InstallFailed,
            ),
            CompilePhase::CheckStage => self.go_if(
                ok,
                CompilePhase::Control,
                CompileOutcome::NothingStaged,
            ),
            CompilePhase::Control => self.go_on_with_hooks(),
            CompilePhase::Hooks => {
                assert(self@.plan.hooks.len() == self.plan.hooks@.len());
                assert(self.written < self.plan.hooks.len());
                self.written = self.written + 1;
                self.go_on_with_hooks();
            },
            CompilePhase::PackControl => {
                self.packed = ok;
                self.phase = CompilePhase::PackData;
            },
            CompilePhase::PackData => {
                let both = self.packed && ok;
                self.go_if(both, CompilePhase::Assemble, CompileOutcome::NotPacked);
            },
            CompilePhase::Assemble => {
                self.outcome = if ok {
                    CompileOutcome::Built
                } else {
                    CompileOutcome::NotAssembled
                };
                self.phase = CompilePhase::Clear;
            },
            CompilePhase::Clear | CompilePhase::Over => {
                self.phase = CompilePhase::Over;
            },
        }
    }
}

// ---------------------------------------------------------------- laws

/// The state after some answers.
pub open spec fn compile_run(p: PlanModel, oks: Seq<bool>) -> CompileModel
    decreases oks.len(),
{
    if oks.len() == 0 {
        compile_begin(p)
    } else {
        compile_next(compile_run(p, oks.drop_last()), oks.last())
    }
}

/// How many answers lead to a state, if nothing has failed.
spec fn position(st: CompileModel) -> nat {
    let n = st.plan.hooks.len();
    match st.phase {
        CompilePhase::MakeDirs => 0,
        CompilePhase::Build => 1,
        CompilePhase::Install => 2,
        CompilePhase::CheckStage => 3,
        CompilePhase::Control => 4,
        CompilePhase::Hooks => 5 + st.written,
        CompilePhase::PackControl => 5 + n,
        CompilePhase::PackData => 6 + n,
        CompilePhase::Assemble => 7 + n,
        CompilePhase::Clear => 8 + n,
        CompilePhase::Over => 9 + n,
    }
}

proof fn lemma_compile_run(p: PlanModel, oks: Seq<bool>)
    ensures
        ({
            let st = compile_run(p, oks);
            let n = p.hooks.len();
            &&& compile_valid(st)
            &&& st.plan == p
            &&& st.phase != CompilePhase::Over ==> position(st) == oks.len()
            &&& position(st) < 5 ==> st.written == 0
            &&& st.phase == CompilePhase::Over || st.phase == CompilePhase::Clear ==> {
                st.outcome == CompileOutcome::Built ==> oks.len() >= 8 + n && oks[7 + n as int]
            }
            &&& st.phase != CompilePhase::Over || st.outcome == CompileOutcome::Built ==> {
                &&& oks.len() > 0 ==> oks[0]
                &&& oks.len() > 1 ==> oks[1]
                &&& oks.len() > 2 ==> oks[2]
                &&& oks.len() > 3 ==> oks[3]
                &&& oks.len() > 5 + n ==> oks[5 + n as int] == st.packed
                &&& oks.len() > 6 + n ==> oks[6 + n as int] && st.packed
            }
        }),
    decreases oks.len(),
{
    if oks.len() > 0 {
        lemma_compile_run(p, oks.drop_last());
        assert(forall|i: int| 0 <= i < oks.len() - 1 ==> oks.drop_last()[i] == oks[i]);
    }
}

/// None of the steps that a package needs has failed.
pub open spec fn all_well(p: PlanModel, oks: Seq<bool>) -> bool {
    let n = p.hooks.len() as int;
    &&& oks.len() > 0 ==> oks[0]
    &&& oks.len() > 1 ==> oks[1]
    &&& oks.len() > 2 ==> oks[2]
    &&& oks.len() > 3 ==> oks[3]
    &&& oks.len() > 5 + n ==> oks[5 + n]
    &&& oks.len() > 6 + n ==> oks[6 + n]
    &&& oks.len() > 7 + n ==> oks[7 + n]
}

/// Where none of these steps fails, the package comes out, whatever came of writing its
/// control file and scripts.
pub proof fn a_package_comes_out(p: PlanModel, oks: Seq<bool>)
    requires
        all_well(p, oks),
        oks.len() <= 9 + p.hooks.len(),
    ensures
        oks.len() == 9 + p.hooks.len() ==> compile_effect(compile_run(p, oks)) == (
        CompileEffectModel::Over { outcome: CompileOutcome::Built }),
        oks.len() < 9 + p.hooks.len() ==> !(compile_effect(compile_run(p, oks)) is Over),
    decreases oks.len(),
{
    if oks.len() > 0 {
        let fewer = oks.drop_last();
        assert(forall|i: int| 0 <= i < fewer.len() ==> fewer[i] == oks[i]);
        a_package_comes_out(p, fewer);
        lemma_compile_run(p, fewer);
        lemma_compile_run(p, oks);
    }
}

/// A package comes out only if its directories were made, both its scripts succeeded, the
/// second of them put something into place, both parts were packed, and they were put
/// together.
pub proof fn a_package_needs_all_its_steps(p: PlanModel, oks: Seq<bool>)
    requires
        compile_effect(compile_run(p, oks)) == (CompileEffectModel::Over {
            outcome: CompileOutcome::Built,
        }),
    ensures
        oks.len() >= 8 + p.hooks.len(),
        all_well(p, oks),
{
    lemma_compile_run(p, oks);
}

/// The directory in which a package is built is cleared away only once the parts have been
/// put together, or could not be: after a script has failed it stays.
pub proof fn failures_can_be_inspected(p: PlanModel, oks: Seq<bool>, k: int)
    requires
        0 <= k <= oks.len(),
        compile_effect(compile_run(p, oks.take(k))) is RemoveDir,
    ensures
        oks[0] && oks[1] && oks[2] && oks[3],
        k == 8 + p.hooks.len(),
{
    lemma_compile_run(p, oks.take(k));
    assert(forall|i: int| 0 <= i < k ==> oks.take(k)[i] == oks[i]);
}

/// The control file that goes into a package says what the recipe's header says, with the
/// usual architecture where the header gives none.
pub proof fn a_package_says_what_its_recipe_says(text: Seq<char>)
    ensures
        control_of(lines(control_text(with_architecture(recipe_meta(text))))) == with_architecture(
            recipe_meta(text),
        ),
{
    let m = with_architecture(recipe_meta(text));
    parsed_control_carries(header(lines(text)));
    reveal_strlit("x86_64");
    assert(carries(m)) by {
        let a = "x86_64"@;
        assert(forall|i: int| 0 <= i < a.len() ==> a[i] != '#' && a[i] != '\n');
    }
    control_round_trip(m);
}

/// The control file that a build writes into a package carries what the header of the recipe
/// says: the lines above the first marker. Only where the header gives no architecture, the
/// usual one stands in for it.
pub proof fn a_build_writes_what_the_header_says(
    text: Seq<char>,
    pid: u32,
    build: u64,
    out: Option<Seq<char>>,
    oks: Seq<bool>,
)
    ensures
        plan(recipe_meta(text), recipe_sections(text), pid, build, out) matches Ok(p) ==> (
        compile_effect(compile_run(p, oks)) matches CompileEffectModel::WriteFile { path, content }
            ==> {
            let m = control_of(above(lines(text)));
            let written = control_of(lines(content));
            &&& path == p.root + "/"@ + "control"@ + "/"@ + "control"@
            &&& written.name == m.name
            &&& written.version == m.version
            &&& written.depends == m.depends
            &&& written.description == m.description
            &&& m.architecture.len() > 0 ==> written.architecture == m.architecture
            &&& m.architecture.len() == 0 ==> written.architecture == "x86_64"@
        }),
{
    scripts_are_never_metadata(text);
    a_package_says_what_its_recipe_says(text);
    if let Ok(p) = plan(recipe_meta(text), recipe_sections(text), pid, build, out) {
        lemma_compile_run(p, oks);
    }
}

proof fn lemma_script_is_bodies(bs: Seq<SectionModel>, name: Seq<char>)
    ensures
        trimmed_script(merged(bs), name) == trimmed(bodies(bs, name)),
        script(merged(bs), name) is None ==> bodies(bs, name).len() == 0,
{
    a_section_holds_all_its_blocks(bs, name);
    if script(merged(bs), name) is None {
        lemma_no_bodies(bs, name);
        assert(bodies(bs, name) =~= seq![]);
        assert(trimmed(bodies(bs, name)) =~= seq![]);
    }
}

proof fn lemma_no_bodies(bs: Seq<SectionModel>, name: Seq<char>)
    requires
        forall|i: int| 0 <= i < bs.len() ==> #[trigger] bs[i].name != name,
    ensures
        bodies(bs, name).len() == 0,
    decreases bs.len(),
{
    if bs.len() > 0 {
        assert(bs[bs.len() - 1].name != name);
        assert forall|i: int| 0 <= i < bs.drop_last().len() implies #[trigger] bs.drop_last()[i].name
            != name by {
            assert(bs[i].name != name);
        }
        lemma_no_bodies(bs.drop_last(), name);
    }
}

/// A recipe can be used exactly if its header gives a name and a version, and its scripts to
/// build and to install hold more than white space. It is then built by those scripts, under
/// its name, into the file that was asked for, or one that is called after name and version.
pub proof fn a_recipe_is_followed(
    text: Seq<char>,
    pid: u32,
    build: u64,
    out: Option<Seq<char>>,
)
    ensures
        ({
            let m = control_of(above(lines(text)));
            let bs = lowered(blocks(lines(text)));
            let to_build = trimmed(bodies(bs, "build"@));
            let to_install = trimmed(bodies(bs, "install"@));
            match plan(recipe_meta(text), recipe_sections(text), pid, build, out) {
                Err(RecipeError::NoNameOrVersion) => m.name.len() == 0 || m.version.len() == 0,
                Err(RecipeError::NoScripts) => m.name.len() > 0 && m.version.len() > 0 && (
                to_build.len() == 0 || to_install.len() == 0),
                Ok(p) => {
                    &&& m.name.len() > 0 && m.version.len() > 0
                    &&& p.build == to_build && to_build.len() > 0
                    &&& p.install == to_install && to_install.len() > 0
                    &&& p.root == "/tmp/spk-compile-"@ + m.name + "-"@ + decimal(pid as nat) + "-"@
                        + decimal(build as nat)
                    &&& out matches Some(path) ==> p.out == path
                    &&& out is None ==> p.out == m.name + "-"@ + m.version + ".spkg"@
                },
            }
        }),
{
    scripts_are_never_metadata(text);
    let bs = lowered(blocks(lines(text)));
    lemma_script_is_bodies(bs, "build"@);
    lemma_script_is_bodies(bs, "install"@);
}

/// Besides its files a package carries those of four scripts that its recipe has, as they
/// stand there; blank ones are left out, and no other script goes in.
pub proof fn a_package_carries_its_scripts(
    text: Seq<char>,
    pid: u32,
    build: u64,
    out: Option<Seq<char>>,
    hook: SectionModel,
)
    ensures
        plan(recipe_meta(text), recipe_sections(text), pid, build, out) matches Ok(p) ==> {
            &&& p.hooks.contains(hook) <==> {
                &&& hook.name == "preinst"@ || hook.name == "postinst"@ || hook.name == "prerm"@
                    || hook.name == "postrm"@
                &&& hook.body == bodies(lowered(blocks(lines(text))), hook.name)
                &&& trimmed(hook.body).len() > 0
            }
            &&& p.hooks.len() <= 4
        },
{
    let bs = lowered(blocks(lines(text)));
    let ss = merged(bs);
    lemma_scripts_of(bs, hook_names(), hook);
    let names = hook_names();
    if names.contains(hook.name) {
        let k = choose|k: int| 0 <= k < names.len() && names[k] == hook.name;
        assert(names[k] == hook.name);
    }
    assert(names[0] == "preinst"@ && names[1] == "postinst"@ && names[2] == "prerm"@ && names[3]
        == "postrm"@);
}

proof fn lemma_scripts_of(bs: Seq<SectionModel>, names: Seq<Seq<char>>, hook: SectionModel)
    ensures
        scripts_of(merged(bs), names).contains(hook) <==> {
            &&& names.contains(hook.name)
            &&& hook.body == bodies(bs, hook.name)
            &&& trimmed(hook.body).len() > 0
        },
        scripts_of(merged(bs), names).len() <= names.len(),
    decreases names.len(),
{
    if names.len() > 0 {
        let ss = merged(bs);
        let fewer = names.drop_last();
        lemma_scripts_of(bs, fewer, hook);
        lemma_script_is_bodies(bs, names.last());
        a_section_holds_all_its_blocks(bs, names.last());
        let was = scripts_of(ss, fewer);
        let now = scripts_of(ss, names);
        assert(names.contains(hook.name) <==> fewer.contains(hook.name) || hook.name
            == names.last()) by {
            if fewer.contains(hook.name) {
                let k = choose|k: int| 0 <= k < fewer.len() && fewer[k] == hook.name;
                assert(names[k] == hook.name);
            }
            if hook.name == names.last() {
                assert(names[names.len() - 1] == hook.name);
            }
            if names.contains(hook.name) && hook.name != names.last() {
                let k = choose|k: int| 0 <= k < names.len() && names[k] == hook.name;
                assert(fewer[k] == hook.name);
            }
        }
        if was.contains(hook) {
            let k = choose|k: int| 0 <= k < was.len() && was[k] == hook;
            assert(now[k] == hook);
        }
        if now.contains(hook) && !was.contains(hook) {
            let k = choose|k: int| 0 <= k < now.len() && now[k] == hook;
            if k < was.len() {
                assert(was[k] == hook);
            }
        }
        if hook.name == names.last() && hook.body == bodies(bs, hook.name) && trimmed(
            hook.body,
        ).len() > 0 {
            lemma_trimmed_fixed(seq![]);
            assert(now.last() == hook);
            assert(now[now.len() - 1] == hook);
        }
    } else {
        assert(scripts_of(merged(bs), names) =~= seq![]);
    }
}

/// As long as nothing fails, a build takes its course: directories, the script that builds, the
/// script that installs below the stage, a look at the stage, the control file, the scripts
/// that the package carries, one archive of either directory, the package, and clearing up.
pub proof fn a_build_takes_its_course(p: PlanModel, oks: Seq<bool>)
    requires
        all_well(p, oks),
        oks.len() <= 9 + p.hooks.len(),
    ensures
        ({
            let e = compile_effect(compile_run(p, oks));
            let k = oks.len();
            let n = p.hooks.len();
            let control = p.root + "/"@ + "control"@;
            let stage = p.root + "/"@ + "stage"@;
            &&& k == 0 ==> e == (CompileEffectModel::MakeDirs { root: p.root, control, stage })
            &&& k == 1 ==> e == (CompileEffectModel::RunScript {
                dir: p.root,
                name: "build.sh"@,
                body: p.build,
                target: None,
            })
            &&& k == 2 ==> e == (CompileEffectModel::RunScript {
                dir: p.root,
                name: "install.sh"@,
                body: p.install,
                target: Some(stage),
            })
            &&& k == 3 ==> e == (CompileEffectModel::CheckStage { dir: stage })
            &&& k == 4 ==> e is WriteFile
            &&& 5 <= k < 5 + n ==> e == (CompileEffectModel::WriteScript {
                dir: control,
                name: p.hooks[k - 5].name,
                body: p.hooks[k - 5].body,
            })
            &&& k == 5 + n ==> e == (CompileEffectModel::Pack {
                archive: p.root + "/"@ + "control.tar.xz"@,
                dir: control,
            })
            &&& k == 6 + n ==> e == (CompileEffectModel::Pack {
                archive: p.root + "/"@ + "data.tar.xz"@,
                dir: stage,
            })
            &&& k == 7 + n ==> e == (CompileEffectModel::Assemble { archive: p.out, dir: p.root })
            &&& k == 8 + n ==> e == (CompileEffectModel::RemoveDir { dir: p.root })
            &&& k == 9 + n ==> e == (CompileEffectModel::Over { outcome: CompileOutcome::Built })
        }),
{
    a_package_comes_out(p, oks);
    lemma_compile_run(p, oks);
}

/// A step that a package cannot do without ends the build where it fails, and the outcome says
/// which step that was.
pub proof fn a_failed_step_ends_the_build(p: PlanModel, oks: Seq<bool>, ok: bool)
    requires
        all_well(p, oks),
    ensures
        ({
            let over = compile_effect(compile_run(p, oks.push(false)));
            let k = oks.len();
            let n = p.hooks.len();
            &&& k == 0 ==> over == (CompileEffectModel::Over {
                outcome: CompileOutcome::NoDirectory,
            })
            &&& k == 1 ==> over == (CompileEffectModel::Over {
                outcome: CompileOutcome::BuildFailed,
            })
            &&& k == 2 ==> over == (CompileEffectModel::Over {
                outcome: CompileOutcome::InstallFailed,
            })
            &&& k == 3 ==> over == (CompileEffectModel::Over {
                outcome: CompileOutcome::NothingStaged,
            })
            &&& k == 5 + n ==> compile_effect(compile_run(p, oks.push(false).push(ok))) == (
            CompileEffectModel::Over { outcome: CompileOutcome::NotPacked })
            &&& k == 6 + n ==> over == (CompileEffectModel::Over {
                outcome: CompileOutcome::NotPacked,
            })
            &&& k == 7 + n ==> over == (CompileEffectModel::RemoveDir { dir: p.root })
                && compile_effect(compile_run(p, oks.push(false).push(ok))) == (
            CompileEffectModel::Over { outcome: CompileOutcome::NotAssembled })
        }),
{
    if oks.len() <= 9 + p.hooks.len() {
        a_package_comes_out(p, oks);
    }
    lemma_compile_run(p, oks);
    assert(oks.push(false).drop_last() =~= oks);
    assert(oks.push(false).push(ok).drop_last() =~= oks.push(false));
}

} // verus!
