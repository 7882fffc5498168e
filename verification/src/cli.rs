//! The command line.

use crate::text::{
    begins, chars_of, ends, ends_with, equal, has_char, has_text, starts_with, text_of, texts,
};
use vstd::prelude::*;

verus! {

/// Whether an argument names a file rather than a package of a repository.
pub open spec fn is_local_path(s: Seq<char>) -> bool {
    s.contains('/') || begins(s, "."@) || begins(s, "~"@) || ends(s, ".spkg"@) || ends(
        s,
        ".tar.xz"@,
    )
}

/// Whether an argument names a file rather than a package of a repository.
pub fn looks_like_local_path(s: &str) -> (r: bool)
    ensures
        r == is_local_path(s@),
{
    let s = chars_of(s);
    let s = s.as_slice();
    has_char(s, '/') || starts_with(s, ".") || starts_with(s, "~") || ends_with(s, ".spkg")
        || ends_with(s, ".tar.xz")
}

// ---------------------------------------------------------------- commands

/// What the user asks for.
pub enum Command {
    Help,
    Version,
    About,
    /// Install a package from the repositories. The alias is the older name of the command,
    /// if that was used.
    Install { package: String, alias: Option<String> },
    /// Install a package from a file.
    InstallLocal { path: String, alias: Option<String> },
    LocalPackageRepo { folder: String },
    Remove { package: String, force: bool, yes: bool },
    List,
    Depends { package: String },
    CreateLiveImage { out: String, extra: Vec<String> },
    /// Upgrade the system; the command may have been called by its older name.
    SystemUpgrade { renamed: bool },
    Compile { recipe: String, output: Option<String> },
    BuildImage { arguments: Vec<String> },
    Deploy { code: String },
    ReceiveDeploy,
    PackagekitBackend,
}

#[verifier::ext_equal]
pub enum CommandModel {
    Help,
    Version,
    About,
    Install { package: Seq<char>, alias: Option<Seq<char>> },
    InstallLocal { path: Seq<char>, alias: Option<Seq<char>> },
    LocalPackageRepo { folder: Seq<char> },
    Remove { package: Seq<char>, force: bool, yes: bool },
    List,
    Depends { package: Seq<char> },
    CreateLiveImage { out: Seq<char>, extra: Seq<Seq<char>> },
    SystemUpgrade { renamed: bool },
    Compile { recipe: Seq<char>, output: Option<Seq<char>> },
    BuildImage { arguments: Seq<Seq<char>> },
    Deploy { code: Seq<char> },
    ReceiveDeploy,
    PackagekitBackend,
}

impl View for Command {
    type V = CommandModel;

    open spec fn view(&self) -> CommandModel {
        match self {
            Command::Help => CommandModel::Help,
            Command::Version => CommandModel::Version,
            Command::About => CommandModel::About,
            Command::Install { package, alias } => CommandModel::Install {
                package: package@,
                alias: text_of(*alias),
            },
            Command::InstallLocal { path, alias } => CommandModel::InstallLocal {
                path: path@,
                alias: text_of(*alias),
            },
            Command::LocalPackageRepo { folder } => CommandModel::LocalPackageRepo {
                folder: folder@,
            },
            Command::Remove { package, force, yes } => CommandModel::Remove {
                package: package@,
                force: *force,
                yes: *yes,
            },
            Command::List => CommandModel::List,
            Command::Depends { package } => CommandModel::Depends { package: package@ },
            Command::CreateLiveImage { out, extra } => CommandModel::CreateLiveImage {
                out: out@,
                extra: texts(extra@),
            },
            Command::SystemUpgrade { renamed } => CommandModel::SystemUpgrade { renamed: *renamed },
            Command::Compile { recipe, output } => CommandModel::Compile {
                recipe: recipe@,
                output: text_of(*output),
            },
            Command::BuildImage { arguments } => CommandModel::BuildImage {
                arguments: texts(arguments@),
            },
            Command::Deploy { code } => CommandModel::Deploy { code: code@ },
            Command::ReceiveDeploy => CommandModel::ReceiveDeploy,
            Command::PackagekitBackend => CommandModel::PackagekitBackend,
        }
    }
}

/// Why a command line cannot be followed.
pub enum UsageError {
    /// There is no package to install. The alias is the older name of the command, if that
    /// was used.
    NoPackage { alias: Option<String> },
    /// There is no path to install from.
    NoPath { alias: Option<String> },
    /// A file cannot be installed like a package of a repository.
    LocalPath { path: String, alias: Option<String> },
    NoFolder,
    NoPackageToRemove,
    NoPackageToShow,
    NoOutput,
    NoRecipe,
    NoCode,
    Unknown { command: String },
}

#[verifier::ext_equal]
pub enum UsageModel {
    NoPackage { alias: Option<Seq<char>> },
    NoPath { alias: Option<Seq<char>> },
    LocalPath { path: Seq<char>, alias: Option<Seq<char>> },
    NoFolder,
    NoPackageToRemove,
    NoPackageToShow,
    NoOutput,
    NoRecipe,
    NoCode,
    Unknown { command: Seq<char> },
}

impl View for UsageError {
    type V = UsageModel;

    open spec fn view(&self) -> UsageModel {
        match self {
            UsageError::NoPackage { alias } => UsageModel::NoPackage { alias: text_of(*alias) },
            UsageError::NoPath { alias } => UsageModel::NoPath { alias: text_of(*alias) },
            UsageError::LocalPath { path, alias } => UsageModel::LocalPath {
                path: path@,
                alias: text_of(*alias),
            },
            UsageError::NoFolder => UsageModel::NoFolder,
            UsageError::NoPackageToRemove => UsageModel::NoPackageToRemove,
            UsageError::NoPackageToShow => UsageModel::NoPackageToShow,
            UsageError::NoOutput => UsageModel::NoOutput,
            UsageError::NoRecipe => UsageModel::NoRecipe,
            UsageError::NoCode => UsageModel::NoCode,
            UsageError::Unknown { command } => UsageModel::Unknown { command: command@ },
        }
    }
}

/// What a command line asks for, or why it cannot be followed.
pub open spec fn parsed(r: Result<Command, UsageError>) -> Result<CommandModel, UsageModel> {
    match r {
        Ok(c) => Ok(c@),
        Err(e) => Err(e@),
    }
}

// ---------------------------------------------------------------- arguments

/// The index of the first argument that is either of two; their number, where none is.
pub open spec fn find(args: Seq<Seq<char>>, a: Seq<char>, b: Seq<char>) -> nat
    decreases args.len(),
{
    if args.len() == 0 || args[0] == a || args[0] == b {
        0
    } else {
        1 + find(args.drop_first(), a, b)
    }
}

/// The argument after a flag, which has two names.
pub open spec fn flag_value(args: Seq<Seq<char>>, a: Seq<char>, b: Seq<char>) -> Option<Seq<char>> {
    let k = find(args, a, b) + 1;
    if k < args.len() {
        Some(args[k as int])
    } else {
        None
    }
}

/// The index of the first argument that is no flag; their number, where all are.
pub open spec fn first_plain(args: Seq<Seq<char>>) -> nat
    decreases args.len(),
{
    if args.len() == 0 || !begins(args[0], "-"@) {
        0
    } else {
        1 + first_plain(args.drop_first())
    }
}

/// What `install` asks for, under that name or under an older one.
pub open spec fn install_command(rest: Seq<Seq<char>>, alias: Option<Seq<char>>) -> Result<
    CommandModel,
    UsageModel,
> {
    if rest.contains("--local-package"@) {
        match flag_value(rest, "--local-package"@, "--local-package"@) {
            Some(path) => Ok(CommandModel::InstallLocal { path, alias }),
            None => Err(UsageModel::NoPath { alias }),
        }
    } else if rest.len() == 0 {
        Err(UsageModel::NoPackage { alias })
    } else if is_local_path(rest[0]) {
        Err(UsageModel::LocalPath { path: rest[0], alias })
    } else {
        Ok(CommandModel::Install { package: rest[0], alias })
    }
}

pub open spec fn remove_command(rest: Seq<Seq<char>>) -> Result<CommandModel, UsageModel> {
    let k = first_plain(rest);
    if k < rest.len() {
        Ok(
            CommandModel::Remove {
                package: rest[k as int],
                force: rest.contains("--force"@),
                yes: rest.contains("-y"@) || rest.contains("--yes"@),
            },
        )
    } else {
        Err(UsageModel::NoPackageToRemove)
    }
}

pub open spec fn compile_command(rest: Seq<Seq<char>>) -> Result<CommandModel, UsageModel> {
    let k = first_plain(rest);
    if k < rest.len() {
        Ok(
            CommandModel::Compile {
                recipe: rest[k as int],
                output: flag_value(rest, "-o"@, "--output"@),
            },
        )
    } else {
        Err(UsageModel::NoRecipe)
    }
}

/// What a command that takes one argument asks for.
pub open spec fn with_one(
    rest: Seq<Seq<char>>,
    command: CommandModel,
    missing: UsageModel,
) -> Result<CommandModel, UsageModel> {
    if rest.len() == 0 {
        Err(missing)
    } else {
        Ok(command)
    }
}

/// What the arguments of the program ask for, or why they cannot be followed.
pub open spec fn command_of(args: Seq<Seq<char>>) -> Result<CommandModel, UsageModel> {
    if args.len() == 0 {
        Ok(CommandModel::Help)
    } else {
        let c = args[0];
        let rest = args.skip(1);
        if c == "help"@ || c == "--help"@ || c == "-h"@ {
            Ok(CommandModel::Help)
        } else if c == "version"@ || c == "--version"@ || c == "-v"@ {
            Ok(CommandModel::Version)
        } else if c == "about"@ {
            Ok(CommandModel::About)
        } else if c == "install"@ {
            install_command(rest, None)
        } else if c == "local-package-repo"@ {
            with_one(
                rest,
                CommandModel::LocalPackageRepo { folder: rest[0] },
                UsageModel::NoFolder,
            )
        } else if c == "remove"@ || c == "uninstall"@ {
            remove_command(rest)
        } else if c == "list"@ {
            Ok(CommandModel::List)
        } else if c == "depends"@ {
            with_one(rest, CommandModel::Depends { package: rest[0] }, UsageModel::NoPackageToShow)
        } else if c == "create-live-image"@ {
            with_one(
                rest,
                CommandModel::CreateLiveImage { out: rest[0], extra: rest.skip(1) },
                UsageModel::NoOutput,
            )
        } else if c == "system-upgrade"@ {
            Ok(CommandModel::SystemUpgrade { renamed: false })
        } else if c == "compile"@ {
            compile_command(rest)
        } else if c == "build-image"@ {
            Ok(CommandModel::BuildImage { arguments: rest })
        } else if c == "deploy-system-img-copy"@ {
            with_one(rest, CommandModel::Deploy { code: rest[0] }, UsageModel::NoCode)
        } else if c == "receive-deploy"@ {
            Ok(CommandModel::ReceiveDeploy)
        } else if c == "packagekit-backend"@ {
            Ok(CommandModel::PackagekitBackend)
        } else if c == "system-install"@ || c == "userland-install"@ {
            install_command(rest, Some(c))
        } else if c == "entire-system-upgrade"@ {
            Ok(CommandModel::SystemUpgrade { renamed: true })
        } else {
            Err(UsageModel::Unknown { command: c })
        }
    }
}

// ---------------------------------------------------------------- reading them

fn tail(args: &Vec<String>) -> (r: Vec<String>)
    ensures
        args@.len() > 0 ==> texts(r@) == texts(args@).skip(1),
{
    let ghost all = texts(args@);
    let mut r: Vec<String> = Vec::new();
    let mut i: usize = 1;
    assert(args@.len() > 0 ==> texts(r@) =~= all.subrange(1, 1));
    while i < args.len()
        invariant
            1 <= i,
            args@.len() > 0 ==> i <= args@.len(),
            all == texts(args@),
            args@.len() > 0 ==> texts(r@) == all.subrange(1, i as int),
        decreases args@.len() - i,
    {
        let ghost had = r@;
        r.push(args[i].clone());
        proof {
            assert(all[i as int] == args@[i as int]@);
            assert(all.subrange(1, i + 1) =~= all.subrange(1, i as int).push(all[i as int]));
            assert(texts(r@) =~= texts(had).push(all[i as int]));
        }
        i += 1;
    }
    assert(args@.len() > 0 ==> all.subrange(1, i as int) =~= all.skip(1));
    r
}

fn find_flag(args: &Vec<String>, a: &str, b: &str) -> (r: Option<String>)
    ensures
        text_of(r) == flag_value(texts(args@), a@, b@),
{
    let ghost all = texts(args@);
    let mut i: usize = 0;
    assert(all.skip(0) =~= all);
    while i < args.len() && !equal(args[i].as_str(), a) && !equal(args[i].as_str(), b)
        invariant
            i <= args@.len(),
            all == texts(args@),
            find(all, a@, b@) == i + find(all.skip(i as int), a@, b@),
        decreases args@.len() - i,
    {
        assert(all.skip(i as int)[0] == args@[i as int]@);
        assert(all.skip(i as int).drop_first() =~= all.skip(i + 1));
        i += 1;
    }
    proof {
        if i < args.len() {
            assert(all.skip(i as int)[0] == args@[i as int]@);
        }
    }
    if i < args.len() && i + 1 < args.len() {
        assert(all[i + 1] == args@[i + 1]@);
        Some(args[i + 1].clone())
    } else {
        None
    }
}

fn find_plain(args: &Vec<String>) -> (r: usize)
    ensures
        r == first_plain(texts(args@)),
        r <= args@.len(),
{
    let ghost all = texts(args@);
    let mut i: usize = 0;
    assert(all.skip(0) =~= all);
    while i < args.len() && is_flag(args[i].as_str())
        invariant
            i <= args@.len(),
            all == texts(args@),
            first_plain(all) == i + first_plain(all.skip(i as int)),
        decreases args@.len() - i,
    {
        assert(all.skip(i as int)[0] == args@[i as int]@);
        assert(all.skip(i as int).drop_first() =~= all.skip(i + 1));
        i += 1;
    }
    proof {
        if i < args.len() {
            assert(all.skip(i as int)[0] == args@[i as int]@);
        }
    }
    i
}

fn is_flag(s: &str) -> (r: bool)
    ensures
        r == begins(s@, "-"@),
{
    let s = chars_of(s);
    starts_with(s.as_slice(), "-")
}

fn read_install(rest: &Vec<String>, alias: Option<String>) -> (r: Result<Command, UsageError>)
    ensures
        parsed(r) == install_command(texts(rest@), text_of(alias)),
{
    assert(texts(rest@).len() == rest@.len());
    if has_text(rest, "--local-package") {
        match find_flag(rest, "--local-package", "--local-package") {
            Some(path) => Ok(Command::InstallLocal { path, alias }),
            None => Err(UsageError::NoPath { alias }),
        }
    } else if rest.len() == 0 {
        Err(UsageError::NoPackage { alias })
    } else {
        assert(texts(rest@)[0] == rest@[0]@);
        if looks_like_local_path(rest[0].as_str()) {
            Err(UsageError::LocalPath { path: rest[0].clone(), alias })
        } else {
            Ok(Command::Install { package: rest[0].clone(), alias })
        }
    }
}

fn read_remove(rest: &Vec<String>) -> (r: Result<Command, UsageError>)
    ensures
        parsed(r) == remove_command(texts(rest@)),
{
    let k = find_plain(rest);
    if k < rest.len() {
        assert(texts(rest@)[k as int] == rest@[k as int]@);
        Ok(
            Command::Remove {
                package: rest[k].clone(),
                force: has_text(rest, "--force"),
                yes: has_text(rest, "-y") || has_text(rest, "--yes"),
            },
        )
    } else {
        Err(UsageError::NoPackageToRemove)
    }
}

fn read_compile(rest: &Vec<String>) -> (r: Result<Command, UsageError>)
    ensures
        parsed(r) == compile_command(texts(rest@)),
{
    let k = find_plain(rest);
    if k < rest.len() {
        assert(texts(rest@)[k as int] == rest@[k as int]@);
        Ok(
            Command::Compile {
                recipe: rest[k].clone(),
                output: find_flag(rest, "-o", "--output"),
            },
        )
    } else {
        Err(UsageError::NoRecipe)
    }
}

/// What the arguments of the program, without its own name, ask for.
pub fn parse_arguments(args: &Vec<String>) -> (r: Result<Command, UsageError>)
    ensures
        parsed(r) == command_of(texts(args@)),
{
    let ghost all = texts(args@);
    assert(all.len() == args@.len());
    if args.len() == 0 {
        return Ok(Command::Help);
    }
    assert(all[0] == args@[0]@);
    let c = args[0].as_str();
    let rest = tail(args);
    assert(texts(rest@) == all.skip(1));
    assert(texts(rest@).len() == rest@.len());
    let first = if rest.len() > 0 {
        assert(texts(rest@)[0] == rest@[0]@);
        Some(rest[0].clone())
    } else {
        None
    };
    if equal(c, "help") || equal(c, "--help") || equal(c, "-h") {
        Ok(Command::Help)
    } else if equal(c, "version") || equal(c, "--version") || equal(c, "-v") {
        Ok(Command::Version)
    } else if equal(c, "about") {
        Ok(Command::About)
    } else if equal(c, "install") {
        read_install(&rest, None)
    } else if equal(c, "local-package-repo") {
        match first {
            Some(folder) => Ok(Command::LocalPackageRepo { folder }),
            None => Err(UsageError::NoFolder),
        }
    } else if equal(c, "remove") || equal(c, "uninstall") {
        read_remove(&rest)
    } else if equal(c, "list") {
        Ok(Command::List)
    } else if equal(c, "depends") {
        match first {
            Some(package) => Ok(Command::Depends { package }),
            None => Err(UsageError::NoPackageToShow),
        }
    } else if equal(c, "create-live-image") {
        match first {
            Some(out) => Ok(Command::CreateLiveImage { out, extra: tail(&rest) }),
            None => Err(UsageError::NoOutput),
        }
    } else if equal(c, "system-upgrade") {
        Ok(Command::SystemUpgrade { renamed: false })
    } else if equal(c, "compile") {
        read_compile(&rest)
    } else if equal(c, "build-image") {
        Ok(Command::BuildImage { arguments: rest })
    } else if equal(c, "deploy-system-img-copy") {
        match first {
            Some(code) => Ok(Command::Deploy { code }),
            None => Err(UsageError::NoCode),
        }
    } else if equal(c, "receive-deploy") {
        Ok(Command::ReceiveDeploy)
    } else if equal(c, "packagekit-backend") {
        Ok(Command::PackagekitBackend)
    } else if equal(c, "system-install") || equal(c, "userland-install") {
        read_install(&rest, Some(args[0].clone()))
    } else if equal(c, "entire-system-upgrade") {
        Ok(Command::SystemUpgrade { renamed: true })
    } else {
        Err(UsageError::Unknown { command: args[0].clone() })
    }
}

// ---------------------------------------------------------------- laws

/// Under whatever name, a file is never taken for a package: from a file, a package is
/// installed only where the flag for that is given.
pub proof fn files_are_installed_by_flag_only(args: Seq<Seq<char>>)
    ensures
        command_of(args) matches Ok(CommandModel::InstallLocal { .. }) ==> args.contains(
            "--local-package"@,
        ),
        command_of(args) matches Ok(CommandModel::Install { package, .. }) ==> !is_local_path(
            package,
        ),
{
    let rest = args.skip(1);
    if args.len() > 0 && rest.contains("--local-package"@) {
        let k = choose|k: int| 0 <= k < rest.len() && rest[k] == "--local-package"@;
        assert(args[k + 1] == "--local-package"@);
    }
}

/// The same request under the present name of its command.
pub open spec fn under_present_name(r: Result<CommandModel, UsageModel>) -> Result<
    CommandModel,
    UsageModel,
> {
    match r {
        Ok(CommandModel::Install { package, .. }) => Ok(
            CommandModel::Install { package, alias: None },
        ),
        Ok(CommandModel::InstallLocal { path, .. }) => Ok(
            CommandModel::InstallLocal { path, alias: None },
        ),
        Ok(CommandModel::SystemUpgrade { .. }) => Ok(CommandModel::SystemUpgrade { renamed: false }),
        Err(UsageModel::NoPackage { .. }) => Err(UsageModel::NoPackage { alias: None }),
        Err(UsageModel::NoPath { .. }) => Err(UsageModel::NoPath { alias: None }),
        Err(UsageModel::LocalPath { path, .. }) => Err(UsageModel::LocalPath { path, alias: None }),
        _ => r,
    }
}

/// The older names of commands still work: with any arguments, each asks for what the
/// present name asks for, and is refused where that is, but for the note that it is older.
pub proof fn older_names_still_work(rest: Seq<Seq<char>>)
    ensures
        under_present_name(command_of(seq!["system-install"@] + rest)) == command_of(
            seq!["install"@] + rest,
        ),
        under_present_name(command_of(seq!["userland-install"@] + rest)) == command_of(
            seq!["install"@] + rest,
        ),
        under_present_name(command_of(seq!["entire-system-upgrade"@] + rest)) == command_of(
            seq!["system-upgrade"@] + rest,
        ),
        command_of(seq!["system-install"@] + rest) == install_command(
            rest,
            Some("system-install"@),
        ),
        command_of(seq!["userland-install"@] + rest) == install_command(
            rest,
            Some("userland-install"@),
        ),
        command_of(seq!["entire-system-upgrade"@] + rest) == Ok::<CommandModel, UsageModel>(
            CommandModel::SystemUpgrade { renamed: true },
        ),
{
    lemma_names_differ();
    assert((seq!["install"@] + rest).skip(1) =~= rest);
    assert((seq!["system-install"@] + rest).skip(1) =~= rest);
    assert((seq!["userland-install"@] + rest).skip(1) =~= rest);
}

proof fn lemma_first_plain(args: Seq<Seq<char>>)
    ensures
        first_plain(args) <= args.len(),
        forall|j: int| 0 <= j < first_plain(args) ==> begins(#[trigger] args[j], "-"@),
        first_plain(args) < args.len() ==> !begins(args[first_plain(args) as int], "-"@),
    decreases args.len(),
{
    if args.len() > 0 && begins(args[0], "-"@) {
        let later = args.drop_first();
        lemma_first_plain(later);
        assert forall|j: int| 0 <= j < first_plain(args) implies begins(#[trigger] args[j], "-"@) by {
            if j > 0 {
                assert(args[j] == later[j - 1]);
            }
        }
        if first_plain(later) < later.len() {
            assert(args[first_plain(args) as int] == later[first_plain(later) as int]);
        }
    }
}

proof fn lemma_find(args: Seq<Seq<char>>, a: Seq<char>, b: Seq<char>)
    ensures
        find(args, a, b) <= args.len(),
        forall|j: int| 0 <= j < find(args, a, b) ==> #[trigger] args[j] != a && args[j] != b,
        find(args, a, b) < args.len() ==> args[find(args, a, b) as int] == a || args[find(
            args,
            a,
            b,
        ) as int] == b,
    decreases args.len(),
{
    if args.len() > 0 && args[0] != a && args[0] != b {
        let later = args.drop_first();
        lemma_find(later, a, b);
        assert forall|j: int| 0 <= j < find(args, a, b) implies #[trigger] args[j] != a && args[j]
            != b by {
            if j > 0 {
                assert(args[j] == later[j - 1]);
            }
        }
        if find(later, a, b) < later.len() {
            assert(args[find(args, a, b) as int] == later[find(later, a, b) as int]);
        }
    }
}

/// Whether an argument is a flag.
pub open spec fn dashed(s: Seq<char>) -> bool {
    s.len() > 0 && s[0] == '-'
}

proof fn lemma_dashed()
    ensures
        forall|s: Seq<char>| #[trigger] begins(s, "-"@) <==> dashed(s),
        dashed("-y"@),
        dashed("--yes"@),
        dashed("--force"@),
        dashed("-o"@),
        dashed("--output"@),
        dashed("--local-package"@),
{
    reveal_strlit("-");
    reveal_strlit("-y");
    reveal_strlit("--yes");
    reveal_strlit("--force");
    reveal_strlit("-o");
    reveal_strlit("--output");
    reveal_strlit("--local-package");
    assert forall|s: Seq<char>| #[trigger] begins(s, "-"@) <==> dashed(s) by {
        if begins(s, "-"@) {
            assert(s.take(1)[0] == "-"@[0]);
        }
        if dashed(s) {
            assert(s.take(1) =~= "-"@);
        }
    }
}

/// The argument at `k` is the first that is no flag.
pub open spec fn is_first_plain(args: Seq<Seq<char>>, k: int) -> bool {
    &&& 0 <= k < args.len()
    &&& !dashed(args[k])
    &&& forall|j: int| 0 <= j < k ==> dashed(#[trigger] args[j])
}

/// A removal goes ahead unasked only where the user has said so, and against other packages'
/// wishes only where the user has said that: nothing but the flags for it makes it so.
pub proof fn a_removal_asks_unless_told_not_to(args: Seq<Seq<char>>)
    ensures
        command_of(args) matches Ok(CommandModel::Remove { package, force, yes }) ==> {
            &&& args.len() > 1 && (args[0] == "remove"@ || args[0] == "uninstall"@)
            &&& yes <==> args.skip(1).contains("-y"@) || args.skip(1).contains("--yes"@)
            &&& force <==> args.skip(1).contains("--force"@)
            &&& exists|k: int| #[trigger] is_first_plain(args.skip(1), k) && package == args.skip(1)[k]
        },
{
    let rest = args.skip(1);
    lemma_dashed();
    lemma_first_plain(rest);
    if command_of(args) is Ok && command_of(args)->Ok_0 is Remove {
        assert(is_first_plain(rest, first_plain(rest) as int));
    }
}

/// A package is removed under both names of the command: the first argument that is no flag.
/// Without flags, the user is asked, and other packages are heeded. Where all arguments are
/// flags, there is nothing to remove.
pub proof fn a_removal_names_its_package(rest: Seq<Seq<char>>, k: int)
    ensures
        command_of(seq!["uninstall"@] + rest) == command_of(seq!["remove"@] + rest),
        is_first_plain(rest, k) ==> (command_of(seq!["remove"@] + rest) matches Ok(
            CommandModel::Remove { package, .. },
        ) && package == rest[k]),
        (forall|j: int| 0 <= j < rest.len() ==> dashed(#[trigger] rest[j])) ==> command_of(
            seq!["remove"@] + rest,
        ) == Err::<CommandModel, UsageModel>(UsageModel::NoPackageToRemove),
        rest.len() == 1 && !dashed(rest[0]) ==> command_of(seq!["remove"@] + rest) == Ok::<
            CommandModel,
            UsageModel,
        >(CommandModel::Remove { package: rest[0], force: false, yes: false }),
{
    lemma_names_differ();
    lemma_dashed();
    lemma_first_plain(rest);
    assert((seq!["remove"@] + rest).skip(1) =~= rest);
    assert((seq!["uninstall"@] + rest).skip(1) =~= rest);
}

/// The argument at `k` is the first that is one of two.
pub open spec fn is_first_of(args: Seq<Seq<char>>, a: Seq<char>, b: Seq<char>, k: int) -> bool {
    &&& 0 <= k < args.len()
    &&& args[k] == a || args[k] == b
    &&& forall|j: int| 0 <= j < k ==> #[trigger] args[j] != a && args[j] != b
}

/// `install` installs what its first argument names, unless that is the path of a file, in
/// which case it is refused by that path; with its flag it installs the file after the flag,
/// and is refused where nothing follows.
pub proof fn an_installation_names_its_package(rest: Seq<Seq<char>>, k: int)
    ensures
        ({
            let r = command_of(seq!["install"@] + rest);
            let flag = "--local-package"@;
            &&& !rest.contains(flag) && rest.len() == 0 ==> r == Err::<CommandModel, UsageModel>(
                UsageModel::NoPackage { alias: None },
            )
            &&& !rest.contains(flag) && rest.len() > 0 && !is_local_path(rest[0]) ==> r == Ok::<
                CommandModel,
                UsageModel,
            >(CommandModel::Install { package: rest[0], alias: None })
            &&& !rest.contains(flag) && rest.len() > 0 && is_local_path(rest[0]) ==> r == Err::<
                CommandModel,
                UsageModel,
            >(UsageModel::LocalPath { path: rest[0], alias: None })
            &&& is_first_of(rest, flag, flag, k) && k + 1 < rest.len() ==> r == Ok::<
                CommandModel,
                UsageModel,
            >(CommandModel::InstallLocal { path: rest[k + 1], alias: None })
            &&& is_first_of(rest, flag, flag, k) && k + 1 == rest.len() ==> r == Err::<
                CommandModel,
                UsageModel,
            >(UsageModel::NoPath { alias: None })
        }),
{
    lemma_names_differ();
    assert((seq!["install"@] + rest).skip(1) =~= rest);
    let flag = "--local-package"@;
    lemma_find(rest, flag, flag);
    let f = find(rest, flag, flag) as int;
    if is_first_of(rest, flag, flag, k) {
        assert(rest.contains(flag));
        assert(k == f) by {
            if f < k {
                assert(rest[f] != flag);
            }
        }
    }
}

/// What looks like the path of a file: it has a slash, or begins with a dot or a tilde, or
/// ends as packages do.
pub proof fn what_a_path_looks_like(s: Seq<char>, t: Seq<char>)
    ensures
        s.contains('/') ==> is_local_path(s),
        is_local_path(seq!['.'] + s),
        is_local_path(seq!['~'] + s),
        is_local_path(s + ".spkg"@),
        is_local_path(s + ".tar.xz"@),
        is_local_path(t) ==> {
            ||| t.contains('/')
            ||| t.len() > 0 && (t[0] == '.' || t[0] == '~')
            ||| exists|u: Seq<char>| t == #[trigger] (u + ".spkg"@)
            ||| exists|u: Seq<char>| t == #[trigger] (u + ".tar.xz"@)
        },
{
    reveal_strlit(".");
    reveal_strlit("~");
    assert((seq!['.'] + s).take(1) =~= "."@);
    assert((seq!['~'] + s).take(1) =~= "~"@);
    assert((s + ".spkg"@).skip(s.len() as int) =~= ".spkg"@);
    assert((s + ".tar.xz"@).skip(s.len() as int) =~= ".tar.xz"@);
    if begins(t, "."@) {
        assert(t.take(1)[0] == "."@[0]);
    }
    if begins(t, "~"@) {
        assert(t.take(1)[0] == "~"@[0]);
    }
    if ends(t, ".spkg"@) {
        assert(t =~= t.take(t.len() - ".spkg"@.len()) + ".spkg"@);
    }
    if ends(t, ".tar.xz"@) {
        assert(t =~= t.take(t.len() - ".tar.xz"@.len()) + ".tar.xz"@);
    }
}

/// A package is built from the recipe that the first argument which is no flag names, into
/// the file after the flag for that, if there is one.
pub proof fn a_build_names_its_recipe(rest: Seq<Seq<char>>, k: int, f: int)
    ensures
        (forall|j: int| 0 <= j < rest.len() ==> dashed(#[trigger] rest[j])) ==> command_of(
            seq!["compile"@] + rest,
        ) == Err::<CommandModel, UsageModel>(UsageModel::NoRecipe),
        is_first_plain(rest, k) && is_first_of(rest, "-o"@, "--output"@, f) && f + 1 < rest.len()
            ==> command_of(seq!["compile"@] + rest) == Ok::<CommandModel, UsageModel>(
            CommandModel::Compile { recipe: rest[k], output: Some(rest[f + 1]) },
        ),
        is_first_plain(rest, k) && (rest.last() == "-o"@ || rest.last() == "--output"@)
            && is_first_of(rest, "-o"@, "--output"@, rest.len() - 1) ==> command_of(
            seq!["compile"@] + rest,
        ) == Ok::<CommandModel, UsageModel>(
            CommandModel::Compile { recipe: rest[k], output: None },
        ),
        is_first_plain(rest, k) && !rest.contains("-o"@) && !rest.contains("--output"@)
            ==> command_of(seq!["compile"@] + rest) == Ok::<CommandModel, UsageModel>(
            CommandModel::Compile { recipe: rest[k], output: None },
        ),
{
    lemma_names_differ();
    lemma_dashed();
    lemma_first_plain(rest);
    lemma_find(rest, "-o"@, "--output"@);
    assert((seq!["compile"@] + rest).skip(1) =~= rest);
    let p = first_plain(rest) as int;
    let g = find(rest, "-o"@, "--output"@) as int;
    if is_first_plain(rest, k) {
        assert(p == k) by {
            if p < k {
                assert(dashed(rest[p]));
            }
        }
    }
    if is_first_of(rest, "-o"@, "--output"@, f) {
        assert(g == f) by {
            if g < f {
                assert(rest[g] != "-o"@);
            }
        }
    }
    if is_first_of(rest, "-o"@, "--output"@, rest.len() - 1) {
        assert(g == rest.len() - 1) by {
            if g < rest.len() - 1 {
                assert(rest[g] != "-o"@);
            }
        }
    }
    if g < rest.len() {
        assert(rest.contains(rest[g]));
    }
}

/// What each of the other commands asks for, whatever arguments follow.
pub proof fn commands_ask_for_what_they_say(rest: Seq<Seq<char>>)
    ensures
        command_of(seq![]) == Ok::<CommandModel, UsageModel>(CommandModel::Help),
        forall|c: Seq<char>|
            c == "help"@ || c == "--help"@ || c == "-h"@ ==> #[trigger] command_of(seq![c] + rest)
                == Ok::<CommandModel, UsageModel>(CommandModel::Help),
        forall|c: Seq<char>|
            c == "version"@ || c == "--version"@ || c == "-v"@ ==> #[trigger] command_of(
                seq![c] + rest,
            ) == Ok::<CommandModel, UsageModel>(CommandModel::Version),
        command_of(seq!["about"@] + rest) == Ok::<CommandModel, UsageModel>(CommandModel::About),
        command_of(seq!["list"@] + rest) == Ok::<CommandModel, UsageModel>(CommandModel::List),
        command_of(seq!["system-upgrade"@] + rest) == Ok::<CommandModel, UsageModel>(
            CommandModel::SystemUpgrade { renamed: false },
        ),
        command_of(seq!["build-image"@] + rest) == Ok::<CommandModel, UsageModel>(
            CommandModel::BuildImage { arguments: rest },
        ),
        command_of(seq!["receive-deploy"@] + rest) == Ok::<CommandModel, UsageModel>(
            CommandModel::ReceiveDeploy,
        ),
        command_of(seq!["packagekit-backend"@] + rest) == Ok::<CommandModel, UsageModel>(
            CommandModel::PackagekitBackend,
        ),
{
    lemma_names_differ();
    assert((seq!["build-image"@] + rest).skip(1) =~= rest);
    assert forall|c: Seq<char>| true implies (#[trigger] (seq![c] + rest))[0] == c by {}
}

/// What each command asks for that is about one thing, which its first argument names, and
/// that none of them can do without.
pub proof fn commands_ask_about_their_argument(first: Seq<char>, more: Seq<Seq<char>>)
    ensures
        command_of(seq!["depends"@, first] + more) == Ok::<CommandModel, UsageModel>(
            CommandModel::Depends { package: first },
        ),
        command_of(seq!["local-package-repo"@, first] + more) == Ok::<CommandModel, UsageModel>(
            CommandModel::LocalPackageRepo { folder: first },
        ),
        command_of(seq!["deploy-system-img-copy"@, first] + more) == Ok::<
            CommandModel,
            UsageModel,
        >(CommandModel::Deploy { code: first }),
        command_of(seq!["create-live-image"@, first] + more) == Ok::<CommandModel, UsageModel>(
            CommandModel::CreateLiveImage { out: first, extra: more },
        ),
        command_of(seq!["depends"@]) == Err::<CommandModel, UsageModel>(
            UsageModel::NoPackageToShow,
        ),
        command_of(seq!["local-package-repo"@]) == Err::<CommandModel, UsageModel>(
            UsageModel::NoFolder,
        ),
        command_of(seq!["deploy-system-img-copy"@]) == Err::<CommandModel, UsageModel>(
            UsageModel::NoCode,
        ),
        command_of(seq!["create-live-image"@]) == Err::<CommandModel, UsageModel>(
            UsageModel::NoOutput,
        ),
{
    lemma_names_differ();
    let args = seq!["create-live-image"@, first] + more;
    assert(args.skip(1).skip(1) =~= more);
}

/// A command that has no name among these is refused by its own name, and no other is
/// refused for that.
pub proof fn only_unknown_commands_are_unknown(args: Seq<Seq<char>>)
    ensures
        command_of(args) matches Err(UsageModel::Unknown { command }) ==> args.len() > 0 && command
            == args[0],
        command_of(args) matches Err(UsageModel::Unknown { .. }) <==> args.len() > 0 && !seq![
            "help"@,
            "--help"@,
            "-h"@,
            "version"@,
            "--version"@,
            "-v"@,
            "about"@,
            "install"@,
            "local-package-repo"@,
            "remove"@,
            "uninstall"@,
            "list"@,
            "depends"@,
            "create-live-image"@,
            "system-upgrade"@,
            "compile"@,
            "build-image"@,
            "deploy-system-img-copy"@,
            "receive-deploy"@,
            "packagekit-backend"@,
            "system-install"@,
            "userland-install"@,
            "entire-system-upgrade"@,
        ].contains(args[0]),
{
    let names = seq![
        "help"@,
        "--help"@,
        "-h"@,
        "version"@,
        "--version"@,
        "-v"@,
        "about"@,
        "install"@,
        "local-package-repo"@,
        "remove"@,
        "uninstall"@,
        "list"@,
        "depends"@,
        "create-live-image"@,
        "system-upgrade"@,
        "compile"@,
        "build-image"@,
        "deploy-system-img-copy"@,
        "receive-deploy"@,
        "packagekit-backend"@,
        "system-install"@,
        "userland-install"@,
        "entire-system-upgrade"@,
    ];
    if args.len() > 0 {
        let c = args[0];
        if names.contains(c) {
            let k = choose|k: int| 0 <= k < names.len() && names[k] == c;
            assert(names[k] == c);
        } else {
            assert(names[0] != c && names[1] != c && names[2] != c && names[3] != c && names[4] != c
                && names[5] != c && names[6] != c && names[7] != c && names[8] != c && names[9] != c
                && names[10] != c && names[11] != c && names[12] != c && names[13] != c && names[14]
                != c && names[15] != c && names[16] != c && names[17] != c && names[18] != c
                && names[19] != c && names[20] != c && names[21] != c && names[22] != c);
        }
    }
}

/// What tells the names of commands apart.
proof fn lemma_names_differ()
    ensures
        "help"@.len() == 4 && "help"@[0] == 'h',
        "--help"@.len() == 6 && "--help"@[0] == '-',
        "-h"@.len() == 2 && "-h"@[1] == 'h',
        "version"@.len() == 7 && "version"@[0] == 'v',
        "--version"@.len() == 9 && "--version"@[0] == '-',
        "-v"@.len() == 2 && "-v"@[1] == 'v',
        "about"@.len() == 5,
        "install"@.len() == 7 && "install"@[0] == 'i',
        "local-package-repo"@.len() == 18 && "local-package-repo"@[0] == 'l',
        "remove"@.len() == 6 && "remove"@[0] == 'r',
        "uninstall"@.len() == 9 && "uninstall"@[0] == 'u',
        "list"@.len() == 4 && "list"@[0] == 'l',
        "depends"@.len() == 7 && "depends"@[0] == 'd',
        "create-live-image"@.len() == 17,
        "system-upgrade"@.len() == 14 && "system-upgrade"@[0] == 's' && "system-upgrade"@[7] == 'u',
        "compile"@.len() == 7 && "compile"@[0] == 'c',
        "build-image"@.len() == 11,
        "deploy-system-img-copy"@.len() == 22,
        "receive-deploy"@.len() == 14 && "receive-deploy"@[0] == 'r',
        "packagekit-backend"@.len() == 18 && "packagekit-backend"@[0] == 'p',
        "system-install"@.len() == 14 && "system-install"@[0] == 's' && "system-install"@[7] == 'i',
        "userland-install"@.len() == 16,
        "entire-system-upgrade"@.len() == 21,
{
    reveal_strlit("help");
    reveal_strlit("--help");
    reveal_strlit("-h");
    reveal_strlit("version");
    reveal_strlit("--version");
    reveal_strlit("-v");
    reveal_strlit("about");
    reveal_strlit("install");
    reveal_strlit("local-package-repo");
    reveal_strlit("remove");
    reveal_strlit("uninstall");
    reveal_strlit("list");
    reveal_strlit("depends");
    reveal_strlit("create-live-image");
    reveal_strlit("system-upgrade");
    reveal_strlit("compile");
    reveal_strlit("build-image");
    reveal_strlit("deploy-system-img-copy");
    reveal_strlit("receive-deploy");
    reveal_strlit("packagekit-backend");
    reveal_strlit("system-install");
    reveal_strlit("userland-install");
    reveal_strlit("entire-system-upgrade");
}

} // verus!
