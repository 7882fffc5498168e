//! The command lines of the system's tools.

use crate::text::texts;
use vstd::prelude::*;
use vstd::string::*;

verus! {

/// A program and its arguments.
pub struct CommandLine {
    pub program: String,
    pub arguments: Vec<String>,
}

#[verifier::ext_equal]
pub struct CommandLineModel {
    pub program: Seq<char>,
    pub arguments: Seq<Seq<char>>,
}

impl View for CommandLine {
    type V = CommandLineModel;

    open spec fn view(&self) -> CommandLineModel {
        CommandLineModel { program: self.program@, arguments: texts(self.arguments@) }
    }
}

pub open spec fn line(program: Seq<char>, arguments: Seq<Seq<char>>) -> CommandLineModel {
    CommandLineModel { program, arguments }
}

fn line_of_3(program: &str, a: &str, b: &str, c: &str) -> (r: CommandLine)
    ensures
        r@ == line(program@, seq![a@, b@, c@]),
{
    let mut v: Vec<String> = Vec::new();
    v.push(a.to_string());
    v.push(b.to_string());
    v.push(c.to_string());
    assert(texts(v@) =~= seq![a@, b@, c@]);
    CommandLine { program: program.to_string(), arguments: v }
}

fn line_of_4(program: &str, a: &str, b: &str, c: &str, d: &str) -> (r: CommandLine)
    ensures
        r@ == line(program@, seq![a@, b@, c@, d@]),
{
    let mut r = line_of_3(program, a, b, c);
    let ghost some = r.arguments@;
    r.arguments.push(d.to_string());
    assert(texts(r.arguments@) =~= texts(some).push(d@));
    assert(texts(r.arguments@) =~= seq![a@, b@, c@, d@]);
    r
}

/// Fetches a URL into a file.
pub fn fetch_command(url: &str, dest: &str) -> (r: CommandLine)
    ensures
        r@ == line("curl"@, seq!["-sfL"@, "-o"@, dest@, url@]),
{
    line_of_4("curl", "-sfL", "-o", dest, url)
}

/// Extracts an archive into a directory.
pub fn unpack_command(archive: &str, dir: &str) -> (r: CommandLine)
    ensures
        r@ == line("tar"@, seq!["-xf"@, archive@, "-C"@, dir@]),
{
    line_of_4("tar", "-xf", archive, "-C", dir)
}

/// What a shell is told to extract an archive into a system.
pub open spec fn extract_script(archive: Seq<char>, root: Seq<char>) -> Seq<char> {
    "tar -xf '"@ + archive + "' -C '"@ + root + "'"@
}

/// Extracts an archive into a system, with the rights that takes.
pub fn extract_command(archive: &str, root: &str, privileged: bool) -> (r: CommandLine)
    ensures
        r@ == if privileged {
            line("sh"@, seq!["-c"@, extract_script(archive@, root@)])
        } else {
            line("sudo"@, seq!["-S"@, "sh"@, "-c"@, extract_script(archive@, root@)])
        },
{
    let mut script = String::new();
    script.append("tar -xf '");
    script.append(archive);
    script.append("' -C '");
    script.append(root);
    script.append("'");
    assert(script@ =~= extract_script(archive@, root@));
    if privileged {
        let mut v: Vec<String> = Vec::new();
        v.push("-c".to_string());
        v.push(script);
        assert(texts(v@) =~= seq!["-c"@, script@]);
        CommandLine { program: "sh".to_string(), arguments: v }
    } else {
        line_of_4("sudo", "-S", "sh", "-c", script.as_str())
    }
}

/// Lists the members of an archive.
pub fn list_command(archive: &str) -> (r: CommandLine)
    ensures
        r@ == line("tar"@, seq!["-tf"@, archive@]),
{
    let mut v: Vec<String> = Vec::new();
    v.push("-tf".to_string());
    v.push(archive.to_string());
    assert(texts(v@) =~= seq!["-tf"@, archive@]);
    CommandLine { program: "tar".to_string(), arguments: v }
}

/// Packs all that is in a directory.
pub fn pack_command(archive: &str, dir: &str) -> (r: CommandLine)
    ensures
        r@ == line("tar"@, seq!["-cJf"@, archive@, "-C"@, dir@, "."@]),
{
    let mut r = line_of_4("tar", "-cJf", archive, "-C", dir);
    let ghost some = r.arguments@;
    r.arguments.push(".".to_string());
    assert(texts(r.arguments@) =~= texts(some).push("."@));
    assert(texts(r.arguments@) =~= seq!["-cJf"@, archive@, "-C"@, dir@, "."@]);
    r
}

/// Puts the two parts of a package in a directory together.
pub fn assemble_command(archive: &str, dir: &str) -> (r: CommandLine)
    ensures
        r@ == line(
            "tar"@,
            seq!["-cf"@, archive@, "-C"@, dir@, "control.tar.xz"@, "data.tar.xz"@],
        ),
{
    let mut r = line_of_4("tar", "-cf", archive, "-C", dir);
    let ghost some = r.arguments@;
    r.arguments.push("control.tar.xz".to_string());
    r.arguments.push("data.tar.xz".to_string());
    assert(texts(r.arguments@) =~= texts(some).push("control.tar.xz"@).push("data.tar.xz"@));
    assert(texts(r.arguments@) =~= seq![
        "-cf"@,
        archive@,
        "-C"@,
        dir@,
        "control.tar.xz"@,
        "data.tar.xz"@,
    ]);
    r
}

/// Extracts a packed archive that comes in on standard input.
pub fn receive_command(dir: &str) -> (r: CommandLine)
    ensures
        r@ == line("tar"@, seq!["-xJf"@, "-"@, "-C"@, dir@]),
{
    line_of_4("tar", "-xJf", "-", "-C", dir)
}

/// Writes standard input to a file, with the rights of root.
pub fn write_as_root_command(path: &str) -> (r: CommandLine)
    ensures
        r@ == line("sudo"@, seq!["-S"@, "tee"@, path@]),
{
    line_of_3("sudo", "-S", "tee", path)
}

/// Removes a file, with the rights of root.
pub fn remove_as_root_command(path: &str) -> (r: CommandLine)
    ensures
        r@ == line("sudo"@, seq!["-S"@, "rm"@, "-f"@, path@]),
{
    line_of_4("sudo", "-S", "rm", "-f", path)
}

/// Makes a directory, with the rights of root.
pub fn make_dir_as_root_command(path: &str) -> (r: CommandLine)
    ensures
        r@ == line("sudo"@, seq!["-S"@, "mkdir"@, "-p"@, path@]),
{
    line_of_4("sudo", "-S", "mkdir", "-p", path)
}

/// A command is the program that is named and the arguments that are given to it, and an
/// archive is extracted by quoting both its path and that of the system.
pub proof fn what_a_command_is(
    program: Seq<char>,
    arguments: Seq<Seq<char>>,
    archive: Seq<char>,
    root: Seq<char>,
)
    ensures
        line(program, arguments).program == program,
        line(program, arguments).arguments == arguments,
        extract_script(archive, root) == "tar -xf '"@ + archive + "' -C '"@ + root + "'"@,
{
}

} // verus!
