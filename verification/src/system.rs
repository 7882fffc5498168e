//! What kind of system this is, judged by what exists on it.

use crate::std_text::from_utf8;
use crate::text::{chars_of, has_text, is_text, texts, trim, trimmed};
use vstd::prelude::*;

verus! {

/// The system that packages go into: the one that is mounted for it, if it is, given
/// the paths that exist.
pub fn target_root(existing: &Vec<String>) -> (r: &'static str)
    ensures
        r@ == if texts(existing@).contains("/mnt/smechos"@) {
            "/mnt/smechos"@
        } else {
            "/"@
        },
{
    if has_text(existing, "/mnt/smechos") {
        "/mnt/smechos"
    } else {
        "/"
    }
}

/// Whether this is a SmechVisor system, given the paths that exist.
pub open spec fn visor(existing: Seq<Seq<char>>) -> bool {
    existing.contains("/usr/bin/smechvisord"@) || existing.contains("/etc/smechvisor-release"@)
}

/// Whether this is a SmechVisor system, given the paths that exist.
pub fn is_smechvisor(existing: &Vec<String>) -> (r: bool)
    ensures
        r == visor(texts(existing@)),
{
    has_text(existing, "/usr/bin/smechvisord") || has_text(existing, "/etc/smechvisor-release")
}

/// The place of the image builder: of the places where it can be, the first that exists.
pub open spec fn builder(existing: Seq<Seq<char>>) -> Option<Seq<char>> {
    if existing.contains("/usr/share/spk/spk-compile.py"@) {
        Some("/usr/share/spk/spk-compile.py"@)
    } else if existing.contains("/opt/smechdeploy/spk-compile.py"@) {
        Some("/opt/smechdeploy/spk-compile.py"@)
    } else if existing.contains("spk-compile.py"@) {
        Some("spk-compile.py"@)
    } else {
        None
    }
}

/// The place of the image builder, given the paths that exist.
pub fn find_spk_compile(existing: &Vec<String>) -> (r: Option<String>)
    ensures
        match r {
            Some(path) => builder(texts(existing@)) == Some(path@),
            None => builder(texts(existing@)) is None,
        },
{
    if has_text(existing, "/usr/share/spk/spk-compile.py") {
        Some("/usr/share/spk/spk-compile.py".to_string())
    } else if has_text(existing, "/opt/smechdeploy/spk-compile.py") {
        Some("/opt/smechdeploy/spk-compile.py".to_string())
    } else if has_text(existing, "spk-compile.py") {
        Some("spk-compile.py".to_string())
    } else {
        None
    }
}

/// Whether the user is the superuser, given what the command for the user's number has
/// printed, or `None` where it did not run.
pub fn is_root(output: Option<Vec<u8>>) -> (r: bool)
    ensures
        r == (output matches Some(bytes) && vstd::utf8::valid_utf8(bytes@) && trimmed(
            vstd::utf8::decode_utf8(bytes@),
        ) == "0"@),
{
    match output {
        Some(bytes) => match from_utf8(bytes) {
            Some(text) => {
                let chars = chars_of(text.as_str());
                is_text(trim(chars.as_slice()), "0")
            },
            None => false,
        },
        None => false,
    }
}


/// The arguments with which Python runs the image builder, given the paths that exist;
/// `None` where the builder is not to be found.
pub fn cmd_build_image(existing: &Vec<String>, args: &Vec<String>) -> (r: Option<Vec<String>>)
    ensures
        match (r, builder(texts(existing@))) {
            (Some(all), Some(path)) => texts(all@) == seq![path] + texts(args@),
            (None, None) => true,
            _ => false,
        },
{
    let path = find_spk_compile(existing)?;
    let ghost given = texts(args@);
    let ghost place = path@;
    let mut all: Vec<String> = Vec::new();
    all.push(path);
    let mut i: usize = 0;
    assert(texts(all@) =~= seq![place] + given.take(0));
    while i < args.len()
        invariant
            i <= args@.len(),
            given == texts(args@),
            texts(all@) == seq![place] + given.take(i as int),
        decreases args@.len() - i,
    {
        let ghost had = all@;
        all.push(args[i].clone());
        proof {
            assert(given[i as int] == args@[i as int]@);
            assert(given.take(i + 1) =~= given.take(i as int).push(given[i as int]));
            assert(texts(all@) =~= texts(had).push(given[i as int]));
            assert(texts(all@) =~= seq![place] + given.take(i + 1));
        }
        i += 1;
    }
    assert(given.take(i as int) =~= given);
    Some(all)
}

/// The exit code after the image builder has run: its own, if it failed with one.
pub fn build_exit(success: bool, code: Option<i32>) -> (r: i32)
    ensures
        r == if success {
            0
        } else {
            match code {
                Some(c) => c as int,
                None => 1,
            }
        },
{
    if success {
        0
    } else {
        match code {
            Some(c) => c,
            None => 1,
        }
    }
}

/// A system is SmechVisor exactly if it has the daemon or says so itself.
pub proof fn what_makes_a_smechvisor(existing: Seq<Seq<char>>)
    ensures
        visor(existing) <==> exists|i: int|
            0 <= i < existing.len() && (#[trigger] existing[i] == "/usr/bin/smechvisord"@
                || existing[i] == "/etc/smechvisor-release"@),
{
    if visor(existing) {
        if existing.contains("/usr/bin/smechvisord"@) {
            let i = choose|i: int|
                0 <= i < existing.len() && existing[i] == "/usr/bin/smechvisord"@;
            assert(existing[i] == "/usr/bin/smechvisord"@);
        } else {
            let i = choose|i: int|
                0 <= i < existing.len() && existing[i] == "/etc/smechvisor-release"@;
            assert(existing[i] == "/etc/smechvisor-release"@);
        }
    }
}

/// The image builder is taken from the first of three places where it is: what is installed
/// with the system goes before what was put beside it, and that before the working directory.
pub proof fn where_the_builder_is(existing: Seq<Seq<char>>)
    ensures
        ({
            let first = existing.contains("/usr/share/spk/spk-compile.py"@);
            let second = existing.contains("/opt/smechdeploy/spk-compile.py"@);
            let third = existing.contains("spk-compile.py"@);
            &&& first ==> builder(existing) == Some("/usr/share/spk/spk-compile.py"@)
            &&& !first && second ==> builder(existing) == Some("/opt/smechdeploy/spk-compile.py"@)
            &&& !first && !second && third ==> builder(existing) == Some("spk-compile.py"@)
            &&& builder(existing) is None <==> !first && !second && !third
        }),
{
}

} // verus!
