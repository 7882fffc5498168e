//! Deploying SmechVisor from one machine to another over the network.
//!
//! The machine that is to be set up makes a code up and keeps announcing it. The machine
//! that has the packages waits for that announcement, and sends them.

use crate::number::{digit, hex, push_hex};
use crate::std_text::{from_utf8_lossy, lossy};
use crate::text::{chars_of, is_space, is_text, texts, trim, trimmed};
use crate::text_lemmas::lemma_trimmed_fixed;
use vstd::prelude::*;
use vstd::string::*;

verus! {

// ---------------------------------------------------------------- the code

/// What a code is made of: some bits of the time and of the number of the process.
pub open spec fn code_value(nanos: u128, pid: u32) -> u128 {
    (nanos ^ ((pid as u128) << 17u128)) & 0x0fff_ffff
}

/// The code of a machine that is to be set up: seven digits.
pub open spec fn code(nanos: u128, pid: u32) -> Seq<char> {
    hex(code_value(nanos, pid) as nat, 7)
}

/// Makes a code up from the time and the number of the process.
pub fn gen_code(nanos: u128, pid: u32) -> (r: String)
    ensures
        r@ == code(nanos, pid),
{
    let v: u128 = (nanos ^ ((pid as u128) << 17u128)) & 0x0fff_ffff;
    assert(v <= 0x0fff_ffff) by (bit_vector)
        requires
            v == (nanos ^ ((pid as u128) << 17u128)) & 0x0fff_ffff,
    ;
    let mut r = String::new();
    push_hex(&mut r, v as u64, 7);
    assert(r@ =~= code(nanos, pid));
    r
}

/// What a machine that is to be set up announces.
pub open spec fn announcement(code: Seq<char>) -> Seq<char> {
    "SMECHVISOR_SHIM:"@ + code
}

/// What a machine that is to be set up announces.
pub fn announce(code: &str) -> (r: String)
    ensures
        r@ == announcement(code@),
{
    let mut r = String::new();
    r.append("SMECHVISOR_SHIM:");
    r.append(code);
    assert(r@ =~= announcement(code@));
    r
}

/// Whether a text is the announcement of a code, apart from white space around it.
pub fn announces(text: &str, code: &str) -> (r: bool)
    ensures
        r == (trimmed(text@) == announcement(code@)),
{
    let chars = chars_of(text);
    is_text(trim(chars.as_slice()), announce(code).as_str())
}

/// Whether a datagram is the announcement of a code.
pub fn is_announcement(datagram: &[u8], code: &str) -> (r: bool)
    ensures
        r == (trimmed(lossy(datagram@)) == announcement(code@)),
        vstd::utf8::valid_utf8(datagram@) ==> r == (trimmed(
            vstd::utf8::decode_utf8(datagram@),
        ) == announcement(code@)),
{
    announces(from_utf8_lossy(datagram).as_str(), code)
}

/// The packages that are deployed, in the order in which they are sent.
pub open spec fn deployed() -> Seq<Seq<char>> {
    seq!["smechvisor-base"@, "smechvisor-daemon"@]
}

/// The packages that are deployed, in the order in which they are sent.
pub fn deploy_packages() -> (r: Vec<String>)
    ensures
        texts(r@) == deployed(),
{
    let mut v: Vec<String> = Vec::new();
    v.push("smechvisor-base".to_string());
    v.push("smechvisor-daemon".to_string());
    assert(texts(v@) =~= deployed());
    v
}

/// The file that a package is fetched into before it is sent.
pub open spec fn fetched_file(package: Seq<char>) -> Seq<char> {
    "/tmp/spk-deploy-"@ + package + ".tar.xz"@
}

/// The file that a package is fetched into before it is sent.
pub fn deploy_file(package: &str) -> (r: String)
    ensures
        r@ == fetched_file(package@),
{
    let mut r = String::new();
    r.append("/tmp/spk-deploy-");
    r.append(package);
    r.append(".tar.xz");
    assert(r@ =~= fetched_file(package@));
    r
}

/// A code has seven digits.
proof fn lemma_hex(n: nat, width: nat)
    ensures
        hex(n, width).len() == width,
        forall|i: int| 0 <= i < width ==> exists|d: nat| d < 16 && #[trigger] digit(d) == #[trigger] hex(
            n,
            width,
        )[i],
    decreases width,
{
    if width > 0 {
        let w = (width - 1) as nat;
        lemma_hex(n / 16, w);
        assert forall|i: int| 0 <= i < width implies exists|d: nat|
            d < 16 && #[trigger] digit(d) == #[trigger] hex(n, width)[i] by {
            if i < w {
                assert(hex(n, width)[i] == hex(n / 16, w)[i]);
            } else {
                assert(digit(n % 16) == hex(n, width)[i]);
            }
        }
    }
}

/// A machine that announces its code is found by that code, and by no other.
pub proof fn a_code_finds_its_machine(nanos: u128, pid: u32, other: Seq<char>)
    ensures
        code(nanos, pid).len() == 7,
        trimmed(announcement(code(nanos, pid))) == announcement(other) <==> other == code(
            nanos,
            pid,
        ),
{
    let c = code(nanos, pid);
    let a = announcement(c);
    let prefix = "SMECHVISOR_SHIM:"@;
    reveal_strlit("SMECHVISOR_SHIM:");
    lemma_hex(code_value(nanos, pid) as nat, 7);
    assert(c[6] == a.last());
    let d = choose|d: nat| d < 16 && #[trigger] digit(d) == c[6];
    assert(!is_space(a.last()));
    assert(a[0] == 'S');
    lemma_trimmed_fixed(a);
    if announcement(other) == a {
        assert(announcement(other).skip(prefix.len() as int) =~= other);
        assert(a.skip(prefix.len() as int) =~= c);
    }
}

/// The number that hexadecimal digits stand for.
pub open spec fn hex_value(s: Seq<char>) -> nat
    decreases s.len(),
{
    if s.len() == 0 {
        0
    } else {
        hex_value(s.drop_last()) * 16 + if '0' <= s.last() <= '9' {
            (s.last() as nat - 48) as nat
        } else {
            (s.last() as nat - 87) as nat
        }
    }
}

spec fn hex_limit(width: nat) -> nat
    decreases width,
{
    if width == 0 {
        1
    } else {
        16 * hex_limit((width - 1) as nat)
    }
}

proof fn lemma_hex_value(n: nat, width: nat)
    requires
        n < hex_limit(width),
    ensures
        hex_value(hex(n, width)) == n,
    decreases width,
{
    if width > 0 {
        let w = (width - 1) as nat;
        lemma_hex_value(n / 16, w);
        assert(hex(n, width).drop_last() =~= hex(n / 16, w));
        assert(hex(n, width).last() == digit(n % 16));
    }
}

/// A code stands for the lowest bits of the time, mixed with those of the number of the
/// process: machines whose bits differ have different codes.
pub proof fn a_code_is_made_of_time_and_process(nanos: u128, pid: u32, later: u128, other: u32)
    ensures
        hex_value(code(nanos, pid)) == (nanos ^ ((pid as u128) << 17u128)) & 0x0fff_ffff,
        (nanos & 0x0fff_ffff) != (later & 0x0fff_ffff) ==> code(nanos, pid) != code(later, pid),
        (pid & 0x7ff) != (other & 0x7ff) ==> code(nanos, pid) != code(nanos, other),
{
    reveal_with_fuel(hex_limit, 8);
    let a = code_value(nanos, pid);
    let b = code_value(later, pid);
    let c = code_value(nanos, other);
    let x = (pid as u128) << 17u128;
    let y = (other as u128) << 17u128;
    assert((nanos ^ x) & 0x0fff_ffff <= 0x0fff_ffff) by (bit_vector);
    assert((later ^ x) & 0x0fff_ffff <= 0x0fff_ffff) by (bit_vector);
    assert((nanos ^ y) & 0x0fff_ffff <= 0x0fff_ffff) by (bit_vector);
    lemma_hex_value(a as nat, 7);
    lemma_hex_value(b as nat, 7);
    lemma_hex_value(c as nat, 7);
    assert((nanos & 0x0fff_ffff) != (later & 0x0fff_ffff) ==> ((nanos ^ x) & 0x0fff_ffff) != ((later
        ^ x) & 0x0fff_ffff)) by (bit_vector);
    assert((pid & 0x7ff) != (other & 0x7ff) ==> ((nanos ^ ((pid as u128) << 17u128)) & 0x0fff_ffff)
        != ((nanos ^ ((other as u128) << 17u128)) & 0x0fff_ffff)) by (bit_vector);
}

/// What machines say to each other, and what is sent from one to the other by way of which
/// files.
pub proof fn what_a_deployment_is_about(code: Seq<char>, package: Seq<char>)
    ensures
        announcement(code) == "SMECHVISOR_SHIM:"@ + code,
        deployed() == seq!["smechvisor-base"@, "smechvisor-daemon"@],
        fetched_file(package) == "/tmp/spk-deploy-"@ + package + ".tar.xz"@,
{
}

} // verus!
