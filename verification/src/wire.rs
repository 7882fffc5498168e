//! The wire format in which packages go from one machine to another.
//!
//! A package is the length of its name in four bytes, the name, the length of its data in
//! eight bytes, and the data. Numbers have their highest byte first. A name of no length
//! ends the stream.

use vstd::prelude::*;
use vstd::string::*;

verus! {

// ---------------------------------------------------------------- numbers

/// The number that some bytes stand for.
pub open spec fn be_value(s: Seq<u8>) -> nat
    decreases s.len(),
{
    if s.len() == 0 {
        0
    } else {
        be_value(s.drop_last()) * 256 + s.last() as nat
    }
}

/// A number in so many bytes.
pub open spec fn be_bytes(n: nat, width: nat) -> Seq<u8>
    decreases width,
{
    if width == 0 {
        seq![]
    } else {
        be_bytes(n / 256, (width - 1) as nat).push((n % 256) as u8)
    }
}

/// How many numbers fit into so many bytes.
pub open spec fn be_limit(width: nat) -> nat
    decreases width,
{
    if width == 0 {
        1
    } else {
        256 * be_limit((width - 1) as nat)
    }
}

pub proof fn lemma_be_bytes(n: nat, width: nat)
    ensures
        be_bytes(n, width).len() == width,
        n < be_limit(width) ==> be_value(be_bytes(n, width)) == n,
    decreases width,
{
    if width > 0 {
        lemma_be_bytes(n / 256, (width - 1) as nat);
        assert(be_bytes(n, width).drop_last() =~= be_bytes(n / 256, (width - 1) as nat));
    }
}

pub proof fn lemma_be_value(s: Seq<u8>)
    ensures
        be_value(s) < be_limit(s.len()),
    decreases s.len(),
{
    if s.len() > 0 {
        lemma_be_value(s.drop_last());
    }
}

/// The number that at most eight bytes stand for.
pub fn read_be(bytes: &[u8]) -> (r: u64)
    requires
        bytes@.len() <= 8,
    ensures
        r == be_value(bytes@),
{
    let mut r: u64 = 0;
    let mut i: usize = 0;
    assert(bytes@.take(0) =~= seq![]);
    while i < bytes.len()
        invariant
            i <= bytes@.len() <= 8,
            r == be_value(bytes@.take(i as int)),
        decreases bytes@.len() - i,
    {
        proof {
            let some = bytes@.take(i as int);
            lemma_be_value(some);
            reveal_with_fuel(be_limit, 9);
            assert(be_limit(some.len()) <= 0x100_0000_0000_0000);
            assert(bytes@.take(i + 1).drop_last() =~= some);
        }
        r = r * 256 + bytes[i] as u64;
        i += 1;
    }
    assert(bytes@.take(i as int) =~= bytes@);
    r
}

fn push_be(out: &mut Vec<u8>, n: u64, width: usize)
    ensures
        final(out)@ == old(out)@ + be_bytes(n as nat, width as nat),
    decreases width,
{
    if width > 0 {
        push_be(out, n / 256, width - 1);
        out.push((n % 256) as u8);
    }
    assert(out@ =~= old(out)@ + be_bytes(n as nat, width as nat));
}

// ---------------------------------------------------------------- packages

/// A package on its way.
#[verifier::ext_equal]
pub struct SentModel {
    pub name: Seq<u8>,
    pub data: Seq<u8>,
}

/// What comes before a package's data.
pub open spec fn frame_head(name: Seq<u8>, size: nat) -> Seq<u8> {
    be_bytes(name.len(), 4) + name + be_bytes(size, 8)
}

/// A package as it is sent.
pub open spec fn frame(p: SentModel) -> Seq<u8> {
    frame_head(p.name, p.data.len()) + p.data
}

/// What ends a stream.
pub open spec fn ending() -> Seq<u8> {
    be_bytes(0, 4)
}

/// Packages as they are sent.
pub open spec fn stream(ps: Seq<SentModel>) -> Seq<u8>
    decreases ps.len(),
{
    if ps.len() == 0 {
        ending()
    } else {
        frame(ps[0]) + stream(ps.drop_first())
    }
}

/// What comes before the data of a package of the given name and size.
pub fn frame_header(name: &str, size: u64) -> (r: Vec<u8>)
    requires
        name.spec_bytes().len() <= u32::MAX,
    ensures
        r@ == frame_head(name.spec_bytes(), size as nat),
{
    let bytes = name.as_bytes();
    let mut r: Vec<u8> = Vec::new();
    push_be(&mut r, bytes.len() as u64, 4);
    let mut i: usize = 0;
    let ghost length = be_bytes(bytes@.len(), 4);
    assert(r@ =~= length + bytes@.take(0));
    while i < bytes.len()
        invariant
            i <= bytes@.len(),
            r@ == length + bytes@.take(i as int),
        decreases bytes@.len() - i,
    {
        r.push(bytes[i]);
        assert(bytes@.take(i + 1) =~= bytes@.take(i as int).push(bytes@[i as int]));
        assert(r@ =~= length + bytes@.take(i + 1));
        i += 1;
    }
    assert(bytes@.take(i as int) =~= bytes@);
    push_be(&mut r, size, 8);
    r
}

/// What ends a stream.
pub fn stream_end() -> (r: Vec<u8>)
    ensures
        r@ == ending(),
{
    let mut r: Vec<u8> = Vec::new();
    push_be(&mut r, 0, 4);
    assert(r@ =~= ending());
    r
}

// ---------------------------------------------------------------- what arrives

/// The smaller of two numbers.
pub open spec fn lesser(a: nat, b: nat) -> nat {
    if a <= b {
        a
    } else {
        b
    }
}

/// The packages that arrive in a stream. The last may lack a part of its data, if the
/// stream breaks off.
pub open spec fn arriving(s: Seq<u8>) -> Seq<SentModel>
    decreases s.len(),
{
    if s.len() < 4 {
        seq![]
    } else {
        let n = be_value(s.take(4));
        if n == 0 || s.len() < 12 + n {
            seq![]
        } else {
            let name = s.subrange(4, 4 + n as int);
            let size = be_value(s.subrange(4 + n as int, 12 + n as int));
            let body = s.skip(12 + n as int);
            let k = lesser(size, body.len()) as int;
            seq![SentModel { name, data: body.take(k) }] + arriving(body.skip(k))
        }
    }
}

/// A package that can be sent: it has a name, and the lengths of its name and its data can
/// be written down.
pub open spec fn sendable(p: SentModel) -> bool {
    0 < p.name.len() < be_limit(4) && p.data.len() < be_limit(8)
}

/// The parts of a stream that begins with a package.
proof fn lemma_parts(a: Seq<u8>, name: Seq<u8>, b: Seq<u8>, data: Seq<u8>, tail: Seq<u8>)
    requires
        a.len() == 4,
        b.len() == 8,
    ensures
        ({
            let s = a + name + b + data + tail;
            let n = name.len() as int;
            &&& s.len() == 12 + n + data.len() + tail.len()
            &&& s.take(4) == a
            &&& s.subrange(4, 4 + n) == name
            &&& s.subrange(4 + n, 12 + n) == b
            &&& s.skip(12 + n) == data + tail
            &&& (data + tail).take(data.len() as int) == data
            &&& (data + tail).skip(data.len() as int) == tail
        }),
{
    let s = a + name + b + data + tail;
    let n = name.len() as int;
    assert(s.take(4) =~= a);
    assert(s.subrange(4, 4 + n) =~= name);
    assert(s.subrange(4 + n, 12 + n) =~= b);
    assert(s.skip(12 + n) =~= data + tail);
    assert((data + tail).take(data.len() as int) =~= data);
    assert((data + tail).skip(data.len() as int) =~= tail);
}

proof fn lemma_frame_arrives(p: SentModel, tail: Seq<u8>)
    requires
        sendable(p),
    ensures
        arriving(frame(p) + tail) == seq![p] + arriving(tail),
{
    let a = be_bytes(p.name.len(), 4);
    let b = be_bytes(p.data.len(), 8);
    lemma_be_bytes(p.name.len(), 4);
    lemma_be_bytes(p.data.len(), 8);
    lemma_parts(a, p.name, b, p.data, tail);
    assert(frame(p) + tail == a + p.name + b + p.data + tail);
}

/// What arrives is what was sent, whatever follows the end of the stream.
pub proof fn what_is_sent_arrives(ps: Seq<SentModel>, rest: Seq<u8>)
    requires
        forall|i: int| 0 <= i < ps.len() ==> sendable(#[trigger] ps[i]),
    ensures
        arriving(stream(ps) + rest) == ps,
    decreases ps.len(),
{
    if ps.len() == 0 {
        lemma_be_bytes(0, 4);
        assert(be_limit(4) > 0) by {
            reveal_with_fuel(be_limit, 5);
        }
        assert((stream(ps) + rest).take(4) =~= ending());
    } else {
        let others = ps.drop_first();
        assert(sendable(ps[0]));
        assert forall|i: int| 0 <= i < others.len() implies sendable(#[trigger] others[i]) by {
            assert(sendable(ps[i + 1]));
        }
        what_is_sent_arrives(others, rest);
        lemma_frame_arrives(ps[0], stream(others) + rest);
        assert(stream(ps) + rest =~= frame(ps[0]) + (stream(others) + rest));
        assert(seq![ps[0]] + others =~= ps);
    }
}

/// Numbers have their highest byte first.
pub proof fn the_highest_byte_comes_first(n: nat, s: Seq<u8>)
    ensures
        n < 0x1_0000_0000 ==> {
            let b = be_bytes(n, 4);
            b.len() == 4 && n == b[0] * 0x100_0000 + b[1] * 0x1_0000 + b[2] * 0x100 + b[3]
        },
        n < 0x1_0000_0000_0000_0000 ==> {
            let b = be_bytes(n, 8);
            b.len() == 8 && n == b[0] * 0x100_0000_0000_0000 + b[1] * 0x1_0000_0000_0000 + b[2]
                * 0x100_0000_0000 + b[3] * 0x1_0000_0000 + b[4] * 0x100_0000 + b[5] * 0x1_0000 + b[6]
                * 0x100 + b[7]
        },
        s.len() == 4 ==> be_value(s) == s[0] * 0x100_0000 + s[1] * 0x1_0000 + s[2] * 0x100 + s[3],
{
    lemma_be_bytes(n, 4);
    lemma_be_bytes(n, 8);
    reveal_with_fuel(be_limit, 9);
    lemma_four_bytes(be_bytes(n, 4));
    if s.len() == 4 {
        lemma_four_bytes(s);
    }
    let b = be_bytes(n, 8);
    let b7 = b.drop_last();
    let b6 = b7.drop_last();
    let b5 = b6.drop_last();
    let b4 = b5.drop_last();
    lemma_four_bytes(b4);
    assert(be_value(b5) == be_value(b4) * 256 + b[4]);
    assert(be_value(b6) == be_value(b5) * 256 + b[5]);
    assert(be_value(b7) == be_value(b6) * 256 + b[6]);
    assert(be_value(b) == be_value(b7) * 256 + b[7]);
}

proof fn lemma_four_bytes(s: Seq<u8>)
    requires
        s.len() == 4,
    ensures
        be_value(s) == s[0] * 0x100_0000 + s[1] * 0x1_0000 + s[2] * 0x100 + s[3],
{
    let s3 = s.drop_last();
    let s2 = s3.drop_last();
    let s1 = s2.drop_last();
    let s0 = s1.drop_last();
    assert(be_value(s0) == 0);
    assert(be_value(s1) == be_value(s0) * 256 + s[0]);
    assert(be_value(s2) == be_value(s1) * 256 + s[1]);
    assert(be_value(s3) == be_value(s2) * 256 + s[2]);
}

/// A package goes over the wire as the length of its name, its name, the length of its data, and
/// its data; after the last package comes the length of no name.
pub proof fn what_goes_over_the_wire(p: SentModel, more: Seq<SentModel>)
    ensures
        frame(p) == be_bytes(p.name.len(), 4) + p.name + be_bytes(p.data.len(), 8) + p.data,
        stream(seq![p] + more) == frame(p) + stream(more),
        stream(seq![]) == seq![0u8, 0u8, 0u8, 0u8],
{
    assert((seq![p] + more).drop_first() =~= more);
    reveal_with_fuel(be_bytes, 5);
    assert(ending() =~= seq![0u8, 0u8, 0u8, 0u8]);
}

} // verus!
