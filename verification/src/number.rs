//! Numbers as text.

use vstd::prelude::*;

verus! {

/// The digit for a number below sixteen.
pub open spec fn digit(d: nat) -> char {
    if d < 10 {
        (48 + d) as char
    } else {
        (87 + d) as char
    }
}

pub open spec fn is_digit(c: char) -> bool {
    '0' <= c <= '9'
}

/// A number in base ten, without leading zeros.
pub open spec fn decimal(n: nat) -> Seq<char>
    decreases n,
{
    if n < 10 {
        seq![digit(n)]
    } else {
        decimal(n / 10).push(digit(n % 10))
    }
}

/// The number that a sequence of base-ten digits stands for.
pub open spec fn decimal_value(s: Seq<char>) -> nat
    decreases s.len(),
{
    if s.len() == 0 {
        0
    } else {
        decimal_value(s.drop_last()) * 10 + (s.last() as nat - 48) as nat
    }
}

/// Whether `s` is made of base-ten digits only.
pub open spec fn all_digits(s: Seq<char>) -> bool {
    forall|i: int| 0 <= i < s.len() ==> is_digit(#[trigger] s[i])
}

/// The byte that a text stands for: an optional plus sign and one or more base-ten
/// digits, whose number is small enough.
pub open spec fn byte_of(s: Seq<char>) -> Option<u8> {
    let d = if s.len() > 0 && s[0] == '+' {
        s.drop_first()
    } else {
        s
    };
    if d.len() > 0 && all_digits(d) && decimal_value(d) <= 255 {
        Some(decimal_value(d) as u8)
    } else {
        None
    }
}

/// Digits in front only make a number larger.
proof fn lemma_value_grows(s: Seq<char>, n: int)
    requires
        0 <= n <= s.len(),
        all_digits(s),
    ensures
        decimal_value(s) >= decimal_value(s.take(n)),
    decreases s.len(),
{
    if n == s.len() {
        assert(s.take(n) == s);
    } else {
        assert(s.drop_last().take(n) == s.take(n));
        lemma_value_grows(s.drop_last(), n);
    }
}

/// Reads a byte in base ten.
pub fn parse_byte(s: &[char]) -> (r: Option<u8>)
    ensures
        r == byte_of(s@),
{
    let mut i: usize = 0;
    if s.len() > 0 && s[0] == '+' {
        i = 1;
    }
    if i == s.len() {
        return None;
    }
    let start = i;
    let ghost d = s@.skip(start as int);
    proof {
        assert(start == 0 ==> d == s@);
        assert(start == 1 ==> d == s@.drop_first());
    }
    let mut n: u32 = 0;
    while i < s.len()
        invariant
            start <= i <= s@.len(),
            d == s@.skip(start as int),
            d.len() > 0,
            d == if s@.len() > 0 && s@[0] == '+' {
                s@.drop_first()
            } else {
                s@
            },
            all_digits(d.take(i - start)),
            n == decimal_value(d.take(i - start)),
            n <= 255,
        decreases s@.len() - i,
    {
        let c: char = s[i];
        assert(d[i - start] == c);
        if !('0' <= c && c <= '9') {
            return None;
        }
        let ghost before = d.take(i - start);
        assert(d.take(i + 1 - start).drop_last() == before);
        assert(forall|j: int| 0 <= j < i - start ==> d.take(i + 1 - start)[j] == before[j]);
        n = n * 10 + (c as u32 - 48);
        i += 1;
        if n > 255 {
            proof {
                if all_digits(d) {
                    lemma_value_grows(d, i - start);
                }
            }
            return None;
        }
    }
    assert(d.take(i - start) == d);
    Some(n as u8)
}

/// The digit for a number below sixteen.
pub fn digit_char(d: u8) -> (r: char)
    requires
        d < 16,
    ensures
        r == digit(d as nat),
{
    if d < 10 {
        (48 + d) as char
    } else {
        (87 + d) as char
    }
}

/// Appends a number in base ten.
pub fn push_decimal(out: &mut String, n: u64)
    ensures
        final(out)@ == old(out)@ + decimal(n as nat),
    decreases n,
{
    if n >= 10 {
        push_decimal(out, n / 10);
    }
    out.push(digit_char((n % 10) as u8));
    assert(out@ == old(out)@ + decimal(n as nat));
}

/// A number in base sixteen, in so many digits.
pub open spec fn hex(n: nat, width: nat) -> Seq<char>
    decreases width,
{
    if width == 0 {
        seq![]
    } else {
        hex(n / 16, (width - 1) as nat).push(digit(n % 16))
    }
}

/// Appends a number in base sixteen, in so many digits.
pub fn push_hex(out: &mut String, n: u64, width: usize)
    ensures
        final(out)@ == old(out)@ + hex(n as nat, width as nat),
    decreases width,
{
    if width > 0 {
        push_hex(out, n / 16, width - 1);
        out.push(digit_char((n % 16) as u8));
    }
    assert(out@ =~= old(out)@ + hex(n as nat, width as nat));
}

/// A byte that was written in base ten reads back as itself.
pub proof fn byte_round_trip(n: u8)
    ensures
        byte_of(decimal(n as nat)) == Some(n),
{
    lemma_decimal(n as nat);
}

/// What is written in base ten is made of digits, and stands for its number.
pub proof fn lemma_decimal(n: nat)
    ensures
        decimal(n).len() > 0,
        all_digits(decimal(n)),
        decimal_value(decimal(n)) == n,
    decreases n,
{
    reveal_with_fuel(decimal_value, 2);
    if n >= 10 {
        lemma_decimal(n / 10);
        assert(decimal(n).drop_last() == decimal(n / 10));
        assert(forall|i: int| 0 <= i < decimal(n / 10).len() ==> decimal(n)[i] == decimal(n / 10)[i]);
    } else {
        assert(decimal(n).drop_last() == Seq::<char>::empty());
    }
}

proof fn lemma_decimal_digits(s: Seq<char>)
    requires
        all_digits(s),
    ensures
        s.len() > 0 ==> s[0] != '+',
{
    if s.len() > 0 {
        assert(is_digit(s[0]));
    }
}

/// A byte is read from any number in base ten that is small enough, with or without a plus
/// sign in front; a number that is too large is none, and neither is what has no digits or has
/// something else among them.
pub proof fn what_reads_as_a_byte(n: nat, s: Seq<char>)
    ensures
        n <= 255 ==> byte_of(decimal(n)) == Some(n as u8) && byte_of(seq!['+'] + decimal(n)) == Some(
            n as u8,
        ),
        n > 255 ==> byte_of(decimal(n)) is None,
        byte_of(s) matches Some(b) ==> s.len() > 0 && forall|i: int|
            0 < i < s.len() ==> '0' <= #[trigger] s[i] <= '9',
{
    lemma_decimal(n);
    lemma_decimal_digits(decimal(n));
    assert((seq!['+'] + decimal(n)).drop_first() =~= decimal(n));
    if byte_of(s) is Some {
        assert forall|i: int| 0 < i < s.len() implies '0' <= #[trigger] s[i] <= '9' by {
            if s[0] == '+' {
                assert(is_digit(s.drop_first()[i - 1]));
            } else {
                assert(is_digit(s[i]));
            }
        }
    }
}

} // verus!
