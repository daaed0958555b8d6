//! Integers in decimal notation.
use crate::prelude::WriterExt;
use vstd::prelude::*;

verus! {

/// The character for the digit `d`.
pub open spec fn digit(d: int) -> char {
    ('0' as int + d) as char
}

/// `n` in decimal notation, without leading zeros.
pub open spec fn decimal(n: nat) -> Seq<char>
    decreases n,
{
    if n < 10 {
        seq![digit(n as int)]
    } else {
        decimal(n / 10).push(digit((n % 10) as int))
    }
}

/// `n` in decimal notation, with `-` in front where it is negative.
pub open spec fn signed_decimal(n: int) -> Seq<char> {
    if n < 0 {
        seq!['-'] + decimal((-n) as nat)
    } else {
        decimal(n as nat)
    }
}

/// The character for the digit `d`.
fn digit_char(d: u64) -> (res: char)
    requires
        d < 10,
    ensures
        res == digit(d as int),
{
    ('0' as u8 + d as u8) as char
}

/// Writes `n` to `f` in decimal notation.
pub fn write_decimal<W: WriterExt>(f: &mut W, n: u64) -> (res: Result<(), W::Error>)
    ensures
        res is Ok ==> final(f).written() == old(f).written() + decimal(n as nat),
        W::infallible() ==> res is Ok,
    decreases n,
{
    if n >= 10 {
        write_decimal(f, n / 10)?;
    }
    f.write_char(digit_char(n % 10))
}

/// Writes `n` to `f` in decimal notation, with `-` in front where it is
/// negative.
pub fn write_signed_decimal<W: WriterExt>(f: &mut W, n: i64) -> (res: Result<(), W::Error>)
    ensures
        res is Ok ==> final(f).written() == old(f).written() + signed_decimal(n as int),
        W::infallible() ==> res is Ok,
{
    if n < 0 {
        f.write_char('-')?;
        let magnitude: u64 = if n == i64::MIN {
            0x8000_0000_0000_0000
        } else {
            (-n) as u64
        };
        write_decimal(f, magnitude)
    } else {
        write_decimal(f, n as u64)
    }
}

} // verus!
