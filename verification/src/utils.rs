//! Numbers for display.

use crate::string_normalization::string_of_chars;
use vstd::prelude::*;

verus! {

/// The decimal digit for a value below ten.
pub open spec fn digit_char(d: nat) -> char {
    ((48 + d) as u8) as char
}

/// The decimal digits of a number, without leading zeros.
pub open spec fn decimal(n: nat) -> Seq<char>
    decreases n,
{
    if n < 10 {
        seq![digit_char(n)]
    } else {
        decimal(n / 10).push(digit_char(n % 10))
    }
}

/// The three decimal digits of a number below a thousand.
pub open spec fn three_digits(n: nat) -> Seq<char> {
    seq![digit_char(n / 100), digit_char((n / 10) % 10), digit_char(n % 10)]
}

/// A number in decimal digits with a comma before every group of three
/// digits but the first.
pub open spec fn grouped(n: nat) -> Seq<char>
    decreases n,
{
    if n < 1000 {
        decimal(n)
    } else {
        grouped(n / 1000).push(',') + three_digits(n % 1000)
    }
}

/// The digit for a value below ten.
fn digit(d: usize) -> (r: char)
    requires
        d < 10,
    ensures
        r == digit_char(d as nat),
{
    ((48 + d) as u8) as char
}

/// The characters of a number with its thousands set apart.
fn grouped_chars(n: usize) -> (r: Vec<char>)
    ensures
        r@ == grouped(n as nat),
    decreases n,
{
    if n < 1000 {
        let mut out: Vec<char> = Vec::new();
        if n >= 100 {
            out.push(digit(n / 100));
        }
        if n >= 10 {
            out.push(digit((n / 10) % 10));
        }
        out.push(digit(n % 10));
        proof {
            reveal_with_fuel(decimal, 3);
            assert(out@ =~= decimal(n as nat));
        }
        out
    } else {
        let mut out = grouped_chars(n / 1000);
        let rest = n % 1000;
        let ghost head = out@;
        out.push(',');
        out.push(digit(rest / 100));
        out.push(digit((rest / 10) % 10));
        out.push(digit(rest % 10));
        assert(out@ =~= head.push(',') + three_digits(rest as nat));
        out
    }
}

/// The characters of a number in decimal digits.
fn decimal_chars(n: usize) -> (r: Vec<char>)
    ensures
        r@ == decimal(n as nat),
    decreases n,
{
    if n < 10 {
        let mut out: Vec<char> = Vec::new();
        out.push(digit(n));
        assert(out@ =~= decimal(n as nat));
        out
    } else {
        let mut out = decimal_chars(n / 10);
        out.push(digit(n % 10));
        out
    }
}

/// Writes a number in decimal digits.
pub fn decimal_string(n: usize) -> (r: String)
    ensures
        r@ == decimal(n as nat),
{
    let chars = decimal_chars(n);
    string_of_chars(&chars)
}

/// Writes a number with a comma before every group of three digits but the
/// first.
pub fn format_number(n: usize) -> (r: String)
    ensures
        r@ == grouped(n as nat),
{
    let chars = grouped_chars(n);
    string_of_chars(&chars)
}

} // verus!
