//! Decimal text for the numbers that appear in labels and reports.

use vstd::prelude::*;
use vstd::string::StringExecFns;

verus! {

/// The character of one decimal digit.
pub open spec fn digit_char(d: nat) -> char
    recommends
        d < 10,
{
    if d == 0 {
        '0'
    } else if d == 1 {
        '1'
    } else if d == 2 {
        '2'
    } else if d == 3 {
        '3'
    } else if d == 4 {
        '4'
    } else if d == 5 {
        '5'
    } else if d == 6 {
        '6'
    } else if d == 7 {
        '7'
    } else if d == 8 {
        '8'
    } else {
        '9'
    }
}

/// A number in decimal, without sign or leading zeros.
pub open spec fn decimal(n: nat) -> Seq<char>
    decreases n,
{
    if n < 10 {
        seq![digit_char(n)]
    } else {
        decimal(n / 10).push(digit_char(n % 10))
    }
}

/// The last `width` decimal digits of a number, zero-padded on the left.
pub open spec fn padded_decimal(n: nat, width: nat) -> Seq<char>
    decreases width,
{
    if width == 0 {
        Seq::empty()
    } else {
        padded_decimal(n / 10, (width - 1) as nat).push(digit_char(n % 10))
    }
}

/// One digit as text.
fn digit_text(d: u64) -> (r: &'static str)
    requires
        d < 10,
    ensures
        r@ == seq![digit_char(d as nat)],
{
    proof {
        reveal_strlit("0");
        reveal_strlit("1");
        reveal_strlit("2");
        reveal_strlit("3");
        reveal_strlit("4");
        reveal_strlit("5");
        reveal_strlit("6");
        reveal_strlit("7");
        reveal_strlit("8");
        reveal_strlit("9");
    }
    let r = if d == 0 {
        "0"
    } else if d == 1 {
        "1"
    } else if d == 2 {
        "2"
    } else if d == 3 {
        "3"
    } else if d == 4 {
        "4"
    } else if d == 5 {
        "5"
    } else if d == 6 {
        "6"
    } else if d == 7 {
        "7"
    } else if d == 8 {
        "8"
    } else {
        "9"
    };
    assert(r@ =~= seq![digit_char(d as nat)]);
    r
}

/// Append a number in decimal.
pub fn push_decimal(out: &mut String, n: u64)
    ensures
        final(out)@ == old(out)@ + decimal(n as nat),
    decreases n,
{
    if n >= 10 {
        push_decimal(out, n / 10);
    }
    out.append(digit_text(n % 10));
    assert(final(out)@ =~= old(out)@ + decimal(n as nat));
}

/// Append the last `width` digits of a number, zero-padded.
pub fn push_padded_decimal(out: &mut String, n: u64, width: u8)
    ensures
        final(out)@ == old(out)@ + padded_decimal(n as nat, width as nat),
    decreases width,
{
    if width > 0 {
        push_padded_decimal(out, n / 10, width - 1);
        out.append(digit_text(n % 10));
    }
    assert(final(out)@ =~= old(out)@ + padded_decimal(n as nat, width as nat));
}

/// A number in decimal.
pub fn decimal_string(n: u64) -> (r: String)
    ensures
        r@ == decimal(n as nat),
{
    let mut out = String::new();
    push_decimal(&mut out, n);
    assert(out@ =~= decimal(n as nat));
    out
}

/// The text of each string of a list.
pub open spec fn text_of(strings: Seq<String>) -> Seq<Seq<char>> {
    Seq::new(strings.len(), |i: int| strings[i]@)
}

/// A count of tenths, written with one digit after the point.
pub open spec fn one_decimal(tenths: nat) -> Seq<char> {
    decimal(tenths / 10) + seq!['.'] + padded_decimal(tenths % 10, 1)
}

/// A count of hundredths, written with two digits after the point.
pub open spec fn two_decimals(hundredths: nat) -> Seq<char> {
    decimal(hundredths / 100) + seq!['.'] + padded_decimal(hundredths % 100, 2)
}

/// Microseconds as milliseconds with one digit after the point, rounded
/// to the nearest tenth, halves up.
pub open spec fn millis_one_decimal(us: u64) -> Seq<char> {
    one_decimal(((us + 50) / 100) as nat)
}

/// Microseconds as milliseconds with two digits after the point, rounded
/// to the nearest hundredth, halves up.
pub open spec fn millis_two_decimals(us: u64) -> Seq<char> {
    two_decimals(((us + 5) / 10) as nat)
}

/// Hundredths of a percent as a percentage with one digit after the
/// point, rounded to the nearest tenth, halves up.
pub open spec fn percent_one_decimal(bp: u32) -> Seq<char> {
    one_decimal(((bp + 5) / 10) as nat)
}

fn one_decimal_string(tenths: u64) -> (r: String)
    ensures
        r@ == one_decimal(tenths as nat),
{
    let mut out = String::new();
    push_decimal(&mut out, tenths / 10);
    out.append(".");
    push_padded_decimal(&mut out, tenths % 10, 1);
    proof {
        reveal_strlit(".");
        assert(out@ =~= one_decimal(tenths as nat));
    }
    out
}

fn two_decimals_string(hundredths: u64) -> (r: String)
    ensures
        r@ == two_decimals(hundredths as nat),
{
    let mut out = String::new();
    push_decimal(&mut out, hundredths / 100);
    out.append(".");
    push_padded_decimal(&mut out, hundredths % 100, 2);
    proof {
        reveal_strlit(".");
        assert(out@ =~= two_decimals(hundredths as nat));
    }
    out
}

/// Format microseconds as milliseconds with one digit after the point.
pub fn format_millis_one_decimal(us: u64) -> (r: String)
    ensures
        r@ == millis_one_decimal(us),
{
    one_decimal_string(((us as u128 + 50) / 100) as u64)
}

/// Format microseconds as milliseconds with two digits after the point.
pub fn format_millis_two_decimals(us: u64) -> (r: String)
    ensures
        r@ == millis_two_decimals(us),
{
    two_decimals_string(((us as u128 + 5) / 10) as u64)
}

/// Format hundredths of a percent as a percentage with one digit after
/// the point.
pub fn format_percent_one_decimal(bp: u32) -> (r: String)
    ensures
        r@ == percent_one_decimal(bp),
{
    one_decimal_string((bp as u64 + 5) / 10)
}

} // verus!
