use vstd::prelude::*;
use vstd::string::StringExecFns;

verus! {

/// The ASCII digit character for `d` (meaningful for `d < 10`).
pub open spec fn digit_char(d: nat) -> char {
    if d == 0 {
        '0'
    } else if d == 1 {
        '1'
    } else if d == 2 {
        '2'
    } else if d == 3 {
        '3'
    } else if d == 4 {
        '4'
    } else if d == 5 {
        '5'
    } else if d == 6 {
        '6'
    } else if d == 7 {
        '7'
    } else if d == 8 {
        '8'
    } else {
        '9'
    }
}

/// Shortest base-ten rendering of `n`, most significant digit first.
pub open spec fn decimal(n: nat) -> Seq<char>
    decreases n,
{
    if n < 10 {
        seq![digit_char(n)]
    } else {
        decimal(n / 10).push(digit_char(n % 10))
    }
}

/// Bytes in one binary gibibyte.
pub open spec fn gib() -> nat {
    1073741824
}

/// `bytes / 2^30` in hundredths, rounded to the nearest hundredth with ties
/// going to the even neighbour.
pub open spec fn gib_hundredths(bytes: nat) -> nat {
    let scaled = bytes * 100;
    let quotient = scaled / gib();
    let remainder = scaled % gib();
    if 2 * remainder > gib() || (2 * remainder == gib() && quotient % 2 == 1) {
        quotient + 1
    } else {
        quotient
    }
}

/// A count of hundredths rendered with exactly two fractional digits.
pub open spec fn fixed2(hundredths: nat) -> Seq<char> {
    decimal(hundredths / 100) + seq!['.'] + seq![
        digit_char((hundredths / 10) % 10),
        digit_char(hundredths % 10),
    ]
}

/// `2^k`.
pub open spec fn two_pow(k: nat) -> nat
    decreases k,
{
    if k == 0 {
        1
    } else {
        2 * two_pow((k - 1) as nat)
    }
}

/// Low-order binary digits of `n` that do not fit a 53-bit significand.
pub open spec fn dropped_bits(n: nat) -> nat
    decreases n,
{
    if n < 0x20_0000_0000_0000 {
        0
    } else {
        1 + dropped_bits(n / 2)
    }
}

/// The value of `n` once converted to a double: rounded to a 53-bit
/// significand, ties going to the even neighbour.
pub open spec fn double_value(n: nat) -> nat {
    let unit = two_pow(dropped_bits(n));
    let quotient = n / unit;
    let remainder = n % unit;
    if 2 * remainder > unit || (2 * remainder == unit && quotient % 2 == 1) {
        (quotient + 1) * unit
    } else {
        quotient * unit
    }
}

/// A byte count, taken as a double, rendered in gibibytes with two
/// fractional digits.
pub open spec fn gib_text(bytes: nat) -> Seq<char> {
    fixed2(gib_hundredths(double_value(bytes)))
}

fn digit_str(d: u128) -> (s: &'static str)
    requires
        d < 10,
    ensures
        s@ == seq![digit_char(d as nat)],
{
    proof {
        reveal_strlit("0");
        reveal_strlit("1");
        reveal_strlit("2");
        reveal_strlit("3");
        reveal_strlit("4");
        reveal_strlit("5");
        reveal_strlit("6");
        reveal_strlit("7");
        reveal_strlit("8");
        reveal_strlit("9");
    }
    if d == 0 {
        "0"
    } else if d == 1 {
        "1"
    } else if d == 2 {
        "2"
    } else if d == 3 {
        "3"
    } else if d == 4 {
        "4"
    } else if d == 5 {
        "5"
    } else if d == 6 {
        "6"
    } else if d == 7 {
        "7"
    } else if d == 8 {
        "8"
    } else {
        "9"
    }
}

/// Appends the base-ten rendering of `n`.
pub fn push_decimal(out: &mut String, n: u128)
    ensures
        final(out)@ == old(out)@ + decimal(n as nat),
    decreases n,
{
    if n >= 10 {
        push_decimal(out, n / 10);
        out.append(digit_str(n % 10));
        proof {
            assert(final(out)@ == old(out)@ + decimal(n as nat)) by {
                assert(decimal(n as nat) == decimal((n / 10) as nat).push(
                    digit_char((n % 10) as nat),
                ));
            }
        }
    } else {
        out.append(digit_str(n));
    }
}

/// The value of `bytes` once converted to a double (see `double_value`).
fn double_rounded(bytes: u64) -> (value: u128)
    ensures
        value == double_value(bytes as nat),
        value <= 0x1_0000_0000_0000_1000,
{
    let mut quotient: u128 = bytes as u128;
    let mut unit: u128 = 1;
    let ghost mut k: nat = 0;
    assert(quotient == (bytes as nat) / 1);
    while quotient >= 0x20_0000_0000_0000
        invariant
            unit == two_pow(k),
            unit >= 1,
            quotient == (bytes as nat) / (unit as nat),
            dropped_bits(bytes as nat) == k + dropped_bits(quotient as nat),
            quotient * unit <= bytes,
            unit <= 0x1000,
        decreases quotient,
    {
        proof {
            vstd::arithmetic::div_mod::lemma_div_denominator(bytes as int, unit as int, 2);
            assert(unit * 0x20_0000_0000_0000 <= quotient * unit) by (nonlinear_arith)
                requires
                    quotient >= 0x20_0000_0000_0000,
            ;
            vstd::arithmetic::div_mod::lemma_fundamental_div_mod(quotient as int, 2);
            assert((quotient / 2) * (unit * 2) <= quotient * unit) by (nonlinear_arith)
                requires
                    quotient >= 0,
                    unit >= 1,
            ;
        }
        quotient = quotient / 2;
        unit = unit * 2;
        proof {
            k = k + 1;
        }
    }
    proof {
        vstd::arithmetic::div_mod::lemma_fundamental_div_mod(bytes as int, unit as int);
    }
    let remainder: u128 = bytes as u128 - quotient * unit;
    let rounded = if 2 * remainder > unit || (2 * remainder == unit && quotient % 2 == 1) {
        quotient + 1
    } else {
        quotient
    };
    proof {
        assert(rounded * unit <= 0x1_0000_0000_0000_1000) by (nonlinear_arith)
            requires
                rounded <= quotient + 1,
                quotient * unit <= bytes,
                bytes < 0x1_0000_0000_0000_0000,
                unit <= 0x1000,
        ;
    }
    rounded * unit
}

/// Appends the byte count `bytes`, taken as a double, in gibibytes with two
/// fractional digits.
pub fn push_gib(out: &mut String, bytes: u64)
    ensures
        final(out)@ == old(out)@ + gib_text(bytes as nat),
{
    let value = double_rounded(bytes);
    let scaled: u128 = value * 100;
    let quotient: u128 = scaled / 1073741824;
    let remainder: u128 = scaled % 1073741824;
    let hundredths: u128 = if 2 * remainder > 1073741824 || (2 * remainder == 1073741824
        && quotient % 2 == 1) {
        quotient + 1
    } else {
        quotient
    };
    assert(hundredths == gib_hundredths(value as nat));
    push_decimal(out, hundredths / 100);
    proof {
        reveal_strlit(".");
    }
    out.append(".");
    out.append(digit_str((hundredths / 10) % 10));
    out.append(digit_str(hundredths % 10));
}

/// A fresh string holding the literal `s`.
pub fn text(s: &str) -> (r: String)
    ensures
        r@ == s@,
{
    String::from_str(s)
}

} // verus!
