//! Numbers as text.

use vstd::prelude::*;

verus! {

/// A decimal digit.
pub open spec fn decimal_digit(n: int) -> char {
    (48 + n) as char
}

/// A number in decimal, without leading zeros.
pub open spec fn decimal(n: nat) -> Seq<char>
    decreases n,
{
    if n < 10 {
        seq![decimal_digit(n as int)]
    } else {
        decimal(n / 10).push(decimal_digit((n % 10) as int))
    }
}

/// A number in decimal, with leading zeros up to four digits.
pub open spec fn decimal_4(n: nat) -> Seq<char> {
    Seq::new((if decimal(n).len() < 4 { 4 - decimal(n).len() } else { 0 }) as nat, |i: int| '0')
        + decimal(n)
}

/// Appends a number in decimal.
pub fn push_decimal(text: &mut String, n: u64)
    ensures
        final(text)@ == old(text)@ + decimal(n as nat),
    decreases n,
{
    if n >= 10 {
        push_decimal(text, n / 10);
    }
    let ghost before = text@;
    let digit: u8 = (n % 10) as u8;
    text.push((48 + digit) as char);
    proof {
        if n < 10 {
            assert(text@ =~= old(text)@ + decimal(n as nat));
        } else {
            assert(before == old(text)@ + decimal((n / 10) as nat));
            assert(text@ =~= old(text)@ + decimal(n as nat));
        }
    }
}

/// Appends a number in decimal, with leading zeros up to four digits.
pub fn push_decimal_4(text: &mut String, n: u16)
    ensures
        final(text)@ == old(text)@ + decimal_4(n as nat),
{
    proof {
        reveal_with_fuel(decimal, 6);
    }
    let zeros: usize = if n < 10 {
        3
    } else if n < 100 {
        2
    } else if n < 1000 {
        1
    } else {
        0
    };
    let mut i: usize = 0;
    while i < zeros
        invariant
            i <= zeros,
            text@ =~= old(text)@ + Seq::new(i as nat, |j: int| '0'),
        decreases zeros - i,
    {
        text.push('0');
        i = i + 1;
    }
    let ghost before = text@;
    push_decimal(text, n as u64);
    proof {
        assert(decimal(n as nat).len() + zeros == if n < 1000 { 4int } else { decimal(n as nat).len() as int });
        assert(n >= 1000 ==> decimal(n as nat).len() >= 4);
        assert(text@ =~= old(text)@ + decimal_4(n as nat));
    }
}

/// A number in decimal: the digits of its tenth, and the last digit.
pub proof fn law_decimal_digits(tenth: nat, last: nat)
    requires
        last < 10,
    ensures
        decimal(last).len() == 1,
        decimal(last)[0] as int == '0' as int + last,
        tenth > 0 ==> decimal(10 * tenth + last) == decimal(tenth).push(decimal(last)[0]),
{
    if tenth > 0 {
        assert((10 * tenth + last) / 10 == tenth);
        assert((10 * tenth + last) % 10 == last as int);
    }
}

/// A number with at least four digits ends in its decimal digits, behind zeros up to four.
pub proof fn law_four_digits(n: nat, i: int)
    ensures
        ({
            let digits = decimal(n);
            let padded = decimal_4(n);
            &&& padded.len() == if digits.len() < 4 {
                4
            } else {
                digits.len()
            }
            &&& padded.skip(padded.len() - digits.len()) == digits
            &&& 0 <= i < padded.len() - digits.len() ==> padded[i] == '0'
        }),
{
    assert(decimal_4(n).skip(decimal_4(n).len() - decimal(n).len()) =~= decimal(n));
}

} // verus!
