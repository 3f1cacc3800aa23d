//! Rendering an amount as text: the value is printed as banknotes, a
//! separator, and exactly two minor-unit digits, with the symbol at the
//! front (`$12.10`) or at the end (`12,10` followed by the symbol).

use vstd::prelude::*;

use crate::Money;
use crate::Postfix;
use crate::Prefix;
use crate::math::abs;

verus! {

/// The decimal digit character for `d` in `0 ..= 9`.
pub open spec fn digit_char(d: int) -> char {
    if d == 0 {
        '0'
    } else if d == 1 {
        '1'
    } else if d == 2 {
        '2'
    } else if d == 3 {
        '3'
    } else if d == 4 {
        '4'
    } else if d == 5 {
        '5'
    } else if d == 6 {
        '6'
    } else if d == 7 {
        '7'
    } else if d == 8 {
        '8'
    } else {
        '9'
    }
}

/// The decimal digit characters of a nonnegative integer, most significant
/// first, without leading zeroes (zero itself prints as one digit).
pub open spec fn spec_digits(n: int) -> Seq<char>
    decreases n,
{
    if n <= 9 {
        seq![digit_char(n)]
    } else {
        spec_digits(n / 10).push(digit_char(n % 10))
    }
}

/// A count of minor units rendered as text: an optional leading minus, the
/// banknote count, the given separator, and exactly two minor-unit digits.
pub open spec fn spec_decimal(v: int, sep: char) -> Seq<char> {
    let sign: Seq<char> = if v < 0 {
        seq!['-']
    } else {
        Seq::empty()
    };
    let m = abs(v);
    sign + spec_digits(m / 100) + seq![sep, digit_char((m % 100) / 10), digit_char(m % 10)]
}

/// The symbol-first rendering: symbol (if any), then the value with a dot
/// before the minor units.
pub open spec fn prefix_chars(m: Money) -> Seq<char> {
    match m.symbol {
        Some(c) => seq![c] + spec_decimal(m.value, '.'),
        None => spec_decimal(m.value, '.'),
    }
}

/// The symbol-last rendering: the value with a comma before the minor
/// units, then the symbol (if any).
pub open spec fn postfix_chars(m: Money) -> Seq<char> {
    match m.symbol {
        Some(c) => spec_decimal(m.value, ',') + seq![c],
        None => spec_decimal(m.value, ','),
    }
}

/// Relies on String::push: appends exactly the one character.
#[verifier::external_body]
fn push_char(out: &mut String, c: char)
    ensures
        final (out)@ == old(out)@.push(c),
{
    out.push(c);
}

/// The decimal digit character for `d` in `0 ..= 9`, executably.
fn digit_char_exec(d: u64) -> (r: char)
    requires
        d <= 9,
    ensures
        r == digit_char(d as int),
{
    if d == 0 {
        '0'
    } else if d == 1 {
        '1'
    } else if d == 2 {
        '2'
    } else if d == 3 {
        '3'
    } else if d == 4 {
        '4'
    } else if d == 5 {
        '5'
    } else if d == 6 {
        '6'
    } else if d == 7 {
        '7'
    } else if d == 8 {
        '8'
    } else {
        '9'
    }
}

/// Appends the decimal digits of `n`, most significant first.
fn append_digits(out: &mut String, n: u64)
    ensures
        final (out)@ == old(out)@ + spec_digits(n as int),
    decreases n,
{
    if n <= 9 {
        let c = digit_char_exec(n);
        push_char(out, c);
        proof {
            assert(old(out)@.push(c) =~= old(out)@ + spec_digits(n as int));
        }
    } else {
        append_digits(out, n / 10);
        let c = digit_char_exec(n % 10);
        push_char(out, c);
        proof {
            assert((old(out)@ + spec_digits(n as int / 10)).push(c) =~= old(out)@ + spec_digits(
                n as int,
            ));
        }
    }
}

/// Appends a count of minor units as sign, banknotes, separator and two
/// minor-unit digits.
fn append_decimal(out: &mut String, value: i64, sep: char)
    ensures
        final (out)@ == old(out)@ + spec_decimal(value as int, sep),
{
    let mag: u64 = if value == i64::MIN {
        9223372036854775808u64
    } else if value < 0 {
        (-value) as u64
    } else {
        value as u64
    };
    proof {
        assert(mag as int == abs(value as int));
    }
    if value < 0 {
        push_char(out, '-');
    }
    let ghost sofar = out@;
    append_digits(out, mag / 100);
    let c1 = digit_char_exec((mag % 100) / 10);
    let c2 = digit_char_exec(mag % 10);
    push_char(out, sep);
    push_char(out, c1);
    push_char(out, c2);
    proof {
        let m = abs(value as int);
        assert((m % 100) / 10 == (mag % 100) as int / 10);
        assert(sofar + spec_digits(m / 100) + seq![sep, digit_char((m % 100) / 10), digit_char(m % 10)]
            =~= (((sofar + spec_digits((mag / 100) as int)).push(sep)).push(c1)).push(c2));
        if value < 0 {
            assert(old(out)@ + spec_decimal(value as int, sep) =~= (old(out)@.push('-'))
                + spec_digits(m / 100) + seq![sep, digit_char((m % 100) / 10), digit_char(m % 10)]);
        } else {
            assert(old(out)@ + spec_decimal(value as int, sep) =~= old(out)@ + spec_digits(m / 100)
                + seq![sep, digit_char((m % 100) / 10), digit_char(m % 10)]);
        }
    }
}

impl<'a> Prefix<'a> {
    /// Renders the amount with the symbol (if any) at the front and a dot
    /// before the two minor-unit digits, e.g. `$12.10`.
    pub fn to_string(&self) -> (r: String)
        ensures
            r@ == prefix_chars(self@),
    {
        let mut out = String::new();
        if let Some(c) = self.money.symbol {
            push_char(&mut out, c);
        }
        append_decimal(&mut out, self.money.value, '.');
        proof {
            if self.money.symbol is Some {
                assert(out@ =~= prefix_chars(self@));
            } else {
                assert(out@ =~= prefix_chars(self@));
            }
        }
        out
    }
}

impl<'a> Postfix<'a> {
    /// Renders the amount with a comma before the two minor-unit digits and
    /// the symbol (if any) at the end, e.g. `12,10` followed by a euro sign.
    pub fn to_string(&self) -> (r: String)
        ensures
            r@ == postfix_chars(self@),
    {
        let mut out = String::new();
        append_decimal(&mut out, self.money.value, ',');
        if let Some(c) = self.money.symbol {
            push_char(&mut out, c);
        }
        proof {
            assert(out@ =~= postfix_chars(self@));
        }
        out
    }
}

} // verus!
