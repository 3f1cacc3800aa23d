//! The arithmetic engine: addition, subtraction, scalar multiplication and
//! division, each guarding the symbol-compatibility invariant.

use vstd::prelude::*;

use crate::Currency;
use crate::Money;
use crate::default_money;

verus! {

/// A value of minor units that a `Currency` can hold.
pub open spec fn fits_i64(v: int) -> bool {
    i64::MIN <= v <= i64::MAX
}

/// Two amounts may be added when their symbols agree or when the left one
/// carries no symbol (the wildcard absorbs the right symbol).
pub open spec fn add_permitted(a: Money, b: Money) -> bool {
    a.symbol == b.symbol || a.symbol is None
}

/// The sum takes the right operand's symbol.
pub open spec fn spec_add(a: Money, b: Money) -> Money {
    Money { symbol: b.symbol, value: a.value + b.value }
}

/// Subtraction demands equal symbols; the wildcard is deliberately not
/// extended to it.
pub open spec fn sub_permitted(a: Money, b: Money) -> bool {
    a.symbol == b.symbol
}

/// The difference keeps the left operand's symbol.
pub open spec fn spec_sub(a: Money, b: Money) -> Money {
    Money { symbol: a.symbol, value: a.value - b.value }
}

/// Truncating (round-toward-zero) integer division, the semantics of the
/// machine's division instruction.
pub open spec fn trunc_div(a: int, b: int) -> int {
    if (a >= 0) == (b >= 0) {
        abs(a) / abs(b)
    } else {
        -(abs(a) / abs(b))
    }
}

/// Magnitude of an integer.
pub open spec fn abs(a: int) -> int {
    if a >= 0 {
        a
    } else {
        -a
    }
}

impl Currency {
    /// Adds two amounts.
    ///
    /// The caller must establish symbol compatibility: equal symbols, or no
    /// symbol on the left operand.  Mismatched concrete symbols are a
    /// programming error, not a recoverable condition, so they are excluded
    /// here rather than mapped to an error value.
    pub fn add(self, rhs: Currency) -> (r: Currency)
        requires
            add_permitted(self@, rhs@),
            fits_i64(spec_add(self@, rhs@).value),
        ensures
            r@ == spec_add(self@, rhs@),
    {
        Currency { symbol: rhs.symbol, value: self.value + rhs.value }
    }

    /// Subtracts `rhs` from `self`.
    ///
    /// Permitted only when both symbols are exactly equal.
    pub fn sub(self, rhs: Currency) -> (r: Currency)
        requires
            sub_permitted(self@, rhs@),
            fits_i64(spec_sub(self@, rhs@).value),
        ensures
            r@ == spec_sub(self@, rhs@),
    {
        Currency { symbol: self.symbol, value: self.value - rhs.value }
    }

    /// Multiplies the value by an integer scalar; the symbol is preserved.
    pub fn mul(self, rhs: i64) -> (r: Currency)
        requires
            fits_i64(self@.value * rhs),
        ensures
            r.symbol == self.symbol,
            r.value == self@.value * rhs,
    {
        Currency { symbol: self.symbol, value: self.value * rhs }
    }

    /// Divides the value by an integer scalar, truncating toward zero; the
    /// symbol is preserved.  Division by zero is a fatal fault and is
    /// excluded, as is the one overflowing quotient.
    pub fn div(self, rhs: i64) -> (r: Currency)
        requires
            rhs != 0,
            !(self.value == i64::MIN && rhs == -1),
        ensures
            r.symbol == self.symbol,
            r.value == trunc_div(self@.value, rhs as int),
    {
        let q = self.value.checked_div(rhs);
        proof {
            lemma_checked_div_is_trunc_div(self.value, rhs);
        }
        Currency { symbol: self.symbol, value: q.unwrap() }
    }
}

/// Scalar multiplication commutes: an integer times an amount is the amount
/// times the integer.
pub fn times(lhs: i64, rhs: Currency) -> (r: Currency)
    requires
        fits_i64(rhs@.value * lhs),
    ensures
        r.symbol == rhs.symbol,
        r.value == rhs@.value * lhs,
{
    Currency { symbol: rhs.symbol, value: rhs.value * lhs }
}

/// Relates the standard library's truncating division to `trunc_div`.
proof fn lemma_checked_div_is_trunc_div(a: i64, b: i64)
    requires
        b != 0,
        !(a == i64::MIN && b == -1),
    ensures
        i64::checked_div(a, b) == Some((trunc_div(a as int, b as int) as i64)),
        fits_i64(trunc_div(a as int, b as int)),
{
    let x = a as int;
    let d = b as int;
    vstd::arithmetic::div_mod::lemma_div_basics(abs(x));
    vstd::arithmetic::div_mod::lemma_div_nonincreasing(abs(x), abs(d));
    vstd::arithmetic::div_mod::lemma_div_pos_is_pos(abs(x), abs(d));
    if a == i64::MIN && b != 1 {
        vstd::arithmetic::div_mod::lemma_div_is_ordered_by_denominator(abs(x), 2, abs(d));
        assert(abs(x) / 2 == 0x4000_0000_0000_0000);
    }
}

/// The default amount is a left identity of addition: adding any amount to
/// it is permitted (the wildcard absorbs the symbol) and returns that amount.
pub proof fn lemma_add_left_identity(a: Money)
    ensures
        add_permitted(default_money(), a),
        spec_add(default_money(), a) == a,
{
}

/// The default amount is a right identity of addition for symbol-free
/// amounts.  (For an amount carrying a symbol, `a + default()` is not
/// permitted at all: the wildcard absorbs only from the left.)
pub proof fn lemma_add_right_identity(a: Money)
    requires
        a.symbol is None,
    ensures
        add_permitted(a, default_money()),
        spec_add(a, default_money()) == a,
{
}

/// Round trip under same-symbol addition and subtraction: `(a + b) - b == a`.
pub proof fn lemma_add_sub_round_trip(a: Money, b: Money)
    requires
        a.symbol == b.symbol,
    ensures
        add_permitted(a, b),
        sub_permitted(spec_add(a, b), b),
        spec_sub(spec_add(a, b), b) == a,
{
}

/// Two amounts with differing concrete symbols can be neither added nor
/// subtracted, in either order: the mismatch is fatal.
pub proof fn lemma_mismatch_is_fatal(a: Money, b: Money)
    requires
        a.symbol is Some,
        b.symbol is Some,
        a.symbol != b.symbol,
    ensures
        !add_permitted(a, b),
        !add_permitted(b, a),
        !sub_permitted(a, b),
        !sub_permitted(b, a),
{
}

} // verus!
