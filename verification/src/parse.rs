//! The text parser: recognizes a free-form money string and turns it into an
//! amount, or fails.
//!
//! The recognized shape, applied to the input after trimming surrounding
//! whitespace, and only accepted when it covers the whole remainder:
//! an optional leading minus, an optional single currency-symbol character,
//! then a numeric body that is either a bare run of digits or groups of one
//! to three digits separated by `.` or `,` ending in a group of exactly
//! three (both US and European thousands conventions, even mixed), then an
//! optional fractional suffix of `.` or `,` and exactly two digits.  The
//! grouping punctuation is stripped, the two fractional digits (or `00`)
//! are appended, and the digit string is read as the minor-unit count.

use vstd::prelude::*;

use crate::Currency;
use crate::Money;

verus! {

/// Whitespace that trimming removes from either end of the input: the
/// Unicode white-space code points (tab through carriage return, space,
/// next line, no-break space, the ogham and general-punctuation spaces,
/// the line and paragraph separators, and the narrow, mathematical and
/// ideographic spaces).
pub open spec fn spec_is_space(c: char) -> bool {
    let u = c as u32;
    (0x09 <= u <= 0x0d) || u == 0x20 || u == 0x85 || u == 0xa0 || u == 0x1680 || (0x2000 <= u
        <= 0x200a) || u == 0x2028 || u == 0x2029 || u == 0x202f || u == 0x205f || u == 0x3000
}

/// A decimal digit.
pub open spec fn spec_is_digit(c: char) -> bool {
    48 <= c as u32 <= 57
}

/// The numeric value of a decimal digit character.
pub open spec fn digit_val(c: char) -> int {
    c as u32 - 48
}

/// Grouping or fraction punctuation: a dot or a comma.
pub open spec fn spec_is_sep(c: char) -> bool {
    c == '.' || c == ','
}

/// A currency-symbol character: a code point of the Unicode
/// currency-symbol category.  That is the dollar sign, the cent-to-yen
/// signs, the scattered currency signs of the other scripts, the dedicated
/// currency-symbols block (which holds the euro sign), the fullwidth forms,
/// and the few supplementary-plane signs.
pub open spec fn spec_is_symbol(c: char) -> bool {
    let u = c as u32;
    u == 0x24 || (0xa2 <= u <= 0xa5) || u == 0x58f || u == 0x60b || (0x7fe <= u <= 0x7ff) || (0x9f2
        <= u <= 0x9f3) || u == 0x9fb || u == 0xaf1 || u == 0xbf9 || u == 0xe3f || u == 0x17db || (
    0x20a0 <= u <= 0x20c0) || u == 0xa838 || u == 0xfdfc || u == 0xfe69 || u == 0xff04 || (0xffe0
        <= u <= 0xffe1) || (0xffe5 <= u <= 0xffe6) || (0x11fdd <= u <= 0x11fe0) || u == 0x1e2ff || u
        == 0x1ecb0
}

/// The sequence with leading whitespace removed.
pub open spec fn trim_front(s: Seq<char>) -> Seq<char>
    decreases s.len(),
{
    if s.len() > 0 && spec_is_space(s[0]) {
        trim_front(s.drop_first())
    } else {
        s
    }
}

/// The sequence with trailing whitespace removed.
pub open spec fn trim_back(s: Seq<char>) -> Seq<char>
    decreases s.len(),
{
    if s.len() > 0 && spec_is_space(s.last()) {
        trim_back(s.drop_last())
    } else {
        s
    }
}

/// The sequence with whitespace removed from both ends.
pub open spec fn spec_trim(s: Seq<char>) -> Seq<char> {
    trim_back(trim_front(s))
}

/// Every character is a decimal digit.
pub open spec fn all_digits(s: Seq<char>) -> bool {
    forall|k: int| 0 <= k < s.len() ==> spec_is_digit(s[k])
}

/// How many decimal digits the sequence starts with.
pub open spec fn leading_digits(s: Seq<char>) -> int
    decreases s.len(),
{
    if s.len() > 0 && spec_is_digit(s[0]) {
        1 + leading_digits(s.drop_first())
    } else {
        0
    }
}

/// A bare numeric body: one or more digits, no grouping.
pub open spec fn is_bare(s: Seq<char>) -> bool {
    s.len() >= 1 && all_digits(s)
}

/// A grouped numeric body: one or more groups of one to three digits, each
/// followed by a dot or comma, ending in a group of exactly three digits.
pub open spec fn is_grouped(s: Seq<char>) -> bool
    decreases s.len(),
{
    let m = leading_digits(s);
    if 1 <= m <= 3 && m < s.len() && spec_is_sep(s[m]) {
        let tail = s.skip(m + 1);
        (tail.len() == 3 && all_digits(tail)) || is_grouped(tail)
    } else {
        false
    }
}

/// A valid numeric body, bare or grouped.
pub open spec fn body_valid(s: Seq<char>) -> bool {
    is_bare(s) || is_grouped(s)
}

/// Whether the remainder after sign and symbol ends in a fractional suffix:
/// a dot or comma followed by exactly two digits.
pub open spec fn has_fraction(rest: Seq<char>) -> bool {
    rest.len() >= 3 && spec_is_sep(rest[rest.len() - 3]) && spec_is_digit(rest[rest.len() - 2])
        && spec_is_digit(rest[rest.len() - 1])
}

/// The numeric body of the remainder: everything before the fractional
/// suffix, or all of it when there is none.
pub open spec fn body_of(rest: Seq<char>) -> Seq<char> {
    if has_fraction(rest) {
        rest.take(rest.len() - 3)
    } else {
        rest
    }
}

/// The digit characters of the sequence, in order, punctuation dropped.
pub open spec fn digits_of(s: Seq<char>) -> Seq<char>
    decreases s.len(),
{
    if s.len() == 0 {
        Seq::empty()
    } else if spec_is_digit(s.last()) {
        digits_of(s.drop_last()).push(s.last())
    } else {
        digits_of(s.drop_last())
    }
}

/// The full minor-unit digit string of the remainder: the body's digits with
/// the two fractional digits appended, or `00` when there is no fraction.
pub open spec fn minor_digits(rest: Seq<char>) -> Seq<char> {
    if has_fraction(rest) {
        digits_of(rest)
    } else {
        digits_of(rest) + seq!['0', '0']
    }
}

/// The number a digit string denotes, read left to right in base ten.
pub open spec fn to_int(s: Seq<char>) -> int
    decreases s.len(),
{
    if s.len() == 0 {
        0
    } else {
        to_int(s.drop_last()) * 10 + digit_val(s.last())
    }
}

/// What parsing a string yields, if anything: after trimming, an optional
/// minus, an optional symbol, and a valid numeric body with optional
/// fraction must cover the whole remainder, and the minor-unit count must
/// fit the machine range.
pub open spec fn parse_spec(s: Seq<char>) -> Option<Money> {
    let t = spec_trim(s);
    let neg = t.len() > 0 && t[0] == '-';
    let t1 = if neg {
        t.drop_first()
    } else {
        t
    };
    let sym = if t1.len() > 0 && spec_is_symbol(t1[0]) {
        Some(t1[0])
    } else {
        None::<char>
    };
    let rest = if sym is Some {
        t1.drop_first()
    } else {
        t1
    };
    if body_valid(body_of(rest)) {
        let mag = to_int(minor_digits(rest));
        if mag <= i64::MAX {
            Some(
                Money {
                    symbol: sym,
                    value: if neg {
                        -mag
                    } else {
                        mag
                    },
                },
            )
        } else {
            None
        }
    } else {
        None
    }
}

/// Dropping leading whitespace one character at a time reaches the first
/// non-space character.
proof fn lemma_trim_front_skip(s: Seq<char>, i: int)
    requires
        0 <= i <= s.len(),
        forall|k: int| 0 <= k < i ==> spec_is_space(s[k]),
    ensures
        trim_front(s) == trim_front(s.skip(i)),
    decreases i,
{
    if i > 0 {
        let s1 = s.drop_first();
        lemma_trim_front_skip(s1, i - 1);
        assert(s1.skip(i - 1) =~= s.skip(i));
    } else {
        assert(s.skip(0) =~= s);
    }
}

/// Dropping trailing whitespace one character at a time reaches the last
/// non-space character.
proof fn lemma_trim_back_take(s: Seq<char>, i: int)
    requires
        0 <= i <= s.len(),
        forall|k: int| i <= k < s.len() ==> spec_is_space(s[k]),
    ensures
        trim_back(s) == trim_back(s.take(i)),
    decreases s.len() - i,
{
    if i < s.len() {
        let s1 = s.drop_last();
        lemma_trim_back_take(s1, i);
        assert(s1.take(i) =~= s.take(i));
    } else {
        assert(s.take(i) =~= s);
    }
}

/// A scan that stops at the first non-digit has counted the leading digits.
proof fn lemma_leading_digits(s: Seq<char>, k: int)
    requires
        0 <= k <= s.len(),
        forall|j: int| 0 <= j < k ==> spec_is_digit(s[j]),
    ensures
        leading_digits(s) >= k,
        (k == s.len() || !spec_is_digit(s[k as int])) ==> leading_digits(s) == k,
    decreases k,
{
    if k > 0 {
        let s1 = s.drop_first();
        lemma_leading_digits(s1, k - 1);
    } else {
        if s.len() == 0 || !spec_is_digit(s[0]) {
        } else {
            lemma_leading_digits_nonneg(s.drop_first());
        }
    }
}

/// The count of leading digits is never negative.
proof fn lemma_leading_digits_nonneg(s: Seq<char>)
    ensures
        leading_digits(s) >= 0,
    decreases s.len(),
{
    if s.len() > 0 && spec_is_digit(s[0]) {
        lemma_leading_digits_nonneg(s.drop_first());
    }
}

/// Filtering to digits distributes over concatenation.
proof fn lemma_digits_of_concat(a: Seq<char>, b: Seq<char>)
    ensures
        digits_of(a + b) == digits_of(a) + digits_of(b),
    decreases b.len(),
{
    if b.len() == 0 {
        assert(a + b =~= a);
        assert(digits_of(a) + digits_of(b) =~= digits_of(a));
    } else {
        let b1 = b.drop_last();
        lemma_digits_of_concat(a, b1);
        assert((a + b).drop_last() =~= a + b1);
        assert((a + b).last() == b.last());
        if spec_is_digit(b.last()) {
            assert(digits_of(a) + digits_of(b) =~= (digits_of(a) + digits_of(b1)).push(b.last()));
        }
    }
}

/// Every character of a digit filtering is a digit.
proof fn lemma_digits_of_all_digits(s: Seq<char>)
    ensures
        all_digits(digits_of(s)),
    decreases s.len(),
{
    if s.len() > 0 {
        lemma_digits_of_all_digits(s.drop_last());
    }
}

/// A digit string denotes a nonnegative number.
proof fn lemma_to_int_nonneg(s: Seq<char>)
    requires
        all_digits(s),
    ensures
        to_int(s) >= 0,
    decreases s.len(),
{
    if s.len() > 0 {
        lemma_to_int_nonneg(s.drop_last());
    }
}

/// Appending digits to a digit string never shrinks the number it denotes.
proof fn lemma_to_int_extend(u: Seq<char>, v: Seq<char>)
    requires
        all_digits(u),
        all_digits(v),
    ensures
        to_int(u + v) >= to_int(u),
    decreases v.len(),
{
    if v.len() == 0 {
        assert(u + v =~= u);
    } else {
        let v1 = v.drop_last();
        assert(all_digits(v1));
        lemma_to_int_extend(u, v1);
        assert((u + v).drop_last() =~= u + v1);
        assert((u + v).last() == v.last());
        lemma_to_int_nonneg(u);
        assert(all_digits(u + v1));
        lemma_to_int_nonneg(u + v1);
    }
}

/// Appending two zero digits multiplies the denoted number by one hundred.
proof fn lemma_to_int_append_two_zeroes(x: Seq<char>)
    ensures
        to_int(x + seq!['0', '0']) == to_int(x) * 100,
{
    let y = x + seq!['0', '0'];
    assert(y.last() == '0');
    assert(y.drop_last() =~= x.push('0'));
    assert(x.push('0').last() == '0');
    assert(x.push('0').drop_last() =~= x);
    assert(digit_val('0') == 0);
    assert(to_int(x.push('0')) == to_int(x) * 10);
    assert(to_int(y) == to_int(x) * 10 * 10);
}

/// Whether the character counts as trimmable whitespace.
fn is_space_char(c: char) -> (r: bool)
    ensures
        r == spec_is_space(c),
{
    let u = c as u32;
    (0x09 <= u && u <= 0x0d) || u == 0x20 || u == 0x85 || u == 0xa0 || u == 0x1680 || (0x2000 <= u
        && u <= 0x200a) || u == 0x2028 || u == 0x2029 || u == 0x202f || u == 0x205f || u == 0x3000
}

/// Whether the character is a decimal digit.
fn is_digit_char(c: char) -> (r: bool)
    ensures
        r == spec_is_digit(c),
{
    let u = c as u32;
    48 <= u && u <= 57
}

/// The numeric value of a decimal digit character.
fn digit_value(c: char) -> (r: u64)
    requires
        spec_is_digit(c),
    ensures
        r == digit_val(c),
        r <= 9,
{
    (c as u32 - 48) as u64
}

/// Whether the character is grouping or fraction punctuation.
fn is_sep_char(c: char) -> (r: bool)
    ensures
        r == spec_is_sep(c),
{
    c == '.' || c == ','
}

/// Whether the character is a currency symbol.
fn is_symbol_char(c: char) -> (r: bool)
    ensures
        r == spec_is_symbol(c),
{
    let u = c as u32;
    u == 0x24 || (0xa2 <= u && u <= 0xa5) || u == 0x58f || u == 0x60b || (0x7fe <= u && u <= 0x7ff)
        || (0x9f2 <= u && u <= 0x9f3) || u == 0x9fb || u == 0xaf1 || u == 0xbf9 || u == 0xe3f || u
        == 0x17db || (0x20a0 <= u && u <= 0x20c0) || u == 0xa838 || u == 0xfdfc || u == 0xfe69 || u
        == 0xff04 || (0xffe0 <= u && u <= 0xffe1) || (0xffe5 <= u && u <= 0xffe6) || (0x11fdd <= u
        && u <= 0x11fe0) || u == 0x1e2ff || u == 0x1ecb0
}

/// Whether the characters of `s` at `lo ..= hi` are all decimal digits.
fn check_all_digits(s: &str, lo: usize, hi: usize) -> (r: bool)
    requires
        lo <= hi <= s@.len(),
    ensures
        r == all_digits(s@.subrange(lo as int, hi as int)),
{
    let ghost b = s@.subrange(lo as int, hi as int);
    let mut j: usize = lo;
    while j < hi
        invariant
            lo <= j <= hi <= s@.len(),
            b == s@.subrange(lo as int, hi as int),
            forall|k: int| 0 <= k < j - lo ==> spec_is_digit(b[k]),
        decreases hi - j,
    {
        let c = s.get_char(j);
        if !is_digit_char(c) {
            proof {
                assert(b[j - lo] == c);
            }
            return false;
        }
        j = j + 1;
    }
    true
}

/// Whether the characters of `s` at `lo ..= hi` form a grouped numeric body.
fn check_grouped(s: &str, lo: usize, hi: usize) -> (r: bool)
    requires
        lo <= hi <= s@.len(),
    ensures
        r == is_grouped(s@.subrange(lo as int, hi as int)),
    decreases hi - lo,
{
    let ghost b = s@.subrange(lo as int, hi as int);
    // Count the leading digits, stopping once the count can no longer be
    // one to three.
    let mut m: usize = 0;
    while lo + m < hi && m < 4 && is_digit_char(s.get_char(lo + m))
        invariant
            lo <= hi <= s@.len(),
            m <= hi - lo,
            m <= 4,
            b == s@.subrange(lo as int, hi as int),
            forall|k: int| 0 <= k < m ==> spec_is_digit(b[k]),
        decreases hi - lo - m,
    {
        proof {
            assert(b[m as int] == s@[lo + m]);
        }
        m = m + 1;
    }
    proof {
        lemma_leading_digits(b, m as int);
    }
    if m < 1 || m > 3 {
        // Fewer than one or more than three leading digits: not grouped.
        return false;
    }
    if lo + m >= hi {
        return false;
    }
    let c = s.get_char(lo + m);
    proof {
        assert(b[m as int] == c);
        assert(leading_digits(b) == m);
    }
    if !is_sep_char(c) {
        return false;
    }
    let tail_lo = lo + m + 1;
    let ghost tail = s@.subrange(tail_lo as int, hi as int);
    proof {
        assert(tail =~= b.skip(m + 1));
    }
    let three = if hi - tail_lo == 3 {
        check_all_digits(s, tail_lo, hi)
    } else {
        false
    };
    if three {
        true
    } else {
        check_grouped(s, tail_lo, hi)
    }
}

/// Finds the bounds of the input with surrounding whitespace trimmed away.
fn trim_bounds(s: &str) -> (r: (usize, usize))
    ensures
        r.0 <= r.1 <= s@.len(),
        spec_trim(s@) == s@.subrange(r.0 as int, r.1 as int),
{
    let n = s.unicode_len();
    let mut lo: usize = 0;
    while lo < n && is_space_char(s.get_char(lo))
        invariant
            lo <= n <= s@.len(),
            n == s@.len(),
            forall|k: int| 0 <= k < lo ==> spec_is_space(s@[k]),
        decreases n - lo,
    {
        lo = lo + 1;
    }
    proof {
        lemma_trim_front_skip(s@, lo as int);
    }
    if lo == n {
        proof {
            assert(s@.skip(n as int) =~= Seq::<char>::empty());
            assert(spec_trim(s@) == Seq::<char>::empty());
            assert(s@.subrange(n as int, n as int) =~= Seq::<char>::empty());
        }
        return (n, n);
    }
    let mut hi: usize = n;
    while hi > lo && is_space_char(s.get_char(hi - 1))
        invariant
            lo <= hi <= n,
            n == s@.len(),
            forall|k: int| hi <= k < n ==> spec_is_space(s@[k]),
        decreases hi,
    {
        hi = hi - 1;
    }
    proof {
        if hi == lo {
            assert(spec_is_space(s@[lo as int]));
        }
        let t = s@.subrange(lo as int, hi as int);
        let u = s@.skip(lo as int);
        assert(trim_front(s@) == u);
        lemma_trim_back_take(u, hi - lo);
        assert(u.take(hi - lo) =~= t);
        assert(t.last() == s@[hi - 1]);
        assert(spec_trim(s@) == t);
    }
    (lo, hi)
}

/// Reads the minor-unit count of the remainder after sign and symbol: its
/// digits in order, with two zeroes appended when there is no fraction.
/// Fails exactly when the count exceeds the machine range.
#[verifier::loop_isolation(false)]
fn scan_value(s: &str, i2: usize, hi: usize, has_frac: bool) -> (r: Option<u64>)
    requires
        i2 <= hi <= s@.len(),
        has_frac == has_fraction(s@.subrange(i2 as int, hi as int)),
    ensures
        ({
            let rest = s@.subrange(i2 as int, hi as int);
            match r {
                Some(m) => m == to_int(minor_digits(rest)) && m <= i64::MAX,
                None => to_int(minor_digits(rest)) > i64::MAX,
            }
        }),
{
    let ghost rest = s@.subrange(i2 as int, hi as int);
    let mut acc: u64 = 0;
    let mut j = i2;
    proof {
        assert(s@.subrange(i2 as int, i2 as int) =~= Seq::<char>::empty());
    }
    while j < hi
        invariant
            i2 <= j <= hi,
            acc == to_int(digits_of(s@.subrange(i2 as int, j as int))),
            acc <= i64::MAX as u64,
        decreases hi - j,
    {
        let ghost prefix = s@.subrange(i2 as int, j as int);
        let ghost prefix1 = s@.subrange(i2 as int, j as int + 1);
        proof {
            assert(prefix1.drop_last() =~= prefix);
            assert(prefix1.last() == s@[j as int]);
        }
        let c = s.get_char(j);
        if is_digit_char(c) {
            let d = digit_value(c);
            proof {
                assert(digits_of(prefix1) == digits_of(prefix).push(c));
                assert(digits_of(prefix1).drop_last() =~= digits_of(prefix));
                assert(to_int(digits_of(prefix1)) == acc * 10 + d);
                vstd::arithmetic::div_mod::lemma_fundamental_div_mod(
                    9223372036854775807 - d,
                    10,
                );
            }
            if acc > (9223372036854775807u64 - d) / 10 {
                // The minor-unit count cannot fit the machine range.
                proof {
                    assert(acc * 10 + d > i64::MAX);
                    let suffix = s@.subrange(j as int + 1, hi as int);
                    assert(rest =~= prefix1 + suffix);
                    lemma_digits_of_concat(prefix1, suffix);
                    lemma_digits_of_all_digits(prefix1);
                    lemma_digits_of_all_digits(suffix);
                    lemma_to_int_extend(digits_of(prefix1), digits_of(suffix));
                    assert(to_int(digits_of(rest)) > i64::MAX);
                    if !has_fraction(rest) {
                        lemma_digits_of_all_digits(rest);
                        assert(all_digits(seq!['0', '0']));
                        lemma_to_int_extend(digits_of(rest), seq!['0', '0']);
                    }
                    assert(to_int(minor_digits(rest)) > i64::MAX);
                }
                return None;
            }
            acc = acc * 10 + d;
        } else {
            proof {
                assert(digits_of(prefix1) == digits_of(prefix));
            }
        }
        j = j + 1;
    }
    proof {
        assert(s@.subrange(i2 as int, hi as int) == rest);
    }
    // Append the fraction's worth: the two digits are already in, or two
    // zeroes stand in for them.
    if has_frac {
        Some(acc)
    } else {
        if acc > 92233720368547758u64 {
            proof {
                lemma_to_int_append_two_zeroes(digits_of(rest));
                assert(to_int(minor_digits(rest)) > i64::MAX);
            }
            return None;
        }
        proof {
            lemma_to_int_append_two_zeroes(digits_of(rest));
        }
        Some(acc * 100)
    }
}

impl Currency {
    /// Parses a string and attempts to turn it into an amount.  Returns
    /// `Some` exactly when the whole trimmed input matches the money shape
    /// and the minor-unit count fits the machine range, as `parse_spec`
    /// states; any unmatched remainder, stray character or overflow yields
    /// `None`.
    ///
    /// If the amount is intended to be negative, the `-` must be the first
    /// character of the trimmed input, before any currency symbol.
    /// European notation is recognized alongside US notation.
    pub fn from_string(s: &str) -> (r: Option<Currency>)
        ensures
            match r {
                Some(c) => parse_spec(s@) == Some(c@),
                None => parse_spec(s@) is None,
            },
    {
        let (lo, hi) = trim_bounds(s);
        let ghost t = s@.subrange(lo as int, hi as int);
        if lo == hi {
            // Nothing but whitespace: no numeric body.
            proof {
                assert(!body_valid(body_of(Seq::<char>::empty())));
            }
            return None;
        }
        // Optional leading minus.
        let neg = s.get_char(lo) == '-';
        let i1 = if neg {
            lo + 1
        } else {
            lo
        };
        let ghost t1 = s@.subrange(i1 as int, hi as int);
        proof {
            assert(t[0] == s@[lo as int]);
            if neg {
                assert(t.drop_first() =~= t1);
            }
        }
        // Optional currency symbol.
        let (sym, i2): (Option<char>, usize) = if i1 < hi {
            let c = s.get_char(i1);
            if is_symbol_char(c) {
                (Some(c), i1 + 1)
            } else {
                (None, i1)
            }
        } else {
            (None, i1)
        };
        let ghost rest = s@.subrange(i2 as int, hi as int);
        proof {
            if i1 < hi {
                assert(t1[0] == s@[i1 as int]);
            }
            if sym is Some {
                assert(t1.drop_first() =~= rest);
            }
        }
        // Optional two-digit fractional suffix.
        let has_frac = if hi - i2 >= 3 {
            if is_sep_char(s.get_char(hi - 3)) {
                is_digit_char(s.get_char(hi - 2)) && is_digit_char(s.get_char(hi - 1))
            } else {
                false
            }
        } else {
            false
        };
        proof {
            if rest.len() >= 3 {
                assert(rest[rest.len() - 3] == s@[hi - 3]);
                assert(rest[rest.len() - 2] == s@[hi - 2]);
                assert(rest[rest.len() - 1] == s@[hi - 1]);
            }
            assert(has_frac == has_fraction(rest));
        }
        let body_hi = if has_frac {
            hi - 3
        } else {
            hi
        };
        proof {
            assert(s@.subrange(i2 as int, body_hi as int) =~= body_of(rest));
        }
        // The body must be a bare digit run or a grouped number.
        let bare = if i2 < body_hi {
            check_all_digits(s, i2, body_hi)
        } else {
            false
        };
        let valid = if bare {
            true
        } else {
            check_grouped(s, i2, body_hi)
        };
        if !valid {
            return None;
        }
        // Read the minor-unit count from the digits.
        let mag = match scan_value(s, i2, hi, has_frac) {
            Some(m) => m,
            None => {
                return None;
            },
        };
        let value: i64 = if neg {
            -(mag as i64)
        } else {
            mag as i64
        };
        let result = Currency { symbol: sym, value };
        proof {
            assert(parse_spec(s@) == Some(result@));
        }
        Some(result)
    }
}

} // verus!
