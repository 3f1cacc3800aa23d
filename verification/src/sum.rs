//! Aggregation: summing a sequence of amounts by a left fold over addition,
//! starting from the default amount.

use vstd::prelude::*;

use crate::Currency;
use crate::Money;
use crate::default_money;
use crate::math::add_permitted;
use crate::math::fits_i64;
use crate::math::spec_add;

verus! {

/// Left fold of addition over the remaining amounts, seeded with `acc`.
pub open spec fn fold_add(acc: Money, rest: Seq<Money>) -> Money
    decreases rest.len(),
{
    if rest.len() == 0 {
        acc
    } else {
        fold_add(spec_add(acc, rest[0]), rest.drop_first())
    }
}

/// Every pairwise step of the fold is permitted (the accumulator's symbol is
/// compatible with the next amount's) and stays within the machine range.
pub open spec fn fold_add_ok(acc: Money, rest: Seq<Money>) -> bool
    decreases rest.len(),
{
    if rest.len() == 0 {
        true
    } else {
        add_permitted(acc, rest[0]) && fits_i64(spec_add(acc, rest[0]).value)
            && fold_add_ok(spec_add(acc, rest[0]), rest.drop_first())
    }
}

/// What summing a sequence of amounts yields: the left fold of addition
/// starting from the default amount.  The empty sequence sums to the default.
pub open spec fn spec_sum(amounts: Seq<Money>) -> Money {
    fold_add(default_money(), amounts)
}

/// Summation never combines two differing concrete symbols and never leaves
/// the machine range.
pub open spec fn sum_ok(amounts: Seq<Money>) -> bool {
    fold_add_ok(default_money(), amounts)
}

/// Folding one more amount on the right adds it to the fold's result.
proof fn lemma_fold_add_push(acc: Money, s: Seq<Money>, x: Money)
    ensures
        fold_add(acc, s.push(x)) == spec_add(fold_add(acc, s), x),
    decreases s.len(),
{
    if s.len() == 0 {
        assert(s.push(x).drop_first() =~= Seq::<Money>::empty());
        assert(s.push(x)[0] == x);
        assert(fold_add(acc, s.push(x)) == fold_add(spec_add(acc, x), Seq::<Money>::empty()));
        assert(fold_add(spec_add(acc, x), Seq::<Money>::empty()) == spec_add(acc, x));
        assert(fold_add(acc, s) == acc);
    } else {
        assert(s.push(x)[0] == s[0]);
        assert(s.push(x).drop_first() =~= s.drop_first().push(x));
        assert(fold_add(acc, s.push(x)) == fold_add(spec_add(acc, s[0]), s.drop_first().push(x)));
        assert(fold_add(acc, s) == fold_add(spec_add(acc, s[0]), s.drop_first()));
        lemma_fold_add_push(spec_add(acc, s[0]), s.drop_first(), x);
    }
}

/// Summation is repeated addition: the empty sequence sums to the default
/// amount, and a sequence with one more amount sums to the shorter
/// sequence's sum plus that amount.
pub proof fn lemma_sum_is_repeated_addition(s: Seq<Money>, x: Money)
    ensures
        spec_sum(Seq::<Money>::empty()) == default_money(),
        spec_sum(s.push(x)) == spec_add(spec_sum(s), x),
{
    lemma_fold_add_push(default_money(), s, x);
}

impl Currency {
    /// Sums a list of amounts: a left fold of `add` over the list, starting
    /// from the default amount.  Folding by repeated addition and calling
    /// this function yield the identical result, for any list including the
    /// empty one, which sums to the default amount.
    ///
    /// Inherits addition's behavior for every pairwise step: the wildcard
    /// accumulator absorbs the first symbol, and a symbol mismatch is a
    /// programming error, excluded here rather than reported.
    pub fn sum(amounts: &Vec<Currency>) -> (r: Currency)
        requires
            sum_ok(amounts.deep_view()),
        ensures
            r@ == spec_sum(amounts.deep_view()),
    {
        let ghost all = amounts.deep_view();
        let mut acc = Currency::new();
        let mut i: usize = 0;
        proof {
            assert(all.skip(0) =~= all);
        }
        while i < amounts.len()
            invariant
                0 <= i <= amounts.len(),
                all == amounts.deep_view(),
                all.len() == amounts.len(),
                forall|k: int| 0 <= k < all.len() ==> all[k] == amounts[k]@,
                fold_add_ok(acc@, all.skip(i as int)),
                fold_add(acc@, all.skip(i as int)) == spec_sum(all),
            decreases amounts.len() - i,
        {
            let ghost rest = all.skip(i as int);
            proof {
                assert(rest[0] == amounts[i as int]@);
                assert(rest.drop_first() == all.skip(i as int + 1));
            }
            acc = acc.add(amounts[i]);
            i = i + 1;
        }
        acc
    }
}

} // verus!
