//! Mixed-radix arithmetic: the value of a digit string under a list of
//! radixes, and how that value moves under the carry-propagating advance
//! that both the mask counter and the enumeration driver perform.
use vstd::prelude::*;

verus! {

/// Product of all radixes: the number of distinct digit strings.
pub open spec fn radix_prod(radixes: Seq<int>) -> int
    decreases radixes.len(),
{
    if radixes.len() == 0 {
        1
    } else {
        radix_prod(radixes.drop_last()) * radixes.last()
    }
}

/// The numeric value of a digit string, rightmost digit fastest.
pub open spec fn odo_value(digits: Seq<int>, radixes: Seq<int>) -> int
    decreases digits.len(),
{
    if digits.len() == 0 {
        0
    } else {
        odo_value(digits.drop_last(), radixes.drop_last()) * radixes.last() + digits.last()
    }
}

pub open spec fn digits_ok(digits: Seq<int>, radixes: Seq<int>) -> bool {
    &&& digits.len() == radixes.len()
    &&& forall|i: int| 0 <= i < digits.len() ==> 0 <= #[trigger] digits[i] < radixes[i]
}

/// The digit string after a successful advance at position `i`: positions
/// right of `i` wrap to zero, position `i` counts up, the rest stand.
pub open spec fn succ_at(digits: Seq<int>, i: int) -> Seq<int> {
    Seq::new(
        digits.len(),
        |j: int|
            if j > i {
                0
            } else if j == i {
                digits[i] + 1
            } else {
                digits[j]
            },
    )
}

pub proof fn lemma_radix_prod_pos(radixes: Seq<int>)
    requires
        forall|i: int| 0 <= i < radixes.len() ==> #[trigger] radixes[i] >= 1,
    ensures
        radix_prod(radixes) >= 1,
    decreases radixes.len(),
{
    if radixes.len() > 0 {
        lemma_radix_prod_pos(radixes.drop_last());
        assert(radix_prod(radixes.drop_last()) * radixes.last() >= 1) by (nonlinear_arith)
            requires
                radix_prod(radixes.drop_last()) >= 1,
                radixes.last() >= 1,
        ;
    }
}

pub proof fn lemma_odo_value_bounds(digits: Seq<int>, radixes: Seq<int>)
    requires
        digits_ok(digits, radixes),
    ensures
        0 <= odo_value(digits, radixes) < radix_prod(radixes),
    decreases digits.len(),
{
    if digits.len() == 0 {
    } else {
        assert(digits_ok(digits.drop_last(), radixes.drop_last()));
        lemma_odo_value_bounds(digits.drop_last(), radixes.drop_last());
        let v = odo_value(digits.drop_last(), radixes.drop_last());
        let p = radix_prod(radixes.drop_last());
        assert(v * radixes.last() + digits.last() < p * radixes.last()) by (nonlinear_arith)
            requires
                v <= p - 1,
                0 <= digits.last() < radixes.last(),
        ;
        assert(v * radixes.last() + digits.last() >= 0) by (nonlinear_arith)
            requires
                v >= 0,
                radixes.last() >= 1,
                digits.last() >= 0,
        ;
    }
}

/// All digits zero: the value is zero.
pub proof fn lemma_odo_value_zero(digits: Seq<int>, radixes: Seq<int>)
    requires
        digits.len() == radixes.len(),
        forall|i: int| 0 <= i < digits.len() ==> #[trigger] digits[i] == 0,
    ensures
        odo_value(digits, radixes) == 0,
    decreases digits.len(),
{
    if digits.len() > 0 {
        lemma_odo_value_zero(digits.drop_last(), radixes.drop_last());
    }
}

/// All digits at their maximum: the value is the product minus one.
pub proof fn lemma_odo_value_max(digits: Seq<int>, radixes: Seq<int>)
    requires
        digits.len() == radixes.len(),
        forall|i: int| 0 <= i < digits.len() ==> #[trigger] digits[i] == radixes[i] - 1,
        forall|i: int| 0 <= i < radixes.len() ==> #[trigger] radixes[i] >= 1,
    ensures
        odo_value(digits, radixes) == radix_prod(radixes) - 1,
    decreases digits.len(),
{
    if digits.len() > 0 {
        lemma_odo_value_max(digits.drop_last(), radixes.drop_last());
        let p = radix_prod(radixes.drop_last());
        let r = radixes.last();
        assert((p - 1) * r + (r - 1) == p * r - 1) by (nonlinear_arith);
    }
}

/// A successful advance at position `i`, with everything to its right
/// having wrapped, adds exactly one to the value.
pub proof fn lemma_odo_succ_at(digits: Seq<int>, radixes: Seq<int>, i: int)
    requires
        digits_ok(digits, radixes),
        0 <= i < digits.len(),
        digits[i] + 1 < radixes[i],
        forall|j: int| i < j < digits.len() ==> #[trigger] digits[j] == radixes[j] - 1,
        forall|j: int| 0 <= j < radixes.len() ==> #[trigger] radixes[j] >= 1,
    ensures
        odo_value(succ_at(digits, i), radixes) == odo_value(digits, radixes) + 1,
    decreases digits.len(),
{
    let s = succ_at(digits, i);
    if i == digits.len() - 1 {
        assert(s.drop_last() =~= digits.drop_last());
    } else {
        assert(s.drop_last() =~= succ_at(digits.drop_last(), i));
        lemma_odo_succ_at(digits.drop_last(), radixes.drop_last(), i);
        let v = odo_value(digits.drop_last(), radixes.drop_last());
        let r = radixes.last();
        assert((v + 1) * r + 0 == v * r + (r - 1) + 1) by (nonlinear_arith);
    }
}

} // verus!
