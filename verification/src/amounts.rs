//! The range of stored amounts.
use vstd::prelude::*;

verus! {

/// Whether a sum or a product is outside the range of the stored amounts.
pub open spec fn overflows(x: int) -> bool {
    x < i128::MIN || x > i128::MAX
}

/// Every amount is in range, and whatever is out of range is no amount.
pub proof fn law_overflow_is_what_does_not_fit(x: int, amount: i128)
    ensures
        !overflows(amount as int),
        !overflows(x) ==> (x as i128) as int == x,
        overflows(x) ==> x != amount,
        overflows(x) <==> x < i128::MIN || x > i128::MAX,
{
}

} // verus!
