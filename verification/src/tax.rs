//! What can be priced: a pre-tax price and the tax on it.

use vstd::prelude::*;

verus! {

/// A thing with a pre-tax price and a tax on it, both in cents.
pub trait Tax {
    /// The pre-tax price and the tax, in this order.
    spec fn prices(&self) -> (nat, nat);

    /// Returns the pre-tax price and the tax, in this order. Together they
    /// fit in 64 bits.
    fn get_prices(&self) -> (r: (u64, u64))
        ensures
            r.0 == self.prices().0,
            r.1 == self.prices().1,
            r.0 + r.1 <= u64::MAX,
    ;
}

} // verus!
