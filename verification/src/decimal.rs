//! Decimal numbers of `rust_decimal`.

use vstd::prelude::*;

verus! {

/// A decimal number of `rust_decimal`; it is carried through and not looked
/// into.
#[verifier::external_type_specification]
#[verifier::external_body]
pub struct ExDecimal(rust_decimal::Decimal);

/// The number `num / 10^scale` as `rust_decimal`'s `Decimal::new` makes it.
pub uninterp spec fn decimal_of(num: i64, scale: u32) -> rust_decimal::Decimal;

/// Calls `rust_decimal`'s `Decimal::new`.
///
/// Claimed of it: the number depends on the two arguments alone. A scale of
/// more than 28 is refused by a panic, so it is left out.
#[verifier::external_body]
pub(crate) fn decimal(num: i64, scale: u32) -> (r: rust_decimal::Decimal)
    requires
        scale <= 28,
    ensures
        r == decimal_of(num, scale),
{
    rust_decimal::Decimal::new(num, scale)
}

} // verus!
