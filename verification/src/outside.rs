//! The values of the `candid` crate that the ledger and the order store hold,
//! with the operations the library performs on them.

use vstd::prelude::*;

verus! {

/// `candid::Nat`: an arbitrary-precision natural number. Opaque to the verifier.
#[verifier::external_type_specification]
#[verifier::external_body]
pub struct ExNat(candid::Nat);

/// `candid::Principal`: the identity of a user. Opaque to the verifier.
#[verifier::external_type_specification]
#[verifier::external_body]
pub struct ExPrincipal(candid::Principal);

/// The natural number that a `candid::Nat` holds.
pub uninterp spec fn nat_value(n: candid::Nat) -> nat;

/// `Nat::from(u128)`: the `Nat` that holds `v`.
#[verifier::external_body]
pub(crate) fn nat_from_u128(v: u128) -> (r: candid::Nat)
    ensures
        nat_value(r) == v,
{
    candid::Nat::from(v)
}

/// `Nat + Nat`: the sum, which cannot overflow.
#[verifier::external_body]
pub(crate) fn nat_add(a: &candid::Nat, b: &candid::Nat) -> (r: candid::Nat)
    ensures
        nat_value(r) == nat_value(*a) + nat_value(*b),
{
    a.clone() + b.clone()
}

/// `Nat - Nat`: the difference. The subtraction panics when the result would
/// be negative, so callers must show `b <= a`.
#[verifier::external_body]
pub(crate) fn nat_sub(a: &candid::Nat, b: &candid::Nat) -> (r: candid::Nat)
    requires
        nat_value(*b) <= nat_value(*a),
    ensures
        nat_value(r) == nat_value(*a) - nat_value(*b),
{
    a.clone() - b.clone()
}

/// `Nat < Nat`: the derived order of `Nat`, which is the order of the numbers.
#[verifier::external_body]
pub(crate) fn nat_lt(a: &candid::Nat, b: &candid::Nat) -> (r: bool)
    ensures
        r == (nat_value(*a) < nat_value(*b)),
{
    a < b
}

/// `Nat::clone`: a `Nat` that holds the same number.
#[verifier::external_body]
pub(crate) fn nat_clone(a: &candid::Nat) -> (r: candid::Nat)
    ensures
        nat_value(r) == nat_value(*a),
{
    a.clone()
}

/// `Principal::clone`: `Principal` is `Copy`, and its clone is the same
/// identity.
pub assume_specification[ <candid::Principal as Clone>::clone ](p: &candid::Principal) -> (r:
    candid::Principal)
    ensures
        r == *p,
;

/// `Principal == Principal`: the derived equality of `Principal`, which
/// compares the two identities byte by byte.
#[verifier::external_body]
pub(crate) fn principal_eq(a: &candid::Principal, b: &candid::Principal) -> (r: bool)
    ensures
        r == (*a == *b),
{
    a == b
}

} // verus!
