//! Fixed-point arithmetic of `cosmwasm_std::Decimal`, used to split rewards.
use cosmwasm_std::{Decimal, Uint128};
use crate::laws::lemma_share_is_proportional;
use vstd::prelude::*;

verus! {

/// Atomic units in one whole `Decimal`: a decimal has 18 fractional digits.
pub const DECIMAL_FRACTIONAL: u128 = 1_000_000_000_000_000_000u128;

/// The atomics of the decimal `numerator / denominator`, rounded down.
pub open spec fn ratio_atomics(numerator: nat, denominator: nat) -> nat {
    (numerator * (DECIMAL_FRACTIONAL as nat)) / denominator
}

/// `amount` times the decimal whose atomics are `atomics`, rounded down.
pub open spec fn mul_atomics(amount: nat, atomics: nat) -> nat {
    (amount * atomics) / (DECIMAL_FRACTIONAL as nat)
}

/// Calls `cosmwasm_std::Decimal::from_ratio` and hands back the atomics of the
/// decimal it builds. Its source computes `numerator * 10^18 / denominator` in
/// 256 bits, rounded down, and panics when the denominator is zero or the
/// quotient does not fit in 128 bits; both inputs are left out here.
#[verifier::external_body]
pub(crate) fn decimal_from_ratio(numerator: u128, denominator: u128) -> (atomics: u128)
    requires
        denominator > 0,
        ratio_atomics(numerator as nat, denominator as nat) <= u128::MAX,
    ensures
        atomics == ratio_atomics(numerator as nat, denominator as nat),
{
    Decimal::from_ratio(numerator, denominator).atomics().u128()
}

/// Calls `<cosmwasm_std::Uint128 as Mul<cosmwasm_std::Decimal>>::mul` on
/// `amount` and the decimal made of `atomics` (`Decimal::raw`). Its source
/// returns zero when either side is zero and otherwise
/// `amount.multiply_ratio(atomics, 10^18)`: the product, computed in 256 bits,
/// divided by 10^18 and rounded down, panicking when that does not fit in
/// 128 bits; that input is left out here.
#[verifier::external_body]
pub(crate) fn uint128_mul_decimal(amount: u128, atomics: u128) -> (product: u128)
    requires
        mul_atomics(amount as nat, atomics as nat) <= u128::MAX,
    ensures
        product == mul_atomics(amount as nat, atomics as nat),
{
    (Uint128::new(amount) * Decimal::raw(atomics)).u128()
}

/// The part of a reward of `received` that a stake of `stake` out of `total`
/// earns: `received * Decimal::from_ratio(stake, total)`.
pub open spec fn reward_share(received: nat, stake: nat, total: nat) -> nat {
    mul_atomics(received, ratio_atomics(stake, total))
}

proof fn lemma_ratio_at_most_one(stake: nat, total: nat)
    requires
        0 < total,
        stake <= total,
    ensures
        ratio_atomics(stake, total) <= DECIMAL_FRACTIONAL,
{
    let e = DECIMAL_FRACTIONAL as nat;
    assert(stake * e <= total * e) by (nonlinear_arith)
        requires
            stake <= total,
    ;
    assert((stake * e) / total <= (total * e) / total) by (nonlinear_arith)
        requires
            stake * e <= total * e,
            0 < total,
    ;
    assert((total * e) / total == e) by (nonlinear_arith)
        requires
            0 < total,
    ;
}

proof fn lemma_mul_at_most_amount(amount: nat, atomics: nat)
    requires
        atomics <= DECIMAL_FRACTIONAL,
    ensures
        mul_atomics(amount, atomics) <= amount,
{
    let e = DECIMAL_FRACTIONAL as nat;
    assert(amount * atomics <= amount * e) by (nonlinear_arith)
        requires
            atomics <= e,
    ;
    assert((amount * atomics) / e <= (amount * e) / e) by (nonlinear_arith)
        requires
            amount * atomics <= amount * e,
            0 < e,
    ;
    assert((amount * e) / e == amount) by (nonlinear_arith)
        requires
            0 < e,
    ;
}

/// A stake's part of a reward, computed with `Decimal` as the ledger does:
/// `received * Decimal::from_ratio(stake, total)`.
pub fn compute_reward_share(received: u128, stake: u128, total: u128) -> (share: u128)
    requires
        0 < total,
        stake <= total,
    ensures
        share == reward_share(received as nat, stake as nat, total as nat),
        share <= received,
        share * total <= received * stake,
        received * stake * (DECIMAL_FRACTIONAL as nat) < share * total * (DECIMAL_FRACTIONAL as nat)
            + received * total + (DECIMAL_FRACTIONAL as nat) * total,
{
    proof {
        lemma_ratio_at_most_one(stake as nat, total as nat);
        lemma_share_is_proportional(received as nat, stake as nat, total as nat);
    }
    let ratio = decimal_from_ratio(stake, total);
    proof {
        lemma_mul_at_most_amount(received as nat, ratio as nat);
    }
    uint128_mul_decimal(received, ratio)
}

} // verus!
