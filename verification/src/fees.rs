//! Fee and payout arithmetic.
//!
//! The house charges 2% of the stake per person, rounded down.  A
//! decisive result pays the winner both stakes minus the doubled fee; a
//! result-confirmed draw returns each stake minus one fee.  The fee is
//! floored per person and then doubled, not floored jointly, so the
//! house may collect one unit less than a jointly floored 2% of the
//! pot; that residue is by design and stated below, not corrected.

use vstd::prelude::*;

verus! {

use crate::models::Challenge;
use vstd::arithmetic::div_mod::{
    lemma_div_by_multiple, lemma_div_denominator, lemma_fundamental_div_mod,
};

/// 2% of the stake, rounded down: what each party owes the house on a
/// settled result.
pub open spec fn spec_fee_per_person(stake: int) -> int {
    stake / 50
}

/// Both parties' fees together: what the house receives on a decisive
/// result or a result-confirmed draw.
pub open spec fn spec_total_fee(stake: int) -> int {
    2 * spec_fee_per_person(stake)
}

/// What the winner of a decisive result receives: the whole pot minus
/// the house fee.
pub open spec fn spec_decisive_payout(stake: int) -> int {
    2 * stake - spec_total_fee(stake)
}

/// What each party receives on a result-confirmed draw: the stake back
/// minus one fee.
pub open spec fn spec_draw_payout(stake: int) -> int {
    stake - spec_fee_per_person(stake)
}

/// Computes the per-person house fee for a challenge's stake.
pub fn calculate_fee_per_person(challenge: &Challenge) -> (r: i64)
    requires
        challenge.sats is Some,
        0 <= challenge.sats.unwrap(),
    ensures
        r == spec_fee_per_person(challenge.sats.unwrap() as int),
{
    let stake: i64 = match challenge.sats {
        Some(s) => s,
        None => 0,
    };
    stake / 50
}

/// The per-person fee is the floor of stake * 0.02: dividing by 50 and
/// taking the floor of two hundredths are the same function of the
/// stake.
pub proof fn lemma_fee_is_floor_of_two_percent(stake: int)
    requires
        0 <= stake,
    ensures
        spec_fee_per_person(stake) == (stake * 2) / 100,
{
    lemma_div_denominator(stake * 2, 2, 50);
    assert((stake * 2) / 2 == stake) by {
        lemma_div_by_multiple(stake, 2);
    }
}

/// Conservation: each settlement distributes exactly the pot of both
/// stakes.  On a decisive result the fee and the winner's payout sum to
/// the pot; on a result-confirmed draw the fee and the two refunds do.
pub proof fn lemma_settlement_conserves_pot(stake: int)
    ensures
        spec_total_fee(stake) + spec_decisive_payout(stake) == 2 * stake,
        spec_total_fee(stake) + 2 * spec_draw_payout(stake) == 2 * stake,
{
}

/// The fee and the payouts stay between zero and the pot: settlement
/// arithmetic on a stake that fits twice into the machine integer can
/// neither overflow nor pay a negative amount.
pub proof fn lemma_fee_bounds(stake: int)
    requires
        0 <= stake,
    ensures
        0 <= spec_fee_per_person(stake) <= stake,
        0 <= spec_total_fee(stake) <= 2 * stake,
        0 <= spec_draw_payout(stake) <= stake,
        0 <= spec_decisive_payout(stake) <= 2 * stake,
{
    vstd::arithmetic::div_mod::lemma_div_pos_is_pos(stake, 50);
    vstd::arithmetic::div_mod::lemma_div_is_ordered_by_denominator(stake, 1, 50);
    vstd::arithmetic::div_mod::lemma_div_basics(stake);
}

/// The documented rounding residue: because the fee is floored per
/// person and then doubled, the house receives at most one unit less
/// than a jointly floored 2% of the pot, and never more.
pub proof fn lemma_fee_rounding_residue(stake: int)
    requires
        0 <= stake,
    ensures
        0 <= (2 * stake) / 50 - spec_total_fee(stake) <= 1,
{
    let q = stake / 50;
    let r = stake % 50;
    lemma_fundamental_div_mod(stake, 50);
    assert(2 * stake == 2 * r + (2 * q) * 50);
    assert((2 * r) / 50 + 2 * q == (2 * stake) / 50) by {
        vstd::arithmetic::div_mod::lemma_hoist_over_denominator(2 * r, 2 * q, 50nat);
    }
    assert(0 <= (2 * r) / 50 <= 1) by {
        assert(0 <= 2 * r < 100);
        if 2 * r < 50 {
            vstd::arithmetic::div_mod::lemma_basic_div(2 * r, 50);
        } else {
            assert((50 * 1 + (2 * r - 50)) / 50 == 1) by {
                vstd::arithmetic::div_mod::lemma_div_multiples_vanish_fancy(1, 2 * r - 50, 50);
            }
            assert(50 * 1 + (2 * r - 50) == 2 * r);
        }
    }
}

} // verus!
