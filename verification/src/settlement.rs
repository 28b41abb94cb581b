//! Settling a challenge against the ledger.
//!
//! Each settlement is one atomic unit: it writes the ledger entries,
//! moves the balances, and transitions the challenge, or it fails and
//! leaves everything observably unchanged so the next cycle retries.
//! A decisive result pays the house fee and the winner's payout; a
//! result-confirmed draw pays the fee and refunds each party their
//! stake minus one fee; a forced draw (the match was never found)
//! refunds each party in full with no fee; an expired, never-accepted
//! challenge refunds only the creator, who alone has deposited.

use vstd::prelude::*;

verus! {

use crate::fees::{
    calculate_fee_per_person, lemma_fee_bounds, spec_decisive_payout, spec_draw_payout,
    spec_total_fee,
};
use crate::ledger::{
    fits_i64, lemma_balance_in_bounds, lemma_open_refs_unique_push, lemma_settled_sum_push,
    settled_state, Ledger, LedgerError,
};
use crate::models::{Challenge, Transaction};
use crate::resolver::{get_winner_username, spec_creator_won};
use crate::status::{
    challenge_same_but_status, mark_challenge_completed, mark_challenge_expired, status_view,
    ChallengeStatus,
};

/// The shape of an entry a settlement writes: settled on arrival,
/// owned by the payee, carrying the settlement amount and the bound
/// match id, and no funding reference.
pub open spec fn is_settlement_entry(
    e: Transaction,
    user: Seq<char>,
    ttype: Seq<char>,
    amount: int,
    lid: Seq<char>,
) -> bool {
    &&& e.username@ == user
    &&& e.ttype@ == ttype
    &&& e.amount as int == amount
    &&& e.state@ == settled_state()
    &&& e.preimage is None
    &&& e.payment_addr is None
    &&& e.payment_request is None
    &&& e.payment_hash is None
    &&& e.lichess_challenge_id is Some
    &&& e.lichess_challenge_id.unwrap()@ == lid
    &&& e.created_on is None
}

/// Builds one settlement entry.
fn settlement_entry(
    username: &str,
    ttype: &str,
    detail: &str,
    amount: i64,
    lichess_id: &str,
) -> (e: Transaction)
    ensures
        is_settlement_entry(e, username@, ttype@, amount as int, lichess_id@),
{
    Transaction {
        transaction_id: 0,
        username: username.to_owned(),
        ttype: ttype.to_owned(),
        detail: detail.to_owned(),
        amount,
        state: "SETTLED".to_owned(),
        preimage: None,
        payment_addr: None,
        payment_request: None,
        payment_hash: None,
        lichess_challenge_id: Some(lichess_id.to_owned()),
        created_on: None,
    }
}

/// Settles a decisive result: the house receives both fees, the winner
/// receives the pot minus the fees, and the challenge completes, all
/// in one atomic unit.  Fails, changing nothing, exactly when a new
/// balance would not fit the store.
pub fn settle_decisive(
    l: &mut Ledger,
    challenge: &mut Challenge,
    admin: &str,
    winner: &str,
) -> (r: Result<(), LedgerError>)
    requires
        old(l).wf(),
        old(challenge).sats is Some,
        0 <= old(challenge).sats.unwrap(),
        2 * old(challenge).sats.unwrap() <= i64::MAX,
        old(challenge).color is Some,
        old(challenge).status is Some,
        old(challenge).status.unwrap()@ == status_view(ChallengeStatus::Accepted),
        old(challenge).lichess_challenge_id is Some,
        winner@ == "white"@ || winner@ == "black"@,
    ensures
        final(l).wf(),
        ({
            let stake = old(challenge).sats.unwrap() as int;
            let total = spec_total_fee(stake);
            let payout = spec_decisive_payout(stake);
            let w = if spec_creator_won(old(challenge).color.unwrap()@, winner@) {
                old(challenge).username@
            } else {
                old(challenge).opp_username@
            };
            let lid = old(challenge).lichess_challenge_id.unwrap()@;
            let n = old(l).entries@.len() as int;
            &&& (r is Ok <==> fits_i64(old(l).spec_balance_of(admin@) + total) && fits_i64(
                old(l).spec_balance_of(w) + (if w == admin@ {
                    total
                } else {
                    0
                }) + payout,
            ))
            &&& (r is Ok ==> {
                &&& final(l).entries@.len() == n + 2
                &&& final(l).entries@.subrange(0, n) =~= old(l).entries@
                &&& is_settlement_entry(final(l).entries@[n], admin@, "fee"@, total, lid)
                &&& is_settlement_entry(final(l).entries@[n + 1], w, "winnings"@, payout, lid)
                &&& (forall|u: Seq<char>| #[trigger]
                    final(l).spec_balance_of(u) == old(l).spec_balance_of(u) + (if u == admin@ {
                        total
                    } else {
                        0
                    }) + (if u == w {
                        payout
                    } else {
                        0
                    }))
                &&& final(challenge).status is Some
                &&& final(challenge).status.unwrap()@ == status_view(ChallengeStatus::Completed)
                &&& challenge_same_but_status(*old(challenge), *final(challenge))
            })
            &&& (r is Err ==> {
                &&& r == Err::<(), LedgerError>(LedgerError::BalanceOutOfRange)
                &&& final(l).entries@ == old(l).entries@
                &&& (forall|u: Seq<char>| #[trigger]
                    final(l).spec_balance_of(u) == old(l).spec_balance_of(u))
                &&& *final(challenge) == *old(challenge)
            })
        }),
{
    let ghost l0 = *l;
    let stake: i64 = match challenge.sats {
        Some(s) => s,
        None => 0,
    };
    let fee = calculate_fee_per_person(challenge);
    proof {
        lemma_fee_bounds(stake as int);
    }
    let total_fee = fee * 2;
    let payout = stake * 2 - total_fee;
    let winner_username = get_winner_username(challenge, winner);

    if !l.add_to_balance(admin, total_fee) {
        proof {
            assert forall|u: Seq<char>| #[trigger]
                crate::ledger::balance_in(l.accounts@, u) == crate::ledger::settled_sum(
                    l.entries@,
                    u,
                ) by {
                assert(l.spec_balance_of(u) == l0.spec_balance_of(u));
                assert(crate::ledger::balance_in(l0.accounts@, u) == crate::ledger::settled_sum(
                    l0.entries@,
                    u,
                ));
            }
            assert(l.wf());
        }
        return Err(LedgerError::BalanceOutOfRange);
    }
    let ghost l1 = *l;
    if !l.add_to_balance(winner_username.as_str(), payout) {
        let ghost lf = *l;
        proof {
            lemma_balance_in_bounds(l0.accounts@, admin@);
            assert(l1.spec_balance_of(admin@) == l0.spec_balance_of(admin@) + total_fee);
            assert(lf.spec_balance_of(admin@) == l1.spec_balance_of(admin@));
        }
        let undone = l.add_to_balance(admin, -total_fee);
        proof {
            assert(undone);
            assert forall|u: Seq<char>| #[trigger]
                l.spec_balance_of(u) == l0.spec_balance_of(u) by {
                assert(lf.spec_balance_of(u) == l1.spec_balance_of(u));
                assert(l1.spec_balance_of(u) == l0.spec_balance_of(u) + (if u == admin@ {
                    total_fee as int
                } else {
                    0
                }));
                assert(l.spec_balance_of(u) == lf.spec_balance_of(u) + (if u == admin@ {
                    (-total_fee) as int
                } else {
                    0
                }));
            }
            assert forall|u: Seq<char>| #[trigger]
                crate::ledger::balance_in(l.accounts@, u) == crate::ledger::settled_sum(
                    l.entries@,
                    u,
                ) by {
                assert(l.spec_balance_of(u) == l0.spec_balance_of(u));
                assert(crate::ledger::balance_in(l0.accounts@, u) == crate::ledger::settled_sum(
                    l0.entries@,
                    u,
                ));
            }
            assert(l.wf());
        }
        return Err(LedgerError::BalanceOutOfRange);
    }
    let ghost l2 = *l;

    let lichess_id = challenge.lichess_challenge_id.as_ref().unwrap().clone();
    let fee_entry = settlement_entry(
        admin,
        "fee",
        "fee from challenge",
        total_fee,
        lichess_id.as_str(),
    );
    l.insert_tx(fee_entry);
    let win_entry = settlement_entry(
        winner_username.as_str(),
        "winnings",
        "winnings from challenge",
        payout,
        lichess_id.as_str(),
    );
    l.insert_tx(win_entry);
    mark_challenge_completed(challenge);

    proof {
        let e0 = l0.entries@;
        assert(l.entries@.subrange(0, e0.len() as int) =~= e0);
        lemma_open_refs_unique_push(e0, fee_entry);
        lemma_open_refs_unique_push(e0.push(fee_entry), win_entry);
        assert(l.entries@ =~= e0.push(fee_entry).push(win_entry));
        assert forall|u: Seq<char>|
            crate::ledger::balance_in(l.accounts@, u) == crate::ledger::settled_sum(
                l.entries@,
                u,
            ) by {
            lemma_settled_sum_push(e0, fee_entry, u);
            lemma_settled_sum_push(e0.push(fee_entry), win_entry, u);
            assert(l1.spec_balance_of(u) == l0.spec_balance_of(u) + (if u == admin@ {
                total_fee as int
            } else {
                0
            }));
            assert(l2.spec_balance_of(u) == l1.spec_balance_of(u) + (if u == winner_username@ {
                payout as int
            } else {
                0
            }));
            assert(crate::ledger::balance_in(l0.accounts@, u) == crate::ledger::settled_sum(
                l0.entries@,
                u,
            ));
        }
        assert forall|u: Seq<char>| #[trigger]
            l.spec_balance_of(u) == l0.spec_balance_of(u) + (if u == admin@ {
                spec_total_fee(stake as int)
            } else {
                0
            }) + (if u == winner_username@ {
                spec_decisive_payout(stake as int)
            } else {
                0
            }) by {
            assert(l1.spec_balance_of(u) == l0.spec_balance_of(u) + (if u == admin@ {
                total_fee as int
            } else {
                0
            }));
            assert(l2.spec_balance_of(u) == l1.spec_balance_of(u) + (if u == winner_username@ {
                payout as int
            } else {
                0
            }));
            assert(l.accounts@ == l2.accounts@);
        }
    }
    Ok(())
}


/// Settles a result-confirmed draw: the house receives both fees and
/// each party receives their stake minus one fee, and the challenge
/// completes, all in one atomic unit.  Fails, changing nothing,
/// exactly when a new balance would not fit the store.
pub fn settle_draw(l: &mut Ledger, challenge: &mut Challenge, admin: &str) -> (r: Result<
    (),
    LedgerError,
>)
    requires
        old(l).wf(),
        old(challenge).sats is Some,
        0 <= old(challenge).sats.unwrap(),
        2 * old(challenge).sats.unwrap() <= i64::MAX,
        old(challenge).status is Some,
        old(challenge).status.unwrap()@ == status_view(ChallengeStatus::Accepted),
        old(challenge).lichess_challenge_id is Some,
    ensures
        final(l).wf(),
        ({
            let stake = old(challenge).sats.unwrap() as int;
            let total = spec_total_fee(stake);
            let refund = spec_draw_payout(stake);
            let creator = old(challenge).username@;
            let opp = old(challenge).opp_username@;
            let lid = old(challenge).lichess_challenge_id.unwrap()@;
            let n = old(l).entries@.len() as int;
            &&& (r is Ok <==> fits_i64(old(l).spec_balance_of(admin@) + total) && fits_i64(
                old(l).spec_balance_of(creator) + (if creator == admin@ {
                    total
                } else {
                    0
                }) + refund,
            ) && fits_i64(
                old(l).spec_balance_of(opp) + (if opp == admin@ {
                    total
                } else {
                    0
                }) + (if opp == creator {
                    refund
                } else {
                    0
                }) + refund,
            ))
            &&& (r is Ok ==> {
                &&& final(l).entries@.len() == n + 3
                &&& final(l).entries@.subrange(0, n) =~= old(l).entries@
                &&& is_settlement_entry(final(l).entries@[n], admin@, "fee"@, total, lid)
                &&& is_settlement_entry(final(l).entries@[n + 1], creator, "draw"@, refund, lid)
                &&& is_settlement_entry(final(l).entries@[n + 2], opp, "draw"@, refund, lid)
                &&& (forall|u: Seq<char>| #[trigger]
                    final(l).spec_balance_of(u) == old(l).spec_balance_of(u) + (if u == admin@ {
                        total
                    } else {
                        0
                    }) + (if u == creator {
                        refund
                    } else {
                        0
                    }) + (if u == opp {
                        refund
                    } else {
                        0
                    }))
                &&& final(challenge).status is Some
                &&& final(challenge).status.unwrap()@ == status_view(ChallengeStatus::Completed)
                &&& challenge_same_but_status(*old(challenge), *final(challenge))
            })
            &&& (r is Err ==> {
                &&& r == Err::<(), LedgerError>(LedgerError::BalanceOutOfRange)
                &&& final(l).entries@ == old(l).entries@
                &&& (forall|u: Seq<char>| #[trigger]
                    final(l).spec_balance_of(u) == old(l).spec_balance_of(u))
                &&& *final(challenge) == *old(challenge)
            })
        }),
{
    let ghost l0 = *l;
    let stake: i64 = match challenge.sats {
        Some(s) => s,
        None => 0,
    };
    let fee = calculate_fee_per_person(challenge);
    proof {
        lemma_fee_bounds(stake as int);
    }
    let total_fee = fee * 2;
    let refund = stake - fee;
    let creator = challenge.username.clone();
    let opp = challenge.opp_username.clone();

    if !l.add_to_balance(admin, total_fee) {
        proof {
            assert forall|u: Seq<char>| #[trigger]
                crate::ledger::balance_in(l.accounts@, u) == crate::ledger::settled_sum(
                    l.entries@,
                    u,
                ) by {
                assert(l.spec_balance_of(u) == l0.spec_balance_of(u));
                assert(crate::ledger::balance_in(l0.accounts@, u) == crate::ledger::settled_sum(
                    l0.entries@,
                    u,
                ));
            }
            assert(l.wf());
        }
        return Err(LedgerError::BalanceOutOfRange);
    }
    let ghost l1 = *l;
    if !l.add_to_balance(creator.as_str(), refund) {
        let ghost lf = *l;
        proof {
            lemma_balance_in_bounds(l0.accounts@, admin@);
            assert(l1.spec_balance_of(admin@) == l0.spec_balance_of(admin@) + total_fee);
            assert(lf.spec_balance_of(admin@) == l1.spec_balance_of(admin@));
        }
        let undone = l.add_to_balance(admin, -total_fee);
        proof {
            assert(undone);
            assert forall|u: Seq<char>| #[trigger]
                l.spec_balance_of(u) == l0.spec_balance_of(u) by {
                assert(lf.spec_balance_of(u) == l1.spec_balance_of(u));
                assert(l1.spec_balance_of(u) == l0.spec_balance_of(u) + (if u == admin@ {
                    total_fee as int
                } else {
                    0
                }));
                assert(l.spec_balance_of(u) == lf.spec_balance_of(u) + (if u == admin@ {
                    (-total_fee) as int
                } else {
                    0
                }));
            }
            assert forall|u: Seq<char>| #[trigger]
                crate::ledger::balance_in(l.accounts@, u) == crate::ledger::settled_sum(
                    l.entries@,
                    u,
                ) by {
                assert(l.spec_balance_of(u) == l0.spec_balance_of(u));
                assert(crate::ledger::balance_in(l0.accounts@, u) == crate::ledger::settled_sum(
                    l0.entries@,
                    u,
                ));
            }
            assert(l.wf());
        }
        return Err(LedgerError::BalanceOutOfRange);
    }
    let ghost l2 = *l;
    if !l.add_to_balance(opp.as_str(), refund) {
        let ghost lf = *l;
        proof {
            lemma_balance_in_bounds(l1.accounts@, creator@);
            assert(l2.spec_balance_of(creator@) == l1.spec_balance_of(creator@) + refund);
            assert(lf.spec_balance_of(creator@) == l2.spec_balance_of(creator@));
        }
        let undone_creator = l.add_to_balance(creator.as_str(), -refund);
        let ghost l3 = *l;
        proof {
            assert(undone_creator);
            lemma_balance_in_bounds(l0.accounts@, admin@);
            assert(l1.spec_balance_of(admin@) == l0.spec_balance_of(admin@) + total_fee);
            assert(l2.spec_balance_of(admin@) == l1.spec_balance_of(admin@) + (
            if admin@ == creator@ {
                refund as int
            } else {
                0
            }));
            assert(lf.spec_balance_of(admin@) == l2.spec_balance_of(admin@));
            assert(l3.spec_balance_of(admin@) == lf.spec_balance_of(admin@) + (
            if admin@ == creator@ {
                (-refund) as int
            } else {
                0
            }));
        }
        let undone_admin = l.add_to_balance(admin, -total_fee);
        proof {
            assert(undone_admin);
            assert forall|u: Seq<char>| #[trigger]
                l.spec_balance_of(u) == l0.spec_balance_of(u) by {
                assert(l1.spec_balance_of(u) == l0.spec_balance_of(u) + (if u == admin@ {
                    total_fee as int
                } else {
                    0
                }));
                assert(l2.spec_balance_of(u) == l1.spec_balance_of(u) + (if u == creator@ {
                    refund as int
                } else {
                    0
                }));
                assert(lf.spec_balance_of(u) == l2.spec_balance_of(u));
                assert(l3.spec_balance_of(u) == lf.spec_balance_of(u) + (if u == creator@ {
                    (-refund) as int
                } else {
                    0
                }));
                assert(l.spec_balance_of(u) == l3.spec_balance_of(u) + (if u == admin@ {
                    (-total_fee) as int
                } else {
                    0
                }));
            }
            assert forall|u: Seq<char>| #[trigger]
                crate::ledger::balance_in(l.accounts@, u) == crate::ledger::settled_sum(
                    l.entries@,
                    u,
                ) by {
                assert(l.spec_balance_of(u) == l0.spec_balance_of(u));
                assert(crate::ledger::balance_in(l0.accounts@, u) == crate::ledger::settled_sum(
                    l0.entries@,
                    u,
                ));
            }
            assert(l.wf());
        }
        return Err(LedgerError::BalanceOutOfRange);
    }
    let ghost l3 = *l;

    let lichess_id = challenge.lichess_challenge_id.as_ref().unwrap().clone();
    let fee_entry = settlement_entry(
        admin,
        "fee",
        "fee from challenge",
        total_fee,
        lichess_id.as_str(),
    );
    l.insert_tx(fee_entry);
    let draw_creator = settlement_entry(
        creator.as_str(),
        "draw",
        "initial sats amount minus 2% fee",
        refund,
        lichess_id.as_str(),
    );
    l.insert_tx(draw_creator);
    let draw_opp = settlement_entry(
        opp.as_str(),
        "draw",
        "initial sats amount minus 2% fee",
        refund,
        lichess_id.as_str(),
    );
    l.insert_tx(draw_opp);
    mark_challenge_completed(challenge);

    proof {
        let e0 = l0.entries@;
        assert(l.entries@.subrange(0, e0.len() as int) =~= e0);
        lemma_open_refs_unique_push(e0, fee_entry);
        lemma_open_refs_unique_push(e0.push(fee_entry), draw_creator);
        lemma_open_refs_unique_push(e0.push(fee_entry).push(draw_creator), draw_opp);
        assert(l.entries@ =~= e0.push(fee_entry).push(draw_creator).push(draw_opp));
        assert forall|u: Seq<char>| #[trigger]
            l.spec_balance_of(u) == l0.spec_balance_of(u) + (if u == admin@ {
                spec_total_fee(stake as int)
            } else {
                0
            }) + (if u == creator@ {
                spec_draw_payout(stake as int)
            } else {
                0
            }) + (if u == opp@ {
                spec_draw_payout(stake as int)
            } else {
                0
            }) by {
            assert(l1.spec_balance_of(u) == l0.spec_balance_of(u) + (if u == admin@ {
                total_fee as int
            } else {
                0
            }));
            assert(l2.spec_balance_of(u) == l1.spec_balance_of(u) + (if u == creator@ {
                refund as int
            } else {
                0
            }));
            assert(l3.spec_balance_of(u) == l2.spec_balance_of(u) + (if u == opp@ {
                refund as int
            } else {
                0
            }));
            assert(l.accounts@ == l3.accounts@);
        }
        assert forall|u: Seq<char>| #[trigger]
            crate::ledger::balance_in(l.accounts@, u) == crate::ledger::settled_sum(
                l.entries@,
                u,
            ) by {
            lemma_settled_sum_push(e0, fee_entry, u);
            lemma_settled_sum_push(e0.push(fee_entry), draw_creator, u);
            lemma_settled_sum_push(e0.push(fee_entry).push(draw_creator), draw_opp, u);
            assert(l.spec_balance_of(u) == l0.spec_balance_of(u) + (if u == admin@ {
                spec_total_fee(stake as int)
            } else {
                0
            }) + (if u == creator@ {
                spec_draw_payout(stake as int)
            } else {
                0
            }) + (if u == opp@ {
                spec_draw_payout(stake as int)
            } else {
                0
            }));
            assert(crate::ledger::balance_in(l0.accounts@, u) == crate::ledger::settled_sum(
                l0.entries@,
                u,
            ));
        }
        assert(l.wf());
    }
    Ok(())
}


/// Settles a forced draw, applied when the bound match was not found
/// for the full streak of polls: each party receives their whole stake
/// back, the house charges nothing, and the challenge completes, all
/// in one atomic unit.  Fails, changing nothing, exactly when a new
/// balance would not fit the store.
pub fn settle_forced_draw(l: &mut Ledger, challenge: &mut Challenge) -> (r: Result<
    (),
    LedgerError,
>)
    requires
        old(l).wf(),
        old(challenge).sats is Some,
        0 <= old(challenge).sats.unwrap(),
        old(challenge).status is Some,
        old(challenge).status.unwrap()@ == status_view(ChallengeStatus::Accepted),
        old(challenge).lichess_challenge_id is Some,
    ensures
        final(l).wf(),
        ({
            let stake = old(challenge).sats.unwrap() as int;
            let creator = old(challenge).username@;
            let opp = old(challenge).opp_username@;
            let lid = old(challenge).lichess_challenge_id.unwrap()@;
            let n = old(l).entries@.len() as int;
            &&& (r is Ok <==> fits_i64(old(l).spec_balance_of(creator) + stake) && fits_i64(
                old(l).spec_balance_of(opp) + (if opp == creator {
                    stake
                } else {
                    0
                }) + stake,
            ))
            &&& (r is Ok ==> {
                &&& final(l).entries@.len() == n + 2
                &&& final(l).entries@.subrange(0, n) =~= old(l).entries@
                &&& is_settlement_entry(final(l).entries@[n], creator, "expired"@, stake, lid)
                &&& is_settlement_entry(final(l).entries@[n + 1], opp, "expired"@, stake, lid)
                &&& (forall|u: Seq<char>| #[trigger]
                    final(l).spec_balance_of(u) == old(l).spec_balance_of(u) + (if u == creator {
                        stake
                    } else {
                        0
                    }) + (if u == opp {
                        stake
                    } else {
                        0
                    }))
                &&& final(challenge).status is Some
                &&& final(challenge).status.unwrap()@ == status_view(ChallengeStatus::Completed)
                &&& challenge_same_but_status(*old(challenge), *final(challenge))
            })
            &&& (r is Err ==> {
                &&& r == Err::<(), LedgerError>(LedgerError::BalanceOutOfRange)
                &&& final(l).entries@ == old(l).entries@
                &&& (forall|u: Seq<char>| #[trigger]
                    final(l).spec_balance_of(u) == old(l).spec_balance_of(u))
                &&& *final(challenge) == *old(challenge)
            })
        }),
{
    let ghost l0 = *l;
    let stake: i64 = match challenge.sats {
        Some(s) => s,
        None => 0,
    };
    let creator = challenge.username.clone();
    let opp = challenge.opp_username.clone();

    if !l.add_to_balance(creator.as_str(), stake) {
        proof {
            assert forall|u: Seq<char>| #[trigger]
                crate::ledger::balance_in(l.accounts@, u) == crate::ledger::settled_sum(
                    l.entries@,
                    u,
                ) by {
                assert(l.spec_balance_of(u) == l0.spec_balance_of(u));
                assert(crate::ledger::balance_in(l0.accounts@, u) == crate::ledger::settled_sum(
                    l0.entries@,
                    u,
                ));
            }
            assert(l.wf());
        }
        return Err(LedgerError::BalanceOutOfRange);
    }
    let ghost l1 = *l;
    if !l.add_to_balance(opp.as_str(), stake) {
        let ghost lf = *l;
        proof {
            lemma_balance_in_bounds(l0.accounts@, creator@);
            assert(l1.spec_balance_of(creator@) == l0.spec_balance_of(creator@) + stake);
            assert(lf.spec_balance_of(creator@) == l1.spec_balance_of(creator@));
        }
        let undone = l.add_to_balance(creator.as_str(), -stake);
        proof {
            assert(undone);
            assert forall|u: Seq<char>| #[trigger]
                l.spec_balance_of(u) == l0.spec_balance_of(u) by {
                assert(lf.spec_balance_of(u) == l1.spec_balance_of(u));
                assert(l1.spec_balance_of(u) == l0.spec_balance_of(u) + (if u == creator@ {
                    stake as int
                } else {
                    0
                }));
                assert(l.spec_balance_of(u) == lf.spec_balance_of(u) + (if u == creator@ {
                    (-stake) as int
                } else {
                    0
                }));
            }
            assert forall|u: Seq<char>| #[trigger]
                crate::ledger::balance_in(l.accounts@, u) == crate::ledger::settled_sum(
                    l.entries@,
                    u,
                ) by {
                assert(l.spec_balance_of(u) == l0.spec_balance_of(u));
                assert(crate::ledger::balance_in(l0.accounts@, u) == crate::ledger::settled_sum(
                    l0.entries@,
                    u,
                ));
            }
            assert(l.wf());
        }
        return Err(LedgerError::BalanceOutOfRange);
    }
    let ghost l2 = *l;

    let lichess_id = challenge.lichess_challenge_id.as_ref().unwrap().clone();
    let refund_creator = settlement_entry(
        creator.as_str(),
        "expired",
        "sats returned for expired game",
        stake,
        lichess_id.as_str(),
    );
    l.insert_tx(refund_creator);
    let refund_opp = settlement_entry(
        opp.as_str(),
        "expired",
        "sats returned for expired game",
        stake,
        lichess_id.as_str(),
    );
    l.insert_tx(refund_opp);
    mark_challenge_completed(challenge);

    proof {
        let e0 = l0.entries@;
        assert(l.entries@.subrange(0, e0.len() as int) =~= e0);
        lemma_open_refs_unique_push(e0, refund_creator);
        lemma_open_refs_unique_push(e0.push(refund_creator), refund_opp);
        assert(l.entries@ =~= e0.push(refund_creator).push(refund_opp));
        assert forall|u: Seq<char>| #[trigger]
            l.spec_balance_of(u) == l0.spec_balance_of(u) + (if u == creator@ {
                stake as int
            } else {
                0
            }) + (if u == opp@ {
                stake as int
            } else {
                0
            }) by {
            assert(l1.spec_balance_of(u) == l0.spec_balance_of(u) + (if u == creator@ {
                stake as int
            } else {
                0
            }));
            assert(l2.spec_balance_of(u) == l1.spec_balance_of(u) + (if u == opp@ {
                stake as int
            } else {
                0
            }));
            assert(l.accounts@ == l2.accounts@);
        }
        assert forall|u: Seq<char>| #[trigger]
            crate::ledger::balance_in(l.accounts@, u) == crate::ledger::settled_sum(
                l.entries@,
                u,
            ) by {
            lemma_settled_sum_push(e0, refund_creator, u);
            lemma_settled_sum_push(e0.push(refund_creator), refund_opp, u);
            assert(l.spec_balance_of(u) == l0.spec_balance_of(u) + (if u == creator@ {
                stake as int
            } else {
                0
            }) + (if u == opp@ {
                stake as int
            } else {
                0
            }));
            assert(crate::ledger::balance_in(l0.accounts@, u) == crate::ledger::settled_sum(
                l0.entries@,
                u,
            ));
        }
        assert(l.wf());
    }
    Ok(())
}

/// Settles an expired, never-accepted challenge: the creator, who
/// alone has deposited at this stage, is refunded the whole stake and
/// the challenge expires, in one atomic unit.  Fails, changing
/// nothing, exactly when the new balance would not fit the store.
pub fn settle_expired(l: &mut Ledger, challenge: &mut Challenge) -> (r: Result<(), LedgerError>)
    requires
        old(l).wf(),
        old(challenge).sats is Some,
        0 <= old(challenge).sats.unwrap(),
        old(challenge).status is Some,
        old(challenge).status.unwrap()@ == status_view(ChallengeStatus::WaitingForAcceptance),
    ensures
        final(l).wf(),
        ({
            let stake = old(challenge).sats.unwrap() as int;
            let creator = old(challenge).username@;
            let n = old(l).entries@.len() as int;
            &&& (r is Ok <==> fits_i64(old(l).spec_balance_of(creator) + stake))
            &&& (r is Ok ==> {
                &&& final(l).entries@.len() == n + 1
                &&& final(l).entries@.subrange(0, n) =~= old(l).entries@
                &&& is_settlement_entry(
                    final(l).entries@[n],
                    creator,
                    "expired"@,
                    stake,
                    "none. expired"@,
                )
                &&& (forall|u: Seq<char>| #[trigger]
                    final(l).spec_balance_of(u) == old(l).spec_balance_of(u) + (if u == creator {
                        stake
                    } else {
                        0
                    }))
                &&& final(challenge).status is Some
                &&& final(challenge).status.unwrap()@ == status_view(ChallengeStatus::Expired)
                &&& challenge_same_but_status(*old(challenge), *final(challenge))
            })
            &&& (r is Err ==> {
                &&& r == Err::<(), LedgerError>(LedgerError::BalanceOutOfRange)
                &&& final(l).entries@ == old(l).entries@
                &&& (forall|u: Seq<char>| #[trigger]
                    final(l).spec_balance_of(u) == old(l).spec_balance_of(u))
                &&& *final(challenge) == *old(challenge)
            })
        }),
{
    let ghost l0 = *l;
    let stake: i64 = match challenge.sats {
        Some(s) => s,
        None => 0,
    };
    let creator = challenge.username.clone();

    if !l.add_to_balance(creator.as_str(), stake) {
        proof {
            assert forall|u: Seq<char>| #[trigger]
                crate::ledger::balance_in(l.accounts@, u) == crate::ledger::settled_sum(
                    l.entries@,
                    u,
                ) by {
                assert(l.spec_balance_of(u) == l0.spec_balance_of(u));
                assert(crate::ledger::balance_in(l0.accounts@, u) == crate::ledger::settled_sum(
                    l0.entries@,
                    u,
                ));
            }
            assert(l.wf());
        }
        return Err(LedgerError::BalanceOutOfRange);
    }
    let ghost l1 = *l;

    let refund = settlement_entry(
        creator.as_str(),
        "expired",
        "sats returned for expired game",
        stake,
        "none. expired",
    );
    l.insert_tx(refund);
    mark_challenge_expired(challenge);

    proof {
        let e0 = l0.entries@;
        assert(l.entries@.subrange(0, e0.len() as int) =~= e0);
        lemma_open_refs_unique_push(e0, refund);
        assert(l.entries@ =~= e0.push(refund));
        assert forall|u: Seq<char>| #[trigger]
            l.spec_balance_of(u) == l0.spec_balance_of(u) + (if u == creator@ {
                stake as int
            } else {
                0
            }) by {
            assert(l1.spec_balance_of(u) == l0.spec_balance_of(u) + (if u == creator@ {
                stake as int
            } else {
                0
            }));
            assert(l.accounts@ == l1.accounts@);
        }
        assert forall|u: Seq<char>| #[trigger]
            crate::ledger::balance_in(l.accounts@, u) == crate::ledger::settled_sum(
                l.entries@,
                u,
            ) by {
            lemma_settled_sum_push(e0, refund, u);
            assert(l.spec_balance_of(u) == l0.spec_balance_of(u) + (if u == creator@ {
                stake as int
            } else {
                0
            }));
            assert(crate::ledger::balance_in(l0.accounts@, u) == crate::ledger::settled_sum(
                l0.entries@,
                u,
            ));
        }
        assert(l.wf());
    }
    Ok(())
}

} // verus!
