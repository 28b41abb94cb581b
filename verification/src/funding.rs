//! Funding reconciliation: turning a funding event into exactly one
//! ledger mutation.
//!
//! A funding event names a funding reference (the payment address) and
//! a paid amount, reported as a decimal string.  Only settled events
//! are actionable.  The paid amount is parsed here, with the exact
//! grammar of a signed machine integer; the settlement itself locks
//! the one open entry carrying the reference, so a duplicate delivery
//! or an overlap between the streaming and the polling path is
//! absorbed as a no-op.

use vstd::prelude::*;

verus! {

use crate::ledger::{
    balance_in, fits_i64, is_open_with, lemma_open_is_not_settled, lemma_settled_sum_update,
    settled_state, settled_sum, Ledger, LedgerError,
};
use crate::models::{Invoice, Transaction};
use crate::text::{opt_str_is, str_eq};
use vstd::string::StrSliceExecFns;

/// A decimal digit.
pub open spec fn is_digit_char(c: char) -> bool {
    48 <= c as int <= 57
}

/// The value of one digit.
pub open spec fn digit_val(c: char) -> int {
    c as int - 48
}

/// Every character is a decimal digit.
pub open spec fn all_digits(s: Seq<char>) -> bool {
    forall|i: int| 0 <= i < s.len() ==> is_digit_char(#[trigger] s[i])
}

/// The number a digit string denotes.
pub open spec fn digits_value(s: Seq<char>) -> int
    decreases s.len(),
{
    if s.len() == 0 {
        0
    } else {
        digits_value(s.drop_last()) * 10 + digit_val(s.last())
    }
}

/// What parsing a signed decimal integer yields: an optional sign,
/// then at least one digit and nothing else, with the value in the
/// machine integer's range.
pub open spec fn spec_parse_i64(s: Seq<char>) -> Option<i64> {
    let has_sign = s.len() > 0 && (s[0] == '+' || s[0] == '-');
    let neg = s.len() > 0 && s[0] == '-';
    let ds = if has_sign {
        s.drop_first()
    } else {
        s
    };
    if ds.len() == 0 || !all_digits(ds) {
        None
    } else {
        let v = if neg {
            -digits_value(ds)
        } else {
            digits_value(ds)
        };
        if i64::MIN <= v <= i64::MAX {
            Some(v as i64)
        } else {
            None
        }
    }
}

/// A digit string denotes a nonnegative number.
proof fn lemma_digits_value_nonneg(s: Seq<char>)
    requires
        all_digits(s),
    ensures
        digits_value(s) >= 0,
    decreases s.len(),
{
    if s.len() > 0 {
        assert(all_digits(s.drop_last())) by {
            assert forall|i: int| 0 <= i < s.len() - 1 implies is_digit_char(
                #[trigger] s.drop_last()[i],
            ) by {
                assert(s.drop_last()[i] == s[i]);
            }
        }
        lemma_digits_value_nonneg(s.drop_last());
    }
}

/// A prefix of digits is taken from all of them.
proof fn lemma_all_digits_take(s: Seq<char>, j: int)
    requires
        all_digits(s),
        0 <= j <= s.len(),
    ensures
        all_digits(s.take(j)),
{
    assert forall|i: int| 0 <= i < j implies is_digit_char(#[trigger] s.take(j)[i]) by {
        assert(s.take(j)[i] == s[i]);
    }
}

/// A digit string denotes at least what any of its prefixes denotes:
/// appending digits never shrinks the value.
proof fn lemma_digits_value_prefix(s: Seq<char>, j: int)
    requires
        all_digits(s),
        0 <= j <= s.len(),
    ensures
        digits_value(s.take(j)) <= digits_value(s),
    decreases s.len() - j,
{
    if j == s.len() {
        assert(s.take(j) =~= s);
    } else {
        assert(s.take(j + 1).drop_last() =~= s.take(j));
        assert(s.take(j + 1).last() == s[j]);
        lemma_all_digits_take(s, j);
        lemma_digits_value_nonneg(s.take(j));
        assert(digits_value(s.take(j + 1)) == digits_value(s.take(j)) * 10 + digit_val(s[j]));
        assert(digit_val(s[j]) >= 0);
        lemma_digits_value_prefix(s, j + 1);
    }
}

/// Parses a paid amount exactly as the machine parses a signed decimal
/// integer: an optional sign, then only digits, rejecting anything
/// else or a value out of range.
pub fn parse_sat_amount(s: &str) -> (r: Option<i64>)
    ensures
        r == spec_parse_i64(s@),
{
    let n = s.unicode_len();
    if n == 0 {
        return None;
    }
    let first = s.get_char(0);
    let has_sign = first == '+' || first == '-';
    let neg = first == '-';
    let start: usize = if has_sign {
        1
    } else {
        0
    };
    let ghost ds = if has_sign {
        s@.drop_first()
    } else {
        s@
    };
    proof {
        assert(ds =~= s@.subrange(start as int, n as int));
    }
    if n == start {
        return None;
    }
    let mut i: usize = start;
    let mut acc: i64 = 0;
    while i < n
        invariant
            start <= i <= n,
            n == s@.len(),
            n > 0,
            first == s@[0],
            has_sign == (s@[0] == '+' || s@[0] == '-'),
            neg == (s@[0] == '-'),
            start == if has_sign {
                1int
            } else {
                0int
            },
            ds == if has_sign {
                s@.drop_first()
            } else {
                s@
            },
            ds =~= s@.subrange(start as int, n as int),
            all_digits(ds.take(i - start)),
            acc as int == -digits_value(ds.take(i - start)),
            acc <= 0,
        decreases n - i,
    {
        let ghost k = i - start;
        let c = s.get_char(i);
        proof {
            assert(ds[k] == s@[i as int]);
        }
        let cu = c as u32;
        if cu < 48 || cu > 57 {
            proof {
                assert(!is_digit_char(ds[k]));
            }
            return None;
        }
        let d = (cu - 48) as i64;
        proof {
            lemma_digits_value_nonneg(ds.take(k));
            assert(ds.take(k + 1).drop_last() =~= ds.take(k));
            assert(ds.take(k + 1).last() == ds[k]);
        }
        let acc10 = match acc.checked_mul(10) {
            Some(v) => v,
            None => {
                proof {
                    lemma_parse_out_of_range(ds, k);
                }
                return None;
            },
        };
        let acc2 = match acc10.checked_sub(d) {
            Some(v) => v,
            None => {
                proof {
                    lemma_parse_out_of_range(ds, k);
                }
                return None;
            },
        };
        proof {
            assert(all_digits(ds.take(k + 1))) by {
                assert forall|m: int| 0 <= m < k + 1 implies is_digit_char(
                    #[trigger] ds.take(k + 1)[m],
                ) by {
                    assert(ds.take(k + 1)[m] == ds[m]);
                    if m < k {
                        assert(ds.take(k)[m] == ds[m]);
                    }
                }
            }
        }
        acc = acc2;
        i += 1;
    }
    proof {
        assert(ds.take(n - start) =~= ds);
    }
    if neg {
        Some(acc)
    } else {
        if acc == i64::MIN {
            return None;
        }
        Some(-acc)
    }
}

/// When one more digit pushes the running value past the range, the
/// whole string's value is past it too, for either sign.
proof fn lemma_parse_out_of_range(ds: Seq<char>, k: int)
    requires
        0 <= k < ds.len(),
        all_digits(ds.take(k)),
        is_digit_char(ds[k]),
        digits_value(ds.take(k)) * 10 + digit_val(ds[k]) > i64::MAX + 1,
    ensures
        all_digits(ds) ==> digits_value(ds) > i64::MAX + 1,
{
    if all_digits(ds) {
        assert(ds.take(k + 1).drop_last() =~= ds.take(k));
        assert(ds.take(k + 1).last() == ds[k]);
        assert(digits_value(ds.take(k + 1)) == digits_value(ds.take(k)) * 10 + digit_val(ds[k]));
        lemma_digits_value_prefix(ds, k + 1);
    }
}

/// Only a settled funding event moves money.
pub fn invoice_is_actionable(invoice: &Invoice) -> (r: bool)
    ensures
        r == (invoice.state@ == "SETTLED"@),
{
    str_eq(invoice.state.as_str(), "SETTLED")
}

/// How old an open entry must be before the polling fallback asks the
/// payment network about it directly: longer than the network's own
/// expiry window, so a pending settlement is not raced.
pub const RECONCILE_AGE_SECS: i64 = 2000;

/// Whether an open entry is due for a direct lookup.
pub fn invoice_lookup_due(created_on: i64, now: i64) -> (r: bool)
    ensures
        r == (now as int - created_on as int > RECONCILE_AGE_SECS as int),
{
    let diff: i128 = now as i128 - created_on as i128;
    diff > RECONCILE_AGE_SECS as i128
}

/// What decoding a standard-alphabet base64 string yields.  The
/// encoding is fixed, so the bytes are a function of the characters
/// alone.
pub uninterp spec fn base64_standard_decoded(s: Seq<char>) -> Seq<u8>;

/// Whether a string is well-formed standard-alphabet base64: decoding
/// succeeds or fails on the characters alone.
pub uninterp spec fn base64_standard_decodable(s: Seq<char>) -> bool;

/// What encoding bytes with the URL-safe base64 alphabet yields: a
/// function of the bytes alone.
pub uninterp spec fn base64_url_safe_encoded(b: Seq<u8>) -> Seq<char>;

/// Relies on base64::decode of the base64 crate: standard-alphabet,
/// padded decoding.  Both the outcome and the bytes are deterministic
/// in the input characters alone: decoding fails exactly on malformed
/// input.
#[verifier::external_body]
fn base64_decode_standard(s: &str) -> (r: Option<Vec<u8>>)
    ensures
        r is Some <==> base64_standard_decodable(s@),
        r is Some ==> r.unwrap()@ == base64_standard_decoded(s@),
{
    match base64::decode(s) {
        Ok(v) => Some(v),
        Err(_) => None,
    }
}

/// Relies on base64::encode_config of the base64 crate with the
/// URL_SAFE config: deterministic in the input bytes; the length bound
/// keeps its output buffer size from overflowing.
#[verifier::external_body]
fn base64_encode_url_safe(b: &Vec<u8>) -> (r: String)
    requires
        b@.len() <= usize::MAX / 4,
    ensures
        r@ == base64_url_safe_encoded(b@),
{
    base64::encode_config(b, base64::URL_SAFE)
}

/// Re-encodes a stored funding reference for the payment network's
/// lookup endpoint: the store carries it in the standard base64
/// alphabet, the endpoint wants the URL-safe one.  A key is produced
/// exactly when the stored reference decodes (and its bytes are not
/// beyond the encoder's buffer limit, which no real reference is);
/// only a malformed reference yields nothing.
pub fn invoice_lookup_key(payment_addr: &str) -> (r: Option<String>)
    ensures
        r is Some <==> base64_standard_decodable(payment_addr@) && base64_standard_decoded(
            payment_addr@,
        ).len() <= usize::MAX / 4,
        r is Some ==> r.unwrap()@ == base64_url_safe_encoded(
            base64_standard_decoded(payment_addr@),
        ),
{
    match base64_decode_standard(payment_addr) {
        Some(bytes) => {
            if bytes.len() <= usize::MAX / 4 {
                Some(base64_encode_url_safe(&bytes))
            } else {
                None
            }
        },
        None => None,
    }
}

/// The settled form of a previously open entry: final state, the paid
/// amount as the authoritative amount, everything else untouched.
pub open spec fn entry_settled_as(pre: Transaction, post: Transaction, amt: int) -> bool {
    &&& post.state@ == settled_state()
    &&& post.amount as int == amt
    &&& post.transaction_id == pre.transaction_id
    &&& post.username == pre.username
    &&& post.ttype == pre.ttype
    &&& post.detail == pre.detail
    &&& post.preimage == pre.preimage
    &&& post.payment_addr == pre.payment_addr
    &&& post.payment_request == pre.payment_request
    &&& post.payment_hash == pre.payment_hash
    &&& post.lichess_challenge_id == pre.lichess_challenge_id
    &&& post.created_on == pre.created_on
}

/// Some entry is still open under this funding reference.
pub open spec fn open_entry_exists(l: Ledger, addr: Seq<char>) -> bool {
    exists|i: int| 0 <= i < l.entries@.len() && is_open_with(#[trigger] l.entries@[i], addr)
}

/// Everything one application of a funding event guarantees.  Applied
/// (`Ok(true)`): the one open entry under the reference is settled at
/// the paid amount, the owner's balance rises by it, nothing else
/// moves, and no open entry under the reference remains.  Absorbed
/// (`Ok(false)`): no entry was open under the reference and nothing
/// changed.  Refused (`Err`): the new balance would not fit the store
/// and nothing changed, leaving the entry open for a retry.
pub open spec fn funding_post(
    pre: Ledger,
    post: Ledger,
    addr: Seq<char>,
    amt: int,
    r: Result<bool, LedgerError>,
) -> bool {
    &&& post.wf()
    &&& match r {
        Ok(true) => {
            &&& exists|i: int|
                {
                    &&& 0 <= i < pre.entries@.len()
                    &&& is_open_with(#[trigger] pre.entries@[i], addr)
                    &&& fits_i64(pre.spec_balance_of(pre.entries@[i].username@) + amt)
                    &&& post.entries@.len() == pre.entries@.len()
                    &&& (forall|j: int|
                        0 <= j < pre.entries@.len() && j != i ==> post.entries@[j]
                            == pre.entries@[j])
                    &&& entry_settled_as(pre.entries@[i], post.entries@[i], amt)
                    &&& (forall|u: Seq<char>| #[trigger]
                        post.spec_balance_of(u) == pre.spec_balance_of(u) + (
                        if u == pre.entries@[i].username@ {
                            amt
                        } else {
                            0
                        }))
                }
            &&& (forall|i: int|
                0 <= i < post.entries@.len() ==> !is_open_with(#[trigger] post.entries@[i], addr))
        },
        Ok(false) => {
            &&& !open_entry_exists(pre, addr)
            &&& post.entries@ == pre.entries@
            &&& (forall|u: Seq<char>| #[trigger]
                post.spec_balance_of(u) == pre.spec_balance_of(u))
        },
        Err(e) => {
            &&& e == LedgerError::BalanceOutOfRange
            &&& exists|i: int|
                {
                    &&& 0 <= i < pre.entries@.len()
                    &&& is_open_with(#[trigger] pre.entries@[i], addr)
                    &&& !fits_i64(pre.spec_balance_of(pre.entries@[i].username@) + amt)
                }
            &&& post.entries@ == pre.entries@
            &&& (forall|u: Seq<char>| #[trigger]
                post.spec_balance_of(u) == pre.spec_balance_of(u))
        },
    }
}

/// Applies one settled funding event to the ledger exactly once.
///
/// The one open entry carrying the event's payment address is settled
/// at the paid amount and the owner's balance is raised by it, all in
/// one atomic unit.  When no open entry carries the address -- the
/// event was already applied, or the reference is unknown -- the call
/// is a no-op, which is how duplicate deliveries and the overlap of
/// the streaming and polling paths are absorbed.
pub fn update_settled_invoice(l: &mut Ledger, invoice: &Invoice) -> (r: Result<bool, LedgerError>)
    requires
        old(l).wf(),
        spec_parse_i64(invoice.amt_paid_sat@) is Some,
    ensures
        funding_post(
            *old(l),
            *final(l),
            invoice.payment_addr@,
            spec_parse_i64(invoice.amt_paid_sat@).unwrap() as int,
            r,
        ),
{
    let ghost l0 = *l;
    let ghost addr = invoice.payment_addr@;
    let amt = match parse_sat_amount(invoice.amt_paid_sat.as_str()) {
        Some(a) => a,
        None => 0,
    };
    let n = l.entries.len();
    let mut i: usize = 0;
    while i < n
        invariant
            i <= n,
            n == l.entries@.len(),
            *l == l0,
            l0 == *old(l),
            l0.wf(),
            addr == invoice.payment_addr@,
            amt as int == spec_parse_i64(invoice.amt_paid_sat@).unwrap() as int,
            forall|j: int| 0 <= j < i ==> !is_open_with(#[trigger] l0.entries@[j], addr),
        decreases n - i,
    {
        let state_open = str_eq(l.entries[i].state.as_str(), "OPEN");
        let addr_match = opt_str_is(&l.entries[i].payment_addr, invoice.payment_addr.as_str());
        if state_open && addr_match {
            let ghost e_old = l0.entries@[i as int];
            proof {
                assert(is_open_with(e_old, addr));
            }
            let owner = l.entries[i].username.clone();
            if !l.add_to_balance(owner.as_str(), amt) {
                proof {
                    assert forall|u: Seq<char>| #[trigger]
                        balance_in(l.accounts@, u) == settled_sum(l.entries@, u) by {
                        assert(l.spec_balance_of(u) == l0.spec_balance_of(u));
                        assert(balance_in(l0.accounts@, u) == settled_sum(l0.entries@, u));
                    }
                    assert(l.wf());
                    assert(owner@ == l0.entries@[i as int].username@);
                    assert(!fits_i64(l0.spec_balance_of(l0.entries@[i as int].username@)
                        + amt));
                    assert(is_open_with(l0.entries@[i as int], addr));
                    assert(funding_post(
                        l0,
                        *l,
                        addr,
                        amt as int,
                        Err::<bool, LedgerError>(LedgerError::BalanceOutOfRange),
                    ));
                }
                return Err(LedgerError::BalanceOutOfRange);
            }
            let ghost l1 = *l;
            l.entries[i].state = "SETTLED".to_owned();
            l.entries[i].amount = amt;
            proof {
                lemma_open_is_not_settled();
                let e_new = l.entries@[i as int];
                assert(l.entries@ =~= l0.entries@.update(i as int, e_new));
                assert(entry_settled_as(e_old, e_new, amt as int));
                assert forall|u: Seq<char>| #[trigger]
                    l.spec_balance_of(u) == l0.spec_balance_of(u) + (if u == e_old.username@ {
                        amt as int
                    } else {
                        0
                    }) by {
                    assert(l1.spec_balance_of(u) == l0.spec_balance_of(u) + (if u == owner@ {
                        amt as int
                    } else {
                        0
                    }));
                    assert(l.accounts@ == l1.accounts@);
                }
                assert forall|u: Seq<char>| #[trigger]
                    balance_in(l.accounts@, u) == settled_sum(l.entries@, u) by {
                    lemma_settled_sum_update(l0.entries@, i as int, e_new, u);
                    assert(crate::ledger::settled_contribution(e_old, u) == 0);
                    assert(balance_in(l0.accounts@, u) == settled_sum(l0.entries@, u));
                    assert(l.spec_balance_of(u) == l0.spec_balance_of(u) + (
                    if u == e_old.username@ {
                        amt as int
                    } else {
                        0
                    }));
                }
                assert(crate::ledger::open_refs_unique(l.entries@)) by {
                    assert forall|x: int, y: int|
                        0 <= x < y < l.entries@.len() && #[trigger] l.entries@[x].payment_addr
                            is Some && #[trigger] l.entries@[y].payment_addr is Some implies !(
                    l.entries@[x].state@ == crate::ledger::open_state() && l.entries@[y].state@
                        == crate::ledger::open_state() && l.entries@[x].payment_addr.unwrap()@
                        == l.entries@[y].payment_addr.unwrap()@) by {
                        if x != i as int && y != i as int {
                            assert(l.entries@[x] == l0.entries@[x]);
                            assert(l.entries@[y] == l0.entries@[y]);
                        }
                    }
                }
                assert(l.wf());
                assert(is_open_with(l0.entries@[i as int], addr));
                assert(fits_i64(l0.spec_balance_of(l0.entries@[i as int].username@) + amt));
                assert forall|j: int| 0 <= j < l.entries@.len() implies !is_open_with(
                    #[trigger] l.entries@[j],
                    addr,
                ) by {
                    if j != i as int {
                        assert(l.entries@[j] == l0.entries@[j]);
                        if is_open_with(l0.entries@[j], addr) {
                            if j < i as int {
                                assert(!(l0.entries@[j].state@ == crate::ledger::open_state()
                                    && l0.entries@[i as int].state@
                                    == crate::ledger::open_state()
                                    && l0.entries@[j].payment_addr.unwrap()@
                                    == l0.entries@[i as int].payment_addr.unwrap()@));
                            } else {
                                assert(!(l0.entries@[i as int].state@
                                    == crate::ledger::open_state() && l0.entries@[j].state@
                                    == crate::ledger::open_state()
                                    && l0.entries@[i as int].payment_addr.unwrap()@
                                    == l0.entries@[j].payment_addr.unwrap()@));
                            }
                        }
                    }
                }
                assert(funding_post(l0, *l, addr, amt as int, Ok::<bool, LedgerError>(true)));
            }
            return Ok(true);
        }
        i += 1;
    }
    proof {
        assert(!open_entry_exists(l0, addr));
        assert(funding_post(l0, *l, addr, amt as int, Ok::<bool, LedgerError>(false)));
    }
    Ok(false)
}

/// Applying the same funding event a second time is a no-op: a
/// successful application leaves no open entry under the reference,
/// so the second application reports it absorbed and changes no entry
/// and no balance, whatever amount the duplicate carries.
pub proof fn lemma_funding_second_application_is_noop(
    l0: Ledger,
    l1: Ledger,
    l2: Ledger,
    addr: Seq<char>,
    amt1: int,
    amt2: int,
    r2: Result<bool, LedgerError>,
)
    requires
        funding_post(l0, l1, addr, amt1, Ok(true)),
        funding_post(l1, l2, addr, amt2, r2),
    ensures
        r2 == Ok::<bool, LedgerError>(false),
        l2.entries@ == l1.entries@,
        forall|u: Seq<char>| #[trigger] l2.spec_balance_of(u) == l1.spec_balance_of(u),
{
    match r2 {
        Ok(true) => {
            let i = choose|i: int|
                {
                    &&& 0 <= i < l1.entries@.len()
                    &&& is_open_with(#[trigger] l1.entries@[i], addr)
                    &&& fits_i64(l1.spec_balance_of(l1.entries@[i].username@) + amt2)
                    &&& l2.entries@.len() == l1.entries@.len()
                    &&& (forall|j: int|
                        0 <= j < l1.entries@.len() && j != i ==> l2.entries@[j]
                            == l1.entries@[j])
                    &&& entry_settled_as(l1.entries@[i], l2.entries@[i], amt2)
                    &&& (forall|u: Seq<char>| #[trigger]
                        l2.spec_balance_of(u) == l1.spec_balance_of(u) + (
                        if u == l1.entries@[i].username@ {
                            amt2
                        } else {
                            0
                        }))
                };
            assert(!is_open_with(l1.entries@[i], addr));
        },
        Ok(false) => {
        },
        Err(_) => {
            let i = choose|i: int|
                {
                    &&& 0 <= i < l1.entries@.len()
                    &&& is_open_with(#[trigger] l1.entries@[i], addr)
                    &&& !fits_i64(l1.spec_balance_of(l1.entries@[i].username@) + amt2)
                };
            assert(!is_open_with(l1.entries@[i], addr));
        },
    }
}

} // verus!
