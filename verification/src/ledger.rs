//! The ledger store: an append-only log of entries and a materialized
//! balance per account.
//!
//! The consistency the whole engine rests on: every account's balance
//! equals the sum of its settled entries, at most one open entry
//! carries a given funding reference, and both facts survive every
//! operation.  Mutations either complete or leave the ledger
//! observably unchanged, mirroring the atomic units of the store.

use vstd::prelude::*;

verus! {

use crate::models::Transaction;
use crate::text::str_eq;

/// Why an atomic unit was aborted: the store refused a write.  The
/// only refusal the in-memory store knows is a balance leaving the
/// machine integer's range.
#[derive(Clone, Copy, PartialEq, Eq, Structural, Debug)]
pub enum LedgerError {
    BalanceOutOfRange,
}

/// A value the balance column can store.
pub open spec fn fits_i64(x: int) -> bool {
    i64::MIN <= x <= i64::MAX
}

/// One account's materialized balance row.
pub struct AccountBalance {
    pub username: String,
    pub balance: i64,
}

/// The ledger: the entry log and the balance rows.
pub struct Ledger {
    pub entries: Vec<Transaction>,
    pub accounts: Vec<AccountBalance>,
}

/// The stored spelling of a final entry.
pub open spec fn settled_state() -> Seq<char> {
    "SETTLED"@
}

/// The stored spelling of a pending entry.
pub open spec fn open_state() -> Seq<char> {
    "OPEN"@
}

/// What one entry contributes to a user's settled balance: its amount
/// when it is settled and owned by the user, nothing otherwise.
pub open spec fn settled_contribution(e: Transaction, user: Seq<char>) -> int {
    if e.state@ == settled_state() && e.username@ == user {
        e.amount as int
    } else {
        0
    }
}

/// The sum of a user's settled entry amounts over the whole log.
pub open spec fn settled_sum(entries: Seq<Transaction>, user: Seq<char>) -> int
    decreases entries.len(),
{
    if entries.len() == 0 {
        0
    } else {
        settled_sum(entries.drop_last(), user) + settled_contribution(entries.last(), user)
    }
}

/// The balance a row sequence records for a user: the last matching
/// row's balance, or zero when no row matches.
pub open spec fn balance_in(accounts: Seq<AccountBalance>, user: Seq<char>) -> int
    decreases accounts.len(),
{
    if accounts.len() == 0 {
        0
    } else if accounts.last().username@ == user {
        accounts.last().balance as int
    } else {
        balance_in(accounts.drop_last(), user)
    }
}

/// No two balance rows name the same account.
pub open spec fn accounts_distinct(accounts: Seq<AccountBalance>) -> bool {
    forall|i: int, j: int|
        0 <= i < j < accounts.len() ==> accounts[i].username@ != accounts[j].username@
}

/// An entry that is still pending and carries the given funding
/// reference.
pub open spec fn is_open_with(e: Transaction, addr: Seq<char>) -> bool {
    &&& e.state@ == open_state()
    &&& e.payment_addr is Some
    &&& e.payment_addr.unwrap()@ == addr
}

/// At most one pending entry carries any funding reference.
pub open spec fn open_refs_unique(entries: Seq<Transaction>) -> bool {
    forall|i: int, j: int|
        0 <= i < j < entries.len() && #[trigger] entries[i].payment_addr is Some
            && #[trigger] entries[j].payment_addr is Some ==> !(entries[i].state@ == open_state()
            && entries[j].state@ == open_state() && entries[i].payment_addr.unwrap()@
            == entries[j].payment_addr.unwrap()@)
}

impl Ledger {
    /// The balance the ledger shows for a user.
    pub open spec fn spec_balance_of(self, user: Seq<char>) -> int {
        balance_in(self.accounts@, user)
    }

    /// Well-formedness: distinct balance rows, every balance the sum of
    /// the user's settled entries, and unique open funding references.
    pub open spec fn wf(self) -> bool {
        &&& accounts_distinct(self.accounts@)
        &&& forall|user: Seq<char>|
            #![trigger balance_in(self.accounts@, user)]
            #![trigger settled_sum(self.entries@, user)]
            balance_in(self.accounts@, user) == settled_sum(self.entries@, user)
        &&& open_refs_unique(self.entries@)
    }

    /// An empty ledger: no entries, no balances.
    pub fn new() -> (r: Ledger)
        ensures
            r.wf(),
            r.entries@.len() == 0,
            r.accounts@.len() == 0,
    {
        Ledger { entries: Vec::new(), accounts: Vec::new() }
    }

    /// Looks up the balance row of a user.
    fn find_account(&self, username: &str) -> (r: Option<usize>)
        ensures
            match r {
                Some(i) => i < self.accounts@.len() && self.accounts@[i as int].username@
                    == username@,
                None => forall|i: int|
                    0 <= i < self.accounts@.len() ==> self.accounts@[i].username@ != username@,
            },
    {
        let n = self.accounts.len();
        let mut i: usize = 0;
        while i < n
            invariant
                i <= n,
                n == self.accounts@.len(),
                forall|j: int| 0 <= j < i ==> self.accounts@[j].username@ != username@,
            decreases n - i,
        {
            if str_eq(self.accounts[i].username.as_str(), username) {
                return Some(i);
            }
            i += 1;
        }
        None
    }

    /// Reads a user's balance.
    pub fn balance_of(&self, username: &str) -> (r: i64)
        requires
            accounts_distinct(self.accounts@),
        ensures
            r as int == self.spec_balance_of(username@),
    {
        match self.find_account(username) {
            Some(i) => {
                proof {
                    lemma_balance_in_found(self.accounts@, i as int, username@);
                }
                self.accounts[i].balance
            },
            None => {
                proof {
                    lemma_balance_in_absent(self.accounts@, username@);
                }
                0
            },
        }
    }

    /// Adds an amount to a user's balance row, creating the row when
    /// absent.  Fails, changing nothing, exactly when the new balance
    /// would not fit; this is the store failure that aborts an atomic
    /// unit.
    pub fn add_to_balance(&mut self, username: &str, amt: i64) -> (r: bool)
        requires
            accounts_distinct(old(self).accounts@),
        ensures
            final(self).entries@ == old(self).entries@,
            accounts_distinct(final(self).accounts@),
            r == fits_i64(old(self).spec_balance_of(username@) + amt),
            r ==> forall|u: Seq<char>|
                #[trigger] final(self).spec_balance_of(u) == old(self).spec_balance_of(u) + (
                if u == username@ {
                    amt as int
                } else {
                    0
                }),
            !r ==> forall|u: Seq<char>|
                #[trigger] final(self).spec_balance_of(u) == old(self).spec_balance_of(u),
    {
        match self.find_account(username) {
            Some(i) => {
                proof {
                    lemma_balance_in_found(self.accounts@, i as int, username@);
                }
                let cur = self.accounts[i].balance;
                match cur.checked_add(amt) {
                    Some(nb) => {
                        let ghost before = self.accounts@;
                        self.accounts[i].balance = nb;
                        proof {
                            assert(self.accounts@ == before.update(
                                i as int,
                                AccountBalance {
                                    username: before[i as int].username,
                                    balance: nb,
                                },
                            ));
                            lemma_balance_in_update(
                                before,
                                i as int,
                                AccountBalance {
                                    username: before[i as int].username,
                                    balance: nb,
                                },
                            );
                        }
                        true
                    },
                    None => false,
                }
            },
            None => {
                proof {
                    lemma_balance_in_absent(self.accounts@, username@);
                }
                let row = AccountBalance { username: username.to_owned(), balance: amt };
                self.accounts.push(row);
                proof {
                    assert forall|u: Seq<char>| #[trigger]
                        final(self).spec_balance_of(u) == old(self).spec_balance_of(u) + (
                        if u == username@ {
                            amt as int
                        } else {
                            0
                        }) by {
                        assert(final(self).accounts@.last().username@ == username@);
                        assert(final(self).accounts@.drop_last() =~= old(self).accounts@);
                        if u == username@ {
                            lemma_balance_in_absent(old(self).accounts@, u);
                        }
                    }
                }
                true
            },
        }
    }

    /// Appends one entry to the log; the balance rows are untouched.
    /// Callers pair this with the balance updates of the same atomic
    /// unit.
    pub fn insert_tx(&mut self, entry: Transaction)
        ensures
            final(self).entries@ == old(self).entries@.push(entry),
            final(self).accounts@ == old(self).accounts@,
    {
        self.entries.push(entry);
    }

    /// Records a pending funding deposit: an open entry that carries
    /// the funding reference and the quoted amount, awaiting the
    /// funding event.  Balances do not move until the event settles
    /// it.  Refused, changing nothing, when an open entry already
    /// carries the reference, so references stay unique.
    pub fn add_open_deposit(
        &mut self,
        username: &str,
        amount: i64,
        payment_addr: &str,
        created_on: i64,
    ) -> (r: bool)
        requires
            old(self).wf(),
        ensures
            final(self).wf(),
            final(self).accounts@ == old(self).accounts@,
            r == (forall|i: int|
                0 <= i < old(self).entries@.len() ==> !is_open_with(
                    #[trigger] old(self).entries@[i],
                    payment_addr@,
                )),
            r ==> {
                &&& final(self).entries@.len() == old(self).entries@.len() + 1
                &&& final(self).entries@.subrange(0, old(self).entries@.len() as int) =~= old(
                    self,
                ).entries@
                &&& is_open_deposit_entry(
                    final(self).entries@.last(),
                    username@,
                    amount as int,
                    payment_addr@,
                    created_on,
                )
            },
            !r ==> final(self).entries@ == old(self).entries@,
    {
        let ghost l0 = *self;
        let n = self.entries.len();
        let mut i: usize = 0;
        while i < n
            invariant
                i <= n,
                n == self.entries@.len(),
                *self == l0,
                l0 == *old(self),
                l0.wf(),
                forall|j: int| 0 <= j < i ==> !is_open_with(#[trigger] l0.entries@[j], payment_addr@),
            decreases n - i,
        {
            let state_open = str_eq(self.entries[i].state.as_str(), "OPEN");
            let addr_match = match &self.entries[i].payment_addr {
                Some(a) => str_eq(a.as_str(), payment_addr),
                None => false,
            };
            if state_open && addr_match {
                proof {
                    assert(is_open_with(l0.entries@[i as int], payment_addr@));
                }
                return false;
            }
            i += 1;
        }
        let entry = Transaction {
            transaction_id: 0,
            username: username.to_owned(),
            ttype: "deposit".to_owned(),
            detail: "pending deposit".to_owned(),
            amount,
            state: "OPEN".to_owned(),
            preimage: None,
            payment_addr: Some(payment_addr.to_owned()),
            payment_request: None,
            payment_hash: None,
            lichess_challenge_id: None,
            created_on: Some(created_on),
        };
        let ghost e = entry;
        self.entries.push(entry);
        proof {
            lemma_open_is_not_settled();
            assert(self.entries@ == l0.entries@.push(e));
            assert(self.entries@.subrange(0, l0.entries@.len() as int) =~= l0.entries@);
            assert forall|u: Seq<char>| #[trigger]
                balance_in(self.accounts@, u) == settled_sum(self.entries@, u) by {
                lemma_settled_sum_push(l0.entries@, e, u);
                assert(settled_contribution(e, u) == 0);
                assert(balance_in(l0.accounts@, u) == settled_sum(l0.entries@, u));
            }
            assert(open_refs_unique(self.entries@)) by {
                assert forall|x: int, y: int|
                    0 <= x < y < self.entries@.len() && #[trigger] self.entries@[x].payment_addr
                        is Some && #[trigger] self.entries@[y].payment_addr is Some implies !(
                self.entries@[x].state@ == open_state() && self.entries@[y].state@ == open_state()
                    && self.entries@[x].payment_addr.unwrap()@
                    == self.entries@[y].payment_addr.unwrap()@) by {
                    if y == l0.entries@.len() {
                        assert(self.entries@[x] == l0.entries@[x]);
                        assert(self.entries@[y] == e);
                        if self.entries@[x].state@ == open_state()
                            && self.entries@[x].payment_addr.unwrap()@ == payment_addr@ {
                            assert(is_open_with(l0.entries@[x], payment_addr@));
                        }
                    } else {
                        assert(self.entries@[x] == l0.entries@[x]);
                        assert(self.entries@[y] == l0.entries@[y]);
                    }
                }
            }
            assert(self.wf());
        }
        true
    }
}

/// The shape of a pending deposit entry: open, owned by the depositor,
/// quoting the expected amount under its funding reference.
pub open spec fn is_open_deposit_entry(
    e: Transaction,
    user: Seq<char>,
    amount: int,
    addr: Seq<char>,
    created_on: i64,
) -> bool {
    &&& e.username@ == user
    &&& e.ttype@ == "deposit"@
    &&& e.amount as int == amount
    &&& e.state@ == open_state()
    &&& e.payment_addr is Some
    &&& e.payment_addr.unwrap()@ == addr
    &&& e.lichess_challenge_id is None
    &&& e.created_on == Some(created_on)
    &&& is_open_with(e, addr)
}

/// With distinct rows, a matching row's balance is the recorded
/// balance.
pub proof fn lemma_balance_in_found(accounts: Seq<AccountBalance>, i: int, user: Seq<char>)
    requires
        accounts_distinct(accounts),
        0 <= i < accounts.len(),
        accounts[i].username@ == user,
    ensures
        balance_in(accounts, user) == accounts[i].balance as int,
    decreases accounts.len(),
{
    if i == accounts.len() - 1 {
    } else {
        assert(accounts.last().username@ != user);
        assert(accounts.drop_last()[i] == accounts[i]);
        lemma_balance_in_found(accounts.drop_last(), i, user);
    }
}

/// A user with no row has balance zero.
pub proof fn lemma_balance_in_absent(accounts: Seq<AccountBalance>, user: Seq<char>)
    requires
        forall|i: int| 0 <= i < accounts.len() ==> accounts[i].username@ != user,
    ensures
        balance_in(accounts, user) == 0,
    decreases accounts.len(),
{
    if accounts.len() > 0 {
        lemma_balance_in_absent(accounts.drop_last(), user);
    }
}

/// Updating one row in place moves that user's recorded balance to the
/// new row's and leaves every other user's untouched.
pub proof fn lemma_balance_in_update(accounts: Seq<AccountBalance>, i: int, row: AccountBalance)
    requires
        accounts_distinct(accounts),
        0 <= i < accounts.len(),
        row.username@ == accounts[i].username@,
    ensures
        accounts_distinct(accounts.update(i, row)),
        forall|u: Seq<char>| #[trigger]
            balance_in(accounts.update(i, row), u) == if u == row.username@ {
                row.balance as int
            } else {
                balance_in(accounts, u)
            },
    decreases accounts.len(),
{
    let updated = accounts.update(i, row);
    assert forall|x: int, y: int| 0 <= x < y < updated.len() implies updated[x].username@
        != updated[y].username@ by {
        assert(accounts[x].username@ != accounts[y].username@);
    }
    if i == accounts.len() - 1 {
        assert(updated.last() == row);
        assert(updated.drop_last() =~= accounts.drop_last());
        assert forall|u: Seq<char>| #[trigger]
            balance_in(updated, u) == if u == row.username@ {
                row.balance as int
            } else {
                balance_in(accounts, u)
            } by {
            if u != row.username@ {
                assert(accounts.last().username@ == row.username@);
            }
        }
    } else {
        assert(updated.last() == accounts.last());
        assert(updated.drop_last() =~= accounts.drop_last().update(i, row));
        assert(accounts.drop_last()[i] == accounts[i]);
        lemma_balance_in_update(accounts.drop_last(), i, row);
        assert(accounts.last().username@ != accounts[i].username@);
        assert forall|u: Seq<char>| #[trigger]
            balance_in(updated, u) == if u == row.username@ {
                row.balance as int
            } else {
                balance_in(accounts, u)
            } by {
            if updated.last().username@ == u {
            } else {
                assert(balance_in(updated, u) == balance_in(updated.drop_last(), u));
            }
        }
    }
}

/// The two entry states are spelled differently.
pub proof fn lemma_open_is_not_settled()
    ensures
        open_state() != settled_state(),
{
    reveal_strlit("OPEN");
    reveal_strlit("SETTLED");
    assert(open_state().len() == 4);
    assert(settled_state().len() == 7);
}

/// A recorded balance always fits the machine integer: it is either a
/// stored row's balance or zero.
pub proof fn lemma_balance_in_bounds(accounts: Seq<AccountBalance>, user: Seq<char>)
    ensures
        i64::MIN <= balance_in(accounts, user) <= i64::MAX,
    decreases accounts.len(),
{
    if accounts.len() > 0 && accounts.last().username@ != user {
        lemma_balance_in_bounds(accounts.drop_last(), user);
    }
}

/// Appending an entry that carries no funding reference cannot
/// introduce a second open entry for any reference.
pub proof fn lemma_open_refs_unique_push(entries: Seq<Transaction>, e: Transaction)
    requires
        open_refs_unique(entries),
        e.payment_addr is None,
    ensures
        open_refs_unique(entries.push(e)),
{
    let pushed = entries.push(e);
    assert forall|i: int, j: int|
        0 <= i < j < pushed.len() && #[trigger] pushed[i].payment_addr is Some
            && #[trigger] pushed[j].payment_addr is Some implies !(pushed[i].state@
        == open_state() && pushed[j].state@ == open_state() && pushed[i].payment_addr.unwrap()@
        == pushed[j].payment_addr.unwrap()@) by {
        if j < entries.len() {
            assert(pushed[i] == entries[i]);
            assert(pushed[j] == entries[j]);
        } else {
            assert(pushed[j] == e);
        }
    }
}

/// Appending an entry adds exactly its contribution to every user's
/// settled sum.
pub proof fn lemma_settled_sum_push(entries: Seq<Transaction>, e: Transaction, user: Seq<char>)
    ensures
        settled_sum(entries.push(e), user) == settled_sum(entries, user) + settled_contribution(
            e,
            user,
        ),
{
    assert(entries.push(e).drop_last() =~= entries);
    assert(entries.push(e).last() == e);
}

/// Replacing one entry shifts every user's settled sum by the
/// difference of the two entries' contributions.
pub proof fn lemma_settled_sum_update(
    entries: Seq<Transaction>,
    i: int,
    e: Transaction,
    user: Seq<char>,
)
    requires
        0 <= i < entries.len(),
    ensures
        settled_sum(entries.update(i, e), user) == settled_sum(entries, user)
            - settled_contribution(entries[i], user) + settled_contribution(e, user),
    decreases entries.len(),
{
    let updated = entries.update(i, e);
    if i == entries.len() - 1 {
        assert(updated.last() == e);
        assert(updated.drop_last() =~= entries.drop_last());
    } else {
        assert(updated.last() == entries.last());
        assert(updated.drop_last() =~= entries.drop_last().update(i, e));
        assert(entries.drop_last()[i] == entries[i]);
        lemma_settled_sum_update(entries.drop_last(), i, e, user);
    }
}

} // verus!
