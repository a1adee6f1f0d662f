//! The external ledger of balances.
//!
//! Balances live outside the vault records, keyed by address; the vault's
//! spendable balance is the ledger entry at its derived address. The ledger
//! offers an atomic `transfer` with built-in insufficient-funds checking —
//! the core never manipulates balances as shared memory. An address that was
//! never credited reads as balance zero.
//!
//! Invariant: every address is recorded at most once, and the recorded
//! total in circulation equals the sum of all balances. Because that total
//! is a 64-bit value, no transfer can ever overflow the receiving account.
use vstd::prelude::*;
use vstd::pervasive::unreached;

verus! {

use crate::TipError;
use crate::bytes_eq;
use crate::clone_bytes;

/// One account: an address and the balance it holds.
struct LedgerEntry {
    address: Vec<u8>,
    balance: u64,
}

/// The balance service: a flat list of accounts, each address at most once,
/// plus the running total of everything ever put into circulation.
pub struct Ledger {
    entries: Vec<LedgerEntry>,
    issued: u64,
}

spec fn distinct_addresses(s: Seq<LedgerEntry>) -> bool {
    forall|i: int, j: int| 0 <= i < j < s.len() ==> s[i].address@ != s[j].address@
}

spec fn has_addr(s: Seq<LedgerEntry>, a: Seq<u8>) -> bool {
    exists|i: int| 0 <= i < s.len() && s[i].address@ == a
}

spec fn bal_in(s: Seq<LedgerEntry>, a: Seq<u8>) -> u64
    decreases s.len(),
{
    if s.len() == 0 {
        0u64
    } else if s.last().address@ == a {
        s.last().balance
    } else {
        bal_in(s.drop_last(), a)
    }
}

spec fn sum_of(s: Seq<LedgerEntry>) -> int
    decreases s.len(),
{
    if s.len() == 0 {
        0
    } else {
        sum_of(s.drop_last()) + s.last().balance
    }
}

proof fn lemma_sum_nonneg(s: Seq<LedgerEntry>)
    ensures
        sum_of(s) >= 0,
    decreases s.len(),
{
    if s.len() > 0 {
        lemma_sum_nonneg(s.drop_last());
    }
}

proof fn lemma_entry_le_sum(s: Seq<LedgerEntry>, i: int)
    requires
        0 <= i < s.len(),
    ensures
        s[i].balance <= sum_of(s),
    decreases s.len(),
{
    if i == s.len() - 1 {
        lemma_sum_nonneg(s.drop_last());
    } else {
        lemma_entry_le_sum(s.drop_last(), i);
        assert(s.drop_last()[i] == s[i]);
    }
}

proof fn lemma_sum_update(s: Seq<LedgerEntry>, i: int, e: LedgerEntry)
    requires
        0 <= i < s.len(),
    ensures
        sum_of(s.update(i, e)) == sum_of(s) - s[i].balance + e.balance,
    decreases s.len(),
{
    let t = s.update(i, e);
    if i == s.len() - 1 {
        assert(t.drop_last() =~= s.drop_last());
    } else {
        assert(t.drop_last() =~= s.drop_last().update(i, e));
        assert(t.last() == s.last());
        lemma_sum_update(s.drop_last(), i, e);
    }
}

proof fn lemma_sum_push(s: Seq<LedgerEntry>, e: LedgerEntry)
    ensures
        sum_of(s.push(e)) == sum_of(s) + e.balance,
{
    assert(s.push(e).drop_last() =~= s);
}

proof fn lemma_distinct_drop_last(s: Seq<LedgerEntry>)
    requires
        distinct_addresses(s),
        s.len() > 0,
    ensures
        distinct_addresses(s.drop_last()),
{
    assert forall|i: int, j: int|
        0 <= i < j < s.drop_last().len() implies s.drop_last()[i].address@
        != s.drop_last()[j].address@ by {
        assert(s[i].address@ != s[j].address@);
    };
}

proof fn lemma_distinct_update(s: Seq<LedgerEntry>, i: int, e: LedgerEntry)
    requires
        distinct_addresses(s),
        0 <= i < s.len(),
        e.address@ == s[i].address@,
    ensures
        distinct_addresses(s.update(i, e)),
{
    let t = s.update(i, e);
    assert forall|p: int, q: int| 0 <= p < q < t.len() implies t[p].address@ != t[q].address@ by {
        assert(t[p].address@ == s[p].address@);
        assert(t[q].address@ == s[q].address@);
        assert(s[p].address@ != s[q].address@);
    };
}

proof fn lemma_distinct_push(s: Seq<LedgerEntry>, e: LedgerEntry)
    requires
        distinct_addresses(s),
        !has_addr(s, e.address@),
    ensures
        distinct_addresses(s.push(e)),
{
    let t = s.push(e);
    assert forall|p: int, q: int| 0 <= p < q < t.len() implies t[p].address@ != t[q].address@ by {
        if q == s.len() {
            assert(t[p] == s[p]);
            assert(s[p].address@ != e.address@);
        } else {
            assert(t[p] == s[p]);
            assert(t[q] == s[q]);
        }
    };
}

proof fn lemma_bal_absent(s: Seq<LedgerEntry>, a: Seq<u8>)
    requires
        !has_addr(s, a),
    ensures
        bal_in(s, a) == 0,
    decreases s.len(),
{
    if s.len() > 0 {
        assert(s.last().address@ != a);
        assert(!has_addr(s.drop_last(), a)) by {
            if has_addr(s.drop_last(), a) {
                let i = choose|i: int|
                    0 <= i < s.drop_last().len() && s.drop_last()[i].address@ == a;
                assert(s[i].address@ == a);
            }
        }
        lemma_bal_absent(s.drop_last(), a);
    }
}

proof fn lemma_bal_index(s: Seq<LedgerEntry>, i: int)
    requires
        distinct_addresses(s),
        0 <= i < s.len(),
    ensures
        bal_in(s, s[i].address@) == s[i].balance,
    decreases s.len(),
{
    if i == s.len() - 1 {
    } else {
        assert(s.last().address@ != s[i].address@);
        lemma_distinct_drop_last(s);
        assert(s.drop_last()[i] == s[i]);
        lemma_bal_index(s.drop_last(), i);
    }
}

proof fn lemma_bal_update(s: Seq<LedgerEntry>, i: int, e: LedgerEntry, a: Seq<u8>)
    requires
        distinct_addresses(s),
        0 <= i < s.len(),
        e.address@ == s[i].address@,
    ensures
        bal_in(s.update(i, e), a) == if a == s[i].address@ {
            e.balance
        } else {
            bal_in(s, a)
        },
    decreases s.len(),
{
    let t = s.update(i, e);
    if i == s.len() - 1 {
        assert(t.drop_last() =~= s.drop_last());
    } else {
        assert(t.drop_last() =~= s.drop_last().update(i, e));
        assert(t.last() == s.last());
        assert(s.last().address@ != s[i].address@);
        lemma_distinct_drop_last(s);
        assert(s.drop_last()[i] == s[i]);
        lemma_bal_update(s.drop_last(), i, e, a);
    }
}

proof fn lemma_bal_push(s: Seq<LedgerEntry>, e: LedgerEntry, a: Seq<u8>)
    ensures
        bal_in(s.push(e), a) == if a == e.address@ {
            e.balance
        } else {
            bal_in(s, a)
        },
{
    assert(s.push(e).drop_last() =~= s);
}

impl Ledger {
    /// Every address is recorded at most once and the recorded total in
    /// circulation equals the sum of all balances.
    pub closed spec fn wf(self) -> bool {
        distinct_addresses(self.entries@) && sum_of(self.entries@) == self.issued
    }

    /// The balance held at an address; an address never credited reads as
    /// zero.
    pub closed spec fn bal(self, a: Seq<u8>) -> u64 {
        bal_in(self.entries@, a)
    }

    /// Everything ever put into circulation.
    pub closed spec fn total_issued(self) -> u64 {
        self.issued
    }

    /// An empty ledger: nothing in circulation, every balance zero.
    pub fn new() -> (r: Ledger)
        ensures
            r.wf(),
            r.total_issued() == 0,
            forall|a: Seq<u8>| r.bal(a) == 0,
    {
        Ledger { entries: Vec::new(), issued: 0 }
    }

    fn find(&self, a: &Vec<u8>) -> (r: Option<usize>)
        ensures
            match r {
                Some(i) => i < self.entries@.len() && self.entries@[i as int].address@ == a@,
                None => !has_addr(self.entries@, a@),
            },
    {
        let mut i: usize = 0;
        while i < self.entries.len()
            invariant
                i <= self.entries@.len(),
                forall|j: int| 0 <= j < i ==> self.entries@[j].address@ != a@,
            decreases self.entries@.len() - i,
        {
            if bytes_eq(&self.entries[i].address, a) {
                return Some(i);
            }
            i += 1;
        }
        None
    }

    /// The recorded balance of an address.
    pub fn balance_of(&self, a: &Vec<u8>) -> (r: u64)
        requires
            self.wf(),
        ensures
            r == self.bal(a@),
    {
        match self.find(a) {
            Some(i) => {
                proof {
                    lemma_bal_index(self.entries@, i as int);
                }
                self.entries[i].balance
            },
            None => {
                proof {
                    lemma_bal_absent(self.entries@, a@);
                }
                0
            },
        }
    }

    /// Makes sure an account exists at `a`. A fresh account opens with
    /// balance zero, so no balance anywhere changes.
    pub fn open_account(&mut self, a: &Vec<u8>)
        requires
            old(self).wf(),
        ensures
            final(self).wf(),
            final(self).total_issued() == old(self).total_issued(),
            forall|x: Seq<u8>| final(self).bal(x) == old(self).bal(x),
    {
        let ghost s0 = self.entries@;
        match self.find(a) {
            Some(_) => {},
            None => {
                let e = LedgerEntry { address: clone_bytes(a), balance: 0 };
                proof {
                    lemma_distinct_push(s0, e);
                    lemma_sum_push(s0, e);
                    lemma_bal_absent(s0, a@);
                }
                self.entries.push(e);
                proof {
                    assert forall|x: Seq<u8>| final(self).bal(x) == old(self).bal(x) by {
                        lemma_bal_push(s0, e, x);
                    };
                }
            },
        }
    }

    /// Puts `amount` fresh units into circulation on account `to` — the
    /// host's way of funding accounts. Rejected where the total in
    /// circulation would leave the 64-bit range; this is what keeps the sum
    /// of all balances representable.
    pub fn credit(&mut self, to: &Vec<u8>, amount: u64) -> (r: Result<(), TipError>)
        requires
            old(self).wf(),
        ensures
            final(self).wf(),
            r is Ok <==> old(self).total_issued() + amount <= u64::MAX,
            r is Err ==> r == Err::<(), TipError>(TipError::MathOverflow) && *final(self) == *old(
                self,
            ),
            r is Ok ==> final(self).total_issued() == old(self).total_issued() + amount && forall|
                a: Seq<u8>,
            |
                final(self).bal(a) as int == old(self).bal(a) + (if a == to@ {
                    amount as int
                } else {
                    0
                }),
    {
        let new_issued = match self.issued.checked_add(amount) {
            Some(n) => n,
            None => {
                return Err(TipError::MathOverflow);
            },
        };
        let ghost s0 = self.entries@;
        match self.find(to) {
            Some(i) => {
                proof {
                    lemma_entry_le_sum(s0, i as int);
                    lemma_bal_index(s0, i as int);
                }
                let nb = self.entries[i].balance + amount;
                self.entries[i].balance = nb;
                self.issued = new_issued;
                proof {
                    let e = self.entries@[i as int];
                    assert(self.entries@ =~= s0.update(i as int, e));
                    lemma_distinct_update(s0, i as int, e);
                    lemma_sum_update(s0, i as int, e);
                    assert forall|a: Seq<u8>|
                        final(self).bal(a) as int == old(self).bal(a) + (if a == to@ {
                            amount as int
                        } else {
                            0
                        }) by {
                        lemma_bal_update(s0, i as int, e, a);
                    };
                }
                Ok(())
            },
            None => {
                let e = LedgerEntry { address: clone_bytes(to), balance: amount };
                proof {
                    lemma_distinct_push(s0, e);
                    lemma_sum_push(s0, e);
                    lemma_bal_absent(s0, to@);
                }
                self.entries.push(e);
                self.issued = new_issued;
                proof {
                    assert forall|a: Seq<u8>|
                        final(self).bal(a) as int == old(self).bal(a) + (if a == to@ {
                            amount as int
                        } else {
                            0
                        }) by {
                        lemma_bal_push(s0, e, a);
                    };
                }
                Ok(())
            },
        }
    }

    /// Atomically moves `amount` from `from` to `to`: rejected — with no
    /// effect at all — where `from` holds less than `amount`; on success
    /// exactly `amount` leaves `from`, exactly `amount` arrives at `to`,
    /// and no other account is touched.
    pub fn transfer(&mut self, from: &Vec<u8>, to: &Vec<u8>, amount: u64) -> (r: Result<
        (),
        TipError,
    >)
        requires
            old(self).wf(),
        ensures
            final(self).wf(),
            final(self).total_issued() == old(self).total_issued(),
            r is Ok <==> old(self).bal(from@) >= amount,
            r is Err ==> r == Err::<(), TipError>(TipError::InsufficientFunds) && *final(self)
                == *old(self),
            r is Ok ==> forall|a: Seq<u8>|
                final(self).bal(a) as int == old(self).bal(a) - (if a == from@ {
                    amount as int
                } else {
                    0
                }) + (if a == to@ {
                    amount as int
                } else {
                    0
                }),
    {
        let fb = self.balance_of(from);
        if fb < amount {
            return Err(TipError::InsufficientFunds);
        }
        if amount == 0 {
            return Ok(());
        }
        if bytes_eq(from, to) {
            return Ok(());
        }
        let ghost s0 = self.entries@;
        let i = match self.find(from) {
            Some(i) => i,
            None => {
                proof {
                    lemma_bal_absent(s0, from@);
                }
                unreached()
            },
        };
        proof {
            lemma_bal_index(s0, i as int);
        }
        let nb = self.entries[i].balance - amount;
        self.entries[i].balance = nb;
        let ghost e1 = self.entries@[i as int];
        let ghost s1 = self.entries@;
        proof {
            assert(s1 =~= s0.update(i as int, e1));
            lemma_distinct_update(s0, i as int, e1);
            lemma_sum_update(s0, i as int, e1);
        }
        match self.find(to) {
            Some(j) => {
                proof {
                    lemma_entry_le_sum(s1, j as int);
                    lemma_bal_index(s1, j as int);
                }
                let nb2 = self.entries[j].balance + amount;
                self.entries[j].balance = nb2;
                proof {
                    let e2 = self.entries@[j as int];
                    assert(self.entries@ =~= s1.update(j as int, e2));
                    lemma_distinct_update(s1, j as int, e2);
                    lemma_sum_update(s1, j as int, e2);
                    assert forall|a: Seq<u8>|
                        final(self).bal(a) as int == old(self).bal(a) - (if a == from@ {
                            amount as int
                        } else {
                            0
                        }) + (if a == to@ {
                            amount as int
                        } else {
                            0
                        }) by {
                        lemma_bal_update(s1, j as int, e2, a);
                        lemma_bal_update(s0, i as int, e1, a);
                    };
                }
                Ok(())
            },
            None => {
                let e2 = LedgerEntry { address: clone_bytes(to), balance: amount };
                proof {
                    lemma_distinct_push(s1, e2);
                    lemma_sum_push(s1, e2);
                    lemma_bal_absent(s1, to@);
                }
                self.entries.push(e2);
                proof {
                    assert forall|a: Seq<u8>|
                        final(self).bal(a) as int == old(self).bal(a) - (if a == from@ {
                            amount as int
                        } else {
                            0
                        }) + (if a == to@ {
                            amount as int
                        } else {
                            0
                        }) by {
                        lemma_bal_push(s1, e2, a);
                        lemma_bal_update(s0, i as int, e1, a);
                    };
                }
                Ok(())
            },
        }
    }
}

} // verus!
