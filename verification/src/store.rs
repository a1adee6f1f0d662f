//! The store of persisted vault records, keyed by derived address.
//!
//! `create` allocates the record for an owner at the owner's derived
//! address and rejects a second initialization; `load` fetches a record;
//! `add_tips` moves the cumulative tip counter, with explicit overflow
//! checking. At most one record exists per address, and because addresses
//! are derived deterministically, at most one per owner.
use vstd::prelude::*;

verus! {

use crate::TipError;
use crate::bytes_eq;
use crate::clone_bytes;
use crate::addr::derivable;
use crate::addr::derived_address;
use crate::addr::derived_bump;
use crate::vault::Vault;

/// One persisted record and the address it lives at.
struct VaultRecord {
    address: Vec<u8>,
    vault: Vault,
}

/// All vault records, each address at most once.
pub struct VaultStore {
    records: Vec<VaultRecord>,
}

spec fn rec_distinct(s: Seq<VaultRecord>) -> bool {
    forall|i: int, j: int| 0 <= i < j < s.len() ==> s[i].address@ != s[j].address@
}

spec fn rec_has(s: Seq<VaultRecord>, a: Seq<u8>) -> bool {
    exists|i: int| 0 <= i < s.len() && s[i].address@ == a
}

spec fn vault_in(s: Seq<VaultRecord>, a: Seq<u8>) -> Vault
    decreases s.len(),
{
    if s.len() == 0 {
        arbitrary()
    } else if s.last().address@ == a {
        s.last().vault
    } else {
        vault_in(s.drop_last(), a)
    }
}

proof fn lemma_rec_distinct_drop_last(s: Seq<VaultRecord>)
    requires
        rec_distinct(s),
        s.len() > 0,
    ensures
        rec_distinct(s.drop_last()),
{
    assert forall|i: int, j: int|
        0 <= i < j < s.drop_last().len() implies s.drop_last()[i].address@
        != s.drop_last()[j].address@ by {
        assert(s[i].address@ != s[j].address@);
    };
}

proof fn lemma_rec_distinct_update(s: Seq<VaultRecord>, i: int, e: VaultRecord)
    requires
        rec_distinct(s),
        0 <= i < s.len(),
        e.address@ == s[i].address@,
    ensures
        rec_distinct(s.update(i, e)),
{
    let t = s.update(i, e);
    assert forall|p: int, q: int| 0 <= p < q < t.len() implies t[p].address@ != t[q].address@ by {
        assert(t[p].address@ == s[p].address@);
        assert(t[q].address@ == s[q].address@);
        assert(s[p].address@ != s[q].address@);
    };
}

proof fn lemma_rec_distinct_push(s: Seq<VaultRecord>, e: VaultRecord)
    requires
        rec_distinct(s),
        !rec_has(s, e.address@),
    ensures
        rec_distinct(s.push(e)),
{
    let t = s.push(e);
    assert forall|p: int, q: int| 0 <= p < q < t.len() implies t[p].address@ != t[q].address@ by {
        if q == s.len() {
            assert(t[p] == s[p]);
            assert(s[p].address@ != e.address@);
        } else {
            assert(t[p] == s[p]);
            assert(t[q] == s[q]);
        }
    };
}

proof fn lemma_rec_has_update(s: Seq<VaultRecord>, i: int, e: VaultRecord, a: Seq<u8>)
    requires
        0 <= i < s.len(),
        e.address@ == s[i].address@,
    ensures
        rec_has(s.update(i, e), a) == rec_has(s, a),
{
    let t = s.update(i, e);
    if rec_has(s, a) {
        let k = choose|k: int| 0 <= k < s.len() && s[k].address@ == a;
        assert(t[k].address@ == a);
    }
    if rec_has(t, a) {
        let k = choose|k: int| 0 <= k < t.len() && t[k].address@ == a;
        assert(s[k].address@ == a);
    }
}

proof fn lemma_rec_has_push(s: Seq<VaultRecord>, e: VaultRecord, a: Seq<u8>)
    ensures
        rec_has(s.push(e), a) == (rec_has(s, a) || a == e.address@),
{
    let t = s.push(e);
    if rec_has(s, a) {
        let k = choose|k: int| 0 <= k < s.len() && s[k].address@ == a;
        assert(t[k].address@ == a);
    }
    if a == e.address@ {
        assert(t[s.len() as int].address@ == a);
    }
    if rec_has(t, a) && a != e.address@ {
        let k = choose|k: int| 0 <= k < t.len() && t[k].address@ == a;
        assert(k < s.len());
        assert(s[k].address@ == a);
    }
}

proof fn lemma_vault_in_index(s: Seq<VaultRecord>, i: int)
    requires
        rec_distinct(s),
        0 <= i < s.len(),
    ensures
        vault_in(s, s[i].address@) == s[i].vault,
    decreases s.len(),
{
    if i == s.len() - 1 {
    } else {
        assert(s.last().address@ != s[i].address@);
        lemma_rec_distinct_drop_last(s);
        assert(s.drop_last()[i] == s[i]);
        lemma_vault_in_index(s.drop_last(), i);
    }
}

proof fn lemma_vault_in_update(s: Seq<VaultRecord>, i: int, e: VaultRecord, a: Seq<u8>)
    requires
        rec_distinct(s),
        0 <= i < s.len(),
        e.address@ == s[i].address@,
    ensures
        vault_in(s.update(i, e), a) == if a == s[i].address@ {
            e.vault
        } else {
            vault_in(s, a)
        },
    decreases s.len(),
{
    let t = s.update(i, e);
    if i == s.len() - 1 {
        assert(t.drop_last() =~= s.drop_last());
    } else {
        assert(t.drop_last() =~= s.drop_last().update(i, e));
        assert(t.last() == s.last());
        assert(s.last().address@ != s[i].address@);
        lemma_rec_distinct_drop_last(s);
        assert(s.drop_last()[i] == s[i]);
        lemma_vault_in_update(s.drop_last(), i, e, a);
    }
}

proof fn lemma_vault_in_push(s: Seq<VaultRecord>, e: VaultRecord, a: Seq<u8>)
    ensures
        vault_in(s.push(e), a) == if a == e.address@ {
            e.vault
        } else {
            vault_in(s, a)
        },
{
    assert(s.push(e).drop_last() =~= s);
}

impl VaultStore {
    /// Every address is recorded at most once.
    pub closed spec fn wf(self) -> bool {
        rec_distinct(self.records@)
    }

    /// Whether a record exists at an address.
    pub closed spec fn has(self, a: Seq<u8>) -> bool {
        rec_has(self.records@, a)
    }

    /// The record at an address (meaningful where `has` holds).
    pub closed spec fn vault_at(self, a: Seq<u8>) -> Vault {
        vault_in(self.records@, a)
    }

    /// An empty store.
    pub fn new() -> (r: VaultStore)
        ensures
            r.wf(),
            forall|a: Seq<u8>| !r.has(a),
    {
        VaultStore { records: Vec::new() }
    }

    fn find(&self, a: &Vec<u8>) -> (r: Option<usize>)
        ensures
            match r {
                Some(i) => i < self.records@.len() && self.records@[i as int].address@ == a@,
                None => !rec_has(self.records@, a@),
            },
    {
        let mut i: usize = 0;
        while i < self.records.len()
            invariant
                i <= self.records@.len(),
                forall|j: int| 0 <= j < i ==> self.records@[j].address@ != a@,
            decreases self.records@.len() - i,
        {
            if bytes_eq(&self.records[i].address, a) {
                return Some(i);
            }
            i += 1;
        }
        None
    }

    /// Allocates the record for `owner` at the owner's derived address:
    /// owner set once, counter at zero, proof byte stored. Rejected with
    /// `AlreadyInitialized` — leaving every existing record untouched —
    /// where a record already sits at that address, and with
    /// `AddressMismatch` in the edge case that no address can be derived
    /// for the owner at all.
    pub fn create(&mut self, owner: &Vec<u8>) -> (r: Result<Vec<u8>, TipError>)
        requires
            old(self).wf(),
        ensures
            final(self).wf(),
            !derivable(owner@) ==> r == Err::<Vec<u8>, TipError>(TipError::AddressMismatch)
                && *final(self) == *old(self),
            derivable(owner@) && old(self).has(derived_address(owner@)) ==> r == Err::<
                Vec<u8>,
                TipError,
            >(TipError::AlreadyInitialized) && *final(self) == *old(self),
            derivable(owner@) && !old(self).has(derived_address(owner@)) ==> ({
                &&& r matches Ok(v) && v@ == derived_address(owner@)
                &&& final(self).has(derived_address(owner@))
                &&& final(self).vault_at(derived_address(owner@)).authority@ == owner@
                &&& final(self).vault_at(derived_address(owner@)).bump == derived_bump(owner@)
                &&& final(self).vault_at(derived_address(owner@)).total_tips == 0
                &&& forall|a: Seq<u8>|
                    a != derived_address(owner@) ==> final(self).has(a) == old(self).has(a)
                &&& forall|a: Seq<u8>|
                    a != derived_address(owner@) && old(self).has(a) ==> final(self).vault_at(a)
                        == old(self).vault_at(a)
            }),
    {
        let d = match crate::addr::derive(owner) {
            Some(d) => d,
            None => {
                return Err(TipError::AddressMismatch);
            },
        };
        let (address, bump) = d;
        match self.find(&address) {
            Some(_) => Err(TipError::AlreadyInitialized),
            None => {
                let ghost s0 = self.records@;
                let rec = VaultRecord {
                    address: clone_bytes(&address),
                    vault: Vault { authority: clone_bytes(owner), bump, total_tips: 0 },
                };
                proof {
                    lemma_rec_distinct_push(s0, rec);
                }
                self.records.push(rec);
                proof {
                    assert forall|a: Seq<u8>| #[trigger]
                        final(self).has(a) == (old(self).has(a) || a == address@) by {
                        lemma_rec_has_push(s0, rec, a);
                    };
                    assert forall|a: Seq<u8>|
                        a != address@ && old(self).has(a) implies #[trigger] final(self).vault_at(a)
                        == old(self).vault_at(a) by {
                        lemma_vault_in_push(s0, rec, a);
                    };
                    lemma_vault_in_push(s0, rec, address@);
                }
                Ok(address)
            },
        }
    }

    /// Fetches a copy of the record at `address`; `NotFound` where none
    /// exists.
    pub fn load(&self, address: &Vec<u8>) -> (r: Result<Vault, TipError>)
        requires
            self.wf(),
        ensures
            r is Ok <==> self.has(address@),
            r matches Ok(v) ==> v.authority@ == self.vault_at(address@).authority@ && v.bump
                == self.vault_at(address@).bump && v.total_tips == self.vault_at(
                address@,
            ).total_tips,
            r is Err ==> r == Err::<Vault, TipError>(TipError::NotFound),
    {
        match self.find(address) {
            Some(i) => {
                proof {
                    lemma_vault_in_index(self.records@, i as int);
                }
                Ok(self.records[i].vault.duplicate())
            },
            None => Err(TipError::NotFound),
        }
    }

    /// Adds `amount` to the cumulative tip counter of the record at
    /// `address`: the one mutation tips make to the record. Rejected with
    /// `MathOverflow` — record untouched — where the counter would leave
    /// the 64-bit range, and with `NotFound` where no record exists.
    pub fn add_tips(&mut self, address: &Vec<u8>, amount: u64) -> (r: Result<(), TipError>)
        requires
            old(self).wf(),
        ensures
            final(self).wf(),
            r is Ok <==> old(self).has(address@) && old(self).vault_at(address@).total_tips
                + amount <= u64::MAX,
            !old(self).has(address@) ==> r == Err::<(), TipError>(TipError::NotFound),
            old(self).has(address@) && old(self).vault_at(address@).total_tips + amount
                > u64::MAX ==> r == Err::<(), TipError>(TipError::MathOverflow),
            r is Err ==> *final(self) == *old(self),
            r is Ok ==> ({
                &&& final(self).has(address@)
                &&& final(self).vault_at(address@).authority@ == old(self).vault_at(
                    address@,
                ).authority@
                &&& final(self).vault_at(address@).bump == old(self).vault_at(address@).bump
                &&& final(self).vault_at(address@).total_tips == old(self).vault_at(
                    address@,
                ).total_tips + amount
                &&& forall|a: Seq<u8>| final(self).has(a) == old(self).has(a)
                &&& forall|a: Seq<u8>|
                    a != address@ ==> final(self).vault_at(a) == old(self).vault_at(a)
            }),
    {
        let i = match self.find(address) {
            Some(i) => i,
            None => {
                return Err(TipError::NotFound);
            },
        };
        proof {
            lemma_vault_in_index(self.records@, i as int);
        }
        let t = match self.records[i].vault.total_tips.checked_add(amount) {
            Some(t) => t,
            None => {
                return Err(TipError::MathOverflow);
            },
        };
        let ghost s0 = self.records@;
        self.records[i].vault.total_tips = t;
        proof {
            let e = self.records@[i as int];
            assert(self.records@ =~= s0.update(i as int, e));
            lemma_rec_distinct_update(s0, i as int, e);
            lemma_vault_in_update(s0, i as int, e, address@);
            assert forall|a: Seq<u8>| #[trigger] final(self).has(a) == old(self).has(a) by {
                lemma_rec_has_update(s0, i as int, e, a);
            };
            assert forall|a: Seq<u8>| a != address@ implies #[trigger] final(self).vault_at(a)
                == old(self).vault_at(a) by {
                lemma_vault_in_update(s0, i as int, e, a);
            };
        }
        Ok(())
    }

    /// Installs a record, as handed back by the host's persistence, at an
    /// arbitrary address. The address is deliberately not re-derived here:
    /// a forged or corrupted pairing is caught by address verification the
    /// first time an operation touches the record.
    pub fn put(&mut self, address: &Vec<u8>, vault: Vault) -> (r: Result<(), TipError>)
        requires
            old(self).wf(),
        ensures
            final(self).wf(),
            r is Ok <==> !old(self).has(address@),
            r is Err ==> r == Err::<(), TipError>(TipError::AlreadyInitialized) && *final(self)
                == *old(self),
            r is Ok ==> ({
                &&& final(self).has(address@)
                &&& final(self).vault_at(address@).authority@ == vault.authority@
                &&& final(self).vault_at(address@).bump == vault.bump
                &&& final(self).vault_at(address@).total_tips == vault.total_tips
                &&& forall|a: Seq<u8>|
                    a != address@ ==> final(self).has(a) == old(self).has(a)
                &&& forall|a: Seq<u8>|
                    a != address@ && old(self).has(a) ==> final(self).vault_at(a) == old(
                        self,
                    ).vault_at(a)
            }),
    {
        match self.find(address) {
            Some(_) => Err(TipError::AlreadyInitialized),
            None => {
                let ghost s0 = self.records@;
                let rec = VaultRecord { address: clone_bytes(address), vault };
                proof {
                    lemma_rec_distinct_push(s0, rec);
                }
                self.records.push(rec);
                proof {
                    assert forall|a: Seq<u8>|
                        a != address@ implies #[trigger] final(self).has(a) == old(self).has(
                        a,
                    ) by {
                        lemma_rec_has_push(s0, rec, a);
                    };
                    lemma_rec_has_push(s0, rec, address@);
                    assert forall|a: Seq<u8>|
                        a != address@ && old(self).has(a) implies #[trigger] final(self).vault_at(a)
                        == old(self).vault_at(a) by {
                        lemma_vault_in_push(s0, rec, a);
                    };
                    lemma_vault_in_push(s0, rec, address@);
                }
                Ok(())
            },
        }
    }
}

} // verus!
