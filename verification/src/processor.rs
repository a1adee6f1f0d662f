//! The three entry operations: initialize, tip, withdraw.
//!
//! Each operation validates its inputs in a fixed order — amount validity,
//! record existence, address derivation, authorization, funds sufficiency —
//! and then mutates the record and the ledger as one unit: either the whole
//! effect is visible or, on any rejection, none of it is. The contracts
//! below pin down, for every input, exactly which failure kind comes back
//! and exactly what changed.
use vstd::prelude::*;
use vstd::pervasive::unreached;

verus! {

use crate::TipError;
use crate::bytes_eq;
use crate::clone_bytes;
use crate::addr::derivable;
use crate::addr::derived_address;
use crate::addr::derived_bump;
use crate::addr::verify_spec;
use crate::ledger::Ledger;
use crate::store::VaultStore;

/// Inputs of an initialize: the caller, who becomes the vault's owner.
pub struct Initialize {
    pub authority: Vec<u8>,
}

/// Inputs of a tip: the vault's address and the contributing caller.
pub struct Tip {
    pub vault: Vec<u8>,
    pub tipper: Vec<u8>,
}

/// Inputs of a withdrawal: the vault's address and the calling identity.
pub struct Withdraw {
    pub vault: Vec<u8>,
    pub authority: Vec<u8>,
}

/// When a tip of `amount` into the vault at `va`, paid by `tp`, succeeds:
/// the amount is positive, a record exists at `va`, the address verifies
/// against the record's owner and proof byte, the tipper can pay, and the
/// cumulative counter stays representable.
pub open spec fn tip_ok(s: VaultStore, l: Ledger, va: Seq<u8>, tp: Seq<u8>, amount: u64) -> bool {
    &&& amount > 0
    &&& s.has(va)
    &&& verify_spec(va, s.vault_at(va).authority@, s.vault_at(va).bump)
    &&& l.bal(tp) >= amount
    &&& s.vault_at(va).total_tips + amount <= u64::MAX
}

/// When a withdrawal of `amount` from the vault at `va` by `caller`
/// succeeds: the amount is positive, a record exists at `va`, the address
/// verifies, the caller is the owner, and the vault can pay.
pub open spec fn withdraw_ok(
    s: VaultStore,
    l: Ledger,
    va: Seq<u8>,
    caller: Seq<u8>,
    amount: u64,
) -> bool {
    &&& amount > 0
    &&& s.has(va)
    &&& verify_spec(va, s.vault_at(va).authority@, s.vault_at(va).bump)
    &&& caller == s.vault_at(va).authority@
    &&& l.bal(va) >= amount
}

/// Creates the caller's vault: derives its address, allocates the record
/// (owner set to the caller, counter at zero, proof byte stored) and opens
/// the vault's balance at zero in the ledger — so no balance anywhere
/// changes. A second initialize for the same owner is rejected with
/// `AlreadyInitialized` and leaves the existing record untouched.
pub fn initialize(store: &mut VaultStore, ledger: &mut Ledger, ctx: &Initialize) -> (r: Result<
    Vec<u8>,
    TipError,
>)
    requires
        old(store).wf(),
        old(ledger).wf(),
    ensures
        final(store).wf(),
        final(ledger).wf(),
        final(ledger).total_issued() == old(ledger).total_issued(),
        forall|x: Seq<u8>| final(ledger).bal(x) == old(ledger).bal(x),
        r is Ok <==> derivable(ctx.authority@) && !old(store).has(
            derived_address(ctx.authority@),
        ),
        !derivable(ctx.authority@) ==> r == Err::<Vec<u8>, TipError>(TipError::AddressMismatch)
            && *final(store) == *old(store),
        derivable(ctx.authority@) && old(store).has(derived_address(ctx.authority@)) ==> r
            == Err::<Vec<u8>, TipError>(TipError::AlreadyInitialized) && *final(store) == *old(
            store,
        ),
        r is Ok ==> ({
            &&& r matches Ok(v) && v@ == derived_address(ctx.authority@)
            &&& final(store).has(derived_address(ctx.authority@))
            &&& final(store).vault_at(derived_address(ctx.authority@)).authority@
                == ctx.authority@
            &&& final(store).vault_at(derived_address(ctx.authority@)).bump == derived_bump(
                ctx.authority@,
            )
            &&& final(store).vault_at(derived_address(ctx.authority@)).total_tips == 0
            &&& forall|a: Seq<u8>|
                a != derived_address(ctx.authority@) ==> final(store).has(a) == old(store).has(a)
            &&& forall|a: Seq<u8>|
                a != derived_address(ctx.authority@) && old(store).has(a)
                    ==> final(store).vault_at(a) == old(store).vault_at(a)
        }),
{
    match store.create(&ctx.authority) {
        Ok(address) => {
            ledger.open_account(&address);
            Ok(address)
        },
        Err(e) => Err(e),
    }
}

/// Deposits `amount` from the tipper into the vault at `ctx.vault`, and
/// grows the vault's lifetime counter by the same amount, as one atomic
/// unit. Checked in order: a zero amount (`InvalidAmount`), a missing
/// record (`NotFound`), an address that does not re-derive from the
/// record's owner and proof byte (`AddressMismatch`), a tipper that cannot
/// pay (`InsufficientFunds`), a counter that would leave the 64-bit range
/// (`MathOverflow`). Every rejection leaves record and balances exactly as
/// they were.
pub fn tip(store: &mut VaultStore, ledger: &mut Ledger, ctx: &Tip, amount: u64) -> (r: Result<
    (),
    TipError,
>)
    requires
        old(store).wf(),
        old(ledger).wf(),
    ensures
        final(store).wf(),
        final(ledger).wf(),
        r is Ok <==> tip_ok(*old(store), *old(ledger), ctx.vault@, ctx.tipper@, amount),
        r is Err ==> *final(store) == *old(store) && *final(ledger) == *old(ledger),
        amount == 0 ==> r == Err::<(), TipError>(TipError::InvalidAmount),
        amount > 0 && !old(store).has(ctx.vault@) ==> r == Err::<(), TipError>(TipError::NotFound),
        amount > 0 && old(store).has(ctx.vault@) && !verify_spec(
            ctx.vault@,
            old(store).vault_at(ctx.vault@).authority@,
            old(store).vault_at(ctx.vault@).bump,
        ) ==> r == Err::<(), TipError>(TipError::AddressMismatch),
        amount > 0 && old(store).has(ctx.vault@) && verify_spec(
            ctx.vault@,
            old(store).vault_at(ctx.vault@).authority@,
            old(store).vault_at(ctx.vault@).bump,
        ) && old(ledger).bal(ctx.tipper@) < amount ==> r == Err::<(), TipError>(
            TipError::InsufficientFunds,
        ),
        amount > 0 && old(store).has(ctx.vault@) && verify_spec(
            ctx.vault@,
            old(store).vault_at(ctx.vault@).authority@,
            old(store).vault_at(ctx.vault@).bump,
        ) && old(ledger).bal(ctx.tipper@) >= amount && old(store).vault_at(ctx.vault@).total_tips
            + amount > u64::MAX ==> r == Err::<(), TipError>(TipError::MathOverflow),
        r is Ok ==> ({
            &&& final(store).has(ctx.vault@)
            &&& final(store).vault_at(ctx.vault@).authority@ == old(store).vault_at(
                ctx.vault@,
            ).authority@
            &&& final(store).vault_at(ctx.vault@).bump == old(store).vault_at(ctx.vault@).bump
            &&& final(store).vault_at(ctx.vault@).total_tips == old(store).vault_at(
                ctx.vault@,
            ).total_tips + amount
            &&& forall|a: Seq<u8>| final(store).has(a) == old(store).has(a)
            &&& forall|a: Seq<u8>|
                a != ctx.vault@ ==> final(store).vault_at(a) == old(store).vault_at(a)
            &&& final(ledger).total_issued() == old(ledger).total_issued()
            &&& forall|a: Seq<u8>|
                final(ledger).bal(a) as int == old(ledger).bal(a) - (if a == ctx.tipper@ {
                    amount as int
                } else {
                    0
                }) + (if a == ctx.vault@ {
                    amount as int
                } else {
                    0
                })
        }),
{
    if amount == 0 {
        return Err(TipError::InvalidAmount);
    }
    let vault = match store.load(&ctx.vault) {
        Ok(v) => v,
        Err(e) => {
            return Err(e);
        },
    };
    if !crate::addr::verify(&ctx.vault, &vault.authority, vault.bump) {
        return Err(TipError::AddressMismatch);
    }
    if ledger.balance_of(&ctx.tipper) < amount {
        return Err(TipError::InsufficientFunds);
    }
    match store.add_tips(&ctx.vault, amount) {
        Ok(()) => {},
        Err(e) => {
            return Err(e);
        },
    }
    match ledger.transfer(&ctx.tipper, &ctx.vault, amount) {
        Ok(()) => Ok(()),
        Err(_) => unreached(),
    }
}

/// Releases `amount` from the vault at `ctx.vault` to the calling identity.
/// Checked in order: a zero amount (`InvalidAmount`), a missing record
/// (`NotFound`), an address that does not re-derive (`AddressMismatch`), a
/// caller other than the vault's owner (`Unauthorized`), a vault that
/// cannot pay (`InsufficientFunds`). The cumulative tip counter is never
/// touched by a withdrawal, and a rejection leaves every balance exactly
/// as it was.
pub fn withdraw(store: &VaultStore, ledger: &mut Ledger, ctx: &Withdraw, amount: u64) -> (r:
    Result<(), TipError>)
    requires
        store.wf(),
        old(ledger).wf(),
    ensures
        final(ledger).wf(),
        r is Ok <==> withdraw_ok(*store, *old(ledger), ctx.vault@, ctx.authority@, amount),
        r is Err ==> *final(ledger) == *old(ledger),
        amount == 0 ==> r == Err::<(), TipError>(TipError::InvalidAmount),
        amount > 0 && !store.has(ctx.vault@) ==> r == Err::<(), TipError>(TipError::NotFound),
        amount > 0 && store.has(ctx.vault@) && !verify_spec(
            ctx.vault@,
            store.vault_at(ctx.vault@).authority@,
            store.vault_at(ctx.vault@).bump,
        ) ==> r == Err::<(), TipError>(TipError::AddressMismatch),
        amount > 0 && store.has(ctx.vault@) && verify_spec(
            ctx.vault@,
            store.vault_at(ctx.vault@).authority@,
            store.vault_at(ctx.vault@).bump,
        ) && ctx.authority@ != store.vault_at(ctx.vault@).authority@ ==> r == Err::<(), TipError>(
            TipError::Unauthorized,
        ),
        amount > 0 && store.has(ctx.vault@) && verify_spec(
            ctx.vault@,
            store.vault_at(ctx.vault@).authority@,
            store.vault_at(ctx.vault@).bump,
        ) && ctx.authority@ == store.vault_at(ctx.vault@).authority@ && old(ledger).bal(ctx.vault@)
            < amount ==> r == Err::<(), TipError>(TipError::InsufficientFunds),
        r is Ok ==> ({
            &&& final(ledger).total_issued() == old(ledger).total_issued()
            &&& forall|a: Seq<u8>|
                final(ledger).bal(a) as int == old(ledger).bal(a) - (if a == ctx.vault@ {
                    amount as int
                } else {
                    0
                }) + (if a == ctx.authority@ {
                    amount as int
                } else {
                    0
                })
        }),
{
    if amount == 0 {
        return Err(TipError::InvalidAmount);
    }
    let vault = match store.load(&ctx.vault) {
        Ok(v) => v,
        Err(e) => {
            return Err(e);
        },
    };
    if !crate::addr::verify(&ctx.vault, &vault.authority, vault.bump) {
        return Err(TipError::AddressMismatch);
    }
    if !bytes_eq(&ctx.authority, &vault.authority) {
        return Err(TipError::Unauthorized);
    }
    if ledger.balance_of(&ctx.vault) < amount {
        return Err(TipError::InsufficientFunds);
    }
    match ledger.transfer(&ctx.vault, &ctx.authority, amount) {
        Ok(()) => Ok(()),
        Err(_) => unreached(),
    }
}

/// The sum of a sequence of amounts, as an unbounded integer.
pub open spec fn sum64(s: Seq<u64>) -> int
    decreases s.len(),
{
    if s.len() == 0 {
        0
    } else {
        sum64(s.drop_last()) + s.last()
    }
}

/// Runs the tips `(tippers[k], amounts[k])` against one vault, in order,
/// stopping at the first rejection. Law: after a sequence of successful
/// tips with amounts `a1..an`, the vault's cumulative counter and the
/// vault's balance have each grown by exactly `Σ ai` (the tippers here are
/// outside parties, not the vault's own address, so nothing flows out of
/// the vault).
pub fn tip_sequence(
    store: &mut VaultStore,
    ledger: &mut Ledger,
    vault: &Vec<u8>,
    tippers: &Vec<Vec<u8>>,
    amounts: &Vec<u64>,
) -> (r: Result<(), TipError>)
    requires
        old(store).wf(),
        old(ledger).wf(),
        tippers@.len() == amounts@.len(),
        forall|i: int| 0 <= i < tippers@.len() ==> tippers@[i]@ != vault@,
    ensures
        final(store).wf(),
        final(ledger).wf(),
        r is Ok && old(store).has(vault@) ==> ({
            &&& final(store).has(vault@)
            &&& final(store).vault_at(vault@).authority@ == old(store).vault_at(vault@).authority@
            &&& final(store).vault_at(vault@).bump == old(store).vault_at(vault@).bump
            &&& final(store).vault_at(vault@).total_tips == old(store).vault_at(
                vault@,
            ).total_tips + sum64(amounts@)
            &&& final(ledger).bal(vault@) == old(ledger).bal(vault@) + sum64(amounts@)
        }),
{
    let mut k: usize = 0;
    while k < amounts.len()
        invariant
            store.wf(),
            ledger.wf(),
            tippers@.len() == amounts@.len(),
            k <= amounts@.len(),
            forall|i: int| 0 <= i < tippers@.len() ==> tippers@[i]@ != vault@,
            store.has(vault@) == old(store).has(vault@),
            old(store).has(vault@) ==> ({
                &&& store.vault_at(vault@).authority@ == old(store).vault_at(vault@).authority@
                &&& store.vault_at(vault@).bump == old(store).vault_at(vault@).bump
                &&& store.vault_at(vault@).total_tips == old(store).vault_at(vault@).total_tips
                    + sum64(amounts@.take(k as int))
                &&& ledger.bal(vault@) == old(ledger).bal(vault@) + sum64(amounts@.take(k as int))
            }),
        decreases amounts@.len() - k,
    {
        let t = Tip { vault: clone_bytes(vault), tipper: clone_bytes(&tippers[k]) };
        match tip(store, ledger, &t, amounts[k]) {
            Ok(()) => {
                proof {
                    assert(amounts@.take(k + 1 as int).drop_last() =~= amounts@.take(k as int));
                    assert(amounts@.take(k + 1 as int).last() == amounts@[k as int]);
                }
                k += 1;
            },
            Err(e) => {
                return Err(e);
            },
        }
    }
    proof {
        assert(amounts@.take(amounts@.len() as int) =~= amounts@);
    }
    Ok(())
}

} // verus!
