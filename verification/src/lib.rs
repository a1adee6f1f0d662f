//! On-chain state-transition logic for a custodial tip vault: a per-owner
//! account, stored at a deterministically derived address, that collects
//! deposits ("tips") from arbitrary contributors and releases funds only to
//! the owner who created it.
//!
//! The crate is organised around three pieces: address derivation
//! ([`addr`]), the persisted vault records ([`vault`], [`store`]) together
//! with the external ledger of balances ([`ledger`]), and the three entry
//! operations — initialize, tip, withdraw — in [`processor`].
use vstd::prelude::*;

pub mod addr;
pub mod ledger;
pub mod processor;
pub mod store;
pub mod vault;

verus! {

/// Every way an operation can be rejected. A rejected operation leaves no
/// observable state change behind.
#[derive(Clone, Copy, Debug, PartialEq, Eq, Structural)]
pub enum TipError {
    /// A zero amount was supplied to a tip or a withdrawal.
    InvalidAmount,
    /// A withdrawal was attempted by an identity other than the vault's owner.
    Unauthorized,
    /// A transfer asked for more than the paying account holds.
    InsufficientFunds,
    /// The cumulative tip counter would leave the 64-bit range.
    MathOverflow,
    /// A supplied address does not match the deterministic derivation for the
    /// claimed owner, or no address can be derived for the owner at all.
    AddressMismatch,
    /// A vault record already exists at the derived address.
    AlreadyInitialized,
    /// No vault record exists at the supplied address.
    NotFound,
}

/// Byte-wise equality of two byte vectors.
pub fn bytes_eq(a: &Vec<u8>, b: &Vec<u8>) -> (r: bool)
    ensures
        r == (a@ == b@),
{
    if a.len() != b.len() {
        assert(a@ != b@);
        return false;
    }
    let mut i: usize = 0;
    while i < a.len()
        invariant
            i <= a.len(),
            a.len() == b.len(),
            forall|j: int| 0 <= j < i ==> a@[j] == b@[j],
        decreases a.len() - i,
    {
        if a[i] != b[i] {
            assert(a@ != b@);
            return false;
        }
        i += 1;
    }
    assert(a@ =~= b@);
    true
}

/// A fresh byte vector holding the same bytes.
pub fn clone_bytes(a: &Vec<u8>) -> (r: Vec<u8>)
    ensures
        r@ == a@,
{
    let mut r: Vec<u8> = Vec::new();
    let mut i: usize = 0;
    while i < a.len()
        invariant
            i <= a.len(),
            r@ == a@.take(i as int),
        decreases a.len() - i,
    {
        r.push(a[i]);
        proof {
            assert(a@.take(i as int).push(a@[i as int]) =~= a@.take(i + 1 as int));
        }
        i += 1;
    }
    proof {
        assert(a@.take(a.len() as int) =~= a@);
    }
    r
}

/// The bytes of `a` from `start` (inclusive) to `end` (exclusive), as a
/// fresh vector.
pub fn sub_bytes(a: &Vec<u8>, start: usize, end: usize) -> (r: Vec<u8>)
    requires
        start <= end <= a@.len(),
    ensures
        r@ == a@.subrange(start as int, end as int),
{
    let mut r: Vec<u8> = Vec::new();
    let mut i: usize = start;
    while i < end
        invariant
            start <= i <= end <= a@.len(),
            r@ == a@.subrange(start as int, i as int),
        decreases end - i,
    {
        r.push(a[i]);
        proof {
            assert(a@.subrange(start as int, i as int).push(a@[i as int]) =~= a@.subrange(
                start as int,
                i + 1 as int,
            ));
        }
        i += 1;
    }
    r
}

} // verus!
