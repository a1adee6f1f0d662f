//! Deterministic vault address derivation.
//!
//! A vault's address is a pure function of the owner identity and a fixed
//! domain-separation tag, disambiguated by a one-byte proof value (the
//! "bump"): the derivation hashes the tag, the owner, the bump and the
//! program identity, and a bounded search from the highest bump downward
//! picks the first value whose hash is a usable (off-curve) address.
//! `derive` performs the search; `verify` re-checks a claimed address
//! against an owner and a proof byte before any record at it is trusted.
use vstd::prelude::*;
use anchor_lang::solana_program::pubkey::Pubkey;

verus! {

use crate::bytes_eq;

/// The address that the hash-based derivation yields for the seed list
/// `[tag, owner, [bump]]` under the given program identity, or `None` where
/// the derivation fails (over-long seed, or a hash that is unusable as a
/// program address). Uninterpreted: the hash itself is computed by the
/// outside crate and only named here.
pub uninterp spec fn pda_of(tag: Seq<u8>, owner: Seq<u8>, bump: u8, program: Seq<u8>) -> Option<
    Seq<u8>,
>;

/// Relies on `Pubkey::create_program_address` (anchor_lang's re-exported
/// solana address type): the result is the sha-256 digest of the seeds, the
/// program id and a fixed marker — a pure function of the arguments alone —
/// and it is an `Err` exactly where a seed exceeds the length bound or the
/// digest lands on the ed25519 curve, which is likewise determined by the
/// arguments. Addresses are 32 bytes.
#[verifier::external_body]
fn create_pda(tag: &Vec<u8>, owner: &Vec<u8>, bump: u8, program: &Vec<u8>) -> (r: Option<Vec<u8>>)
    ensures
        r is Some <==> pda_of(tag@, owner@, bump, program@) is Some,
        r matches Some(a) ==> pda_of(tag@, owner@, bump, program@) == Some(a@) && a@.len() == 32,
{
    let prog: [u8; 32] = match program.as_slice().try_into() {
        Ok(p) => p,
        Err(_) => {
            return None;
        },
    };
    let bump_seed: [u8; 1] = [bump];
    let seeds: [&[u8]; 3] = [tag.as_slice(), owner.as_slice(), &bump_seed];
    match Pubkey::create_program_address(&seeds, &Pubkey::new_from_array(prog)) {
        Ok(address) => Some(address.to_bytes().to_vec()),
        Err(_) => None,
    }
}

/// The fixed domain-separation tag: the bytes of "vault".
pub open spec fn vault_tag() -> Seq<u8> {
    seq![118u8, 97u8, 117u8, 108u8, 116u8]
}

/// The identity of this program, as 32 raw bytes; part of every derivation,
/// so that two programs never share a vault address.
pub open spec fn program_id() -> Seq<u8> {
    seq![
        241u8, 186u8, 38u8, 32u8, 228u8, 142u8, 162u8, 72u8, 178u8, 147u8, 134u8, 194u8, 250u8,
        58u8, 234u8, 161u8, 42u8, 72u8, 178u8, 183u8, 54u8, 60u8, 14u8, 127u8, 163u8, 93u8, 25u8,
        65u8, 121u8, 246u8, 163u8, 248u8,
    ]
}

/// The domain tag as a byte vector.
pub fn vault_tag_bytes() -> (r: Vec<u8>)
    ensures
        r@ == vault_tag(),
{
    let mut v: Vec<u8> = Vec::new();
    v.push(118);
    v.push(97);
    v.push(117);
    v.push(108);
    v.push(116);
    proof {
        assert(v@ =~= vault_tag());
    }
    v
}

/// The program identity as a byte vector.
pub fn program_id_bytes() -> (r: Vec<u8>)
    ensures
        r@ == program_id(),
{
    let mut v: Vec<u8> = Vec::new();
    v.push(241);
    v.push(186);
    v.push(38);
    v.push(32);
    v.push(228);
    v.push(142);
    v.push(162);
    v.push(72);
    v.push(178);
    v.push(147);
    v.push(134);
    v.push(194);
    v.push(250);
    v.push(58);
    v.push(234);
    v.push(161);
    v.push(42);
    v.push(72);
    v.push(178);
    v.push(183);
    v.push(54);
    v.push(60);
    v.push(14);
    v.push(127);
    v.push(163);
    v.push(93);
    v.push(25);
    v.push(65);
    v.push(121);
    v.push(246);
    v.push(163);
    v.push(248);
    proof {
        assert(v@ =~= program_id());
    }
    v
}

/// The bounded search, read from bump `b` downward: the first bump at or
/// below `b` whose derivation succeeds, with its address. Proof byte zero
/// is never used, matching the address search convention of the host chain.
pub open spec fn find_bump_from(owner: Seq<u8>, b: int) -> Option<(Seq<u8>, u8)>
    decreases b,
{
    if b < 1 {
        None
    } else if pda_of(vault_tag(), owner, b as u8, program_id()) is Some {
        Some((pda_of(vault_tag(), owner, b as u8, program_id())->0, b as u8))
    } else {
        find_bump_from(owner, b - 1)
    }
}

/// The derived vault address and proof byte of an owner: the search started
/// from the highest bump value.
pub open spec fn derive_spec(owner: Seq<u8>) -> Option<(Seq<u8>, u8)> {
    find_bump_from(owner, 255)
}

/// Whether some address can be derived for this owner at all.
pub open spec fn derivable(owner: Seq<u8>) -> bool {
    derive_spec(owner) is Some
}

/// The derived address of an owner (meaningful where `derivable` holds).
pub open spec fn derived_address(owner: Seq<u8>) -> Seq<u8> {
    (derive_spec(owner)->0).0
}

/// The derived proof byte of an owner (meaningful where `derivable` holds).
pub open spec fn derived_bump(owner: Seq<u8>) -> u8 {
    (derive_spec(owner)->0).1
}

/// An address verifies for an owner and a proof byte exactly when the
/// derivation at that proof byte yields that address.
pub open spec fn verify_spec(address: Seq<u8>, owner: Seq<u8>, bump: u8) -> bool {
    pda_of(vault_tag(), owner, bump, program_id()) == Some(address)
}

/// Derives the vault address of an owner together with the proof byte that
/// made it valid. Pure: the result is a function of the owner alone, so
/// repeated calls agree. `None` only where no bump yields a usable address.
pub fn derive(owner: &Vec<u8>) -> (r: Option<(Vec<u8>, u8)>)
    ensures
        r is Some <==> derivable(owner@),
        r matches Some(p) ==> derive_spec(owner@) == Some((p.0@, p.1)) && p.0@.len() == 32,
{
    let tag = vault_tag_bytes();
    let prog = program_id_bytes();
    let mut b: u8 = 255;
    loop
        invariant
            1 <= b <= 255,
            tag@ == vault_tag(),
            prog@ == program_id(),
            derive_spec(owner@) == find_bump_from(owner@, b as int),
        decreases b,
    {
        match create_pda(&tag, owner, b, &prog) {
            Some(a) => {
                return Some((a, b));
            },
            None => {
                if b == 1 {
                    assert(find_bump_from(owner@, 0) is None);
                    return None;
                }
                b = b - 1;
            },
        }
    }
}

/// Recomputes the derivation and confirms that `address` is the vault
/// address of `owner` under proof byte `bump`. Never fails any other way:
/// a mismatch simply returns false.
pub fn verify(address: &Vec<u8>, owner: &Vec<u8>, bump: u8) -> (r: bool)
    ensures
        r == verify_spec(address@, owner@, bump),
{
    let tag = vault_tag_bytes();
    let prog = program_id_bytes();
    match create_pda(&tag, owner, bump, &prog) {
        Some(a) => bytes_eq(&a, address),
        None => false,
    }
}

/// The derived address re-verifies under its own proof byte: whoever holds
/// the owner and the stored bump can deterministically re-check the record's
/// address on every access.
pub proof fn lemma_derive_verifies(owner: Seq<u8>, address: Seq<u8>, bump: u8)
    requires
        derive_spec(owner) == Some((address, bump)),
    ensures
        verify_spec(address, owner, bump),
{
    lemma_find_bump_verifies(owner, 255, address, bump);
}

proof fn lemma_find_bump_verifies(owner: Seq<u8>, b: int, address: Seq<u8>, bump: u8)
    requires
        find_bump_from(owner, b) == Some((address, bump)),
    ensures
        pda_of(vault_tag(), owner, bump, program_id()) == Some(address),
    decreases b,
{
    if b < 1 {
        // impossible: the search returned nothing
    } else if pda_of(vault_tag(), owner, b as u8, program_id()) is Some {
        // the search stopped here, so bump == b and the address is the hash
    } else {
        lemma_find_bump_verifies(owner, b - 1, address, bump);
    }
}

/// For one owner and one proof byte there is at most one address that
/// verifies: the same owner always derives the same address, given the
/// correct proof byte.
pub proof fn lemma_verify_unique(a1: Seq<u8>, a2: Seq<u8>, owner: Seq<u8>, bump: u8)
    requires
        verify_spec(a1, owner, bump),
        verify_spec(a2, owner, bump),
    ensures
        a1 == a2,
{
}

} // verus!
