//! The persisted vault record.
//!
//! One record exists per owner. It binds the owner identity to the derived
//! address through the stored proof byte, and carries the cumulative tip
//! counter. The spendable balance is not stored here: the external ledger
//! holds it, keyed by the vault's derived address.
//!
//! A record persists as 49 fixed-width bytes: an 8-byte leading tag that
//! versions the layout, the 32-byte owner, the proof byte, and the counter
//! as 8 little-endian bytes. `encode_record` and `decode_record` are exact
//! inverses of one another.
use vstd::prelude::*;
use vstd::bytes::lemma_auto_spec_u64_to_from_le_bytes;
use vstd::bytes::spec_u64_to_le_bytes;
use vstd::bytes::u64_from_le_bytes;
use vstd::bytes::u64_to_le_bytes;

verus! {

use crate::clone_bytes;
use crate::bytes_eq;
use crate::sub_bytes;

/// A vault record: the owner identity (set once at creation), the proof
/// byte of the address derivation, and the lifetime sum of all amounts ever
/// successfully tipped. `total_tips` never decreases; withdrawals do not
/// touch it.
pub struct Vault {
    /// The identity that created the vault and alone may withdraw from it.
    pub authority: Vec<u8>,
    /// Which derivation attempt produced the vault's address; needed to
    /// re-verify the address deterministically on every access.
    pub bump: u8,
    /// Cumulative counter of successfully deposited amounts.
    pub total_tips: u64,
}

impl Vault {
    /// A fresh record holding the same values.
    pub fn duplicate(&self) -> (r: Vault)
        ensures
            r.authority@ == self.authority@,
            r.bump == self.bump,
            r.total_tips == self.total_tips,
    {
        Vault {
            authority: clone_bytes(&self.authority),
            bump: self.bump,
            total_tips: self.total_tips,
        }
    }
}

/// The leading layout tag: the bytes of "tipvault".
pub open spec fn record_tag() -> Seq<u8> {
    seq![116u8, 105u8, 112u8, 118u8, 97u8, 117u8, 108u8, 116u8]
}

/// The persisted form of a record:
/// `tag (8) | owner (32) | proof (1) | counter (8, little-endian)`.
pub open spec fn record_bytes(v: Vault) -> Seq<u8> {
    record_tag() + v.authority@ + seq![v.bump] + spec_u64_to_le_bytes(v.total_tips)
}

/// Whether a byte string is a well-formed persisted record: exactly 49
/// bytes under the expected leading tag.
pub open spec fn valid_record(b: Seq<u8>) -> bool {
    b.len() == 49 && b.subrange(0, 8) == record_tag()
}

/// The layout tag as a byte vector.
pub fn record_tag_bytes() -> (r: Vec<u8>)
    ensures
        r@ == record_tag(),
{
    let mut v: Vec<u8> = Vec::new();
    v.push(116);
    v.push(105);
    v.push(112);
    v.push(118);
    v.push(97);
    v.push(117);
    v.push(108);
    v.push(116);
    proof {
        assert(v@ =~= record_tag());
    }
    v
}

/// Serialises a record into its 49-byte persisted form.
pub fn encode_record(v: &Vault) -> (r: Vec<u8>)
    requires
        v.authority@.len() == 32,
    ensures
        r@ == record_bytes(*v),
        valid_record(r@),
{
    let mut r = record_tag_bytes();
    let mut auth = clone_bytes(&v.authority);
    r.append(&mut auth);
    r.push(v.bump);
    let mut counter = u64_to_le_bytes(v.total_tips);
    r.append(&mut counter);
    proof {
        assert(r@ =~= record_bytes(*v));
        assert(r@.subrange(0, 8) =~= record_tag());
    }
    r
}

/// Parses a 49-byte persisted form back into the record; `None` exactly on
/// byte strings that are not a well-formed record.
pub fn decode_record(bytes: &Vec<u8>) -> (r: Option<Vault>)
    ensures
        r is Some <==> valid_record(bytes@),
        r matches Some(v) ==> v.authority@.len() == 32 && bytes@ == record_bytes(v),
{
    if bytes.len() != 49 {
        return None;
    }
    let tag = sub_bytes(bytes, 0, 8);
    let expected = record_tag_bytes();
    if !bytes_eq(&tag, &expected) {
        return None;
    }
    let authority = sub_bytes(bytes, 8, 40);
    let bump = bytes[40];
    let counter_bytes = sub_bytes(bytes, 41, 49);
    let total_tips = u64_from_le_bytes(counter_bytes.as_slice());
    let v = Vault { authority, bump, total_tips };
    proof {
        lemma_auto_spec_u64_to_from_le_bytes();
        assert(spec_u64_to_le_bytes(total_tips) == bytes@.subrange(41, 49));
        assert(record_bytes(v) =~= bytes@);
    }
    Some(v)
}

/// Law: the persisted form is unambiguous — two records with the same
/// bytes hold the same owner, proof byte and counter, so decoding an
/// encoded record gives back exactly what was encoded.
pub proof fn lemma_record_bytes_injective(v1: Vault, v2: Vault)
    requires
        v1.authority@.len() == 32,
        v2.authority@.len() == 32,
        record_bytes(v1) == record_bytes(v2),
    ensures
        v1.authority@ == v2.authority@,
        v1.bump == v2.bump,
        v1.total_tips == v2.total_tips,
{
    lemma_auto_spec_u64_to_from_le_bytes();
    assert(record_bytes(v1).subrange(8, 40) =~= v1.authority@);
    assert(record_bytes(v2).subrange(8, 40) =~= v2.authority@);
    assert(record_bytes(v1)[40] == v1.bump);
    assert(record_bytes(v2)[40] == v2.bump);
    assert(record_bytes(v1).subrange(41, 49) =~= spec_u64_to_le_bytes(v1.total_tips));
    assert(record_bytes(v2).subrange(41, 49) =~= spec_u64_to_le_bytes(v2.total_tips));
    assert(spec_u64_to_le_bytes(v1.total_tips) == spec_u64_to_le_bytes(v2.total_tips));
}

} // verus!
