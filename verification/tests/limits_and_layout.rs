use tip_jar::TipError;
use tip_jar::ledger::Ledger;
use tip_jar::processor::initialize;
use tip_jar::processor::tip;
use tip_jar::processor::withdraw;
use tip_jar::processor::Initialize;
use tip_jar::processor::Tip;
use tip_jar::processor::Withdraw;
use tip_jar::store::VaultStore;
use tip_jar::vault::decode_record;
use tip_jar::vault::encode_record;
use tip_jar::vault::Vault;

#[test]
fn counter_overflow_fails_and_rolls_the_transfer_back() {
    let mut store = VaultStore::new();
    let mut ledger = Ledger::new();
    let owner = vec![1u8; 32];
    let tipper = vec![2u8; 32];
    ledger.credit(&tipper, u64::MAX - 1).unwrap();
    let addr = initialize(&mut store, &mut ledger, &Initialize { authority: owner.clone() })
        .unwrap();

    // drive the lifetime counter to within 1 of the representable range
    let t = Tip { vault: addr.clone(), tipper: tipper.clone() };
    tip(&mut store, &mut ledger, &t, u64::MAX - 1).unwrap();
    assert_eq!(store.load(&addr).unwrap().total_tips, u64::MAX - 1);

    // recycle the funds: the counter keeps its lifetime value
    let w = Withdraw { vault: addr.clone(), authority: owner.clone() };
    withdraw(&store, &mut ledger, &w, u64::MAX - 1).unwrap();
    assert_eq!(ledger.balance_of(&owner), u64::MAX - 1);
    assert_eq!(store.load(&addr).unwrap().total_tips, u64::MAX - 1);

    // one more tip overflows the counter; the transfer is not applied
    let again = Tip { vault: addr.clone(), tipper: owner.clone() };
    assert_eq!(tip(&mut store, &mut ledger, &again, 2), Err(TipError::MathOverflow));
    assert_eq!(store.load(&addr).unwrap().total_tips, u64::MAX - 1);
    assert_eq!(ledger.balance_of(&owner), u64::MAX - 1);
    assert_eq!(ledger.balance_of(&addr), 0);
}

#[test]
fn credit_beyond_circulation_limit_overflows() {
    let mut ledger = Ledger::new();
    let account = vec![3u8; 32];
    ledger.credit(&account, u64::MAX).unwrap();
    assert_eq!(ledger.credit(&account, 1), Err(TipError::MathOverflow));
    assert_eq!(ledger.balance_of(&account), u64::MAX);
}

#[test]
fn balances_start_at_zero() {
    let ledger = Ledger::new();
    assert_eq!(ledger.balance_of(&vec![4u8; 32]), 0);
}

#[test]
fn record_encoding_round_trips() {
    let v = Vault { authority: vec![5u8; 32], bump: 254, total_tips: 123_456_789_012_345 };
    let bytes = encode_record(&v);
    assert_eq!(bytes.len(), 49);
    let back = decode_record(&bytes).unwrap();
    assert_eq!(back.authority, v.authority);
    assert_eq!(back.bump, v.bump);
    assert_eq!(back.total_tips, v.total_tips);
}

#[test]
fn record_layout_is_fixed_width() {
    let v = Vault { authority: vec![0u8; 32], bump: 0, total_tips: 1 };
    let bytes = encode_record(&v);
    // tag | owner | proof | counter, little-endian counter
    assert_eq!(&bytes[0..8], b"tipvault");
    assert_eq!(&bytes[8..40], &[0u8; 32]);
    assert_eq!(bytes[40], 0);
    assert_eq!(&bytes[41..49], &[1, 0, 0, 0, 0, 0, 0, 0]);
}

#[test]
fn decode_rejects_a_wrong_length() {
    assert!(decode_record(&vec![0u8; 48]).is_none());
    assert!(decode_record(&vec![0u8; 50]).is_none());
    assert!(decode_record(&Vec::new()).is_none());
}

#[test]
fn a_restored_record_at_its_true_address_accepts_tips() {
    let mut store = VaultStore::new();
    let mut ledger = Ledger::new();
    let owner = vec![7u8; 32];
    let addr = initialize(&mut store, &mut ledger, &Initialize { authority: owner.clone() })
        .unwrap();
    let bytes = encode_record(&store.load(&addr).unwrap());

    // a fresh world, as after a restart: the record comes back from bytes
    let mut store2 = VaultStore::new();
    let mut ledger2 = Ledger::new();
    let restored = decode_record(&bytes).unwrap();
    store2.put(&addr, restored).unwrap();

    let tipper = vec![8u8; 32];
    ledger2.credit(&tipper, 100).unwrap();
    let t = Tip { vault: addr.clone(), tipper: tipper.clone() };
    tip(&mut store2, &mut ledger2, &t, 25).unwrap();
    assert_eq!(store2.load(&addr).unwrap().total_tips, 25);
    assert_eq!(ledger2.balance_of(&addr), 25);
}

#[test]
fn decode_rejects_a_wrong_tag() {
    let v = Vault { authority: vec![6u8; 32], bump: 1, total_tips: 2 };
    let mut bytes = encode_record(&v);
    bytes[0] = b'x';
    assert!(decode_record(&bytes).is_none());
}
