use tip_jar::TipError;
use tip_jar::ledger::Ledger;
use tip_jar::processor::initialize;
use tip_jar::processor::tip;
use tip_jar::processor::tip_sequence;
use tip_jar::processor::withdraw;
use tip_jar::processor::Initialize;
use tip_jar::processor::Tip;
use tip_jar::processor::Withdraw;
use tip_jar::store::VaultStore;
use tip_jar::vault::Vault;

#[test]
fn end_to_end_initialize_tip_tip_withdraw() {
    let mut store = VaultStore::new();
    let mut ledger = Ledger::new();
    let owner = vec![1u8; 32];
    let tipper1 = vec![2u8; 32];
    let tipper2 = vec![3u8; 32];
    ledger.credit(&tipper1, 1_000).unwrap();
    ledger.credit(&tipper2, 1_000).unwrap();

    let addr = initialize(&mut store, &mut ledger, &Initialize { authority: owner.clone() })
        .unwrap();
    assert_eq!(ledger.balance_of(&addr), 0);

    let t1 = Tip { vault: addr.clone(), tipper: tipper1.clone() };
    tip(&mut store, &mut ledger, &t1, 100).unwrap();
    assert_eq!(ledger.balance_of(&addr), 100);
    assert_eq!(store.load(&addr).unwrap().total_tips, 100);

    let t2 = Tip { vault: addr.clone(), tipper: tipper2.clone() };
    tip(&mut store, &mut ledger, &t2, 50).unwrap();
    assert_eq!(ledger.balance_of(&addr), 150);
    assert_eq!(store.load(&addr).unwrap().total_tips, 150);

    let w = Withdraw { vault: addr.clone(), authority: owner.clone() };
    withdraw(&store, &mut ledger, &w, 120).unwrap();
    assert_eq!(ledger.balance_of(&addr), 30);
    assert_eq!(ledger.balance_of(&owner), 120);
    assert_eq!(store.load(&addr).unwrap().total_tips, 150);

    assert_eq!(withdraw(&store, &mut ledger, &w, 50), Err(TipError::InsufficientFunds));
    assert_eq!(ledger.balance_of(&addr), 30);
    assert_eq!(ledger.balance_of(&owner), 120);
}

#[test]
fn initialize_twice_fails_and_preserves_the_first_vault() {
    let mut store = VaultStore::new();
    let mut ledger = Ledger::new();
    let owner = vec![4u8; 32];
    let tipper = vec![5u8; 32];
    ledger.credit(&tipper, 10).unwrap();

    let addr = initialize(&mut store, &mut ledger, &Initialize { authority: owner.clone() })
        .unwrap();
    let t = Tip { vault: addr.clone(), tipper: tipper.clone() };
    tip(&mut store, &mut ledger, &t, 7).unwrap();

    let again = initialize(&mut store, &mut ledger, &Initialize { authority: owner.clone() });
    assert_eq!(again, Err(TipError::AlreadyInitialized));

    let vault = store.load(&addr).unwrap();
    assert_eq!(vault.authority, owner);
    assert_eq!(vault.total_tips, 7);
    assert_eq!(ledger.balance_of(&addr), 7);
}

#[test]
fn tip_of_zero_is_invalid_and_changes_nothing() {
    let mut store = VaultStore::new();
    let mut ledger = Ledger::new();
    let owner = vec![6u8; 32];
    let tipper = vec![7u8; 32];
    ledger.credit(&tipper, 100).unwrap();
    let addr = initialize(&mut store, &mut ledger, &Initialize { authority: owner.clone() })
        .unwrap();

    let t = Tip { vault: addr.clone(), tipper: tipper.clone() };
    assert_eq!(tip(&mut store, &mut ledger, &t, 0), Err(TipError::InvalidAmount));
    assert_eq!(store.load(&addr).unwrap().total_tips, 0);
    assert_eq!(ledger.balance_of(&addr), 0);
    assert_eq!(ledger.balance_of(&tipper), 100);
}

#[test]
fn withdraw_by_non_owner_is_unauthorized_and_changes_nothing() {
    let mut store = VaultStore::new();
    let mut ledger = Ledger::new();
    let owner = vec![8u8; 32];
    let intruder = vec![9u8; 32];
    let tipper = vec![10u8; 32];
    ledger.credit(&tipper, 100).unwrap();
    let addr = initialize(&mut store, &mut ledger, &Initialize { authority: owner.clone() })
        .unwrap();
    let t = Tip { vault: addr.clone(), tipper: tipper.clone() };
    tip(&mut store, &mut ledger, &t, 60).unwrap();

    let w = Withdraw { vault: addr.clone(), authority: intruder.clone() };
    assert_eq!(withdraw(&store, &mut ledger, &w, 10), Err(TipError::Unauthorized));
    assert_eq!(ledger.balance_of(&addr), 60);
    assert_eq!(ledger.balance_of(&intruder), 0);
}

#[test]
fn withdraw_beyond_balance_is_insufficient_and_changes_nothing() {
    let mut store = VaultStore::new();
    let mut ledger = Ledger::new();
    let owner = vec![11u8; 32];
    let tipper = vec![12u8; 32];
    ledger.credit(&tipper, 100).unwrap();
    let addr = initialize(&mut store, &mut ledger, &Initialize { authority: owner.clone() })
        .unwrap();
    let t = Tip { vault: addr.clone(), tipper: tipper.clone() };
    tip(&mut store, &mut ledger, &t, 40).unwrap();

    let w = Withdraw { vault: addr.clone(), authority: owner.clone() };
    assert_eq!(withdraw(&store, &mut ledger, &w, 41), Err(TipError::InsufficientFunds));
    assert_eq!(ledger.balance_of(&addr), 40);
    assert_eq!(ledger.balance_of(&owner), 0);
}

#[test]
fn withdraw_of_zero_is_invalid() {
    let mut store = VaultStore::new();
    let mut ledger = Ledger::new();
    let owner = vec![13u8; 32];
    let addr = initialize(&mut store, &mut ledger, &Initialize { authority: owner.clone() })
        .unwrap();
    let w = Withdraw { vault: addr.clone(), authority: owner.clone() };
    assert_eq!(withdraw(&store, &mut ledger, &w, 0), Err(TipError::InvalidAmount));
}

#[test]
fn tip_to_an_unknown_address_is_not_found() {
    let mut store = VaultStore::new();
    let mut ledger = Ledger::new();
    let tipper = vec![14u8; 32];
    ledger.credit(&tipper, 100).unwrap();
    let t = Tip { vault: vec![15u8; 32], tipper: tipper.clone() };
    assert_eq!(tip(&mut store, &mut ledger, &t, 10), Err(TipError::NotFound));
}

#[test]
fn withdraw_from_an_unknown_address_is_not_found() {
    let store = VaultStore::new();
    let mut ledger = Ledger::new();
    let w = Withdraw { vault: vec![16u8; 32], authority: vec![17u8; 32] };
    assert_eq!(withdraw(&store, &mut ledger, &w, 10), Err(TipError::NotFound));
}

#[test]
fn tip_against_a_forged_record_is_an_address_mismatch() {
    let mut store = VaultStore::new();
    let mut ledger = Ledger::new();
    let owner = vec![18u8; 32];
    let tipper = vec![19u8; 32];
    ledger.credit(&tipper, 100).unwrap();

    // a record installed at an address that no derivation for its owner yields
    let forged = vec![20u8; 32];
    store.put(&forged, Vault { authority: owner.clone(), bump: 7, total_tips: 0 }).unwrap();

    let t = Tip { vault: forged.clone(), tipper: tipper.clone() };
    assert_eq!(tip(&mut store, &mut ledger, &t, 10), Err(TipError::AddressMismatch));
    assert_eq!(ledger.balance_of(&tipper), 100);
}

#[test]
fn tip_from_a_poor_tipper_is_insufficient() {
    let mut store = VaultStore::new();
    let mut ledger = Ledger::new();
    let owner = vec![21u8; 32];
    let tipper = vec![22u8; 32];
    ledger.credit(&tipper, 9).unwrap();
    let addr = initialize(&mut store, &mut ledger, &Initialize { authority: owner.clone() })
        .unwrap();
    let t = Tip { vault: addr.clone(), tipper: tipper.clone() };
    assert_eq!(tip(&mut store, &mut ledger, &t, 10), Err(TipError::InsufficientFunds));
    assert_eq!(ledger.balance_of(&tipper), 9);
    assert_eq!(ledger.balance_of(&addr), 0);
    assert_eq!(store.load(&addr).unwrap().total_tips, 0);
}

#[test]
fn a_sequence_of_tips_accumulates_the_sum() {
    let mut store = VaultStore::new();
    let mut ledger = Ledger::new();
    let owner = vec![23u8; 32];
    let tipper1 = vec![24u8; 32];
    let tipper2 = vec![25u8; 32];
    ledger.credit(&tipper1, 100).unwrap();
    ledger.credit(&tipper2, 100).unwrap();
    let addr = initialize(&mut store, &mut ledger, &Initialize { authority: owner.clone() })
        .unwrap();

    let tippers = vec![tipper1.clone(), tipper2.clone(), tipper1.clone()];
    let amounts = vec![10u64, 20u64, 30u64];
    tip_sequence(&mut store, &mut ledger, &addr, &tippers, &amounts).unwrap();
    assert_eq!(store.load(&addr).unwrap().total_tips, 60);
    assert_eq!(ledger.balance_of(&addr), 60);
    assert_eq!(ledger.balance_of(&tipper1), 60);
    assert_eq!(ledger.balance_of(&tipper2), 80);
}
