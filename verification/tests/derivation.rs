use tip_jar::addr::verify;

#[test]
fn derive_is_stable_across_repeated_calls() {
    let owner = vec![7u8; 32];
    let (a1, b1) = tip_jar::addr::derive(&owner).expect("derivation should find a proof byte");
    let (a2, b2) = tip_jar::addr::derive(&owner).expect("derivation should find a proof byte");
    assert_eq!(a1, a2);
    assert_eq!(b1, b2);
}

#[test]
fn derive_distinct_owners_distinct_addresses() {
    let owner_a = vec![1u8; 32];
    let owner_b = vec![2u8; 32];
    let (addr_a, _) = tip_jar::addr::derive(&owner_a).unwrap();
    let (addr_b, _) = tip_jar::addr::derive(&owner_b).unwrap();
    assert_ne!(addr_a, addr_b);
}

#[test]
fn derive_hashes_rather_than_copies() {
    let owner = vec![3u8; 32];
    let (addr, _) = tip_jar::addr::derive(&owner).unwrap();
    assert_eq!(addr.len(), 32);
    assert_ne!(addr, owner);
}

#[test]
fn verify_accepts_the_derived_address() {
    let owner = vec![4u8; 32];
    let (addr, bump) = tip_jar::addr::derive(&owner).unwrap();
    assert!(verify(&addr, &owner, bump));
}

#[test]
fn verify_rejects_a_wrong_address() {
    let owner = vec![5u8; 32];
    let (_, bump) = tip_jar::addr::derive(&owner).unwrap();
    let wrong = vec![9u8; 32];
    assert!(!verify(&wrong, &owner, bump));
}

#[test]
fn verify_rejects_a_wrong_owner() {
    let owner = vec![6u8; 32];
    let other = vec![7u8; 32];
    let (addr, bump) = tip_jar::addr::derive(&owner).unwrap();
    assert!(!verify(&addr, &other, bump));
}

#[test]
fn verify_rejects_a_wrong_proof_byte() {
    let owner = vec![8u8; 32];
    let (addr, bump) = tip_jar::addr::derive(&owner).unwrap();
    let wrong_bump = if bump == 255 { 254 } else { 255 };
    assert!(!verify(&addr, &owner, wrong_bump));
}
