use note_app::addressing::{
    address_eq, address_seed, identity_eq, note_address, profile_address, record_location,
    u64_le_bytes, Identity,
};

fn ident(tag: u8) -> Identity {
    Identity { bytes: [tag; 32] }
}

#[test]
fn le_bytes_exact_value() {
    assert_eq!(
        u64_le_bytes(0x0102030405060708),
        vec![0x08, 0x07, 0x06, 0x05, 0x04, 0x03, 0x02, 0x01]
    );
    assert_eq!(u64_le_bytes(0), vec![0; 8]);
    assert_eq!(u64_le_bytes(u64::MAX), vec![0xff; 8]);
}

#[test]
fn identity_eq_compares_bytes() {
    assert!(identity_eq(&ident(1), &ident(1)));
    assert!(!identity_eq(&ident(1), &ident(2)));
    let mut almost = ident(1);
    almost.bytes[31] = 9;
    assert!(!identity_eq(&ident(1), &almost));
}

#[test]
fn profile_seed_is_tag_then_owner() {
    let owner = ident(5);
    let seed = address_seed(&profile_address(&owner));
    let mut expected = b"user_profile".to_vec();
    expected.extend_from_slice(&owner.bytes);
    assert_eq!(seed, expected);
}

#[test]
fn note_seed_is_tag_owner_then_le_number() {
    let owner = ident(5);
    let seed = address_seed(&note_address(&owner, 258));
    let mut expected = b"note".to_vec();
    expected.extend_from_slice(&owner.bytes);
    expected.extend_from_slice(&[2, 1, 0, 0, 0, 0, 0, 0]);
    assert_eq!(seed, expected);
}

#[test]
fn seeds_never_collide_across_a_sample() {
    let mut seeds: Vec<Vec<u8>> = Vec::new();
    for owner_tag in 0u8..8 {
        let owner = ident(owner_tag);
        seeds.push(address_seed(&profile_address(&owner)));
        for id in [1u64, 2, 3, 0xffff, u64::MAX] {
            seeds.push(address_seed(&note_address(&owner, id)));
        }
    }
    for i in 0..seeds.len() {
        for j in (i + 1)..seeds.len() {
            assert_ne!(seeds[i], seeds[j]);
        }
    }
}

#[test]
fn address_eq_distinguishes_kind_owner_and_number() {
    let a = ident(1);
    let b = ident(2);
    assert!(address_eq(&profile_address(&a), &profile_address(&a)));
    assert!(!address_eq(&profile_address(&a), &profile_address(&b)));
    assert!(!address_eq(&profile_address(&a), &note_address(&a, 1)));
    assert!(address_eq(&note_address(&a, 1), &note_address(&a, 1)));
    assert!(!address_eq(&note_address(&a, 1), &note_address(&a, 2)));
    assert!(!address_eq(&note_address(&a, 1), &note_address(&b, 1)));
}

#[test]
fn record_location_is_deterministic_and_separates_records() {
    let program = [11u8; 32];
    let owner = ident(1);
    let profile_loc = record_location(&profile_address(&owner), &program).unwrap();
    let again = record_location(&profile_address(&owner), &program).unwrap();
    assert_eq!(profile_loc, again);
    let note_loc = record_location(&note_address(&owner, 1), &program).unwrap();
    let other_note_loc = record_location(&note_address(&owner, 2), &program).unwrap();
    assert_ne!(profile_loc.0, note_loc.0);
    assert_ne!(note_loc.0, other_note_loc.0);
    // The derivation really hashes: the location is none of its inputs.
    assert_ne!(profile_loc.0, owner.bytes);
    assert_ne!(profile_loc.0, program);
}
