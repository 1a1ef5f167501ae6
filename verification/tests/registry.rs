//! Lifecycle tests: mint, burn, counters and the id-based lookups.

use certify::identity::Identity;
use certify::state::CanisterState;
use certify::types::CanisterError;

fn ident(bytes: &[u8]) -> Identity {
    Identity::from_bytes(bytes.to_vec())
}

fn mint(
    state: &mut CanisterState,
    title: &str,
    holder: &[u8],
    holder_name: &str,
    issuer: &[u8],
    issuer_name: &str,
    now: u64,
) -> Result<u64, CanisterError> {
    state.mint_certificate(
        title.to_string(),
        "a description".to_string(),
        ident(holder),
        holder_name.to_string(),
        ident(issuer),
        issuer_name.to_string(),
        vec![1, 2, 3],
        now,
    )
}

#[test]
fn mint_assigns_ascending_ids() {
    let mut state = CanisterState::new(0);
    let a = mint(&mut state, "One", b"h1", "Alice", b"i1", "MIT", 10).unwrap();
    let b = mint(&mut state, "Two", b"h2", "Bob", b"i1", "MIT", 11).unwrap();
    let c = mint(&mut state, "Three", b"h1", "Alice", b"i2", "ETH", 12).unwrap();
    assert_eq!(a, 1);
    assert_eq!(b, 2);
    assert_eq!(c, 3);
    assert!(a < b && b < c);
    assert_eq!(state.get_canister_stats().total_supply, 3);
}

#[test]
fn mint_after_burn_collides() {
    let admin = ident(b"admin");
    let mut state = CanisterState::new_with_custodians(0, vec![ident(b"admin")]);
    mint(&mut state, "One", b"h1", "Alice", b"i1", "MIT", 10).unwrap();
    mint(&mut state, "Two", b"h2", "Bob", b"i1", "MIT", 11).unwrap();
    state.burn_certificate(1, &admin, 20).unwrap();
    // the supply dropped to 1, so the next mint would reuse id 2
    let r = mint(&mut state, "Three", b"h3", "Cara", b"i1", "MIT", 30);
    assert!(matches!(r, Err(CanisterError::CertificateAlreadyExists)));
    assert_eq!(state.get_canister_stats().total_supply, 1);
}

#[test]
fn mint_updates_holder_and_issuer_index() {
    let mut state = CanisterState::new(0);
    let h = ident(b"h1");
    let i = ident(b"i1");
    assert!(matches!(
        state.get_holder_certificate_count(&h),
        Err(CanisterError::HolderNotFound)
    ));
    let id = mint(&mut state, "One", b"h1", "Alice", b"i1", "MIT", 10).unwrap();
    assert_eq!(state.get_holder_certificate_count(&h).unwrap(), 1);
    assert_eq!(state.get_issuer_certificate_count(&i).unwrap(), 1);
    let held = state.get_certificates_by_holder(&h).unwrap();
    assert_eq!(held.len(), 1);
    assert_eq!(held[0].title, "One");
    let id2 = mint(&mut state, "Two", b"h1", "Alice", b"i1", "MIT", 11).unwrap();
    assert_eq!(state.get_holder_certificate_count(&h).unwrap(), 2);
    assert_eq!(state.get_issuer_certificate_count(&i).unwrap(), 2);
    let held = state.get_certificates_by_holder(&h).unwrap();
    assert_eq!(held.len(), 2);
    let issued = state.get_certificates_by_issuer(&i).unwrap();
    assert_eq!(issued.len(), 2);
    assert_eq!(issued[0].title, "One");
    assert_eq!(issued[1].title, "Two");
    assert_eq!(id, 1);
    assert_eq!(id2, 2);
}

#[test]
fn unique_holders_counted_once() {
    let mut state = CanisterState::new(0);
    assert_eq!(state.get_total_unique_holders(), 0);
    mint(&mut state, "One", b"h1", "Alice", b"i1", "MIT", 10).unwrap();
    assert_eq!(state.get_total_unique_holders(), 1);
    mint(&mut state, "Two", b"h1", "Alice", b"i1", "MIT", 11).unwrap();
    assert_eq!(state.get_total_unique_holders(), 1);
    mint(&mut state, "Three", b"h2", "Bob", b"i1", "MIT", 12).unwrap();
    assert_eq!(state.get_total_unique_holders(), 2);
}

#[test]
fn burn_marks_and_keeps_record() {
    let admin = ident(b"admin");
    let mut state = CanisterState::new_with_custodians(0, vec![ident(b"admin")]);
    mint(&mut state, "One", b"h1", "Alice", b"i1", "MIT", 10).unwrap();
    mint(&mut state, "Two", b"h2", "Bob", b"i1", "MIT", 11).unwrap();
    assert_eq!(state.get_canister_stats().total_supply, 2);
    state.burn_certificate(1, &admin, 42).unwrap();
    let cert = state.get_certificate(1).unwrap();
    assert!(cert.is_burned);
    assert_eq!(cert.burned_at, Some(42));
    assert_eq!(cert.burned_by.as_ref().unwrap().as_bytes(), admin.as_bytes());
    // the holder field is cleared to the "no identity" sentinel
    assert!(cert.holder.as_bytes().is_empty());
    // the record is not deleted, and the issuer field survives
    assert_eq!(cert.title, "One");
    assert_eq!(cert.issuer.as_bytes().as_slice(), b"i1");
    assert_eq!(state.get_canister_stats().total_supply, 1);
    // the id stays discoverable through the pre-burn holder's bucket
    assert_eq!(state.get_holder_certificate_count(&ident(b"h1")).unwrap(), 1);
}

#[test]
fn burn_unknown_id_not_found() {
    let admin = ident(b"admin");
    let mut state = CanisterState::new_with_custodians(0, vec![ident(b"admin")]);
    mint(&mut state, "One", b"h1", "Alice", b"i1", "MIT", 10).unwrap();
    let r = state.burn_certificate(7, &admin, 42);
    assert!(matches!(r, Err(CanisterError::CertificateNotFound)));
    assert_eq!(state.get_canister_stats().total_supply, 1);
}

#[test]
fn burn_requires_custodian() {
    let stranger = ident(b"stranger");
    let mut state = CanisterState::new_with_custodians(0, vec![ident(b"admin")]);
    mint(&mut state, "One", b"h1", "Alice", b"i1", "MIT", 10).unwrap();
    let r = state.burn_certificate(1, &stranger, 42);
    assert!(matches!(r, Err(CanisterError::NotAuthorizedAsCustodian)));
    assert!(!state.get_certificate(1).unwrap().is_burned);
    assert_eq!(state.get_canister_stats().total_supply, 1);
}

#[test]
fn double_burn_rejected() {
    let admin = ident(b"admin");
    let mut state = CanisterState::new_with_custodians(0, vec![ident(b"admin")]);
    mint(&mut state, "One", b"h1", "Alice", b"i1", "MIT", 10).unwrap();
    state.burn_certificate(1, &admin, 42).unwrap();
    let r = state.burn_certificate(1, &admin, 43);
    assert!(matches!(r, Err(CanisterError::Other(_))));
    assert_eq!(state.get_canister_stats().total_supply, 0);
    let cert = state.get_certificate(1).unwrap();
    assert_eq!(cert.burned_at, Some(42));
}

#[test]
fn count_unknown_and_zero_indistinguishable() {
    let mut state = CanisterState::new(0);
    mint(&mut state, "One", b"h1", "Alice", b"i1", "MIT", 10).unwrap();
    // an identity never seen and an identity with no bucket both fail
    assert!(matches!(
        state.get_holder_certificate_count(&ident(b"nobody")),
        Err(CanisterError::HolderNotFound)
    ));
    assert!(matches!(
        state.get_issuer_certificate_count(&ident(b"h1")),
        Err(CanisterError::HolderNotFound)
    ));
    assert!(matches!(
        state.get_certificates_by_holder(&ident(b"nobody")),
        Err(CanisterError::HolderNotFound)
    ));
}

#[test]
fn get_certificate_unknown_id() {
    let state = CanisterState::new(0);
    assert!(matches!(
        state.get_certificate(1),
        Err(CanisterError::CertificateNotFound)
    ));
    assert!(matches!(
        state.get_certificate_holder_principal(1),
        Err(CanisterError::CertificateNotFound)
    ));
    assert!(matches!(
        state.get_certificate_issuer_principal(1),
        Err(CanisterError::CertificateNotFound)
    ));
}

#[test]
fn certificate_fields_recorded() {
    let mut state = CanisterState::new(0);
    let id = state
        .mint_certificate(
            "Title".to_string(),
            "Desc".to_string(),
            ident(b"holder"),
            "Holder Name".to_string(),
            ident(b"issuer"),
            "Issuer Name".to_string(),
            vec![9, 9, 9],
            1234,
        )
        .unwrap();
    let cert = state.get_certificate(id).unwrap();
    assert_eq!(cert.title, "Title");
    assert_eq!(cert.description, "Desc");
    assert_eq!(cert.blob, vec![9, 9, 9]);
    assert_eq!(cert.issued_at, 1234);
    assert!(!cert.is_burned);
    assert_eq!(cert.burned_at, None);
    assert!(cert.burned_by.is_none());
    assert_eq!(
        state.get_certificate_holder_principal(id).unwrap().as_bytes().as_slice(),
        b"holder"
    );
    assert_eq!(
        state.get_certificate_issuer_principal(id).unwrap().as_bytes().as_slice(),
        b"issuer"
    );
}

#[test]
fn guard_checks_custodians() {
    let admin = ident(b"admin");
    let stranger = ident(b"stranger");
    let state = CanisterState::new_with_custodians(0, vec![ident(b"admin")]);
    assert!(state.is_custodian_guard(&admin).is_ok());
    assert!(matches!(
        state.is_custodian_guard(&stranger),
        Err(CanisterError::NotAuthorizedAsCustodian)
    ));
}
