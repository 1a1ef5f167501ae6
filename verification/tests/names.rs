//! Display-name tests: the directory, the enriched display records, and
//! the configuration getters and setters.

use certify::directory::Directory;
use certify::identity::Identity;
use certify::state::{greet, CanisterState};
use certify::types::CanisterError;

fn ident(bytes: &[u8]) -> Identity {
    Identity::from_bytes(bytes.to_vec())
}

fn mint(
    state: &mut CanisterState,
    title: &str,
    holder: &[u8],
    holder_name: &str,
    issuer: &[u8],
    issuer_name: &str,
    now: u64,
) -> Result<u64, CanisterError> {
    state.mint_certificate(
        title.to_string(),
        "a description".to_string(),
        ident(holder),
        holder_name.to_string(),
        ident(issuer),
        issuer_name.to_string(),
        vec![],
        now,
    )
}

#[test]
fn directory_first_writer_wins() {
    let mut dir = Directory::new();
    assert!(dir.bind("Alice".to_string(), ident(b"h1")));
    // the second bind of the same name is a no-op
    assert!(!dir.bind("Alice".to_string(), ident(b"h2")));
    let resolved = dir.resolve(&"Alice".to_string()).unwrap();
    assert_eq!(resolved.as_bytes().as_slice(), b"h1");
    assert!(dir.resolve(&"Bob".to_string()).is_none());
}

#[test]
fn directory_display_name_follows_latest_bind() {
    let mut dir = Directory::new();
    assert!(dir.bind("Alice".to_string(), ident(b"h1")));
    assert!(dir.bind("Alicia".to_string(), ident(b"h1")));
    // both names still resolve to the identity...
    assert_eq!(dir.resolve(&"Alice".to_string()).unwrap().as_bytes().as_slice(), b"h1");
    assert_eq!(dir.resolve(&"Alicia".to_string()).unwrap().as_bytes().as_slice(), b"h1");
    // ...whose display name is the one bound last
    assert_eq!(dir.display_name(&ident(b"h1")).unwrap(), "Alicia");
    assert!(dir.display_name(&ident(b"h2")).is_none());
}

#[test]
fn mint_binds_names_first_writer_wins() {
    let mut state = CanisterState::new(0);
    mint(&mut state, "One", b"h1", "Alice", b"i1", "MIT", 10).unwrap();
    // a second holder reusing the name "Alice" does not rebind it
    let id2 = mint(&mut state, "Two", b"h2", "Alice", b"i1", "MIT", 11).unwrap();
    assert_eq!(state.get_certificate_holder_name(1).unwrap(), "Alice");
    // the second holder got no display name, so the name join fails
    assert!(matches!(
        state.get_certificate_holder_name(id2),
        Err(CanisterError::HolderNotFound)
    ));
    assert!(matches!(
        state.get_certificate_info(id2),
        Err(CanisterError::HolderNotFound)
    ));
}

#[test]
fn example_diploma_flow() {
    let mut state = CanisterState::new(0);
    let first = state
        .mint_certificate(
            "Diploma".to_string(),
            "CS degree".to_string(),
            ident(b"h1"),
            "Alice".to_string(),
            ident(b"i1"),
            "MIT".to_string(),
            vec![],
            100,
        )
        .unwrap();
    let second = state
        .mint_certificate(
            "Diploma".to_string(),
            "CS degree".to_string(),
            ident(b"h2"),
            "Alice".to_string(),
            ident(b"i1"),
            "MIT".to_string(),
            vec![],
            101,
        )
        .unwrap();
    assert_eq!(first, 1);
    assert_eq!(second, 2);
    let held = state.get_certificates_by_holder(&ident(b"h1")).unwrap();
    assert_eq!(held.len(), 1);
    assert_eq!(held[0].title, "Diploma");
    let info = state.get_certificate_info(1).unwrap();
    assert_eq!(info.id, 1);
    assert_eq!(info.holder_name, "Alice");
    assert_eq!(info.issuer_name, "MIT");
    assert_eq!(info.title, "Diploma");
    assert_eq!(info.description, "CS degree");
    assert_eq!(info.issued_at, 100);
    assert_eq!(info.holder_address.as_bytes().as_slice(), b"h1");
    assert_eq!(info.issuer_address.as_bytes().as_slice(), b"i1");
}

#[test]
fn infos_by_holder_name_joins() {
    let mut state = CanisterState::new(0);
    mint(&mut state, "One", b"h1", "Alice", b"i1", "MIT", 10).unwrap();
    mint(&mut state, "Two", b"h1", "Alice", b"i2", "ETH", 11).unwrap();
    let infos = state
        .get_certificates_info_by_holder_name("Alice".to_string())
        .unwrap();
    assert_eq!(infos.len(), 2);
    assert_eq!(infos[0].title, "One");
    assert_eq!(infos[0].issuer_name, "MIT");
    assert_eq!(infos[1].title, "Two");
    assert_eq!(infos[1].issuer_name, "ETH");
    assert!(matches!(
        state.get_certificates_info_by_holder_name("Nobody".to_string()),
        Err(CanisterError::HolderNotFound)
    ));
}

#[test]
fn infos_by_issuer_name_joins() {
    let mut state = CanisterState::new(0);
    mint(&mut state, "One", b"h1", "Alice", b"i1", "MIT", 10).unwrap();
    mint(&mut state, "Two", b"h2", "Bob", b"i1", "MIT", 11).unwrap();
    let infos = state
        .get_certificates_info_by_issuer_name("MIT".to_string())
        .unwrap();
    assert_eq!(infos.len(), 2);
    assert_eq!(infos[0].holder_name, "Alice");
    assert_eq!(infos[1].holder_name, "Bob");
    assert!(matches!(
        state.get_certificates_info_by_issuer_name("Harvard".to_string()),
        Err(CanisterError::HolderNotFound)
    ));
}

#[test]
fn issuer_name_lookup_per_certificate() {
    let mut state = CanisterState::new(0);
    mint(&mut state, "One", b"h1", "Alice", b"i1", "MIT", 10).unwrap();
    assert_eq!(state.get_certificate_issuer_name(1).unwrap(), "MIT");
    assert!(matches!(
        state.get_certificate_issuer_name(9),
        Err(CanisterError::CertificateNotFound)
    ));
}

#[test]
fn metadata_defaults_and_setters() {
    let admin = ident(b"admin");
    let stranger = ident(b"stranger");
    let mut state = CanisterState::new_with_custodians(7, vec![ident(b"admin")]);
    assert_eq!(state.get_canister_name(), "certify_v1");
    assert_eq!(state.get_canister_symbol(), None);
    assert_eq!(state.get_canister_logo(), None);
    let meta = state.get_metadata();
    assert_eq!(meta.created_at, 7);
    assert_eq!(meta.upgraded_at, 7);

    assert!(matches!(
        state.set_canister_name(&stranger, "Nope".to_string()),
        Err(CanisterError::NotAuthorizedAsCustodian)
    ));
    assert_eq!(state.get_canister_name(), "certify_v1");

    state.set_canister_name(&admin, "My Registry".to_string()).unwrap();
    assert_eq!(state.get_canister_name(), "My Registry");

    state
        .set_canister_symbol(&admin, Some("CRT".to_string()))
        .unwrap();
    assert_eq!(state.get_canister_symbol(), Some("CRT".to_string()));

    let custodians = state.get_canister_custodians();
    assert_eq!(custodians.len(), 1);
    assert_eq!(custodians[0].as_bytes().as_slice(), b"admin");

    state
        .set_canister_custodians(&admin, vec![ident(b"admin"), ident(b"second")])
        .unwrap();
    assert_eq!(state.get_canister_custodians().len(), 2);
    assert!(state.is_custodian_guard(&ident(b"second")).is_ok());
}

#[test]
fn stats_start_zeroed() {
    let state = CanisterState::new(0);
    let stats = state.get_canister_stats();
    assert_eq!(stats.total_supply, 0);
    assert_eq!(stats.total_transactions, 0);
    assert_eq!(stats.total_unique_holders, 0);
    assert_eq!(stats.cycles, 0);
    assert_eq!(state.get_canister_cycles(), 0);
    assert_eq!(state.get_total_unique_holders(), 0);
}

#[test]
fn greet_formats_name() {
    assert_eq!(greet("World".to_string()), "Hello, World!");
    assert_eq!(greet("".to_string()), "Hello, !");
}
