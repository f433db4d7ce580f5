use rustfin::pipeline::{normalize_library_ids, validate_username_password};
use rustfin::setup::{
    check_setup_token, decide_claim, hash_token, validate_config, validate_metadata,
    validate_network, validate_path_input, ClaimDecision, RateLimiter, SetupState,
};
use rustfin::strutil::u64_to_dec_string;

#[test]
fn setup_state_string_round_trip() {
    let states = [
        SetupState::NotStarted,
        SetupState::SessionClaimed,
        SetupState::ServerConfigSaved,
        SetupState::AdminCreated,
        SetupState::LibrariesSaved,
        SetupState::MetadataSaved,
        SetupState::NetworkSaved,
        SetupState::Completed,
    ];
    for st in states {
        assert_eq!(SetupState::from_str(st.as_str()), Some(st));
    }
    assert_eq!(SetupState::from_str("Bogus"), None);
}

#[test]
fn setup_state_ordering() {
    assert!(SetupState::AdminCreated.is_at_least(SetupState::SessionClaimed));
    assert!(!SetupState::SessionClaimed.is_at_least(SetupState::AdminCreated));
    assert!(SetupState::Completed.is_at_least(SetupState::Completed));
    assert!(SetupState::Completed.is_completed());
    assert!(!SetupState::NetworkSaved.is_completed());
}

#[test]
fn claim_rules() {
    assert_eq!(decide_claim(true, "tv", false, false, false), ClaimDecision::AlreadyCompleted);
    assert_eq!(decide_claim(false, "", false, false, false), ClaimDecision::InvalidClientName);
    assert_eq!(decide_claim(false, "tv", true, false, false), ClaimDecision::Claimed);
    assert_eq!(decide_claim(false, "tv", true, true, false), ClaimDecision::Claimed);
    assert_eq!(decide_claim(false, "tv", true, true, true), ClaimDecision::Claim);
    assert_eq!(decide_claim(false, "tv", false, false, false), ClaimDecision::Claim);
}

#[test]
fn owner_token_hashing() {
    let h = hash_token("secret-owner-token");
    assert_eq!(h.len(), 64);
    assert_ne!(h, "secret-owner-token");
    assert!(check_setup_token("secret-owner-token", &h));
    assert!(!check_setup_token("some-other-token", &h));
    // same input, same digest
    assert_eq!(h, hash_token("secret-owner-token"));
}

#[test]
fn config_validation() {
    assert!(validate_config("Home", "en-US", "US", &None).is_none());
    let errs = validate_config("", "e", "usa", &Some("x".repeat(65))).unwrap();
    let fields: Vec<&str> = errs.iter().map(|e| e.field.as_str()).collect();
    assert_eq!(
        fields,
        vec!["server_name", "default_ui_locale", "default_region", "default_time_zone"]
    );
}

#[test]
fn metadata_validation() {
    assert!(validate_metadata("en", "GB").is_none());
    let errs = validate_metadata("e", "gb").unwrap();
    assert_eq!(errs.len(), 2);
    assert_eq!(errs[0].field, "metadata_language");
    assert_eq!(errs[1].field, "metadata_region");
}

#[test]
fn network_and_path_validation() {
    assert!(validate_network(&vec![]).is_none());
    let many: Vec<String> = (0..65).map(|i| format!("10.0.0.{i}")).collect();
    assert!(validate_network(&many).is_some());
    assert!(validate_path_input("/media").is_none());
    assert!(validate_path_input("").is_some());
}

#[test]
fn credential_validation() {
    assert!(validate_username_password("alice", "a-long-password-123").is_none());
    let errs = validate_username_password("a!", "short").unwrap();
    assert_eq!(errs.len(), 2);
    assert_eq!(errs[0].field, "username");
    assert_eq!(errs[1].field, "password");
    assert!(validate_username_password("ab", "a-long-password-123").is_some());
    assert!(validate_username_password("a.b-c_9", "a-long-password-123").is_none());
}

#[test]
fn library_id_normalisation() {
    let ids = vec![
        " a ".to_string(),
        "a".to_string(),
        "".to_string(),
        "  ".to_string(),
        "b".to_string(),
    ];
    assert_eq!(normalize_library_ids(&ids), vec!["a".to_string(), "b".to_string()]);
}

#[test]
fn rate_limiter_window() {
    let mut rl = RateLimiter::new(2, 60);
    assert_eq!(rl.check("k", 0), Ok(1));
    assert_eq!(rl.check("k", 1), Ok(0));
    assert_eq!(rl.check("k", 2), Err(60));
    // another key is unaffected
    assert_eq!(rl.check("other", 2), Ok(1));
    // once the window has passed, the key may try again
    assert_eq!(rl.check("k", 61), Ok(1));
}

#[test]
fn decimal_rendering() {
    assert_eq!(u64_to_dec_string(0), "0");
    assert_eq!(u64_to_dec_string(7), "7");
    assert_eq!(u64_to_dec_string(12345), "12345");
    assert_eq!(u64_to_dec_string(u64::MAX), "18446744073709551615");
}
