use base64::Engine as _;
use rsave::commands::{choose_auth_path, handle_delete_config, AuthPath};
use rsave::config::{init_then_verify, RsaveConfig};

#[test]
fn verify_accepts_initializing_password() {
    let vault = RsaveConfig::init("correct-horse");
    assert!(vault.verify_password("correct-horse"));
}

#[test]
fn verify_rejects_other_password() {
    let vault = RsaveConfig::init("correct-horse");
    assert!(!vault.verify_password("battery-staple"));
    assert!(!vault.verify_password(""));
}

#[test]
fn init_then_verify_holds() {
    let (_vault, ok) = init_then_verify("any password at all");
    assert!(ok);
}

#[test]
fn verify_rejects_corrupted_check() {
    let mut vault = RsaveConfig::init("pw");
    vault.meta.check = "garbage without delimiter".to_string();
    assert!(!vault.verify_password("pw"));
}

#[test]
fn add_then_list_shows_destination() {
    let vault = RsaveConfig::init("pw");
    let mut vault = vault.with_password("pw".to_string());
    vault.add_destination_secure("prod", "b1", "eu-west-1", "AKIA1", "S3CR3T");
    let rows = vault.list_destinations();
    assert_eq!(rows.len(), 1);
    assert_eq!(rows[0].0, "prod");
    assert_eq!(rows[0].1, "b1");
    assert_eq!(rows[0].2, "eu-west-1");
    assert!(rows[0].3);
}

#[test]
fn add_stores_credentials_encrypted() {
    let vault = RsaveConfig::init("pw");
    let mut vault = vault.with_password("pw".to_string());
    vault.add_destination_secure("prod", "b1", "eu-west-1", "AKIA1", "S3CR3T");
    let stored = &vault.destinations[0].meta;
    assert_ne!(stored.access_key, "AKIA1");
    assert_ne!(stored.secret_key, "S3CR3T");
    let key = rsave::encryption::derive_key(
        "pw",
        &{
                    base64::engine::general_purpose::STANDARD
                .decode(&vault.meta.salt)
                .unwrap()
        },
    );
    assert_eq!(
        rsave::encryption::decrypt(&key, &stored.access_key).unwrap(),
        "AKIA1"
    );
    assert_eq!(
        rsave::encryption::decrypt(&key, &stored.secret_key).unwrap(),
        "S3CR3T"
    );
}

#[test]
fn add_overwrites_existing_name() {
    let vault = RsaveConfig::init("pw");
    let mut vault = vault.with_password("pw".to_string());
    vault.add_destination_secure("prod", "b1", "eu-west-1", "a", "s");
    vault.add_destination_secure("prod", "b2", "us-east-1", "a2", "s2");
    let rows = vault.list_destinations();
    assert_eq!(rows.len(), 1);
    assert_eq!(rows[0].1, "b2");
    assert_eq!(rows[0].2, "us-east-1");
}

#[test]
fn delete_then_list_never_shows_it() {
    let vault = RsaveConfig::init("pw");
    let mut vault = vault.with_password("pw".to_string());
    vault.add_destination_secure("prod", "b1", "eu-west-1", "a", "s");
    vault.add_destination_secure("staging", "b2", "us-east-1", "a", "s");
    assert!(vault.delete_destination_secure("prod"));
    let rows = vault.list_destinations();
    assert_eq!(rows.len(), 1);
    assert!(rows.iter().all(|r| r.0 != "prod"));
}

#[test]
fn delete_absent_is_reported_and_harmless() {
    let vault = RsaveConfig::init("pw");
    let mut vault = vault.with_password("pw".to_string());
    vault.add_destination_secure("prod", "b1", "eu-west-1", "a", "s");
    assert!(!vault.delete_destination_secure("nope"));
    assert_eq!(vault.list_destinations().len(), 1);
}

#[test]
fn edit_nonexistent_reports_and_leaves_vault_unchanged() {
    let vault = RsaveConfig::init("pw");
    let mut vault = vault.with_password("pw".to_string());
    vault.add_destination_secure("prod", "b1", "eu-west-1", "a", "s");
    let before: Vec<_> = vault.list_destinations();
    let changed = vault.edit_destination_secure("ghost", Some("b9"), None, None, None);
    assert!(!changed);
    assert_eq!(vault.list_destinations(), before);
}

#[test]
fn edit_updates_only_supplied_fields() {
    let vault = RsaveConfig::init("pw");
    let mut vault = vault.with_password("pw".to_string());
    vault.add_destination_secure("prod", "b1", "eu-west-1", "a", "s");
    let old_access = vault.destinations[0].meta.access_key.clone();
    assert!(vault.edit_destination_secure("prod", Some("b2"), None, None, None));
    let rows = vault.list_destinations();
    assert_eq!(rows[0].1, "b2");
    assert_eq!(rows[0].2, "eu-west-1");
    assert_eq!(vault.destinations[0].meta.access_key, old_access);
}

#[test]
fn edit_reencrypts_supplied_credentials() {
    let vault = RsaveConfig::init("pw");
    let mut vault = vault.with_password("pw".to_string());
    vault.add_destination_secure("prod", "b1", "eu-west-1", "a", "s");
    let old_access = vault.destinations[0].meta.access_key.clone();
    assert!(vault.edit_destination_secure("prod", None, None, Some("AKIA9"), None));
    assert_ne!(vault.destinations[0].meta.access_key, old_access);
    let salt = base64::engine::general_purpose::STANDARD
        .decode(&vault.meta.salt)
        .unwrap();
    let key = rsave::encryption::derive_key("pw", &salt);
    assert_eq!(
        rsave::encryption::decrypt(&key, &vault.destinations[0].meta.access_key).unwrap(),
        "AKIA9"
    );
}

#[test]
fn full_scenario_initialize_add_verify_delete() {
    let vault = RsaveConfig::init("correct-horse");
    let mut vault = vault.with_password("correct-horse".to_string());
    vault.add_destination_secure("prod", "b1", "eu-west-1", "AKIA1", "S3CR3T");
    assert!(vault.verify_password("correct-horse"));
    assert!(!vault.verify_password("wrong"));
    assert!(vault.delete_destination_secure("prod"));
    assert!(vault.list_destinations().is_empty());
}

#[test]
fn handle_delete_config_removes_selected() {
    let vault = RsaveConfig::init("pw");
    let mut vault = vault.with_password("pw".to_string());
    vault.add_destination_secure("prod", "b1", "eu-west-1", "a", "s");
    assert!(handle_delete_config(&mut vault, "prod"));
    assert!(vault.list_destinations().is_empty());
    assert!(!handle_delete_config(&mut vault, "prod"));
}

#[test]
fn auth_path_follows_resolution_policy() {
    assert!(matches!(choose_auth_path(false, None), AuthPath::Setup));
    assert!(matches!(
        choose_auth_path(false, Some("p".to_string())),
        AuthPath::Setup
    ));
    match choose_auth_path(true, Some("cached".to_string())) {
        AuthPath::CachedSession(p) => assert_eq!(p, "cached"),
        _ => panic!("expected the cached session to be used"),
    }
    assert!(matches!(choose_auth_path(true, None), AuthPath::Prompt));
}
