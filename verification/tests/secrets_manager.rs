use setlister::secrets_manager::{KeyType, SecretsManager};

#[test]
fn test_new_returns_manager() {
    let _ = SecretsManager::new();
}

#[test]
fn test_set_keys_from_args_with_empty_map_returns_ok() {
    let manager = SecretsManager::new();
    let result = manager.set_keys_from_args(&Vec::new());
    assert!(result.is_ok());
}

#[test]
fn set_keys_from_args_stores_the_key_under_the_program_service() {
    let manager = SecretsManager::new();
    let keys = vec![(KeyType::SetlistFmApiKey, "test-api-key-from-keyring".to_string())];
    let writes = manager.set_keys_from_args(&keys).unwrap();
    assert_eq!(writes.len(), 1);
    assert_eq!(writes[0].service, "SetlisteR");
    assert_eq!(writes[0].user, "setlist_fm_api_key");
    assert_eq!(writes[0].secret, "test-api-key-from-keyring");
}

#[test]
fn keyring_secret_wins_over_environment() {
    let manager = SecretsManager::new();
    let key = manager.get_setlist_fm_api_key(
        Some("test-api-key-from-keyring".to_string()),
        Some("test-api-key-from-env".to_string()),
    );
    assert_eq!(key, Some("test-api-key-from-keyring".to_string()));
}

#[test]
fn environment_secret_is_the_fallback() {
    let manager = SecretsManager::new();
    let key = manager.get_setlist_fm_api_key(None, Some("test-api-key-from-env".to_string()));
    assert_eq!(key, Some("test-api-key-from-env".to_string()));
    assert_eq!(manager.get_setlist_fm_api_key(None, None), None);
}

#[test]
fn key_type_names_its_environment_variable() {
    assert_eq!(KeyType::SetlistFmApiKey.env_var_name(), "SETLIST_FM_API_KEY");
    assert_eq!(KeyType::SetlistFmApiKey.keyring_user(), "setlist_fm_api_key");
    assert_eq!(KeyType::SetlistFmApiKey.keyring_service(), "SetlisteR");
}
