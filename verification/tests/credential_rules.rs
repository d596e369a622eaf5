use std::collections::HashMap;
use std::sync::Mutex;

use relay::credentials::{
    presence_outcome, read_outcome, validate_provider, validate_secret, CredentialStore, VaultAnswer,
};
use relay::{RelayError, Result};

#[derive(Default)]
struct MemoryCredentialStore {
    secrets: Mutex<HashMap<String, String>>,
}

impl CredentialStore for MemoryCredentialStore {
    fn get(&self, provider: &str) -> Result<Option<String>> {
        validate_provider(provider)?;
        Ok(self.secrets.lock().unwrap().get(provider).cloned())
    }

    fn is_stored(&self, provider: &str) -> Result<bool> {
        validate_provider(provider)?;
        Ok(self.secrets.lock().unwrap().contains_key(provider))
    }

    fn set(&self, provider: &str, secret: &str) -> Result<()> {
        validate_provider(provider)?;
        validate_secret(secret)?;
        self.secrets.lock().unwrap().insert(provider.to_owned(), secret.to_owned());
        Ok(())
    }

    fn delete(&self, provider: &str) -> Result<bool> {
        validate_provider(provider)?;
        Ok(self.secrets.lock().unwrap().remove(provider).is_some())
    }
}

#[test]
fn memory_store_round_trip_does_not_touch_native_vault() {
    let store = MemoryCredentialStore::default();
    assert_eq!(store.get("openai").unwrap(), None);
    store.set("openai", "test-secret").unwrap();
    assert!(store.is_stored("openai").unwrap());
    assert_eq!(store.get("openai").unwrap().as_deref(), Some("test-secret"));
    assert!(store.delete("openai").unwrap());
    assert!(!store.delete("openai").unwrap());
}

#[test]
fn rejects_multiline_and_invalid_provider_values() {
    assert!(validate_secret("\n").is_err());
    assert!(validate_secret("secret\nsecond-line").is_err());
    assert!(validate_provider("OpenAI").is_err());
    assert!(validate_provider("../openai").is_err());
}

#[test]
fn secret_and_provider_errors_say_why() {
    assert_eq!(validate_secret("  "), Err(RelayError::Config("API key must not be empty".to_string())));
    assert_eq!(
        validate_secret("a\rb"),
        Err(RelayError::Config("API key must be a single non-empty line".to_string()))
    );
    assert_eq!(
        validate_secret(&"k".repeat(16 * 1024 + 1)),
        Err(RelayError::Config("API key is unexpectedly large".to_string()))
    );
    assert_eq!(validate_secret(&"k".repeat(16 * 1024)), Ok(()));
    assert_eq!(
        validate_provider(""),
        Err(RelayError::Config("invalid provider name ''".to_string()))
    );
    assert_eq!(validate_provider(&"a".repeat(64)), Ok(()));
    assert!(validate_provider(&"a".repeat(65)).is_err());
    assert_eq!(validate_provider("open-ai2"), Ok(()));
}

#[test]
fn vault_answers_are_interpreted() {
    assert_eq!(read_outcome(VaultAnswer::Found("key".to_string())), Ok(Some("key".to_string())));
    assert_eq!(read_outcome(VaultAnswer::Found(" \t".to_string())), Ok(None));
    assert_eq!(read_outcome(VaultAnswer::NoEntry), Ok(None));
    assert_eq!(
        read_outcome(VaultAnswer::Failed("locked".to_string())),
        Err(RelayError::CredentialStore("locked".to_string()))
    );
    assert_eq!(presence_outcome(VaultAnswer::Found(())), Ok(true));
    assert_eq!(presence_outcome(VaultAnswer::NoEntry), Ok(false));
    assert!(presence_outcome(VaultAnswer::Failed("x".to_string())).is_err());
}
