use relay::config::{accept_credential, AppPaths, CapsConfig, Config, ProviderConfig};
use relay::namemap::NameMap;
use relay::RelayError;

fn default_config() -> Config {
    let mut models = NameMap::new();
    models.insert("default".to_string(), "openai:gpt-4o-mini".to_string());
    models.insert("think".to_string(), "anthropic:sonnet".to_string());
    let mut providers = NameMap::new();
    providers.insert("openai".to_string(), ProviderConfig { api_key_env: "OPENAI_API_KEY".into() });
    providers.insert("anthropic".to_string(), ProviderConfig { api_key_env: "ANTHROPIC_API_KEY".into() });
    Config {
        caps: CapsConfig { daily_usd: "5.00".into(), monthly_usd: "50.00".into(), timezone: "UTC".into() },
        models,
        providers,
    }
}

#[test]
fn aliases_resolve_without_changing_canonical_models() {
    let config = default_config();
    assert_eq!(config.resolve_model(Some("think"), false).unwrap(), "anthropic:sonnet");
    assert_eq!(config.resolve_model(Some("openai:custom"), false).unwrap(), "openai:custom");
}

#[test]
fn default_config_loads_with_documented_caps() {
    let config = default_config();
    assert_eq!(config.validate(), Ok(()));
    let caps = config.cap_limits().unwrap();
    assert_eq!(caps.daily_microusd, 5_000_000);
    assert_eq!(caps.monthly_microusd, 50_000_000);
    assert_eq!(caps.timezone, "UTC");
    assert_eq!(config.resolve_model(None, false).unwrap(), "openai:gpt-4o-mini");
    assert_eq!(config.resolve_model(Some("default"), true).unwrap(), "anthropic:sonnet");
    assert_eq!(config.resolve_model(Some("nope"), false), Err(RelayError::UnknownModel("nope".into())));
}

#[test]
fn configuration_problems_are_reported() {
    let mut config = default_config();
    config.caps.timezone = "Mars/Olympus".into();
    assert_eq!(
        config.validate(),
        Err(RelayError::Config("unknown IANA timezone 'Mars/Olympus' in [caps]".into()))
    );
    let mut config = default_config();
    config.models.insert("default".to_string(), String::new());
    assert_eq!(config.validate(), Err(RelayError::Config("[models].default must name a model".into())));
    let mut config = default_config();
    config.providers.insert("openai".to_string(), ProviderConfig { api_key_env: "  ".into() });
    assert_eq!(
        config.validate(),
        Err(RelayError::Config("providers.openai.api_key_env must not be empty".into()))
    );
}

#[test]
fn credentials_come_from_configured_variables() {
    let mut config = default_config();
    config.providers.insert("openai".to_string(), ProviderConfig { api_key_env: " OPENAI_API_KEY ".into() });
    assert_eq!(config.credential_variable("openai").unwrap(), "OPENAI_API_KEY");
    assert_eq!(config.credential_variable("other"), Err(RelayError::UnsupportedProvider("other".into())));
    assert_eq!(accept_credential("K", Some("sk-1".into())), Ok("sk-1".to_string()));
    assert_eq!(accept_credential("K", Some(" ".into())), Err(RelayError::MissingCredential("K".into())));
    assert_eq!(accept_credential("K", None), Err(RelayError::MissingCredential("K".into())));
}

#[test]
fn paths_live_inside_the_home_directory() {
    let paths = AppPaths::new("/home/user/.relay".to_string());
    assert_eq!(paths.config, "/home/user/.relay/relay.toml");
    assert_eq!(paths.prices, "/home/user/.relay/prices.json");
    assert_eq!(paths.ledger, "/home/user/.relay/ledger.db");
}

#[test]
fn trimming_follows_unicode_white_space() {
    assert_eq!(relay::text::str_trim(" \t\u{3000}a b\u{2028}\n"), "a b");
    assert_eq!(relay::text::str_trim("\u{200b}x"), "\u{200b}x");
    assert!(relay::text::blank("\u{a0}\u{85} "));
    assert!(!relay::text::blank("."));
    assert_eq!(relay::pricing::usd_to_microusd("\u{2003}2\r\n"), Ok(2_000_000));
}

#[test]
fn names_are_kept_in_string_order() {
    let mut map = NameMap::new();
    for name in ["openai:b", "anthropic:z", "openai:a", "Zeta", "é", "openai:a"] {
        map.insert(name.to_string(), name.len());
    }
    let keys: Vec<String> = (0..map.len()).map(|i| map.key_at(i).clone()).collect();
    assert_eq!(keys, vec!["Zeta", "anthropic:z", "openai:a", "openai:b", "é"]);
    assert_eq!(relay::namemap::text_less("openai:a", "openai:b"), true);
    assert_eq!(relay::namemap::text_less("openai", "openai:a"), true);
    assert_eq!(relay::namemap::text_less("b", "a"), false);
    assert_eq!(relay::namemap::text_less("a", "a"), false);
}
