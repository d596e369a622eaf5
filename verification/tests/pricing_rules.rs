use relay::decimal::Decimal;
use relay::namemap::NameMap;
use relay::pricing::{format_usd, usd_to_microusd, PriceCatalog, PriceEntry};
use relay::RelayError;

fn price(input: &str, output: &str) -> PriceEntry {
    PriceEntry {
        input_per_mtok: Decimal::parse(input).unwrap(),
        output_per_mtok: Decimal::parse(output).unwrap(),
        max_context: 128_000,
        api_model: "test-model".into(),
        verified: true,
        source_url: Some("https://example.test/pricing".into()),
        verified_at: Some("2026-07-18".into()),
    }
}

#[test]
fn cost_is_stored_as_conservatively_rounded_microusd() {
    let entry = price("0.15", "0.60");
    assert_eq!(entry.cost_microusd(1, 0).unwrap(), 1);
    assert_eq!(entry.cost_microusd(1_000_000, 1_000_000).unwrap(), 750_000);
}

#[test]
fn usd_caps_floor_sub_microusd_values() {
    assert_eq!(usd_to_microusd("5.00").unwrap(), 5_000_000);
    assert_eq!(usd_to_microusd("0.0000019").unwrap(), 1);
}

#[test]
fn negative_prices_are_rejected() {
    let entry = price("-0.01", "1");
    assert!(entry.validate("test:model").is_err());
}

#[test]
fn cost_rounds_up_and_never_down() {
    let entry = price("2.5", "10");
    assert_eq!(entry.cost_microusd(0, 0).unwrap(), 0);
    assert_eq!(entry.cost_microusd(1, 0).unwrap(), 3);
    assert_eq!(entry.cost_microusd(2, 0).unwrap(), 5);
    assert_eq!(entry.cost_microusd(3, 1).unwrap(), 18);
    let tiny = price("0.000001", "0");
    assert_eq!(tiny.cost_microusd(1, 5).unwrap(), 1);
}

#[test]
fn cost_out_of_range_is_refused() {
    let entry = price("79228162514264337593543950335", "0");
    assert_eq!(
        entry.cost_microusd(2, 0),
        Err(RelayError::AmountOutOfRange("input token cost overflow".to_string()))
    );
    let big = price("10000000000000", "0");
    assert_eq!(
        big.cost_microusd(1_000_000_000, 0),
        Err(RelayError::AmountOutOfRange("cost does not fit in i64".to_string()))
    );
}

#[test]
fn usd_amount_errors() {
    assert_eq!(usd_to_microusd(" 1.25 ").unwrap(), 1_250_000);
    assert_eq!(usd_to_microusd("-1"), Err(RelayError::Config("caps must not be negative".to_string())));
    assert!(matches!(usd_to_microusd("five"), Err(RelayError::Config(m)) if m.starts_with("invalid USD amount 'five': ")));
    assert_eq!(
        usd_to_microusd("100000000000000"),
        Err(RelayError::AmountOutOfRange("100000000000000".to_string()))
    );
}

#[test]
fn usd_is_printed_with_six_decimals() {
    assert_eq!(format_usd(750_000), "$0.750000");
    assert_eq!(format_usd(5_000_000), "$5.000000");
    assert_eq!(format_usd(1), "$0.000001");
    assert_eq!(format_usd(0), "$0.000000");
    assert_eq!(format_usd(-1_500_000), "$-1.500000");
}

#[test]
fn entries_are_validated_in_order() {
    let mut bad = price("1", "1");
    bad.max_context = 0;
    assert_eq!(
        bad.validate("test:model"),
        Err(RelayError::InvalidPrice {
            model: "test:model".to_string(),
            reason: "max_context must be positive".to_string(),
        })
    );
    assert_eq!(
        price("1", "1").validate("test"),
        Err(RelayError::InvalidPrice {
            model: "test".to_string(),
            reason: "key must have the form provider:model".to_string(),
        })
    );
    let mut unproven = price("1", "1");
    unproven.source_url = None;
    assert!(unproven.validate("a:b").is_err());
    unproven.verified = false;
    assert_eq!(unproven.validate("a:b"), Ok(()));
}

#[test]
fn catalog_refuses_unknown_and_unverified_models() {
    let mut entries = NameMap::new();
    entries.insert("test:model".to_string(), price("1", "1"));
    let mut draft = price("1", "1");
    draft.verified = false;
    entries.insert("test:draft".to_string(), draft);
    let catalog = PriceCatalog::from_entries(entries).unwrap();
    assert!(catalog.get_verified("test:model").is_ok());
    assert_eq!(
        catalog.get_verified("test:draft").err(),
        Some(RelayError::InvalidPrice {
            model: "test:draft".to_string(),
            reason: "price is not marked verified; review its official source before making a paid call".to_string(),
        })
    );
    assert_eq!(catalog.get("test:other").err(), Some(RelayError::UnknownModel("test:other".to_string())));

    let mut negative = NameMap::new();
    negative.insert("test:model".to_string(), price("-1", "1"));
    assert!(PriceCatalog::from_entries(negative).is_err());
}

#[test]
fn decimal_text_round_trips() {
    assert_eq!(Decimal::parse("0.150").unwrap().to_text(), "0.150");
    assert_eq!(Decimal::parse("-2").unwrap().to_text(), "-2");
    assert!(Decimal::parse("abc").is_none());
}

#[test]
fn cost_never_falls_with_more_tokens_or_higher_prices() {
    let cheap = price("0.15", "0.60");
    let dear = price("0.150001", "0.6");
    let mut last = 0;
    for tokens in [0u64, 1, 2, 7, 1_000, 999_999, 1_000_000] {
        let cost = cheap.cost_microusd(tokens, tokens).unwrap();
        assert!(cost >= last);
        assert!(dear.cost_microusd(tokens, tokens).unwrap() >= cost);
        last = cost;
    }
}
