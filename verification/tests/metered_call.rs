use std::cell::Cell;

use chrono::TimeZone;

use relay::adapters::conservative_token_estimate;
use relay::config::{AppPaths, CapsConfig, Config, ProviderConfig};
use relay::decimal::Decimal;
use relay::ledger::{Ledger, Period, ReservationState};
use relay::namemap::NameMap;
use relay::pricing::{PriceCatalog, PriceEntry};
use relay::request::{Message, RelayRequest, RelayResponse, TokenEstimate, Usage};
use relay::service::{CompletedCall, RelayService};
use relay::{RelayError, Result};

struct FakeAdapter {
    calls: Cell<usize>,
}

impl FakeAdapter {
    fn name(&self) -> &'static str {
        "test"
    }

    fn estimate_tokens(&self, _request: &RelayRequest) -> Result<TokenEstimate> {
        Ok(TokenEstimate { input_tokens: 10 })
    }

    fn complete(&self, request: &RelayRequest) -> Result<RelayResponse> {
        self.calls.set(self.calls.get() + 1);
        Ok(RelayResponse {
            text: "ok".into(),
            usage: Usage { input_tokens: 10, output_tokens: 10 },
            model: request.model.clone(),
            latency_ms: 1,
            raw: "{}".into(),
        })
    }
}

fn service(daily: &str) -> RelayService {
    let mut models = NameMap::new();
    models.insert("default".to_string(), "test:model".to_string());
    let mut providers = NameMap::new();
    providers.insert("test".to_string(), ProviderConfig { api_key_env: "TEST_API_KEY".into() });
    let config = Config {
        caps: CapsConfig { daily_usd: daily.into(), monthly_usd: daily.into(), timezone: "UTC".into() },
        models,
        providers,
    };
    let price = PriceEntry {
        input_per_mtok: Decimal::parse("1").unwrap(),
        output_per_mtok: Decimal::parse("1").unwrap(),
        max_context: 1000,
        api_model: "model".into(),
        verified: true,
        source_url: Some("https://example.test".into()),
        verified_at: Some("2026-07-18".into()),
    };
    let mut entries = NameMap::new();
    entries.insert("test:model".to_string(), price);
    let prices = PriceCatalog::from_entries(entries).unwrap();
    RelayService { paths: AppPaths::new("/tmp/relay-test".to_string()), config, prices, ledger: Ledger::new() }
}

fn request() -> RelayRequest {
    RelayRequest {
        messages: vec![Message::user("test")],
        model: "model".into(),
        max_output_tokens: Some(10),
        stream: false,
        metadata: Default::default(),
    }
}

fn execute_with_adapter(service: &mut RelayService, adapter: &FakeAdapter, now: i64) -> Result<CompletedCall> {
    let request = request();
    let plan = service.begin_call("test:model".into(), "test".into(), adapter.name(), &request)?;
    let estimate = adapter.estimate_tokens(&request)?;
    let dispatch = service.reserve_call(plan, &request, estimate, now)?;
    let outcome = adapter.complete(&request);
    service.finish_call(dispatch, outcome)
}

fn at(hour: u32, second: u32) -> i64 {
    chrono::Utc.with_ymd_and_hms(2026, 7, 18, hour, 0, second).unwrap().timestamp()
}

#[test]
fn at_cap_refusal_makes_zero_provider_requests() {
    let mut service = service("0.000020");
    let first = FakeAdapter { calls: Cell::new(0) };
    execute_with_adapter(&mut service, &first, at(12, 0)).unwrap();
    assert_eq!(first.calls.get(), 1);

    let refused = FakeAdapter { calls: Cell::new(0) };
    let result = execute_with_adapter(&mut service, &refused, at(12, 1));
    assert!(matches!(result, Err(RelayError::CapExceeded { .. })));
    assert_eq!(refused.calls.get(), 0);
}

#[test]
fn settled_call_reports_cost_and_warning() {
    let mut service = service("0.000020");
    let adapter = FakeAdapter { calls: Cell::new(0) };
    let call = execute_with_adapter(&mut service, &adapter, at(12, 0)).unwrap();
    assert_eq!(call.cost_microusd, 20);
    assert_eq!(call.canonical_model, "test:model");
    assert_eq!(call.response.text, "ok");
    assert_eq!(
        call.warning.as_deref(),
        Some("warning: daily spend has reached at least 80% of its configured cap")
    );
    let day = service.usage_at(at(12, 5), Period::Day).unwrap();
    assert_eq!((day.total_microusd, day.pending_microusd, day.calls), (20, 0, 1));
    let row = &service.ledger.calls()[0].record;
    assert_eq!((row.tokens_in, row.tokens_out, row.cost_microusd), (10, 10, 20));
    assert_eq!(row.route_tier, "direct");
    assert_eq!(row.price_input_per_mtok, "1");
    assert!(!row.session_id.is_empty());
}

#[test]
fn no_warning_below_eighty_percent() {
    let mut service = service("1.00");
    let adapter = FakeAdapter { calls: Cell::new(0) };
    let call = execute_with_adapter(&mut service, &adapter, at(12, 0)).unwrap();
    assert_eq!(call.warning, None);
}

#[test]
fn unbilled_rejection_releases_and_other_failures_hold() {
    let mut service = service("1.00");
    let request = request();
    let plan = service.begin_call("test:model".into(), "test".into(), "test", &request).unwrap();
    let dispatch = service.reserve_call(plan, &request, TokenEstimate { input_tokens: 10 }, at(12, 0)).unwrap();
    let rejection = RelayError::Provider { provider: "test".into(), status: 429, message: "slow down".into() };
    assert_eq!(service.finish_call(dispatch, Err(rejection.clone())).err(), Some(rejection));
    assert!(service.ledger.reservations().is_empty());

    let plan = service.begin_call("test:model".into(), "test".into(), "test", &request).unwrap();
    let dispatch = service.reserve_call(plan, &request, TokenEstimate { input_tokens: 10 }, at(12, 1)).unwrap();
    let id = dispatch.reservation().id.clone();
    let failure = RelayError::Http("connection reset".into());
    match service.finish_call(dispatch, Err(failure)) {
        Err(RelayError::PendingReconciliation { reservation_id, reason }) => {
            assert_eq!(reservation_id, id);
            assert_eq!(reason, "HTTP error: connection reset");
        },
        other => panic!("unexpected outcome: {other:?}"),
    }
    assert_eq!(service.ledger.reservations().len(), 1);
    assert_eq!(service.ledger.reservations()[0].state, ReservationState::Pending);
    assert_eq!(service.usage_at(at(13, 0), Period::Day).unwrap().pending_microusd, 20);
}

#[test]
fn reported_usage_beyond_the_context_is_held() {
    let mut service = service("1.00");
    let request = request();
    let plan = service.begin_call("test:model".into(), "test".into(), "test", &request).unwrap();
    let dispatch = service.reserve_call(plan, &request, TokenEstimate { input_tokens: 10 }, at(12, 0)).unwrap();
    let response = RelayResponse {
        text: "ok".into(),
        usage: Usage { input_tokens: 990, output_tokens: 11 },
        model: "model".into(),
        latency_ms: 1,
        raw: "{}".into(),
    };
    match service.finish_call(dispatch, Ok(response)) {
        Err(RelayError::PendingReconciliation { reason, .. }) => assert_eq!(
            reason,
            "provider returned invalid usage data: provider reported 1001 tokens for a 1000-token model context"
        ),
        other => panic!("unexpected outcome: {other:?}"),
    }
    assert!(service.ledger.calls().is_empty());
}

#[test]
fn preflight_refusals_come_before_any_reservation() {
    let mut service = service("1.00");
    let request = request();
    assert_eq!(
        service.begin_call("test:model".into(), "test".into(), "other", &request).err(),
        Some(RelayError::UnsupportedProvider("adapter 'other' cannot serve provider 'test'".into()))
    );
    let mut streaming = request.clone();
    streaming.stream = true;
    assert_eq!(
        service.begin_call("test:model".into(), "test".into(), "test", &streaming).err(),
        Some(RelayError::StreamingUnsupported)
    );
    assert_eq!(
        service.begin_call("test:missing".into(), "test".into(), "test", &request).err(),
        Some(RelayError::UnknownModel("test:missing".into()))
    );
    let plan = service.begin_call("test:model".into(), "test".into(), "test", &request).unwrap();
    assert_eq!(
        service.reserve_call(plan, &request, TokenEstimate { input_tokens: 991 }, at(12, 0)).err(),
        Some(RelayError::ContextExceeded { requested_tokens: 1001, max_context: 1000 })
    );
    assert!(service.ledger.reservations().is_empty());
}

#[test]
fn ask_plan_resolves_alias_price_and_credential_variable() {
    let service = service("1.00");
    let plan = service.plan_ask("hello", None, false, None).unwrap();
    assert_eq!(plan.canonical_model, "test:model");
    assert_eq!(plan.provider, "test");
    assert_eq!(plan.credential_variable, "TEST_API_KEY");
    assert_eq!(plan.request.model, "model");
    assert_eq!(plan.request.max_output_tokens, Some(1024));
    assert_eq!(plan.request.messages, vec![Message::user("hello")]);
    assert_eq!(conservative_token_estimate(&plan.request).unwrap().input_tokens, 37);
    assert_eq!(
        service.plan_ask("hello", Some("nope"), false, None).err(),
        Some(RelayError::UnknownModel("nope".into()))
    );
    assert_eq!(
        service.plan_ask("hello", Some("other:model"), false, None).err(),
        Some(RelayError::UnknownModel("other:model".into()))
    );
}

#[test]
fn caps_are_updated_explicitly() {
    let mut service = service("1.00");
    assert_eq!(
        service.update_caps(None, None),
        Err(RelayError::Config("provide --daily-usd and/or --monthly-usd".into()))
    );
    service.update_caps(Some("2.50".into()), None).unwrap();
    assert_eq!(service.config.caps.daily_usd, "2.50");
    assert_eq!(service.config.caps.monthly_usd, "1.00");
    assert!(service.update_caps(None, Some("-1".into())).is_err());
    assert_eq!(service.config.caps.monthly_usd, "-1");
}

#[test]
fn unsent_request_releases_its_reservation() {
    let mut service = service("0.000020");
    let request = request();
    let plan = service.begin_call("test:model".into(), "test".into(), "test", &request).unwrap();
    let dispatch = service.reserve_call(plan, &request, TokenEstimate { input_tokens: 10 }, at(12, 0)).unwrap();
    let unsent = RelayError::NotSent("connection refused".into());
    assert_eq!(service.finish_call(dispatch, Err(unsent.clone())).err(), Some(unsent));
    assert!(service.ledger.reservations().is_empty());
    assert_eq!(service.usage_at(at(12, 1), Period::Day).unwrap().pending_microusd, 0);
    let adapter = FakeAdapter { calls: Cell::new(0) };
    assert!(execute_with_adapter(&mut service, &adapter, at(12, 2)).is_ok());
    assert_eq!(adapter.calls.get(), 1);
}
