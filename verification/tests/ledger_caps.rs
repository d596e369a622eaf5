use chrono::TimeZone;

use relay::config::CapLimits;
use relay::ledger::{check_cap, CallRecord, Ledger, ModelUsage, Period, ReservationState};
use relay::RelayError;

fn caps(daily: i64, monthly: i64) -> CapLimits {
    CapLimits { daily_microusd: daily, monthly_microusd: monthly, timezone: "UTC".to_string() }
}

fn noon() -> i64 {
    chrono::Utc.with_ymd_and_hms(2026, 7, 18, 12, 0, 0).unwrap().timestamp()
}

fn record(ts: i64, cost: i64) -> CallRecord {
    CallRecord {
        ts,
        provider: "test".to_string(),
        model: "test:model".to_string(),
        tokens_in: 10,
        tokens_out: 5,
        cost_microusd: cost,
        latency_ms: 7,
        session_id: "session".to_string(),
        route_tier: "direct".to_string(),
        deflected: false,
        price_input_per_mtok: "1".to_string(),
        price_output_per_mtok: "1".to_string(),
    }
}

#[test]
fn exact_cap_is_allowed_and_next_request_is_refused() {
    let mut ledger = Ledger::new();
    let now = noon();
    ledger.reserve(now, &caps(100, 1_000), 100, "test", "test:model").unwrap();
    assert!(matches!(
        ledger.reserve(now, &caps(100, 1_000), 1, "test", "test:model"),
        Err(RelayError::CapExceeded { period: "daily", .. })
    ));
}

#[test]
fn pending_reservations_remain_in_usage_and_caps() {
    let mut ledger = Ledger::new();
    let now = noon();
    let reservation = ledger.reserve(now, &caps(100, 100), 75, "test", "test:model").unwrap();
    ledger.mark_pending(&reservation.id, "ambiguous timeout").unwrap();
    let usage = ledger.usage(now, &caps(100, 100), Period::Day).unwrap();
    assert_eq!(usage.pending_microusd, 75);
    assert!(ledger.reserve(now, &caps(100, 100), 26, "test", "test:model").is_err());
}

#[test]
fn sequential_reservations_cannot_overbook_the_cap() {
    let mut ledger = Ledger::new();
    let now = noon();
    let first = ledger.reserve(now, &caps(100, 100), 75, "test", "test:model");
    let second = ledger.reserve(now, &caps(100, 100), 75, "test", "test:model");
    assert!(first.is_ok());
    assert_eq!(
        second,
        Err(RelayError::CapExceeded {
            period: "daily",
            spent_microusd: 0,
            reserved_microusd: 75,
            request_microusd: 75,
            cap_microusd: 100,
        })
    );
    assert_eq!(ledger.reservations().len(), 1);
}

#[test]
fn monthly_cap_is_checked_after_daily() {
    let mut ledger = Ledger::new();
    let now = noon();
    assert!(matches!(
        ledger.reserve(now, &caps(1_000, 50), 60, "test", "test:model"),
        Err(RelayError::CapExceeded { period: "monthly", .. })
    ));
    assert!(matches!(
        ledger.reserve(now, &caps(100, 100), -1, "test", "test:model"),
        Err(RelayError::AmountOutOfRange(m)) if m == "-1"
    ));
}

#[test]
fn settling_moves_the_hold_into_spend() {
    let mut ledger = Ledger::new();
    let now = noon();
    let limits = caps(1_000, 10_000);
    let reservation = ledger.reserve(now, &limits, 300, "test", "test:model").unwrap();
    let held = ledger.usage(now, &limits, Period::Day).unwrap();
    assert_eq!((held.total_microusd, held.pending_microusd), (0, 300));
    ledger.settle(&reservation.id, &record(now, 120), &limits).unwrap();
    let day = ledger.usage(now, &limits, Period::Day).unwrap();
    assert_eq!(day.total_microusd, 120);
    assert_eq!(day.pending_microusd, 0);
    assert_eq!((day.calls, day.tokens_in, day.tokens_out), (1, 10, 5));
    assert_eq!(
        day.by_model.get("test:model"),
        Some(&ModelUsage { calls: 1, tokens_in: 10, tokens_out: 5, cost_microusd: 120 })
    );
    assert_eq!(ledger.calls()[0].day_key, "2026-07-18");
    assert_eq!(ledger.calls()[0].month_key, "2026-07");
    assert!(ledger.reservations().is_empty());
    assert!(matches!(
        ledger.settle(&reservation.id, &record(now, 1), &limits),
        Err(RelayError::ReservationUnavailable(id)) if id == reservation.id
    ));
}

#[test]
fn settle_refuses_negative_cost_and_keeps_the_hold() {
    let mut ledger = Ledger::new();
    let now = noon();
    let limits = caps(1_000, 1_000);
    let reservation = ledger.reserve(now, &limits, 10, "test", "test:model").unwrap();
    assert_eq!(
        ledger.settle(&reservation.id, &record(now, -5), &limits),
        Err(RelayError::Ledger("CHECK constraint failed: cost_microusd >= 0".to_string()))
    );
    let mut huge = record(now, 1);
    huge.tokens_in = u64::MAX;
    assert_eq!(
        ledger.settle(&reservation.id, &huge, &limits),
        Err(RelayError::AmountOutOfRange(format!("input tokens: {}", u64::MAX)))
    );
    assert_eq!(ledger.reservations().len(), 1);
    assert!(ledger.calls().is_empty());
}

#[test]
fn release_undoes_a_reservation() {
    let mut ledger = Ledger::new();
    let now = noon();
    let limits = caps(100, 100);
    let reservation = ledger.reserve(now, &limits, 100, "test", "test:model").unwrap();
    ledger.release(&reservation.id).unwrap();
    assert_eq!(ledger.usage(now, &limits, Period::Month).unwrap().pending_microusd, 0);
    assert!(ledger.reserve(now, &limits, 100, "test", "test:model").is_ok());
    assert!(ledger.release("no-such-id").is_ok());
}

#[test]
fn lapsed_reservations_stop_holding() {
    let mut ledger = Ledger::new();
    let now = noon();
    let limits = caps(100, 100);
    ledger.reserve(now, &limits, 100, "test", "test:model").unwrap();
    assert!(ledger.reserve(now + 599, &limits, 1, "test", "test:model").is_err());
    assert!(ledger.reserve(now + 600, &limits, 100, "test", "test:model").is_ok());
}

#[test]
fn pending_reservations_do_not_lapse_and_keep_their_reason() {
    let mut ledger = Ledger::new();
    let now = noon();
    let limits = caps(100, 100);
    let reservation = ledger.reserve(now, &limits, 100, "test", "test:model").unwrap();
    ledger.mark_pending(&reservation.id, &"r".repeat(600)).unwrap();
    let row = &ledger.reservations()[0];
    assert_eq!(row.state, ReservationState::Pending);
    assert_eq!(row.reconciliation_reason.as_ref().map(|r| r.len()), Some(500));
    assert!(ledger.reserve(now + 3_600, &limits, 1, "test", "test:model").is_err());
    assert!(matches!(
        ledger.mark_pending(&reservation.id, "again"),
        Err(RelayError::ReservationUnavailable(_))
    ));
}

#[test]
fn periods_follow_the_cap_time_zone() {
    let mut ledger = Ledger::new();
    let late = chrono::Utc.with_ymd_and_hms(2026, 7, 31, 23, 30, 0).unwrap().timestamp();
    let tokyo = CapLimits { daily_microusd: 100, monthly_microusd: 100, timezone: "Asia/Tokyo".to_string() };
    ledger.reserve(late, &tokyo, 40, "test", "test:model").unwrap();
    let row = &ledger.reservations()[0];
    assert_eq!(row.day_key, "2026-08-01");
    assert_eq!(row.month_key, "2026-08");
}

#[test]
fn stored_rows_are_checked_when_loaded() {
    assert!(Ledger::from_rows(Vec::new(), Vec::new()).is_ok());
    assert_eq!(relay::ledger::to_i64(5, "latency"), Ok(5));
    assert_eq!(
        relay::ledger::to_i64(u64::MAX, "latency"),
        Err(RelayError::AmountOutOfRange(format!("latency: {}", u64::MAX)))
    );
    assert_eq!(relay::ledger::from_i64(3, "tokens"), Ok(3));
    assert_eq!(
        relay::ledger::from_i64(-3, "tokens"),
        Err(RelayError::InvalidUsage("negative tokens in ledger".to_string()))
    );
}

#[test]
fn release_gives_back_the_whole_budget() {
    let mut ledger = Ledger::new();
    let now = noon();
    let limits = caps(100, 100);
    let first = ledger.reserve(now, &limits, 75, "test", "test:model").unwrap();
    assert!(ledger.reserve(now, &limits, 75, "test", "test:model").is_err());
    ledger.release(&first.id).unwrap();
    let again = ledger.reserve(now, &limits, 75, "test", "test:model").unwrap();
    assert_ne!(again.id, first.id);
    assert_eq!(ledger.usage(now, &limits, Period::Day).unwrap().pending_microusd, 75);
}

#[test]
fn cap_check_takes_any_amounts() {
    assert_eq!(check_cap(Period::Day, 0, 100, 0, 100), Ok(()));
    assert!(matches!(check_cap(Period::Day, 0, 100, 1, 100), Err(RelayError::CapExceeded { period: "daily", .. })));
    assert_eq!(check_cap(Period::Month, -50, 100, 40, 100), Ok(()));
    assert_eq!(
        check_cap(Period::Day, i64::MAX, 1, -5, i64::MAX),
        Err(RelayError::AmountOutOfRange("cap projection overflow".to_string()))
    );
    assert_eq!(
        check_cap(Period::Day, i64::MAX - 1, 1, 1, i64::MAX),
        Err(RelayError::AmountOutOfRange("cap projection overflow".to_string()))
    );
}
