//! The ledger of settled calls and held reservations, and the hard-cap
//! check that every reservation passes before a provider is called.
//!
//! The ledger here is the state itself; storing it is left to whoever holds it.
//! Each operation either succeeds and changes the state as its contract says, or
//! fails and leaves it exactly as it was, as one storage transaction would.

use vstd::prelude::*;
use vstd::string::StringExecFns;
use crate::config::{spec_known_timezone, CapLimits};
use crate::decimal::fits_i64;
use crate::error::{RelayError, Result};
use crate::namemap::{has_key, lookup, NameMap};
use crate::pricing::is_out_of_range;
use crate::text::{first_chars, first_n, int_text, int_to_text};

verus! {

/// How long a reservation holds its amount before it lapses, in seconds.
pub const RESERVATION_TTL_SECONDS: i64 = 600;

/// The timestamps the library accepts: whole seconds since the Unix epoch that
/// `chrono` can date (years -262143 to 262142).
pub open spec fn valid_timestamp(t: int) -> bool {
    -8_334_601_228_800 <= t <= 8_210_266_876_799
}

/// Whether the library accepts a timestamp.
pub fn valid_time(t: i64) -> (r: bool)
    ensures
        r == valid_timestamp(t as int),
{
    -8_334_601_228_800 <= t && t <= 8_210_266_876_799
}

/// The accounting period of a cap.
#[derive(Clone, Copy, Debug, PartialEq, Eq, Structural)]
pub enum Period {
    Day,
    Month,
}

/// A held amount: the reservation's identifier and what it holds.
#[derive(Clone, Debug, PartialEq, Eq)]
pub struct Reservation {
    pub id: String,
    pub amount_microusd: i64,
}

/// One completed provider call as it is recorded.
#[derive(Debug)]
pub struct CallRecord {
    pub ts: i64,
    pub provider: String,
    pub model: String,
    pub tokens_in: u64,
    pub tokens_out: u64,
    pub cost_microusd: i64,
    pub latency_ms: u64,
    pub session_id: String,
    pub route_tier: String,
    pub deflected: bool,
    pub price_input_per_mtok: String,
    pub price_output_per_mtok: String,
}

/// A recorded call together with the local day and month it counts toward.
#[derive(Debug)]
pub struct StoredCall {
    pub day_key: String,
    pub month_key: String,
    pub record: CallRecord,
}

/// Whether a reservation is held for a call in progress, or waits for
/// reconciliation after an ambiguous provider outcome.
#[derive(Clone, Copy, Debug, PartialEq, Eq, Structural)]
pub enum ReservationState {
    Active,
    Pending,
}

/// A held reservation as it is recorded.
#[derive(Debug)]
pub struct StoredReservation {
    pub id: String,
    pub created_at: i64,
    pub expires_at: i64,
    pub day_key: String,
    pub month_key: String,
    pub amount_microusd: i64,
    pub state: ReservationState,
    pub provider: String,
    pub model: String,
    pub reconciliation_reason: Option<String>,
}

/// Per-model totals of one period.
#[derive(Clone, Copy, Debug, Default, PartialEq, Eq)]
pub struct ModelUsage {
    pub calls: u64,
    pub tokens_in: u64,
    pub tokens_out: u64,
    pub cost_microusd: i64,
}

/// Totals of one period: settled spend, calls and tokens, per model, and the
/// amount still held by reservations.
#[derive(Clone, Debug)]
pub struct UsageSummary {
    pub total_microusd: i64,
    pub calls: u64,
    pub tokens_in: u64,
    pub tokens_out: u64,
    pub by_model: NameMap<ModelUsage>,
    pub pending_microusd: i64,
}

fn clone_opt_string(s: &Option<String>) -> (r: Option<String>)
    ensures
        r == *s,
{
    match s {
        Some(t) => Some(t.clone()),
        None => None,
    }
}

impl Clone for CallRecord {
    fn clone(&self) -> (r: Self)
        ensures
            r == *self,
    {
        CallRecord {
            ts: self.ts,
            provider: self.provider.clone(),
            model: self.model.clone(),
            tokens_in: self.tokens_in,
            tokens_out: self.tokens_out,
            cost_microusd: self.cost_microusd,
            latency_ms: self.latency_ms,
            session_id: self.session_id.clone(),
            route_tier: self.route_tier.clone(),
            deflected: self.deflected,
            price_input_per_mtok: self.price_input_per_mtok.clone(),
            price_output_per_mtok: self.price_output_per_mtok.clone(),
        }
    }
}

impl Clone for StoredCall {
    fn clone(&self) -> (r: Self)
        ensures
            r == *self,
    {
        StoredCall { day_key: self.day_key.clone(), month_key: self.month_key.clone(), record: self.record.clone() }
    }
}

impl Clone for StoredReservation {
    fn clone(&self) -> (r: Self)
        ensures
            r == *self,
    {
        StoredReservation {
            id: self.id.clone(),
            created_at: self.created_at,
            expires_at: self.expires_at,
            day_key: self.day_key.clone(),
            month_key: self.month_key.clone(),
            amount_microusd: self.amount_microusd,
            state: self.state,
            provider: self.provider.clone(),
            model: self.model.clone(),
            reconciliation_reason: clone_opt_string(&self.reconciliation_reason),
        }
    }
}

// ---------------------------------------------------------------------------
// The model of the ledger.

/// The key a call counts toward in a period.
pub open spec fn call_key(c: StoredCall, p: Period) -> Seq<char> {
    match p {
        Period::Day => c.day_key@,
        Period::Month => c.month_key@,
    }
}

/// The key a reservation counts toward in a period.
pub open spec fn reservation_key(r: StoredReservation, p: Period) -> Seq<char> {
    match p {
        Period::Day => r.day_key@,
        Period::Month => r.month_key@,
    }
}

/// Settled spend of the calls that count toward `key`.
pub open spec fn spent(calls: Seq<StoredCall>, p: Period, key: Seq<char>) -> int
    decreases calls.len(),
{
    if calls.len() == 0 {
        0
    } else {
        spent(calls.drop_last(), p, key) + if call_key(calls.last(), p) == key {
            calls.last().record.cost_microusd as int
        } else {
            0
        }
    }
}

/// Amount held by the reservations that count toward `key`.
pub open spec fn held(res: Seq<StoredReservation>, p: Period, key: Seq<char>) -> int
    decreases res.len(),
{
    if res.len() == 0 {
        0
    } else {
        held(res.drop_last(), p, key) + if reservation_key(res.last(), p) == key {
            res.last().amount_microusd as int
        } else {
            0
        }
    }
}

/// Whether a reservation has lapsed at `now`: still active, and expired.
pub open spec fn lapsed(r: StoredReservation, now: int) -> bool {
    r.state == ReservationState::Active && r.expires_at <= now
}

/// The reservations that remain once lapsed ones are dropped, in order.
pub open spec fn purge(res: Seq<StoredReservation>, now: int) -> Seq<StoredReservation>
    decreases res.len(),
{
    if res.len() == 0 {
        res
    } else if lapsed(res.last(), now) {
        purge(res.drop_last(), now)
    } else {
        purge(res.drop_last(), now).push(res.last())
    }
}

/// Whether some reservation carries the identifier.
pub open spec fn has_reservation(res: Seq<StoredReservation>, id: Seq<char>) -> bool {
    exists|i: int| 0 <= i < res.len() && #[trigger] res[i].id@ == id
}

/// What `chrono` prints for a timestamp in a time zone with a format string.
pub uninterp spec fn spec_local_time_text(now: int, timezone: Seq<char>, format: Seq<char>) -> Seq<char>;

/// The format of a period's key: the local date `%Y-%m-%d` for a day, the local
/// month `%Y-%m` for a month.
pub open spec fn period_format(p: Period) -> Seq<char> {
    match p {
        Period::Day => "%Y-%m-%d"@,
        Period::Month => "%Y-%m"@,
    }
}

/// The key of a period for a timestamp.
pub open spec fn period_key_of(now: int, timezone: Seq<char>, p: Period) -> Seq<char> {
    spec_local_time_text(now, timezone, period_format(p))
}

/// `DateTime::from_timestamp`, `with_timezone` and `format` (`chrono`,
/// `chrono_tz`): the local time of a timestamp in a known IANA zone, printed with
/// one of the period formats. The text is named by `spec_local_time_text`; the
/// calendar is not stated here. The zone and timestamp are in range, and the
/// formats are valid, so nothing panics.
#[verifier::external_body]
fn local_time_text(now: i64, timezone: &str, format: &str) -> (r: String)
    requires
        spec_known_timezone(timezone@),
        valid_timestamp(now as int),
        format@ == period_format(Period::Day) || format@ == period_format(Period::Month),
    ensures
        r@ == spec_local_time_text(now as int, timezone@, format@),
{
    let zone: chrono_tz::Tz = timezone.parse().unwrap();
    chrono::DateTime::from_timestamp(now, 0).unwrap().with_timezone(&zone).format(format).to_string()
}

/// The local day and month keys of a timestamp.
fn period_keys(now: i64, timezone: &str) -> (r: (String, String))
    requires
        spec_known_timezone(timezone@),
        valid_timestamp(now as int),
    ensures
        r.0@ == period_key_of(now as int, timezone@, Period::Day),
        r.1@ == period_key_of(now as int, timezone@, Period::Month),
{
    (local_time_text(now, timezone, "%Y-%m-%d"), local_time_text(now, timezone, "%Y-%m"))
}

/// `Uuid::new_v4` (`uuid`), as hyphenated text: a fresh random identifier.
/// Nothing is claimed of it; in particular not that it differs from earlier ones.
#[verifier::external_body]
pub(crate) fn new_uuid() -> (r: String) {
    uuid::Uuid::new_v4().to_string()
}

/// Settled spend toward a period key (`SUM(cost_microusd)` over the calls);
/// `None` when the sum leaves `i64`, as the storage's `SUM` does.
fn sum_calls(calls: &Vec<StoredCall>, p: Period, key: &String) -> (r: Option<i64>)
    requires
        forall|i: int| 0 <= i < calls@.len() ==> call_row_ok(#[trigger] calls@[i]),
    ensures
        spent(calls@, p, key@) >= 0,
        match r {
            Some(v) => v == spent(calls@, p, key@),
            None => spent(calls@, p, key@) > i64::MAX,
        },
{
    let mut acc: i128 = 0;
    let mut i: usize = 0;
    while i < calls.len()
        invariant
            i <= calls@.len(),
            forall|j: int| 0 <= j < calls@.len() ==> call_row_ok(#[trigger] calls@[j]),
            acc == spent(calls@.subrange(0, i as int), p, key@),
            0 <= acc <= i * 0x7fff_ffff_ffff_ffff,
        decreases calls@.len() - i,
    {
        let c = &calls[i];
        let matches_key = match p {
            Period::Day => c.day_key == *key,
            Period::Month => c.month_key == *key,
        };
        proof {
            assert(calls@.subrange(0, i + 1).drop_last() =~= calls@.subrange(0, i as int));
            assert(call_row_ok(calls@[i as int]));
        }
        if matches_key {
            acc = acc + c.record.cost_microusd as i128;
        }
        i = i + 1;
    }
    proof {
        assert(calls@.subrange(0, calls@.len() as int) =~= calls@);
    }
    if acc > 0x7fff_ffff_ffff_ffff {
        None
    } else {
        Some(acc as i64)
    }
}

/// Amount held toward a period key (`SUM(amount_microusd)` over the reservations);
/// `None` when the sum leaves `i64`.
fn sum_reservations(res: &Vec<StoredReservation>, p: Period, key: &String) -> (r: Option<i64>)
    requires
        forall|i: int| 0 <= i < res@.len() ==> (#[trigger] res@[i]).amount_microusd >= 0,
    ensures
        held(res@, p, key@) >= 0,
        match r {
            Some(v) => v == held(res@, p, key@),
            None => held(res@, p, key@) > i64::MAX,
        },
{
    let mut acc: i128 = 0;
    let mut i: usize = 0;
    while i < res.len()
        invariant
            i <= res@.len(),
            forall|j: int| 0 <= j < res@.len() ==> (#[trigger] res@[j]).amount_microusd >= 0,
            acc == held(res@.subrange(0, i as int), p, key@),
            0 <= acc <= i * 0x7fff_ffff_ffff_ffff,
        decreases res@.len() - i,
    {
        let r = &res[i];
        let matches_key = match p {
            Period::Day => r.day_key == *key,
            Period::Month => r.month_key == *key,
        };
        proof {
            assert(res@.subrange(0, i + 1).drop_last() =~= res@.subrange(0, i as int));
            assert(res@[i as int].amount_microusd >= 0);
        }
        if matches_key {
            acc = acc + r.amount_microusd as i128;
        }
        i = i + 1;
    }
    proof {
        assert(res@.subrange(0, res@.len() as int) =~= res@);
    }
    if acc > 0x7fff_ffff_ffff_ffff {
        None
    } else {
        Some(acc as i64)
    }
}

/// The reservations that remain at `now`, lapsed ones dropped.
fn purge_rows(res: &Vec<StoredReservation>, now: i64) -> (r: Vec<StoredReservation>)
    ensures
        r@ == purge(res@, now as int),
{
    let mut out: Vec<StoredReservation> = Vec::new();
    let mut i: usize = 0;
    while i < res.len()
        invariant
            i <= res@.len(),
            out@ == purge(res@.subrange(0, i as int), now as int),
        decreases res@.len() - i,
    {
        proof {
            assert(res@.subrange(0, i + 1).drop_last() =~= res@.subrange(0, i as int));
        }
        let lapsed_now = res[i].state == ReservationState::Active && res[i].expires_at <= now;
        if !lapsed_now {
            out.push(res[i].clone());
        }
        i = i + 1;
    }
    proof {
        assert(res@.subrange(0, res@.len() as int) =~= res@);
    }
    out
}

/// Purging keeps only rows of the original, so it keeps the storage's rules.
proof fn lemma_purge_subset(res: Seq<StoredReservation>, now: int)
    ensures
        purge(res, now).len() <= res.len(),
        forall|i: int| 0 <= i < purge(res, now).len() ==> exists|j: int| 0 <= j < res.len() && #[trigger] purge(res, now)[i] == res[j],
    decreases res.len(),
{
    if res.len() > 0 {
        lemma_purge_subset(res.drop_last(), now);
        let p = purge(res.drop_last(), now);
        assert forall|i: int| 0 <= i < purge(res, now).len() implies exists|j: int| 0 <= j < res.len() && #[trigger] purge(res, now)[i] == res[j] by {
            if i < p.len() {
                let j = choose|j: int| 0 <= j < res.drop_last().len() && p[i] == res.drop_last()[j];
                assert(res.drop_last()[j] == res[j]);
                assert(purge(res, now)[i] == p[i]);
            } else {
                assert(purge(res, now)[i] == res.last());
                assert(res[res.len() - 1] == res.last());
            }
        }
    }
}

/// Purging keeps the relative order of rows, so distinct ids stay distinct.
proof fn lemma_purge_rows_ok(res: Seq<StoredReservation>, now: int)
    requires
        forall|i: int| 0 <= i < res.len() ==> (#[trigger] res[i]).amount_microusd >= 0,
        forall|i: int, j: int| 0 <= i < j < res.len() ==> (#[trigger] res[i]).id@ != (#[trigger] res[j]).id@,
    ensures
        forall|i: int| 0 <= i < purge(res, now).len() ==> (#[trigger] purge(res, now)[i]).amount_microusd >= 0,
        forall|i: int, j: int| 0 <= i < j < purge(res, now).len() ==> (#[trigger] purge(res, now)[i]).id@ != (
        #[trigger] purge(res, now)[j]).id@,
    decreases res.len(),
{
    if res.len() > 0 {
        let d = res.drop_last();
        lemma_purge_rows_ok(d, now);
        lemma_purge_subset(d, now);
        lemma_purge_subset(res, now);
        let p = purge(d, now);
        let q = purge(res, now);
        if !lapsed(res.last(), now) {
            assert forall|i: int, j: int| 0 <= i < j < q.len() implies (#[trigger] q[i]).id@ != (#[trigger] q[j]).id@ by {
                if j < p.len() {
                    assert(q[i] == p[i] && q[j] == p[j]);
                } else {
                    assert(q[j] == res.last());
                    assert(q[i] == p[i]);
                    let k = choose|k: int| 0 <= k < d.len() && p[i] == d[k];
                    assert(d[k] == res[k]);
                    assert(res[k].id@ != res[res.len() - 1].id@);
                }
            }
        }
        assert forall|i: int| 0 <= i < q.len() implies (#[trigger] q[i]).amount_microusd >= 0 by {
            let k = choose|k: int| 0 <= k < res.len() && q[i] == res[k];
            assert(res[k].amount_microusd >= 0);
        }
    }
}

/// Why a reservation is refused, in the order the checks run.
pub enum Refusal {
    NegativeAmount,
    SumOverflow,
    ProjectionOverflow,
    CapExceeded(Period),
    DuplicateId,
}

/// The first check a reservation of `amount` under `id` fails at `now`, if any.
pub open spec fn reserve_refusal(
    calls: Seq<StoredCall>,
    res: Seq<StoredReservation>,
    now: int,
    caps: CapLimits,
    amount: int,
    id: Seq<char>,
) -> Option<Refusal> {
    match cap_refusal(calls, res, now, caps, amount) {
        Some(why) => Some(why),
        None => if has_reservation(purge(res, now), id) {
            Some(Refusal::DuplicateId)
        } else {
            None
        },
    }
}

/// The first check, before the identifier is considered, that a reservation of
/// `amount` at `now` fails, if any.
pub open spec fn cap_refusal(
    calls: Seq<StoredCall>,
    res: Seq<StoredReservation>,
    now: int,
    caps: CapLimits,
    amount: int,
) -> Option<Refusal> {
    let live = purge(res, now);
    let dk = period_key_of(now, caps.timezone@, Period::Day);
    let mk = period_key_of(now, caps.timezone@, Period::Month);
    let ds = spent(calls, Period::Day, dk);
    let ms = spent(calls, Period::Month, mk);
    let dh = held(live, Period::Day, dk);
    let mh = held(live, Period::Month, mk);
    if amount < 0 {
        Some(Refusal::NegativeAmount)
    } else if !fits_i64(ds) || !fits_i64(ms) || !fits_i64(dh) || !fits_i64(mh) {
        Some(Refusal::SumOverflow)
    } else if !fits_i64(ds + dh + amount) {
        Some(Refusal::ProjectionOverflow)
    } else if ds + dh + amount > caps.daily_microusd {
        Some(Refusal::CapExceeded(Period::Day))
    } else if !fits_i64(ms + mh + amount) {
        Some(Refusal::ProjectionOverflow)
    } else if ms + mh + amount > caps.monthly_microusd {
        Some(Refusal::CapExceeded(Period::Month))
    } else {
        None
    }
}

/// `row` is the reservation `reserve` records: active, holding `amount` for ten
/// minutes from `now`, counted toward the local day and month of `now`.
pub open spec fn fresh_reservation(
    row: StoredReservation,
    id: Seq<char>,
    now: int,
    caps: CapLimits,
    amount: int,
    provider: Seq<char>,
    model: Seq<char>,
) -> bool {
    &&& row.id@ == id
    &&& row.created_at == now
    &&& row.expires_at == now + RESERVATION_TTL_SECONDS
    &&& row.day_key@ == period_key_of(now, caps.timezone@, Period::Day)
    &&& row.month_key@ == period_key_of(now, caps.timezone@, Period::Month)
    &&& row.amount_microusd == amount
    &&& row.state == ReservationState::Active
    &&& row.provider@ == provider
    &&& row.model@ == model
    &&& row.reconciliation_reason is None
}

/// The reservation rows after a successful `reserve`: the old ones with lapsed
/// ones dropped, followed by the new one.
pub open spec fn reservation_added(
    before: Seq<StoredReservation>,
    after: Seq<StoredReservation>,
    id: Seq<char>,
    now: int,
    caps: CapLimits,
    amount: int,
    provider: Seq<char>,
    model: Seq<char>,
) -> bool {
    &&& after.len() == purge(before, now).len() + 1
    &&& after.drop_last() == purge(before, now)
    &&& fresh_reservation(after.last(), id, now, caps, amount, provider, model)
}

/// Settled spend plus held reservations in the period of `now`, for a period.
pub open spec fn committed(calls: Seq<StoredCall>, res: Seq<StoredReservation>, now: int, caps: CapLimits, p: Period) -> int {
    let key = period_key_of(now, caps.timezone@, p);
    spent(calls, p, key) + held(res, p, key)
}

/// Whether `e` is how `reserve` reports the refusal.
pub open spec fn refusal_reported(
    e: RelayError,
    why: Refusal,
    calls: Seq<StoredCall>,
    res: Seq<StoredReservation>,
    now: int,
    caps: CapLimits,
    amount: int,
) -> bool {
    let live = purge(res, now);
    match why {
        Refusal::NegativeAmount => e matches RelayError::AmountOutOfRange(m) && m@ == int_text(amount),
        Refusal::SumOverflow => e matches RelayError::Ledger(m) && m@ == "integer overflow"@,
        Refusal::ProjectionOverflow => e matches RelayError::AmountOutOfRange(m) && m@ == "cap projection overflow"@,
        Refusal::CapExceeded(p) => {
            let key = period_key_of(now, caps.timezone@, p);
            cap_exceeded_is(
                e,
                p,
                spent(calls, p, key),
                held(live, p, key),
                amount,
                match p {
                    Period::Day => caps.daily_microusd as int,
                    Period::Month => caps.monthly_microusd as int,
                },
            )
        },
        Refusal::DuplicateId => e matches RelayError::Ledger(m) && m@
            == "UNIQUE constraint failed: reservations.id"@,
    }
}

/// The name of a cap's period in messages.
pub open spec fn period_name(p: Period) -> Seq<char> {
    match p {
        Period::Day => "daily"@,
        Period::Month => "monthly"@,
    }
}

/// Whether `e` is the cap refusal for a period with these amounts.
pub open spec fn cap_exceeded_is(e: RelayError, p: Period, spent: int, reserved: int, request: int, cap: int) -> bool {
    e matches RelayError::CapExceeded { period, spent_microusd, reserved_microusd, request_microusd, cap_microusd }
        && period@ == period_name(p) && spent_microusd == spent && reserved_microusd == reserved
        && request_microusd == request && cap_microusd == cap
}

/// Whether `spent + reserved`, or that sum plus `request`, leaves `i64`, summed
/// in that order.
pub open spec fn cap_projection_overflows(spent: int, reserved: int, request: int) -> bool {
    !fits_i64(spent + reserved) || !fits_i64(spent + reserved + request)
}

/// Refuses a request whose cost, added to the period's settled spend and held
/// reservations, would pass the cap.
pub fn check_cap(period: Period, spent: i64, reserved: i64, request: i64, cap: i64) -> (r: Result<()>)
    ensures
        cap_projection_overflows(spent as int, reserved as int, request as int) ==> r is Err && is_out_of_range(
            r->Err_0,
            "cap projection overflow"@,
        ),
        !cap_projection_overflows(spent as int, reserved as int, request as int) && spent + reserved + request > cap
            ==> r is Err && cap_exceeded_is(r->Err_0, period, spent as int, reserved as int, request as int, cap as int),
        !cap_projection_overflows(spent as int, reserved as int, request as int) && spent + reserved + request <= cap
            ==> r is Ok,
{
    let projected = match spent.checked_add(reserved) {
        Some(v) => match v.checked_add(request) {
            Some(w) => w,
            None => return Err(RelayError::AmountOutOfRange(String::from_str("cap projection overflow"))),
        },
        None => return Err(RelayError::AmountOutOfRange(String::from_str("cap projection overflow"))),
    };
    if projected > cap {
        let name: &'static str = match period {
            Period::Day => "daily",
            Period::Month => "monthly",
        };
        return Err(
            RelayError::CapExceeded {
                period: name,
                spent_microusd: spent,
                reserved_microusd: reserved,
                request_microusd: request,
                cap_microusd: cap,
            },
        );
    }
    Ok(())
}

/// `held` of a pushed row adds the row's amount when its key matches.
proof fn lemma_held_push(res: Seq<StoredReservation>, r: StoredReservation, p: Period, key: Seq<char>)
    ensures
        held(res.push(r), p, key) == held(res, p, key) + if reservation_key(r, p) == key {
            r.amount_microusd as int
        } else {
            0
        },
{
    assert(res.push(r).drop_last() =~= res);
    assert(res.push(r).last() == r);
}

/// Calls, input tokens, output tokens and cost of one model's calls toward `key`.
pub open spec fn model_tally(calls: Seq<StoredCall>, p: Period, key: Seq<char>, model: Seq<char>) -> (nat, nat, nat, int)
    decreases calls.len(),
{
    if calls.len() == 0 {
        (0, 0, 0, 0)
    } else {
        let t = model_tally(calls.drop_last(), p, key, model);
        let c = calls.last();
        if call_key(c, p) == key && c.record.model@ == model {
            (t.0 + 1, t.1 + c.record.tokens_in as nat, t.2 + c.record.tokens_out as nat, t.3 + c.record.cost_microusd)
        } else {
            t
        }
    }
}

/// Calls, input tokens and output tokens of all calls toward `key`.
pub open spec fn period_tally(calls: Seq<StoredCall>, p: Period, key: Seq<char>) -> (nat, nat, nat)
    decreases calls.len(),
{
    if calls.len() == 0 {
        (0, 0, 0)
    } else {
        let t = period_tally(calls.drop_last(), p, key);
        let c = calls.last();
        if call_key(c, p) == key {
            (t.0 + 1, t.1 + c.record.tokens_in as nat, t.2 + c.record.tokens_out as nat)
        } else {
            t
        }
    }
}

/// Some model's token or cost total toward `key` does not fit the storage's
/// 64-bit sums.
pub open spec fn model_sum_overflows(calls: Seq<StoredCall>, p: Period, key: Seq<char>) -> bool {
    exists|m: Seq<char>|
        #![trigger model_tally(calls, p, key, m)]
        model_tally(calls, p, key, m).1 > i64::MAX || model_tally(calls, p, key, m).2 > i64::MAX
            || model_tally(calls, p, key, m).3 > i64::MAX
}

/// The summary is the totals of the calls and reservations toward `key`.
pub open spec fn summary_matches(
    s: UsageSummary,
    calls: Seq<StoredCall>,
    res: Seq<StoredReservation>,
    p: Period,
    key: Seq<char>,
) -> bool {
    &&& s.total_microusd == spent(calls, p, key)
    &&& s.calls == period_tally(calls, p, key).0
    &&& s.tokens_in == period_tally(calls, p, key).1
    &&& s.tokens_out == period_tally(calls, p, key).2
    &&& s.pending_microusd == held(res, p, key)
    &&& forall|m: Seq<char>|
        #![trigger lookup(s.by_model@, m)]
        (lookup(s.by_model@, m) is Some <==> model_tally(calls, p, key, m).0 > 0) && (lookup(s.by_model@, m) matches Some(
            u,
        ) ==> u.calls == model_tally(calls, p, key, m).0 && u.tokens_in == model_tally(calls, p, key, m).1
            && u.tokens_out == model_tally(calls, p, key, m).2 && u.cost_microusd == model_tally(
            calls,
            p,
            key,
            m,
        ).3)
}

/// A model's tallies only grow along the calls.
proof fn lemma_tally_grows(calls: Seq<StoredCall>, p: Period, key: Seq<char>, m: Seq<char>, k: int)
    requires
        0 <= k <= calls.len(),
        forall|i: int| 0 <= i < calls.len() ==> call_row_ok(#[trigger] calls[i]),
    ensures
        model_tally(calls.subrange(0, k), p, key, m).1 <= model_tally(calls, p, key, m).1,
        model_tally(calls.subrange(0, k), p, key, m).2 <= model_tally(calls, p, key, m).2,
        model_tally(calls.subrange(0, k), p, key, m).3 <= model_tally(calls, p, key, m).3,
    decreases calls.len(),
{
    if k == calls.len() {
        assert(calls.subrange(0, k) =~= calls);
    } else {
        let d = calls.drop_last();
        assert(d.subrange(0, k) =~= calls.subrange(0, k));
        assert forall|i: int| 0 <= i < d.len() implies call_row_ok(#[trigger] d[i]) by {
            assert(d[i] == calls[i]);
        }
        lemma_tally_grows(d, p, key, m, k);
        assert(call_row_ok(calls[calls.len() - 1]));
    }
}

/// What `usage` returns for the period of `now`: an error when a total does
/// not fit the storage's 64-bit sums, else the totals of the period.
pub open spec fn usage_outcome(
    calls: Seq<StoredCall>,
    res: Seq<StoredReservation>,
    now: int,
    caps: CapLimits,
    period: Period,
    r: Result<UsageSummary>,
) -> bool {
    let key = period_key_of(now, caps.timezone@, period);
    if model_sum_overflows(calls, period, key) {
        r is Err && is_ledger_error(r->Err_0, "integer overflow"@)
    } else if spent(calls, period, key) > i64::MAX || period_tally(calls, period, key).1 > u64::MAX
        || period_tally(calls, period, key).2 > u64::MAX {
        r is Err && is_out_of_range(r->Err_0, "usage total overflow"@)
    } else if held(res, period, key) > i64::MAX {
        r is Err && is_ledger_error(r->Err_0, "integer overflow"@)
    } else {
        r is Ok && summary_matches(r->Ok_0, calls, res, period, key)
    }
}

/// Whether `e` is a ledger-storage error carrying `text`.
pub open spec fn is_ledger_error(e: RelayError, text: Seq<char>) -> bool {
    e matches RelayError::Ledger(m) && m@ == text
}

/// Why `settle` is refused, in the order of its checks.
pub enum SettleRefusal {
    Unavailable,
    InputTokens,
    OutputTokens,
    Latency,
    NegativeCost,
}

/// The first check `settle` fails for a call with these counts and cost, if any.
pub open spec fn settle_check(
    res: Seq<StoredReservation>,
    id: Seq<char>,
    tokens_in: u64,
    tokens_out: u64,
    latency_ms: u64,
    cost: int,
) -> Option<SettleRefusal> {
    if !has_reservation(res, id) {
        Some(SettleRefusal::Unavailable)
    } else if tokens_in > i64::MAX {
        Some(SettleRefusal::InputTokens)
    } else if tokens_out > i64::MAX {
        Some(SettleRefusal::OutputTokens)
    } else if latency_ms > i64::MAX {
        Some(SettleRefusal::Latency)
    } else if cost < 0 {
        Some(SettleRefusal::NegativeCost)
    } else {
        None
    }
}

/// The first check `settle` fails, if any.
pub open spec fn settle_refusal(res: Seq<StoredReservation>, id: Seq<char>, call: CallRecord) -> Option<SettleRefusal> {
    settle_check(res, id, call.tokens_in, call.tokens_out, call.latency_ms, call.cost_microusd as int)
}

/// The description of the error `settle` reports for a refusal.
pub open spec fn settle_refusal_text(
    why: SettleRefusal,
    id: Seq<char>,
    tokens_in: u64,
    tokens_out: u64,
    latency_ms: u64,
) -> Seq<char> {
    match why {
        SettleRefusal::Unavailable => "reservation '"@ + id + "' was not found or is no longer active"@,
        SettleRefusal::InputTokens => "amount is outside Relay's supported microdollar range: "@ + ("input tokens"@ + ": "@
            + int_text(tokens_in as int)),
        SettleRefusal::OutputTokens => "amount is outside Relay's supported microdollar range: "@ + (
        "output tokens"@ + ": "@ + int_text(tokens_out as int)),
        SettleRefusal::Latency => "amount is outside Relay's supported microdollar range: "@ + ("latency"@ + ": "@
            + int_text(latency_ms as int)),
        SettleRefusal::NegativeCost => "ledger error: "@ + "CHECK constraint failed: cost_microusd >= 0"@,
    }
}

/// Whether some total of the period of `now` does not fit the storage's sums,
/// so that `usage` fails.
pub open spec fn usage_fails(calls: Seq<StoredCall>, res: Seq<StoredReservation>, now: int, caps: CapLimits, period: Period) -> bool {
    let key = period_key_of(now, caps.timezone@, period);
    ||| model_sum_overflows(calls, period, key)
    ||| spent(calls, period, key) > i64::MAX
    ||| period_tally(calls, period, key).1 > u64::MAX
    ||| period_tally(calls, period, key).2 > u64::MAX
    ||| held(res, period, key) > i64::MAX
}

/// How `settle` reports a refusal.
pub open spec fn settle_refusal_reported(e: RelayError, why: SettleRefusal, id: Seq<char>, call: CallRecord) -> bool {
    match why {
        SettleRefusal::Unavailable => e matches RelayError::ReservationUnavailable(m) && m@ == id,
        SettleRefusal::InputTokens => is_out_of_range(e, "input tokens"@ + ": "@ + int_text(call.tokens_in as int)),
        SettleRefusal::OutputTokens => is_out_of_range(e, "output tokens"@ + ": "@ + int_text(call.tokens_out as int)),
        SettleRefusal::Latency => is_out_of_range(e, "latency"@ + ": "@ + int_text(call.latency_ms as int)),
        SettleRefusal::NegativeCost => e matches RelayError::Ledger(m) && m@
            == "CHECK constraint failed: cost_microusd >= 0"@,
    }
}

/// `row` records `call`, counted toward the local day and month of its time.
pub open spec fn recorded_call(row: StoredCall, call: CallRecord, caps: CapLimits) -> bool {
    &&& row.record == call
    &&& row.day_key@ == period_key_of(call.ts as int, caps.timezone@, Period::Day)
    &&& row.month_key@ == period_key_of(call.ts as int, caps.timezone@, Period::Month)
}

/// The position of the active reservation with an identifier, if any.
pub open spec fn active_index(res: Seq<StoredReservation>, id: Seq<char>) -> Option<int> {
    if exists|i: int| 0 <= i < res.len() && (#[trigger] res[i]).id@ == id && res[i].state == ReservationState::Active {
        Some(choose|i: int| 0 <= i < res.len() && (#[trigger] res[i]).id@ == id && res[i].state == ReservationState::Active)
    } else {
        None
    }
}

/// `after` is `before` waiting for reconciliation, with the reason recorded.
pub open spec fn marked_pending(before: StoredReservation, after: StoredReservation, reason: Seq<char>) -> bool {
    &&& after.id == before.id
    &&& after.created_at == before.created_at
    &&& after.expires_at == before.expires_at
    &&& after.day_key == before.day_key
    &&& after.month_key == before.month_key
    &&& after.amount_microusd == before.amount_microusd
    &&& after.provider == before.provider
    &&& after.model == before.model
    &&& after.state == ReservationState::Pending
    &&& after.reconciliation_reason matches Some(text) && text@ == first_n(reason, 500)
}

/// With unique identifiers, the row found for an identifier is the only one.
pub proof fn lemma_unique_reservation(res: Seq<StoredReservation>, id: Seq<char>, i: int)
    requires
        forall|a: int, b: int| 0 <= a < b < res.len() ==> (#[trigger] res[a]).id@ != (#[trigger] res[b]).id@,
        0 <= i < res.len(),
        res[i].id@ == id,
    ensures
        res[i].state == ReservationState::Active ==> active_index(res, id) == Some(i),
        res[i].state != ReservationState::Active ==> active_index(res, id) is None,
{
    if exists|k: int| 0 <= k < res.len() && (#[trigger] res[k]).id@ == id && res[k].state == ReservationState::Active {
        let k = choose|k: int| 0 <= k < res.len() && (#[trigger] res[k]).id@ == id && res[k].state == ReservationState::Active;
        if k != i {
            if k < i {
                assert(res[k].id@ != res[i].id@);
            } else {
                assert(res[i].id@ != res[k].id@);
            }
        }
    }
}

/// Rows that hold the same amounts under the same keys hold the same totals.
pub proof fn lemma_held_same(a: Seq<StoredReservation>, b: Seq<StoredReservation>, p: Period, key: Seq<char>)
    requires
        a.len() == b.len(),
        forall|i: int|
            0 <= i < a.len() ==> (#[trigger] a[i]).amount_microusd == b[i].amount_microusd && a[i].day_key@
                == b[i].day_key@ && a[i].month_key@ == b[i].month_key@,
    ensures
        held(a, p, key) == held(b, p, key),
    decreases a.len(),
{
    if a.len() > 0 {
        let a2 = a.drop_last();
        let b2 = b.drop_last();
        assert forall|i: int| 0 <= i < a2.len() implies (#[trigger] a2[i]).amount_microusd == b2[i].amount_microusd
            && a2[i].day_key@ == b2[i].day_key@ && a2[i].month_key@ == b2[i].month_key@ by {
            assert(a2[i] == a[i] && b2[i] == b[i]);
        }
        lemma_held_same(a2, b2, p, key);
        assert(a.last() == a[a.len() - 1] && b.last() == b[b.len() - 1]);
    }
}

/// A count as the storage's signed 64-bit integer; refused, naming the count,
/// when it does not fit.
pub fn to_i64(value: u64, name: &str) -> (r: Result<i64>)
    ensures
        value <= i64::MAX ==> r == Ok::<i64, RelayError>(value as i64),
        value > i64::MAX ==> r is Err && is_out_of_range(r->Err_0, name@ + ": "@ + int_text(value as int)),
{
    if value > 0x7fff_ffff_ffff_ffff {
        let mut m = String::from_str(name);
        m.append(": ");
        m.append(crate::text::nat_to_text(value as u128).as_str());
        return Err(RelayError::AmountOutOfRange(m));
    }
    Ok(value as i64)
}

/// A stored signed count read back as a count; a negative one is refused as
/// invalid usage data.
pub fn from_i64(value: i64, name: &str) -> (r: Result<u64>)
    ensures
        value >= 0 ==> r == Ok::<u64, RelayError>(value as u64),
        value < 0 ==> r is Err && (r->Err_0 matches RelayError::InvalidUsage(m) && m@ == "negative "@ + name@
            + " in ledger"@),
{
    if value < 0 {
        let mut m = String::from_str("negative ");
        m.append(name);
        m.append(" in ledger");
        return Err(RelayError::InvalidUsage(m));
    }
    Ok(value as u64)
}

/// The ledger: settled calls and held reservations.
#[derive(Debug)]
pub struct Ledger {
    calls: Vec<StoredCall>,
    reservations: Vec<StoredReservation>,
}

/// The rows the ledger's storage accepts: non-negative amounts and costs,
/// counts that fit its 64-bit signed integers, and unique reservation ids.
pub open spec fn rows_ok(calls: Seq<StoredCall>, res: Seq<StoredReservation>) -> bool {
    &&& forall|i: int| 0 <= i < calls.len() ==> call_row_ok(#[trigger] calls[i])
    &&& forall|i: int| 0 <= i < res.len() ==> (#[trigger] res[i]).amount_microusd >= 0
    &&& forall|i: int, j: int| 0 <= i < j < res.len() ==> (#[trigger] res[i]).id@ != (#[trigger] res[j]).id@
}

/// A call row the storage accepts.
pub open spec fn call_row_ok(c: StoredCall) -> bool {
    &&& c.record.cost_microusd >= 0
    &&& c.record.tokens_in <= i64::MAX
    &&& c.record.tokens_out <= i64::MAX
    &&& c.record.latency_ms <= i64::MAX
}

impl Ledger {
    #[verifier::type_invariant]
    pub closed spec fn well_formed(self) -> bool {
        rows_ok(self.calls@, self.reservations@)
    }

    /// The recorded calls, oldest first.
    pub closed spec fn call_rows(self) -> Seq<StoredCall> {
        self.calls@
    }

    /// The held reservations, oldest first.
    pub closed spec fn reservation_rows(self) -> Seq<StoredReservation> {
        self.reservations@
    }

    pub proof fn lemma_rows_ok(self)
        requires
            self.well_formed(),
        ensures
            rows_ok(self.call_rows(), self.reservation_rows()),
    {
    }

    /// An empty ledger.
    pub fn new() -> (r: Ledger)
        ensures
            r.call_rows().len() == 0,
            r.reservation_rows().len() == 0,
    {
        Ledger { calls: Vec::new(), reservations: Vec::new() }
    }

    /// A ledger holding stored rows; refused when a row breaks the storage's rules.
    pub fn from_rows(calls: Vec<StoredCall>, reservations: Vec<StoredReservation>) -> (r: Result<Ledger>)
        ensures
            r is Ok <==> rows_ok(calls@, reservations@),
            r matches Ok(l) ==> l.call_rows() == calls@ && l.reservation_rows() == reservations@,
            r matches Err(e) ==> e is Ledger,
    {
        let mut i: usize = 0;
        while i < calls.len()
            invariant
                i <= calls@.len(),
                forall|j: int| 0 <= j < i ==> call_row_ok(#[trigger] calls@[j]),
            decreases calls@.len() - i,
        {
            let c = &calls[i].record;
            if c.cost_microusd < 0 || c.tokens_in > 0x7fff_ffff_ffff_ffff || c.tokens_out > 0x7fff_ffff_ffff_ffff
                || c.latency_ms > 0x7fff_ffff_ffff_ffff {
                return Err(RelayError::Ledger(String::from_str("CHECK constraint failed: calls")));
            }
            i = i + 1;
        }
        let mut k: usize = 0;
        while k < reservations.len()
            invariant
                k <= reservations@.len(),
                forall|j: int| 0 <= j < k ==> (#[trigger] reservations@[j]).amount_microusd >= 0,
                forall|a: int, b: int| 0 <= a < b < k ==> (#[trigger] reservations@[a]).id@ != (
                #[trigger] reservations@[b]).id@,
            decreases reservations@.len() - k,
        {
            if reservations[k].amount_microusd < 0 {
                return Err(RelayError::Ledger(String::from_str("CHECK constraint failed: reservations")));
            }
            let mut m: usize = 0;
            while m < k
                invariant
                    k < reservations@.len(),
                    m <= k,
                    forall|a: int| 0 <= a < m ==> (#[trigger] reservations@[a]).id@ != reservations@[k as int].id@,
                decreases k - m,
            {
                if reservations[m].id == reservations[k].id {
                    return Err(
                        RelayError::Ledger(String::from_str("UNIQUE constraint failed: reservations.id")),
                    );
                }
                m = m + 1;
            }
            k = k + 1;
        }
        Ok(Ledger { calls, reservations })
    }

    /// Holds `amount_microusd` for a call under the identifier `id`, provided the
    /// day's and the month's settled spend plus held reservations plus this amount
    /// stay within both caps. Lapsed reservations are dropped first. On refusal the
    /// ledger is left as it was.
    #[verifier::loop_isolation(false)]
    pub fn reserve_with_id(
        &mut self,
        now: i64,
        caps: &CapLimits,
        amount_microusd: i64,
        provider: &str,
        model: &str,
        id: String,
    ) -> (r: Result<Reservation>)
        requires
            valid_timestamp(now as int),
            spec_known_timezone(caps.timezone@),
        ensures
            match reserve_refusal(
                old(self).call_rows(),
                old(self).reservation_rows(),
                now as int,
                *caps,
                amount_microusd as int,
                id@,
            ) {
                Some(why) => r is Err && refusal_reported(
                    r->Err_0,
                    why,
                    old(self).call_rows(),
                    old(self).reservation_rows(),
                    now as int,
                    *caps,
                    amount_microusd as int,
                ) && final(self).call_rows() == old(self).call_rows() && final(self).reservation_rows()
                    == old(self).reservation_rows(),
                None => r is Ok && r->Ok_0.id@ == id@ && r->Ok_0.amount_microusd == amount_microusd
                    && final(self).call_rows() == old(self).call_rows() && reservation_added(
                    old(self).reservation_rows(),
                    final(self).reservation_rows(),
                    id@,
                    now as int,
                    *caps,
                    amount_microusd as int,
                    provider@,
                    model@,
                ),
            },
            r is Ok ==> committed(final(self).call_rows(), final(self).reservation_rows(), now as int, *caps, Period::Day)
                <= caps.daily_microusd && committed(
                final(self).call_rows(),
                final(self).reservation_rows(),
                now as int,
                *caps,
                Period::Month,
            ) <= caps.monthly_microusd,
    {
        if amount_microusd < 0 {
            return Err(RelayError::AmountOutOfRange(int_to_text(amount_microusd)));
        }
        proof {
            use_type_invariant(&*self);
        }
        let (day_key, month_key) = period_keys(now, caps.timezone.as_str());
        let live = purge_rows(&self.reservations, now);
        proof {
            lemma_purge_rows_ok(self.reservations@, now as int);
        }
        let overflow = "integer overflow";
        let daily_spend = match sum_calls(&self.calls, Period::Day, &day_key) {
            Some(v) => v,
            None => return Err(RelayError::Ledger(String::from_str(overflow))),
        };
        let monthly_spend = match sum_calls(&self.calls, Period::Month, &month_key) {
            Some(v) => v,
            None => return Err(RelayError::Ledger(String::from_str(overflow))),
        };
        let daily_reserved = match sum_reservations(&live, Period::Day, &day_key) {
            Some(v) => v,
            None => return Err(RelayError::Ledger(String::from_str(overflow))),
        };
        let monthly_reserved = match sum_reservations(&live, Period::Month, &month_key) {
            Some(v) => v,
            None => return Err(RelayError::Ledger(String::from_str(overflow))),
        };
        check_cap(Period::Day, daily_spend, daily_reserved, amount_microusd, caps.daily_microusd)?;
        check_cap(Period::Month, monthly_spend, monthly_reserved, amount_microusd, caps.monthly_microusd)?;
        let mut i: usize = 0;
        while i < live.len()
            invariant
                i <= live@.len(),
                forall|j: int| 0 <= j < i ==> (#[trigger] live@[j]).id@ != id@,
            decreases live@.len() - i,
        {
            if live[i].id == id {
                return Err(RelayError::Ledger(String::from_str("UNIQUE constraint failed: reservations.id")));
            }
            i = i + 1;
        }
        let reservation = Reservation { id: id.clone(), amount_microusd };
        let row = StoredReservation {
            id,
            created_at: now,
            expires_at: now + RESERVATION_TTL_SECONDS,
            day_key,
            month_key,
            amount_microusd,
            state: ReservationState::Active,
            provider: provider.to_owned(),
            model: model.to_owned(),
            reconciliation_reason: None,
        };
        let ghost live_view = live@;
        let mut rows = live;
        rows.push(row);
        proof {
            assert(rows@.drop_last() =~= live_view);
            lemma_held_push(live_view, rows@.last(), Period::Day, day_key@);
            lemma_held_push(live_view, rows@.last(), Period::Month, month_key@);
            assert forall|a: int, b: int| 0 <= a < b < rows@.len() implies (#[trigger] rows@[a]).id@ != (
            #[trigger] rows@[b]).id@ by {
                if b == rows@.len() - 1 {
                    assert(rows@[a] == live_view[a]);
                } else {
                    assert(rows@[a] == live_view[a] && rows@[b] == live_view[b]);
                }
            }
            assert forall|a: int| 0 <= a < rows@.len() implies (#[trigger] rows@[a]).amount_microusd >= 0 by {
                if a < live_view.len() {
                    assert(rows@[a] == live_view[a]);
                }
            }
        }
        self.reservations = rows;
        Ok(reservation)
    }

    /// Holds `amount_microusd` for a call under a fresh random identifier; see
    /// `reserve_with_id`. When both caps allow the amount the reservation is made,
    /// unless the drawn identifier is that of a live reservation, which is refused
    /// as the storage would refuse it; with no live reservation it is always made.
    pub fn reserve(&mut self, now: i64, caps: &CapLimits, amount_microusd: i64, provider: &str, model: &str) -> (r:
        Result<Reservation>)
        requires
            valid_timestamp(now as int),
            spec_known_timezone(caps.timezone@),
        ensures
            match cap_refusal(
                old(self).call_rows(),
                old(self).reservation_rows(),
                now as int,
                *caps,
                amount_microusd as int,
            ) {
                Some(why) => r is Err && refusal_reported(
                    r->Err_0,
                    why,
                    old(self).call_rows(),
                    old(self).reservation_rows(),
                    now as int,
                    *caps,
                    amount_microusd as int,
                ) && final(self).call_rows() == old(self).call_rows() && final(self).reservation_rows()
                    == old(self).reservation_rows(),
                None => (r is Ok && r->Ok_0.amount_microusd == amount_microusd && final(self).call_rows()
                    == old(self).call_rows() && reservation_added(
                    old(self).reservation_rows(),
                    final(self).reservation_rows(),
                    r->Ok_0.id@,
                    now as int,
                    *caps,
                    amount_microusd as int,
                    provider@,
                    model@,
                )) || (r is Err && refusal_reported(
                    r->Err_0,
                    Refusal::DuplicateId,
                    old(self).call_rows(),
                    old(self).reservation_rows(),
                    now as int,
                    *caps,
                    amount_microusd as int,
                ) && final(self).call_rows() == old(self).call_rows() && final(self).reservation_rows()
                    == old(self).reservation_rows() && exists|id: Seq<char>|
                    #[trigger] has_reservation(purge(old(self).reservation_rows(), now as int), id)),
            },
            r is Ok ==> committed(final(self).call_rows(), final(self).reservation_rows(), now as int, *caps, Period::Day)
                <= caps.daily_microusd && committed(
                final(self).call_rows(),
                final(self).reservation_rows(),
                now as int,
                *caps,
                Period::Month,
            ) <= caps.monthly_microusd,
    {
        let id = new_uuid();
        let ghost drawn = id@;
        let r = self.reserve_with_id(now, caps, amount_microusd, provider, model, id);
        proof {
            if r is Err && cap_refusal(
                old(self).call_rows(),
                old(self).reservation_rows(),
                now as int,
                *caps,
                amount_microusd as int,
            ) is None {
                assert(has_reservation(purge(old(self).reservation_rows(), now as int), drawn));
            }
        }
        r
    }

    /// The position of the reservation with an identifier.
    fn find_reservation(&self, id: &str) -> (r: Option<usize>)
        ensures
            match r {
                Some(i) => i < self.reservation_rows().len() && self.reservation_rows()[i as int].id@ == id@,
                None => !has_reservation(self.reservation_rows(), id@),
            },
    {
        let key = id.to_owned();
        let mut i: usize = 0;
        while i < self.reservations.len()
            invariant
                i <= self.reservations@.len(),
                key@ == id@,
                forall|j: int| 0 <= j < i ==> (#[trigger] self.reservations@[j]).id@ != id@,
            decreases self.reservations@.len() - i,
        {
            if self.reservations[i].id == key {
                return Some(i);
            }
            i = i + 1;
        }
        None
    }

    /// Records a completed call against its reservation and drops the reservation.
    /// Refused, leaving the ledger as it was, when no reservation has the
    /// identifier, when a count does not fit the storage's 64-bit integers, or
    /// when the cost is negative.
    pub fn settle(&mut self, reservation_id: &str, call: &CallRecord, caps: &CapLimits) -> (r: Result<()>)
        requires
            valid_timestamp(call.ts as int),
            spec_known_timezone(caps.timezone@),
        ensures
            match settle_refusal(old(self).reservation_rows(), reservation_id@, *call) {
                Some(why) => r is Err && settle_refusal_reported(r->Err_0, why, reservation_id@, *call)
                    && final(self).call_rows() == old(self).call_rows() && final(self).reservation_rows()
                    == old(self).reservation_rows(),
                None => r is Ok && final(self).call_rows().len() == old(self).call_rows().len() + 1
                    && final(self).call_rows().drop_last() == old(self).call_rows() && recorded_call(
                    final(self).call_rows().last(),
                    *call,
                    *caps,
                ) && exists|i: int|
                    0 <= i < old(self).reservation_rows().len() && (#[trigger] old(self).reservation_rows()[i]).id@
                        == reservation_id@ && final(self).reservation_rows() == old(self).reservation_rows().remove(i),
            },
    {
        proof {
            use_type_invariant(&*self);
        }
        let (day_key, month_key) = period_keys(call.ts, caps.timezone.as_str());
        let index = match self.find_reservation(reservation_id) {
            Some(i) => i,
            None => return Err(RelayError::ReservationUnavailable(reservation_id.to_owned())),
        };
        to_i64(call.tokens_in, "input tokens")?;
        to_i64(call.tokens_out, "output tokens")?;
        to_i64(call.latency_ms, "latency")?;
        if call.cost_microusd < 0 {
            return Err(RelayError::Ledger(String::from_str("CHECK constraint failed: cost_microusd >= 0")));
        }
        let row = StoredCall { day_key, month_key, record: call.clone() };
        let ghost old_calls = self.calls@;
        let ghost old_res = self.reservations@;
        let mut calls = Vec::new();
        std::mem::swap(&mut calls, &mut self.calls);
        let mut reservations = Vec::new();
        std::mem::swap(&mut reservations, &mut self.reservations);
        calls.push(row);
        reservations.remove(index);
        proof {
            assert(calls@.drop_last() =~= old_calls);
            assert forall|a: int| 0 <= a < calls@.len() implies call_row_ok(#[trigger] calls@[a]) by {
                if a < old_calls.len() {
                    assert(calls@[a] == old_calls[a]);
                }
            }
            assert forall|a: int| 0 <= a < reservations@.len() implies (#[trigger] reservations@[a]).amount_microusd
                >= 0 by {
                if a < index {
                    assert(reservations@[a] == old_res[a]);
                } else {
                    assert(reservations@[a] == old_res[a + 1]);
                }
            }
            assert forall|a: int, b: int| 0 <= a < b < reservations@.len() implies (
            #[trigger] reservations@[a]).id@ != (#[trigger] reservations@[b]).id@ by {
                let a2 = if a < index { a } else { a + 1 };
                let b2 = if b < index { b } else { b + 1 };
                assert(reservations@[a] == old_res[a2]);
                assert(reservations@[b] == old_res[b2]);
            }
        }
        self.calls = calls;
        self.reservations = reservations;
        Ok(())
    }

    /// Drops the reservation with an identifier, if there is one.
    pub fn release(&mut self, reservation_id: &str) -> (r: Result<()>)
        ensures
            r is Ok,
            final(self).call_rows() == old(self).call_rows(),
            !has_reservation(old(self).reservation_rows(), reservation_id@) ==> final(self).reservation_rows()
                == old(self).reservation_rows(),
            has_reservation(old(self).reservation_rows(), reservation_id@) ==> exists|i: int|
                0 <= i < old(self).reservation_rows().len() && (#[trigger] old(self).reservation_rows()[i]).id@
                    == reservation_id@ && final(self).reservation_rows() == old(self).reservation_rows().remove(i),
    {
        proof {
            use_type_invariant(&*self);
        }
        match self.find_reservation(reservation_id) {
            Some(index) => {
                let ghost old_res = self.reservations@;
                let mut reservations = Vec::new();
                std::mem::swap(&mut reservations, &mut self.reservations);
                reservations.remove(index);
                proof {
                    assert forall|a: int| 0 <= a < reservations@.len() implies (
                    #[trigger] reservations@[a]).amount_microusd >= 0 by {
                        if a < index {
                            assert(reservations@[a] == old_res[a]);
                        } else {
                            assert(reservations@[a] == old_res[a + 1]);
                        }
                    }
                    assert forall|a: int, b: int| 0 <= a < b < reservations@.len() implies (
                    #[trigger] reservations@[a]).id@ != (#[trigger] reservations@[b]).id@ by {
                        let a2 = if a < index { a } else { a + 1 };
                        let b2 = if b < index { b } else { b + 1 };
                        assert(reservations@[a] == old_res[a2]);
                        assert(reservations@[b] == old_res[b2]);
                    }
                }
                self.reservations = reservations;
                Ok(())
            },
            None => Ok(()),
        }
    }

    /// Marks an active reservation as waiting for reconciliation, with the first
    /// 500 characters of the reason. The reservation keeps holding its amount.
    pub fn mark_pending(&mut self, reservation_id: &str, reason: &str) -> (r: Result<()>)
        ensures
            final(self).call_rows() == old(self).call_rows(),
            match active_index(old(self).reservation_rows(), reservation_id@) {
                Some(i) => r is Ok && final(self).reservation_rows().len() == old(self).reservation_rows().len()
                    && (forall|j: int|
                    0 <= j < old(self).reservation_rows().len() && j != i ==> #[trigger] final(self).reservation_rows()[j]
                        == old(self).reservation_rows()[j]) && marked_pending(
                    old(self).reservation_rows()[i],
                    final(self).reservation_rows()[i],
                    reason@,
                ),
                None => r is Err && r->Err_0 == RelayError::ReservationUnavailable(
                    r->Err_0->ReservationUnavailable_0,
                ) && r->Err_0->ReservationUnavailable_0@ == reservation_id@ && final(self).reservation_rows()
                    == old(self).reservation_rows(),
            },
    {
        proof {
            use_type_invariant(&*self);
        }
        let index = match self.find_reservation(reservation_id) {
            Some(i) => i,
            None => return Err(RelayError::ReservationUnavailable(reservation_id.to_owned())),
        };
        proof {
            lemma_unique_reservation(self.reservations@, reservation_id@, index as int);
        }
        if self.reservations[index].state != ReservationState::Active {
            return Err(RelayError::ReservationUnavailable(reservation_id.to_owned()));
        }
        let short = first_chars(reason, 500);
        let ghost old_res = self.reservations@;
        let mut reservations = Vec::new();
        std::mem::swap(&mut reservations, &mut self.reservations);
        let mut row = reservations[index].clone();
        row.state = ReservationState::Pending;
        row.reconciliation_reason = Some(short);
        reservations.set(index, row);
        proof {
            assert forall|a: int| 0 <= a < reservations@.len() implies (#[trigger] reservations@[a]).amount_microusd
                >= 0 by {
                if a != index {
                    assert(reservations@[a] == old_res[a]);
                }
            }
            assert forall|a: int, b: int| 0 <= a < b < reservations@.len() implies (
            #[trigger] reservations@[a]).id@ != (#[trigger] reservations@[b]).id@ by {
                assert(reservations@[a].id@ == old_res[a].id@);
                assert(reservations@[b].id@ == old_res[b].id@);
            }
        }
        self.reservations = reservations;
        Ok(())
    }

    /// The totals of the period (day or month) that contains `now`: settled spend,
    /// calls and tokens, per model, and the amount still held by reservations,
    /// lapsed ones included.
    pub fn usage(&self, now: i64, caps: &CapLimits, period: Period) -> (r: Result<UsageSummary>)
        requires
            valid_timestamp(now as int),
            spec_known_timezone(caps.timezone@),
        ensures
            usage_outcome(self.call_rows(), self.reservation_rows(), now as int, *caps, period, r),
    {
        proof {
            use_type_invariant(self);
        }
        let (day_key, month_key) = period_keys(now, caps.timezone.as_str());
        let key = match period {
            Period::Day => day_key,
            Period::Month => month_key,
        };
        let ghost kv = key@;
        let mut by_model: NameMap<ModelUsage> = NameMap::new();
        let mut calls_total: u64 = 0;
        let mut tin: u128 = 0;
        let mut tout: u128 = 0;
        let mut cost: i128 = 0;
        let mut i: usize = 0;
        while i < self.calls.len()
            invariant
                i <= self.calls@.len(),
                rows_ok(self.calls@, self.reservations@),
                key@ == kv,
                kv == period_key_of(now as int, caps.timezone@, period),
                calls_total == period_tally(self.calls@.subrange(0, i as int), period, kv).0,
                tin == period_tally(self.calls@.subrange(0, i as int), period, kv).1,
                tout == period_tally(self.calls@.subrange(0, i as int), period, kv).2,
                cost == spent(self.calls@.subrange(0, i as int), period, kv),
                calls_total <= i,
                tin <= i * 0x7fff_ffff_ffff_ffff,
                tout <= i * 0x7fff_ffff_ffff_ffff,
                0 <= cost <= i * 0x7fff_ffff_ffff_ffff,
                forall|m: Seq<char>|
                    #![trigger model_tally(self.calls@.subrange(0, i as int), period, kv, m)]
                    model_tally(self.calls@.subrange(0, i as int), period, kv, m).1 <= i64::MAX
                        && model_tally(self.calls@.subrange(0, i as int), period, kv, m).2 <= i64::MAX
                        && model_tally(self.calls@.subrange(0, i as int), period, kv, m).3 <= i64::MAX
                        && model_tally(self.calls@.subrange(0, i as int), period, kv, m).3 >= 0
                        && (model_tally(self.calls@.subrange(0, i as int), period, kv, m).0 == 0 ==> model_tally(
                        self.calls@.subrange(0, i as int),
                        period,
                        kv,
                        m,
                    ).1 == 0 && model_tally(self.calls@.subrange(0, i as int), period, kv, m).2 == 0 && model_tally(
                        self.calls@.subrange(0, i as int),
                        period,
                        kv,
                        m,
                    ).3 == 0),
                forall|m: Seq<char>|
                    #![trigger lookup(by_model@, m)]
                    (lookup(by_model@, m) is Some <==> model_tally(self.calls@.subrange(0, i as int), period, kv, m).0
                        > 0) && (lookup(by_model@, m) matches Some(u) ==> u.calls == model_tally(
                        self.calls@.subrange(0, i as int),
                        period,
                        kv,
                        m,
                    ).0 && u.tokens_in == model_tally(self.calls@.subrange(0, i as int), period, kv, m).1
                        && u.tokens_out == model_tally(self.calls@.subrange(0, i as int), period, kv, m).2
                        && u.cost_microusd == model_tally(self.calls@.subrange(0, i as int), period, kv, m).3),
                forall|m: Seq<char>|
                    #![trigger model_tally(self.calls@.subrange(0, i as int), period, kv, m)]
                    model_tally(self.calls@.subrange(0, i as int), period, kv, m).0 <= i,
            decreases self.calls@.len() - i,
        {
            let c = &self.calls[i];
            let ghost prefix = self.calls@.subrange(0, i as int);
            let ghost next = self.calls@.subrange(0, i + 1);
            proof {
                assert(next.drop_last() =~= prefix);
                assert(next.last() == self.calls@[i as int]);
                assert(call_row_ok(self.calls@[i as int]));
            }
            let in_period = match period {
                Period::Day => c.day_key == key,
                Period::Month => c.month_key == key,
            };
            if in_period {
                let ghost cm = c.record.model@;
                let previous = match by_model.get(c.record.model.as_str()) {
                    Some(u) => *u,
                    None => ModelUsage { calls: 0, tokens_in: 0, tokens_out: 0, cost_microusd: 0 },
                };
                proof {
                    assert(model_tally(prefix, period, kv, cm).1 <= i64::MAX);
                    assert(model_tally(next, period, kv, cm) == (
                        model_tally(prefix, period, kv, cm).0 + 1,
                        model_tally(prefix, period, kv, cm).1 + c.record.tokens_in as nat,
                        model_tally(prefix, period, kv, cm).2 + c.record.tokens_out as nat,
                        model_tally(prefix, period, kv, cm).3 + c.record.cost_microusd,
                    ));
                    assert(previous.tokens_in == model_tally(prefix, period, kv, cm).1);
                    assert(previous.tokens_out == model_tally(prefix, period, kv, cm).2);
                    assert(previous.cost_microusd == model_tally(prefix, period, kv, cm).3);
                    assert(previous.calls == model_tally(prefix, period, kv, cm).0);
                }
                let tokens_in = previous.tokens_in as u128 + c.record.tokens_in as u128;
                let tokens_out = previous.tokens_out as u128 + c.record.tokens_out as u128;
                let spent_model = previous.cost_microusd as i128 + c.record.cost_microusd as i128;
                if tokens_in > 0x7fff_ffff_ffff_ffff || tokens_out > 0x7fff_ffff_ffff_ffff
                    || spent_model > 0x7fff_ffff_ffff_ffff {
                    proof {
                        lemma_tally_grows(self.calls@, period, kv, cm, (i + 1) as int);
                        assert(model_tally(self.calls@, period, kv, cm).1 > i64::MAX
                            || model_tally(self.calls@, period, kv, cm).2 > i64::MAX
                            || model_tally(self.calls@, period, kv, cm).3 > i64::MAX);
                    }
                    return Err(RelayError::Ledger(String::from_str("integer overflow")));
                }
                let updated = ModelUsage {
                    calls: previous.calls + 1,
                    tokens_in: tokens_in as u64,
                    tokens_out: tokens_out as u64,
                    cost_microusd: spent_model as i64,
                };
                by_model.insert(c.record.model.clone(), updated);
                calls_total = calls_total + 1;
                tin = tin + c.record.tokens_in as u128;
                tout = tout + c.record.tokens_out as u128;
                cost = cost + c.record.cost_microusd as i128;
                proof {
                    assert forall|m: Seq<char>| m != cm implies #[trigger] model_tally(next, period, kv, m)
                        == model_tally(prefix, period, kv, m) by {
                        assert(next.last().record.model@ == cm);
                    }
                }
            } else {
                proof {
                    assert forall|m: Seq<char>| #[trigger] model_tally(next, period, kv, m) == model_tally(
                        prefix,
                        period,
                        kv,
                        m,
                    ) by {
                        assert(call_key(next.last(), period) != kv);
                    }
                }
            }
            i = i + 1;
        }
        proof {
            assert(self.calls@.subrange(0, self.calls@.len() as int) =~= self.calls@);
        }
        if cost > 0x7fff_ffff_ffff_ffff || tin > 0xffff_ffff_ffff_ffff || tout > 0xffff_ffff_ffff_ffff {
            return Err(RelayError::AmountOutOfRange(String::from_str("usage total overflow")));
        }
        let pending = match sum_reservations(&self.reservations, period, &key) {
            Some(v) => v,
            None => return Err(RelayError::Ledger(String::from_str("integer overflow"))),
        };
        Ok(
            UsageSummary {
                total_microusd: cost as i64,
                calls: calls_total,
                tokens_in: tin as u64,
                tokens_out: tout as u64,
                by_model,
                pending_microusd: pending,
            },
        )
    }

    /// The recorded calls, for storage.
    pub fn calls(&self) -> (r: &Vec<StoredCall>)
        ensures
            r@ == self.call_rows(),
    {
        &self.calls
    }

    /// The held reservations, for storage.
    pub fn reservations(&self) -> (r: &Vec<StoredReservation>)
        ensures
            r@ == self.reservation_rows(),
    {
        &self.reservations
    }
}

} // verus!
