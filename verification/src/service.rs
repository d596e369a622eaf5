//! The metered call: resolve the model, check the price, reserve the worst-case
//! cost against the caps, and settle the reported usage.
//!
//! A call runs in steps. `plan_ask` resolves what to call; `begin_call` checks the
//! adapter and the price; `reserve_call` holds the worst-case cost and returns the
//! `Dispatch` without which no provider is called; `finish_call` takes what the
//! provider answered and settles, releases or holds the reservation. Whoever runs
//! the steps performs the provider call between the last two.

use vstd::prelude::*;
use vstd::string::StringExecFns;
use crate::adapters::DEFAULT_MAX_OUTPUT_TOKENS;
use crate::config::{
    config_problem, cap_limits_outcome, opt_view, reports, requested_name, resolved_model, spec_known_timezone, AppPaths,
    CapLimits, Config,
};
use crate::error::{error_text, is_unknown_model, RelayError, Result};
use crate::ledger::{
    has_reservation, settle_check, settle_refusal_text, usage_fails, usage_outcome, cap_refusal, committed, held, new_uuid, period_key_of, purge, recorded_call, refusal_reported,
    reservation_added, settle_refusal, settle_refusal_reported, spent, valid_timestamp, CallRecord, Ledger, Period,
    Refusal, Reservation, ReservationState, StoredReservation, UsageSummary, summary_matches,
};
use crate::namemap::lookup;
use crate::decimal::decimal_text;
use crate::pricing::{
    is_config_error, cost_outcome, is_invalid_price, is_model_key, is_out_of_range, PriceCatalog, PriceEntry,
};
use crate::request::{Message, RelayRequest, RelayResponse, Role};
use crate::text::{chars_of, int_text, nat_to_text, spec_trim, string_from_chars};

verus! {

/// Everything a metered call needs: where the files are, the configuration,
/// the price table and the ledger.
pub struct RelayService {
    pub paths: AppPaths,
    pub config: Config,
    pub prices: PriceCatalog,
    pub ledger: Ledger,
}

/// A call that went through: the response, its settled cost, the model key it
/// was charged to, and a warning when a cap is 80% spent.
#[derive(Debug)]
pub struct CompletedCall {
    pub response: RelayResponse,
    pub cost_microusd: i64,
    pub canonical_model: String,
    pub warning: Option<String>,
}

/// The position of the colon of a model key.
pub open spec fn colon_index(key: Seq<char>) -> int {
    choose|i: int| 0 <= i < key.len() && key[i] == ':'
}

/// The provider part of a model key.
pub open spec fn provider_part(key: Seq<char>) -> Seq<char> {
    key.subrange(0, colon_index(key))
}

/// The model part of a model key.
pub open spec fn model_part(key: Seq<char>) -> Seq<char> {
    key.subrange(colon_index(key) + 1, key.len() as int)
}

/// Splits a `provider:model` key into its two parts.
pub fn split_model(model: &str) -> (r: Result<(String, String)>)
    ensures
        is_model_key(model@) ==> r is Ok && r->Ok_0.0@ == provider_part(model@) && r->Ok_0.1@ == model_part(model@),
        !is_model_key(model@) ==> r is Err && is_unknown_model(r->Err_0, model@),
{
    let chars = chars_of(model);
    let n = chars.len();
    let mut i: usize = 0;
    while i < n && chars[i] != ':'
        invariant
            n == chars@.len(),
            chars@ == model@,
            i <= n,
            forall|j: int| 0 <= j < i ==> chars@[j] != ':',
        decreases n - i,
    {
        i = i + 1;
    }
    if n == 0 || i == 0 || i >= n - 1 {
        proof {
            if is_model_key(model@) {
                let k = choose|k: int|
                    0 < k < model@.len() - 1 && #[trigger] model@[k] == ':' && forall|j: int|
                        0 <= j < model@.len() && j != k ==> #[trigger] model@[j] != ':';
                if i < n {
                    assert(chars@[i as int] == ':');
                    if k != i as int {
                        assert(model@[i as int] != ':');
                    }
                } else {
                    assert(chars@[k] != ':');
                }
            }
        }
        return Err(RelayError::UnknownModel(model.to_owned()));
    }
    let mut j: usize = i + 1;
    while j < n
        invariant
            n == chars@.len(),
            chars@ == model@,
            i < n,
            chars@[i as int] == ':',
            i + 1 <= j <= n,
            forall|k: int| i < k < j ==> chars@[k] != ':',
        decreases n - j,
    {
        if chars[j] == ':' {
            proof {
                if is_model_key(model@) {
                    let k = choose|k: int|
                        0 < k < model@.len() - 1 && #[trigger] model@[k] == ':' && forall|jj: int|
                            0 <= jj < model@.len() && jj != k ==> #[trigger] model@[jj] != ':';
                    assert(chars@[i as int] == ':' && chars@[j as int] == ':');
                    if k != i as int {
                        assert(model@[i as int] != ':');
                    } else {
                        assert(model@[j as int] != ':');
                    }
                }
            }
            return Err(RelayError::UnknownModel(model.to_owned()));
        }
        j = j + 1;
    }
    proof {
        assert(is_model_key(model@)) by {
            assert(0 < i < model@.len() - 1 && model@[i as int] == ':');
            assert forall|k: int| 0 <= k < model@.len() && k != i implies #[trigger] model@[k] != ':' by {}
        }
        let c = colon_index(model@);
        assert(model@[c] == ':');
        assert(c == i as int);
    }
    let provider = string_from_chars(chars.as_slice().split_at(i).0);
    let rest = chars.as_slice().split_at(i + 1).1;
    let name = string_from_chars(rest);
    Ok((provider, name))
}

/// What `ask` will send: the model key it charges, the provider, the environment
/// variable that holds the provider's key, and the request.
#[derive(Debug)]
pub struct AskPlan {
    pub canonical_model: String,
    pub provider: String,
    pub credential_variable: String,
    pub request: RelayRequest,
}

/// A checked call: the model key, the provider and the verified price.
#[derive(Debug)]
pub struct CallPlan {
    canonical_model: String,
    provider: String,
    price: PriceEntry,
}

impl CallPlan {
    pub closed spec fn model_spec(self) -> Seq<char> {
        self.canonical_model@
    }

    pub closed spec fn provider_spec(self) -> Seq<char> {
        self.provider@
    }

    pub closed spec fn price_spec(self) -> PriceEntry {
        self.price
    }

    pub fn price(&self) -> (r: &PriceEntry)
        ensures
            *r == self.price_spec(),
    {
        &self.price
    }
}

/// A reserved call, the only thing a provider call may be made with: the
/// reservation that holds its worst-case cost, and what settling needs.
#[derive(Debug)]
pub struct Dispatch {
    reservation: Reservation,
    caps: CapLimits,
    price: PriceEntry,
    canonical_model: String,
    provider: String,
    now: i64,
}

impl Dispatch {
    #[verifier::type_invariant]
    pub closed spec fn well_formed(self) -> bool {
        valid_timestamp(self.now as int) && spec_known_timezone(self.caps.timezone@)
    }

    pub closed spec fn reservation_spec(self) -> Reservation {
        self.reservation
    }

    pub closed spec fn caps_spec(self) -> CapLimits {
        self.caps
    }

    pub closed spec fn price_spec(self) -> PriceEntry {
        self.price
    }

    pub closed spec fn model_spec(self) -> Seq<char> {
        self.canonical_model@
    }

    pub closed spec fn provider_spec(self) -> Seq<char> {
        self.provider@
    }

    pub closed spec fn now_spec(self) -> int {
        self.now as int
    }

    /// The reservation that holds the call's worst-case cost.
    pub fn reservation(&self) -> (r: &Reservation)
        ensures
            *r == self.reservation_spec(),
    {
        &self.reservation
    }
}

/// The reason `reserve_call` records on the reservation while the provider is called.
pub open spec fn dispatch_reason() -> Seq<char> {
    "provider dispatch began; response has not yet been settled"@
}

/// The reservation rows after `reserve_call`: lapsed rows dropped, then the new
/// reservation, already marked as waiting on the provider.
pub open spec fn dispatched(
    before: Seq<StoredReservation>,
    after: Seq<StoredReservation>,
    id: Seq<char>,
    now: int,
    caps: CapLimits,
    amount: int,
    provider: Seq<char>,
    model: Seq<char>,
) -> bool {
    &&& after.len() == purge(before, now).len() + 1
    &&& after.drop_last() == purge(before, now)
    &&& {
        let row = after.last();
        &&& row.id@ == id
        &&& row.created_at == now
        &&& row.expires_at == now + 600
        &&& row.day_key@ == period_key_of(now, caps.timezone@, Period::Day)
        &&& row.month_key@ == period_key_of(now, caps.timezone@, Period::Month)
        &&& row.amount_microusd == amount
        &&& row.state == ReservationState::Pending
        &&& row.provider@ == provider
        &&& row.model@ == model
        &&& row.reconciliation_reason matches Some(t) && t@ == dispatch_reason()
    }
}

/// The output tokens a request reserves for: its limit, or 1024.
pub open spec fn output_budget(request: RelayRequest) -> nat {
    match request.max_output_tokens {
        Some(n) => n as nat,
        None => DEFAULT_MAX_OUTPUT_TOKENS as nat,
    }
}

/// A provider rejection that is known not to be billed: a 4xx status.
pub open spec fn unbilled(e: RelayError) -> bool {
    e matches RelayError::Provider { status, .. } && 400 <= status <= 499
}

/// A failure after which the provider cannot have billed the call: a 4xx
/// rejection, or a request that was never sent.
pub open spec fn released_failure(e: RelayError) -> bool {
    unbilled(e) || e is NotSent
}

/// Whether `e` holds reservation `id` for reconciliation with `reason`.
pub open spec fn held_for_reconciliation(e: RelayError, id: Seq<char>, reason: Seq<char>) -> bool {
    e matches RelayError::PendingReconciliation { reservation_id, reason: r } && reservation_id@ == id && r@ == reason
}

/// The warning for a period whose spend has reached 80% of a positive cap.
pub open spec fn cap_warning_text(period: Seq<char>) -> Seq<char> {
    "warning: "@ + period + " spend has reached at least 80% of its configured cap"@
}

/// `x * k` saturated to the `i64` range.
pub open spec fn saturating_times(x: int, k: int) -> int {
    if x * k > i64::MAX {
        i64::MAX as int
    } else if x * k < i64::MIN {
        i64::MIN as int
    } else {
        x * k
    }
}

/// Whether spend has reached 80% of a positive cap, computed as `cap_warning`
/// does with saturating multiplication.
pub open spec fn warns(spent: int, cap: int) -> bool {
    cap > 0 && saturating_times(spent, 100) >= saturating_times(cap, 80)
}

/// `x * k` saturated to `i64`.
fn saturating_mul(x: i64, k: i64) -> (r: i64)
    requires
        0 < k <= 100,
    ensures
        r == saturating_times(x as int, k as int),
{
    assert(-0x8000_0000_0000_0000 * 100 <= x as i128 * k as i128 <= 0x7fff_ffff_ffff_ffff * 100) by (nonlinear_arith)
        requires
            0 < k <= 100,
            -0x8000_0000_0000_0000 <= x <= 0x7fff_ffff_ffff_ffff,
    ;
    let wide = x as i128 * k as i128;
    if wide > 0x7fff_ffff_ffff_ffff {
        i64::MAX
    } else if wide < -0x8000_0000_0000_0000 {
        i64::MIN
    } else {
        wide as i64
    }
}

/// A warning once a period's spend reaches 80% of its (positive) cap.
pub fn cap_warning(spent: i64, cap: i64, period: &str) -> (r: Option<String>)
    ensures
        warns(spent as int, cap as int) ==> r is Some && r->0@ == cap_warning_text(period@),
        !warns(spent as int, cap as int) ==> r is None,
{
    if cap > 0 && saturating_mul(spent, 100) >= saturating_mul(cap, 80) {
        let mut w = String::from_str("warning: ");
        w.append(period);
        w.append(" spend has reached at least 80% of its configured cap");
        Some(w)
    } else {
        None
    }
}

/// Whether a provider error is a rejection known not to be billed (a 4xx status).
pub fn is_confirmed_unbilled_rejection(error: &RelayError) -> (r: bool)
    ensures
        r == unbilled(*error),
{
    match error {
        RelayError::Provider { status, .. } => 400 <= *status && *status <= 499,
        _ => false,
    }
}

/// The reason text when reported usage does not fit the model, if it does not.
pub open spec fn usage_problem(usage_in: nat, usage_out: nat, max_context: nat) -> Option<Seq<char>> {
    if usage_in + usage_out > u64::MAX {
        Some("provider returned invalid usage data: "@ + "provider token total overflow"@)
    } else if usage_in + usage_out > max_context {
        Some(
            "provider returned invalid usage data: "@ + ("provider reported "@ + int_text(
                (usage_in + usage_out) as int,
            ) + " tokens for a "@ + int_text(max_context as int) + "-token model context"@),
        )
    } else {
        None
    }
}

/// Refuses reported usage that overflows or exceeds the model's context.
pub fn validate_usage(response: &RelayResponse, price: &PriceEntry) -> (r: Result<()>)
    ensures
        match usage_problem(
            response.usage.input_tokens as nat,
            response.usage.output_tokens as nat,
            price.max_context as nat,
        ) {
            None => r is Ok,
            Some(text) => r is Err && error_text(r->Err_0) == text,
        },
{
    let total = match response.usage.input_tokens.checked_add(response.usage.output_tokens) {
        Some(t) => t,
        None => return Err(RelayError::InvalidUsage(String::from_str("provider token total overflow"))),
    };
    if total > price.max_context {
        let mut m = String::from_str("provider reported ");
        m.append(nat_to_text(total as u128).as_str());
        m.append(" tokens for a ");
        m.append(nat_to_text(price.max_context as u128).as_str());
        m.append("-token model context");
        return Err(RelayError::InvalidUsage(m));
    }
    Ok(())
}

/// What `reserve_call` does once the worst-case cost and the caps are known:
/// the ledger refuses (and is unchanged), or it holds the reservation, marked as
/// waiting on the provider, and the settled spend plus holds of the day and of the
/// month stay within their caps. A cost within both caps is refused only when the
/// drawn identifier is that of a live reservation, never when none is live.
pub open spec fn reservation_outcome(
    before: Ledger,
    after: Ledger,
    caps: CapLimits,
    worst: int,
    plan: CallPlan,
    now: int,
    r: Result<Dispatch>,
) -> bool {
    let unchanged = after.reservation_rows() == before.reservation_rows();
    match cap_refusal(before.call_rows(), before.reservation_rows(), now, caps, worst) {
        Some(why) => r is Err && refusal_reported(
            r->Err_0,
            why,
            before.call_rows(),
            before.reservation_rows(),
            now,
            caps,
            worst,
        ) && unchanged,
        None => (r is Ok && ({
            let d = r->Ok_0;
            &&& d.reservation_spec().amount_microusd == worst
            &&& d.caps_spec() == caps
            &&& d.price_spec() == plan.price_spec()
            &&& d.model_spec() == plan.model_spec()
            &&& d.provider_spec() == plan.provider_spec()
            &&& d.now_spec() == now
            &&& dispatched(
                before.reservation_rows(),
                after.reservation_rows(),
                d.reservation_spec().id@,
                now,
                caps,
                worst,
                plan.provider_spec(),
                plan.model_spec(),
            )
            &&& committed(after.call_rows(), after.reservation_rows(), now, caps, Period::Day)
                <= caps.daily_microusd
            &&& committed(after.call_rows(), after.reservation_rows(), now, caps, Period::Month)
                <= caps.monthly_microusd
        })) || (r is Err && refusal_reported(
            r->Err_0,
            Refusal::DuplicateId,
            before.call_rows(),
            before.reservation_rows(),
            now,
            caps,
            worst,
        ) && unchanged && exists|id: Seq<char>| #[trigger] has_reservation(purge(before.reservation_rows(), now), id)),
    }
}

/// The unverified-price refusal text.
pub open spec fn unverified_price_reason() -> Seq<char> {
    "price is not marked verified; review its official source before making a paid call"@
}

/// `r` is what `plan_ask` returns for a model key `cm` that resolved: the
/// price must be known and verified, and the provider configured.
pub open spec fn plan_for_key(
    svc: RelayService,
    cm: Seq<char>,
    prompt: Seq<char>,
    max_output_tokens: Option<u32>,
    r: Result<AskPlan>,
) -> bool {
    if !is_model_key(cm) {
        r is Err && is_unknown_model(r->Err_0, cm)
    } else {
        match lookup(svc.prices@, cm) {
            None => r is Err && is_unknown_model(r->Err_0, cm),
            Some(price) => if !price.verified {
                r is Err && is_invalid_price(r->Err_0, cm, unverified_price_reason())
            } else {
                match lookup(svc.config.providers@, provider_part(cm)) {
                    None => r is Err && r->Err_0 == RelayError::UnsupportedProvider(r->Err_0->UnsupportedProvider_0)
                        && r->Err_0->UnsupportedProvider_0@ == provider_part(cm),
                    Some(pc) => r is Ok && ({
                        let plan = r->Ok_0;
                        &&& plan.canonical_model@ == cm
                        &&& plan.provider@ == provider_part(cm)
                        &&& plan.credential_variable@ == spec_trim(pc.api_key_env@)
                        &&& plan.request.messages@.len() == 1
                        &&& plan.request.messages@[0].role == Role::User
                        &&& plan.request.messages@[0].content@ == prompt
                        &&& plan.request.model@ == price.api_model@
                        &&& plan.request.max_output_tokens == Some(
                            match max_output_tokens {
                                Some(n) => n,
                                None => DEFAULT_MAX_OUTPUT_TOKENS,
                            },
                        )
                        &&& !plan.request.stream
                        &&& plan.request.metadata@.len() == 0
                    }),
                }
            },
        }
    }
}

/// The caps `cap_limits` yields for configuration caps that check out.
pub open spec fn caps_of(daily: int, monthly: int, caps: crate::config::CapsConfig) -> CapLimits {
    CapLimits { daily_microusd: daily as i64, monthly_microusd: monthly as i64, timezone: caps.timezone }
}

/// The reservation rows after `release`: the reservation with the identifier
/// dropped, if there was one; the calls unchanged.
pub open spec fn released(before: Ledger, after: Ledger, id: Seq<char>) -> bool {
    &&& after.call_rows() == before.call_rows()
    &&& !has_reservation(before.reservation_rows(), id) ==> after.reservation_rows() == before.reservation_rows()
    &&& has_reservation(before.reservation_rows(), id) ==> exists|i: int|
        0 <= i < before.reservation_rows().len() && (#[trigger] before.reservation_rows()[i]).id@ == id
            && after.reservation_rows() == before.reservation_rows().remove(i)
}

/// The record of a settled call: when, what, the reported usage, the cost, the
/// latency and the prices it was charged at. Its session identifier is a fresh
/// random one and is not stated.
pub open spec fn settled_record(call: CallRecord, d: Dispatch, resp: RelayResponse, cost: int) -> bool {
    &&& call.ts == d.now_spec()
    &&& call.provider@ == d.provider_spec()
    &&& call.model@ == d.model_spec()
    &&& call.tokens_in == resp.usage.input_tokens
    &&& call.tokens_out == resp.usage.output_tokens
    &&& call.cost_microusd == cost
    &&& call.latency_ms == resp.latency_ms
    &&& call.route_tier@ == "direct"@
    &&& !call.deflected
    &&& call.price_input_per_mtok@ == decimal_text(d.price_spec().input_per_mtok@)
    &&& call.price_output_per_mtok@ == decimal_text(d.price_spec().output_per_mtok@)
}

/// The ledger after a settlement: one more call, recorded as `settled_record`
/// says, and the call's reservation dropped.
pub open spec fn settled(before: Ledger, after: Ledger, d: Dispatch, resp: RelayResponse, cost: int) -> bool {
    let id = d.reservation_spec().id@;
    &&& after.call_rows().len() == before.call_rows().len() + 1
    &&& after.call_rows().drop_last() == before.call_rows()
    &&& recorded_call(after.call_rows().last(), after.call_rows().last().record, d.caps_spec())
    &&& settled_record(after.call_rows().last().record, d, resp, cost)
    &&& exists|i: int|
        0 <= i < before.reservation_rows().len() && (#[trigger] before.reservation_rows()[i]).id@ == id
            && after.reservation_rows() == before.reservation_rows().remove(i)
}

/// What a settled call answers: the spend totals of the day and the month of
/// the call must be readable; then the response, its cost and model key, and a
/// warning when the day's (else the month's) spend has reached 80% of its cap.
pub open spec fn settled_reply(after: Ledger, d: Dispatch, resp: RelayResponse, cost: int, r: Result<CompletedCall>) -> bool {
    let calls = after.call_rows();
    let res = after.reservation_rows();
    let now = d.now_spec();
    let caps = d.caps_spec();
    if usage_fails(calls, res, now, caps, Period::Day) {
        r is Err && usage_outcome(calls, res, now, caps, Period::Day, Err(r->Err_0))
    } else if usage_fails(calls, res, now, caps, Period::Month) {
        r is Err && usage_outcome(calls, res, now, caps, Period::Month, Err(r->Err_0))
    } else {
        let day = spent(calls, Period::Day, period_key_of(now, caps.timezone@, Period::Day));
        let month = spent(calls, Period::Month, period_key_of(now, caps.timezone@, Period::Month));
        r is Ok && ({
            let c = r->Ok_0;
            &&& c.response == resp
            &&& c.cost_microusd == cost
            &&& c.canonical_model@ == d.model_spec()
            &&& if warns(day, caps.daily_microusd as int) {
                c.warning matches Some(w) && w@ == cap_warning_text("daily"@)
            } else if warns(month, caps.monthly_microusd as int) {
                c.warning matches Some(w) && w@ == cap_warning_text("monthly"@)
            } else {
                c.warning is None
            }
        })
    }
}

/// The reason recorded when settling a received response failed.
pub open spec fn settlement_failed_reason(text: Seq<char>) -> Seq<char> {
    "response received but ledger settlement failed: "@ + text
}

/// What `finish_call` does with what the provider answered. A 4xx rejection, or
/// a request that was never sent, cannot have been billed: the reservation is
/// released and the error returned.
/// Any other failure, reported usage that does not fit the model, a cost that
/// cannot be computed, or a settlement the ledger refuses leaves the ledger as it
/// was and the reservation held, and is answered with a reconciliation error
/// that names the reservation. Otherwise the call is settled at its actual cost.
pub open spec fn finish_outcome(
    before: Ledger,
    after: Ledger,
    d: Dispatch,
    outcome: Result<RelayResponse>,
    r: Result<CompletedCall>,
) -> bool {
    let id = d.reservation_spec().id@;
    let unchanged = after.call_rows() == before.call_rows() && after.reservation_rows() == before.reservation_rows();
    let price = d.price_spec();
    match outcome {
        Err(e) => if released_failure(e) {
            r == Err::<CompletedCall, RelayError>(e) && released(before, after, id)
        } else {
            r is Err && held_for_reconciliation(r->Err_0, id, error_text(e)) && unchanged
        },
        Ok(resp) => {
            let tin = resp.usage.input_tokens;
            let tout = resp.usage.output_tokens;
            match usage_problem(tin as nat, tout as nat, price.max_context as nat) {
                Some(text) => r is Err && held_for_reconciliation(r->Err_0, id, text) && unchanged,
                None => match cost_outcome(price.input_per_mtok@, price.output_per_mtok@, tin as nat, tout as nat) {
                    Err(t) => r is Err && held_for_reconciliation(
                        r->Err_0,
                        id,
                        "amount is outside Relay's supported microdollar range: "@ + t,
                    ) && unchanged,
                    Ok(cost) => match settle_check(before.reservation_rows(), id, tin, tout, resp.latency_ms, cost) {
                        Some(why) => r is Err && held_for_reconciliation(
                            r->Err_0,
                            id,
                            settlement_failed_reason(settle_refusal_text(why, id, tin, tout, resp.latency_ms)),
                        ) && unchanged,
                        None => settled(before, after, d, resp, cost) && settled_reply(after, d, resp, cost, r),
                    },
                },
            }
        },
    }
}

impl RelayService {
    /// Checks that the adapter serves the provider, that the request does not
    /// stream, and that the model's price is known and verified.
    pub fn begin_call(&self, canonical_model: String, provider: String, adapter_name: &str, request: &RelayRequest) -> (r:
        Result<CallPlan>)
        ensures
            adapter_name@ != provider@ ==> r is Err && r->Err_0 == RelayError::UnsupportedProvider(
                r->Err_0->UnsupportedProvider_0,
            ) && r->Err_0->UnsupportedProvider_0@ == "adapter '"@ + adapter_name@ + "' cannot serve provider '"@
                + provider@ + "'"@,
            adapter_name@ == provider@ && request.stream ==> r == Err::<CallPlan, RelayError>(
                RelayError::StreamingUnsupported,
            ),
            adapter_name@ == provider@ && !request.stream ==> match lookup(self.prices@, canonical_model@) {
                None => r is Err && is_unknown_model(r->Err_0, canonical_model@),
                Some(price) => if price.verified {
                    r is Ok && r->Ok_0.model_spec() == canonical_model@ && r->Ok_0.provider_spec() == provider@
                        && r->Ok_0.price_spec() == price && crate::pricing::price_problem(price, canonical_model@)
                        is None
                } else {
                    r is Err && is_invalid_price(r->Err_0, canonical_model@, unverified_price_reason())
                },
            },
    {
        let adapter = adapter_name.to_owned();
        if adapter != provider {
            let mut m = String::from_str("adapter '");
            m.append(adapter_name);
            m.append("' cannot serve provider '");
            m.append(provider.as_str());
            m.append("'");
            return Err(RelayError::UnsupportedProvider(m));
        }
        if request.stream {
            return Err(RelayError::StreamingUnsupported);
        }
        let price = self.prices.get_verified(canonical_model.as_str())?.clone();
        Ok(CallPlan { canonical_model, provider, price })
    }

    /// Holds the call's worst-case cost: the estimated input tokens plus the
    /// output limit (1024 when unset) must fit the model's context, and their cost
    /// at the verified price, added to the period's spend and holds, must fit both
    /// caps. The reservation is then marked as waiting on the provider. Without the
    /// returned `Dispatch` no provider is called; on refusal the ledger is unchanged.
    pub fn reserve_call(&mut self, plan: CallPlan, request: &RelayRequest, estimate: crate::request::TokenEstimate, now: i64)
        -> (r: Result<Dispatch>)
        requires
            valid_timestamp(now as int),
        ensures
            final(self).config == old(self).config,
            final(self).prices@ == old(self).prices@,
            final(self).ledger.call_rows() == old(self).ledger.call_rows(),
            ({
                let requested = estimate.input_tokens + output_budget(*request);
                let price = plan.price_spec();
                let unchanged = final(self).ledger.reservation_rows() == old(self).ledger.reservation_rows();
                if requested > u64::MAX {
                    r is Err && r->Err_0 == RelayError::InvalidUsage(r->Err_0->InvalidUsage_0)
                        && r->Err_0->InvalidUsage_0@ == "token estimate overflow"@ && unchanged
                } else if requested > price.max_context {
                    r == Err::<Dispatch, RelayError>(
                        RelayError::ContextExceeded { requested_tokens: requested as u64, max_context: price.max_context },
                    ) && unchanged
                } else {
                    match cost_outcome(
                        price.input_per_mtok@,
                        price.output_per_mtok@,
                        estimate.input_tokens as nat,
                        output_budget(*request),
                    ) {
                        Err(t) => r is Err && is_out_of_range(r->Err_0, t) && unchanged,
                        Ok(worst) => match cap_limits_outcome(old(self).config.caps) {
                            Err(f) => r is Err && reports(r->Err_0, f) && unchanged,
                            Ok((d, m)) => reservation_outcome(
                                old(self).ledger,
                                final(self).ledger,
                                caps_of(d, m, old(self).config.caps),
                                worst,
                                plan,
                                now as int,
                                r,
                            ),
                        },
                    }
                }
            }),
    {
        let max_output_tokens: u64 = match request.max_output_tokens {
            Some(n) => n as u64,
            None => DEFAULT_MAX_OUTPUT_TOKENS as u64,
        };
        let requested_tokens = match estimate.input_tokens.checked_add(max_output_tokens) {
            Some(t) => t,
            None => return Err(RelayError::InvalidUsage(String::from_str("token estimate overflow"))),
        };
        if requested_tokens > plan.price.max_context {
            return Err(
                RelayError::ContextExceeded { requested_tokens, max_context: plan.price.max_context },
            );
        }
        let worst_case = plan.price.cost_microusd(estimate.input_tokens, max_output_tokens)?;
        let caps = self.config.cap_limits()?;
        let reservation = self.ledger.reserve(
            now,
            &caps,
            worst_case,
            plan.provider.as_str(),
            plan.canonical_model.as_str(),
        )?;
        let ghost reserved_rows = self.ledger.reservation_rows();
        proof {
            use_type_invariant(&self.ledger);
            self.ledger.lemma_rows_ok();
            crate::ledger::lemma_unique_reservation(reserved_rows, reservation.id@, reserved_rows.len() - 1);
        }
        self.ledger.mark_pending(
            reservation.id.as_str(),
            "provider dispatch began; response has not yet been settled",
        )?;
        proof {
            let after = self.ledger.reservation_rows();
            assert(after.drop_last() =~= reserved_rows.drop_last()) by {
                assert forall|i: int| 0 <= i < after.len() - 1 implies after[i] == reserved_rows[i] by {}
            }
            reveal_strlit("provider dispatch began; response has not yet been settled");
            crate::ledger::lemma_held_same(reserved_rows, after, Period::Day, period_key_of(now as int, caps.timezone@, Period::Day));
            crate::ledger::lemma_held_same(reserved_rows, after, Period::Month, period_key_of(now as int, caps.timezone@, Period::Month));
        }
        Ok(
            Dispatch {
                reservation,
                caps,
                price: plan.price,
                canonical_model: plan.canonical_model,
                provider: plan.provider,
                now,
            },
        )
    }

    /// Resolves what `ask` calls: the model key (alias, `think`, or `default`), its
    /// provider, its verified price and the provider's key variable; and builds the
    /// one-message request. Nothing is reserved or sent.
    pub fn plan_ask(&self, prompt: &str, requested_model: Option<&str>, think: bool, max_output_tokens: Option<u32>) -> (r:
        Result<AskPlan>)
        ensures
            match resolved_model(self.config.models@, requested_name(opt_view(requested_model), think)) {
                None => r is Err && is_unknown_model(r->Err_0, requested_name(opt_view(requested_model), think)),
                Some(cm) => plan_for_key(*self, cm, prompt@, max_output_tokens, r),
            },
    {
        let canonical_model = self.config.resolve_model(requested_model, think)?;
        let (provider, _name) = split_model(canonical_model.as_str())?;
        let price = self.prices.get_verified(canonical_model.as_str())?;
        let credential_variable = self.config.credential_variable(provider.as_str())?;
        let mut messages = Vec::new();
        messages.push(Message::user(prompt));
        let request = RelayRequest {
            messages,
            model: price.api_model.clone(),
            max_output_tokens: Some(
                match max_output_tokens {
                    Some(n) => n,
                    None => DEFAULT_MAX_OUTPUT_TOKENS,
                },
            ),
            stream: false,
            metadata: Vec::new(),
        };
        Ok(AskPlan { canonical_model, provider, credential_variable, request })
    }

    /// Settles a dispatched call with what the provider answered (see
    /// `finish_outcome`). Only the ledger changes.
    pub fn finish_call(&mut self, dispatch: Dispatch, outcome: Result<RelayResponse>) -> (r: Result<CompletedCall>)
        ensures
            final(self).config == old(self).config,
            final(self).prices@ == old(self).prices@,
            final(self).paths == old(self).paths,
            finish_outcome(old(self).ledger, final(self).ledger, dispatch, outcome, r),
    {
        proof {
            use_type_invariant(&dispatch);
        }
        let response = match outcome {
            Ok(response) => response,
            Err(error) => {
                let unsent = match &error {
                    RelayError::NotSent(_) => true,
                    _ => false,
                };
                if is_confirmed_unbilled_rejection(&error) || unsent {
                    self.ledger.release(dispatch.reservation.id.as_str())?;
                    return Err(error);
                }
                return Err(
                    RelayError::PendingReconciliation {
                        reservation_id: dispatch.reservation.id.clone(),
                        reason: error.message(),
                    },
                );
            },
        };
        match validate_usage(&response, &dispatch.price) {
            Ok(()) => {},
            Err(error) => {
                return Err(
                    RelayError::PendingReconciliation {
                        reservation_id: dispatch.reservation.id.clone(),
                        reason: error.message(),
                    },
                );
            },
        }
        let actual_cost = match dispatch.price.cost_microusd(response.usage.input_tokens, response.usage.output_tokens) {
            Ok(cost) => cost,
            Err(error) => {
                return Err(
                    RelayError::PendingReconciliation {
                        reservation_id: dispatch.reservation.id.clone(),
                        reason: error.message(),
                    },
                );
            },
        };
        let call = CallRecord {
            ts: dispatch.now,
            provider: dispatch.provider.clone(),
            model: dispatch.canonical_model.clone(),
            tokens_in: response.usage.input_tokens,
            tokens_out: response.usage.output_tokens,
            cost_microusd: actual_cost,
            latency_ms: response.latency_ms,
            session_id: new_uuid(),
            route_tier: String::from_str("direct"),
            deflected: false,
            price_input_per_mtok: dispatch.price.input_per_mtok.to_text(),
            price_output_per_mtok: dispatch.price.output_per_mtok.to_text(),
        };
        match self.ledger.settle(dispatch.reservation.id.as_str(), &call, &dispatch.caps) {
            Ok(()) => {},
            Err(error) => {
                let mut reason = String::from_str("response received but ledger settlement failed: ");
                reason.append(error.message().as_str());
                return Err(
                    RelayError::PendingReconciliation { reservation_id: dispatch.reservation.id.clone(), reason },
                );
            },
        }
        let day = self.ledger.usage(dispatch.now, &dispatch.caps, Period::Day)?;
        let month = self.ledger.usage(dispatch.now, &dispatch.caps, Period::Month)?;
        let warning = match cap_warning(day.total_microusd, dispatch.caps.daily_microusd, "daily") {
            Some(w) => Some(w),
            None => cap_warning(month.total_microusd, dispatch.caps.monthly_microusd, "monthly"),
        };
        Ok(CompletedCall { response, cost_microusd: actual_cost, canonical_model: dispatch.canonical_model.clone(), warning })
    }

    /// The totals of the period (day or month) that contains `now`, under the
    /// configured caps' time zone. The time is the caller's: the current day's or
    /// month's usage is asked for with the current time.
    pub fn usage_at(&self, now: i64, period: Period) -> (r: Result<UsageSummary>)
        requires
            valid_timestamp(now as int),
        ensures
            match cap_limits_outcome(self.config.caps) {
                Err(f) => r is Err && reports(r->Err_0, f),
                Ok((d, m)) => usage_outcome(
                    self.ledger.call_rows(),
                    self.ledger.reservation_rows(),
                    now as int,
                    caps_of(d, m, self.config.caps),
                    period,
                    r,
                ),
            },
    {
        let caps = self.config.cap_limits()?;
        self.ledger.usage(now, &caps, period)
    }

    /// Sets the daily and/or monthly cap (USD amounts as text) and checks the
    /// configuration that results. At least one must be given; the new values
    /// stay set even when the check fails.
    pub fn update_caps(&mut self, daily_usd: Option<String>, monthly_usd: Option<String>) -> (r: Result<()>)
        ensures
            final(self).prices@ == old(self).prices@,
            final(self).paths == old(self).paths,
            final(self).ledger.call_rows() == old(self).ledger.call_rows(),
            final(self).ledger.reservation_rows() == old(self).ledger.reservation_rows(),
            final(self).config.models == old(self).config.models,
            final(self).config.providers == old(self).config.providers,
            final(self).config.caps.timezone == old(self).config.caps.timezone,
            daily_usd is None && monthly_usd is None ==> final(self).config == old(self).config && r is Err
                && is_config_error(r->Err_0, "provide --daily-usd and/or --monthly-usd"@),
            !(daily_usd is None && monthly_usd is None) ==> {
                &&& final(self).config.caps.daily_usd == match daily_usd {
                    Some(v) => v,
                    None => old(self).config.caps.daily_usd,
                }
                &&& final(self).config.caps.monthly_usd == match monthly_usd {
                    Some(v) => v,
                    None => old(self).config.caps.monthly_usd,
                }
                &&& match config_problem(final(self).config) {
                    None => r is Ok,
                    Some(f) => r is Err && reports(r->Err_0, f),
                }
            },
    {
        if daily_usd.is_none() && monthly_usd.is_none() {
            return Err(RelayError::Config(String::from_str("provide --daily-usd and/or --monthly-usd")));
        }
        match daily_usd {
            Some(value) => {
                self.config.caps.daily_usd = value;
            },
            None => {},
        }
        match monthly_usd {
            Some(value) => {
                self.config.caps.monthly_usd = value;
            },
            None => {},
        }
        self.config.validate()
    }
}

} // verus!
