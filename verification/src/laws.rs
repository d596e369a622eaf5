//! What holds across the ledger's operations and the cost arithmetic, stated
//! over the same models the operations' contracts use.

use vstd::prelude::*;
use crate::config::CapLimits;
use crate::decimal::{pow10, lemma_pow10_add, lemma_pow10_positive, DecimalModel};
use crate::ledger::{
    Ledger, held, marked_pending, period_key_of, purge, reservation_added, reservation_key, spent, call_key, Period,
    StoredCall, StoredReservation,
};
use crate::pricing::{ceil_div, exact_cost};
use crate::ledger::{cap_refusal, committed, ReservationState};
use crate::service::{finish_outcome, reservation_outcome, CallPlan, Dispatch};
use crate::error::RelayError;
use crate::namemap::lookup;
use crate::ledger::{has_reservation, reserve_refusal, summary_matches, Refusal, UsageSummary};
use crate::adapters::{content_bytes, estimate_of, utf8_len};
use crate::request::{Message, RelayRequest};
use crate::pricing::usd_text;
use crate::cli::{all_digits, digits_value};
use crate::text::{digit_char, nat_digits};
use crate::decimal::fits_i64;
use std::string::String;

verus! {

/// What a reservation row contributes to a period key's holds.
pub open spec fn hold_of(r: StoredReservation, p: Period, key: Seq<char>) -> int {
    if reservation_key(r, p) == key {
        r.amount_microusd as int
    } else {
        0
    }
}

/// What a call row contributes to a period key's spend.
pub open spec fn cost_of(c: StoredCall, p: Period, key: Seq<char>) -> int {
    if call_key(c, p) == key {
        c.record.cost_microusd as int
    } else {
        0
    }
}

/// Dropping a reservation takes exactly its amount off the holds of the day and
/// month it counts toward, and leaves every other period's holds as they were.
pub proof fn law_release_frees_hold(res: Seq<StoredReservation>, i: int, p: Period, key: Seq<char>)
    requires
        0 <= i < res.len(),
    ensures
        held(res.remove(i), p, key) == held(res, p, key) - hold_of(res[i], p, key),
    decreases res.len(),
{
    let last = res.len() - 1;
    if i == last {
        assert(res.remove(i) =~= res.drop_last());
    } else {
        let d = res.drop_last();
        law_release_frees_hold(d, i, p, key);
        assert(res.remove(i).drop_last() =~= d.remove(i));
        assert(res.remove(i).last() == res.last());
        assert(d[i] == res[i]);
    }
}

/// Recording a call adds exactly its cost to the spend of the day and month it
/// counts toward, and leaves every other period's spend as it was.
pub proof fn law_recorded_call_adds_cost(calls: Seq<StoredCall>, row: StoredCall, p: Period, key: Seq<char>)
    ensures
        spent(calls.push(row), p, key) == spent(calls, p, key) + cost_of(row, p, key),
{
    assert(calls.push(row).drop_last() =~= calls);
    assert(calls.push(row).last() == row);
}

/// Settling moves a call from held to spent: the period's spend grows by the
/// call's cost where the call counts, and its holds shrink by the reservation's
/// amount where the reservation counts. When both count toward the same key,
/// the committed total changes by the difference of actual and reserved cost.
pub proof fn law_settle_moves_hold_to_spend(
    calls: Seq<StoredCall>,
    res: Seq<StoredReservation>,
    row: StoredCall,
    i: int,
    p: Period,
    key: Seq<char>,
)
    requires
        0 <= i < res.len(),
    ensures
        spent(calls.push(row), p, key) == spent(calls, p, key) + cost_of(row, p, key),
        held(res.remove(i), p, key) == held(res, p, key) - hold_of(res[i], p, key),
        spent(calls.push(row), p, key) + held(res.remove(i), p, key) == spent(calls, p, key) + held(res, p, key)
            + cost_of(row, p, key) - hold_of(res[i], p, key),
{
    law_recorded_call_adds_cost(calls, row, p, key);
    law_release_frees_hold(res, i, p, key);
}

/// Marking a reservation as waiting for reconciliation keeps every period's
/// holds: a pending reservation still counts against the caps and in usage.
pub proof fn law_pending_keeps_holds(
    before: Seq<StoredReservation>,
    after: Seq<StoredReservation>,
    i: int,
    reason: Seq<char>,
    p: Period,
    key: Seq<char>,
)
    requires
        0 <= i < before.len(),
        after.len() == before.len(),
        forall|j: int| 0 <= j < before.len() && j != i ==> #[trigger] after[j] == before[j],
        marked_pending(before[i], after[i], reason),
    ensures
        held(after, p, key) == held(before, p, key),
{
    crate::ledger::lemma_held_same(before, after, p, key);
}

/// A reservation adds its amount to the holds of the day and the month of the
/// time it was made, on top of what the live (not lapsed) reservations held.
pub proof fn law_reservation_holds_its_amount(
    before: Seq<StoredReservation>,
    after: Seq<StoredReservation>,
    id: Seq<char>,
    now: int,
    caps: CapLimits,
    amount: int,
    provider: Seq<char>,
    model: Seq<char>,
    p: Period,
)
    requires
        reservation_added(before, after, id, now, caps, amount, provider, model),
    ensures
        held(after, p, period_key_of(now, caps.timezone@, p)) == held(purge(before, now), p, period_key_of(
            now,
            caps.timezone@,
            p,
        )) + amount,
{
    let key = period_key_of(now, caps.timezone@, p);
    assert(after =~= after.drop_last().push(after.last()));
    lemma_pushed_hold(after.drop_last(), after.last(), p, key);
}

/// Releasing the reservation just made leaves the holds of every period as the
/// live reservations had them before it: release undoes reserve.
pub proof fn law_release_undoes_reserve(
    before: Seq<StoredReservation>,
    after: Seq<StoredReservation>,
    id: Seq<char>,
    now: int,
    caps: CapLimits,
    amount: int,
    provider: Seq<char>,
    model: Seq<char>,
    p: Period,
    key: Seq<char>,
)
    requires
        reservation_added(before, after, id, now, caps, amount, provider, model),
    ensures
        after.remove(after.len() - 1) == purge(before, now),
        held(after.remove(after.len() - 1), p, key) == held(purge(before, now), p, key),
{
    assert(after.remove(after.len() - 1) =~= after.drop_last());
}

/// A row added to the reservations adds its hold.
proof fn lemma_pushed_hold(res: Seq<StoredReservation>, r: StoredReservation, p: Period, key: Seq<char>)
    ensures
        held(res.push(r), p, key) == held(res, p, key) + hold_of(r, p, key),
{
    assert(res.push(r).drop_last() =~= res);
    assert(res.push(r).last() == r);
}

/// Costs are rounded up to whole micro-dollars, never down: the charged amount
/// covers the exact decimal cost and exceeds it by less than one micro-dollar.
pub proof fn law_cost_rounds_up(input_price: DecimalModel, output_price: DecimalModel, input: nat, output: nat)
    ensures
        ({
            let n = input * input_price.num() * pow10(output_price.scale) + output * output_price.num() * pow10(
                input_price.scale,
            );
            let d = pow10(input_price.scale + output_price.scale) as int;
            &&& exact_cost(input_price, output_price, input, output) * d >= n
            &&& (exact_cost(input_price, output_price, input, output) - 1) * d < n
        }),
{
    let n = input * input_price.num() * pow10(output_price.scale) + output * output_price.num() * pow10(
        input_price.scale,
    );
    let d = pow10(input_price.scale + output_price.scale) as int;
    lemma_pow10_positive(input_price.scale + output_price.scale);
    lemma_ceil_div_bounds(n, d);
}

/// `ceil_div(n, d)` is the least multiple count that covers `n`.
proof fn lemma_ceil_div_bounds(n: int, d: int)
    requires
        d > 0,
    ensures
        ceil_div(n, d) * d >= n,
        (ceil_div(n, d) - 1) * d < n,
{
    let q = (-n) / d;
    let r = (-n) % d;
    assert(-n == d * q + r && 0 <= r < d) by {
        vstd::arithmetic::div_mod::lemma_fundamental_div_mod(-n, d);
    }
    assert(ceil_div(n, d) == -q);
    assert(-q * d == -(d * q)) by (nonlinear_arith);
    assert((-q - 1) * d == -(d * q) - d) by (nonlinear_arith);
}

/// A fraction no larger than another has a ceiling no larger: when
/// `a / c <= b / d`, `ceil(a / c) <= ceil(b / d)`.
proof fn lemma_ceil_cross_le(a: int, c: int, b: int, d: int)
    requires
        c > 0,
        d > 0,
        a * d <= b * c,
    ensures
        ceil_div(a, c) <= ceil_div(b, d),
{
    lemma_ceil_div_bounds(a, c);
    lemma_ceil_div_bounds(b, d);
    let q = ceil_div(b, d);
    let k = ceil_div(a, c);
    assert(a * d <= q * d * c) by (nonlinear_arith)
        requires
            a * d <= b * c,
            b <= q * d,
            c > 0,
    ;
    assert(a <= q * c) by (nonlinear_arith)
        requires
            a * d <= q * d * c,
            d > 0,
    ;
    assert(k <= q) by (nonlinear_arith)
        requires
            (k - 1) * c < a,
            a <= q * c,
            c > 0,
    ;
}

/// Regrouping a product of a count, a numerator and three powers.
proof fn lemma_regroup(i: int, a: int, q: int, p2: int, q2: int)
    ensures
        i * a * q * (p2 * q2) == i * (a * p2) * (q * q2),
{
    assert(i * a * q * (p2 * q2) == i * (a * p2) * (q * q2)) by (nonlinear_arith);
}

/// `x <= y` as values: `x.num / 10^x.scale <= y.num / 10^y.scale`.
pub open spec fn value_le(x: DecimalModel, y: DecimalModel) -> bool {
    x.num() * pow10(y.scale) <= y.num() * pow10(x.scale)
}

/// Costs are monotone: more tokens, or higher (non-negative) prices, never make
/// a call cheaper. Stated over the exact cost, which is what `cost_microusd`
/// returns wherever `rust_decimal` computes without rounding (`cost_is_exact`).
pub proof fn law_cost_monotone(
    input_price: DecimalModel,
    output_price: DecimalModel,
    higher_input_price: DecimalModel,
    higher_output_price: DecimalModel,
    input: nat,
    output: nat,
    more_input: nat,
    more_output: nat,
)
    requires
        input_price.num() >= 0,
        output_price.num() >= 0,
        value_le(input_price, higher_input_price),
        value_le(output_price, higher_output_price),
        input <= more_input,
        output <= more_output,
    ensures
        exact_cost(input_price, output_price, input, output) <= exact_cost(
            higher_input_price,
            higher_output_price,
            more_input,
            more_output,
        ),
{
    let a = input_price.num();
    let b = output_price.num();
    let a2 = higher_input_price.num();
    let b2 = higher_output_price.num();
    let p = pow10(input_price.scale) as int;
    let q = pow10(output_price.scale) as int;
    let p2 = pow10(higher_input_price.scale) as int;
    let q2 = pow10(higher_output_price.scale) as int;
    lemma_pow10_positive(input_price.scale);
    lemma_pow10_positive(output_price.scale);
    lemma_pow10_positive(higher_input_price.scale);
    lemma_pow10_positive(higher_output_price.scale);
    lemma_pow10_add(input_price.scale, output_price.scale);
    lemma_pow10_add(higher_input_price.scale, higher_output_price.scale);
    let i1 = input as int;
    let o1 = output as int;
    let i2 = more_input as int;
    let o2 = more_output as int;
    let n1 = i1 * a * q + o1 * b * p;
    let n2 = i2 * a2 * q2 + o2 * b2 * p2;
    assert(i1 * (a * p2) <= i2 * (a2 * p)) by (nonlinear_arith)
        requires
            a * p2 <= a2 * p,
            a >= 0,
            p2 > 0,
            0 <= i1 <= i2,
    ;
    assert(o1 * (b * q2) <= o2 * (b2 * q)) by (nonlinear_arith)
        requires
            b * q2 <= b2 * q,
            b >= 0,
            q2 > 0,
            0 <= o1 <= o2,
    ;
    let x1 = i1 * (a * p2);
    let y1 = i2 * (a2 * p);
    let x2 = o1 * (b * q2);
    let y2 = o2 * (b2 * q);
    let m = q * q2;
    let k = p * p2;
    assert(m > 0 && k > 0 && p * q > 0 && p2 * q2 > 0) by (nonlinear_arith)
        requires
            m == q * q2,
            k == p * p2,
            p > 0,
            q > 0,
            p2 > 0,
            q2 > 0,
    ;
    lemma_regroup(i1, a, q, p2, q2);
    lemma_regroup(o1, b, p, q2, p2);
    lemma_regroup(i2, a2, q2, p, q);
    lemma_regroup(o2, b2, p2, q, p);
    assert(x1 * m <= y1 * m) by (nonlinear_arith)
        requires
            x1 <= y1,
            m > 0,
    ;
    assert(x2 * k <= y2 * k) by (nonlinear_arith)
        requires
            x2 <= y2,
            k > 0,
    ;
    vstd::arithmetic::mul::lemma_mul_is_distributive_add_other_way(p2 * q2, i1 * a * q, o1 * b * p);
    vstd::arithmetic::mul::lemma_mul_is_distributive_add_other_way(p * q, i2 * a2 * q2, o2 * b2 * p2);
    assert(p2 * q2 == q2 * p2 && p * q == q * p && q * q2 == q2 * q && p * p2 == p2 * p) by (nonlinear_arith);
    assert(n1 * (p2 * q2) == x1 * m + x2 * k);
    assert(n2 * (p * q) == y1 * m + y2 * k);
    assert(n1 == input * input_price.num() * pow10(output_price.scale) + output * output_price.num() * pow10(
        input_price.scale,
    ));
    lemma_ceil_cross_le(n1, p * q, n2, p2 * q2);
}

/// A provider is called only on a reservation: a `Dispatch`, without which
/// `finish_call` cannot run and the provider is not called, comes only from a
/// `reserve_call` whose worst-case cost passed the cap check. Its reservation is
/// then the newest row of the ledger, holding that cost, marked as waiting on the
/// provider, and the period's settled spend plus holds are within both caps.
pub proof fn law_dispatch_follows_reservation(
    before: Ledger,
    after: Ledger,
    caps: CapLimits,
    worst: int,
    plan: CallPlan,
    now: int,
    r: Result<Dispatch, RelayError>,
)
    requires
        reservation_outcome(before, after, caps, worst, plan, now, r),
        r is Ok,
    ensures
        cap_refusal(before.call_rows(), before.reservation_rows(), now, caps, worst) is None,
        after.reservation_rows().len() > 0,
        after.reservation_rows().last().id@ == r->Ok_0.reservation_spec().id@,
        after.reservation_rows().last().amount_microusd == worst,
        after.reservation_rows().last().state == ReservationState::Pending,
        committed(after.call_rows(), after.reservation_rows(), now, caps, Period::Day) <= caps.daily_microusd,
        committed(after.call_rows(), after.reservation_rows(), now, caps, Period::Month) <= caps.monthly_microusd,
{
}

/// A provider error whose status is not a 4xx rejection (a 5xx, say) may have
/// been billed: the ledger is left exactly as it was, the reservation stays held,
/// and the answer is a reconciliation error that names it.
pub proof fn law_unconfirmed_provider_errors_keep_the_hold(
    before: Ledger,
    after: Ledger,
    d: Dispatch,
    provider: String,
    status: u16,
    message: String,
    r: Result<crate::service::CompletedCall, RelayError>,
)
    requires
        finish_outcome(before, after, d, Err(RelayError::Provider { provider, status, message }), r),
        !(400 <= status <= 499),
    ensures
        after.call_rows() == before.call_rows(),
        after.reservation_rows() == before.reservation_rows(),
        r matches Err(RelayError::PendingReconciliation { reservation_id, .. }) && reservation_id@
            == d.reservation_spec().id@,
{
}

/// A 4xx rejection, or a request never sent, cannot have been billed: the error
/// is returned as it came, no call is recorded, and the reservation, if still
/// held, is dropped.
pub proof fn law_unbilled_failures_release_the_hold(
    before: Ledger,
    after: Ledger,
    d: Dispatch,
    e: RelayError,
    r: Result<crate::service::CompletedCall, RelayError>,
)
    requires
        finish_outcome(before, after, d, Err(e), r),
        (e matches RelayError::Provider { status, .. } && 400 <= status <= 499) || e is NotSent,
    ensures
        r == Err::<crate::service::CompletedCall, RelayError>(e),
        after.call_rows() == before.call_rows(),
        has_reservation(before.reservation_rows(), d.reservation_spec().id@) ==> after.reservation_rows().len() + 1
            == before.reservation_rows().len(),
        !has_reservation(before.reservation_rows(), d.reservation_spec().id@) ==> after.reservation_rows()
            == before.reservation_rows(),
{
}

/// The cap check is complete: a non-negative amount that fits both caps (the
/// day's settled spend and live holds plus the amount within the daily cap, the
/// month's within the monthly cap) under an identifier no live reservation has
/// is reserved. And it is sound: a refusal for a period's cap means that
/// period's spend, holds and amount pass that period's cap.
pub proof fn law_cap_check_is_exact(
    calls: Seq<StoredCall>,
    res: Seq<StoredReservation>,
    now: int,
    caps: CapLimits,
    amount: int,
    id: Seq<char>,
)
    ensures
        ({
            let live = purge(res, now);
            let dk = period_key_of(now, caps.timezone@, Period::Day);
            let mk = period_key_of(now, caps.timezone@, Period::Month);
            (0 <= amount && 0 <= spent(calls, Period::Day, dk) && 0 <= held(live, Period::Day, dk) && 0 <= spent(
                calls,
                Period::Month,
                mk,
            ) && 0 <= held(live, Period::Month, mk) && spent(calls, Period::Day, dk) + held(live, Period::Day, dk)
                + amount <= caps.daily_microusd && spent(calls, Period::Month, mk) + held(live, Period::Month, mk)
                + amount <= caps.monthly_microusd && !has_reservation(live, id)) ==> reserve_refusal(
                calls,
                res,
                now,
                caps,
                amount,
                id,
            ) is None
        }),
        reserve_refusal(calls, res, now, caps, amount, id) == Some(Refusal::CapExceeded(Period::Day)) ==> spent(
            calls,
            Period::Day,
            period_key_of(now, caps.timezone@, Period::Day),
        ) + held(purge(res, now), Period::Day, period_key_of(now, caps.timezone@, Period::Day)) + amount
            > caps.daily_microusd,
        reserve_refusal(calls, res, now, caps, amount, id) == Some(Refusal::CapExceeded(Period::Month)) ==> spent(
            calls,
            Period::Month,
            period_key_of(now, caps.timezone@, Period::Month),
        ) + held(purge(res, now), Period::Month, period_key_of(now, caps.timezone@, Period::Month)) + amount
            > caps.monthly_microusd,
{
    let live = purge(res, now);
    let dk = period_key_of(now, caps.timezone@, Period::Day);
    let mk = period_key_of(now, caps.timezone@, Period::Month);
    if 0 <= amount && 0 <= spent(calls, Period::Day, dk) && 0 <= held(live, Period::Day, dk) && 0 <= spent(
        calls,
        Period::Month,
        mk,
    ) && 0 <= held(live, Period::Month, mk) && spent(calls, Period::Day, dk) + held(live, Period::Day, dk) + amount
        <= caps.daily_microusd && spent(calls, Period::Month, mk) + held(live, Period::Month, mk) + amount
        <= caps.monthly_microusd {
        assert(fits_i64(spent(calls, Period::Day, dk)));
        assert(fits_i64(held(live, Period::Month, mk)));
    }
}

/// Usage counts only the calls of its period: recording one more call changes
/// the period's spend, call count and token totals, and its model's totals, by
/// that call's figures when the call falls in the period, and leaves them (and
/// every other model's totals) as they were when it does not.
pub proof fn law_usage_counts_only_the_period(
    before: UsageSummary,
    after: UsageSummary,
    calls: Seq<StoredCall>,
    res: Seq<StoredReservation>,
    c: StoredCall,
    p: Period,
    key: Seq<char>,
    model: Seq<char>,
)
    requires
        summary_matches(before, calls, res, p, key),
        summary_matches(after, calls.push(c), res, p, key),
    ensures
        call_key(c, p) != key || c.record.model@ != model ==> lookup(after.by_model@, model) == lookup(
            before.by_model@,
            model,
        ),
        call_key(c, p) == key && c.record.model@ == model ==> (lookup(after.by_model@, model) matches Some(u) && ({
            let (calls0, in0, out0, cost0) = match lookup(before.by_model@, model) {
                Some(b) => (b.calls as int, b.tokens_in as int, b.tokens_out as int, b.cost_microusd as int),
                None => (0int, 0int, 0int, 0int),
            };
            &&& u.calls == calls0 + 1
            &&& u.tokens_in == in0 + c.record.tokens_in
            &&& u.tokens_out == out0 + c.record.tokens_out
            &&& u.cost_microusd == cost0 + c.record.cost_microusd
        })),
        call_key(c, p) != key ==> after.total_microusd == before.total_microusd && after.calls == before.calls
            && after.tokens_in == before.tokens_in && after.tokens_out == before.tokens_out,
        call_key(c, p) == key ==> after.total_microusd == before.total_microusd + c.record.cost_microusd
            && after.calls == before.calls + 1 && after.tokens_in == before.tokens_in + c.record.tokens_in
            && after.tokens_out == before.tokens_out + c.record.tokens_out,
        after.pending_microusd == before.pending_microusd,
{
    assert(calls.push(c).drop_last() =~= calls);
    assert(calls.push(c).last() == c);
    let a = lookup(after.by_model@, model);
    let b = lookup(before.by_model@, model);
    if a is Some && b is Some {
        assert(a->0 == b->0 || call_key(c, p) == key && c.record.model@ == model);
    }
    lemma_no_calls_no_totals(calls, p, key, model);
}

/// A model with no calls toward a key has no tokens or cost there either.
proof fn lemma_no_calls_no_totals(calls: Seq<StoredCall>, p: Period, key: Seq<char>, model: Seq<char>)
    ensures
        crate::ledger::model_tally(calls, p, key, model).0 == 0 ==> crate::ledger::model_tally(calls, p, key, model).1
            == 0 && crate::ledger::model_tally(calls, p, key, model).2 == 0 && crate::ledger::model_tally(
            calls,
            p,
            key,
            model,
        ).3 == 0,
    decreases calls.len(),
{
    if calls.len() > 0 {
        lemma_no_calls_no_totals(calls.drop_last(), p, key, model);
    }
}

/// The estimate counts every message, whatever its role: one more message adds
/// exactly its UTF-8 length plus 16, and a request without messages is 16.
pub proof fn law_estimate_counts_every_message(r1: RelayRequest, r2: RelayRequest, m: Message, n1: nat, n2: nat)
    requires
        !r1.stream,
        !r2.stream,
        r2.messages@ == r1.messages@.push(m),
    ensures
        r1.messages@.len() == 0 ==> estimate_of(r1) == Some(Some(16nat)),
        estimate_of(r1) == Some(Some(n1)) && estimate_of(r2) == Some(Some(n2)) ==> n2 == n1 + utf8_len(m.content@)
            + 16,
{
    assert(r2.messages@.drop_last() =~= r1.messages@);
    assert(r2.messages@.last() == m);
    if r1.messages@.len() == 0 {
        assert(content_bytes(r1.messages@) == 0);
    }
}

/// The estimate never undercounts a message: it is at least any one message's
/// UTF-8 length plus 16 for every message plus 16.
pub proof fn law_estimate_covers_each_message(r: RelayRequest, i: int, n: nat)
    requires
        estimate_of(r) == Some(Some(n)),
        0 <= i < r.messages@.len(),
    ensures
        n >= utf8_len(r.messages@[i].content@) + 16 * r.messages@.len() + 16,
{
    lemma_bytes_cover(r.messages@, i);
}

proof fn lemma_bytes_cover(ms: Seq<Message>, i: int)
    requires
        0 <= i < ms.len(),
    ensures
        content_bytes(ms) >= utf8_len(ms[i].content@) + 16 * ms.len(),
    decreases ms.len(),
{
    let d = ms.drop_last();
    if i < ms.len() - 1 {
        lemma_bytes_cover(d, i);
        assert(d[i] == ms[i]);
    } else {
        lemma_bytes_at_least(d);
    }
}

proof fn lemma_bytes_at_least(ms: Seq<Message>)
    ensures
        content_bytes(ms) >= 16 * ms.len(),
    decreases ms.len(),
{
    if ms.len() > 0 {
        lemma_bytes_at_least(ms.drop_last());
    }
}

/// The decimal digits of a number denote it.
proof fn lemma_digits_denote(n: nat)
    ensures
        all_digits(nat_digits(n)),
        digits_value(nat_digits(n)) == n,
        nat_digits(n).len() >= 1,
    decreases n,
{
    lemma_digit_char((n % 10) as nat);
    if n >= 10 {
        lemma_digits_denote(n / 10);
        let s = nat_digits(n / 10);
        let t = s.push(digit_char((n % 10) as nat));
        assert(t.drop_last() =~= s);
        assert forall|i: int| 0 <= i < t.len() implies '0' <= #[trigger] t[i] <= '9' by {
            if i < s.len() {
                assert(t[i] == s[i]);
            }
        }
        assert(t.last() == digit_char((n % 10) as nat));
        assert(digits_value(t) == 10 * digits_value(s) + ((t.last() as int - '0' as int) as nat));
        assert(nat_digits(n) == t);
        assert(10 * (n / 10) + n % 10 == n);
    } else {
        let t = seq![digit_char(n)];
        assert(t.drop_last() =~= Seq::<char>::empty());
        assert(digits_value(t) == 10 * digits_value(t.drop_last()) + ((t.last() as int - '0' as int) as nat));
        assert(nat_digits(n) == t);
    }
}

proof fn lemma_digit_char(d: nat)
    requires
        d < 10,
    ensures
        '0' <= digit_char(d) <= '9',
        (digit_char(d) as int - '0' as int) as nat == d,
{
}

/// Dollar amounts read back as what they print: `$`, a `-` for a negative
/// amount, the whole dollars in decimal digits, a point, and six digits of
/// micro-dollars; the digits denote the amount.
pub proof fn law_usd_text_reads_back(microusd: int)
    ensures
        ({
            let t = usd_text(microusd);
            let m = if microusd < 0 { -microusd } else { microusd };
            let start = if microusd < 0 { 2int } else { 1int };
            &&& t.len() >= start + 8
            &&& t[0] == '$'
            &&& (microusd < 0 ==> t[1] == '-')
            &&& t[t.len() - 7] == '.'
            &&& all_digits(t.subrange(start, t.len() - 7))
            &&& all_digits(t.subrange(t.len() - 6, t.len() as int))
            &&& digits_value(t.subrange(start, t.len() - 7)) == m / 1000000
            &&& digits_value(t.subrange(t.len() - 6, t.len() as int)) == m % 1000000
        }),
{
    let t = usd_text(microusd);
    let m: nat = if microusd < 0 { (-microusd) as nat } else { microusd as nat };
    let sign = if microusd < 0 { seq!['-'] } else { Seq::<char>::empty() };
    let whole = nat_digits(m / 1000000);
    let f = m % 1000000;
    let six = crate::pricing::six_digits(f);
    lemma_digits_denote(m / 1000000);
    assert(t =~= seq!['$'] + sign + whole + seq!['.'] + six);
    let start = 1 + sign.len();
    assert(t.subrange(start as int, t.len() - 7) =~= whole);
    assert(t.subrange(t.len() - 6, t.len() as int) =~= six);
    lemma_digit_char((f / 100000) % 10);
    lemma_digit_char((f / 10000) % 10);
    lemma_digit_char((f / 1000) % 10);
    lemma_digit_char((f / 100) % 10);
    lemma_digit_char((f / 10) % 10);
    lemma_digit_char(f % 10);
    reveal_with_fuel(digits_value, 7);
    assert(six.drop_last().drop_last().drop_last().drop_last().drop_last().drop_last() =~= Seq::<char>::empty());
    assert(digits_value(six) == f) by (nonlinear_arith)
        requires
            f < 1000000,
            digits_value(six) == ((((((f / 100000) % 10) * 10 + (f / 10000) % 10) * 10 + (f / 1000) % 10) * 10 + (f
                / 100) % 10) * 10 + (f / 10) % 10) * 10 + f % 10,
    ;
}

} // verus!
