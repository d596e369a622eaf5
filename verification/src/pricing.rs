//! Model prices, their validation, and the conversion of token counts and
//! dollar amounts into whole micro-dollars.

use vstd::prelude::*;
use vstd::string::StringExecFns;
use crate::decimal::{
    aligned, decimal_checked_add, decimal_checked_mul, fits_i64, lemma_pow10_add, spec_decimal_parse, lemma_pow10_monotone,
    lemma_pow10_positive, max_nat, pow10, spec_decimal_add, MAX_SCALE, spec_decimal_mul, Decimal, DecimalModel,
    MANTISSA_LIMIT,
};
use crate::error::{is_unknown_model, RelayError, Result};
use crate::namemap::{has_key, key_index, lookup, lemma_key_index_unique, NameMap};
use crate::text::{blank, chars_of, digit, digit_char, is_blank, nat_digits, push_char, push_digits, spec_trim, str_trim};

verus! {

/// One row of the price table: dollars per million input and output tokens,
/// the model's context size, the provider's API model name, and provenance.
#[derive(Debug)]
pub struct PriceEntry {
    pub input_per_mtok: Decimal,
    pub output_per_mtok: Decimal,
    pub max_context: u64,
    pub api_model: String,
    pub verified: bool,
    pub source_url: Option<String>,
    pub verified_at: Option<String>,
}

impl Clone for PriceEntry {
    fn clone(&self) -> (r: Self)
        ensures
            r == *self,
    {
        PriceEntry {
            input_per_mtok: self.input_per_mtok,
            output_per_mtok: self.output_per_mtok,
            max_context: self.max_context,
            api_model: self.api_model.clone(),
            verified: self.verified,
            source_url: match &self.source_url {
                Some(s) => Some(s.clone()),
                None => None,
            },
            verified_at: match &self.verified_at {
                Some(s) => Some(s.clone()),
                None => None,
            },
        }
    }
}

/// A price-table key has the form `provider:model`: exactly one colon, with
/// text on both sides.
pub open spec fn is_model_key(key: Seq<char>) -> bool {
    exists|i: int|
        0 < i < key.len() - 1 && #[trigger] key[i] == ':' && forall|j: int|
            0 <= j < key.len() && j != i ==> #[trigger] key[j] != ':'
}

/// The first rule a price entry breaks, as the reason text the error carries;
/// `None` when the entry is valid.
pub open spec fn price_problem(e: PriceEntry, key: Seq<char>) -> Option<Seq<char>> {
    if !is_model_key(key) {
        Some("key must have the form provider:model"@)
    } else if e.input_per_mtok@.negative || e.output_per_mtok@.negative {
        Some("prices must be non-negative"@)
    } else if e.max_context == 0 {
        Some("max_context must be positive"@)
    } else if is_blank(e.api_model@) {
        Some("api_model must not be empty"@)
    } else if e.verified && (e.source_url is None || e.verified_at is None) {
        Some("verified entries require source_url and verified_at provenance"@)
    } else {
        None
    }
}

/// The error a price entry's validation reports for `model` with `reason`.
pub open spec fn is_invalid_price(e: RelayError, model: Seq<char>, reason: Seq<char>) -> bool {
    e matches RelayError::InvalidPrice { model: m, reason: r } && m@ == model && r@ == reason
}

/// Whether `e` is `AmountOutOfRange` carrying `text`.
pub open spec fn is_out_of_range(e: RelayError, text: Seq<char>) -> bool {
    e matches RelayError::AmountOutOfRange(m) && m@ == text
}

/// What `cost_microusd` returns for token counts `input` and `output` at the
/// given prices, stage by stage through `rust_decimal`'s arithmetic: the rounded-up
/// cost, or the text of the overflow that stopped it.
pub open spec fn cost_outcome(
    input_price: DecimalModel,
    output_price: DecimalModel,
    input: nat,
    output: nat,
) -> core::result::Result<int, Seq<char>> {
    match spec_decimal_mul(DecimalModel::of_nat(input), input_price) {
        None => Err("input token cost overflow"@),
        Some(a) => match spec_decimal_mul(DecimalModel::of_nat(output), output_price) {
            None => Err("output token cost overflow"@),
            Some(b) => match spec_decimal_add(a, b) {
                None => Err("total token cost overflow"@),
                Some(t) => if fits_i64(t.ceil()) {
                    Ok(t.ceil())
                } else {
                    Err("cost does not fit in i64"@)
                },
            },
        },
    }
}

/// `ceil(n / d)` for a positive `d`.
pub open spec fn ceil_div(n: int, d: int) -> int {
    -((-n) / d)
}

/// The exact cost in micro-dollars of `input` and `output` tokens at the given
/// per-million-token dollar prices, rounded up: `ceil(input * in_price + output * out_price)`.
pub open spec fn exact_cost(input_price: DecimalModel, output_price: DecimalModel, input: nat, output: nat) -> int {
    ceil_div(
        input * input_price.num() * pow10(output_price.scale) + output * output_price.num() * pow10(
            input_price.scale,
        ),
        pow10(input_price.scale + output_price.scale) as int,
    )
}

/// The sizes for which `rust_decimal` computes the cost without rounding:
/// non-negative prices, both products and their sum aligned to the larger
/// scale within the 96-bit mantissa.
pub open spec fn cost_is_exact(input_price: DecimalModel, output_price: DecimalModel, input: nat, output: nat) -> bool {
    let s = max_nat(input_price.scale, output_price.scale);
    &&& !input_price.negative
    &&& !output_price.negative
    &&& input_price.representable()
    &&& output_price.representable()
    &&& input * input_price.mantissa < MANTISSA_LIMIT
    &&& output * output_price.mantissa < MANTISSA_LIMIT
    &&& input * input_price.mantissa * pow10((s - input_price.scale) as nat) + output * output_price.mantissa
        * pow10((s - output_price.scale) as nat) < MANTISSA_LIMIT
}

impl PriceEntry {
    /// Checks the entry stored under `model` against the price-table rules.
    pub fn validate(&self, model: &str) -> (r: Result<()>)
        ensures
            match price_problem(*self, model@) {
                None => r is Ok,
                Some(reason) => r is Err && is_invalid_price(r->Err_0, model@, reason),
            },
    {
        if !is_model_key_exec(model) {
            return Err(invalid_price(model, "key must have the form provider:model"));
        }
        if self.input_per_mtok.is_sign_negative() || self.output_per_mtok.is_sign_negative() {
            return Err(invalid_price(model, "prices must be non-negative"));
        }
        if self.max_context == 0 {
            return Err(invalid_price(model, "max_context must be positive"));
        }
        if blank(self.api_model.as_str()) {
            return Err(invalid_price(model, "api_model must not be empty"));
        }
        if self.verified && (self.source_url.is_none() || self.verified_at.is_none()) {
            return Err(invalid_price(model, "verified entries require source_url and verified_at provenance"));
        }
        Ok(())
    }

    /// The cost in whole micro-dollars of a call, rounded up.
    pub fn cost_microusd(&self, input_tokens: u64, output_tokens: u64) -> (r: Result<i64>)
        ensures
            match cost_outcome(self.input_per_mtok@, self.output_per_mtok@, input_tokens as nat, output_tokens as nat) {
                Ok(c) => r == Ok::<i64, RelayError>(c as i64),
                Err(text) => r is Err && is_out_of_range(r->Err_0, text),
            },
            cost_is_exact(self.input_per_mtok@, self.output_per_mtok@, input_tokens as nat, output_tokens as nat)
                ==> match r {
                Ok(c) => c == exact_cost(
                    self.input_per_mtok@,
                    self.output_per_mtok@,
                    input_tokens as nat,
                    output_tokens as nat,
                ),
                Err(_) => !fits_i64(
                    exact_cost(self.input_per_mtok@, self.output_per_mtok@, input_tokens as nat, output_tokens as nat),
                ),
            },
    {
        let ghost pin = self.input_per_mtok@;
        let ghost pout = self.output_per_mtok@;
        proof {
            use_type_invariant(&self.input_per_mtok);
            use_type_invariant(&self.output_per_mtok);
        }
        let input = match decimal_checked_mul(&Decimal::from_u64(input_tokens), &self.input_per_mtok) {
            Some(d) => d,
            None => return Err(RelayError::AmountOutOfRange(String::from_str("input token cost overflow"))),
        };
        let output = match decimal_checked_mul(&Decimal::from_u64(output_tokens), &self.output_per_mtok) {
            Some(d) => d,
            None => return Err(RelayError::AmountOutOfRange(String::from_str("output token cost overflow"))),
        };
        proof {
            if cost_is_exact(pin, pout, input_tokens as nat, output_tokens as nat) {
                lemma_aligned_bound(pin, pout, input_tokens as nat, output_tokens as nat, input@, output@);
            }
        }
        let total = match decimal_checked_add(&input, &output) {
            Some(d) => d,
            None => return Err(RelayError::AmountOutOfRange(String::from_str("total token cost overflow"))),
        };
        proof {
            if cost_is_exact(pin, pout, input_tokens as nat, output_tokens as nat) {
                lemma_cost_exact(pin, pout, input_tokens as nat, output_tokens as nat, input@, output@, total@);
            }
        }
        match total.ceil_to_i64() {
            Some(c) => Ok(c),
            None => Err(RelayError::AmountOutOfRange(String::from_str("cost does not fit in i64"))),
        }
    }
}

/// Whether `e` is a configuration error carrying `text`.
pub open spec fn is_config_error(e: RelayError, text: Seq<char>) -> bool {
    e matches RelayError::Config(m) && m@ == text
}

/// For a parsed non-negative amount whose micro-dollar mantissa fits in 96 bits,
/// the conversion is the exact floor of `amount * 1_000_000`, or out of range
/// exactly when that floor does not fit in `i64`.
pub open spec fn usd_conversion_is_exact(
    parsed: core::result::Result<DecimalModel, Seq<char>>,
    r: Result<i64>,
    amount: Seq<char>,
) -> bool {
    match parsed {
        Ok(d) => (!d.negative && d.mantissa * 1000000 < MANTISSA_LIMIT) ==> match r {
            Ok(v) => v == (d.mantissa * 1000000) as int / (pow10(d.scale) as int),
            Err(e) => is_out_of_range(e, amount) && !fits_i64(
                (d.mantissa * 1000000) as int / (pow10(d.scale) as int),
            ),
        },
        Err(_) => true,
    }
}

/// Converts a dollar amount written as decimal text (surrounding whitespace
/// allowed) into whole micro-dollars, rounding down.
pub fn usd_to_microusd(amount: &str) -> (r: Result<i64>)
    ensures
        match spec_decimal_parse(spec_trim(amount@)) {
            Err(e) => r is Err && is_config_error(r->Err_0, "invalid USD amount '"@ + amount@ + "': "@ + e),
            Ok(d) => if d.negative {
                r is Err && is_config_error(r->Err_0, "caps must not be negative"@)
            } else {
                match spec_decimal_mul(d, DecimalModel::of_nat(1000000)) {
                    None => r is Err && is_out_of_range(r->Err_0, amount@),
                    Some(p) => if fits_i64(p.floor()) {
                        r == Ok::<i64, RelayError>(p.floor() as i64)
                    } else {
                        r is Err && is_out_of_range(r->Err_0, amount@)
                    },
                }
            },
        },
        usd_conversion_is_exact(spec_decimal_parse(spec_trim(amount@)), r, amount@),
{
    let trimmed = str_trim(amount);
    let trimmed = trimmed.as_str();
    let decimal = match Decimal::parse_with_error(trimmed) {
        Ok(d) => d,
        Err(e) => {
            let mut m = String::from_str("invalid USD amount '");
            m.append(amount);
            m.append("': ");
            m.append(e.as_str());
            return Err(RelayError::Config(m));
        },
    };
    if decimal.is_sign_negative() {
        return Err(RelayError::Config(String::from_str("caps must not be negative")));
    }
    proof {
        use_type_invariant(&decimal);
        decimal.lemma_well_formed_representable();
    }
    let million = Decimal::from_u64(1_000_000);
    let ghost dm = decimal@;
    proof {
        assert(million@.mantissa == 1000000);
        assert(dm.mantissa * million@.mantissa == dm.mantissa * 1000000);
        assert(dm.scale + million@.scale == dm.scale);
    }
    let scaled = match decimal_checked_mul(&decimal, &million) {
        Some(d) => d,
        None => return Err(RelayError::AmountOutOfRange(amount.to_owned())),
    };
    proof {
        lemma_pow10_positive(dm.scale);
        if dm.mantissa * 1000000 < MANTISSA_LIMIT {
            if dm.mantissa == 0 {
                assert(scaled@ == DecimalModel::zero());
                assert(scaled@.floor() == 0int / 1int);
                assert(0int / 1int == 0);
                assert((dm.mantissa * 1000000) as int == 0);
                assert(0int / (pow10(dm.scale) as int) == 0);
            } else {
                assert(0 < dm.mantissa * million@.mantissa);
                assert(dm.mantissa * million@.mantissa < MANTISSA_LIMIT);
                assert(dm.scale + million@.scale <= MAX_SCALE);
                assert(scaled@.mantissa == dm.mantissa * 1000000);
                assert(scaled@.scale == dm.scale);
                assert(!scaled@.negative);
            }
        }
    }
    match scaled.floor_to_i64() {
        Some(v) => Ok(v),
        None => Err(RelayError::AmountOutOfRange(amount.to_owned())),
    }
}

/// Six decimal digits of a number below a million, zero-padded.
pub open spec fn six_digits(n: nat) -> Seq<char> {
    seq![
        digit_char((n / 100000) % 10),
        digit_char((n / 10000) % 10),
        digit_char((n / 1000) % 10),
        digit_char((n / 100) % 10),
        digit_char((n / 10) % 10),
        digit_char(n % 10),
    ]
}

/// `$` followed by the amount in dollars with exactly six decimals, as
/// `rust_decimal` prints `microusd / 1_000_000` with `{:.6}`.
pub open spec fn usd_text(microusd: int) -> Seq<char> {
    let m: nat = if microusd < 0 { (-microusd) as nat } else { microusd as nat };
    seq!['$'] + (if microusd < 0 { seq!['-'] } else { Seq::<char>::empty() }) + nat_digits(m / 1000000) + seq!['.']
        + six_digits(m % 1000000)
}

/// Formats an amount of micro-dollars as dollars with six decimals, e.g. `$0.750000`.
pub fn format_usd(microusd: i64) -> (r: String)
    ensures
        r@ == usd_text(microusd as int),
{
    let m: u128 = if microusd < 0 {
        if microusd == i64::MIN { 0x8000_0000_0000_0000u128 } else { (-microusd) as u128 }
    } else {
        microusd as u128
    };
    let mut r = String::new();
    push_char(&mut r, '$');
    if microusd < 0 {
        push_char(&mut r, '-');
    }
    push_digits(&mut r, m / 1_000_000);
    push_char(&mut r, '.');
    let f = m % 1_000_000;
    push_char(&mut r, digit((f / 100000) % 10));
    push_char(&mut r, digit((f / 10000) % 10));
    push_char(&mut r, digit((f / 1000) % 10));
    push_char(&mut r, digit((f / 100) % 10));
    push_char(&mut r, digit((f / 10) % 10));
    push_char(&mut r, digit(f % 10));
    proof {
        let mm: nat = if microusd < 0 { (-microusd) as nat } else { microusd as nat };
        assert(m == mm);
        assert(r@ =~= usd_text(microusd as int));
    }
    r
}

/// Every entry of the pairs passes validation.
pub open spec fn all_valid(pairs: Seq<(Seq<char>, PriceEntry)>) -> bool {
    forall|i: int| 0 <= i < pairs.len() ==> (#[trigger] price_problem(pairs[i].1, pairs[i].0)) is None
}

/// The error `from_entries` reports: that of the first entry that breaks a rule.
pub open spec fn first_price_problem(pairs: Seq<(Seq<char>, PriceEntry)>, e: RelayError) -> bool {
    exists|i: int|
        0 <= i < pairs.len() && (forall|j: int| 0 <= j < i ==> (#[trigger] price_problem(pairs[j].1, pairs[j].0)) is None)
            && problem_reported(pairs[i].1, pairs[i].0, e)
}

/// `e` is the validation error for the entry stored under `key`.
pub open spec fn problem_reported(entry: PriceEntry, key: Seq<char>, e: RelayError) -> bool {
    match price_problem(entry, key) {
        Some(reason) => is_invalid_price(e, key, reason),
        None => false,
    }
}

/// The table of model prices, keyed by `provider:model`. Every entry is valid.
#[derive(Debug)]
pub struct PriceCatalog {
    entries: NameMap<PriceEntry>,
}

impl View for PriceCatalog {
    type V = Seq<(Seq<char>, PriceEntry)>;

    closed spec fn view(&self) -> Seq<(Seq<char>, PriceEntry)> {
        self.entries@
    }
}

impl Clone for PriceCatalog {
    fn clone(&self) -> (r: Self)
        ensures
            r@ == self@,
    {
        proof {
            use_type_invariant(self);
        }
        let entries = self.entries.clone();
        proof {
            assert forall|i: int| 0 <= i < entries@.len() implies entries@[i] == self@[i] by {
                assert(cloned::<PriceEntry>(self@[i].1, entries@[i].1));
            }
            assert(entries@ =~= self@);
        }
        PriceCatalog { entries }
    }
}

impl Default for PriceCatalog {
    /// The empty catalog.
    fn default() -> (r: PriceCatalog)
        ensures
            r@.len() == 0,
    {
        PriceCatalog { entries: NameMap::new() }
    }
}

impl PriceCatalog {
    #[verifier::type_invariant]
    pub closed spec fn well_formed(self) -> bool {
        all_valid(self.entries@)
    }

    /// Builds a catalog, validating every entry in order.
    pub fn from_entries(entries: NameMap<PriceEntry>) -> (r: Result<PriceCatalog>)
        ensures
            r is Ok <==> all_valid(entries@),
            r matches Ok(c) ==> c@ == entries@,
            r matches Err(e) ==> first_price_problem(entries@, e),
    {
        let n = entries.len();
        let mut i: usize = 0;
        while i < n
            invariant
                n == entries@.len(),
                i <= n,
                forall|j: int| 0 <= j < i ==> (#[trigger] price_problem(entries@[j].1, entries@[j].0)) is None,
            decreases n - i,
        {
            let key = entries.key_at(i);
            let value = entries.value_at(i);
            match value.validate(key.as_str()) {
                Ok(()) => {},
                Err(e) => {
                    proof {
                        assert(price_problem(entries@[i as int].1, entries@[i as int].0) is Some);
                        assert(first_price_problem(entries@, e));
                    }
                    return Err(e);
                },
            }
            i = i + 1;
        }
        Ok(PriceCatalog { entries })
    }

    /// All entries, in table order.
    pub fn entries(&self) -> (r: &NameMap<PriceEntry>)
        ensures
            r@ == self@,
    {
        &self.entries
    }

    /// The entry for a model key.
    pub fn get(&self, model: &str) -> (r: Result<&PriceEntry>)
        ensures
            match lookup(self@, model@) {
                Some(e) => r is Ok && *r->Ok_0 == e && price_problem(e, model@) is None,
                None => r is Err && is_unknown_model(r->Err_0, model@),
            },
    {
        proof {
            use_type_invariant(self);
        }
        match self.entries.position(model) {
            Some(i) => {
                proof {
                    assert(price_problem(self@[i as int].1, self@[i as int].0) is None);
                }
                Ok(self.entries.value_at(i))
            },
            None => Err(RelayError::UnknownModel(model.to_owned())),
        }
    }

    /// The entry for a model key, provided its price has been verified.
    pub fn get_verified(&self, model: &str) -> (r: Result<&PriceEntry>)
        ensures
            match lookup(self@, model@) {
                Some(e) => if e.verified {
                    r is Ok && *r->Ok_0 == e && price_problem(e, model@) is None
                } else {
                    r is Err && is_invalid_price(
                        r->Err_0,
                        model@,
                        "price is not marked verified; review its official source before making a paid call"@,
                    )
                },
                None => r is Err && is_unknown_model(r->Err_0, model@),
            },
    {
        let entry = self.get(model)?;
        if !entry.verified {
            return Err(
                invalid_price(
                    model,
                    "price is not marked verified; review its official source before making a paid call",
                ),
            );
        }
        Ok(entry)
    }
}

fn invalid_price(model: &str, reason: &str) -> (e: RelayError)
    ensures
        is_invalid_price(e, model@, reason@),
{
    RelayError::InvalidPrice { model: model.to_owned(), reason: String::from_str(reason) }
}

/// Whether `model` has the form `provider:model`.
fn is_model_key_exec(model: &str) -> (r: bool)
    ensures
        r == is_model_key(model@),
{
    let chars = chars_of(model);
    let n = chars.len();
    let mut colons: usize = 0;
    let mut first: usize = 0;
    let mut i: usize = 0;
    while i < n
        invariant
            n == chars@.len(),
            chars@ == model@,
            i <= n,
            colons <= 2,
            colons == 0 ==> forall|j: int| 0 <= j < i ==> chars@[j] != ':',
            colons >= 1 ==> first < i && chars@[first as int] == ':',
            colons == 1 ==> forall|j: int| 0 <= j < i && j != first ==> chars@[j] != ':',
            colons == 2 ==> exists|j: int| 0 <= j < i && j != first && chars@[j] == ':',
        decreases n - i,
    {
        if chars[i] == ':' {
            if colons == 0 {
                first = i;
                colons = 1;
            } else {
                colons = 2;
            }
        }
        i = i + 1;
    }
    if colons == 1 && 0 < first && first + 1 < n {
        proof {
            assert(0 < first < model@.len() - 1 && model@[first as int] == ':' && forall|j: int|
                0 <= j < model@.len() && j != first ==> model@[j] != ':');
        }
        true
    } else {
        proof {
            if is_model_key(model@) {
                let k = choose|k: int|
                    0 < k < model@.len() - 1 && #[trigger] model@[k] == ':' && forall|j: int|
                        0 <= j < model@.len() && j != k ==> #[trigger] model@[j] != ':';
                if colons == 0 {
                    assert(chars@[k] != ':');
                } else if colons == 2 {
                    let j2 = choose|j: int| 0 <= j < n && j != first && chars@[j] == ':';
                    assert(first == k);
                    assert(j2 == k);
                } else {
                    assert(first == k);
                }
            }
        }
        false
    }
}

/// Under `cost_is_exact`, `rust_decimal`'s cost is the exact rounded-up cost.
proof fn lemma_cost_exact(
    pin: DecimalModel,
    pout: DecimalModel,
    input: nat,
    output: nat,
    a: DecimalModel,
    b: DecimalModel,
    t: DecimalModel,
)
    requires
        cost_is_exact(pin, pout, input, output),
        input * pin.mantissa == 0 ==> a == DecimalModel::zero(),
        0 < input * pin.mantissa ==> a == (DecimalModel {
            negative: false != pin.negative,
            mantissa: input * pin.mantissa,
            scale: 0 + pin.scale,
        }),
        output * pout.mantissa == 0 ==> b == DecimalModel::zero(),
        0 < output * pout.mantissa ==> b == (DecimalModel {
            negative: false != pout.negative,
            mantissa: output * pout.mantissa,
            scale: 0 + pout.scale,
        }),
        !t.negative,
        t.mantissa * pow10(max_nat(a.scale, b.scale)) == (aligned(a, max_nat(a.scale, b.scale)) + aligned(
            b,
            max_nat(a.scale, b.scale),
        )) * pow10(t.scale),
    ensures
        t.ceil() == exact_cost(pin, pout, input, output),
{
    let si = pin.scale;
    let so = pout.scale;
    let s2 = max_nat(a.scale, b.scale);
    let x = aligned(a, s2) + aligned(b, s2);
    // The aligned sum over 10^s2 is the exact cost over 10^(si + so).
    let n = input * pin.mantissa * pow10(so) + output * pout.mantissa * pow10(si);
    lemma_pow10_positive(s2);
    lemma_pow10_positive(t.scale);
    lemma_pow10_positive(si);
    lemma_pow10_positive(so);
    lemma_pow10_positive(si + so);
    assert(a.mantissa * pow10(so) * pow10(s2) == input * pin.mantissa * pow10(so) * pow10((s2 - a.scale) as nat)
        * pow10(a.scale)) by {
        lemma_aligned_scale(a, input * pin.mantissa, si, so, s2);
    }
    assert(b.mantissa * pow10(si) * pow10(s2) == output * pout.mantissa * pow10(si) * pow10((s2 - b.scale) as nat)
        * pow10(b.scale)) by {
        lemma_aligned_scale(b, output * pout.mantissa, so, si, s2);
    }
    lemma_sum_over_common(a, b, input * pin.mantissa, output * pout.mantissa, si, so, s2);
    assert(x * pow10(si + so) == n * pow10(s2));
    assert(t.num() == t.mantissa as int);
    // t.mantissa / 10^t.scale == x / 10^s2 == n / 10^(si+so)
    lemma_cross_ceil(t.mantissa as int, pow10(t.scale) as int, x as int, pow10(s2) as int);
    lemma_cross_ceil(x as int, pow10(s2) as int, n as int, pow10(si + so) as int);
    assert(pin.num() == pin.mantissa as int);
    assert(pout.num() == pout.mantissa as int);
    assert(exact_cost(pin, pout, input, output) == ceil_div(n as int, pow10(si + so) as int)) by {
        assert(input * pin.num() * pow10(so) == input * pin.mantissa * pow10(so));
        assert(output * pout.num() * pow10(si) == output * pout.mantissa * pow10(si));
    }
}

/// Under `cost_is_exact` the two products, aligned to their larger scale, still
/// sum below `2^96`.
proof fn lemma_aligned_bound(
    pin: DecimalModel,
    pout: DecimalModel,
    input: nat,
    output: nat,
    a: DecimalModel,
    b: DecimalModel,
)
    requires
        cost_is_exact(pin, pout, input, output),
        input * pin.mantissa == 0 ==> a == DecimalModel::zero(),
        0 < input * pin.mantissa ==> a == (DecimalModel {
            negative: false != pin.negative,
            mantissa: input * pin.mantissa,
            scale: 0 + pin.scale,
        }),
        output * pout.mantissa == 0 ==> b == DecimalModel::zero(),
        0 < output * pout.mantissa ==> b == (DecimalModel {
            negative: false != pout.negative,
            mantissa: output * pout.mantissa,
            scale: 0 + pout.scale,
        }),
    ensures
        !a.negative,
        !b.negative,
        aligned(a, max_nat(a.scale, b.scale)) + aligned(b, max_nat(a.scale, b.scale)) < MANTISSA_LIMIT,
{
    let s = max_nat(pin.scale, pout.scale);
    let s2 = max_nat(a.scale, b.scale);
    lemma_aligned_le(a, input * pin.mantissa, pin.scale, s2, s);
    lemma_aligned_le(b, output * pout.mantissa, pout.scale, s2, s);
}

proof fn lemma_aligned_le(a: DecimalModel, prod: nat, si: nat, s2: nat, s: nat)
    requires
        prod == 0 ==> a == DecimalModel::zero(),
        0 < prod ==> a.mantissa == prod && a.scale == si,
        a.scale <= s2 <= s,
        si <= s,
    ensures
        aligned(a, s2) <= prod * pow10((s - si) as nat),
{
    if prod == 0 {
        assert(aligned(a, s2) == 0 * pow10((s2 - a.scale) as nat));
        assert(0 * pow10((s2 - a.scale) as nat) == 0) by (nonlinear_arith);
        assert(prod * pow10((s - si) as nat) >= 0) by (nonlinear_arith);
    } else {
        lemma_pow10_monotone((s2 - si) as nat, (s - si) as nat);
        let x = pow10((s2 - si) as nat);
        let y = pow10((s - si) as nat);
        assert(prod * x <= prod * y) by (nonlinear_arith)
            requires
                x <= y,
        ;
    }
}

/// A product at its natural scale `si`, compared over the other scale `so` and the
/// alignment scale `s2`. When the product is zero the decimal is the canonical zero.
proof fn lemma_aligned_scale(a: DecimalModel, prod: nat, si: nat, so: nat, s2: nat)
    requires
        prod == 0 ==> a == DecimalModel::zero(),
        0 < prod ==> a.mantissa == prod && a.scale == si,
        a.scale <= s2,
    ensures
        a.mantissa * pow10(so) * pow10(s2) == prod * pow10(so) * pow10((s2 - a.scale) as nat) * pow10(a.scale),
{
    if prod == 0 {
        assert(a.mantissa == 0);
        assert(a.mantissa * pow10(so) * pow10(s2) == 0) by (nonlinear_arith)
            requires
                a.mantissa == 0,
        ;
        assert(prod * pow10(so) * pow10((s2 - a.scale) as nat) * pow10(a.scale) == 0) by (nonlinear_arith)
            requires
                prod == 0,
        ;
    } else {
        lemma_pow10_add((s2 - a.scale) as nat, a.scale);
        assert(((s2 - a.scale) as nat + a.scale) as nat == s2);
        let p1 = pow10((s2 - a.scale) as nat);
        let p2 = pow10(a.scale);
        let q = pow10(so);
        assert(prod * q * p1 * p2 == prod * q * (p1 * p2)) by (nonlinear_arith);
    }
}

/// The aligned sum over `10^(si + so)` equals the cross-scaled numerator over `10^s2`.
proof fn lemma_sum_over_common(a: DecimalModel, b: DecimalModel, pa: nat, pb: nat, si: nat, so: nat, s2: nat)
    requires
        s2 == max_nat(a.scale, b.scale),
        a.mantissa * pow10(so) * pow10(s2) == pa * pow10(so) * pow10((s2 - a.scale) as nat) * pow10(a.scale),
        b.mantissa * pow10(si) * pow10(s2) == pb * pow10(si) * pow10((s2 - b.scale) as nat) * pow10(b.scale),
        pa == 0 || a.scale == si,
        pb == 0 || b.scale == so,
        pa == 0 ==> a.mantissa == 0,
        pb == 0 ==> b.mantissa == 0,
        pa > 0 ==> a.mantissa == pa,
        pb > 0 ==> b.mantissa == pb,
    ensures
        (aligned(a, s2) + aligned(b, s2)) * pow10(si + so) == (pa * pow10(so) + pb * pow10(si)) * pow10(s2),
{
    lemma_pow10_add(si, so);
    let da = pow10((s2 - a.scale) as nat);
    let db = pow10((s2 - b.scale) as nat);
    let pi = pow10(si);
    let po = pow10(so);
    let p2 = pow10(s2);
    // aligned(a, s2) * pi * po == pa * po * p2
    assert(aligned(a, s2) * pi * po == pa * po * p2) by {
        if pa == 0 {
            assert(aligned(a, s2) == a.mantissa * da);
            assert(aligned(a, s2) == 0) by (nonlinear_arith)
                requires
                    aligned(a, s2) == a.mantissa * da,
                    a.mantissa == 0,
            ;
            assert(aligned(a, s2) * pi * po == 0) by (nonlinear_arith)
                requires
                    aligned(a, s2) == 0,
            ;
            assert(pa * po * p2 == 0) by (nonlinear_arith)
                requires
                    pa == 0,
            ;
        } else {
            lemma_pow10_add((s2 - si) as nat, si);
            assert(((s2 - si) as nat + si) as nat == s2);
            assert(da * pi == p2);
            assert(aligned(a, s2) == pa * da);
            assert(pa * da * pi * po == pa * po * (da * pi)) by (nonlinear_arith);
        }
    }
    assert(aligned(b, s2) * pi * po == pb * pi * p2) by {
        if pb == 0 {
            assert(aligned(b, s2) == b.mantissa * db);
            assert(aligned(b, s2) == 0) by (nonlinear_arith)
                requires
                    aligned(b, s2) == b.mantissa * db,
                    b.mantissa == 0,
            ;
            assert(aligned(b, s2) * pi * po == 0) by (nonlinear_arith)
                requires
                    aligned(b, s2) == 0,
            ;
            assert(pb * pi * p2 == 0) by (nonlinear_arith)
                requires
                    pb == 0,
            ;
        } else {
            lemma_pow10_add((s2 - so) as nat, so);
            assert(((s2 - so) as nat + so) as nat == s2);
            assert(db * po == p2);
            assert(aligned(b, s2) == pb * db);
            assert(pb * db * pi * po == pb * pi * (db * po)) by (nonlinear_arith);
        }
    }
    let xa = aligned(a, s2);
    let xb = aligned(b, s2);
    assert((xa + xb) * (pi * po) == xa * pi * po + xb * pi * po) by (nonlinear_arith);
    assert((pa * po + pb * pi) * p2 == pa * po * p2 + pb * pi * p2) by (nonlinear_arith);
}

/// Equal fractions have equal floors: `a / c == b / d` when `a * d == b * c`.
pub proof fn lemma_cross_floor(a: int, c: int, b: int, d: int)
    requires
        c > 0,
        d > 0,
        a * d == b * c,
    ensures
        a / c == b / d,
{
    let q = a / c;
    let r = a % c;
    vstd::arithmetic::div_mod::lemma_fundamental_div_mod(a, c);
    vstd::arithmetic::div_mod::lemma_mod_bound(a, c);
    assert(a == c * q + r);
    assert((b - q * d) * c == r * d) by (nonlinear_arith)
        requires
            a * d == b * c,
            a == c * q + r,
    ;
    assert(0 <= r * d < c * d) by (nonlinear_arith)
        requires
            0 <= r < c,
            d > 0,
    ;
    assert(0 <= b - q * d < d) by (nonlinear_arith)
        requires
            (b - q * d) * c == r * d,
            0 <= r * d < c * d,
            c > 0,
    ;
    vstd::arithmetic::div_mod::lemma_fundamental_div_mod_converse(b, d, q, b - q * d);
}

/// Equal fractions have equal ceilings.
pub proof fn lemma_cross_ceil(a: int, c: int, b: int, d: int)
    requires
        c > 0,
        d > 0,
        a * d == b * c,
    ensures
        ceil_div(a, c) == ceil_div(b, d),
{
    assert((-a) * d == (-b) * c) by (nonlinear_arith)
        requires
            a * d == b * c,
    ;
    lemma_cross_floor(-a, c, -b, d);
}

} // verus!
