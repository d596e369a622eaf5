//! Exact decimal amounts as `rust_decimal` represents them: a sign, a 96-bit
//! mantissa and a power-of-ten scale of at most 28.

use vstd::prelude::*;
use vstd::arithmetic::div_mod::{lemma_fundamental_div_mod, lemma_div_pos_is_pos, lemma_mod_bound};
use crate::text::{chars_of, nat_digits, nat_to_text, push_char};

verus! {

/// `2^96`, one past the largest mantissa a decimal can hold.
pub const MANTISSA_LIMIT: u128 = 0x1_0000_0000_0000_0000_0000_0000u128;

/// The largest scale (number of fractional digits) a decimal can hold.
pub const MAX_SCALE: u32 = 28;

/// `10^n`.
pub open spec fn pow10(n: nat) -> nat
    decreases n,
{
    if n == 0 {
        1
    } else {
        10 * pow10((n - 1) as nat)
    }
}

pub proof fn lemma_pow10_positive(n: nat)
    ensures
        pow10(n) >= 1,
    decreases n,
{
    if n > 0 {
        lemma_pow10_positive((n - 1) as nat);
    }
}

pub proof fn lemma_pow10_add(a: nat, b: nat)
    ensures
        pow10(a + b) == pow10(a) * pow10(b),
    decreases b,
{
    if b == 0 {
        assert(pow10(0) == 1);
        assert(a + b == a);
    } else {
        let b1 = (b - 1) as nat;
        lemma_pow10_add(a, b1);
        assert(pow10(a + b) == 10 * pow10((a + b1) as nat));
        assert(pow10(b) == 10 * pow10(b1));
        let x = pow10(a);
        let y = pow10(b1);
        assert(x * (10 * y) == 10 * (x * y)) by (nonlinear_arith);
    }
}

pub proof fn lemma_pow10_monotone(a: nat, b: nat)
    requires
        a <= b,
    ensures
        pow10(a) <= pow10(b),
    decreases b,
{
    if a < b {
        lemma_pow10_monotone(a, (b - 1) as nat);
        lemma_pow10_positive((b - 1) as nat);
    }
}

pub proof fn lemma_pow10_38()
    ensures
        pow10(38) == 100000000000000000000000000000000000000nat,
        pow10(28) == 10000000000000000000000000000nat,
        pow10(6) == 1000000nat,
{
    reveal_with_fuel(pow10, 39);
}

/// `10^n` as a machine integer.
pub fn pow10_u128(n: u32) -> (r: u128)
    requires
        n <= 38,
    ensures
        r == pow10(n as nat),
{
    let mut r: u128 = 1;
    let mut i: u32 = 0;
    while i < n
        invariant
            i <= n <= 38,
            r == pow10(i as nat),
        decreases n - i,
    {
        proof {
            lemma_pow10_monotone((i + 1) as nat, 38);
            lemma_pow10_38();
            assert(pow10((i + 1) as nat) == 10 * pow10(i as nat));
        }
        r = r * 10;
        i = i + 1;
    }
    r
}

/// The value of a decimal as plain numbers: `(-1)^negative * mantissa / 10^scale`.
/// `negative` is kept apart from the mantissa because a zero may carry a sign.
pub struct DecimalModel {
    pub negative: bool,
    pub mantissa: nat,
    pub scale: nat,
}

impl DecimalModel {
    /// The signed numerator of the value over `10^scale`.
    pub open spec fn num(self) -> int {
        if self.negative {
            -(self.mantissa as int)
        } else {
            self.mantissa as int
        }
    }

    /// Whether the model is a value a decimal can hold.
    pub open spec fn representable(self) -> bool {
        self.mantissa < MANTISSA_LIMIT && self.scale <= MAX_SCALE
    }

    /// The smallest integer not below the value.
    pub open spec fn ceil(self) -> int {
        -((-self.num()) / (pow10(self.scale) as int))
    }

    /// The largest integer not above the value.
    pub open spec fn floor(self) -> int {
        self.num() / (pow10(self.scale) as int)
    }

    /// The model of a whole number.
    pub open spec fn of_nat(n: nat) -> DecimalModel {
        DecimalModel { negative: false, mantissa: n, scale: 0 }
    }

    /// The canonical zero that arithmetic returns.
    pub open spec fn zero() -> DecimalModel {
        DecimalModel { negative: false, mantissa: 0, scale: 0 }
    }
}

/// `n` zero characters.
pub open spec fn zeros(n: nat) -> Seq<char> {
    Seq::new(n, |i: int| '0')
}

/// How `rust_decimal` displays a decimal: the mantissa's digits, zero-padded on
/// the left to at least `scale` digits, a decimal point before the last `scale`
/// of them (with a `0` before the point when nothing else is), and a `-` for a
/// set sign.
pub open spec fn decimal_text(d: DecimalModel) -> Seq<char> {
    let digits = if d.mantissa == 0 { Seq::<char>::empty() } else { nat_digits(d.mantissa) };
    let padded = if d.scale > digits.len() { zeros((d.scale - digits.len()) as nat) + digits } else { digits };
    let whole = padded.subrange(0, padded.len() - d.scale);
    let frac = padded.subrange(padded.len() - d.scale, padded.len() as int);
    (if d.negative { seq!['-'] } else { Seq::<char>::empty() }) + (if whole.len() == 0 {
        seq!['0']
    } else {
        whole
    }) + (if d.scale > 0 { seq!['.'] + frac } else { Seq::<char>::empty() })
}

/// Whether `n` fits in an `i64`.
pub open spec fn fits_i64(n: int) -> bool {
    i64::MIN <= n <= i64::MAX
}

/// A decimal number with a 96-bit mantissa and a scale of at most 28.
#[derive(Clone, Copy, Debug, PartialEq, Eq)]
pub struct Decimal {
    negative: bool,
    mantissa: u128,
    scale: u32,
}

impl View for Decimal {
    type V = DecimalModel;

    closed spec fn view(&self) -> DecimalModel {
        DecimalModel { negative: self.negative, mantissa: self.mantissa as nat, scale: self.scale as nat }
    }
}

impl Decimal {
    #[verifier::type_invariant]
    pub closed spec fn well_formed(self) -> bool {
        self.mantissa < MANTISSA_LIMIT && self.scale <= MAX_SCALE
    }

    pub proof fn lemma_well_formed_representable(self)
        requires
            self.well_formed(),
        ensures
            self@.representable(),
    {
    }

    /// The decimal holding a whole number of tokens (`Decimal::from(u64)`).
    pub fn from_u64(n: u64) -> (r: Decimal)
        ensures
            r@ == DecimalModel::of_nat(n as nat),
    {
        Decimal { negative: false, mantissa: n as u128, scale: 0 }
    }

    /// Whether the sign flag is set (true for negative values and for a negative zero).
    pub fn is_sign_negative(&self) -> (r: bool)
        ensures
            r == self@.negative,
    {
        self.negative
    }

    /// Parses decimal text with `rust_decimal`'s grammar.
    pub fn parse(text: &str) -> (r: Option<Decimal>)
        ensures
            match r {
                Some(d) => spec_decimal_parse(text@) == Ok::<DecimalModel, Seq<char>>(d@),
                None => spec_decimal_parse(text@) is Err,
            },
    {
        match decimal_from_str(text) {
            Ok(d) => Some(d),
            Err(_) => None,
        }
    }

    /// Parses decimal text; an error carries `rust_decimal`'s description of the problem.
    pub fn parse_with_error(text: &str) -> (r: Result<Decimal, String>)
        ensures
            match r {
                Ok(d) => spec_decimal_parse(text@) == Ok::<DecimalModel, Seq<char>>(d@),
                Err(e) => spec_decimal_parse(text@) == Err::<DecimalModel, Seq<char>>(e@),
            },
    {
        decimal_from_str(text)
    }

    /// The text `rust_decimal` displays for this decimal, e.g. `0.15`.
    pub fn to_text(&self) -> (r: String)
        ensures
            r@ == decimal_text(self@),
    {
        proof {
            use_type_invariant(self);
        }
        let digits: Vec<char> = if self.mantissa == 0 {
            Vec::new()
        } else {
            let t = nat_to_text(self.mantissa);
            chars_of(t.as_str())
        };
        let scale = self.scale as usize;
        let mut padded: Vec<char> = Vec::new();
        let ghost pad_len: nat = if self.scale > digits@.len() { (self.scale - digits@.len()) as nat } else { 0 };
        if scale > digits.len() {
            let pad = scale - digits.len();
            let mut i: usize = 0;
            while i < pad
                invariant
                    i <= pad,
                    padded@ == zeros(i as nat),
                decreases pad - i,
            {
                padded.push('0');
                i = i + 1;
                assert(padded@ =~= zeros(i as nat));
            }
        }
        let mut j: usize = 0;
        let base = padded.len();
        while j < digits.len()
            invariant
                j <= digits@.len(),
                base == pad_len,
                padded@ == zeros(pad_len) + digits@.subrange(0, j as int),
            decreases digits@.len() - j,
        {
            padded.push(digits[j]);
            j = j + 1;
            assert(padded@ =~= zeros(pad_len) + digits@.subrange(0, j as int));
        }
        assert(digits@.subrange(0, digits@.len() as int) =~= digits@);
        let ghost pv = if self.scale > digits@.len() { zeros((self.scale - digits@.len()) as nat) + digits@ } else { digits@ };
        assert(padded@ =~= pv);
        let whole_len = padded.len() - scale;
        let mut r = String::new();
        if self.negative {
            push_char(&mut r, '-');
        }
        let ghost prefix = r@;
        if whole_len == 0 {
            push_char(&mut r, '0');
        } else {
            let mut k: usize = 0;
            while k < whole_len
                invariant
                    k <= whole_len <= padded@.len(),
                    r@ == prefix + padded@.subrange(0, k as int),
                decreases whole_len - k,
            {
                push_char(&mut r, padded[k]);
                k = k + 1;
                assert(r@ =~= prefix + padded@.subrange(0, k as int));
            }
        }
        let ghost mid = r@;
        if scale > 0 {
            push_char(&mut r, '.');
            let mut k: usize = whole_len;
            while k < padded.len()
                invariant
                    whole_len <= k <= padded@.len(),
                    r@ == mid + seq!['.'] + padded@.subrange(whole_len as int, k as int),
                decreases padded@.len() - k,
            {
                push_char(&mut r, padded[k]);
                k = k + 1;
                assert(r@ =~= mid + seq!['.'] + padded@.subrange(whole_len as int, k as int));
            }
        }
        assert(r@ =~= decimal_text(self@));
        r
    }

    /// Rounds up to a whole number and converts it to `i64`
    /// (`ceil` followed by `to_i64`); `None` when it does not fit.
    pub fn ceil_to_i64(&self) -> (r: Option<i64>)
        ensures
            match r {
                Some(v) => v == self@.ceil(),
                None => !fits_i64(self@.ceil()),
            },
    {
        proof {
            use_type_invariant(self);
            lemma_pow10_monotone(self.scale as nat, 28);
            lemma_pow10_38();
            lemma_pow10_positive(self.scale as nat);
        }
        let p = pow10_u128(self.scale);
        let q = self.mantissa / p;
        let rem = self.mantissa % p;
        let magnitude: u128 = if !self.negative && rem > 0 { q + 1 } else { q };
        proof {
            let m = self.mantissa as int;
            let pp = p as int;
            lemma_fundamental_div_mod(m, pp);
            lemma_mod_bound(m, pp);
            if self.negative {
                assert(self@.num() == -m);
                assert(-self@.num() == m);
                assert(self@.ceil() == -(m / pp));
            } else {
                assert(self@.num() == m);
                lemma_ceil_nonneg(m, pp);
                assert(self@.ceil() == if m % pp > 0 { m / pp + 1 } else { m / pp });
            }
            assert(q <= self.mantissa) by {
                lemma_div_le(m, pp);
            }
        }
        if self.negative {
            if magnitude <= 0x8000_0000_0000_0000u128 {
                if magnitude == 0x8000_0000_0000_0000u128 {
                    Some(i64::MIN)
                } else {
                    let v = magnitude as i64;
                    Some(-v)
                }
            } else {
                None
            }
        } else {
            if magnitude <= 0x7fff_ffff_ffff_ffffu128 {
                Some(magnitude as i64)
            } else {
                None
            }
        }
    }

    /// Rounds down to a whole number and converts it to `i64`
    /// (`floor` followed by `to_i64`); `None` when it does not fit.
    pub fn floor_to_i64(&self) -> (r: Option<i64>)
        ensures
            match r {
                Some(v) => v == self@.floor(),
                None => !fits_i64(self@.floor()),
            },
    {
        proof {
            use_type_invariant(self);
            lemma_pow10_monotone(self.scale as nat, 28);
            lemma_pow10_38();
            lemma_pow10_positive(self.scale as nat);
        }
        let p = pow10_u128(self.scale);
        let q = self.mantissa / p;
        let rem = self.mantissa % p;
        let magnitude: u128 = if self.negative && rem > 0 { q + 1 } else { q };
        proof {
            let m = self.mantissa as int;
            let pp = p as int;
            lemma_fundamental_div_mod(m, pp);
            lemma_mod_bound(m, pp);
            if self.negative {
                lemma_ceil_nonneg(m, pp);
                assert(self@.floor() == (-m) / pp);
                assert(-((-(-m)) / pp) == -(m / pp) || true);
                lemma_neg_div(m, pp);
            } else {
                assert(self@.floor() == m / pp);
            }
            assert(q <= self.mantissa) by {
                lemma_div_le(m, pp);
            }
        }
        if self.negative {
            if magnitude <= 0x8000_0000_0000_0000u128 {
                if magnitude == 0x8000_0000_0000_0000u128 {
                    Some(i64::MIN)
                } else {
                    let v = magnitude as i64;
                    Some(-v)
                }
            } else {
                None
            }
        } else {
            if magnitude <= 0x7fff_ffff_ffff_ffffu128 {
                Some(magnitude as i64)
            } else {
                None
            }
        }
    }
}

proof fn lemma_div_le(m: int, p: int)
    requires
        m >= 0,
        p >= 1,
    ensures
        m / p <= m,
        m / p >= 0,
{
    lemma_fundamental_div_mod(m, p);
    lemma_mod_bound(m, p);
    assert(m / p >= 0) by {
        if m / p < 0 {
            assert(p * (m / p) <= -p) by (nonlinear_arith)
                requires
                    m / p < 0,
                    p >= 1,
            ;
        }
    }
    assert(p * (m / p) >= m / p) by (nonlinear_arith)
        requires
            m / p >= 0,
            p >= 1,
    ;
}

/// Ceiling division of a non-negative numerator: `-((-m) / p)` is `m / p`,
/// plus one when there is a remainder.
proof fn lemma_ceil_nonneg(m: int, p: int)
    requires
        m >= 0,
        p >= 1,
    ensures
        -((-m) / p) == if m % p > 0 { m / p + 1 } else { m / p },
{
    lemma_fundamental_div_mod(m, p);
    lemma_mod_bound(m, p);
    lemma_fundamental_div_mod(-m, p);
    lemma_mod_bound(-m, p);
    let q = m / p;
    let r = m % p;
    let q2 = (-m) / p;
    let r2 = (-m) % p;
    assert(m == p * q + r);
    assert(-m == p * q2 + r2);
    if r > 0 {
        assert(-m == (-q - 1) * p + (p - r)) by (nonlinear_arith)
            requires
                m == p * q + r,
        ;
        vstd::arithmetic::div_mod::lemma_fundamental_div_mod_converse(-m, p, -q - 1, p - r);
    } else {
        assert(-m == (-q) * p + 0) by (nonlinear_arith)
            requires
                m == p * q + r,
                r == 0,
        ;
        vstd::arithmetic::div_mod::lemma_fundamental_div_mod_converse(-m, p, -q, 0);
    }
}

/// Floor division of a negated non-negative numerator.
proof fn lemma_neg_div(m: int, p: int)
    requires
        m >= 0,
        p >= 1,
    ensures
        (-m) / p == if m % p > 0 { -(m / p) - 1 } else { -(m / p) },
{
    lemma_ceil_nonneg(m, p);
}

// ---------------------------------------------------------------------------
// What `rust_decimal` computes.

/// What `rust_decimal`'s `Decimal::from_str` makes of a text: the decimal,
/// or the text of the error it reports.
pub uninterp spec fn spec_decimal_parse(text: Seq<char>) -> Result<DecimalModel, Seq<char>>;

/// What `rust_decimal`'s `Decimal::checked_mul` returns for two decimals.
pub uninterp spec fn spec_decimal_mul(a: DecimalModel, b: DecimalModel) -> Option<DecimalModel>;

/// What `rust_decimal`'s `Decimal::checked_add` returns for two decimals.
pub uninterp spec fn spec_decimal_add(a: DecimalModel, b: DecimalModel) -> Option<DecimalModel>;

/// The mantissa of `d` written at the larger scale `s`.
pub open spec fn aligned(d: DecimalModel, s: nat) -> nat {
    d.mantissa * pow10((s - d.scale) as nat)
}

pub open spec fn max_nat(a: nat, b: nat) -> nat {
    if a >= b { a } else { b }
}

/// `Decimal::from_str` (`rust_decimal`): parses decimal text.
/// The result is named by `spec_decimal_parse`; an error carries the text of
/// the reported error. Nothing else is claimed of the grammar. `rust_decimal`
/// keeps every mantissa below `2^96` and every scale at most 28, so what it
/// returns is a well-formed `Decimal`.
#[verifier::external_body]
fn decimal_from_str(text: &str) -> (r: Result<Decimal, String>)
    ensures
        match r {
            Ok(d) => spec_decimal_parse(text@) == Ok::<DecimalModel, Seq<char>>(d@),
            Err(e) => spec_decimal_parse(text@) == Err::<DecimalModel, Seq<char>>(e@),
        },
{
    match <rust_decimal::Decimal as std::str::FromStr>::from_str(text) {
        Ok(d) => Ok(Decimal { negative: d.is_sign_negative(), mantissa: d.mantissa().unsigned_abs(), scale: d.scale() }),
        Err(e) => Err(e.to_string()),
    }
}

/// `Decimal::checked_mul` (`rust_decimal`). The result is named by
/// `spec_decimal_mul`. The source (`ops/mul.rs`) returns the canonical zero when a
/// factor is zero, and the exact product (sign xor, mantissa product, summed scales)
/// when that product needs no rescaling: a mantissa below `2^96` and a scale of at
/// most 28. Beyond that it rounds or overflows, which is not stated. Its results
/// keep `rust_decimal`'s bounds on mantissa and scale.
#[verifier::external_body]
pub(crate) fn decimal_checked_mul(a: &Decimal, b: &Decimal) -> (r: Option<Decimal>)
    ensures
        match r {
            Some(d) => spec_decimal_mul(a@, b@) == Some(d@),
            None => spec_decimal_mul(a@, b@) is None,
        },
        a@.mantissa * b@.mantissa == 0 ==> r is Some && r->0@ == DecimalModel::zero(),
        0 < a@.mantissa * b@.mantissa < MANTISSA_LIMIT && a@.scale + b@.scale <= MAX_SCALE ==> r is Some
            && r->0@ == (DecimalModel {
            negative: a@.negative != b@.negative,
            mantissa: a@.mantissa * b@.mantissa,
            scale: a@.scale + b@.scale,
        }),
{
    let mut x = rust_decimal::Decimal::from_i128_with_scale(a.mantissa as i128, a.scale);
    x.set_sign_negative(a.negative);
    let mut y = rust_decimal::Decimal::from_i128_with_scale(b.mantissa as i128, b.scale);
    y.set_sign_negative(b.negative);
    match x.checked_mul(y) {
        Some(d) => Some(Decimal { negative: d.is_sign_negative(), mantissa: d.mantissa().unsigned_abs(), scale: d.scale() }),
        None => None,
    }
}

/// `Decimal::checked_add` (`rust_decimal`). The result is named by
/// `spec_decimal_add`. The source (`ops/add.rs`) aligns both operands to the larger
/// scale; for two non-negative operands whose aligned sum stays below `2^96` it
/// returns that exact sum, non-negative (a zero operand returns the other one
/// unchanged, which has the same value). Rounding and overflow beyond that are not
/// stated. Its results keep `rust_decimal`'s bounds on mantissa and scale.
#[verifier::external_body]
pub(crate) fn decimal_checked_add(a: &Decimal, b: &Decimal) -> (r: Option<Decimal>)
    ensures
        match r {
            Some(d) => spec_decimal_add(a@, b@) == Some(d@),
            None => spec_decimal_add(a@, b@) is None,
        },
        !a@.negative && !b@.negative && aligned(a@, max_nat(a@.scale, b@.scale)) + aligned(b@, max_nat(a@.scale, b@.scale))
            < MANTISSA_LIMIT ==> r is Some && !r->0@.negative && r->0@.mantissa * pow10(max_nat(a@.scale, b@.scale))
            == (aligned(a@, max_nat(a@.scale, b@.scale)) + aligned(b@, max_nat(a@.scale, b@.scale))) * pow10(r->0@.scale),
{
    let mut x = rust_decimal::Decimal::from_i128_with_scale(a.mantissa as i128, a.scale);
    x.set_sign_negative(a.negative);
    let mut y = rust_decimal::Decimal::from_i128_with_scale(b.mantissa as i128, b.scale);
    y.set_sign_negative(b.negative);
    match x.checked_add(y) {
        Some(d) => Some(Decimal { negative: d.is_sign_negative(), mantissa: d.mantissa().unsigned_abs(), scale: d.scale() }),
        None => None,
    }
}

} // verus!
