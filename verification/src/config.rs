//! The user's configuration: spend caps, model aliases and provider settings.

use vstd::prelude::*;
use vstd::string::StringExecFns;
use crate::decimal::{fits_i64, spec_decimal_mul, spec_decimal_parse, DecimalModel};
use crate::error::{is_unknown_model, RelayError, Result};
use crate::namemap::{has_key, lookup, NameMap};
use crate::pricing::{is_config_error, is_out_of_range, usd_to_microusd};
use crate::text::{blank, contains_char, has_char, is_blank, spec_trim, str_trim};

verus! {

/// Where the library keeps its files: the configuration, the price table and
/// the ledger, all inside one home directory.
#[derive(Clone, Debug)]
pub struct AppPaths {
    pub home: String,
    pub config: String,
    pub prices: String,
    pub ledger: String,
}

/// What `Path::join` makes of a directory and a file name, as text.
pub uninterp spec fn spec_path_join(base: Seq<char>, name: Seq<char>) -> Seq<char>;

/// `Path::join` (std): the path of `name` inside `base`, as text. Its result is
/// named by `spec_path_join`; separators and absolute names are std's business
/// and are not stated here.
#[verifier::external_body]
fn path_join(base: &str, name: &str) -> (r: String)
    ensures
        r@ == spec_path_join(base@, name@),
{
    std::path::Path::new(base).join(name).to_string_lossy().into_owned()
}

impl AppPaths {
    /// The paths of the files inside `home`.
    pub fn new(home: String) -> (r: AppPaths)
        ensures
            r.home@ == home@,
            r.config@ == spec_path_join(home@, "relay.toml"@),
            r.prices@ == spec_path_join(home@, "prices.json"@),
            r.ledger@ == spec_path_join(home@, "ledger.db"@),
    {
        let config = path_join(home.as_str(), "relay.toml");
        let prices = path_join(home.as_str(), "prices.json");
        let ledger = path_join(home.as_str(), "ledger.db");
        AppPaths { home, config, prices, ledger }
    }
}

/// The hard caps as written in the configuration: dollar amounts as text and
/// the IANA time zone in which days and months are counted.
#[derive(Clone, Debug)]
pub struct CapsConfig {
    pub daily_usd: String,
    pub monthly_usd: String,
    pub timezone: String,
}

/// Settings of one provider: the environment variable that holds its key.
#[derive(Clone, Debug)]
pub struct ProviderConfig {
    pub api_key_env: String,
}

/// The whole configuration.
#[derive(Clone, Debug)]
pub struct Config {
    pub caps: CapsConfig,
    pub models: NameMap<String>,
    pub providers: NameMap<ProviderConfig>,
}

/// The caps in micro-dollars and the accounting time zone.
#[derive(Clone, Debug, PartialEq, Eq)]
pub struct CapLimits {
    pub daily_microusd: i64,
    pub monthly_microusd: i64,
    pub timezone: String,
}

/// Whether `chrono_tz` knows the IANA time-zone name.
pub uninterp spec fn spec_known_timezone(name: Seq<char>) -> bool;

/// `str::parse::<chrono_tz::Tz>` (`chrono_tz`): whether the name is one of the
/// IANA zones compiled into the crate. The answer is named by `spec_known_timezone`.
#[verifier::external_body]
pub(crate) fn known_timezone(name: &str) -> (r: bool)
    ensures
        r == spec_known_timezone(name@),
{
    name.parse::<chrono_tz::Tz>().is_ok()
}

/// How a failed step is reported: a configuration error (`true`) or an
/// out-of-range amount (`false`), with its text.
pub type Fault = (bool, Seq<char>);

/// Whether `e` is the error `f` describes.
pub open spec fn reports(e: RelayError, f: Fault) -> bool {
    if f.0 {
        is_config_error(e, f.1)
    } else {
        is_out_of_range(e, f.1)
    }
}

/// What `usd_to_microusd` returns for an amount, as a number or a fault.
pub open spec fn usd_outcome(amount: Seq<char>) -> core::result::Result<int, Fault> {
    match spec_decimal_parse(spec_trim(amount)) {
        Err(e) => Err((true, "invalid USD amount '"@ + amount + "': "@ + e)),
        Ok(d) => if d.negative {
            Err((true, "caps must not be negative"@))
        } else {
            match spec_decimal_mul(d, DecimalModel::of_nat(1000000)) {
                None => Err((false, amount)),
                Some(p) => if fits_i64(p.floor()) {
                    Ok(p.floor())
                } else {
                    Err((false, amount))
                },
            }
        },
    }
}

/// What `cap_limits` returns: the two caps, or the fault of the first check that fails.
pub open spec fn cap_limits_outcome(caps: CapsConfig) -> core::result::Result<(int, int), Fault> {
    if !spec_known_timezone(caps.timezone@) {
        Err((true, "unknown IANA timezone '"@ + caps.timezone@ + "' in [caps]"@))
    } else {
        match usd_outcome(caps.daily_usd@) {
            Err(f) => Err(f),
            Ok(daily) => match usd_outcome(caps.monthly_usd@) {
                Err(f) => Err(f),
                Ok(monthly) => Ok((daily, monthly)),
            },
        }
    }
}

/// The first provider whose key variable is blank, as the fault `validate` reports.
pub open spec fn providers_problem(providers: Seq<(Seq<char>, ProviderConfig)>) -> Option<Seq<char>>
    decreases providers.len(),
{
    if providers.len() == 0 {
        None
    } else {
        match providers_problem(providers.drop_last()) {
            Some(t) => Some(t),
            None => if is_blank(providers.last().1.api_key_env@) {
                Some("providers."@ + providers.last().0 + ".api_key_env must not be empty"@)
            } else {
                None
            },
        }
    }
}

/// What `validate` reports for a configuration: nothing, or the fault of the first failed check.
pub open spec fn config_problem(c: Config) -> Option<Fault> {
    match cap_limits_outcome(c.caps) {
        Err(f) => Some(f),
        Ok(_) => if !(lookup(c.models@, "default"@) matches Some(m) && m@.len() > 0) {
            Some((true, "[models].default must name a model"@))
        } else {
            match providers_problem(c.providers@) {
                Some(t) => Some((true, t)),
                None => None,
            }
        },
    }
}

/// The alias or model key a request names: `think` when asked to think, else
/// the requested name, else `default`.
pub open spec fn requested_name(requested: Option<Seq<char>>, think: bool) -> Seq<char> {
    if think {
        "think"@
    } else {
        match requested {
            Some(n) => n,
            None => "default"@,
        }
    }
}

/// The view of an optional text.
pub open spec fn opt_view(s: Option<&str>) -> Option<Seq<char>> {
    match s {
        Some(t) => Some(t@),
        None => None,
    }
}

/// What `resolve_model` returns: a name with a colon is already a model key;
/// any other name is an alias looked up in `[models]`.
pub open spec fn resolved_model(models: Seq<(Seq<char>, String)>, name: Seq<char>) -> Option<Seq<char>> {
    if has_char(name, ':') {
        Some(name)
    } else {
        match lookup(models, name) {
            Some(m) => Some(m@),
            None => None,
        }
    }
}

impl Config {
    /// Checks the caps, the default model and the provider settings.
    pub fn validate(&self) -> (r: Result<()>)
        ensures
            match config_problem(*self) {
                None => r is Ok,
                Some(f) => r is Err && reports(r->Err_0, f),
            },
    {
        self.cap_limits()?;
        let default_ok = match self.models.get("default") {
            Some(m) => !m.as_str().is_empty(),
            None => false,
        };
        if !default_ok {
            return Err(RelayError::Config(String::from_str("[models].default must name a model")));
        }
        let n = self.providers.len();
        let mut i: usize = 0;
        while i < n
            invariant
                n == self.providers@.len(),
                i <= n,
                providers_problem(self.providers@.subrange(0, i as int)) is None,
                cap_limits_outcome(self.caps) is Ok,
                lookup(self.models@, "default"@) matches Some(mm) && mm@.len() > 0,
            decreases n - i,
        {
            let name = self.providers.key_at(i);
            let provider = self.providers.value_at(i);
            proof {
                assert(self.providers@.subrange(0, i + 1).drop_last() =~= self.providers@.subrange(0, i as int));
            }
            if blank(provider.api_key_env.as_str()) {
                let mut m = String::from_str("providers.");
                m.append(name.as_str());
                m.append(".api_key_env must not be empty");
                proof {
                    lemma_problem_prefix(self.providers@, (i + 1) as int);
                    lemma_problem_extends(self.providers@, (i + 1) as int);
                }
                return Err(RelayError::Config(m));
            }
            i = i + 1;
        }
        proof {
            assert(self.providers@.subrange(0, n as int) =~= self.providers@);
        }
        Ok(())
    }

    /// The caps in micro-dollars and the validated time zone.
    pub fn cap_limits(&self) -> (r: Result<CapLimits>)
        ensures
            match cap_limits_outcome(self.caps) {
                Ok((daily, monthly)) => r is Ok && r->Ok_0.daily_microusd == daily && r->Ok_0.monthly_microusd
                    == monthly && r->Ok_0.timezone == self.caps.timezone && spec_known_timezone(
                    r->Ok_0.timezone@,
                ),
                Err(f) => r is Err && reports(r->Err_0, f),
            },
    {
        if !known_timezone(self.caps.timezone.as_str()) {
            let mut m = String::from_str("unknown IANA timezone '");
            m.append(self.caps.timezone.as_str());
            m.append("' in [caps]");
            return Err(RelayError::Config(m));
        }
        let daily = usd_to_microusd(self.caps.daily_usd.as_str())?;
        let monthly = usd_to_microusd(self.caps.monthly_usd.as_str())?;
        Ok(CapLimits { daily_microusd: daily, monthly_microusd: monthly, timezone: self.caps.timezone.clone() })
    }

    /// The model key for a request: `think`, the requested name, or `default`,
    /// with aliases replaced by the model they stand for.
    pub fn resolve_model(&self, requested: Option<&str>, think: bool) -> (r: Result<String>)
        ensures
            match resolved_model(self.models@, requested_name(opt_view(requested), think)) {
                Some(m) => r is Ok && r->Ok_0@ == m,
                None => r is Err && is_unknown_model(r->Err_0, requested_name(opt_view(requested), think)),
            },
    {
        let name: &str = if think {
            "think"
        } else {
            match requested {
                Some(n) => n,
                None => "default",
            }
        };
        if contains_char(name, ':') {
            return Ok(name.to_owned());
        }
        match self.models.get(name) {
            Some(m) => Ok(m.clone()),
            None => Err(RelayError::UnknownModel(name.to_owned())),
        }
    }

    /// The environment variable that holds a provider's key (trimmed).
    pub fn credential_variable(&self, provider: &str) -> (r: Result<String>)
        ensures
            match lookup(self.providers@, provider@) {
                Some(p) => r is Ok && r->Ok_0@ == spec_trim(p.api_key_env@),
                None => r is Err && r->Err_0 == RelayError::UnsupportedProvider(r->Err_0->UnsupportedProvider_0)
                    && r->Err_0->UnsupportedProvider_0@ == provider@,
            },
    {
        match self.providers.get(provider) {
            Some(p) => Ok(str_trim(p.api_key_env.as_str())),
            None => Err(RelayError::UnsupportedProvider(provider.to_owned())),
        }
    }
}

/// The credential read from `variable`, provided it is set and not blank.
pub fn accept_credential(variable: &str, value: Option<String>) -> (r: Result<String>)
    ensures
        match value {
            Some(v) => if is_blank(v@) {
                r is Err && r->Err_0 == RelayError::MissingCredential(r->Err_0->MissingCredential_0)
                    && r->Err_0->MissingCredential_0@ == variable@
            } else {
                r == Ok::<String, RelayError>(v)
            },
            None => r is Err && r->Err_0 == RelayError::MissingCredential(r->Err_0->MissingCredential_0)
                && r->Err_0->MissingCredential_0@ == variable@,
        },
{
    match value {
        Some(v) => {
            if blank(v.as_str()) {
                Err(RelayError::MissingCredential(variable.to_owned()))
            } else {
                Ok(v)
            }
        },
        None => Err(RelayError::MissingCredential(variable.to_owned())),
    }
}

/// The first blank key variable of a prefix is the first of the whole table.
proof fn lemma_problem_extends(providers: Seq<(Seq<char>, ProviderConfig)>, k: int)
    requires
        0 <= k <= providers.len(),
        providers_problem(providers.subrange(0, k)) is Some,
    ensures
        providers_problem(providers) == providers_problem(providers.subrange(0, k)),
    decreases providers.len(),
{
    if k == providers.len() {
        assert(providers.subrange(0, k) =~= providers);
    } else {
        let d = providers.drop_last();
        assert(d.subrange(0, k) =~= providers.subrange(0, k));
        lemma_problem_extends(d, k);
    }
}

proof fn lemma_problem_prefix(providers: Seq<(Seq<char>, ProviderConfig)>, k: int)
    requires
        0 < k <= providers.len(),
        providers_problem(providers.subrange(0, k - 1)) is None,
        is_blank(providers[k - 1].1.api_key_env@),
    ensures
        providers_problem(providers.subrange(0, k)) == Some(
            "providers."@ + providers[k - 1].0 + ".api_key_env must not be empty"@,
        ),
{
    let s = providers.subrange(0, k);
    assert(s.drop_last() =~= providers.subrange(0, k - 1));
    assert(s.last() == providers[k - 1]);
}

} // verus!
