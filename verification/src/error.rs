//! The errors of the library and the text that describes each of them.

use vstd::prelude::*;
use vstd::string::StringExecFns;
use crate::text::{int_text, int_to_text};

verus! {

/// Everything that can go wrong on the way from a request to a settled call.
/// Errors that come from outside (I/O, JSON, TOML, HTTP, the ledger store,
/// the credential store) carry the text of the underlying error.
#[derive(Clone, Debug, PartialEq, Eq)]
pub enum RelayError {
    Config(String),
    Io(String),
    Json(String),
    TomlDecode(String),
    TomlEncode(String),
    Ledger(String),
    Http(String),
    /// A provider request that failed before it was sent (no connection was
    /// made), so the provider cannot have processed or billed it.
    NotSent(String),
    UnknownModel(String),
    UnsupportedProvider(String),
    MissingCredential(String),
    InvalidPrice { model: String, reason: String },
    CapExceeded {
        period: &'static str,
        spent_microusd: i64,
        reserved_microusd: i64,
        request_microusd: i64,
        cap_microusd: i64,
    },
    StreamingUnsupported,
    ContextExceeded { requested_tokens: u64, max_context: u64 },
    Provider { provider: String, status: u16, message: String },
    InvalidUsage(String),
    ReservationUnavailable(String),
    PendingReconciliation { reservation_id: String, reason: String },
    AmountOutOfRange(String),
    CredentialStore(String),
}

pub type Result<T> = core::result::Result<T, RelayError>;

/// The human-readable description of an error.
pub open spec fn error_text(e: RelayError) -> Seq<char> {
    match e {
        RelayError::Config(s) => "configuration error: "@ + s@,
        RelayError::Io(s) => "I/O error: "@ + s@,
        RelayError::Json(s) => "JSON error: "@ + s@,
        RelayError::TomlDecode(s) => "TOML decode error: "@ + s@,
        RelayError::TomlEncode(s) => "TOML encode error: "@ + s@,
        RelayError::Ledger(s) => "ledger error: "@ + s@,
        RelayError::Http(s) => "HTTP error: "@ + s@,
        RelayError::NotSent(s) => "provider request was not sent: "@ + s@,
        RelayError::UnknownModel(s) => "unknown model or alias '"@ + s@ + "'"@,
        RelayError::UnsupportedProvider(s) => "unsupported provider '"@ + s@ + "'"@,
        RelayError::MissingCredential(s) => "missing provider credential; set environment variable "@ + s@,
        RelayError::InvalidPrice { model, reason } => "invalid price entry for '"@ + model@ + "': "@ + reason@,
        RelayError::CapExceeded { period, spent_microusd, reserved_microusd, request_microusd, cap_microusd } =>
            period@ + " cap exceeded: spent "@ + int_text(spent_microusd as int) + " µUSD, reserved "@
                + int_text(reserved_microusd as int) + " µUSD, request needs "@ + int_text(request_microusd as int)
                + " µUSD, cap is "@ + int_text(cap_microusd as int) + " µUSD; no provider request was sent"@,
        RelayError::StreamingUnsupported =>
            "streaming is not supported in Relay v0.1 because partial-response usage cannot yet be settled safely"@,
        RelayError::ContextExceeded { requested_tokens, max_context } =>
            "request requires up to "@ + int_text(requested_tokens as int) + " tokens but model context is "@
                + int_text(max_context as int) + " tokens"@,
        RelayError::Provider { provider, status, message } =>
            "provider '"@ + provider@ + "' rejected the request ("@ + int_text(status as int) + "): "@ + message@,
        RelayError::InvalidUsage(s) => "provider returned invalid usage data: "@ + s@,
        RelayError::ReservationUnavailable(s) => "reservation '"@ + s@ + "' was not found or is no longer active"@,
        RelayError::PendingReconciliation { reservation_id, reason } =>
            "provider outcome is ambiguous; reservation "@ + reservation_id@ + " remains held for reconciliation: "@
                + reason@,
        RelayError::AmountOutOfRange(s) => "amount is outside Relay's supported microdollar range: "@ + s@,
        RelayError::CredentialStore(s) => "credential store error: "@ + s@,
    }
}

/// Whether `e` reports the unknown model or alias `name`.
pub open spec fn is_unknown_model(e: RelayError, name: Seq<char>) -> bool {
    e matches RelayError::UnknownModel(m) && m@ == name
}

fn prefixed(prefix: &str, s: &String) -> (r: String)
    ensures
        r@ == prefix@ + s@,
{
    let mut r = String::from_str(prefix);
    r.append(s.as_str());
    r
}

fn quoted(prefix: &str, s: &String, suffix: &str) -> (r: String)
    ensures
        r@ == prefix@ + s@ + suffix@,
{
    let mut r = String::from_str(prefix);
    r.append(s.as_str());
    r.append(suffix);
    r
}

fn append_u64(r: &mut String, n: u64)
    ensures
        final(r)@ == old(r)@ + int_text(n as int),
{
    let t = crate::text::nat_to_text(n as u128);
    r.append(t.as_str());
}

impl RelayError {
    /// The description of the error, as the command line prints it.
    pub fn message(&self) -> (r: String)
        ensures
            r@ == error_text(*self),
    {
        match self {
            RelayError::Config(s) => prefixed("configuration error: ", s),
            RelayError::Io(s) => prefixed("I/O error: ", s),
            RelayError::Json(s) => prefixed("JSON error: ", s),
            RelayError::TomlDecode(s) => prefixed("TOML decode error: ", s),
            RelayError::TomlEncode(s) => prefixed("TOML encode error: ", s),
            RelayError::Ledger(s) => prefixed("ledger error: ", s),
            RelayError::Http(s) => prefixed("HTTP error: ", s),
            RelayError::NotSent(s) => prefixed("provider request was not sent: ", s),
            RelayError::UnknownModel(s) => quoted("unknown model or alias '", s, "'"),
            RelayError::UnsupportedProvider(s) => quoted("unsupported provider '", s, "'"),
            RelayError::MissingCredential(s) => prefixed("missing provider credential; set environment variable ", s),
            RelayError::InvalidPrice { model, reason } => {
                let mut r = quoted("invalid price entry for '", model, "': ");
                r.append(reason.as_str());
                r
            },
            RelayError::CapExceeded { period, spent_microusd, reserved_microusd, request_microusd, cap_microusd } => {
                let mut r = String::from_str(period);
                r.append(" cap exceeded: spent ");
                r.append(int_to_text(*spent_microusd).as_str());
                r.append(" µUSD, reserved ");
                r.append(int_to_text(*reserved_microusd).as_str());
                r.append(" µUSD, request needs ");
                r.append(int_to_text(*request_microusd).as_str());
                r.append(" µUSD, cap is ");
                r.append(int_to_text(*cap_microusd).as_str());
                r.append(" µUSD; no provider request was sent");
                r
            },
            RelayError::StreamingUnsupported => String::from_str(
                "streaming is not supported in Relay v0.1 because partial-response usage cannot yet be settled safely",
            ),
            RelayError::ContextExceeded { requested_tokens, max_context } => {
                let mut r = String::from_str("request requires up to ");
                append_u64(&mut r, *requested_tokens);
                r.append(" tokens but model context is ");
                append_u64(&mut r, *max_context);
                r.append(" tokens");
                r
            },
            RelayError::Provider { provider, status, message } => {
                let mut r = quoted("provider '", provider, "' rejected the request (");
                append_u64(&mut r, *status as u64);
                r.append("): ");
                r.append(message.as_str());
                r
            },
            RelayError::InvalidUsage(s) => prefixed("provider returned invalid usage data: ", s),
            RelayError::ReservationUnavailable(s) => quoted(
                "reservation '",
                s,
                "' was not found or is no longer active",
            ),
            RelayError::PendingReconciliation { reservation_id, reason } => {
                let mut r = quoted(
                    "provider outcome is ambiguous; reservation ",
                    reservation_id,
                    " remains held for reconciliation: ",
                );
                r.append(reason.as_str());
                r
            },
            RelayError::AmountOutOfRange(s) => prefixed("amount is outside Relay's supported microdollar range: ", s),
            RelayError::CredentialStore(s) => prefixed("credential store error: ", s),
        }
    }
}

} // verus!
