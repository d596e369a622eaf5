//! The rules for names and secrets kept in a credential store.

use vstd::prelude::*;
use vstd::string::StringExecFns;
use crate::error::{RelayError, Result};
use crate::pricing::is_config_error;
use crate::text::{blank, contains_char, has_char, is_blank};

verus! {

/// The UTF-8 bytes of a text.
pub open spec fn bytes_of(s: Seq<char>) -> Seq<u8> {
    vstd::utf8::encode_utf8(s)
}

/// A byte allowed in a provider name: a lowercase ASCII letter, a digit or `-`.
pub open spec fn is_provider_byte(b: u8) -> bool {
    (0x61 <= b <= 0x7a) || (0x30 <= b <= 0x39) || b == 0x2d
}

/// A provider name: 1 to 64 bytes, each a lowercase letter, digit or hyphen.
pub open spec fn is_provider_name(s: Seq<char>) -> bool {
    &&& bytes_of(s).len() > 0
    &&& bytes_of(s).len() <= 64
    &&& forall|i: int| 0 <= i < bytes_of(s).len() ==> is_provider_byte(#[trigger] bytes_of(s)[i])
}

/// Refuses a provider name that could not safely name a stored credential.
pub fn validate_provider(provider: &str) -> (r: Result<()>)
    ensures
        is_provider_name(provider@) ==> r is Ok,
        !is_provider_name(provider@) ==> r is Err && is_config_error(
            r->Err_0,
            "invalid provider name '"@ + provider@ + "'"@,
        ),
{
    let bytes = provider.as_bytes();
    let mut ok = bytes.len() > 0 && bytes.len() <= 64;
    let mut i: usize = 0;
    while i < bytes.len()
        invariant
            i <= bytes@.len(),
            bytes@ == bytes_of(provider@),
            ok == (bytes@.len() > 0 && bytes@.len() <= 64 && forall|j: int|
                0 <= j < i ==> is_provider_byte(#[trigger] bytes@[j])),
        decreases bytes@.len() - i,
    {
        let b = bytes[i];
        let good = (0x61 <= b && b <= 0x7a) || (0x30 <= b && b <= 0x39) || b == 0x2d;
        if !good {
            ok = false;
        }
        proof {
            if ok {
                assert forall|j: int| 0 <= j < i + 1 implies is_provider_byte(#[trigger] bytes@[j]) by {
                    if j == i as int {
                        assert(good);
                    }
                }
            }
        }
        i = i + 1;
    }
    if !ok {
        let mut m = String::from_str("invalid provider name '");
        m.append(provider);
        m.append("'");
        return Err(RelayError::Config(m));
    }
    Ok(())
}

/// The largest secret accepted, in bytes.
pub const MAX_SECRET_BYTES: usize = 16384;

/// The first rule a secret breaks, as the text of the configuration error.
pub open spec fn secret_problem(secret: Seq<char>) -> Option<Seq<char>> {
    if is_blank(secret) {
        Some("API key must not be empty"@)
    } else if has_char(secret, '\n') || has_char(secret, '\r') || has_char(secret, '\0') {
        Some("API key must be a single non-empty line"@)
    } else if bytes_of(secret).len() as usize > MAX_SECRET_BYTES {
        Some("API key is unexpectedly large"@)
    } else {
        None
    }
}

/// Refuses a secret that is blank, spans lines, holds a NUL, or is too large.
pub fn validate_secret(secret: &str) -> (r: Result<()>)
    ensures
        match secret_problem(secret@) {
            None => r is Ok,
            Some(text) => r is Err && is_config_error(r->Err_0, text),
        },
{
    if blank(secret) {
        return Err(RelayError::Config(String::from_str("API key must not be empty")));
    }
    if contains_char(secret, '\n') || contains_char(secret, '\r') || contains_char(secret, '\0') {
        return Err(RelayError::Config(String::from_str("API key must be a single non-empty line")));
    }
    if secret.len() > MAX_SECRET_BYTES {
        return Err(RelayError::Config(String::from_str("API key is unexpectedly large")));
    }
    Ok(())
}

/// What a credential store's stored secret counts as: a blank secret is no secret.
pub fn stored_secret(secret: Option<String>) -> (r: Option<String>)
    ensures
        match secret {
            Some(s) => if is_blank(s@) {
                r is None
            } else {
                r == Some(s)
            },
            None => r is None,
        },
{
    match secret {
        Some(s) => {
            if blank(s.as_str()) {
                None
            } else {
                Some(s)
            }
        },
        None => None,
    }
}

/// A store of provider API keys, one per provider name. The library keeps the
/// rules for names and secrets (`validate_provider`, `validate_secret`); where
/// the secrets live is the implementation's business.
pub trait CredentialStore {
    /// The stored secret, if there is one.
    fn get(&self, provider: &str) -> Result<Option<String>>;

    /// Whether a secret is stored.
    fn is_stored(&self, provider: &str) -> Result<bool>;

    /// Stores a secret, replacing any earlier one.
    fn set(&self, provider: &str, secret: &str) -> Result<()>;

    /// Removes the secret; whether there was one.
    fn delete(&self, provider: &str) -> Result<bool>;
}

/// What a secret vault answered about one entry.
pub enum VaultAnswer<T> {
    /// The entry exists; what was read.
    Found(T),
    /// There is no such entry.
    NoEntry,
    /// The vault failed, with its description.
    Failed(String),
}

/// What reading a secret from a vault comes to: no entry, or a blank secret, is
/// no secret; a failure of the vault is a credential-store error.
pub fn read_outcome(answer: VaultAnswer<String>) -> (r: Result<Option<String>>)
    ensures
        match answer {
            VaultAnswer::Found(s) => if is_blank(s@) {
                r == Ok::<Option<String>, RelayError>(None)
            } else {
                r == Ok::<Option<String>, RelayError>(Some(s))
            },
            VaultAnswer::NoEntry => r == Ok::<Option<String>, RelayError>(None),
            VaultAnswer::Failed(m) => r == Err::<Option<String>, RelayError>(RelayError::CredentialStore(m)),
        },
{
    match answer {
        VaultAnswer::Found(s) => Ok(stored_secret(Some(s))),
        VaultAnswer::NoEntry => Ok(None),
        VaultAnswer::Failed(m) => Err(RelayError::CredentialStore(m)),
    }
}

/// What looking up or deleting an entry comes to: whether it was there; a
/// failure of the vault is a credential-store error.
pub fn presence_outcome(answer: VaultAnswer<()>) -> (r: Result<bool>)
    ensures
        match answer {
            VaultAnswer::Found(_) => r == Ok::<bool, RelayError>(true),
            VaultAnswer::NoEntry => r == Ok::<bool, RelayError>(false),
            VaultAnswer::Failed(m) => r == Err::<bool, RelayError>(RelayError::CredentialStore(m)),
        },
{
    match answer {
        VaultAnswer::Found(_) => Ok(true),
        VaultAnswer::NoEntry => Ok(false),
        VaultAnswer::Failed(m) => Err(RelayError::CredentialStore(m)),
    }
}

} // verus!
