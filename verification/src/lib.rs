//! Korvo Relay: metering, pricing and hard spend caps for AI provider calls.

pub mod text;
pub mod error;
pub mod decimal;
pub mod namemap;
pub mod request;
pub mod pricing;
pub mod config;
pub mod ledger;
pub mod adapters;
pub mod credentials;
pub mod service;
pub mod laws;
pub mod cli;

pub use error::{RelayError, Result};
