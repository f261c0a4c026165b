//! A broker for LLM APIs: it spreads requests over several API keys, keeps each
//! key inside its request quota, and rests a key that its provider has refused.
//!
//! Every decision of the broker is a function of plain values. A function that
//! needs the clock comes in two forms: one whose name ends in `_at` takes the
//! readings as arguments and has an exact contract, the other reads the clock
//! and promises that its outcome is the exact one for some reading.

pub mod clock;
pub mod config;
pub mod config_laws;
pub mod error;
pub mod text;
pub mod text_laws;
pub mod load_balancer;
pub mod proxy;
