//! What can go wrong in the broker.

use crate::text::joined;
use vstd::prelude::*;

verus! {

/// An error of the broker, with the text that tells what it is about.
#[derive(Debug)]
pub enum LlmBrokerError {
    NoKeysAvailable(String),
    AllKeysInCooldown(String),
    KeyNotFound(String),
    InvalidConfig(String),
    ProxyError(String),
    SerializationError(String),
}

/// The error says that no key of the named provider may be used.
pub open spec fn says_no_keys(error: LlmBrokerError, provider: Seq<char>) -> bool {
    error matches LlmBrokerError::NoKeysAvailable(name) && name@ == provider
}

/// The message of an error.
pub open spec fn message_of(error: LlmBrokerError) -> Seq<char> {
    match error {
        LlmBrokerError::NoKeysAvailable(s) => "No available keys for provider "@ + s@,
        LlmBrokerError::AllKeysInCooldown(s) => "All keys in cooldown for provider "@ + s@,
        LlmBrokerError::KeyNotFound(s) => "Key not found: "@ + s@,
        LlmBrokerError::InvalidConfig(s) => "Invalid configuration: "@ + s@,
        LlmBrokerError::ProxyError(s) => "Proxy error: "@ + s@,
        LlmBrokerError::SerializationError(s) => "Serialization error: "@ + s@,
    }
}

impl LlmBrokerError {
    /// The message of the error.
    pub fn message(&self) -> (text: String)
        ensures
            text@ == message_of(*self),
    {
        match self {
            LlmBrokerError::NoKeysAvailable(s) => joined(
                "No available keys for provider ",
                s.as_str(),
            ),
            LlmBrokerError::AllKeysInCooldown(s) => joined(
                "All keys in cooldown for provider ",
                s.as_str(),
            ),
            LlmBrokerError::KeyNotFound(s) => joined("Key not found: ", s.as_str()),
            LlmBrokerError::InvalidConfig(s) => joined("Invalid configuration: ", s.as_str()),
            LlmBrokerError::ProxyError(s) => joined("Proxy error: ", s.as_str()),
            LlmBrokerError::SerializationError(s) => joined("Serialization error: ", s.as_str()),
        }
    }
}

} // verus!
