//! The proxies: what is sent to whom, what is answered, and what a reply means
//! for the key that was used.

pub mod dns_cache;
pub mod upstream;
pub mod pingora_backend;
pub mod proxy_laws;
pub mod reqwest_backend;
