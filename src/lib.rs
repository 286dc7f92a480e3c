//! Relays a translation request to one of several language-model backends and
//! turns each backend's streaming wire format into one uniform sequence of
//! text fragments and a final accumulated result.

pub mod asset;
pub mod decode;
pub mod lines;
pub mod probe;
pub mod provider;
pub mod relay;
pub mod request;
pub mod sanitize;
pub mod text;
