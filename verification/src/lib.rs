//! Client-side OAuth 1.0a three-legged authorization for the Hatena provider.
//!
//! The crate computes canonical signature base strings and HMAC-SHA1
//! `Authorization` headers, parses token-endpoint responses, and drives the
//! request-token / consent / access-token exchange as an explicit state
//! machine.  Network transport and the interactive consent step are left to
//! the embedding application, which feeds responses back into the state
//! machine as plain values.

pub mod fotolife;
pub mod oauth;
