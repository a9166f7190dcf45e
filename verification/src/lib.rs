//! Local credential vault: encryption-at-rest for account secrets, a
//! single-slot OAuth callback rendezvous with signed anti-CSRF state tokens,
//! and bounded-concurrency batch reconciliation of acquired credentials.

pub mod constants;
pub mod errors;
pub mod primitives;
pub mod crypto;
pub mod text;
pub mod account;
pub mod state_token;
pub mod callback;
pub mod batch;
pub mod validation;
pub mod steering;
pub mod auth_url;
