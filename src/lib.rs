//! State-transition logic of a token-sale ledger: one issuing authority, a
//! fixed supply, a whitelisted pre-sale and a time-gated public sale.

pub mod identity;
pub mod state;
pub mod bytes;
pub mod ledger;
pub mod laws;
pub mod codec;
pub mod dispatch;
