//! A parimutuel prediction-market settlement engine.
//!
//! Markets collect wagers on a discrete-outcome event, track per-outcome
//! liability pools, move through a lifecycle driven by an external oracle,
//! and pay winners a proportional share of the combined pool when the event
//! resolves.  Each module owns one actor's durable state: `market` holds the
//! settlement core, `oracle` the result publishing rules, `token` the ledger,
//! and `user` the per-bettor records.  `shared` holds the types they exchange.

pub mod market;
pub mod oracle;
pub mod shared;
pub mod token;
pub mod user;
