//! Verified settlement engine for a periodic number-matching lottery.
//!
//! Players commit number selections against a round; at round end winning
//! numbers are drawn, every ticket is scored against them in bounded batches,
//! and payouts are computed pro rata under taxation and incentive rules.
//! The whole engine operates on plain owned state ([`state::LottoState`]) so
//! that a thin host adapter can persist it between invocations; every state
//! transition here carries a contract that pins down its effect.

pub mod error;
pub mod execute;
pub mod laws;
pub mod msg;
pub mod query;
pub mod scan;
pub mod models;
pub mod state;
pub mod util;
pub mod xorshift32;
