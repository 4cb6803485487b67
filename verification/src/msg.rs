use vstd::prelude::*;

use crate::models::{AccountTotals, Claim, Config, Owner, Round, Ticket};

verus! {

/// Everything an instantiation needs.  `winning_numbers` is a testing hook:
/// when set, drawings use it instead of the generator.
#[derive(Debug)]
pub struct InstantiateMsg {
    pub owner: Option<Owner>,
    pub config: Config,
    pub winning_numbers: Option<Vec<u16>>,
}

/// A claim as reported for one owner, with the amount recomputed and the
/// retained winning tickets attached.
#[derive(Debug)]
pub struct ClaimResponse {
    pub round_no: u64,
    pub amount: u128,
    pub winning_tickets: Vec<Ticket>,
}

/// Migration requests.  This layout keeps the whole engine state in one
/// record, so no data-bearing migration applies.
#[derive(Clone, Copy, Debug)]
pub enum MigrateMsg {
    NoOp,
}

/// An account as reported to clients.
#[derive(Debug)]
pub struct AccountView {
    pub totals: AccountTotals,
    pub tickets: Vec<Ticket>,
    pub claim: Option<Claim>,
}

/// A claim as reported to clients, with its owner attached.
#[derive(Debug)]
pub struct ClaimView {
    pub owner: String,
    pub round_no: u64,
    pub amount: Option<u128>,
    pub tickets: Option<Vec<Ticket>>,
    pub matches: Vec<u16>,
    pub is_approved: bool,
}

/// The composite read model: each field is present when requested.
#[derive(Debug)]
pub struct SelectResponse {
    pub owner: Option<Owner>,
    pub config: Option<Config>,
    pub round: Option<Round>,
    pub tax_rate: Option<u128>,
    pub balance_claimable: Option<u128>,
    pub balance: Option<u128>,
    pub account: Option<AccountView>,
}

/// The result of a dry-run simulation of a drawing, with the simulated
/// tickets included so the frequency array can be audited against them.
#[derive(Debug)]
pub struct DryRunResponse {
    pub seed: u32,
    pub entropy: Vec<u8>,
    pub tickets: Vec<Vec<u16>>,
    pub winning_numbers: Vec<u16>,
    pub match_counts: Vec<u16>,
}

} // verus!
