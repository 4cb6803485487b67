use vstd::prelude::*;

use crate::error::ContractError;

verus! {

/// Fixed-point percentages are expressed over this denominator.
pub const PCT_DENOM: u128 = 1_000_000;

/// Where a round stands: selling tickets, or scoring them.
#[derive(Clone, Copy, Debug, PartialEq, Eq, Structural)]
pub enum RoundStatus {
    Active,
    Drawing,
}

/// The token the lottery is denominated in: a native denom or a token
/// contract address.
#[derive(Clone, Debug)]
pub enum Token {
    Native { denom: String },
    Cw20 { address: String },
}

/// The administrative authority: a single address, or an access-control
/// contract that is consulted by the host for each action.
#[derive(Clone, Debug)]
pub enum Owner {
    Address(String),
    Acl(String),
}

/// One payout tier: tickets with exactly `n` matching numbers receive the
/// flat `incentive` per ticket plus a pro-rata share of `pct` of the pot
/// (fixed-point over [`PCT_DENOM`]).
#[derive(Clone, Copy, Debug)]
pub struct Payout {
    pub n: u8,
    pub incentive: u128,
    pub pct: u128,
}

/// Descriptive info shown to players; never read by the engine.
#[derive(Clone, Debug)]
pub struct MarketingInfo {
    pub name: String,
    pub description: Option<String>,
}

#[derive(Clone, Debug)]
pub enum StyleValue {
    Str(String),
    Url(String),
}

/// Display styling; never read by the engine.
#[derive(Clone, Debug)]
pub struct Style {
    pub bg: StyleValue,
    pub colors: Vec<String>,
    pub font: Option<String>,
    pub logo: Option<String>,
}

/// Full lottery configuration as submitted by an admin.  Scoring-relevant
/// fields take effect only at a round boundary via a staged overlay.
#[derive(Clone, Debug)]
pub struct Config {
    pub token: Token,
    pub price: u128,
    pub max_number: u16,
    pub number_count: u8,
    pub round_seconds: u64,
    pub house_address: String,
    pub marketing: MarketingInfo,
    pub style: Style,
    pub payouts: Vec<Payout>,
    pub rolling: bool,
    pub min_balance: u128,
    pub drawer: String,
    pub batch_size: Option<u16>,
    pub use_approval: Option<bool>,
    pub nois_proxy: Option<String>,
}

/// A fund transfer the host is asked to perform in the lottery's token.
#[derive(Clone, Debug)]
pub struct PaymentMsg {
    pub recipient: String,
    pub amount: u128,
}

/// A quantity of some native denomination, as attached to a purchase.
#[derive(Clone, Debug)]
pub struct Coin {
    pub denom: String,
    pub amount: u128,
}

/// A purchased number selection with a multiplicity counter for identical
/// repeat purchases.
#[derive(Clone, Debug)]
pub struct Ticket {
    pub numbers: Vec<u16>,
    pub n: u16,
}

/// A round snapshot as reported to clients.
#[derive(Clone, Debug)]
pub struct Round {
    pub round_no: u64,
    pub ticket_count: u32,
    pub start: u64,
    pub end: u64,
    pub status: RoundStatus,
    pub balance: u128,
}

/// The per-round working record of the drawing process.  It aggregates the
/// totals accumulated across however many bounded batches the scan takes.
///
/// `cursor` counts the ticket-store entries already consumed, so the next
/// batch resumes strictly after it; `match_counts[k]` counts (with
/// multiplicity) the tickets that matched exactly `k` winning numbers.
#[derive(Clone, Debug)]
pub struct Drawing {
    pub round_no: Option<u64>,
    pub ticket_count: u32,
    pub round_balance: u128,
    pub start_balance: u128,
    pub pot_payout: u128,
    pub incentive_payout: u128,
    pub total_payout: u128,
    pub processed_ticket_count: u32,
    pub cursor: u32,
    pub winning_numbers: Vec<u16>,
    pub match_counts: Vec<u16>,
}

/// A finished win as reported to clients.
#[derive(Clone, Debug)]
pub struct Win {
    pub tickets: Vec<Vec<u16>>,
    pub amount: u128,
    pub round_no: u64,
}

/// A pending payout owed to an owner.  `matches[k]` counts the owner's
/// tickets with exactly `k` matching numbers.  `amount` is derived, never
/// authoritative: settlement always recomputes it from the drawing and the
/// payout table.
#[derive(Clone, Debug)]
pub struct Claim {
    pub round_no: u64,
    pub amount: Option<u128>,
    pub tickets: Option<Vec<Ticket>>,
    pub matches: Vec<u16>,
    pub is_approved: bool,
}

/// Lifetime aggregates for one owner.
#[derive(Clone, Copy, Debug)]
pub struct AccountTotals {
    pub wins: u32,
    pub winnings: u128,
    pub tickets: u32,
}

#[derive(Clone, Copy, Debug)]
pub struct Account {
    pub totals: AccountTotals,
}

/// One payout tier is well-formed for a given number count.
pub open spec fn spec_payout_entry_valid(p: Payout, number_count: u8) -> bool {
    &&& p.pct <= PCT_DENOM
    &&& p.n != 0
    &&& p.n <= number_count
}

/// A payout table is well-formed: every tier valid, no two tiers for the
/// same match count (so at most one row per possible one-byte threshold).
pub open spec fn spec_payouts_valid(payouts: Seq<Payout>, number_count: u8) -> bool {
    &&& payouts.len() <= 256
    &&& forall|i: int| 0 <= i < payouts.len() ==> spec_payout_entry_valid(payouts[i], number_count)
    &&& forall|i: int, j: int|
        0 <= i < j < payouts.len() ==> payouts[i].n != payouts[j].n
}

/// A configuration the engine accepts.
pub open spec fn spec_config_valid(c: Config) -> bool {
    &&& c.price > 0
    &&& c.max_number > 0
    &&& c.number_count > 0
    &&& c.number_count as int <= c.max_number as int + 1
    &&& c.round_seconds >= 60
    &&& spec_payouts_valid(c.payouts@, c.number_count)
}

impl Config {
    /// Accepts exactly the well-formed configurations.  (Address syntax is
    /// the host's concern and is checked at the boundary, before a
    /// configuration reaches the engine.)
    pub fn validate(&self) -> (r: Result<(), ContractError>)
        ensures
            r.is_ok() <==> spec_config_valid(*self),
            r.is_err() ==> r == Err::<(), ContractError>(ContractError::ValidationError),
    {
        if self.price == 0 || self.max_number == 0 || self.number_count == 0
            || self.number_count as u32 > self.max_number as u32 + 1 || self.round_seconds < 60
            || self.payouts.len() > 256 {
            return Err(ContractError::ValidationError);
        }

        let mut i: usize = 0;
        while i < self.payouts.len()
            invariant
                i <= self.payouts@.len(),
                forall|k: int|
                    0 <= k < i ==> spec_payout_entry_valid(self.payouts@[k], self.number_count),
                forall|k: int, l: int|
                    0 <= k < l < i ==> self.payouts@[k].n != self.payouts@[l].n,
            decreases self.payouts@.len() - i,
        {
            let p = self.payouts[i];
            if p.pct > PCT_DENOM || p.n == 0 || p.n > self.number_count {
                return Err(ContractError::ValidationError);
            }
            let mut j: usize = 0;
            while j < i
                invariant
                    j <= i < self.payouts@.len(),
                    p == self.payouts@[i as int],
                    forall|k: int| 0 <= k < j ==> self.payouts@[k].n != p.n,
                decreases i - j,
            {
                if self.payouts[j].n == p.n {
                    proof {
                        assert(self.payouts@[j as int].n == self.payouts@[i as int].n);
                        assert(!spec_payouts_valid(self.payouts@, self.number_count));
                    }
                    return Err(ContractError::ValidationError);
                }
                j += 1;
            }
            i += 1;
        }

        Ok(())
    }
}

impl Account {
    pub fn new() -> (r: Self)
        ensures
            r.totals.wins == 0,
            r.totals.winnings == 0,
            r.totals.tickets == 0,
    {
        Self { totals: AccountTotals { wins: 0, winnings: 0, tickets: 0 } }
    }
}

impl Drawing {
    /// The scan is complete once every snapshotted ticket has been scored.
    pub fn is_complete(&self) -> (r: bool)
        ensures
            r == (self.ticket_count == self.processed_ticket_count),
    {
        self.ticket_count == self.processed_ticket_count
    }

    /// Incentives plus net pot payout.
    pub fn resolve_total_payout(&self) -> (r: u128)
        requires
            self.pot_payout + self.incentive_payout <= u128::MAX,
        ensures
            r == self.pot_payout + self.incentive_payout,
    {
        self.pot_payout + self.incentive_payout
    }

    /// The pre-tax pot: the reserve floor plus the round's own balance.
    pub fn resolve_pot_size(&self) -> (r: u128)
        requires
            self.start_balance + self.round_balance <= u128::MAX,
        ensures
            r == self.start_balance + self.round_balance,
    {
        self.start_balance + self.round_balance
    }
}

} // verus!
