use vstd::prelude::*;

use crate::error::ContractError;
use crate::models::{
    Account, AccountTotals, Claim, Config, Drawing, MarketingInfo, Owner, PaymentMsg, Payout,
    RoundStatus, Style, Ticket, Token, spec_config_valid, spec_payouts_valid,
};
use crate::msg::InstantiateMsg;

verus! {

/// Share of ticket proceeds forwarded to the house, fixed-point over
/// [`crate::models::PCT_DENOM`] (5%).
pub const HOUSE_TICKET_TAX_PCT: u128 = 50_000;

/// Tax on pot payouts forwarded to the house, fixed-point over
/// [`crate::models::PCT_DENOM`] (10%).
pub const HOUSE_POT_TAX_PCT: u128 = 100_000;

/// Machine bounds under which a settlement provably cannot overflow: the
/// pot may not exceed 2^118, a single tier incentive 2^96, and the
/// claimable reserve 2^126.
pub const MAX_POT_SIZE: u128 = 0x40_0000_0000_0000_0000_0000_0000_0000;

pub const MAX_TIER_INCENTIVE: u128 = 0x1_0000_0000_0000_0000_0000_0000;

pub const MAX_CLAIMABLE: u128 = 0x4000_0000_0000_0000_0000_0000_0000_0000;

/// One ticket-store record: the scan order of the store is the order of
/// these entries, and `hash` is the canonical key of the (sorted) number
/// set, so `(owner, hash)` identifies a purchase and `ticket.n` counts its
/// identical repetitions.
pub struct TicketEntry {
    pub owner: String,
    pub hash: String,
    pub ticket: Ticket,
}

pub struct ClaimEntry {
    pub owner: String,
    pub claim: Claim,
}

pub struct AccountEntry {
    pub owner: String,
    pub account: Account,
}

pub struct DrawingEntry {
    pub round_no: u64,
    pub drawing: Drawing,
}

/// A recorded tax entitlement of one recipient.
pub struct TaxEntry {
    pub recipient: String,
    pub amount: u128,
}

/// A winning ticket retained for display under its owner.
pub struct ClaimTicketEntry {
    pub owner: String,
    pub hash: String,
    pub ticket: Ticket,
}

/// The engine's whole durable state as one owned value.  The host loads it,
/// hands it to exactly one operation, and persists it again only if the
/// operation returned `Ok` — so an error implies no mutation survives.
pub struct LottoState {
    // Active configuration.  Scoring-relevant fields change only at a round
    // boundary, via `staged_config`.
    pub token: Token,
    pub price: u128,
    pub number_count: u8,
    pub max_number: u16,
    pub round_seconds: u64,
    pub marketing: MarketingInfo,
    pub style: Style,
    pub house_address: String,
    pub rolling: bool,
    pub min_balance: u128,
    pub payouts: Vec<Payout>,
    pub drawer: String,
    pub batch_size: u16,
    pub use_approval: bool,
    pub nois_proxy: Option<String>,
    // Administration.
    pub owner: Owner,
    pub staged_config: Option<Config>,
    // Round state.
    pub round_no: u64,
    pub round_start: u64,
    pub round_status: RoundStatus,
    pub ticket_count: u32,
    pub tickets: Vec<TicketEntry>,
    // Settlement state.
    pub accounts: Vec<AccountEntry>,
    pub claims: Vec<ClaimEntry>,
    pub jackpot_claimants: Vec<String>,
    pub balance_claimable: u128,
    pub drawings: Vec<DrawingEntry>,
    pub claim_tickets: Vec<ClaimTicketEntry>,
    pub taxes: Vec<TaxEntry>,
    // Testing hook: a preset winning-number set used instead of the
    // generator, for dry-run style deployments.
    pub debug_winning_numbers: Option<Vec<u16>>,
    pub prev_height: u64,
}

// ---------------------------------------------------------------------------
// Mathematical views
// ---------------------------------------------------------------------------

#[verifier::ext_equal]
pub ghost struct TicketView {
    pub numbers: Seq<u16>,
    pub n: u16,
}

#[verifier::ext_equal]
pub ghost struct TicketEntryView {
    pub owner: Seq<char>,
    pub hash: Seq<char>,
    pub ticket: TicketView,
}

#[verifier::ext_equal]
pub ghost struct ClaimView {
    pub round_no: u64,
    pub amount: Option<u128>,
    pub tickets: Option<Seq<TicketView>>,
    pub matches: Seq<int>,
    pub is_approved: bool,
}

#[verifier::ext_equal]
pub ghost struct ClaimEntryView {
    pub owner: Seq<char>,
    pub claim: ClaimView,
}

pub open spec fn spec_ticket_view(t: Ticket) -> TicketView {
    TicketView { numbers: t.numbers@, n: t.n }
}

pub open spec fn spec_ticket_entry_view(e: TicketEntry) -> TicketEntryView {
    TicketEntryView { owner: e.owner@, hash: e.hash@, ticket: spec_ticket_view(e.ticket) }
}

pub open spec fn spec_tickets_view(s: Seq<TicketEntry>) -> Seq<TicketEntryView> {
    s.map(|_i: int, e: TicketEntry| spec_ticket_entry_view(e))
}

pub open spec fn spec_claim_view(c: Claim) -> ClaimView {
    ClaimView {
        round_no: c.round_no,
        amount: c.amount,
        tickets: match c.tickets {
            Some(v) => Some(v@.map(|_i: int, t: Ticket| spec_ticket_view(t))),
            None => None,
        },
        matches: c.matches@.map(|_i: int, m: u16| m as int),
        is_approved: c.is_approved,
    }
}

pub open spec fn spec_claims_view(s: Seq<ClaimEntry>) -> Seq<ClaimEntryView> {
    s.map(|_i: int, e: ClaimEntry| ClaimEntryView { owner: e.owner@, claim: spec_claim_view(e.claim) })
}

pub open spec fn spec_jackpots_view(s: Seq<String>) -> Seq<Seq<char>> {
    s.map(|_i: int, a: String| a@)
}

pub open spec fn spec_claim_ticket_view(e: ClaimTicketEntry) -> TicketEntryView {
    TicketEntryView { owner: e.owner@, hash: e.hash@, ticket: spec_ticket_view(e.ticket) }
}

pub open spec fn spec_claim_tickets_view(s: Seq<ClaimTicketEntry>) -> Seq<TicketEntryView> {
    s.map(|_i: int, e: ClaimTicketEntry| spec_claim_ticket_view(e))
}

/// The frequency array of a drawing, as unbounded integers.
pub open spec fn spec_mc_view(s: Seq<u16>) -> Seq<int> {
    s.map(|_i: int, m: u16| m as int)
}

/// Sum of an integer sequence.
pub open spec fn spec_sum(s: Seq<int>) -> int
    decreases s.len(),
{
    if s.len() == 0 {
        0
    } else {
        spec_sum(s.drop_last()) + s.last()
    }
}

/// Total ticket multiplicity of a slice of the ticket store.
pub open spec fn spec_sum_n(s: Seq<TicketEntryView>) -> int
    decreases s.len(),
{
    if s.len() == 0 {
        0
    } else {
        spec_sum_n(s.drop_last()) + s.last().ticket.n
    }
}

// ---------------------------------------------------------------------------
// Facts about the sums
// ---------------------------------------------------------------------------

pub proof fn lemma_sum_update(s: Seq<int>, i: int, v: int)
    requires
        0 <= i < s.len(),
    ensures
        spec_sum(s.update(i, v)) == spec_sum(s) - s[i] + v,
    decreases s.len(),
{
    if i == s.len() - 1 {
        assert(s.update(i, v).drop_last() =~= s.drop_last());
    } else {
        assert(s.update(i, v).drop_last() =~= s.drop_last().update(i, v));
        lemma_sum_update(s.drop_last(), i, v);
    }
}

pub proof fn lemma_sum_n_update(s: Seq<TicketEntryView>, i: int, e: TicketEntryView)
    requires
        0 <= i < s.len(),
    ensures
        spec_sum_n(s.update(i, e)) == spec_sum_n(s) - s[i].ticket.n + e.ticket.n,
    decreases s.len(),
{
    if i == s.len() - 1 {
        assert(s.update(i, e).drop_last() =~= s.drop_last());
    } else {
        assert(s.update(i, e).drop_last() =~= s.drop_last().update(i, e));
        lemma_sum_n_update(s.drop_last(), i, e);
    }
}

pub proof fn lemma_sum_n_nonneg(s: Seq<TicketEntryView>)
    ensures
        spec_sum_n(s) >= 0,
    decreases s.len(),
{
    if s.len() > 0 {
        lemma_sum_n_nonneg(s.drop_last());
    }
}

/// A prefix of the store carries at most the whole store's multiplicity.
pub proof fn lemma_sum_n_take_le(s: Seq<TicketEntryView>, k: int)
    requires
        0 <= k <= s.len(),
    ensures
        spec_sum_n(s.take(k)) <= spec_sum_n(s),
        spec_sum_n(s.take(k)) >= 0,
    decreases s.len() - k,
{
    lemma_sum_n_nonneg(s.take(k));
    if k == s.len() {
        assert(s.take(k) =~= s);
    } else {
        assert(s.take(k + 1).drop_last() =~= s.take(k));
        assert(spec_sum_n(s.take(k + 1)) == spec_sum_n(s.take(k)) + s[k].ticket.n);
        lemma_sum_n_take_le(s, k + 1);
    }
}

/// In a sequence of non-negative terms, each term is at most the sum.
pub proof fn lemma_sum_entry_le(s: Seq<int>, i: int)
    requires
        0 <= i < s.len(),
        forall|k: int| 0 <= k < s.len() ==> s[k] >= 0,
    ensures
        s[i] <= spec_sum(s),
    decreases s.len(),
{
    if i == s.len() - 1 {
        lemma_sum_nonneg(s.drop_last());
    } else {
        lemma_sum_entry_le(s.drop_last(), i);
    }
}

pub proof fn lemma_sum_nonneg(s: Seq<int>)
    requires
        forall|k: int| 0 <= k < s.len() ==> s[k] >= 0,
    ensures
        spec_sum(s) >= 0,
    decreases s.len(),
{
    if s.len() > 0 {
        lemma_sum_nonneg(s.drop_last());
    }
}

/// An all-zero frequency array sums to zero.
pub proof fn lemma_sum_zeros(s: Seq<int>)
    requires
        forall|k: int| 0 <= k < s.len() ==> s[k] == 0,
    ensures
        spec_sum(s) == 0,
    decreases s.len(),
{
    if s.len() > 0 {
        lemma_sum_zeros(s.drop_last());
    }
}

/// A store whose entries each count at least one purchase has no more
/// entries than purchases.
pub proof fn lemma_sum_n_ge_len(s: Seq<TicketEntryView>)
    requires
        forall|k: int| 0 <= k < s.len() ==> s[k].ticket.n >= 1,
    ensures
        spec_sum_n(s) >= s.len(),
    decreases s.len(),
{
    if s.len() > 0 {
        lemma_sum_n_ge_len(s.drop_last());
    }
}

/// One entry's multiplicity never exceeds the whole store's.
pub proof fn lemma_sum_n_entry_le(s: Seq<TicketEntryView>, i: int)
    requires
        0 <= i < s.len(),
    ensures
        s[i].ticket.n <= spec_sum_n(s),
    decreases s.len(),
{
    if i == s.len() - 1 {
        lemma_sum_n_nonneg(s.drop_last());
    } else {
        lemma_sum_n_entry_le(s.drop_last(), i);
    }
}

pub proof fn lemma_sum_n_take_succ(s: Seq<TicketEntryView>, k: int)
    requires
        0 <= k < s.len(),
    ensures
        spec_sum_n(s.take(k + 1)) == spec_sum_n(s.take(k)) + s[k].ticket.n,
{
    assert(s.take(k + 1).drop_last() =~= s.take(k));
    assert(s.take(k + 1).last() == s[k]);
}

// ---------------------------------------------------------------------------
// Well-formedness
// ---------------------------------------------------------------------------

/// A ticket's number set is acceptable under the given configuration:
/// exactly `number_count` values, each at most `max_number`, no repeats.
pub open spec fn spec_numbers_valid(numbers: Seq<u16>, number_count: u8, max_number: u16) -> bool {
    &&& numbers.len() == number_count
    &&& forall|i: int| 0 <= i < numbers.len() ==> numbers[i] <= max_number
    &&& forall|i: int, j: int| 0 <= i < j < numbers.len() ==> numbers[i] != numbers[j]
}

/// Internal consistency of one drawing record.
pub open spec fn spec_drawing_wf(d: Drawing) -> bool {
    &&& d.match_counts@.len() == d.winning_numbers@.len() + 1
    &&& d.winning_numbers@.len() <= 255
    &&& forall|i: int, j: int|
        0 <= i < j < d.winning_numbers@.len() ==> d.winning_numbers@[i] != d.winning_numbers@[j]
    &&& spec_sum(spec_mc_view(d.match_counts@)) == d.processed_ticket_count
    &&& d.processed_ticket_count <= d.ticket_count
    &&& d.ticket_count <= u16::MAX
    &&& d.start_balance + d.round_balance <= MAX_POT_SIZE
}

impl LottoState {
    /// The index of the current round's drawing, if one exists.
    pub open spec fn spec_current_drawing_idx(self) -> int {
        choose|i: int| 0 <= i < self.drawings@.len() && self.drawings@[i].round_no == self.round_no
    }

    pub open spec fn spec_has_current_drawing(self) -> bool {
        exists|i: int| 0 <= i < self.drawings@.len() && self.drawings@[i].round_no == self.round_no
    }

    /// The resumable-scan relation between the current round's drawing and
    /// the ticket store: the cursor counts consumed store entries, and the
    /// processed count is exactly the multiplicity of the consumed prefix.
    pub open spec fn spec_scan_consistent(self, d: Drawing) -> bool {
        &&& d.cursor <= self.tickets@.len()
        &&& d.processed_ticket_count == spec_sum_n(
            spec_tickets_view(self.tickets@).take(d.cursor as int),
        )
        &&& d.ticket_count == self.ticket_count
        &&& d.winning_numbers@.len() == self.number_count
    }

    /// The global invariant every engine operation preserves.
    pub open spec fn wf(self) -> bool {
        // configuration
        &&& self.number_count > 0
        &&& self.max_number > 0
        &&& self.number_count as int <= self.max_number as int + 1
        &&& spec_payouts_valid(self.payouts@, self.number_count)
        &&& 100 <= self.batch_size <= 1000
        &&& self.round_no >= 1
        // ticket store
        &&& forall|i: int, j: int|
            0 <= i < j < self.tickets@.len() ==> !(self.tickets@[i].owner@
                == self.tickets@[j].owner@ && self.tickets@[i].hash@ == self.tickets@[j].hash@)
        &&& forall|i: int|
            0 <= i < self.tickets@.len() ==> #[trigger] self.tickets@[i].ticket.n >= 1
                && spec_numbers_valid(
                self.tickets@[i].ticket.numbers@,
                self.number_count,
                self.max_number,
            )
        &&& self.ticket_count == spec_sum_n(spec_tickets_view(self.tickets@))
        &&& self.ticket_count <= u16::MAX
        // claims
        &&& forall|i: int, j: int|
            0 <= i < j < self.claims@.len() ==> self.claims@[i].owner@ != self.claims@[j].owner@
        &&& forall|i: int, j: int|
            0 <= i < self.claims@.len() && 0 <= j < self.drawings@.len()
                && #[trigger] self.claims@[i].claim.round_no
                == #[trigger] self.drawings@[j].round_no ==> (
            self.claims@[i].claim.matches@.len() == self.drawings@[j].drawing.match_counts@.len()
                && forall|k: int|
                0 <= k < self.claims@[i].claim.matches@.len()
                    ==> #[trigger] self.claims@[i].claim.matches@[k]
                    <= self.drawings@[j].drawing.match_counts@[k])
        &&& forall|i: int|
            0 <= i < self.claims@.len() ==> #[trigger] self.claims@[i].claim.round_no
                <= self.round_no
        &&& self.round_status == RoundStatus::Active ==> forall|i: int|
            0 <= i < self.claims@.len() ==> #[trigger] self.claims@[i].claim.round_no
                < self.round_no
        // claims for the running round exist only while its drawing does
        &&& !self.spec_has_current_drawing() ==> forall|i: int|
            0 <= i < self.claims@.len() ==> #[trigger] self.claims@[i].claim.round_no
                < self.round_no
        // a staged configuration was validated when it was staged
        &&& self.staged_config matches Some(c) ==> spec_config_valid(c)
        // accounts
        &&& forall|i: int, j: int|
            0 <= i < j < self.accounts@.len() ==> self.accounts@[i].owner@
                != self.accounts@[j].owner@
        // drawings
        &&& forall|i: int, j: int|
            0 <= i < j < self.drawings@.len() ==> self.drawings@[i].round_no
                != self.drawings@[j].round_no
        &&& forall|i: int|
            0 <= i < self.drawings@.len() ==> spec_drawing_wf(
                #[trigger] self.drawings@[i].drawing,
            )
        &&& forall|i: int|
            0 <= i < self.drawings@.len() ==> #[trigger] self.drawings@[i].round_no
                <= self.round_no
        &&& self.round_status == RoundStatus::Active ==> forall|i: int|
            0 <= i < self.drawings@.len() ==> #[trigger] self.drawings@[i].round_no < self.round_no
        // the current round's drawing, if any, is mid-scan consistent
        &&& self.spec_has_current_drawing() ==> self.spec_scan_consistent(
            self.drawings@[self.spec_current_drawing_idx()].drawing,
        )
    }
}

// ---------------------------------------------------------------------------
// Lookups
// ---------------------------------------------------------------------------

/// Guards operations that need ticket sales to be open.
pub fn require_active_game_state(s: &LottoState) -> (r: Result<(), ContractError>)
    ensures
        r.is_ok() <==> s.round_status == RoundStatus::Active,
        r.is_err() ==> r == Err::<(), ContractError>(ContractError::NotActive),
{
    if s.round_status != RoundStatus::Active {
        Err(ContractError::NotActive)
    } else {
        Ok(())
    }
}

/// Whether `sender` may perform admin actions.  When the owner is an
/// access-control contract, the host queries it and passes the verdict in
/// `acl_allows`; for a plain owner address the verdict is ignored.
pub open spec fn spec_sender_allowed(owner: Owner, sender: Seq<char>, acl_allows: bool) -> bool {
    match owner {
        Owner::Address(a) => a@ == sender,
        Owner::Acl(_) => acl_allows,
    }
}

/// Admission check for admin actions; see [`spec_sender_allowed`].
pub fn ensure_sender_is_allowed(s: &LottoState, sender: &String, acl_allows: bool) -> (r: Result<
    (),
    ContractError,
>)
    ensures
        r.is_ok() <==> spec_sender_allowed(s.owner, sender@, acl_allows),
        r.is_err() ==> r == Err::<(), ContractError>(ContractError::NotAuthorized),
{
    let allowed = match &s.owner {
        Owner::Address(addr) => *sender == *addr,
        Owner::Acl(_) => acl_allows,
    };
    if !allowed {
        Err(ContractError::NotAuthorized)
    } else {
        Ok(())
    }
}

pub(crate) fn find_claim_idx(claims: &Vec<ClaimEntry>, owner: &String) -> (r: Option<usize>)
    ensures
        match r {
            Some(i) => i < claims@.len() && claims@[i as int].owner@ == owner@ && forall|k: int|
                0 <= k < i ==> claims@[k].owner@ != owner@,
            None => forall|i: int| 0 <= i < claims@.len() ==> claims@[i].owner@ != owner@,
        },
{
    let mut i: usize = 0;
    while i < claims.len()
        invariant
            i <= claims@.len(),
            forall|k: int| 0 <= k < i ==> claims@[k].owner@ != owner@,
        decreases claims@.len() - i,
    {
        if claims[i].owner == *owner {
            return Some(i);
        }
        i += 1;
    }
    None
}

pub(crate) fn find_account_idx(accounts: &Vec<AccountEntry>, owner: &String) -> (r: Option<usize>)
    ensures
        match r {
            Some(i) => i < accounts@.len() && accounts@[i as int].owner@ == owner@,
            None => forall|i: int| 0 <= i < accounts@.len() ==> accounts@[i].owner@ != owner@,
        },
{
    let mut i: usize = 0;
    while i < accounts.len()
        invariant
            i <= accounts@.len(),
            forall|k: int| 0 <= k < i ==> accounts@[k].owner@ != owner@,
        decreases accounts@.len() - i,
    {
        if accounts[i].owner == *owner {
            return Some(i);
        }
        i += 1;
    }
    None
}

pub(crate) fn find_drawing_idx(drawings: &Vec<DrawingEntry>, round_no: u64) -> (r: Option<usize>)
    ensures
        match r {
            Some(i) => i < drawings@.len() && drawings@[i as int].round_no == round_no,
            None => forall|i: int| 0 <= i < drawings@.len() ==> drawings@[i].round_no != round_no,
        },
{
    let mut i: usize = 0;
    while i < drawings.len()
        invariant
            i <= drawings@.len(),
            forall|k: int| 0 <= k < i ==> drawings@[k].round_no != round_no,
        decreases drawings@.len() - i,
    {
        if drawings[i].round_no == round_no {
            return Some(i);
        }
        i += 1;
    }
    None
}

/// The account stored for `owner`.
pub fn load_account<'a>(s: &'a LottoState, owner: &String) -> (r: Result<&'a Account, ContractError>)
    ensures
        match r {
            Ok(a) => exists|i: int|
                0 <= i < s.accounts@.len() && s.accounts@[i].owner@ == owner@
                    && *a == s.accounts@[i].account,
            Err(e) => e == ContractError::AccountNotFound && forall|i: int|
                0 <= i < s.accounts@.len() ==> s.accounts@[i].owner@ != owner@,
        },
{
    match find_account_idx(&s.accounts, owner) {
        Some(i) => Ok(&s.accounts[i].account),
        None => Err(ContractError::AccountNotFound),
    }
}

/// The pending claim stored for `owner`.
pub fn load_claim<'a>(s: &'a LottoState, owner: &String) -> (r: Result<&'a Claim, ContractError>)
    ensures
        match r {
            Ok(c) => exists|i: int|
                0 <= i < s.claims@.len() && s.claims@[i].owner@ == owner@ && *c == s.claims@[i].claim,
            Err(e) => e == ContractError::ClaimNotFound && forall|i: int|
                0 <= i < s.claims@.len() ==> s.claims@[i].owner@ != owner@,
        },
{
    match find_claim_idx(&s.claims, owner) {
        Some(i) => Ok(&s.claims[i].claim),
        None => Err(ContractError::ClaimNotFound),
    }
}

/// The drawing stored for a round.
pub fn load_drawing<'a>(s: &'a LottoState, round_no: u64) -> (r: Result<&'a Drawing, ContractError>)
    ensures
        match r {
            Ok(d) => exists|i: int|
                0 <= i < s.drawings@.len() && s.drawings@[i].round_no == round_no && *d == s.drawings@[i].drawing,
            Err(e) => e == ContractError::DrawingNotFound && forall|i: int|
                0 <= i < s.drawings@.len() ==> s.drawings@[i].round_no != round_no,
        },
{
    match find_drawing_idx(&s.drawings, round_no) {
        Some(i) => Ok(&s.drawings[i].drawing),
        None => Err(ContractError::DrawingNotFound),
    }
}

/// The payout tier table in effect.
pub fn load_payouts<'a>(s: &'a LottoState) -> (r: &'a Vec<Payout>)
    ensures
        r == s.payouts,
{
    &s.payouts
}

/// The winning numbers of a round that already has a drawing.
pub fn load_winning_numbers(s: &LottoState, round_no: u64) -> (r: Result<Vec<u16>, ContractError>)
    ensures
        match r {
            Ok(w) => exists|i: int|
                0 <= i < s.drawings@.len() && s.drawings@[i].round_no == round_no && w@
                    == s.drawings@[i].drawing.winning_numbers@,
            Err(e) => e == ContractError::InvalidRoundNo && forall|i: int|
                0 <= i < s.drawings@.len() ==> s.drawings@[i].round_no != round_no,
        },
{
    match find_drawing_idx(&s.drawings, round_no) {
        Some(i) => {
            let d = &s.drawings[i].drawing;
            let mut out: Vec<u16> = Vec::new();
            let mut k: usize = 0;
            while k < d.winning_numbers.len()
                invariant
                    k <= d.winning_numbers@.len(),
                    out@ == d.winning_numbers@.take(k as int),
                decreases d.winning_numbers@.len() - k,
            {
                out.push(d.winning_numbers[k]);
                proof {
                    assert(out@ =~= d.winning_numbers@.take(k as int + 1));
                }
                k += 1;
            }
            proof {
                assert(d.winning_numbers@.take(d.winning_numbers@.len() as int)
                    =~= d.winning_numbers@);
            }
            Ok(out)
        },
        None => Err(ContractError::InvalidRoundNo),
    }
}

/// Whether an `advance` call would do work right now: a fresh block has
/// arrived and, during an active round, its end time has passed.
pub open spec fn spec_is_ready(s: LottoState, height: u64, time: u64) -> bool {
    &&& height > s.prev_height
    &&& s.round_status == RoundStatus::Active ==> s.round_start + s.round_seconds <= time
}

pub fn is_ready(s: &LottoState, height: u64, time: u64) -> (r: bool)
    requires
        s.round_start + s.round_seconds <= u64::MAX,
    ensures
        r == spec_is_ready(*s, height, time),
{
    if height <= s.prev_height {
        return false;
    }
    if s.round_status == RoundStatus::Active {
        let round_end = s.round_start + s.round_seconds;
        if round_end > time {
            return false;
        }
    }
    true
}

/// The most recently completed drawing: the previous round's, or the first
/// round's while no round has completed.
pub fn load_latest_drawing<'a>(s: &'a LottoState) -> (r: Option<&'a Drawing>)
    ensures
        ({
            let latest = if s.round_no > 1 { (s.round_no - 1) as u64 } else { s.round_no };
            match r {
                Some(d) => exists|i: int|
                    0 <= i < s.drawings@.len() && s.drawings@[i].round_no == latest && *d
                        == s.drawings@[i].drawing,
                None => forall|i: int|
                    0 <= i < s.drawings@.len() ==> s.drawings@[i].round_no != latest,
            }
        }),
{
    let latest = if s.round_no > 1 { s.round_no - 1 } else { s.round_no };
    match find_drawing_idx(&s.drawings, latest) {
        Some(i) => Some(&s.drawings[i].drawing),
        None => None,
    }
}

/// The winning tickets retained under one owner, in scan order.
pub open spec fn spec_owner_claim_tickets(s: Seq<TicketEntryView>, owner: Seq<char>) -> Seq<
    TicketView,
>
    decreases s.len(),
{
    if s.len() == 0 {
        Seq::empty()
    } else if s.last().owner == owner {
        spec_owner_claim_tickets(s.drop_last(), owner) + seq![s.last().ticket]
    } else {
        spec_owner_claim_tickets(s.drop_last(), owner)
    }
}

pub fn load_claim_tickets_by_account(s: &LottoState, address: &String) -> (r: Vec<Ticket>)
    ensures
        r@.map(|_i: int, t: Ticket| spec_ticket_view(t)) == spec_owner_claim_tickets(
            spec_claim_tickets_view(s.claim_tickets@),
            address@,
        ),
{
    let mut out: Vec<Ticket> = Vec::new();
    let mut i: usize = 0;
    while i < s.claim_tickets.len()
        invariant
            i <= s.claim_tickets@.len(),
            out@.map(|_i: int, t: Ticket| spec_ticket_view(t)) == spec_owner_claim_tickets(
                spec_claim_tickets_view(s.claim_tickets@).take(i as int),
                address@,
            ),
        decreases s.claim_tickets@.len() - i,
    {
        let ghost pre = spec_claim_tickets_view(s.claim_tickets@).take(i as int);
        let ghost cur = spec_claim_tickets_view(s.claim_tickets@).take(i as int + 1);
        proof {
            assert(cur.drop_last() =~= pre);
            assert(cur.last() == spec_claim_ticket_view(s.claim_tickets@[i as int]));
        }
        if s.claim_tickets[i].owner == *address {
            let e = &s.claim_tickets[i];
            let mut numbers: Vec<u16> = Vec::new();
            let mut k: usize = 0;
            while k < e.ticket.numbers.len()
                invariant
                    k <= e.ticket.numbers@.len(),
                    numbers@ == e.ticket.numbers@.take(k as int),
                decreases e.ticket.numbers@.len() - k,
            {
                numbers.push(e.ticket.numbers[k]);
                proof {
                    assert(numbers@ =~= e.ticket.numbers@.take(k as int + 1));
                }
                k += 1;
            }
            proof {
                assert(e.ticket.numbers@.take(e.ticket.numbers@.len() as int)
                    =~= e.ticket.numbers@);
            }
            out.push(Ticket { numbers, n: e.ticket.n });
            proof {
                assert(out@.map(|_i: int, t: Ticket| spec_ticket_view(t))
                    =~= spec_owner_claim_tickets(cur, address@));
            }
        } else {
            proof {
                assert(out@.map(|_i: int, t: Ticket| spec_ticket_view(t))
                    =~= spec_owner_claim_tickets(cur, address@));
            }
        }
        i += 1;
    }
    proof {
        assert(spec_claim_tickets_view(s.claim_tickets@).take(s.claim_tickets@.len() as int)
            =~= spec_claim_tickets_view(s.claim_tickets@));
    }
    out
}


// ---------------------------------------------------------------------------
// Deterministic randomness
// ---------------------------------------------------------------------------

/// Folds one seed component into a 32-bit accumulator.
pub open spec fn spec_mix(acc: u32, x: u64) -> u32 {
    ((acc as int * 31 + x as int) % 0x1_0000_0000) as u32
}

/// Folds a byte string into the accumulator, first byte first.
pub open spec fn spec_mix_bytes(acc: u32, bytes: Seq<u8>) -> u32
    decreases bytes.len(),
{
    if bytes.len() == 0 {
        acc
    } else {
        spec_mix(spec_mix_bytes(acc, bytes.drop_last()), bytes.last() as u64)
    }
}

/// The seed of a round's drawing, mixed from the round number, the caller's
/// entropy, the contract identity, the block height, the block time and the
/// transaction index — so a dry run with the same inputs reproduces the
/// drawing exactly.
pub open spec fn spec_drawing_seed(
    round_no: u64,
    entropy: Seq<u8>,
    contract_addr: Seq<u8>,
    height: u64,
    time_nanos: u64,
    tx_index: u64,
) -> u32 {
    spec_mix(
        spec_mix(
            spec_mix(spec_mix_bytes(spec_mix_bytes(spec_mix(0, round_no), entropy), contract_addr), height),
            time_nanos,
        ),
        tx_index,
    )
}

fn mix(acc: u32, x: u64) -> (r: u32)
    ensures
        r == spec_mix(acc, x),
{
    (((acc as u128) * 31 + (x as u128)) % 0x1_0000_0000) as u32
}

fn mix_bytes(acc: u32, bytes: &Vec<u8>) -> (r: u32)
    ensures
        r == spec_mix_bytes(acc, bytes@),
{
    let mut a = acc;
    let mut i: usize = 0;
    while i < bytes.len()
        invariant
            i <= bytes@.len(),
            a == spec_mix_bytes(acc, bytes@.take(i as int)),
        decreases bytes@.len() - i,
    {
        proof {
            assert(bytes@.take(i as int + 1).drop_last() =~= bytes@.take(i as int));
        }
        a = mix(a, bytes[i] as u64);
        i += 1;
    }
    proof {
        assert(bytes@.take(bytes@.len() as int) =~= bytes@);
    }
    a
}

fn drawing_seed(
    round_no: u64,
    entropy: &Vec<u8>,
    contract_addr: &Vec<u8>,
    height: u64,
    time_nanos: u64,
    tx_index: u64,
) -> (r: u32)
    ensures
        r == spec_drawing_seed(round_no, entropy@, contract_addr@, height, time_nanos, tx_index),
{
    let mut a = mix(0, round_no);
    a = mix_bytes(a, entropy);
    a = mix_bytes(a, contract_addr);
    a = mix(a, height);
    a = mix(a, time_nanos);
    mix(a, tx_index)
}

/// A duplicate-free sequence that contains every value below `v` has at
/// least `v` elements.
proof fn lemma_contains_range_len(s: Seq<u16>, v: int)
    requires
        0 <= v <= 0x10000,
        forall|w: int| 0 <= w < v ==> s.contains(#[trigger] (w as u16)),
    ensures
        s.len() >= v,
{
    broadcast use vstd::seq_lib::seq_to_set_is_finite;
    broadcast use vstd::set::group_set_axioms;

    let msi = s.map(|_i: int, x: u16| x as int);
    assert forall|w: int|
        vstd::set_lib::set_int_range(0, v).contains(w) implies msi.to_set().contains(w) by {
        assert(s.contains(w as u16));
        let j = choose|j: int| 0 <= j < s.len() && s[j] == (w as u16);
        assert(msi[j] == w);
        assert(msi.contains(w));
    }
    assert(vstd::set_lib::set_int_range(0, v).subset_of(msi.to_set()));
    vstd::set_lib::lemma_int_range(0, v);
    vstd::set_lib::lemma_len_subset(vstd::set_lib::set_int_range(0, v), msi.to_set());
    msi.lemma_cardinality_of_set();
}


/// One draw from the generator over `[0, max]`: the value produced and the
/// state left behind, as exact functions of the prior state.
pub open spec fn spec_draw_value(st: u32, max: u16) -> u16 {
    if max == 0 {
        0
    } else {
        (crate::xorshift32::xorshift_step(st) as int % (max as int + 1)) as u16
    }
}

pub open spec fn spec_draw_state(st: u32, max: u16) -> u32 {
    if max == 0 {
        st
    } else {
        crate::xorshift32::xorshift_step(st)
    }
}

/// The reject-and-resample phase: draw, keep fresh values, stop when the
/// set is full or the attempt budget runs out.  Returns the generator
/// state and the collected values.
pub open spec fn spec_resample(st: u32, out: Seq<u16>, count: int, max: u16, fuel: nat) -> (
    u32,
    Seq<u16>,
)
    decreases fuel,
{
    if out.len() >= count || fuel == 0 {
        (st, out)
    } else {
        let x = spec_draw_value(st, max);
        let st2 = spec_draw_state(st, max);
        let out2 = if out.contains(x) {
            out
        } else {
            out.push(x)
        };
        spec_resample(st2, out2, count, max, (fuel - 1) as nat)
    }
}

/// The deterministic completion sweep: unused values in ascending order
/// until the set is full.
pub open spec fn spec_sweep(out: Seq<u16>, count: int, v: int, fuel: nat) -> Seq<u16>
    decreases fuel,
{
    if out.len() >= count || fuel == 0 {
        out
    } else {
        let out2 = if out.contains(v as u16) {
            out
        } else {
            out.push(v as u16)
        };
        spec_sweep(out2, count, v + 1, (fuel - 1) as nat)
    }
}

/// The full draw of `count` distinct values from a generator state: a pure
/// function of that state, which is what makes every drawing reproducible.
pub open spec fn spec_fill_unique(st: u32, count: u8, max: u16) -> Seq<u16> {
    spec_sweep(spec_resample(st, Seq::empty(), count as int, max, 10000).1, count as int, 0, 0x10000)
}

pub open spec fn spec_fill_state(st: u32, count: u8, max: u16) -> u32 {
    spec_resample(st, Seq::empty(), count as int, max, 10000).0
}

/// The winning numbers the generator produces for the given seed inputs.
pub open spec fn spec_generated_numbers(
    number_count: u8,
    max_number: u16,
    round_no: u64,
    entropy: Seq<u8>,
    contract_addr: Seq<u8>,
    height: u64,
    time_nanos: u64,
    tx_index: u64,
) -> Seq<u16> {
    spec_fill_unique(
        spec_drawing_seed(round_no, entropy, contract_addr, height, time_nanos, tx_index),
        number_count,
        max_number,
    )
}

/// The generator state after simulating the first `n` tickets of a seeded
/// run.
pub open spec fn spec_tickets_rng_state(seed: u32, n: int, count: u8, max: u16) -> u32
    decreases n,
{
    if n <= 0 {
        seed
    } else {
        spec_fill_state(spec_tickets_rng_state(seed, n - 1, count, max), count, max)
    }
}

/// The first `n` simulated tickets of a seeded run: a pure function of the
/// seed and the configuration.
pub open spec fn spec_generated_tickets(seed: u32, n: int, count: u8, max: u16) -> Seq<Seq<u16>>
    decreases n,
{
    if n <= 0 {
        Seq::empty()
    } else {
        spec_generated_tickets(seed, n - 1, count, max).push(
            spec_fill_unique(spec_tickets_rng_state(seed, n - 1, count, max), count, max),
        )
    }
}

/// Draws `count` distinct values in `[0, max]`: reject-and-resample on
/// collision, completed by an ascending sweep if the generator keeps
/// colliding, so the result provably has the full cardinality — and is an
/// exact function of the generator state it started from.
fn fill_unique_numbers(rng: &mut crate::xorshift32::Xorshift32, count: u8, max: u16) -> (r: Vec<
    u16,
>)
    requires
        count as int <= max as int + 1,
    ensures
        spec_numbers_valid(r@, count, max),
        r@ == spec_fill_unique(old(rng)@, count, max),
        final(rng)@ == spec_fill_state(old(rng)@, count, max),
{
    let count_usize = count as usize;
    let mut out: Vec<u16> = Vec::new();
    let mut attempts: u32 = 0;
    while out.len() < count_usize && attempts < 10000
        invariant
            count_usize == count as usize,
            attempts <= 10000,
            out@.len() <= count,
            forall|i: int| 0 <= i < out@.len() ==> out@[i] <= max,
            forall|i: int, j: int| 0 <= i < j < out@.len() ==> out@[i] != out@[j],
            spec_resample(old(rng)@, Seq::<u16>::empty(), count as int, max, 10000)
                == spec_resample(rng@, out@, count as int, max, (10000 - attempts) as nat),
        decreases 10000 - attempts,
    {
        let ghost st_pre = rng@;
        let ghost out_pre = out@;
        let x = rng.random_int_in_range(0, max as u32) as u16;
        proof {
            assert(x == spec_draw_value(st_pre, max));
            assert(rng@ == spec_draw_state(st_pre, max));
        }
        if !crate::util::vec_contains_u16(&out, x) {
            out.push(x);
        }
        attempts += 1;
        proof {
            // one unfolding of the resample spec
            assert(spec_resample(st_pre, out_pre, count as int, max, (10000 - (attempts - 1)) as nat)
                == spec_resample(rng@, out@, count as int, max, (10000 - attempts) as nat));
        }
    }
    let ghost resampled = spec_resample(old(rng)@, Seq::<u16>::empty(), count as int, max, 10000);
    proof {
        // the loop ended with a full set or an exhausted budget: either way
        // the spec returns exactly this state and collection
        assert(resampled == (rng@, out@));
    }
    let mut v: u32 = 0;
    while out.len() < count_usize
        invariant
            count_usize == count as usize,
            count as int <= max as int + 1,
            out@.len() <= count,
            v <= 0x10000,
            forall|i: int| 0 <= i < out@.len() ==> out@[i] <= max,
            forall|i: int, j: int| 0 <= i < j < out@.len() ==> out@[i] != out@[j],
            forall|w: int| 0 <= w < v ==> out@.contains(#[trigger] (w as u16)),
            rng@ == resampled.0,
            spec_sweep(resampled.1, count as int, 0, 0x10000) == spec_sweep(
                out@,
                count as int,
                v as int,
                (0x10000 - v) as nat,
            ),
        decreases max as int + 1 - v,
    {
        proof {
            lemma_contains_range_len(out@, v as int);
        }
        let present = crate::util::vec_contains_u16(&out, v as u16);
        let ghost out_before = out@;
        let ghost v_pre = v as int;
        if !present {
            out.push(v as u16);
        }
        proof {
            assert(spec_sweep(out_before, count as int, v_pre, (0x10000 - v_pre) as nat)
                == spec_sweep(out@, count as int, v_pre + 1, (0x10000 - (v_pre + 1)) as nat));
        }
        proof {
            assert forall|w: int| 0 <= w < v as int + 1 implies out@.contains(#[trigger] (w as u16)) by {
                if w == v as int {
                    if present {
                        let k = choose|k: int|
                            0 <= k < out_before.len() && out_before[k] == (v as u16);
                        assert(out@[k] == (v as u16));
                    } else {
                        assert(out@[out@.len() - 1] == (v as u16));
                    }
                } else {
                    assert(out_before.contains(w as u16));
                    let k = choose|k: int|
                        0 <= k < out_before.len() && out_before[k] == (w as u16);
                    assert(out@[k] == (w as u16));
                }
            }
        }
        v += 1;
    }
    proof {
        assert(spec_sweep(out@, count as int, v as int, (0x10000 - v) as nat) == out@);
    }
    out
}

/// The round's winning numbers: the preset debug numbers when they are
/// present and still valid under the active configuration, otherwise a
/// fresh deterministic draw from the mixed seed.
pub fn generate_random_numbers(
    s: &LottoState,
    time_nanos: u64,
    height: u64,
    tx_index: u64,
    contract_addr: &Vec<u8>,
    round_no: u64,
    entropy: &Vec<u8>,
) -> (r: Vec<u16>)
    requires
        s.wf(),
    ensures
        spec_numbers_valid(r@, s.number_count, s.max_number),
        s.debug_winning_numbers matches Some(w) ==> (spec_numbers_valid(
            w@,
            s.number_count,
            s.max_number,
        ) ==> r@ == w@),
        // without a usable preset, the draw is an exact function of the
        // seed inputs: identical inputs reproduce the identical set
        (match s.debug_winning_numbers {
            Some(w) => !spec_numbers_valid(w@, s.number_count, s.max_number),
            None => true,
        }) ==> r@ == spec_generated_numbers(
            s.number_count,
            s.max_number,
            round_no,
            entropy@,
            contract_addr@,
            height,
            time_nanos,
            tx_index,
        ),
{
    match &s.debug_winning_numbers {
        Some(w) => {
            if crate::execute::buy::require_valid_numbers(s, w).is_ok() {
                return crate::util::copy_u16_vec(w);
            }
        },
        None => {},
    }
    let seed = drawing_seed(round_no, entropy, contract_addr, height, time_nanos, tx_index);
    let mut rng = crate::xorshift32::Xorshift32::new(seed);
    fill_unique_numbers(&mut rng, s.number_count, s.max_number)
}

/// Draws the current round's winning numbers.
pub fn draw_winning_numbers(
    s: &LottoState,
    time_nanos: u64,
    height: u64,
    tx_index: u64,
    contract_addr: &Vec<u8>,
    entropy: &Vec<u8>,
) -> (r: Vec<u16>)
    requires
        s.wf(),
    ensures
        spec_numbers_valid(r@, s.number_count, s.max_number),
        s.debug_winning_numbers matches Some(w) ==> (spec_numbers_valid(
            w@,
            s.number_count,
            s.max_number,
        ) ==> r@ == w@),
        (match s.debug_winning_numbers {
            Some(w) => !spec_numbers_valid(w@, s.number_count, s.max_number),
            None => true,
        }) ==> r@ == spec_generated_numbers(
            s.number_count,
            s.max_number,
            s.round_no,
            entropy@,
            contract_addr@,
            height,
            time_nanos,
            tx_index,
        ),
{
    generate_random_numbers(s, time_nanos, height, tx_index, contract_addr, s.round_no, entropy)
}

/// Simulates `ticket_count` random valid ticket selections from a seed,
/// for dry runs and seeded purchases.
pub fn generate_random_tickets(s: &LottoState, ticket_count: u16, seed: u32) -> (r: Vec<Vec<u16>>)
    requires
        s.wf(),
    ensures
        r@.len() == ticket_count,
        forall|i: int| 0 <= i < r@.len() ==> spec_numbers_valid(#[trigger] r@[i]@, s.number_count, s.max_number),
        // the whole simulation is an exact function of the seed and the
        // active configuration
        r@.map(|_i: int, t: Vec<u16>| t@) == spec_generated_tickets(
            seed,
            ticket_count as int,
            s.number_count,
            s.max_number,
        ),
{
    let mut rng = crate::xorshift32::Xorshift32::new(seed);
    let mut tickets: Vec<Vec<u16>> = Vec::new();
    let mut i: usize = 0;
    while i < ticket_count as usize
        invariant
            s.wf(),
            i <= ticket_count,
            tickets@.len() == i,
            forall|k: int|
                0 <= k < tickets@.len() ==> spec_numbers_valid(
                    #[trigger] tickets@[k]@,
                    s.number_count,
                    s.max_number,
                ),
            rng@ == spec_tickets_rng_state(seed, i as int, s.number_count, s.max_number),
            tickets@.map(|_i: int, t: Vec<u16>| t@) == spec_generated_tickets(
                seed,
                i as int,
                s.number_count,
                s.max_number,
            ),
        decreases ticket_count as int - i,
    {
        let numbers = fill_unique_numbers(&mut rng, s.number_count, s.max_number);
        tickets.push(numbers);
        proof {
            assert(tickets@.map(|_i: int, t: Vec<u16>| t@) =~= spec_generated_tickets(
                seed,
                i as int + 1,
                s.number_count,
                s.max_number,
            ));
        }
        i += 1;
    }
    tickets
}


// ---------------------------------------------------------------------------
// Claim settlement
// ---------------------------------------------------------------------------

/// The retained winning tickets that do not belong to `owner`.
pub open spec fn spec_drop_owner_tickets(s: Seq<TicketEntryView>, owner: Seq<char>) -> Seq<
    TicketEntryView,
>
    decreases s.len(),
{
    if s.len() == 0 {
        Seq::empty()
    } else if s.last().owner == owner {
        spec_drop_owner_tickets(s.drop_last(), owner)
    } else {
        spec_drop_owner_tickets(s.drop_last(), owner) + seq![s.last()]
    }
}

impl LottoState {
    pub open spec fn spec_has_claim(self, owner: Seq<char>) -> bool {
        exists|i: int| 0 <= i < self.claims@.len() && self.claims@[i].owner@ == owner
    }

    pub open spec fn spec_claim_idx(self, owner: Seq<char>) -> int {
        choose|i: int| 0 <= i < self.claims@.len() && self.claims@[i].owner@ == owner
    }

    pub open spec fn spec_has_drawing(self, round_no: u64) -> bool {
        exists|i: int| 0 <= i < self.drawings@.len() && self.drawings@[i].round_no == round_no
    }

    pub open spec fn spec_drawing_idx(self, round_no: u64) -> int {
        choose|i: int| 0 <= i < self.drawings@.len() && self.drawings@[i].round_no == round_no
    }

    pub open spec fn spec_has_account(self, owner: Seq<char>) -> bool {
        exists|i: int| 0 <= i < self.accounts@.len() && self.accounts@[i].owner@ == owner
    }

    pub open spec fn spec_account_idx(self, owner: Seq<char>) -> int {
        choose|i: int| 0 <= i < self.accounts@.len() && self.accounts@[i].owner@ == owner
    }

    /// The freshly recomputed amount of the claim at index `ci`, against
    /// its drawing and the current payout table.
    pub open spec fn spec_recomputed_amount(self, ci: int) -> int {
        let c = self.claims@[ci].claim;
        if self.spec_has_drawing(c.round_no) {
            let d = self.drawings@[self.spec_drawing_idx(c.round_no)].drawing;
            crate::util::spec_claim_amount(
                spec_mc_view(c.matches@),
                spec_mc_view(d.match_counts@),
                self.payouts@,
                d.start_balance + d.round_balance,
            )
        } else {
            0
        }
    }

    /// What settling `owner`'s claim right now pays: the recomputed amount
    /// against the claim's drawing and the current payout table.
    pub open spec fn spec_settled_amount(self, owner: Seq<char>) -> int {
        if self.spec_has_claim(owner) {
            let c = self.claims@[self.spec_claim_idx(owner)].claim;
            if self.spec_has_drawing(c.round_no) {
                let d = self.drawings@[self.spec_drawing_idx(c.round_no)].drawing;
                crate::util::spec_claim_amount(
                    spec_mc_view(c.matches@),
                    spec_mc_view(d.match_counts@),
                    self.payouts@,
                    d.start_balance + d.round_balance,
                )
            } else {
                0
            }
        } else {
            0
        }
    }
}

/// Settles or rejects `sender`'s pending claim: the amount is recomputed
/// from the drawing and the current payout table (never trusted from the
/// cache), the claim, its retained tickets and any jackpot flag are
/// removed, the claimable reserve is released, and — unless rejecting —
/// the owner's account totals are updated and a transfer of the amount is
/// requested.  A rejected claim pays nothing.
pub fn process_claim(state: &mut LottoState, sender: &String, is_rejected: bool) -> (r: Result<
    Option<PaymentMsg>,
    ContractError,
>)
    requires
        old(state).wf(),
        forall|i: int|
            0 <= i < old(state).payouts@.len() ==> #[trigger] old(state).payouts@[i].incentive
                <= MAX_TIER_INCENTIVE,
        old(state).spec_settled_amount(sender@) <= old(state).balance_claimable,
        !is_rejected && old(state).spec_has_account(sender@) ==> old(state).accounts@[old(
            state,
        ).spec_account_idx(sender@)].account.totals.wins + 0x100_0000 <= u32::MAX,
        !is_rejected && old(state).spec_has_account(sender@) ==> old(state).accounts@[old(
            state,
        ).spec_account_idx(sender@)].account.totals.winnings + old(state).spec_settled_amount(
            sender@,
        ) <= u128::MAX,
    ensures
        r.is_err() ==> *final(state) == *old(state),
        !old(state).spec_has_claim(sender@) <==> r == Err::<Option<PaymentMsg>, ContractError>(
            ContractError::ClaimNotFound,
        ),
        r.is_ok() <==> (old(state).spec_has_claim(sender@) && old(state).spec_has_drawing(
            old(state).claims@[old(state).spec_claim_idx(sender@)].claim.round_no,
        ) && (is_rejected || old(state).spec_has_account(sender@))),
        old(state).spec_has_claim(sender@) && !old(state).spec_has_drawing(
            old(state).claims@[old(state).spec_claim_idx(sender@)].claim.round_no,
        ) ==> r == Err::<Option<PaymentMsg>, ContractError>(ContractError::DrawingNotFound),
        !is_rejected && old(state).spec_has_claim(sender@) && old(state).spec_has_drawing(
            old(state).claims@[old(state).spec_claim_idx(sender@)].claim.round_no,
        ) && !old(state).spec_has_account(sender@) ==> r == Err::<
            Option<PaymentMsg>,
            ContractError,
        >(ContractError::AccountNotFound),
        r matches Ok(p) ==> ({
            let ci = old(state).spec_claim_idx(sender@);
            let amount = old(state).spec_settled_amount(sender@);
            &&& final(state).wf()
            &&& final(state).claims@ == old(state).claims@.remove(ci)
            &&& final(state).balance_claimable == old(state).balance_claimable - amount
            &&& spec_claim_tickets_view(final(state).claim_tickets@) == spec_drop_owner_tickets(
                spec_claim_tickets_view(old(state).claim_tickets@),
                sender@,
            )
            &&& !spec_jackpots_view(final(state).jackpot_claimants@).contains(sender@)
            &&& (is_rejected ==> p is None && final(state).accounts == old(state).accounts)
            &&& (!is_rejected ==> ({
                let ai = old(state).spec_account_idx(sender@);
                let a0 = old(state).accounts@[ai].account;
                &&& old(state).spec_has_account(sender@)
                &&& final(state).accounts@.len() == old(state).accounts@.len()
                &&& (forall|j: int|
                    0 <= j < old(state).accounts@.len() && j != ai ==> final(state).accounts@[j]
                        == old(state).accounts@[j])
                &&& final(state).accounts@[ai].owner@ == sender@
                &&& final(state).accounts@[ai].account.totals.winnings == a0.totals.winnings
                    + amount
                // the win counter grows by the claim's winning tickets
                &&& final(state).accounts@[ai].account.totals.wins == a0.totals.wins + spec_sum(
                    spec_mc_view(old(state).claims@[ci].claim.matches@),
                )
                &&& final(state).accounts@[ai].account.totals.tickets == a0.totals.tickets
                &&& (match p {
                    Some(pay) => amount > 0 && pay.amount == amount && pay.recipient@ == sender@,
                    None => amount == 0,
                })
            }))
            &&& final(state).tickets == old(state).tickets
            &&& final(state).drawings == old(state).drawings
            &&& final(state).round_no == old(state).round_no
            &&& final(state).round_status == old(state).round_status
            &&& final(state).ticket_count == old(state).ticket_count
        }),
{
    let ci = match find_claim_idx(&state.claims, sender) {
        Some(i) => i,
        None => {
            return Err(ContractError::ClaimNotFound);
        },
    };
    proof {
        let c = state.spec_claim_idx(sender@);
        if c != ci as int {
            assert(state.claims@[c].owner@ == state.claims@[ci as int].owner@);
            assert(false);
        }
    }
    let claim_round = state.claims[ci].claim.round_no;
    let di = match find_drawing_idx(&state.drawings, claim_round) {
        Some(i) => i,
        None => {
            return Err(ContractError::DrawingNotFound);
        },
    };
    proof {
        let c = state.spec_drawing_idx(claim_round);
        if c != di as int {
            assert(state.drawings@[c].round_no == state.drawings@[di as int].round_no);
            assert(false);
        }
    }
    let ai_found = find_account_idx(&state.accounts, sender);
    if !is_rejected && ai_found.is_none() {
        return Err(ContractError::AccountNotFound);
    }

    proof {
        // the stored claim is consistent with its drawing, so the amount
        // is well-defined and bounded
        let cm = spec_mc_view(state.claims@[ci as int].claim.matches@);
        let mcv = spec_mc_view(state.drawings@[di as int].drawing.match_counts@);
        let d = state.drawings@[di as int].drawing;
        assert(spec_drawing_wf(d));
        if cm.len() >= 1 {
            crate::util::lemma_claim_amount_bound(
                cm,
                mcv,
                state.payouts@,
                d.start_balance + d.round_balance,
                cm.len() as int,
            );
            assert(cm.len() as int * (MAX_TIER_INCENTIVE as int * 0xFFFF + MAX_POT_SIZE as int)
                <= 256 * (MAX_TIER_INCENTIVE as int * 0xFFFF + MAX_POT_SIZE as int))
                by (nonlinear_arith)
                requires
                    cm.len() <= 256,
            ;
        }
    }
    let claim_amount = crate::util::calc_total_claim_amount(
        &state.claims[ci].claim,
        &state.drawings[di].drawing,
        &state.payouts,
    );
    proof {
        assert(claim_amount as int == old(state).spec_settled_amount(sender@));
    }

    // Count this claim's winning tickets, for the account totals.
    let ghost cmv = spec_mc_view(state.claims@[ci as int].claim.matches@);
    let mut wins_inc: u32 = 0;
    let mut wi: usize = 0;
    proof {
        assert(cmv.take(0) =~= Seq::<int>::empty());
    }
    while wi < state.claims[ci].claim.matches.len()
        invariant
            *state == *old(state),
            (ci as int) < state.claims@.len(),
            wi <= cmv.len(),
            cmv == spec_mc_view(state.claims@[ci as int].claim.matches@),
            cmv.len() <= 256,
            wins_inc as int == spec_sum(cmv.take(wi as int)),
            wins_inc <= 0x1_0000 * wi,
        decreases cmv.len() - wi,
    {
        proof {
            assert(cmv.take(wi as int + 1).drop_last() =~= cmv.take(wi as int));
            assert(cmv.take(wi as int + 1).last() == cmv[wi as int]);
        }
        wins_inc = wins_inc + (state.claims[ci].claim.matches[wi] as u32);
        wi += 1;
    }
    proof {
        assert(cmv.take(cmv.len() as int) =~= cmv);
    }

    // Drop any jackpot-approval flag for this owner.
    let mut j2: usize = 0;
    while j2 < state.jackpot_claimants.len()
        invariant
            *state == (LottoState { jackpot_claimants: state.jackpot_claimants, ..*old(state) }),
            j2 <= state.jackpot_claimants@.len(),
            forall|k: int| 0 <= k < j2 ==> state.jackpot_claimants@[k]@ != sender@,
        decreases state.jackpot_claimants@.len() - j2,
    {
        if state.jackpot_claimants[j2] == *sender {
            state.jackpot_claimants.remove(j2);
            proof {
                assert(forall|k: int|
                    0 <= k < j2 ==> state.jackpot_claimants@[k]@ != sender@);
            }
        } else {
            j2 += 1;
        }
    }
    proof {
        assert forall|k: int| 0 <= k < spec_jackpots_view(state.jackpot_claimants@).len()
            implies spec_jackpots_view(state.jackpot_claimants@)[k] != sender@ by {
            assert(state.jackpot_claimants@[k]@ != sender@);
        }
    }

    // Remove the claim itself.
    let ghost claims_pre = state.claims@;
    state.claims.remove(ci);

    // Clear the claim's retained tickets.
    let ghost cts_pre = spec_claim_tickets_view(state.claim_tickets@);
    let mut kept: Vec<ClaimTicketEntry> = Vec::new();
    let mut ti: usize = 0;
    proof {
        assert(cts_pre.take(0) =~= Seq::<TicketEntryView>::empty());
        assert(spec_claim_tickets_view(kept@) =~= spec_drop_owner_tickets(
            cts_pre.take(0),
            sender@,
        ));
    }
    while ti < state.claim_tickets.len()
        invariant
            *state == (LottoState {
                claims: state.claims,
                jackpot_claimants: state.jackpot_claimants,
                ..*old(state)
            }),
            state.claims@ == old(state).claims@.remove(ci as int),
            (ci as int) < old(state).claims@.len(),
            forall|k: int|
                0 <= k < state.jackpot_claimants@.len() ==> state.jackpot_claimants@[k]@
                    != sender@,
            ti <= state.claim_tickets@.len(),
            cts_pre == spec_claim_tickets_view(state.claim_tickets@),
            spec_claim_tickets_view(kept@) == spec_drop_owner_tickets(
                cts_pre.take(ti as int),
                sender@,
            ),
        decreases state.claim_tickets@.len() - ti,
    {
        let ghost pre = cts_pre.take(ti as int);
        let ghost cur = cts_pre.take(ti as int + 1);
        proof {
            assert(cur.drop_last() =~= pre);
            assert(cur.last() == spec_claim_ticket_view(state.claim_tickets@[ti as int]));
        }
        if !(state.claim_tickets[ti].owner == *sender) {
            let e = &state.claim_tickets[ti];
            kept.push(
                ClaimTicketEntry {
                    owner: e.owner.clone(),
                    hash: e.hash.clone(),
                    ticket: Ticket {
                        numbers: crate::util::copy_u16_vec(&e.ticket.numbers),
                        n: e.ticket.n,
                    },
                },
            );
            proof {
                assert(spec_claim_tickets_view(kept@) =~= spec_drop_owner_tickets(cur, sender@));
            }
        } else {
            proof {
                assert(spec_claim_tickets_view(kept@) =~= spec_drop_owner_tickets(cur, sender@));
            }
        }
        ti += 1;
    }
    proof {
        assert(cts_pre.take(cts_pre.len() as int) =~= cts_pre);
    }
    state.claim_tickets = kept;

    // Release the reserved share of the claimable balance.
    state.balance_claimable = state.balance_claimable - claim_amount;

    let result = if is_rejected {
        Ok(None)
    } else {
        let ai = match ai_found {
            Some(a) => a,
            None => {
                proof {
                    assert(false);
                }
                return Err(ContractError::AccountNotFound);
            },
        };
        proof {
            let c = old(state).spec_account_idx(sender@);
            if c != ai as int {
                assert(old(state).accounts@[c].owner@ == old(state).accounts@[ai as int].owner@);
                assert(false);
            }
        }
        let old_totals = state.accounts[ai].account.totals;
        state.accounts[ai].account.totals = AccountTotals {
            winnings: old_totals.winnings + claim_amount,
            wins: old_totals.wins + wins_inc,
            ..old_totals
        };
        if claim_amount == 0 {
            Ok(None)
        } else {
            Ok(Some(PaymentMsg { recipient: sender.clone(), amount: claim_amount }))
        }
    };
    proof {
        assert(final(state).wf());
    }
    result
}

// ---------------------------------------------------------------------------
// Initialization
// ---------------------------------------------------------------------------

/// Builds the engine's initial state from an instantiation message.
/// Succeeds exactly on well-formed configurations; address syntax is the
/// host's concern.
pub fn initialize(time: u64, height: u64, sender: &String, msg: InstantiateMsg) -> (r: Result<
    LottoState,
    ContractError,
>)
    ensures
        r.is_ok() <==> spec_config_valid(msg.config),
        r matches Ok(s) ==> s.wf() && s.round_no == 1 && s.round_status == RoundStatus::Active
            && s.ticket_count == 0 && s.tickets@.len() == 0 && s.claims@.len() == 0
            && s.balance_claimable == 0 && s.round_start == time && s.prev_height == height
            && s.drawings@.len() == 0 && s.staged_config is None,
        // the submitted configuration is installed as given, with the batch
        // size clamped to its safe range and the approval gate defaulted off
        r matches Ok(s) ==> ({
            let c = msg.config;
            &&& s.token == c.token
            &&& s.price == c.price
            &&& s.number_count == c.number_count
            &&& s.max_number == c.max_number
            &&& s.round_seconds == c.round_seconds
            &&& s.marketing == c.marketing
            &&& s.style == c.style
            &&& s.house_address == c.house_address
            &&& s.rolling == c.rolling
            &&& s.min_balance == c.min_balance
            &&& s.payouts == c.payouts
            &&& s.drawer == c.drawer
            &&& s.nois_proxy == c.nois_proxy
            &&& s.debug_winning_numbers == msg.winning_numbers
            &&& s.batch_size == ({
                let b = match c.batch_size {
                    Some(b) => b,
                    None => 1000u16,
                };
                if b < 100 {
                    100u16
                } else if b > 1000 {
                    1000u16
                } else {
                    b
                }
            })
            &&& s.use_approval == ({
                match c.use_approval {
                    Some(b) => b,
                    None => false,
                }
            })
            &&& (msg.owner matches Some(o) ==> s.owner == o)
            &&& (msg.owner is None ==> (s.owner matches Owner::Address(a) && a@ == sender@))
        }),
{
    msg.config.validate()?;

    let config = msg.config;
    let owner = match msg.owner {
        Some(o) => o,
        None => Owner::Address(sender.clone()),
    };

    let batch_size_raw = match config.batch_size {
        Some(b) => b,
        None => 1000,
    };
    let batch_size = if batch_size_raw < 100 {
        100
    } else if batch_size_raw > 1000 {
        1000
    } else {
        batch_size_raw
    };

    let use_approval = match config.use_approval {
        Some(b) => b,
        None => false,
    };

    Ok(
        LottoState {
            token: config.token,
            price: config.price,
            number_count: config.number_count,
            max_number: config.max_number,
            round_seconds: config.round_seconds,
            marketing: config.marketing,
            style: config.style,
            house_address: config.house_address,
            rolling: config.rolling,
            min_balance: config.min_balance,
            payouts: config.payouts,
            drawer: config.drawer,
            batch_size,
            use_approval,
            nois_proxy: config.nois_proxy,
            owner,
            staged_config: None,
            round_no: 1,
            round_start: time,
            round_status: RoundStatus::Active,
            ticket_count: 0,
            tickets: Vec::new(),
            accounts: Vec::new(),
            claims: Vec::new(),
            jackpot_claimants: Vec::new(),
            balance_claimable: 0,
            drawings: Vec::new(),
            claim_tickets: Vec::new(),
            taxes: Vec::new(),
            debug_winning_numbers: msg.winning_numbers,
            prev_height: height,
        },
    )
}

} // verus!
