use vstd::prelude::*;

use crate::error::ContractError;
use crate::models::{Claim, Drawing, RoundStatus, Ticket};
use crate::scan::{
    spec_match_count, lemma_match_count_bounds, ScanAcc,
};
use crate::state::{
    ClaimEntry, ClaimTicketEntry, DrawingEntry, LottoState, MAX_CLAIMABLE, MAX_POT_SIZE,
    MAX_TIER_INCENTIVE, spec_claims_view, spec_claim_tickets_view, spec_jackpots_view,
    spec_mc_view, spec_sum, spec_tickets_view,
};

verus! {

/// The block context an `advance` step runs under, as plain values: the
/// host passes its clock, height, transaction index, its own identity as
/// bytes, and its queried token balance.
#[derive(Debug)]
pub struct DrawEnv {
    pub time: u64,
    pub time_nanos: u64,
    pub height: u64,
    pub tx_index: u64,
    pub contract_addr: Vec<u8>,
    pub contract_balance: u128,
}

/// A randomness-beacon callback: the round it answers and the delivered
/// random bytes.
#[derive(Debug)]
pub struct CallbackMsg {
    pub round_no: u64,
    pub randomness: Vec<u8>,
}

/// What a completed `advance` step asks of the host.
#[derive(Debug)]
pub enum DrawAction {
    /// Nothing beyond persisting the state.
    Noop,
    /// Emit a randomness request tagged with the round number.
    RequestRandomness { job_id: u64 },
    /// Reconcile with the treasury: `incoming` flows to the house,
    /// `outgoing` is what the house releases for payouts.
    SettleHouse { incoming: u128, outgoing: u128 },
}

#[derive(Debug)]
pub struct DrawResponse {
    pub is_complete: bool,
    pub action: DrawAction,
}

/// Rejects an `advance` while an active round has not reached its end time.
pub fn ensure_round_can_end(s: &LottoState, time: u64) -> (r: Result<(), ContractError>)
    requires
        s.round_start + s.round_seconds <= u64::MAX,
    ensures
        r.is_ok() <==> (s.round_status != RoundStatus::Active || s.round_start + s.round_seconds
            <= time),
        r.is_err() ==> r == Err::<(), ContractError>(ContractError::ActiveRound),
{
    if s.round_status == RoundStatus::Active {
        let round_end = s.round_start + s.round_seconds;
        if round_end > time {
            return Err(ContractError::ActiveRound);
        }
    }
    Ok(())
}

/// Rolls the state over into the next round: sales reopen, the ticket
/// store is cleared, the round counter advances, and any staged
/// configuration takes effect — the only point where scoring-relevant
/// configuration may change.
pub fn reset_round_state(state: &mut LottoState, time: u64)
    requires
        old(state).wf(),
        old(state).round_no < u64::MAX,
    ensures
        final(state).wf(),
        final(state).round_status == RoundStatus::Active,
        final(state).round_start == time,
        final(state).round_no == old(state).round_no + 1,
        final(state).tickets@.len() == 0,
        final(state).ticket_count == 0,
        final(state).staged_config is None,
        final(state).claims == old(state).claims,
        final(state).accounts == old(state).accounts,
        final(state).drawings == old(state).drawings,
        final(state).jackpot_claimants == old(state).jackpot_claimants,
        final(state).claim_tickets == old(state).claim_tickets,
        final(state).balance_claimable == old(state).balance_claimable,
        final(state).token == old(state).token,
        final(state).house_address == old(state).house_address,
        final(state).drawer == old(state).drawer,
        final(state).batch_size == old(state).batch_size,
        final(state).use_approval == old(state).use_approval,
        final(state).nois_proxy == old(state).nois_proxy,
        final(state).debug_winning_numbers == old(state).debug_winning_numbers,
        final(state).prev_height == old(state).prev_height,
        final(state).rolling == ({
            match old(state).staged_config {
                Some(c) => c.rolling,
                None => old(state).rolling,
            }
        }),
        final(state).min_balance == ({
            match old(state).staged_config {
                Some(c) => c.min_balance,
                None => old(state).min_balance,
            }
        }),
        final(state).price == ({
            match old(state).staged_config {
                Some(c) => c.price,
                None => old(state).price,
            }
        }),
        final(state).number_count == ({
            match old(state).staged_config {
                Some(c) => c.number_count,
                None => old(state).number_count,
            }
        }),
        final(state).max_number == ({
            match old(state).staged_config {
                Some(c) => c.max_number,
                None => old(state).max_number,
            }
        }),
        final(state).round_seconds == ({
            match old(state).staged_config {
                Some(c) => c.round_seconds,
                None => old(state).round_seconds,
            }
        }),
        final(state).payouts@ == ({
            match old(state).staged_config {
                Some(c) => c.payouts@,
                None => old(state).payouts@,
            }
        }),
{
    state.round_status = RoundStatus::Active;
    state.round_start = time;
    state.round_no = state.round_no + 1;
    state.tickets.clear();
    state.ticket_count = 0;

    // If a new configuration is staged, it takes effect here, at the round
    // boundary.  The token is never swapped, so pending claims and
    // withdrawals keep working.
    let staged = state.staged_config.take();
    match staged {
        Some(new_config) => {
            state.max_number = new_config.max_number;
            state.min_balance = new_config.min_balance;
            state.number_count = new_config.number_count;
            state.rolling = new_config.rolling;
            state.round_seconds = new_config.round_seconds;
            state.price = new_config.price;
            state.payouts = new_config.payouts;
        },
        None => {},
    }
    proof {
        assert(final(state).wf());
    }
}

pub(crate) fn count_matches(numbers: &Vec<u16>, winning: &Vec<u16>) -> (r: u8)
    requires
        numbers@.len() <= 255,
    ensures
        r as int == spec_match_count(numbers@, winning@),
{
    let mut count: u8 = 0;
    let mut i: usize = 0;
    while i < numbers.len()
        invariant
            i <= numbers@.len() <= 255,
            count as int == spec_match_count(numbers@.take(i as int), winning@),
        decreases numbers@.len() - i,
    {
        proof {
            assert(numbers@.take(i as int + 1).drop_last() =~= numbers@.take(i as int));
            assert(numbers@.take(i as int + 1).last() == numbers@[i as int]);
            lemma_match_count_bounds(numbers@.take(i as int), winning@);
        }
        if crate::util::vec_contains_u16(winning, numbers[i]) {
            count = count + 1;
        }
        i += 1;
    }
    proof {
        assert(numbers@.take(numbers@.len() as int) =~= numbers@);
    }
    count
}

fn zeros_u16(len: usize) -> (r: Vec<u16>)
    ensures
        r@.len() == len,
        forall|i: int| 0 <= i < len ==> r@[i] == 0,
{
    let mut out: Vec<u16> = Vec::new();
    let mut i: usize = 0;
    while i < len
        invariant
            i <= len,
            out@.len() == i,
            forall|k: int| 0 <= k < i ==> out@[k] == 0,
        decreases len - i,
    {
        out.push(0);
        i += 1;
    }
    out
}

fn vec_contains_string(v: &Vec<String>, x: &String) -> (r: bool)
    ensures
        r == spec_jackpots_view(v@).contains(x@),
{
    let mut i: usize = 0;
    while i < v.len()
        invariant
            i <= v@.len(),
            forall|k: int| 0 <= k < i ==> v@[k]@ != x@,
        decreases v@.len() - i,
    {
        if v[i] == *x {
            proof {
                assert(spec_jackpots_view(v@)[i as int] == x@);
            }
            return true;
        }
        i += 1;
    }
    proof {
        assert forall|k: int| 0 <= k < spec_jackpots_view(v@).len()
            implies spec_jackpots_view(v@)[k] != x@ by {
            assert(v@[k]@ != x@);
        }
    }
    false
}

/// The scan accumulator a fresh drawing starts from: zeroed frequency
/// buckets over the claims, jackpot flags and retained tickets already in
/// the state.
pub open spec fn spec_start_acc(s: LottoState, winning: Seq<u16>) -> ScanAcc {
    ScanAcc {
        match_counts: Seq::new(winning.len() + 1, |_i: int| 0),
        processed: 0,
        claims: spec_claims_view(s.claims@),
        jackpots: spec_jackpots_view(s.jackpot_claimants@),
        claim_tickets: spec_claim_tickets_view(s.claim_tickets@),
    }
}

/// The scan accumulator a state and a working drawing denote.
pub open spec fn spec_scan_acc_of(s: LottoState, d: Drawing) -> ScanAcc {
    ScanAcc {
        match_counts: spec_mc_view(d.match_counts@),
        processed: d.processed_ticket_count as int,
        claims: spec_claims_view(s.claims@),
        jackpots: spec_jackpots_view(s.jackpot_claimants@),
        claim_tickets: spec_claim_tickets_view(s.claim_tickets@),
    }
}

/// Scans the next bounded slice of the ticket store for the round's
/// drawing, strictly after the persisted cursor: up to `batch_size` store
/// entries are scored against the winning numbers, exactly as
/// [`crate::scan::spec_scan_fold`] describes, and the cursor advances past
/// them, so a retried or resumed call never revisits an entry.  The scan
/// order is the store's registration order — a stable total order over
/// `(owner, key)` entries, fixed before the drawing begins.
pub fn process_next_page(state: &mut LottoState, round_no: u64) -> (r: Result<(), ContractError>)
    requires
        old(state).wf(),
        old(state).round_status == RoundStatus::Drawing,
        round_no == old(state).round_no,
    ensures
        r.is_err() ==> *final(state) == *old(state) && r == Err::<(), ContractError>(
            ContractError::DrawingNotFound,
        ) && !old(state).spec_has_current_drawing(),
        r.is_ok() ==> old(state).spec_has_current_drawing(),
        r.is_ok() ==> ({
            let di = old(state).spec_current_drawing_idx();
            let d0 = old(state).drawings@[di].drawing;
            let tv = spec_tickets_view(old(state).tickets@);
            let k = if old(state).batch_size as int <= tv.len() - d0.cursor {
                old(state).batch_size as int
            } else {
                tv.len() - d0.cursor
            };
            let acc1 = crate::scan::spec_scan_fold(
                spec_scan_acc_of(*old(state), d0),
                tv.subrange(d0.cursor as int, d0.cursor + k),
                d0.winning_numbers@,
                old(state).payouts@,
                round_no,
            );
            &&& final(state).wf()
            &&& final(state).round_status == RoundStatus::Drawing
            &&& spec_claims_view(final(state).claims@) == acc1.claims
            &&& spec_jackpots_view(final(state).jackpot_claimants@) == acc1.jackpots
            &&& spec_claim_tickets_view(final(state).claim_tickets@) == acc1.claim_tickets
            &&& final(state).drawings@.len() == old(state).drawings@.len()
            &&& (forall|j: int|
                0 <= j < old(state).drawings@.len() && j != di ==> final(state).drawings@[j]
                    == old(state).drawings@[j])
            &&& final(state).drawings@[di].round_no == round_no
            &&& ({
                let d1 = final(state).drawings@[di].drawing;
                &&& spec_mc_view(d1.match_counts@) == acc1.match_counts
                &&& d1.processed_ticket_count == acc1.processed
                &&& d1.cursor == d0.cursor + k
                &&& d1.winning_numbers == d0.winning_numbers
                &&& d1.ticket_count == d0.ticket_count
                &&& d1.round_balance == d0.round_balance
                &&& d1.start_balance == d0.start_balance
                &&& d1.pot_payout == d0.pot_payout
                &&& d1.incentive_payout == d0.incentive_payout
                &&& d1.total_payout == d0.total_payout
                &&& d1.round_no == d0.round_no
            })
            &&& *final(state) == (LottoState {
                claims: final(state).claims,
                jackpot_claimants: final(state).jackpot_claimants,
                claim_tickets: final(state).claim_tickets,
                drawings: final(state).drawings,
                ..*old(state)
            })
        }),
{
    let di = match crate::state::find_drawing_idx(&state.drawings, round_no) {
        Some(i) => i,
        None => {
            return Err(ContractError::DrawingNotFound);
        },
    };
    proof {
        assert(old(state).spec_has_current_drawing());
        let c = old(state).spec_current_drawing_idx();
        if c != di as int {
            assert(old(state).drawings@[c].round_no == old(state).drawings@[di as int].round_no);
            assert(false);
        }
    }
    let ghost d0 = state.drawings@[di as int].drawing;
    let ghost tv = spec_tickets_view(old(state).tickets@);
    let ghost winning_v = d0.winning_numbers@;
    let ghost acc0 = spec_scan_acc_of(*old(state), d0);

    let mut de = state.drawings.remove(di);
    let page_size = state.batch_size;
    let mut done: u16 = 0;

    proof {
        assert(tv.subrange(d0.cursor as int, d0.cursor as int)
            =~= Seq::<crate::state::TicketEntryView>::empty());
        assert(old(state).spec_scan_consistent(d0));
        assert(spec_scan_acc_of(*state, de.drawing) == crate::scan::spec_scan_fold(
            acc0,
            tv.subrange(d0.cursor as int, de.drawing.cursor as int),
            winning_v,
            old(state).payouts@,
            round_no,
        ));
    }

    while (de.drawing.cursor as usize) < state.tickets.len() && done < page_size
        invariant
            *state == (LottoState {
                claims: state.claims,
                jackpot_claimants: state.jackpot_claimants,
                claim_tickets: state.claim_tickets,
                drawings: state.drawings,
                ..*old(state)
            }),
            state.drawings@ == old(state).drawings@.remove(di as int),
            (di as int) < old(state).drawings@.len(),
            old(state).wf(),
            old(state).round_status == RoundStatus::Drawing,
            round_no == old(state).round_no,
            tv == spec_tickets_view(old(state).tickets@),
            d0 == old(state).drawings@[di as int].drawing,
            old(state).drawings@[di as int].round_no == round_no,
            winning_v == d0.winning_numbers@,
            winning_v.len() == old(state).number_count,
            acc0 == spec_scan_acc_of(*old(state), d0),
            page_size == old(state).batch_size,
            de.round_no == round_no,
            de.drawing == (Drawing {
                match_counts: de.drawing.match_counts,
                processed_ticket_count: de.drawing.processed_ticket_count,
                cursor: de.drawing.cursor,
                ..d0
            }),
            d0.cursor + done == de.drawing.cursor,
            done <= page_size,
            d0.cursor <= de.drawing.cursor <= tv.len(),
            de.drawing.match_counts@.len() == winning_v.len() + 1,
            de.drawing.processed_ticket_count as int == crate::state::spec_sum_n(
                tv.take(de.drawing.cursor as int),
            ),
            spec_sum(spec_mc_view(de.drawing.match_counts@)) == de.drawing.processed_ticket_count,
            spec_scan_acc_of(*state, de.drawing) == crate::scan::spec_scan_fold(
                acc0,
                tv.subrange(d0.cursor as int, de.drawing.cursor as int),
                winning_v,
                old(state).payouts@,
                round_no,
            ),
            forall|i: int, j: int|
                0 <= i < j < state.claims@.len() ==> state.claims@[i].owner@
                    != state.claims@[j].owner@,
            state.claims@.len() >= old(state).claims@.len(),
            forall|i: int|
                0 <= i < state.claims@.len() && #[trigger] state.claims@[i].claim.round_no
                    != round_no ==> i < old(state).claims@.len() && state.claims@[i]
                    == old(state).claims@[i],
            forall|i: int|
                0 <= i < state.claims@.len() ==> #[trigger] state.claims@[i].claim.round_no
                    <= round_no,
            forall|i: int|
                0 <= i < state.claims@.len() && #[trigger] state.claims@[i].claim.round_no
                    == round_no ==> (state.claims@[i].claim.matches@.len()
                    == de.drawing.match_counts@.len() && (forall|t: int|
                    0 <= t < state.claims@[i].claim.matches@.len()
                        ==> #[trigger] state.claims@[i].claim.matches@[t]
                        <= de.drawing.match_counts@[t])),
        decreases tv.len() - de.drawing.cursor,
    {
        let jj = de.drawing.cursor as usize;
        let owner: String = state.tickets[jj].owner.clone();
        let hash: String = state.tickets[jj].hash.clone();
        let numbers: Vec<u16> = crate::util::copy_u16_vec(&state.tickets[jj].ticket.numbers);
        let n: u16 = state.tickets[jj].ticket.n;
        let ghost e = tv[jj as int];
        let ghost acc_pre = spec_scan_acc_of(*state, de.drawing);
        let ghost mc_pre = spec_mc_view(de.drawing.match_counts@);
        let ghost claims_pre = state.claims@;
        proof {
            assert(e == crate::state::spec_ticket_entry_view(old(state).tickets@[jj as int]));
            assert(owner@ == e.owner && hash@ == e.hash && numbers@ == e.ticket.numbers
                && n == e.ticket.n);
            assert(old(state).tickets@[jj as int].ticket.n >= 1 && crate::state::spec_numbers_valid(
                old(state).tickets@[jj as int].ticket.numbers@,
                old(state).number_count,
                old(state).max_number,
            ));
        }
        let t = count_matches(&numbers, &de.drawing.winning_numbers);
        let ti = t as usize;
        let ghost ts = spec_match_count(e.ticket.numbers, winning_v);
        proof {
            lemma_match_count_bounds(e.ticket.numbers, winning_v);
            assert(ts == t as int);
            assert(0 <= ts < mc_pre.len());
            crate::state::lemma_sum_n_take_succ(tv, jj as int);
            crate::state::lemma_sum_n_take_le(tv, jj as int + 1);
            assert(crate::state::spec_sum_n(tv) == old(state).ticket_count);
            assert(de.drawing.processed_ticket_count + n <= old(state).ticket_count);
            assert(forall|k: int| 0 <= k < mc_pre.len() ==> #[trigger] mc_pre[k] >= 0);
            crate::state::lemma_sum_entry_le(mc_pre, ts);
        }
        proof {
            assert(forall|k: int|
                0 <= k < tv.len() ==> #[trigger] tv[k].ticket.n
                    == old(state).tickets@[k].ticket.n);
            crate::state::lemma_sum_n_ge_len(tv);
        }
        let old_mc = de.drawing.match_counts[ti];
        de.drawing.match_counts[ti] = old_mc + n;
        de.drawing.processed_ticket_count = de.drawing.processed_ticket_count + (n as u32);
        de.drawing.cursor = de.drawing.cursor + 1;
        proof {
            assert(spec_mc_view(de.drawing.match_counts@) =~= mc_pre.update(
                ts,
                mc_pre[ts] + n as int,
            ));
            crate::state::lemma_sum_update(mc_pre, ts, mc_pre[ts] + n as int);
        }

        let pays = crate::util::find_payout(&state.payouts, t);
        match pays {
            Some(_) => {
                match crate::state::find_claim_idx(&state.claims, &owner) {
                    Some(ci) => {
                        proof {
                            assert(spec_claims_view(claims_pre)[ci as int].owner == owner@);
                            assert(forall|k: int|
                                0 <= k < ci as int ==> spec_claims_view(claims_pre)[k].owner
                                    != owner@);
                            crate::scan::lemma_first_claim_idx(
                                spec_claims_view(claims_pre),
                                owner@,
                                0,
                                ci as int,
                            );
                        }
                        let mut entry = state.claims.remove(ci);
                        if entry.claim.round_no == round_no {
                            proof {
                                assert(claims_pre[ci as int].claim.matches@.len()
                                    == mc_pre.len());
                                assert(claims_pre[ci as int].claim.matches@[ts]
                                    <= mc_pre[ts]);
                            }
                            let oldv = entry.claim.matches[ti];
                            entry.claim.matches[ti] = oldv + n;
                        } else {
                            let mut matches = zeros_u16(de.drawing.winning_numbers.len() + 1);
                            matches[ti] = n;
                            entry.claim = Claim {
                                round_no,
                                amount: None,
                                tickets: None,
                                matches,
                                is_approved: false,
                            };
                        }
                        state.claims.insert(ci, entry);
                        proof {
                            assert(state.claims@ =~= claims_pre.update(
                                ci as int,
                                state.claims@[ci as int],
                            ));
                        }
                    },
                    None => {
                        proof {
                            assert(forall|k: int|
                                0 <= k < spec_claims_view(claims_pre).len()
                                    ==> spec_claims_view(claims_pre)[k].owner != owner@);
                            crate::scan::lemma_no_claim_idx(
                                spec_claims_view(claims_pre),
                                owner@,
                                0,
                            );
                        }
                        let mut matches = zeros_u16(de.drawing.winning_numbers.len() + 1);
                        matches[ti] = n;
                        state.claims.push(
                            ClaimEntry {
                                owner: owner.clone(),
                                claim: Claim {
                                    round_no,
                                    amount: None,
                                    tickets: None,
                                    matches,
                                    is_approved: false,
                                },
                            },
                        );
                    },
                }
                if ti == de.drawing.winning_numbers.len() {
                    if !vec_contains_string(&state.jackpot_claimants, &owner) {
                        state.jackpot_claimants.push(owner.clone());
                    }
                }
                state.claim_tickets.push(
                    ClaimTicketEntry { owner, hash, ticket: Ticket { numbers, n } },
                );
            },
            None => {},
        }
        done = done + 1;
        proof {
            let step = crate::scan::spec_scan_step(acc_pre, e, winning_v, old(state).payouts@, round_no);
            assert(spec_mc_view(de.drawing.match_counts@) =~~= step.match_counts);
            assert(de.drawing.processed_ticket_count as int == step.processed);
            assert(spec_claims_view(state.claims@) =~~= step.claims);
            assert(spec_jackpots_view(state.jackpot_claimants@) =~~= step.jackpots);
            assert(spec_claim_tickets_view(state.claim_tickets@) =~~= step.claim_tickets);
            assert(spec_scan_acc_of(*state, de.drawing) == step);
            // extend the consumed slice by this entry
            let pre_slice = tv.subrange(d0.cursor as int, jj as int);
            let cur_slice = tv.subrange(d0.cursor as int, jj as int + 1);
            assert(cur_slice =~= pre_slice + seq![e]);
            crate::scan::lemma_scan_fold_concat(
                acc0,
                pre_slice,
                seq![e],
                winning_v,
                old(state).payouts@,
                round_no,
            );
            let one = seq![e];
            assert(one.len() == 1 && one[0] == e);
            assert(one.drop_first() =~= Seq::<crate::state::TicketEntryView>::empty());
            assert(crate::scan::spec_scan_fold(acc_pre, one, winning_v, old(state).payouts@, round_no)
                == crate::scan::spec_scan_fold(
                step,
                one.drop_first(),
                winning_v,
                old(state).payouts@,
                round_no,
            ));
            assert(crate::scan::spec_scan_fold(
                step,
                one.drop_first(),
                winning_v,
                old(state).payouts@,
                round_no,
            ) == step);
            assert(tv.take(jj as int + 1).drop_last() =~= tv.take(jj as int));
        }
    }

    let ghost de_final = de;
    state.drawings.insert(di, de);
    proof {
        assert(state.drawings@ =~= old(state).drawings@.update(di as int, de_final));
        let k = if old(state).batch_size as int <= tv.len() - d0.cursor {
            old(state).batch_size as int
        } else {
            tv.len() - d0.cursor
        };
        assert(de_final.drawing.cursor == d0.cursor + k);
        crate::state::lemma_sum_n_take_le(tv, de_final.drawing.cursor as int);
        assert(final(state).wf());
    }
    Ok(())
}

/// Settles a completed drawing and rolls the round over: computes the
/// incentive total and the per-tier net pot payout (the house tax is
/// withheld per tier, rounded down), reserves the total for claimants, and
/// reconciles with the treasury.  Returns `(incoming, outgoing)`: what the
/// contract owes the house and what the house releases for payouts.  When
/// the round does not roll its balance forward the whole round balance goes
/// to the house; when it rolls, the house receives the payout plus tax when
/// the balance covers both (so the surplus stays for the next round), and
/// the whole balance otherwise, the house covering the shortfall.
pub fn end_draw(state: &mut LottoState, round_no: u64, time: u64) -> (r: (u128, u128))
    requires
        old(state).wf(),
        old(state).round_status == RoundStatus::Drawing,
        round_no == old(state).round_no,
        old(state).round_no < u64::MAX,
        old(state).spec_has_current_drawing(),
        ({
            let d0 = old(state).drawings@[old(state).spec_current_drawing_idx()].drawing;
            &&& d0.processed_ticket_count == d0.ticket_count
            &&& d0.start_balance + d0.round_balance <= MAX_POT_SIZE
        }),
        forall|i: int|
            0 <= i < old(state).payouts@.len() ==> #[trigger] old(state).payouts@[i].incentive
                <= MAX_TIER_INCENTIVE,
        old(state).balance_claimable <= MAX_CLAIMABLE,
    ensures
        ({
            let di = old(state).spec_current_drawing_idx();
            let d0 = old(state).drawings@[di].drawing;
            let mcv = spec_mc_view(d0.match_counts@);
            let pot = d0.start_balance + d0.round_balance;
            let inc = crate::util::spec_incentive_total(old(state).payouts@, mcv);
            let net = crate::util::spec_pot_net(old(state).payouts@, mcv, pot);
            let tax = crate::util::spec_pot_tax(old(state).payouts@, mcv, pot);
            let total = inc + net;
            &&& final(state).wf()
            &&& final(state).round_status == RoundStatus::Active
            &&& final(state).round_no == old(state).round_no + 1
            &&& final(state).tickets@.len() == 0
            &&& final(state).ticket_count == 0
            &&& final(state).staged_config is None
            &&& final(state).balance_claimable == old(state).balance_claimable + total
            &&& final(state).claims == old(state).claims
            &&& final(state).accounts == old(state).accounts
            &&& final(state).jackpot_claimants == old(state).jackpot_claimants
            &&& final(state).claim_tickets == old(state).claim_tickets
            &&& final(state).drawings@.len() == old(state).drawings@.len()
            &&& (forall|j: int|
                0 <= j < old(state).drawings@.len() && j != di ==> final(state).drawings@[j]
                    == old(state).drawings@[j])
            &&& final(state).drawings@[di].round_no == round_no
            &&& ({
                let d1 = final(state).drawings@[di].drawing;
                &&& d1.pot_payout == net
                &&& d1.incentive_payout == inc
                &&& d1.total_payout == total
                &&& d1.cursor == 0
                &&& d1.match_counts == d0.match_counts
                &&& d1.winning_numbers == d0.winning_numbers
                &&& d1.processed_ticket_count == d0.processed_ticket_count
                &&& d1.ticket_count == d0.ticket_count
                &&& d1.round_balance == d0.round_balance
                &&& d1.start_balance == d0.start_balance
            })
            &&& r.1 == total
            &&& r.0 == (if !old(state).rolling {
                d0.round_balance as int
            } else if d0.round_balance >= total + tax {
                total + tax
            } else {
                d0.round_balance as int
            })
        }),
{
    let di = match crate::state::find_drawing_idx(&state.drawings, round_no) {
        Some(i) => i,
        None => {
            proof {
                assert(false);
            }
            return (0, 0);
        },
    };
    proof {
        let c = old(state).spec_current_drawing_idx();
        if c != di as int {
            assert(old(state).drawings@[c].round_no == old(state).drawings@[di as int].round_no);
            assert(false);
        }
    }
    let ghost d0 = state.drawings@[di as int].drawing;
    let ghost mcv = spec_mc_view(d0.match_counts@);
    let ghost pot_g = d0.start_balance + d0.round_balance;

    let pot_size = state.drawings[di].drawing.resolve_pot_size();

    // Compute the totals owed for pending claims: the incentives and the
    // gross pot shares, tier by tier; the tax comes off the total once.
    let mut incentive_amount: u128 = 0;
    let mut gross_amount: u128 = 0;
    let mut i: usize = 0;
    proof {
        assert(state.payouts@.take(0) =~= Seq::<crate::models::Payout>::empty());
    }
    while i < state.payouts.len()
        invariant
            *state == *old(state),
            i <= state.payouts@.len(),
            state.payouts@.len() <= 256,
            (di as int) < state.drawings@.len(),
            d0 == state.drawings@[di as int].drawing,
            forall|k: int|
                0 <= k < state.payouts@.len() ==> #[trigger] state.payouts@[k].incentive
                    <= MAX_TIER_INCENTIVE,
            forall|k: int|
                0 <= k < state.payouts@.len() ==> #[trigger] state.payouts@[k].pct
                    <= crate::models::PCT_DENOM,
            mcv == spec_mc_view(d0.match_counts@),
            pot_g == d0.start_balance + d0.round_balance,
            pot_g <= MAX_POT_SIZE,
            pot_size == pot_g,
            incentive_amount == crate::util::spec_incentive_total(
                state.payouts@.take(i as int),
                mcv,
            ),
            gross_amount == crate::util::spec_pot_gross_total(
                state.payouts@.take(i as int),
                mcv,
                pot_g,
            ),
        decreases state.payouts@.len() - i,
    {
        let ghost pre = state.payouts@.take(i as int);
        let ghost cur = state.payouts@.take(i as int + 1);
        proof {
            assert(cur.drop_last() =~= pre);
            assert(cur.last() == state.payouts@[i as int]);
            assert(forall|k: int| 0 <= k < cur.len() ==> #[trigger] cur[k].incentive <= MAX_TIER_INCENTIVE);
            assert(forall|k: int| 0 <= k < cur.len() ==> #[trigger] cur[k].pct <= crate::models::PCT_DENOM);
            crate::util::lemma_incentive_total_bounds(cur, mcv, MAX_TIER_INCENTIVE as int);
            crate::util::lemma_pot_totals(cur, mcv, pot_g as int);
            assert(cur.len() * (MAX_TIER_INCENTIVE as int * 0xFFFF) <= 256 * (MAX_TIER_INCENTIVE as int
                * 0xFFFF)) by (nonlinear_arith)
                requires
                    cur.len() <= 256,
            ;
            assert(cur.len() * pot_g as int <= 256 * pot_g as int) by (nonlinear_arith)
                requires
                    cur.len() <= 256 && pot_g >= 0,
            ;
        }
        let p = state.payouts[i];
        let idx = p.n as usize;
        let nt: u16 = if idx < state.drawings[di].drawing.match_counts.len() {
            state.drawings[di].drawing.match_counts[idx]
        } else {
            0
        };
        proof {
            assert(nt as int == crate::util::spec_tier_tickets(mcv, p.n));
        }
        if nt > 0 {
            incentive_amount = incentive_amount + p.incentive * (nt as u128);
            gross_amount = gross_amount + crate::util::mul_pct(pot_size, p.pct);
        }
        i += 1;
    }
    proof {
        assert(state.payouts@.take(state.payouts@.len() as int) =~= state.payouts@);
        crate::util::lemma_incentive_total_bounds(state.payouts@, mcv, MAX_TIER_INCENTIVE as int);
        crate::util::lemma_pot_totals(state.payouts@, mcv, pot_g as int);
        assert(state.payouts@.len() * (MAX_TIER_INCENTIVE as int * 0xFFFF) <= 256 * (
        MAX_TIER_INCENTIVE as int * 0xFFFF)) by (nonlinear_arith)
            requires
                state.payouts@.len() <= 256,
        ;
        assert(state.payouts@.len() * pot_g as int <= 256 * pot_g as int) by (nonlinear_arith)
            requires
                state.payouts@.len() <= 256 && pot_g >= 0,
        ;
    }

    // The tax is one rounded-down fraction of the whole pot-share total.
    let tax_amount = crate::util::mul_pct(gross_amount, crate::state::HOUSE_POT_TAX_PCT);
    let net_amount = gross_amount - tax_amount;

    // Reserve the total for claimants.
    let total_payout = incentive_amount + net_amount;
    state.balance_claimable = state.balance_claimable + total_payout;

    let taxed_payout = total_payout;
    let total_outgoing = taxed_payout;
    let total_incoming: u128 = if !state.rolling {
        // Not rolling: the entire round balance goes to the house
        // regardless of the payout.
        state.drawings[di].drawing.round_balance
    } else if state.drawings[di].drawing.round_balance >= taxed_payout + tax_amount {
        // Surplus: the house receives payout plus tax and releases the
        // payout, so it nets exactly the tax; the surplus stays here for
        // the next round.
        taxed_payout + tax_amount
    } else {
        // Shortfall: the house takes what there is and covers the rest.
        state.drawings[di].drawing.round_balance
    };

    // Roll the round over, then fix the drawing's totals.
    proof {
        assert(state.wf());
    }
    reset_round_state(state, time);

    let mut de = state.drawings.remove(di);
    de.drawing.pot_payout = net_amount;
    de.drawing.incentive_payout = incentive_amount;
    de.drawing.total_payout = total_payout;
    de.drawing.cursor = 0;
    let ghost de_g = de;
    state.drawings.insert(di, de);
    proof {
        assert(state.drawings@ =~= old(state).drawings@.update(di as int, de_g));
        assert(final(state).wf());
    }

    (total_incoming, total_outgoing)
}

/// Creates the round's drawing record: winning numbers fixed, frequency
/// array zeroed, cursor at the store's start, and the balances snapshotted
/// (the spendable round balance excludes what is already reserved for
/// claimants).
fn create_drawing(state: &mut LottoState, round_no: u64, winning_numbers: Vec<u16>, contract_balance: u128)
    requires
        old(state).wf(),
        old(state).round_status == RoundStatus::Drawing,
        round_no == old(state).round_no,
        !old(state).spec_has_current_drawing(),
        crate::state::spec_numbers_valid(
            winning_numbers@,
            old(state).number_count,
            old(state).max_number,
        ),
        old(state).balance_claimable <= contract_balance,
        old(state).min_balance + contract_balance <= MAX_POT_SIZE,
    ensures
        final(state).wf(),
        final(state).spec_has_current_drawing(),
        final(state).drawings@ == old(state).drawings@.push(
            final(state).drawings@.last(),
        ),
        ({
            let d = final(state).drawings@.last().drawing;
            &&& final(state).drawings@.last().round_no == round_no
            &&& d.winning_numbers == winning_numbers
            &&& d.ticket_count == old(state).ticket_count
            &&& d.processed_ticket_count == 0
            &&& d.cursor == 0
            &&& d.round_balance == contract_balance - old(state).balance_claimable
            &&& d.start_balance == old(state).min_balance
            &&& d.match_counts@.len() == winning_numbers@.len() + 1
            &&& (forall|i: int| 0 <= i < d.match_counts@.len() ==> d.match_counts@[i] == 0)
            &&& d.round_no is None
        }),
        *final(state) == (LottoState { drawings: final(state).drawings, ..*old(state) }),
{
    let taxable_balance = contract_balance - state.balance_claimable;
    let buckets = winning_numbers.len() + 1;
    let match_counts = zeros_u16(buckets);
    let drawing = Drawing {
        round_no: None,
        ticket_count: state.ticket_count,
        round_balance: taxable_balance,
        start_balance: state.min_balance,
        pot_payout: 0,
        incentive_payout: 0,
        total_payout: 0,
        processed_ticket_count: 0,
        cursor: 0,
        winning_numbers,
        match_counts,
    };
    state.drawings.push(DrawingEntry { round_no, drawing });
    proof {
        let d = state.drawings@.last().drawing;
        assert(spec_mc_view(d.match_counts@).len() == d.winning_numbers@.len() + 1);
        crate::state::lemma_sum_zeros(spec_mc_view(d.match_counts@));
        assert(spec_tickets_view(state.tickets@).take(0)
            =~= Seq::<crate::state::TicketEntryView>::empty());
        let di = final(state).spec_current_drawing_idx();
        if di != final(state).drawings@.len() - 1 {
            assert(old(state).drawings@[di].round_no == round_no);
            assert(old(state).spec_has_current_drawing());
            assert(false);
        }
        assert(final(state).wf());
    }
}

/// The full effect of one batch step on `pre`, yielding `post` and
/// `resp`: the next cursor-bounded slice is scored exactly as the scan
/// fold describes, completion holds iff the fold covers the snapshot, and
/// a completing step settles the totals, reserves them, and reports the
/// treasury reconciliation.
pub open spec fn spec_batch_step_ok(
    pre: LottoState,
    post: LottoState,
    resp: DrawResponse,
    round_no: u64,
) -> bool {
    let di = pre.spec_current_drawing_idx();
    let d0 = pre.drawings@[di].drawing;
    let tv = spec_tickets_view(pre.tickets@);
    let k = if pre.batch_size as int <= tv.len() - d0.cursor {
        pre.batch_size as int
    } else {
        tv.len() - d0.cursor
    };
    let acc1 = crate::scan::spec_scan_fold(
        spec_scan_acc_of(pre, d0),
        tv.subrange(d0.cursor as int, d0.cursor + k),
        d0.winning_numbers@,
        pre.payouts@,
        round_no,
    );
    &&& post.wf()
    &&& (resp.is_complete ==> post.round_status == RoundStatus::Active && post.round_no
        == pre.round_no + 1 && post.ticket_count == 0 && post.tickets@.len() == 0)
    &&& (!resp.is_complete ==> post.round_status == RoundStatus::Drawing && post.round_no
        == pre.round_no)
    &&& (resp.is_complete <==> resp.action is SettleHouse)
    // the batch scored exactly the next cursor-bounded slice
    &&& (resp.is_complete <==> acc1.processed == d0.ticket_count)
    &&& spec_claims_view(post.claims@) == acc1.claims
    &&& spec_jackpots_view(post.jackpot_claimants@) == acc1.jackpots
    &&& spec_claim_tickets_view(post.claim_tickets@) == acc1.claim_tickets
    &&& post.drawings@.len() == pre.drawings@.len()
    // earlier rounds' drawings are never touched again
    &&& (forall|j: int|
        0 <= j < pre.drawings@.len() && j != di ==> post.drawings@[j] == pre.drawings@[j])
    &&& post.drawings@[di].round_no == round_no
    &&& ({
        let d1 = post.drawings@[di].drawing;
        &&& spec_mc_view(d1.match_counts@) == acc1.match_counts
        &&& d1.processed_ticket_count == acc1.processed
        &&& d1.ticket_count == d0.ticket_count
        &&& d1.winning_numbers == d0.winning_numbers
        &&& d1.round_balance == d0.round_balance
        &&& d1.start_balance == d0.start_balance
        &&& (!resp.is_complete ==> d1.cursor == d0.cursor + k)
    })
    // completion settles: totals fixed, reserve increased, and the
    // treasury reconciliation returned
    &&& (resp.is_complete ==> ({
        let pot = d0.start_balance + d0.round_balance;
        let inc = crate::util::spec_incentive_total(pre.payouts@, acc1.match_counts);
        let net = crate::util::spec_pot_net(pre.payouts@, acc1.match_counts, pot);
        let tax = crate::util::spec_pot_tax(pre.payouts@, acc1.match_counts, pot);
        let d1 = post.drawings@[di].drawing;
        &&& post.balance_claimable == pre.balance_claimable + inc + net
        &&& d1.pot_payout == net
        &&& d1.incentive_payout == inc
        &&& d1.total_payout == inc + net
        &&& d1.cursor == 0
        &&& (resp.action matches DrawAction::SettleHouse { incoming, outgoing } ==> outgoing
            == inc + net && incoming == (if !pre.rolling {
            d0.round_balance as int
        } else if d0.round_balance >= inc + net + tax {
            inc + net + tax
        } else {
            d0.round_balance as int
        }))
    }))
    &&& (!resp.is_complete ==> post.balance_claimable == pre.balance_claimable)
}

/// Continues a round's scan: one more bounded batch, and — when the scan
/// has covered the whole snapshot — settlement and rollover.
pub fn process_next_ticket_batch(state: &mut LottoState, round_no: u64, time: u64) -> (r: Result<
    DrawResponse,
    ContractError,
>)
    requires
        old(state).wf(),
        old(state).round_status == RoundStatus::Drawing,
        round_no == old(state).round_no,
        old(state).round_no < u64::MAX,
        forall|i: int|
            0 <= i < old(state).payouts@.len() ==> #[trigger] old(state).payouts@[i].incentive
                <= MAX_TIER_INCENTIVE,
        old(state).balance_claimable <= MAX_CLAIMABLE,
    ensures
        r.is_err() ==> *final(state) == *old(state) && r == Err::<DrawResponse, ContractError>(
            ContractError::DrawingNotFound,
        ) && !old(state).spec_has_current_drawing(),
        r.is_ok() <==> old(state).spec_has_current_drawing(),
        r matches Ok(resp) ==> spec_batch_step_ok(*old(state), *final(state), resp, round_no),
{
    process_next_page(state, round_no)?;
    proof {
        assert(old(state).spec_has_current_drawing());
    }

    let complete = match crate::state::find_drawing_idx(&state.drawings, round_no) {
        Some(di) => {
            proof {
                let c = old(state).spec_current_drawing_idx();
                if c != di as int {
                    assert(state.drawings@[c].round_no == state.drawings@[di as int].round_no);
                    assert(false);
                }
            }
            state.drawings[di].drawing.is_complete()
        },
        None => {
            proof {
                assert(false);
            }
            false
        },
    };

    if complete {
        proof {
            // the settlement step sees the same current drawing
            let c1 = state.spec_current_drawing_idx();
            let c0 = old(state).spec_current_drawing_idx();
            assert(state.spec_has_current_drawing());
            if c1 != c0 {
                assert(state.drawings@[c1].round_no == state.drawings@[c0].round_no);
                assert(false);
            }
        }
        let (incoming, outgoing) = end_draw(state, round_no, time);
        Ok(DrawResponse { is_complete: true, action: DrawAction::SettleHouse { incoming, outgoing } })
    } else {
        Ok(DrawResponse { is_complete: false, action: DrawAction::Noop })
    }
}

/// The effect of opening a drawing over a non-empty store: a drawing for
/// the round exists with the snapshot and balances fixed, its winning
/// numbers valid, and the store's opening slice already scored exactly as
/// the scan fold describes.
pub open spec fn spec_first_batch_ok(
    pre: LottoState,
    post: LottoState,
    resp: DrawResponse,
    round_no: u64,
    contract_balance: u128,
) -> bool {
    &&& post.spec_has_drawing(round_no)
    &&& ({
        let d = post.drawings@[post.spec_drawing_idx(round_no)].drawing;
        let tv = spec_tickets_view(pre.tickets@);
        let k = if pre.batch_size as int <= tv.len() {
            pre.batch_size as int
        } else {
            tv.len() as int
        };
        let acc1 = crate::scan::spec_scan_fold(
            spec_start_acc(pre, d.winning_numbers@),
            tv.subrange(0, k),
            d.winning_numbers@,
            pre.payouts@,
            round_no,
        );
        &&& d.ticket_count == pre.ticket_count
        &&& crate::state::spec_numbers_valid(
            d.winning_numbers@,
            pre.number_count,
            pre.max_number,
        )
        &&& d.round_balance == contract_balance - pre.balance_claimable
        &&& d.start_balance == pre.min_balance
        &&& (resp.is_complete <==> d.processed_ticket_count == d.ticket_count)
        // the first batch scored exactly the store's opening slice
        &&& spec_claims_view(post.claims@) == acc1.claims
        &&& spec_jackpots_view(post.jackpot_claimants@) == acc1.jackpots
        &&& spec_claim_tickets_view(post.claim_tickets@) == acc1.claim_tickets
        &&& spec_mc_view(d.match_counts@) == acc1.match_counts
        &&& d.processed_ticket_count == acc1.processed
        &&& (resp.is_complete <==> acc1.processed == pre.ticket_count)
    })
}

/// Begins the drawing for a round that has reached its end, using the
/// built-in deterministic generator: snapshots balances, fixes the winning
/// numbers, and scores the first batch immediately — settling outright
/// when one batch suffices, and parking the round in Drawing state
/// otherwise.  A round that sold no tickets settles trivially.
fn start_processing_tickets(state: &mut LottoState, round_no: u64, env: &DrawEnv, entropy: &Vec<u8>) -> (r: Result<
    DrawResponse,
    ContractError,
>)
    requires
        old(state).wf(),
        old(state).round_status == RoundStatus::Active,
        round_no == old(state).round_no,
        old(state).round_no < u64::MAX,
        old(state).balance_claimable <= env.contract_balance,
        old(state).min_balance + env.contract_balance <= MAX_POT_SIZE,
        forall|i: int|
            0 <= i < old(state).payouts@.len() ==> #[trigger] old(state).payouts@[i].incentive
                <= MAX_TIER_INCENTIVE,
        old(state).balance_claimable <= MAX_CLAIMABLE,
    ensures
        r matches Ok(resp) ==> ({
            &&& final(state).wf()
            &&& (resp.is_complete ==> final(state).round_status == RoundStatus::Active
                && final(state).round_no == old(state).round_no + 1 && final(state).ticket_count
                == 0 && final(state).tickets@.len() == 0)
            &&& (!resp.is_complete ==> final(state).round_status == RoundStatus::Drawing
                && final(state).round_no == old(state).round_no)
            &&& (old(state).ticket_count == 0 ==> resp.is_complete && resp.action is Noop
                && final(state).drawings == old(state).drawings && final(state).claims == old(
                state,
            ).claims && final(state).balance_claimable == old(state).balance_claimable)
            &&& (resp.is_complete ==> resp.action is SettleHouse || old(state).ticket_count == 0)
            // a round with tickets gets a drawing: balances snapshotted,
            // valid winning numbers, the first batch already scored
            &&& (old(state).ticket_count > 0 ==> spec_first_batch_ok(
                *old(state),
                *final(state),
                resp,
                round_no,
                env.contract_balance,
            ))
        }),
        r.is_ok(),
{
    if state.ticket_count == 0 {
        // No tickets were sold: settle trivially and open the next round.
        reset_round_state(state, env.time);
        return Ok(DrawResponse { is_complete: true, action: DrawAction::Noop });
    }

    let winning_numbers = crate::state::draw_winning_numbers(
        state,
        env.time_nanos,
        env.height,
        env.tx_index,
        &env.contract_addr,
        entropy,
    );

    state.round_status = RoundStatus::Drawing;
    proof {
        assert(state.wf());
        assert(!state.spec_has_current_drawing());
    }
    create_drawing(state, round_no, winning_numbers, env.contract_balance);
    let ghost mid = *state;

    let r = process_next_ticket_batch(state, round_no, env.time);
    proof {
        // the batch scored the drawing just created, wherever the final
        // state keeps it
        let ci = mid.spec_current_drawing_idx();
        let c2 = mid.spec_drawing_idx(round_no);
        if c2 != ci {
            assert(mid.drawings@[c2].round_no == mid.drawings@[ci].round_no);
            assert(false);
        }
        if state.spec_has_drawing(round_no) {
            let cf = state.spec_drawing_idx(round_no);
            if cf != ci {
                assert(state.drawings@[cf].round_no == state.drawings@[ci].round_no);
                assert(false);
            }
        }
        assert(state.spec_has_drawing(round_no));
        // the created drawing's accumulator is the fresh start accumulator
        let d0 = mid.drawings@[ci].drawing;
        assert(spec_mc_view(d0.match_counts@) =~= Seq::new(
            d0.winning_numbers@.len() + 1,
            |_i: int| 0int,
        ));
        assert(spec_scan_acc_of(mid, d0) == spec_start_acc(*old(state), d0.winning_numbers@));
    }
    r
}

/// Installs the drawing for a round that was parked awaiting the
/// randomness callback: the delivered bytes seed the winning numbers, and
/// batch scoring begins on the next `advance`.
fn init_drawing_with_callback(state: &mut LottoState, round_no: u64, env: &DrawEnv, entropy: &Vec<u8>) -> (r: Result<
    DrawResponse,
    ContractError,
>)
    requires
        old(state).wf(),
        old(state).round_status == RoundStatus::Drawing,
        round_no == old(state).round_no,
        !old(state).spec_has_current_drawing(),
        old(state).balance_claimable <= env.contract_balance,
        old(state).min_balance + env.contract_balance <= MAX_POT_SIZE,
    ensures
        r.is_ok(),
        r matches Ok(resp) ==> ({
            &&& final(state).wf()
            &&& !resp.is_complete
            &&& final(state).round_status == RoundStatus::Drawing
            &&& final(state).round_no == old(state).round_no
            &&& final(state).spec_has_current_drawing()
            &&& ({
                let d = final(state).drawings@[final(state).spec_current_drawing_idx()].drawing;
                &&& d.ticket_count == old(state).ticket_count
                &&& d.processed_ticket_count == 0
                &&& d.cursor == 0
                &&& d.round_balance == env.contract_balance - old(state).balance_claimable
                &&& d.start_balance == old(state).min_balance
                &&& crate::state::spec_numbers_valid(
                    d.winning_numbers@,
                    old(state).number_count,
                    old(state).max_number,
                )
                &&& d.match_counts@.len() == d.winning_numbers@.len() + 1
            })
        }),
{
    let winning_numbers = crate::state::draw_winning_numbers(
        state,
        env.time_nanos,
        env.height,
        env.tx_index,
        &env.contract_addr,
        entropy,
    );
    let ghost nv = winning_numbers@;
    create_drawing(state, round_no, winning_numbers, env.contract_balance);
    proof {
        let di = state.spec_current_drawing_idx();
        let last = state.drawings@.len() - 1;
        if di != last {
            assert(state.drawings@[di].round_no == state.drawings@[last].round_no);
            assert(false);
        }
    }
    Ok(DrawResponse { is_complete: false, action: DrawAction::Noop })
}

/// The state machine's sole entry point: one `advance` step.
///
/// In an active round past its end time it snapshots balances and begins
/// the drawing — through the configured randomness beacon (emitting a
/// request and parking the round until the beacon's callback arrives, whose
/// sender identity must match the beacon) or the built-in deterministic
/// generator.  In a drawing round it scores the next bounded batch, and on
/// the final batch settles every total and rolls the round over.  Only the
/// single designated drawer may drive it; while the round is parked
/// awaiting the beacon, only the beacon's callback advances it.
pub fn draw(
    state: &mut LottoState,
    sender: &String,
    maybe_callback: Option<CallbackMsg>,
    env: &DrawEnv,
) -> (r: Result<DrawResponse, ContractError>)
    requires
        old(state).wf(),
        old(state).round_start + old(state).round_seconds <= u64::MAX,
        old(state).round_no < u64::MAX,
        old(state).balance_claimable <= env.contract_balance,
        old(state).min_balance + env.contract_balance <= MAX_POT_SIZE,
        forall|i: int|
            0 <= i < old(state).payouts@.len() ==> #[trigger] old(state).payouts@[i].incentive
                <= MAX_TIER_INCENTIVE,
        old(state).balance_claimable <= MAX_CLAIMABLE,
    ensures
        r.is_err() ==> *final(state) == *old(state),
        r matches Ok(resp) ==> ({
            &&& final(state).wf()
            // once a round completes, the next round starts fresh: ticket
            // store cleared, counter advanced, sales reopened
            &&& (resp.is_complete ==> final(state).round_status == RoundStatus::Active
                && final(state).round_no == old(state).round_no + 1 && final(state).ticket_count
                == 0 && final(state).tickets@.len() == 0)
            &&& (!resp.is_complete ==> final(state).round_status == RoundStatus::Drawing
                && final(state).round_no == old(state).round_no)
            // a completed step either settled a scan or closed an empty round
            &&& (resp.is_complete ==> resp.action is SettleHouse || old(state).ticket_count == 0)
        }),
        // only the designated drawer advances the machine; only the beacon
        // answers while the round is parked awaiting its callback
        ({
            let awaiting = old(state).nois_proxy is Some && old(state).round_status
                == RoundStatus::Drawing && !old(state).spec_has_current_drawing();
            &&& (!awaiting && old(state).drawer@ != sender@ ==> r == Err::<
                DrawResponse,
                ContractError,
            >(ContractError::NotAuthorized))
            &&& (awaiting && maybe_callback is None ==> r == Err::<DrawResponse, ContractError>(
                ContractError::WaitingForRandomness,
            ))
            &&& (awaiting && maybe_callback is Some && old(state).nois_proxy->0@ != sender@
                ==> r == Err::<DrawResponse, ContractError>(ContractError::NotAuthorized))
        }),
        old(state).round_status == RoundStatus::Active && old(state).round_start + old(
            state,
        ).round_seconds > env.time && old(state).drawer@ == sender@ ==> r == Err::<
            DrawResponse,
            ContractError,
        >(ContractError::ActiveRound),
        // success is owed on every input the round can act on
        old(state).round_status == RoundStatus::Active && old(state).round_start + old(
            state,
        ).round_seconds <= env.time && old(state).drawer@ == sender@ ==> r.is_ok(),
        // opening a drawing over a non-empty store scores its first batch
        old(state).nois_proxy is None && old(state).round_status == RoundStatus::Active && old(
            state,
        ).round_start + old(state).round_seconds <= env.time && old(state).drawer@ == sender@
            && old(state).ticket_count > 0 ==> (r matches Ok(resp) && spec_first_batch_ok(
            *old(state),
            *final(state),
            resp,
            old(state).round_no,
            env.contract_balance,
        )),
        // a continuation step is exactly one batch of the scan
        old(state).round_status == RoundStatus::Drawing && old(state).spec_has_current_drawing()
            && old(state).drawer@ == sender@ ==> (r matches Ok(resp) && spec_batch_step_ok(
            *old(state),
            *final(state),
            resp,
            old(state).round_no,
        )),
        maybe_callback matches Some(cb) && old(state).nois_proxy is Some && old(
            state,
        ).round_status == RoundStatus::Drawing && !old(state).spec_has_current_drawing() && old(
            state,
        ).nois_proxy->0@ == sender@ && cb.round_no == old(state).round_no ==> r.is_ok(),
        // a round that sold no tickets settles trivially and completes:
        // no drawing is recorded, nothing is owed
        old(state).round_status == RoundStatus::Active && old(state).round_start + old(
            state,
        ).round_seconds <= env.time && old(state).drawer@ == sender@ && old(state).ticket_count
            == 0 ==> (r matches Ok(resp) && resp.is_complete && resp.action is Noop
            && final(state).drawings == old(state).drawings && final(state).balance_claimable
            == old(state).balance_claimable && final(state).claims == old(state).claims),
        // requesting randomness parks the round with the round number as
        // the correlation id
        old(state).nois_proxy is Some && old(state).round_status == RoundStatus::Active && old(
            state,
        ).round_start + old(state).round_seconds <= env.time && old(state).drawer@ == sender@
            && old(state).ticket_count > 0 ==> (r matches Ok(resp) && !resp.is_complete
            && resp.action == (DrawAction::RequestRandomness { job_id: old(state).round_no })),
{
    let round_no = state.round_no;

    // The round parked awaiting the beacon's callback is the one window
    // where the beacon, not the drawer, is the expected caller.
    let has_drawing = match crate::state::find_drawing_idx(&state.drawings, round_no) {
        Some(_) => true,
        None => false,
    };
    let awaiting_callback = state.nois_proxy.is_some() && state.round_status
        == RoundStatus::Drawing && !has_drawing;
    if !awaiting_callback && *sender != state.drawer {
        return Err(ContractError::NotAuthorized);
    }

    match &state.nois_proxy {
        Some(proxy_addr) => {
            let proxy: String = proxy_addr.clone();
            match state.round_status {
                RoundStatus::Active => {
                    // The drawer requests randomness; the round parks in
                    // Drawing state until the beacon answers.
                    ensure_round_can_end(state, env.time)?;
                    if state.ticket_count == 0 {
                        reset_round_state(state, env.time);
                        return Ok(
                            DrawResponse { is_complete: true, action: DrawAction::Noop },
                        );
                    }
                    state.round_status = RoundStatus::Drawing;
                    proof {
                        assert(state.wf());
                    }
                    Ok(
                        DrawResponse {
                            is_complete: false,
                            action: DrawAction::RequestRandomness { job_id: round_no },
                        },
                    )
                },
                RoundStatus::Drawing => {
                    if has_drawing {
                        // Keep scoring the next batch.
                        process_next_ticket_batch(state, round_no, env.time)
                    } else {
                        // Awaiting the beacon: only its callback advances us.
                        match maybe_callback {
                            Some(cb) => {
                                if *sender != proxy {
                                    return Err(ContractError::NotAuthorized);
                                }
                                if cb.round_no != round_no {
                                    return Err(ContractError::InvalidRoundNo);
                                }
                                init_drawing_with_callback(state, round_no, env, &cb.randomness)
                            },
                            None => Err(ContractError::WaitingForRandomness),
                        }
                    }
                },
            }
        },
        None => {
            // Built-in deterministic generator; the same single drawer
            // drives it.
            match state.round_status {
                RoundStatus::Active => {
                    ensure_round_can_end(state, env.time)?;
                    let entropy: Vec<u8> = Vec::new();
                    start_processing_tickets(state, round_no, env, &entropy)
                },
                RoundStatus::Drawing => {
                    process_next_ticket_batch(state, round_no, env.time)
                },
            }
        },
    }
}

} // verus!
