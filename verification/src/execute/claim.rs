use vstd::prelude::*;

use crate::error::ContractError;
use crate::models::{PaymentMsg, RoundStatus};
use crate::state::{
    LottoState, MAX_TIER_INCENTIVE, process_claim, require_active_game_state,
};

verus! {

/// Whether the claim at `ci` includes an unapproved jackpot win: its top
/// (all-numbers) tier counts at least one ticket and no admin has cleared
/// it yet.
pub open spec fn spec_jackpot_pending(s: LottoState, ci: int) -> bool {
    let c = s.claims@[ci].claim;
    &&& c.matches@.len() > 0
    &&& c.matches@.last() > 0
    &&& !c.is_approved
}

/// Settles the caller's pending claim.  While the approval gate is
/// enabled, a claim that includes the jackpot tier cannot be settled until
/// an admin approves it; rejection is the admin's alternative.  On success
/// the claim is removed, its reserved share of the claimable balance is
/// released, the account totals are updated, and a transfer of the
/// recomputed amount is requested when it is non-zero.
pub fn claim(state: &mut LottoState, sender: &String) -> (r: Result<
    Option<PaymentMsg>,
    ContractError,
>)
    requires
        old(state).wf(),
        forall|i: int|
            0 <= i < old(state).payouts@.len() ==> #[trigger] old(state).payouts@[i].incentive
                <= MAX_TIER_INCENTIVE,
        old(state).spec_settled_amount(sender@) <= old(state).balance_claimable,
        old(state).spec_has_account(sender@) ==> old(state).accounts@[old(state).spec_account_idx(
            sender@,
        )].account.totals.wins + 0x100_0000 <= u32::MAX,
        old(state).spec_has_account(sender@) ==> old(state).accounts@[old(state).spec_account_idx(
            sender@,
        )].account.totals.winnings + old(state).spec_settled_amount(sender@) <= u128::MAX,
    ensures
        r.is_err() ==> *final(state) == *old(state),
        old(state).round_status != RoundStatus::Active ==> r == Err::<
            Option<PaymentMsg>,
            ContractError,
        >(ContractError::NotActive),
        old(state).round_status == RoundStatus::Active && !old(state).spec_has_claim(sender@)
            ==> r == Err::<Option<PaymentMsg>, ContractError>(ContractError::ClaimNotFound),
        old(state).round_status == RoundStatus::Active && old(state).spec_has_claim(sender@)
            && old(state).use_approval && spec_jackpot_pending(
            *old(state),
            old(state).spec_claim_idx(sender@),
        ) ==> r == Err::<Option<PaymentMsg>, ContractError>(ContractError::PendingApproval),
        r.is_ok() <==> (old(state).round_status == RoundStatus::Active && old(
            state,
        ).spec_has_claim(sender@) && !(old(state).use_approval && spec_jackpot_pending(
            *old(state),
            old(state).spec_claim_idx(sender@),
        )) && old(state).spec_has_drawing(
            old(state).claims@[old(state).spec_claim_idx(sender@)].claim.round_no,
        ) && old(state).spec_has_account(sender@)),
        r matches Ok(p) ==> ({
            let ci = old(state).spec_claim_idx(sender@);
            let amount = old(state).spec_settled_amount(sender@);
            &&& old(state).spec_has_claim(sender@)
            &&& (old(state).use_approval ==> !spec_jackpot_pending(*old(state), ci))
            &&& final(state).wf()
            &&& final(state).claims@ == old(state).claims@.remove(ci)
            &&& final(state).balance_claimable == old(state).balance_claimable - amount
            &&& (match p {
                Some(pay) => amount > 0 && pay.amount == amount && pay.recipient@ == sender@,
                None => amount == 0,
            })
        }),
{
    require_active_game_state(state)?;

    let ci = match crate::state::find_claim_idx(&state.claims, sender) {
        Some(i) => i,
        None => {
            return Err(ContractError::ClaimNotFound);
        },
    };
    proof {
        let c = state.spec_claim_idx(sender@);
        if c != ci as int {
            assert(state.claims@[c].owner@ == state.claims@[ci as int].owner@);
            assert(false);
        }
    }

    // While the approval gate is on, a jackpot win must be reviewed first.
    if state.use_approval {
        let matches_len = state.claims[ci].claim.matches.len();
        if matches_len > 0 {
            let jackpot_match_count = state.claims[ci].claim.matches[matches_len - 1];
            if jackpot_match_count > 0 && !state.claims[ci].claim.is_approved {
                return Err(ContractError::PendingApproval);
            }
        }
    }

    process_claim(state, sender, false)
}

} // verus!
