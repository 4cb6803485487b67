use vstd::prelude::*;

use crate::error::ContractError;
use crate::state::{
    ensure_sender_is_allowed, process_claim, spec_claim_tickets_view, spec_drop_owner_tickets,
    spec_jackpots_view, spec_sender_allowed, LottoState, MAX_TIER_INCENTIVE,
};

verus! {

/// Rejects `address`'s pending claim: the claim, its retained tickets and
/// any jackpot flag are removed and the reserved share of the claimable
/// balance is released, with no payment and no account update.
pub fn reject(state: &mut LottoState, sender: &String, acl_allows: bool, address: &String) -> (r:
    Result<(), ContractError>)
    requires
        old(state).wf(),
        forall|i: int|
            0 <= i < old(state).payouts@.len() ==> #[trigger] old(state).payouts@[i].incentive
                <= MAX_TIER_INCENTIVE,
        old(state).spec_settled_amount(address@) <= old(state).balance_claimable,
    ensures
        r.is_err() ==> *final(state) == *old(state),
        !spec_sender_allowed(old(state).owner, sender@, acl_allows) ==> r == Err::<
            (),
            ContractError,
        >(ContractError::NotAuthorized),
        spec_sender_allowed(old(state).owner, sender@, acl_allows) && !old(state).spec_has_claim(
            address@,
        ) ==> r == Err::<(), ContractError>(ContractError::ClaimNotFound),
        r.is_ok() <==> (spec_sender_allowed(old(state).owner, sender@, acl_allows) && old(
            state,
        ).spec_has_claim(address@) && old(state).spec_has_drawing(
            old(state).claims@[old(state).spec_claim_idx(address@)].claim.round_no,
        )),
        r.is_ok() ==> ({
            let ci = old(state).spec_claim_idx(address@);
            &&& old(state).spec_has_claim(address@)
            &&& final(state).wf()
            &&& final(state).claims@ == old(state).claims@.remove(ci)
            &&& final(state).balance_claimable == old(state).balance_claimable - old(
                state,
            ).spec_settled_amount(address@)
            &&& final(state).accounts == old(state).accounts
            // the claim's retained tickets and any jackpot flag go with it
            &&& spec_claim_tickets_view(final(state).claim_tickets@) == spec_drop_owner_tickets(
                spec_claim_tickets_view(old(state).claim_tickets@),
                address@,
            )
            &&& !spec_jackpots_view(final(state).jackpot_claimants@).contains(address@)
        }),
{
    ensure_sender_is_allowed(state, sender, acl_allows)?;

    match process_claim(state, address, true) {
        Ok(_) => Ok(()),
        Err(e) => Err(e),
    }
}

} // verus!
