use vstd::prelude::*;

use crate::error::ContractError;
use crate::models::Claim;
use crate::state::{ensure_sender_is_allowed, spec_sender_allowed, LottoState};

verus! {

/// Clears the approval gate on `address`'s pending claim.  Only the
/// configured authority may approve, a missing claim is reported, and a
/// claim cannot be approved twice.
pub fn approve(state: &mut LottoState, sender: &String, acl_allows: bool, address: &String) -> (r:
    Result<(), ContractError>)
    requires
        old(state).wf(),
    ensures
        r.is_err() ==> *final(state) == *old(state),
        !spec_sender_allowed(old(state).owner, sender@, acl_allows) ==> r == Err::<
            (),
            ContractError,
        >(ContractError::NotAuthorized),
        spec_sender_allowed(old(state).owner, sender@, acl_allows) && !old(state).spec_has_claim(
            address@,
        ) ==> r == Err::<(), ContractError>(ContractError::ClaimNotFound),
        spec_sender_allowed(old(state).owner, sender@, acl_allows) && old(state).spec_has_claim(
            address@,
        ) && old(state).claims@[old(state).spec_claim_idx(address@)].claim.is_approved ==> r
            == Err::<(), ContractError>(ContractError::NotAuthorized),
        r.is_ok() <==> (spec_sender_allowed(old(state).owner, sender@, acl_allows) && old(
            state,
        ).spec_has_claim(address@) && !old(state).claims@[old(state).spec_claim_idx(
            address@,
        )].claim.is_approved),
        r.is_ok() ==> ({
            let ci = old(state).spec_claim_idx(address@);
            &&& final(state).wf()
            &&& final(state).claims@.len() == old(state).claims@.len()
            &&& (forall|j: int|
                0 <= j < old(state).claims@.len() && j != ci ==> final(state).claims@[j]
                    == old(state).claims@[j])
            &&& final(state).claims@[ci].owner == old(state).claims@[ci].owner
            &&& final(state).claims@[ci].claim == (Claim {
                is_approved: true,
                ..old(state).claims@[ci].claim
            })
            &&& *final(state) == (LottoState { claims: final(state).claims, ..*old(state) })
        }),
{
    ensure_sender_is_allowed(state, sender, acl_allows)?;

    let ci = match crate::state::find_claim_idx(&state.claims, address) {
        Some(i) => i,
        None => {
            return Err(ContractError::ClaimNotFound);
        },
    };
    proof {
        let c = state.spec_claim_idx(address@);
        if c != ci as int {
            assert(state.claims@[c].owner@ == state.claims@[ci as int].owner@);
            assert(false);
        }
    }
    if state.claims[ci].claim.is_approved {
        // no re-approval of an approved claim
        return Err(ContractError::NotAuthorized);
    }
    state.claims[ci].claim.is_approved = true;
    proof {
        assert(final(state).wf());
    }
    Ok(())
}

} // verus!
