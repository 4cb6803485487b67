use vstd::prelude::*;

use crate::error::ContractError;
use crate::msg::ClaimView;
use crate::state::{
    find_claim_idx, find_drawing_idx, LottoState, MAX_TIER_INCENTIVE,
};
use crate::util::{calc_total_claim_amount, copy_claim};

verus! {

/// One pending-approval view is faithful: it carries the recorded
/// claimant's stored claim — its round, match counts and approval flag —
/// and a freshly recomputed amount.
pub open spec fn spec_pending_view_ok(s: LottoState, owner: Seq<char>, v: ClaimView) -> bool {
    &&& s.spec_has_claim(owner)
    &&& ({
        let c = s.claims@[s.spec_claim_idx(owner)].claim;
        &&& v.owner@ == owner
        &&& v.round_no == c.round_no
        &&& v.matches@ == c.matches@
        &&& v.is_approved == c.is_approved
        &&& v.amount is Some
        &&& v.amount->0 as int == s.spec_recomputed_amount(s.spec_claim_idx(owner))
    })
}

/// Every claim currently blocked on admin approval: one view per recorded
/// jackpot claimant, with the amount recomputed.  Fails only when a
/// recorded claimant's claim or its drawing is missing.
pub fn claims_pending_approval(s: &LottoState) -> (r: Result<Vec<ClaimView>, ContractError>)
    requires
        s.wf(),
        forall|i: int|
            0 <= i < s.payouts@.len() ==> #[trigger] s.payouts@[i].incentive
                <= MAX_TIER_INCENTIVE,
    ensures
        r.is_ok() <==> (forall|k: int|
            0 <= k < s.jackpot_claimants@.len() ==> s.spec_has_claim(
                #[trigger] s.jackpot_claimants@[k]@,
            ) && s.spec_has_drawing(
                s.claims@[s.spec_claim_idx(s.jackpot_claimants@[k]@)].claim.round_no,
            )),
        r matches Ok(views) ==> views@.len() == s.jackpot_claimants@.len() && (forall|k: int|
            0 <= k < views@.len() ==> spec_pending_view_ok(
                *s,
                s.jackpot_claimants@[k]@,
                #[trigger] views@[k],
            )),
{
    let mut views: Vec<ClaimView> = Vec::new();
    let mut k: usize = 0;
    while k < s.jackpot_claimants.len()
        invariant
            s.wf(),
            forall|i: int|
                0 <= i < s.payouts@.len() ==> #[trigger] s.payouts@[i].incentive
                    <= MAX_TIER_INCENTIVE,
            k <= s.jackpot_claimants@.len(),
            views@.len() == k,
            forall|j: int|
                0 <= j < k ==> spec_pending_view_ok(
                    *s,
                    s.jackpot_claimants@[j]@,
                    #[trigger] views@[j],
                ),
            forall|j: int|
                0 <= j < k ==> s.spec_has_claim(#[trigger] s.jackpot_claimants@[j]@)
                    && s.spec_has_drawing(
                    s.claims@[s.spec_claim_idx(s.jackpot_claimants@[j]@)].claim.round_no,
                ),
        decreases s.jackpot_claimants@.len() - k,
    {
        let addr = &s.jackpot_claimants[k];
        let ci = match find_claim_idx(&s.claims, addr) {
            Some(i) => i,
            None => {
                proof {
                    assert(!s.spec_has_claim(s.jackpot_claimants@[k as int]@));
                }
                return Err(ContractError::ClaimNotFound);
            },
        };
        proof {
            let c = s.spec_claim_idx(addr@);
            if c != ci as int {
                assert(s.claims@[c].owner@ == s.claims@[ci as int].owner@);
                assert(false);
            }
        }
        let round_no = s.claims[ci].claim.round_no;
        let di = match find_drawing_idx(&s.drawings, round_no) {
            Some(i) => i,
            None => {
                proof {
                    assert(s.spec_has_claim(s.jackpot_claimants@[k as int]@));
                    assert(!s.spec_has_drawing(round_no));
                }
                return Err(ContractError::DrawingNotFound);
            },
        };
        proof {
            let c = s.spec_drawing_idx(round_no);
            if c != di as int {
                assert(s.drawings@[c].round_no == s.drawings@[di as int].round_no);
                assert(false);
            }
            let cm = crate::state::spec_mc_view(s.claims@[ci as int].claim.matches@);
            let d = s.drawings@[di as int].drawing;
            if cm.len() >= 1 {
                crate::util::lemma_claim_amount_bound(
                    cm,
                    crate::state::spec_mc_view(d.match_counts@),
                    s.payouts@,
                    d.start_balance + d.round_balance,
                    cm.len() as int,
                );
                assert(cm.len() as int * (MAX_TIER_INCENTIVE as int * 0xFFFF
                    + crate::state::MAX_POT_SIZE as int) <= 256 * (MAX_TIER_INCENTIVE as int
                    * 0xFFFF + crate::state::MAX_POT_SIZE as int)) by (nonlinear_arith)
                    requires
                        cm.len() <= 256,
                ;
            }
        }
        let amount = calc_total_claim_amount(
            &s.claims[ci].claim,
            &s.drawings[di].drawing,
            &s.payouts,
        );
        proof {
            assert(amount as int == s.spec_recomputed_amount(ci as int));
        }
        let c = copy_claim(&s.claims[ci].claim);
        views.push(
            ClaimView {
                owner: addr.clone(),
                round_no: c.round_no,
                amount: Some(amount),
                tickets: c.tickets,
                matches: c.matches,
                is_approved: c.is_approved,
            },
        );
        proof {
            assert(spec_pending_view_ok(
                *s,
                s.jackpot_claimants@[k as int]@,
                views@.last(),
            ));
        }
        k += 1;
    }
    Ok(views)
}

} // verus!
