use vstd::prelude::*;

use crate::error::ContractError;
use crate::msg::ClaimResponse;
use crate::state::{
    find_claim_idx, find_drawing_idx, load_claim_tickets_by_account, LottoState,
    MAX_TIER_INCENTIVE,
};

verus! {

/// The pending claim of one owner, if any: its round, the recomputed
/// amount, and the retained winning tickets.
pub fn claim(s: &LottoState, address: &String) -> (r: Result<Option<ClaimResponse>, ContractError>)
    requires
        s.wf(),
        forall|i: int|
            0 <= i < s.payouts@.len() ==> #[trigger] s.payouts@[i].incentive
                <= MAX_TIER_INCENTIVE,
    ensures
        r matches Ok(Some(resp)) ==> s.spec_has_claim(address@) && resp.amount
            == s.spec_settled_amount(address@) && resp.round_no == s.claims@[s.spec_claim_idx(
            address@,
        )].claim.round_no,
        r matches Ok(o) && o is None ==> !s.spec_has_claim(address@) || !s.spec_has_drawing(
            s.claims@[s.spec_claim_idx(address@)].claim.round_no,
        ),
        r.is_ok(),
{
    let ci = match find_claim_idx(&s.claims, address) {
        Some(i) => i,
        None => {
            return Ok(None);
        },
    };
    proof {
        let c = s.spec_claim_idx(address@);
        if c != ci as int {
            assert(s.claims@[c].owner@ == s.claims@[ci as int].owner@);
            assert(false);
        }
    }
    let round_no = s.claims[ci].claim.round_no;
    let di = match find_drawing_idx(&s.drawings, round_no) {
        Some(i) => i,
        None => {
            return Ok(None);
        },
    };
    proof {
        let c = s.spec_drawing_idx(round_no);
        if c != di as int {
            assert(s.drawings@[c].round_no == s.drawings@[di as int].round_no);
            assert(false);
        }
        let cm = crate::state::spec_mc_view(s.claims@[ci as int].claim.matches@);
        let d = s.drawings@[di as int].drawing;
        if cm.len() >= 1 {
            crate::util::lemma_claim_amount_bound(
                cm,
                crate::state::spec_mc_view(d.match_counts@),
                s.payouts@,
                d.start_balance + d.round_balance,
                cm.len() as int,
            );
            assert(cm.len() as int * (MAX_TIER_INCENTIVE as int * 0xFFFF
                + crate::state::MAX_POT_SIZE as int) <= 256 * (MAX_TIER_INCENTIVE as int * 0xFFFF
                + crate::state::MAX_POT_SIZE as int)) by (nonlinear_arith)
                requires
                    cm.len() <= 256,
            ;
        }
    }
    let amount = crate::util::calc_total_claim_amount(
        &s.claims[ci].claim,
        &s.drawings[di].drawing,
        &s.payouts,
    );
    let winning_tickets = load_claim_tickets_by_account(s, address);

    Ok(Some(ClaimResponse { round_no, amount, winning_tickets }))
}

} // verus!
