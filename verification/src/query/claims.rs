use vstd::prelude::*;

use crate::error::ContractError;
use crate::models::Claim;
use crate::state::{
    find_claim_idx, find_drawing_idx, LottoState, MAX_TIER_INCENTIVE,
};
use crate::util::{calc_total_claim_amount, copy_claim};

verus! {

/// The largest page a claims listing returns.
pub const MAX_LIMIT: u8 = 50;

/// A page of pending claims in claim-creation (store) order, resuming
/// strictly after the cursor owner when one is given.  Every returned
/// claim carries a freshly recomputed amount; a claim whose drawing is
/// missing fails the query.

/// Where a page resumes: strictly after the cursor owner's claim, or at
/// the store's start.
pub open spec fn spec_page_start(s: LottoState, maybe_cursor: Option<String>) -> int {
    match maybe_cursor {
        Some(cur) => if s.spec_has_claim(cur@) {
            s.spec_claim_idx(cur@) + 1
        } else {
            0
        },
        None => 0,
    }
}

pub open spec fn spec_page_limit(maybe_limit: Option<u8>) -> int {
    match maybe_limit {
        Some(l) => l as int,
        None => MAX_LIMIT as int,
    }
}

/// What a returned page promises: bounded by the limit, exhausting the
/// store or the limit, and per entry the stored claim's round, matches and
/// approval flag with a freshly recomputed amount.
pub open spec fn spec_claims_page_ok(s: LottoState, start: int, limit: int, page: Seq<Claim>) -> bool {
    &&& page.len() <= limit
    &&& page.len() <= s.claims@.len() - start
    &&& (page.len() == limit || page.len() == s.claims@.len() - start)
    &&& (forall|k: int|
        0 <= k < page.len() ==> (#[trigger] page[k].round_no == s.claims@[start + k].claim.round_no
            && page[k].matches@ == s.claims@[start + k].claim.matches@ && page[k].is_approved
            == s.claims@[start + k].claim.is_approved && page[k].amount is Some
            && page[k].amount->0 as int == s.spec_recomputed_amount(start + k)))
}

#[verifier::rlimit(40)]
pub fn claims(s: &LottoState, maybe_cursor: Option<String>, maybe_limit: Option<u8>) -> (r: Result<
    Vec<Claim>,
    ContractError,
>)
    requires
        s.wf(),
        forall|i: int|
            0 <= i < s.payouts@.len() ==> #[trigger] s.payouts@[i].incentive
                <= MAX_TIER_INCENTIVE,
    ensures
        r.is_ok() <==> (forall|i: int|
            spec_page_start(*s, maybe_cursor) <= i < s.claims@.len() && i - spec_page_start(
                *s,
                maybe_cursor,
            ) < spec_page_limit(maybe_limit) ==> s.spec_has_drawing(
                #[trigger] s.claims@[i].claim.round_no,
            )),
        r matches Ok(page) ==> spec_claims_page_ok(
            *s,
            spec_page_start(*s, maybe_cursor),
            spec_page_limit(maybe_limit),
            page@,
        ),
{
    let limit: usize = match maybe_limit {
        Some(l) => l as usize,
        None => MAX_LIMIT as usize,
    };

    let start: usize = match &maybe_cursor {
        Some(cur) => {
            match find_claim_idx(&s.claims, cur) {
                Some(i) => {
                    proof {
                        let c = s.spec_claim_idx(cur@);
                        if c != i as int {
                            assert(s.claims@[c].owner@ == s.claims@[i as int].owner@);
                            assert(false);
                        }
                    }
                    if i < s.claims.len() {
                        i + 1
                    } else {
                        s.claims.len()
                    }
                },
                None => 0,
            }
        },
        None => 0,
    };

    let mut page: Vec<Claim> = Vec::new();
    let mut k: usize = start;
    while k < s.claims.len() && page.len() < limit
        invariant
            s.wf(),
            forall|i: int|
                0 <= i < s.payouts@.len() ==> #[trigger] s.payouts@[i].incentive
                    <= MAX_TIER_INCENTIVE,
            start <= k <= s.claims@.len(),
            start as int == spec_page_start(*s, maybe_cursor),
            limit as int == spec_page_limit(maybe_limit),
            page@.len() <= limit,
            page@.len() == k - start,
            forall|j: int|
                0 <= j < page@.len() ==> (#[trigger] page@[j].round_no == s.claims@[start
                    + j].claim.round_no && page@[j].matches@ == s.claims@[start + j].claim.matches@
                    && page@[j].is_approved == s.claims@[start + j].claim.is_approved
                    && page@[j].amount is Some && page@[j].amount->0 as int
                    == s.spec_recomputed_amount(start + j)),
            forall|j: int|
                start <= j < k ==> s.spec_has_drawing(#[trigger] s.claims@[j].claim.round_no),
        decreases s.claims@.len() - k,
    {
        let round_no = s.claims[k].claim.round_no;
        let di = match find_drawing_idx(&s.drawings, round_no) {
            Some(i) => i,
            None => {
                proof {
                    assert(!s.spec_has_drawing(s.claims@[k as int].claim.round_no));
                }
                return Err(ContractError::DrawingNotFound);
            },
        };
        proof {
            let c = s.spec_drawing_idx(round_no);
            if c != di as int {
                assert(s.drawings@[c].round_no == s.drawings@[di as int].round_no);
                assert(false);
            }
            let cm = crate::state::spec_mc_view(s.claims@[k as int].claim.matches@);
            let d = s.drawings@[di as int].drawing;
            if cm.len() >= 1 {
                crate::util::lemma_claim_amount_bound(
                    cm,
                    crate::state::spec_mc_view(d.match_counts@),
                    s.payouts@,
                    d.start_balance + d.round_balance,
                    cm.len() as int,
                );
                assert(cm.len() as int * (MAX_TIER_INCENTIVE as int * 0xFFFF
                    + crate::state::MAX_POT_SIZE as int) <= 256 * (MAX_TIER_INCENTIVE as int
                    * 0xFFFF + crate::state::MAX_POT_SIZE as int)) by (nonlinear_arith)
                    requires
                        cm.len() <= 256,
                ;
            }
        }
        let amount = calc_total_claim_amount(
            &s.claims[k].claim,
            &s.drawings[di].drawing,
            &s.payouts,
        );
        proof {
            assert(s.spec_has_drawing(s.claims@[k as int].claim.round_no));
            assert(amount as int == s.spec_recomputed_amount(k as int));
        }
        let mut c = copy_claim(&s.claims[k].claim);
        c.amount = Some(amount);
        let ghost page_pre = page@;
        page.push(c);
        proof {
            assert forall|j: int|
                0 <= j < page@.len() implies (#[trigger] page@[j].round_no == s.claims@[start
                    + j].claim.round_no && page@[j].matches@ == s.claims@[start + j].claim.matches@
                    && page@[j].is_approved == s.claims@[start + j].claim.is_approved
                    && page@[j].amount is Some && page@[j].amount->0 as int
                    == s.spec_recomputed_amount(start + j)) by {
                if j < page_pre.len() {
                    assert(page@[j] == page_pre[j]);
                    assert(page_pre[j].round_no == s.claims@[start + j].claim.round_no
                        && page_pre[j].matches@ == s.claims@[start + j].claim.matches@
                        && page_pre[j].is_approved == s.claims@[start + j].claim.is_approved
                        && page_pre[j].amount is Some && page_pre[j].amount->0 as int
                        == s.spec_recomputed_amount(start + j));
                } else {
                    assert(page@[j].amount == Some(amount));
                }
            }
        }
        k += 1;
    }

    proof {
        assert(spec_claims_page_ok(
            *s,
            spec_page_start(*s, maybe_cursor),
            spec_page_limit(maybe_limit),
            page@,
        ));
    }
    Ok(page)
}

} // verus!
