use vstd::prelude::*;

use crate::error::ContractError;
use crate::models::Drawing;
use crate::state::{find_drawing_idx, LottoState};
use crate::util::copy_drawing;

verus! {

/// The drawing stored for the given round, defaulting to the most recently
/// completed round; the copy reports its round number.
pub fn drawing(s: &LottoState, maybe_round_no: Option<u64>) -> (r: Result<
    Option<Drawing>,
    ContractError,
>)
    requires
        s.wf(),
    ensures
        ({
            let rn = match maybe_round_no {
                Some(n) => n,
                None => if s.round_no == 1 {
                    s.round_no
                } else {
                    (s.round_no - 1) as u64
                },
            };
            match r {
                Ok(Some(d)) => s.spec_has_drawing(rn) && d.round_no == Some(rn) && ({
                    let stored = s.drawings@[s.spec_drawing_idx(rn)].drawing;
                    d.winning_numbers@ == stored.winning_numbers@ && d.match_counts@
                        == stored.match_counts@ && d.ticket_count == stored.ticket_count
                        && d.processed_ticket_count == stored.processed_ticket_count
                        && d.pot_payout == stored.pot_payout && d.incentive_payout
                        == stored.incentive_payout && d.total_payout == stored.total_payout
                }),
                Ok(None) => !s.spec_has_drawing(rn),
                Err(_) => false,
            }
        }),
{
    let round_no = match maybe_round_no {
        Some(n) => n,
        None => if s.round_no == 1 {
            s.round_no
        } else {
            s.round_no - 1
        },
    };

    match find_drawing_idx(&s.drawings, round_no) {
        Some(i) => {
            proof {
                let c = s.spec_drawing_idx(round_no);
                if c != i as int {
                    assert(s.drawings@[c].round_no == s.drawings@[i as int].round_no);
                    assert(false);
                }
            }
            let mut d = copy_drawing(&s.drawings[i].drawing);
            d.round_no = Some(round_no);
            Ok(Some(d))
        },
        None => Ok(None),
    }
}

} // verus!
