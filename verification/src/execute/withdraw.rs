use vstd::prelude::*;

use crate::error::ContractError;
use crate::models::{PaymentMsg, RoundStatus};
use crate::state::{
    ensure_sender_is_allowed, require_active_game_state, spec_sender_allowed, LottoState,
};

verus! {

/// Withdraws the whole contract balance to the caller.  Admin-gated, only
/// between drawings; the host queries the balance and performs the
/// transfer this returns.
pub fn withdraw(s: &LottoState, sender: &String, acl_allows: bool, contract_balance: u128) -> (r:
    Result<Option<PaymentMsg>, ContractError>)
    ensures
        !spec_sender_allowed(s.owner, sender@, acl_allows) ==> r == Err::<
            Option<PaymentMsg>,
            ContractError,
        >(ContractError::NotAuthorized),
        spec_sender_allowed(s.owner, sender@, acl_allows) && s.round_status
            != RoundStatus::Active ==> r == Err::<Option<PaymentMsg>, ContractError>(
            ContractError::NotActive,
        ),
        r.is_ok() <==> (spec_sender_allowed(s.owner, sender@, acl_allows) && s.round_status
            == RoundStatus::Active),
        r matches Ok(p) ==> (match p {
            Some(pay) => contract_balance > 0 && pay.amount == contract_balance && pay.recipient@
                == sender@,
            None => contract_balance == 0,
        }),
{
    ensure_sender_is_allowed(s, sender, acl_allows)?;
    require_active_game_state(s)?;

    if contract_balance == 0 {
        Ok(None)
    } else {
        Ok(Some(PaymentMsg { recipient: sender.clone(), amount: contract_balance }))
    }
}

} // verus!
