use vstd::prelude::*;

use crate::error::ContractError;
use crate::state::{is_ready, spec_is_ready, LottoState};

verus! {

/// Whether an `advance` call would do work right now.
pub fn ready(s: &LottoState, height: u64, time: u64) -> (r: Result<bool, ContractError>)
    requires
        s.round_start + s.round_seconds <= u64::MAX,
    ensures
        r == Ok::<bool, ContractError>(spec_is_ready(*s, height, time)),
{
    Ok(is_ready(s, height, time))
}

} // verus!
