use vstd::prelude::*;

use crate::error::ContractError;
use crate::models::{
    Config, MarketingInfo, RoundStatus, Style, StyleValue, spec_config_valid,
};
use crate::state::{
    ensure_sender_is_allowed, require_active_game_state, spec_sender_allowed, LottoState,
};

verus! {

pub(crate) fn copy_string_opt(v: &Option<String>) -> (r: Option<String>)
    ensures
        match *v {
            Some(ref s) => r matches Some(rs) && rs@ == s@,
            None => r is None,
        },
{
    match v {
        Some(s) => Some(s.clone()),
        None => None,
    }
}

pub(crate) fn copy_marketing(m: &MarketingInfo) -> (r: MarketingInfo)
    ensures
        r.name@ == m.name@,
        match m.description {
            Some(ref s) => r.description matches Some(rs) && rs@ == s@,
            None => r.description is None,
        },
{
    MarketingInfo { name: m.name.clone(), description: copy_string_opt(&m.description) }
}

fn copy_style_value(v: &StyleValue) -> (r: StyleValue)
    ensures
        match *v {
            StyleValue::Str(ref s) => r matches StyleValue::Str(rs) && rs@ == s@,
            StyleValue::Url(ref s) => r matches StyleValue::Url(rs) && rs@ == s@,
        },
{
    match v {
        StyleValue::Str(s) => StyleValue::Str(s.clone()),
        StyleValue::Url(s) => StyleValue::Url(s.clone()),
    }
}

pub(crate) fn copy_style(s: &Style) -> (r: Style)
    ensures
        r.colors@.len() == s.colors@.len(),
        forall|i: int| 0 <= i < s.colors@.len() ==> #[trigger] r.colors@[i]@ == s.colors@[i]@,
{
    let mut colors: Vec<String> = Vec::new();
    let mut i: usize = 0;
    while i < s.colors.len()
        invariant
            i <= s.colors@.len(),
            colors@.len() == i,
            forall|k: int| 0 <= k < i ==> #[trigger] colors@[k]@ == s.colors@[k]@,
        decreases s.colors@.len() - i,
    {
        colors.push(s.colors[i].clone());
        i += 1;
    }
    Style {
        bg: copy_style_value(&s.bg),
        colors,
        font: copy_string_opt(&s.font),
        logo: copy_string_opt(&s.logo),
    }
}

/// Stages a new configuration.  Admin-gated and only between drawings, so
/// configuration never changes mid-round: display fields (marketing,
/// style), the house address and the beacon address take effect at once,
/// while every scoring-relevant field waits in the staged slot until the
/// next round boundary swaps it in.
pub fn set_config(state: &mut LottoState, sender: &String, acl_allows: bool, config: Config) -> (r:
    Result<(), ContractError>)
    requires
        old(state).wf(),
    ensures
        r.is_err() ==> *final(state) == *old(state),
        !spec_sender_allowed(old(state).owner, sender@, acl_allows) ==> r == Err::<
            (),
            ContractError,
        >(ContractError::NotAuthorized),
        spec_sender_allowed(old(state).owner, sender@, acl_allows) && old(state).round_status
            != RoundStatus::Active ==> r == Err::<(), ContractError>(ContractError::NotActive),
        r.is_ok() <==> (spec_sender_allowed(old(state).owner, sender@, acl_allows) && old(
            state,
        ).round_status == RoundStatus::Active && spec_config_valid(config)),
        r.is_ok() ==> ({
            &&& final(state).wf()
            &&& final(state).staged_config == Some(config)
            &&& final(state).house_address@ == config.house_address@
            &&& final(state).marketing.name@ == config.marketing.name@
            &&& (match config.nois_proxy {
                Some(ref p) => final(state).nois_proxy matches Some(fp) && fp@ == p@,
                None => final(state).nois_proxy is None,
            })
            &&& *final(state) == (LottoState {
                marketing: final(state).marketing,
                style: final(state).style,
                house_address: final(state).house_address,
                nois_proxy: final(state).nois_proxy,
                staged_config: final(state).staged_config,
                ..*old(state)
            })
        }),
{
    ensure_sender_is_allowed(state, sender, acl_allows)?;
    require_active_game_state(state)?;

    config.validate()?;

    state.marketing = copy_marketing(&config.marketing);
    state.house_address = config.house_address.clone();
    state.style = copy_style(&config.style);
    state.nois_proxy = copy_string_opt(&config.nois_proxy);

    state.staged_config = Some(config);
    proof {
        assert(final(state).wf());
    }
    Ok(())
}

} // verus!
