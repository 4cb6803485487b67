use vstd::prelude::*;

use crate::error::ContractError;
use crate::models::{Config, Owner, Round, Token};
use crate::msg::{AccountView, SelectResponse};
use crate::state::{
    find_account_idx, find_claim_idx, find_drawing_idx, load_claim_tickets_by_account,
    LottoState, MAX_TIER_INCENTIVE, TaxEntry,
};
use crate::util::{calc_total_claim_amount, copy_claim, copy_payouts, copy_ticket};

verus! {

/// Whether a read-model field was requested: every field when no list is
/// given, otherwise exactly the listed ones.
pub open spec fn spec_wants(maybe_fields: Option<Vec<String>>, name: Seq<char>) -> bool {
    match maybe_fields {
        None => true,
        Some(fs) => exists|i: int| 0 <= i < fs@.len() && (#[trigger] fs@[i]@) == name,
    }
}

fn wants(maybe_fields: &Option<Vec<String>>, name: &String) -> (r: bool)
    ensures
        r == spec_wants(*maybe_fields, name@),
{
    match maybe_fields {
        None => true,
        Some(fs) => {
            let mut i: usize = 0;
            while i < fs.len()
                invariant
                    *maybe_fields == Some(*fs),
                    i <= fs@.len(),
                    forall|k: int| 0 <= k < i ==> fs@[k]@ != name@,
                decreases fs@.len() - i,
            {
                if fs[i] == *name {
                    proof {
                        let v = (*maybe_fields)->0;
                        assert(v == *fs);
                        assert(0 <= (i as int) < v@.len() && v@[i as int]@ == name@);
                        assert(spec_wants(*maybe_fields, name@));
                    }
                    return true;
                }
                i += 1;
            }
            false
        },
    }
}

fn copy_owner(o: &Owner) -> (r: Owner)
    ensures
        match *o {
            Owner::Address(ref a) => r matches Owner::Address(ra) && ra@ == a@,
            Owner::Acl(ref a) => r matches Owner::Acl(ra) && ra@ == a@,
        },
{
    match o {
        Owner::Address(a) => Owner::Address(a.clone()),
        Owner::Acl(a) => Owner::Acl(a.clone()),
    }
}

fn copy_token(t: &Token) -> (r: Token)
    ensures
        match *t {
            Token::Native { denom: ref d } => r matches Token::Native { denom: rd } && rd@ == d@,
            Token::Cw20 { address: ref a } => r matches Token::Cw20 { address: ra } && ra@ == a@,
        },
{
    match t {
        Token::Native { denom } => Token::Native { denom: denom.clone() },
        Token::Cw20 { address } => Token::Cw20 { address: address.clone() },
    }
}

/// The total tax retained so far.
pub open spec fn spec_tax_total(taxes: Seq<TaxEntry>) -> int
    decreases taxes.len(),
{
    if taxes.len() == 0 {
        0
    } else {
        spec_tax_total(taxes.drop_last()) + taxes.last().amount
    }
}

/// The composite read model: assembles exactly the requested fields from
/// the state and the host-queried balance.
pub fn select(
    s: &LottoState,
    contract_balance: u128,
    maybe_fields: Option<Vec<String>>,
    maybe_account: Option<String>,
) -> (r: Result<SelectResponse, ContractError>)
    requires
        s.wf(),
        s.balance_claimable <= contract_balance,
        s.round_start + s.round_seconds <= u64::MAX,
        spec_tax_total(s.taxes@) <= u128::MAX,
        forall|i: int|
            0 <= i < s.payouts@.len() ==> #[trigger] s.payouts@[i].incentive
                <= MAX_TIER_INCENTIVE,
    ensures
        r matches Ok(resp) ==> ({
            &&& (resp.owner is Some <==> spec_wants(maybe_fields, "owner"@))
            &&& (resp.balance is Some <==> spec_wants(maybe_fields, "balance"@))
            &&& (resp.balance matches Some(b) ==> b == contract_balance)
            &&& resp.balance_claimable == Some(s.balance_claimable)
            &&& (resp.round is Some <==> spec_wants(maybe_fields, "round"@))
            &&& (resp.round matches Some(round) ==> round.round_no == s.round_no
                && round.ticket_count == s.ticket_count && round.status == s.round_status
                && round.start == s.round_start && round.end == s.round_start + s.round_seconds
                && round.balance == contract_balance - s.balance_claimable)
            &&& (resp.config is Some <==> spec_wants(maybe_fields, "config"@))
            &&& (resp.config matches Some(c) ==> c.price == s.price && c.max_number
                == s.max_number && c.number_count == s.number_count && c.round_seconds
                == s.round_seconds && c.rolling == s.rolling && c.min_balance == s.min_balance
                && c.payouts@ == s.payouts@ && c.batch_size == Some(s.batch_size)
                && c.use_approval == Some(s.use_approval))
            &&& (resp.tax_rate is Some <==> spec_wants(maybe_fields, "tax_rate"@))
            &&& (resp.tax_rate matches Some(t) ==> t == spec_tax_total(s.taxes@))
            &&& (resp.owner matches Some(o) ==> (match s.owner {
                Owner::Address(ref a) => o matches Owner::Address(oa) && oa@ == a@,
                Owner::Acl(ref a) => o matches Owner::Acl(oa) && oa@ == a@,
            }))
            &&& (resp.account is Some <==> (spec_wants(maybe_fields, "account"@)
                && maybe_account is Some && s.spec_has_account(maybe_account->0@)))
            &&& (resp.account matches Some(av) ==> (maybe_account matches Some(a) && ({
                &&& av.totals == s.accounts@[s.spec_account_idx(a@)].account.totals
                &&& (av.claim is Some <==> s.spec_has_claim(a@))
                &&& (av.claim matches Some(c) ==> c.amount is Some && c.amount->0 as int
                    == s.spec_recomputed_amount(s.spec_claim_idx(a@)))
                // the player's open tickets of the running round, in store
                // order
                &&& av.tickets@.map(|_i: int, t: crate::models::Ticket|
                    crate::state::spec_ticket_view(t)) == crate::state::spec_owner_claim_tickets(
                    crate::state::spec_tickets_view(s.tickets@),
                    a@,
                )
            })))
        }),
{
    let owner_field = if wants(&maybe_fields, &("owner".to_owned())) {
        Some(copy_owner(&s.owner))
    } else {
        None
    };

    let balance_field = if wants(&maybe_fields, &("balance".to_owned())) {
        Some(contract_balance)
    } else {
        None
    };

    let round_field = if wants(&maybe_fields, &("round".to_owned())) {
        Some(
            Round {
                round_no: s.round_no,
                ticket_count: s.ticket_count,
                start: s.round_start,
                end: s.round_start + s.round_seconds,
                status: s.round_status,
                balance: contract_balance - s.balance_claimable,
            },
        )
    } else {
        None
    };

    let config_field = if wants(&maybe_fields, &("config".to_owned())) {
        Some(
            Config {
                token: copy_token(&s.token),
                price: s.price,
                max_number: s.max_number,
                number_count: s.number_count,
                round_seconds: s.round_seconds,
                house_address: s.house_address.clone(),
                marketing: crate::execute::set_config::copy_marketing(&s.marketing),
                style: crate::execute::set_config::copy_style(&s.style),
                payouts: copy_payouts(&s.payouts),
                rolling: s.rolling,
                min_balance: s.min_balance,
                drawer: s.drawer.clone(),
                batch_size: Some(s.batch_size),
                use_approval: Some(s.use_approval),
                nois_proxy: crate::execute::set_config::copy_string_opt(&s.nois_proxy),
            },
        )
    } else {
        None
    };

    let tax_rate_field = if wants(&maybe_fields, &("tax_rate".to_owned())) {
        let mut total: u128 = 0;
        let mut i: usize = 0;
        proof {
            assert(s.taxes@.take(0) =~= Seq::<TaxEntry>::empty());
        }
        while i < s.taxes.len()
            invariant
                i <= s.taxes@.len(),
                total as int == spec_tax_total(s.taxes@.take(i as int)),
                spec_tax_total(s.taxes@) <= u128::MAX,
            decreases s.taxes@.len() - i,
        {
            proof {
                assert(s.taxes@.take(i as int + 1).drop_last() =~= s.taxes@.take(i as int));
                assert(s.taxes@.take(i as int + 1).last() == s.taxes@[i as int]);
                lemma_tax_total_prefix(s.taxes@, i as int + 1);
            }
            total = total + s.taxes[i].amount;
            i += 1;
        }
        proof {
            assert(s.taxes@.take(s.taxes@.len() as int) =~= s.taxes@);
        }
        Some(total)
    } else {
        None
    };

    let account_field = if wants(&maybe_fields, &("account".to_owned())) {
        match &maybe_account {
            Some(addr) => {
                match find_account_idx(&s.accounts, addr) {
                    Some(ai) => {
                        proof {
                            let c = s.spec_account_idx(addr@);
                            if c != ai as int {
                                assert(s.accounts@[c].owner@ == s.accounts@[ai as int].owner@);
                                assert(false);
                            }
                        }
                        let maybe_claim = match find_claim_idx(&s.claims, addr) {
                            Some(ci) => {
                                proof {
                                    let c = s.spec_claim_idx(addr@);
                                    if c != ci as int {
                                        assert(s.claims@[c].owner@ == s.claims@[ci as int].owner@);
                                        assert(false);
                                    }
                                }
                                let round_no = s.claims[ci].claim.round_no;
                                match find_drawing_idx(&s.drawings, round_no) {
                                    Some(di) => {
                                        proof {
                                            let c = s.spec_drawing_idx(round_no);
                                            if c != di as int {
                                                assert(s.drawings@[c].round_no
                                                    == s.drawings@[di as int].round_no);
                                                assert(false);
                                            }
                                            let cm = crate::state::spec_mc_view(
                                                s.claims@[ci as int].claim.matches@,
                                            );
                                            let d = s.drawings@[di as int].drawing;
                                            if cm.len() >= 1 {
                                                crate::util::lemma_claim_amount_bound(
                                                    cm,
                                                    crate::state::spec_mc_view(d.match_counts@),
                                                    s.payouts@,
                                                    d.start_balance + d.round_balance,
                                                    cm.len() as int,
                                                );
                                                assert(cm.len() as int * (MAX_TIER_INCENTIVE as int
                                                    * 0xFFFF + crate::state::MAX_POT_SIZE as int)
                                                    <= 256 * (MAX_TIER_INCENTIVE as int * 0xFFFF
                                                    + crate::state::MAX_POT_SIZE as int))
                                                    by (nonlinear_arith)
                                                    requires
                                                        cm.len() <= 256,
                                                ;
                                            }
                                        }
                                        let amount = calc_total_claim_amount(
                                            &s.claims[ci].claim,
                                            &s.drawings[di].drawing,
                                            &s.payouts,
                                        );
                                        let mut c = copy_claim(&s.claims[ci].claim);
                                        c.amount = Some(amount);
                                        c.tickets = Some(load_claim_tickets_by_account(s, addr));
                                        Some(c)
                                    },
                                    None => {
                                        return Err(ContractError::DrawingNotFound);
                                    },
                                }
                            },
                            None => None,
                        };
                        // the player's open tickets for the running round
                        let mut mine: Vec<crate::models::Ticket> = Vec::new();
                        let mut ti: usize = 0;
                        proof {
                            assert(crate::state::spec_tickets_view(s.tickets@).take(0)
                                =~= Seq::<crate::state::TicketEntryView>::empty());
                        }
                        while ti < s.tickets.len()
                            invariant
                                ti <= s.tickets@.len(),
                                mine@.map(|_i: int, t: crate::models::Ticket|
                                    crate::state::spec_ticket_view(t))
                                    == crate::state::spec_owner_claim_tickets(
                                    crate::state::spec_tickets_view(s.tickets@).take(ti as int),
                                    addr@,
                                ),
                            decreases s.tickets@.len() - ti,
                        {
                            let ghost pre = crate::state::spec_tickets_view(s.tickets@).take(
                                ti as int,
                            );
                            let ghost cur = crate::state::spec_tickets_view(s.tickets@).take(
                                ti as int + 1,
                            );
                            proof {
                                assert(cur.drop_last() =~= pre);
                                assert(cur.last() == crate::state::spec_ticket_entry_view(
                                    s.tickets@[ti as int],
                                ));
                            }
                            if s.tickets[ti].owner == *addr {
                                mine.push(copy_ticket(&s.tickets[ti].ticket));
                            }
                            proof {
                                assert(mine@.map(|_i: int, t: crate::models::Ticket|
                                    crate::state::spec_ticket_view(t))
                                    =~= crate::state::spec_owner_claim_tickets(cur, addr@));
                            }
                            ti += 1;
                        }
                        proof {
                            assert(crate::state::spec_tickets_view(s.tickets@).take(
                                s.tickets@.len() as int,
                            ) =~= crate::state::spec_tickets_view(s.tickets@));
                        }
                        Some(
                            AccountView {
                                totals: s.accounts[ai].account.totals,
                                tickets: mine,
                                claim: maybe_claim,
                            },
                        )
                    },
                    None => None,
                }
            },
            None => None,
        }
    } else {
        None
    };

    Ok(
        SelectResponse {
            owner: owner_field,
            config: config_field,
            round: round_field,
            tax_rate: tax_rate_field,
            balance_claimable: Some(s.balance_claimable),
            balance: balance_field,
            account: account_field,
        },
    )
}

proof fn lemma_tax_total_prefix(taxes: Seq<TaxEntry>, k: int)
    requires
        0 <= k <= taxes.len(),
    ensures
        spec_tax_total(taxes.take(k)) <= spec_tax_total(taxes),
        spec_tax_total(taxes.take(k)) >= 0,
    decreases taxes.len() - k,
{
    lemma_tax_total_nonneg(taxes.take(k));
    if k == taxes.len() {
        assert(taxes.take(k) =~= taxes);
    } else {
        assert(taxes.take(k + 1).drop_last() =~= taxes.take(k));
        lemma_tax_total_prefix(taxes, k + 1);
    }
}

proof fn lemma_tax_total_nonneg(taxes: Seq<TaxEntry>)
    ensures
        spec_tax_total(taxes) >= 0,
    decreases taxes.len(),
{
    if taxes.len() > 0 {
        lemma_tax_total_nonneg(taxes.drop_last());
    }
}

} // verus!
