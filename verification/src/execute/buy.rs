use vstd::prelude::*;

use crate::error::ContractError;
use crate::models::{Account, AccountTotals, Coin, RoundStatus, Ticket, Token};
use crate::state::{
    AccountEntry, LottoState, TicketEntry, TicketEntryView, TicketView, HOUSE_TICKET_TAX_PCT,
    lemma_sum_n_update, require_active_game_state, spec_numbers_valid, spec_tickets_view,
    spec_ticket_entry_view,
};
use crate::util::{canonical_numbers, copy_u16_vec, hash_numbers, mul_pct, spec_canonical,
    spec_hash_numbers, spec_mul_pct};

verus! {

/// What a successful purchase asks of the host: optionally pull
/// `payment_pull` from the buyer over the token contract, and forward
/// `house_incoming` of the proceeds to the house.
#[derive(Debug)]
pub struct BuyResponse {
    pub payment_pull: Option<u128>,
    pub house_incoming: u128,
    pub total_price: u128,
}

/// A store entry with this owner and key exists.
pub open spec fn spec_has_ticket_key(tv: Seq<TicketEntryView>, owner: Seq<char>, hash: Seq<char>) -> bool {
    exists|i: int| 0 <= i < tv.len() && tv[i].owner == owner && tv[i].hash == hash
}

/// The index of the store entry with this owner and key.
pub open spec fn spec_ticket_key_idx(tv: Seq<TicketEntryView>, owner: Seq<char>, hash: Seq<char>) -> int {
    choose|i: int| 0 <= i < tv.len() && tv[i].owner == owner && tv[i].hash == hash
}

/// The effect of registering one number selection for `owner`: the matching
/// entry's multiplicity grows by one, or a fresh entry is appended.
pub open spec fn spec_upsert_ticket(
    tv: Seq<TicketEntryView>,
    owner: Seq<char>,
    numbers: Seq<u16>,
    max: u16,
) -> Seq<TicketEntryView> {
    let hash = spec_hash_numbers(spec_canonical(numbers, max));
    if spec_has_ticket_key(tv, owner, hash) {
        let i = spec_ticket_key_idx(tv, owner, hash);
        tv.update(
            i,
            TicketEntryView {
                owner: tv[i].owner,
                hash: tv[i].hash,
                ticket: TicketView {
                    numbers: tv[i].ticket.numbers,
                    n: (tv[i].ticket.n + 1) as u16,
                },
            },
        )
    } else {
        tv.push(TicketEntryView { owner, hash, ticket: TicketView { numbers, n: 1 } })
    }
}

/// The store after registering a whole purchase, selection by selection.
pub open spec fn spec_buy_fold(
    tv: Seq<TicketEntryView>,
    owner: Seq<char>,
    lists: Seq<Seq<u16>>,
    max: u16,
) -> Seq<TicketEntryView>
    decreases lists.len(),
{
    if lists.len() == 0 {
        tv
    } else {
        spec_buy_fold(spec_upsert_ticket(tv, owner, lists[0], max), owner, lists.drop_first(), max)
    }
}

fn find_ticket_idx(tickets: &Vec<TicketEntry>, owner: &String, hash: &String) -> (r: Option<usize>)
    ensures
        match r {
            Some(i) => i < tickets@.len() && tickets@[i as int].owner@ == owner@
                && tickets@[i as int].hash@ == hash@,
            None => forall|i: int|
                0 <= i < tickets@.len() ==> !(tickets@[i].owner@ == owner@ && tickets@[i].hash@
                    == hash@),
        },
{
    let mut i: usize = 0;
    while i < tickets.len()
        invariant
            i <= tickets@.len(),
            forall|k: int|
                0 <= k < i ==> !(tickets@[k].owner@ == owner@ && tickets@[k].hash@ == hash@),
        decreases tickets@.len() - i,
    {
        if tickets[i].owner == *owner && tickets[i].hash == *hash {
            return Some(i);
        }
        i += 1;
    }
    None
}

/// The verdict of scanning a number selection left to right from position
/// `i`: at each element a repeat of an earlier value is reported before a
/// range violation, exactly as validation checks them.
pub open spec fn spec_scan_verdict(numbers: Seq<u16>, max: u16, i: int) -> Option<ContractError>
    decreases numbers.len() - i,
{
    if i < 0 || i >= numbers.len() {
        None
    } else if exists|j: int| 0 <= j < i && (#[trigger] numbers[j]) == numbers[i] {
        Some(ContractError::DuplicateNumber)
    } else if numbers[i] > max {
        Some(ContractError::NumberOutOfBounds)
    } else {
        spec_scan_verdict(numbers, max, i + 1)
    }
}

/// Exactly which error a number selection draws: a wrong size first, then
/// the first offending element in scan order.
pub open spec fn spec_validation_error(numbers: Seq<u16>, number_count: u8, max: u16) -> Option<
    ContractError,
> {
    if numbers.len() != number_count {
        Some(ContractError::InvalidNumberCount)
    } else {
        spec_scan_verdict(numbers, max, 0)
    }
}

/// The first ticket of a purchase that fails validation decides the error.
pub open spec fn spec_first_ticket_error(
    lists: Seq<Seq<u16>>,
    number_count: u8,
    max: u16,
    i: int,
) -> Option<ContractError>
    decreases lists.len() - i,
{
    if i < 0 || i >= lists.len() {
        None
    } else {
        match spec_validation_error(lists[i], number_count, max) {
            Some(e) => Some(e),
            None => spec_first_ticket_error(lists, number_count, max, i + 1),
        }
    }
}

/// Accepts exactly the number selections the configuration allows; the
/// error names the first violation found.
pub fn require_valid_numbers(s: &LottoState, numbers: &Vec<u16>) -> (r: Result<(), ContractError>)
    ensures
        r.is_ok() <==> spec_numbers_valid(numbers@, s.number_count, s.max_number),
        r == (match spec_validation_error(numbers@, s.number_count, s.max_number) {
            Some(e) => Err::<(), ContractError>(e),
            None => Ok::<(), ContractError>(()),
        }),
{
    if numbers.len() != s.number_count as usize {
        return Err(ContractError::InvalidNumberCount);
    }

    let mut i: usize = 0;
    while i < numbers.len()
        invariant
            i <= numbers@.len(),
            numbers@.len() == s.number_count,
            forall|k: int| 0 <= k < i ==> numbers@[k] <= s.max_number,
            forall|k: int, l: int| 0 <= k < l < i ==> numbers@[k] != numbers@[l],
            spec_scan_verdict(numbers@, s.max_number, 0) == spec_scan_verdict(
                numbers@,
                s.max_number,
                i as int,
            ),
        decreases numbers@.len() - i,
    {
        let x = numbers[i];
        let mut j: usize = 0;
        while j < i
            invariant
                j <= i < numbers@.len(),
                numbers@.len() == s.number_count,
                x == numbers@[i as int],
                forall|k: int| 0 <= k < j ==> numbers@[k] != x,
                spec_scan_verdict(numbers@, s.max_number, 0) == spec_scan_verdict(
                    numbers@,
                    s.max_number,
                    i as int,
                ),
            decreases i - j,
        {
            if numbers[j] == x {
                proof {
                    assert(numbers@[j as int] == numbers@[i as int]);
                    assert(spec_scan_verdict(numbers@, s.max_number, i as int) == Some(
                        ContractError::DuplicateNumber,
                    ));
                }
                return Err(ContractError::DuplicateNumber);
            }
            j += 1;
        }
        if x > s.max_number {
            proof {
                assert(!(exists|j: int|
                    0 <= j < i as int && (#[trigger] numbers@[j]) == numbers@[i as int]));
                assert(spec_scan_verdict(numbers@, s.max_number, i as int) == Some(
                    ContractError::NumberOutOfBounds,
                ));
            }
            return Err(ContractError::NumberOutOfBounds);
        }
        proof {
            assert(!(exists|j: int|
                0 <= j < i as int && (#[trigger] numbers@[j]) == numbers@[i as int]));
            assert(spec_scan_verdict(numbers@, s.max_number, i as int) == spec_scan_verdict(
                numbers@,
                s.max_number,
                i as int + 1,
            ));
        }
        i += 1;
    }

    Ok(())
}

/// Registers one validated selection: upserts the `(owner, key)` entry and
/// counts the purchase.
fn process_ticket(state: &mut LottoState, player: &String, numbers: Vec<u16>) -> (r: Result<
    (),
    ContractError,
>)
    requires
        old(state).wf(),
        old(state).round_status == RoundStatus::Active,
        old(state).ticket_count < u16::MAX,
    ensures
        r.is_ok() <==> spec_numbers_valid(
            numbers@,
            old(state).number_count,
            old(state).max_number,
        ),
        r.is_err() ==> *final(state) == *old(state),
        r.is_ok() ==> ({
            &&& spec_tickets_view(final(state).tickets@) == spec_upsert_ticket(
                spec_tickets_view(old(state).tickets@),
                player@,
                numbers@,
                old(state).max_number,
            )
            &&& final(state).ticket_count == old(state).ticket_count + 1
            &&& *final(state) == (LottoState {
                tickets: final(state).tickets,
                ticket_count: final(state).ticket_count,
                ..*old(state)
            })
            &&& final(state).wf()
        }),
{
    require_valid_numbers(state, &numbers)?;

    let sorted = canonical_numbers(&numbers, state.max_number);
    let hash = hash_numbers(&sorted);

    let ghost old_tv = spec_tickets_view(state.tickets@);
    let ghost hv = spec_hash_numbers(spec_canonical(numbers@, state.max_number));

    match find_ticket_idx(&state.tickets, player, &hash) {
        Some(i) => {
            proof {
                assert(old_tv[i as int].owner == player@ && old_tv[i as int].hash == hv);
                assert(spec_has_ticket_key(old_tv, player@, hv));
                let c = spec_ticket_key_idx(old_tv, player@, hv);
                assert(old_tv[c].owner == player@ && old_tv[c].hash == hv);
                if c != i as int {
                    assert(state.tickets@[c].owner@ == state.tickets@[i as int].owner@
                        && state.tickets@[c].hash@ == state.tickets@[i as int].hash@);
                    assert(false);
                }
                // the stored multiplicity stays below the round total
                assert(spec_tickets_view(state.tickets@).take(state.tickets@.len() as int)
                    =~= spec_tickets_view(state.tickets@));
                crate::state::lemma_sum_n_entry_le(spec_tickets_view(state.tickets@), i as int);
            }
            let old_n = state.tickets[i].ticket.n;
            state.tickets[i].ticket.n = old_n + 1;
            state.ticket_count = state.ticket_count + 1;
            proof {
                assert(state.tickets@ =~= old(state).tickets@.update(
                    i as int,
                    TicketEntry {
                        owner: old(state).tickets@[i as int].owner,
                        hash: old(state).tickets@[i as int].hash,
                        ticket: Ticket {
                            numbers: old(state).tickets@[i as int].ticket.numbers,
                            n: (old_n + 1) as u16,
                        },
                    },
                ));
                assert(spec_tickets_view(state.tickets@) =~= spec_upsert_ticket(
                    old_tv,
                    player@,
                    numbers@,
                    old(state).max_number,
                ));
                lemma_sum_n_update(
                    old_tv,
                    i as int,
                    spec_tickets_view(state.tickets@)[i as int],
                );
                assert(final(state).wf());
            }
            Ok(())
        },
        None => {
            state.tickets.push(
                TicketEntry {
                    owner: player.clone(),
                    hash,
                    ticket: Ticket { numbers, n: 1 },
                },
            );
            state.ticket_count = state.ticket_count + 1;
            proof {
                assert(spec_tickets_view(state.tickets@).drop_last() =~= old_tv);
                assert(spec_tickets_view(state.tickets@) =~= spec_upsert_ticket(
                    old_tv,
                    player@,
                    numbers@,
                    old(state).max_number,
                ));
                assert(final(state).wf());
            }
            Ok(())
        },
    }
}

/// Funds presented with a native-token purchase cover the price.
pub open spec fn spec_has_funds(funds: Seq<Coin>, denom: Seq<char>, amount: u128) -> bool {
    exists|i: int| 0 <= i < funds.len() && funds[i].denom@ == denom && funds[i].amount >= amount
}

/// Decides how the price is collected: native funds must already be
/// attached, a token-contract price is pulled from the buyer, whose
/// queried balance the host passes in.
pub fn take_payment(s: &LottoState, funds: &Vec<Coin>, sender_cw20_balance: u128, amount: u128) -> (r:
    Result<Option<u128>, ContractError>)
    ensures
        match s.token {
            Token::Native { denom } => (r.is_ok() <==> spec_has_funds(funds@, denom@, amount)) && (
            r.is_ok() ==> r == Ok::<Option<u128>, ContractError>(None)),
            Token::Cw20 { .. } => (r.is_ok() <==> sender_cw20_balance >= amount) && (r.is_ok()
                ==> r == Ok::<Option<u128>, ContractError>(Some(amount))),
        },
        r.is_err() ==> r == Err::<Option<u128>, ContractError>(ContractError::InsufficientFunds),
{
    match &s.token {
        Token::Native { denom } => {
            let mut i: usize = 0;
            while i < funds.len()
                invariant
                    i <= funds@.len(),
                    s.token == (Token::Native { denom: *denom }),
                    forall|k: int|
                        0 <= k < i ==> !(funds@[k].denom@ == denom@ && funds@[k].amount >= amount),
                decreases funds@.len() - i,
            {
                if funds[i].denom == *denom && funds[i].amount >= amount {
                    proof {
                        assert(spec_has_funds(funds@, denom@, amount));
                    }
                    return Ok(None);
                }
                i += 1;
            }
            Err(ContractError::InsufficientFunds)
        },
        Token::Cw20 { .. } => {
            if sender_cw20_balance < amount {
                Err(ContractError::InsufficientFunds)
            } else {
                Ok(Some(amount))
            }
        },
    }
}

/// Buys a batch of number selections for `player` (the sender when no
/// player is named).  Rejected outright — with no mutation — while a
/// drawing is in progress, on the first malformed selection, or when the
/// presented funds or queried balance cannot cover the price.
pub fn buy(
    state: &mut LottoState,
    sender: &String,
    maybe_player: Option<String>,
    tickets: Vec<Vec<u16>>,
    funds: &Vec<Coin>,
    sender_cw20_balance: u128,
) -> (r: Result<BuyResponse, ContractError>)
    requires
        old(state).wf(),
        old(state).ticket_count + tickets@.len() <= u16::MAX,
        tickets@.len() * old(state).price <= u128::MAX,
        forall|i: int|
            0 <= i < old(state).accounts@.len()
                ==> #[trigger] old(state).accounts@[i].account.totals.tickets + tickets@.len()
                <= u32::MAX,
    ensures
        r.is_err() ==> *final(state) == *old(state),
        old(state).round_status != RoundStatus::Active ==> r == Err::<BuyResponse, ContractError>(
            ContractError::NotActive,
        ),
        // the first malformed ticket, in purchase order, names the error
        old(state).round_status == RoundStatus::Active && spec_first_ticket_error(
            tickets@.map(|_i: int, w: Vec<u16>| w@),
            old(state).number_count,
            old(state).max_number,
            0,
        ) is Some ==> r == Err::<BuyResponse, ContractError>(
            spec_first_ticket_error(
                tickets@.map(|_i: int, w: Vec<u16>| w@),
                old(state).number_count,
                old(state).max_number,
                0,
            )->0,
        ),
        old(state).round_status == RoundStatus::Active && spec_first_ticket_error(
            tickets@.map(|_i: int, w: Vec<u16>| w@),
            old(state).number_count,
            old(state).max_number,
            0,
        ) is None && r.is_err() ==> r == Err::<BuyResponse, ContractError>(
            ContractError::InsufficientFunds,
        ),
        r.is_ok() <==> (old(state).round_status == RoundStatus::Active && (forall|i: int|
            0 <= i < tickets@.len() ==> spec_numbers_valid(
                #[trigger] tickets@[i]@,
                old(state).number_count,
                old(state).max_number,
            )) && (match old(state).token {
            Token::Native { denom } => spec_has_funds(
                funds@,
                denom@,
                (tickets@.len() * old(state).price) as u128,
            ),
            Token::Cw20 { .. } => sender_cw20_balance >= tickets@.len() * old(state).price,
        })),
        r.is_ok() ==> ({
            let player = match maybe_player {
                Some(p) => p@,
                None => sender@,
            };
            let lists = tickets@.map(|_i: int, v: Vec<u16>| v@);
            let total = tickets@.len() * old(state).price;
            &&& forall|i: int|
                0 <= i < lists.len() ==> spec_numbers_valid(
                    #[trigger] lists[i],
                    old(state).number_count,
                    old(state).max_number,
                )
            &&& spec_tickets_view(final(state).tickets@) == spec_buy_fold(
                spec_tickets_view(old(state).tickets@),
                player,
                lists,
                old(state).max_number,
            )
            &&& final(state).ticket_count == old(state).ticket_count + tickets@.len()
            &&& final(state).wf()
            &&& r matches Ok(resp) && resp.total_price == total && resp.house_incoming
                == spec_mul_pct(total as int, HOUSE_TICKET_TAX_PCT as int)
            &&& final(state).claims == old(state).claims
            &&& final(state).drawings == old(state).drawings
            &&& final(state).round_no == old(state).round_no
            &&& final(state).round_status == old(state).round_status
            &&& final(state).balance_claimable == old(state).balance_claimable
            // the player's lifetime ticket total grows by the purchase
            &&& (old(state).spec_has_account(player) ==> ({
                let ai = old(state).spec_account_idx(player);
                let a0 = old(state).accounts@[ai].account;
                &&& final(state).accounts@.len() == old(state).accounts@.len()
                &&& (forall|j: int|
                    0 <= j < old(state).accounts@.len() && j != ai ==> final(state).accounts@[j]
                        == old(state).accounts@[j])
                &&& final(state).accounts@[ai].account.totals.tickets == a0.totals.tickets
                    + tickets@.len()
                &&& final(state).accounts@[ai].account.totals.wins == a0.totals.wins
                &&& final(state).accounts@[ai].account.totals.winnings == a0.totals.winnings
            }))
            &&& (!old(state).spec_has_account(player) ==> ({
                &&& final(state).accounts@.len() == old(state).accounts@.len() + 1
                &&& final(state).accounts@.take(old(state).accounts@.len() as int) == old(
                    state,
                ).accounts@
                &&& final(state).accounts@.last().owner@ == player
                &&& final(state).accounts@.last().account.totals.tickets == tickets@.len()
                &&& final(state).accounts@.last().account.totals.wins == 0
                &&& final(state).accounts@.last().account.totals.winnings == 0
            }))
        }),
{
    require_active_game_state(state)?;

    let player = match maybe_player {
        Some(p) => p,
        None => sender.clone(),
    };

    // Validate the whole purchase before touching any state, so a rejected
    // purchase provably leaves the store untouched.
    let mut v: usize = 0;
    while v < tickets.len()
        invariant
            v <= tickets@.len(),
            old(state).round_status == RoundStatus::Active,
            forall|k: int|
                0 <= k < v ==> spec_numbers_valid(
                    #[trigger] tickets@[k]@,
                    state.number_count,
                    state.max_number,
                ),
            spec_first_ticket_error(
                tickets@.map(|_i: int, w: Vec<u16>| w@),
                state.number_count,
                state.max_number,
                0,
            ) == spec_first_ticket_error(
                tickets@.map(|_i: int, w: Vec<u16>| w@),
                state.number_count,
                state.max_number,
                v as int,
            ),
            *state == *old(state),
        decreases tickets@.len() - v,
    {
        let ghost lists_g = tickets@.map(|_i: int, w: Vec<u16>| w@);
        let check = require_valid_numbers(state, &tickets[v]);
        proof {
            assert(lists_g[v as int] == tickets@[v as int]@);
        }
        match check {
            Ok(()) => {},
            Err(e) => {
                proof {
                    assert(spec_first_ticket_error(
                        lists_g,
                        state.number_count,
                        state.max_number,
                        v as int,
                    ) == Some(e));
                }
                return Err(e);
            },
        }
        v += 1;
    }

    let total_price = (tickets.len() as u128) * state.price;
    let payment_pull = take_payment(state, funds, sender_cw20_balance, total_price)?;
    let house_incoming = mul_pct(total_price, HOUSE_TICKET_TAX_PCT);

    // Register each selection in order.
    let ghost lists = tickets@.map(|_i: int, w: Vec<u16>| w@);
    let ghost orig_tv = spec_tickets_view(old(state).tickets@);
    proof {
        assert(lists.skip(0) =~= lists);
    }
    let mut i: usize = 0;
    while i < tickets.len()
        invariant
            i <= tickets@.len(),
            lists == tickets@.map(|_i: int, w: Vec<u16>| w@),
            state.wf(),
            state.round_status == RoundStatus::Active,
            state.number_count == old(state).number_count,
            state.max_number == old(state).max_number,
            state.ticket_count == old(state).ticket_count + i,
            old(state).ticket_count + tickets@.len() <= u16::MAX,
            forall|k: int|
                0 <= k < lists.len() ==> spec_numbers_valid(
                    #[trigger] lists[k],
                    old(state).number_count,
                    old(state).max_number,
                ),
            spec_buy_fold(orig_tv, player@, lists, old(state).max_number) == spec_buy_fold(
                spec_tickets_view(state.tickets@),
                player@,
                lists.skip(i as int),
                old(state).max_number,
            ),
            *state == (LottoState {
                tickets: state.tickets,
                ticket_count: state.ticket_count,
                ..*old(state)
            }),
        decreases tickets@.len() - i,
    {
        let numbers = copy_u16_vec(&tickets[i]);
        proof {
            assert(numbers@ == lists[i as int]);
            assert(lists.skip(i as int)[0] == lists[i as int]);
            assert(lists.skip(i as int).drop_first() =~= lists.skip(i as int + 1));
        }
        let ghost pre_tv = spec_tickets_view(state.tickets@);
        let res = process_ticket(state, &player, numbers);
        match res {
            Ok(()) => {},
            Err(_) => {
                proof {
                    assert(false);
                }
                return Err(ContractError::ValidationError);
            },
        }
        i += 1;
    }
    proof {
        assert(lists.skip(tickets@.len() as int) =~= Seq::<Seq<u16>>::empty());
        assert(spec_buy_fold(
            spec_tickets_view(state.tickets@),
            player@,
            lists.skip(tickets@.len() as int),
            old(state).max_number,
        ) == spec_tickets_view(state.tickets@));
    }

    // Upsert the player's account totals.
    match crate::state::find_account_idx(&state.accounts, &player) {
        Some(ai) => {
            proof {
                let c = old(state).spec_account_idx(player@);
                if c != ai as int {
                    assert(old(state).accounts@[c].owner@ == old(state).accounts@[ai as int].owner@);
                    assert(false);
                }
            }
            let old_totals = state.accounts[ai].account.totals;
            state.accounts[ai].account.totals = AccountTotals {
                tickets: old_totals.tickets + (tickets.len() as u32),
                ..old_totals
            };
        },
        None => {
            let mut account = Account::new();
            account.totals = AccountTotals { tickets: tickets.len() as u32, ..account.totals };
            state.accounts.push(AccountEntry { owner: player, account });
        },
    }
    proof {
        assert(state.wf());
    }

    Ok(BuyResponse { payment_pull, house_incoming, total_price })
}

/// Buys `ticket_count` randomly generated selections from a seed — a
/// convenience for simulation and testing, priced and registered exactly
/// like an explicit purchase.
pub fn buy_seed(
    state: &mut LottoState,
    sender: &String,
    maybe_player: Option<String>,
    ticket_count: u16,
    seed: u32,
    funds: &Vec<Coin>,
    sender_cw20_balance: u128,
) -> (r: Result<BuyResponse, ContractError>)
    requires
        old(state).wf(),
        old(state).ticket_count + ticket_count <= u16::MAX,
        ticket_count * old(state).price <= u128::MAX,
        forall|i: int|
            0 <= i < old(state).accounts@.len()
                ==> #[trigger] old(state).accounts@[i].account.totals.tickets + ticket_count
                <= u32::MAX,
    ensures
        r.is_err() ==> *final(state) == *old(state),
        old(state).round_status != RoundStatus::Active ==> r == Err::<BuyResponse, ContractError>(
            ContractError::NotActive,
        ),
        r.is_ok() <==> (old(state).round_status == RoundStatus::Active && (match old(
            state,
        ).token {
            Token::Native { denom } => spec_has_funds(
                funds@,
                denom@,
                (ticket_count * old(state).price) as u128,
            ),
            Token::Cw20 { .. } => sender_cw20_balance >= ticket_count * old(state).price,
        })),
        r.is_ok() ==> final(state).wf() && final(state).ticket_count == old(state).ticket_count
            + ticket_count,
{
    let tickets = crate::state::generate_random_tickets(state, ticket_count, seed);
    buy(state, sender, maybe_player, tickets, funds, sender_cw20_balance)
}

/// [`buy_seed`] on the caller's own behalf.
pub fn sender_buy_seed(
    state: &mut LottoState,
    sender: &String,
    ticket_count: u16,
    seed: u32,
    funds: &Vec<Coin>,
    sender_cw20_balance: u128,
) -> (r: Result<BuyResponse, ContractError>)
    requires
        old(state).wf(),
        old(state).ticket_count + ticket_count <= u16::MAX,
        ticket_count * old(state).price <= u128::MAX,
        forall|i: int|
            0 <= i < old(state).accounts@.len()
                ==> #[trigger] old(state).accounts@[i].account.totals.tickets + ticket_count
                <= u32::MAX,
    ensures
        r.is_err() ==> *final(state) == *old(state),
        r.is_ok() <==> (old(state).round_status == RoundStatus::Active && (match old(
            state,
        ).token {
            Token::Native { denom } => spec_has_funds(
                funds@,
                denom@,
                (ticket_count * old(state).price) as u128,
            ),
            Token::Cw20 { .. } => sender_cw20_balance >= ticket_count * old(state).price,
        })),
        r.is_ok() ==> final(state).wf() && final(state).ticket_count == old(state).ticket_count
            + ticket_count,
{
    buy_seed(state, sender, None, ticket_count, seed, funds, sender_cw20_balance)
}

} // verus!
