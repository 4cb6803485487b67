use lotto::error::ContractError;
use lotto::execute::approve::approve;
use lotto::execute::buy::buy;
use lotto::execute::claim::claim;
use lotto::execute::draw::{draw, DrawAction, DrawEnv};
use lotto::execute::reject::reject;
use lotto::models::{
    Coin, Config, MarketingInfo, Owner, Payout, RoundStatus, Style, StyleValue, Token,
};
use lotto::msg::InstantiateMsg;
use lotto::state::{initialize, load_account, load_claim, LottoState};

fn base_config(payouts: Vec<Payout>, use_approval: bool) -> Config {
    Config {
        token: Token::Native { denom: "ujuno".to_string() },
        price: 100,
        max_number: 9,
        number_count: 3,
        round_seconds: 60,
        house_address: "house".to_string(),
        marketing: MarketingInfo { name: "lotto".to_string(), description: None },
        style: Style {
            bg: StyleValue::Str("blue".to_string()),
            colors: vec![],
            font: None,
            logo: None,
        },
        payouts,
        rolling: true,
        min_balance: 0,
        drawer: "drawer".to_string(),
        batch_size: None,
        use_approval: Some(use_approval),
        nois_proxy: None,
    }
}

fn setup(winning: Vec<u16>, payouts: Vec<Payout>, use_approval: bool) -> LottoState {
    let msg = InstantiateMsg {
        owner: Some(Owner::Address("admin".to_string())),
        config: base_config(payouts, use_approval),
        winning_numbers: Some(winning),
    };
    initialize(0, 1, &"admin".to_string(), msg).expect("init")
}

fn funds(amount: u128) -> Vec<Coin> {
    vec![Coin { denom: "ujuno".to_string(), amount }]
}

fn env_at(time: u64, contract_balance: u128) -> DrawEnv {
    DrawEnv {
        time,
        time_nanos: time * 1_000_000_000,
        height: 10,
        tx_index: 0,
        contract_addr: b"contract".to_vec(),
        contract_balance,
    }
}

/// number_count=3, max=9, tiers {3 matches -> 100% pot, 2 matches -> fixed
/// incentive only}.  Ticket A=[1,2,3] owner X matches all three and takes
/// the full net pot; ticket B=[1,2,4] owner Y matches two and receives only
/// the incentive.
#[test]
fn full_pot_to_exact_match_incentive_to_partial_match() {
    let payouts = vec![
        Payout { n: 3, incentive: 0, pct: 1_000_000 },
        Payout { n: 2, incentive: 50, pct: 0 },
    ];
    let mut state = setup(vec![1, 2, 3], payouts, false);

    buy(&mut state, &"X".to_string(), None, vec![vec![1, 2, 3]], &funds(100), 0).expect("buy X");
    buy(&mut state, &"Y".to_string(), None, vec![vec![1, 2, 4]], &funds(100), 0).expect("buy Y");
    assert_eq!(state.ticket_count, 2);

    let resp = draw(&mut state, &"drawer".to_string(), None, &env_at(60, 200)).expect("draw");
    assert!(resp.is_complete);
    assert!(matches!(resp.action, DrawAction::SettleHouse { .. }));
    assert_eq!(state.round_status, RoundStatus::Active);
    assert_eq!(state.round_no, 2);

    // pot = 200; jackpot tier: gross 200, 10% tax 20, net 180.
    // two-match tier: incentive 50 per ticket, no pot share.
    assert_eq!(state.balance_claimable, 230);

    let pay_x = claim(&mut state, &"X".to_string()).expect("claim X").expect("payment X");
    assert_eq!(pay_x.amount, 180);
    assert_eq!(pay_x.recipient, "X".to_string());

    let pay_y = claim(&mut state, &"Y".to_string()).expect("claim Y").expect("payment Y");
    assert_eq!(pay_y.amount, 50);

    assert_eq!(state.balance_claimable, 0);
    let acc_x = load_account(&state, &"X".to_string()).expect("account X");
    assert_eq!(acc_x.totals.winnings, 180);
    let acc_y = load_account(&state, &"Y".to_string()).expect("account Y");
    assert_eq!(acc_y.totals.winnings, 50);
}

/// Pro-rata correctness: claimants in one tier split that tier's net pot
/// allocation in proportion to their ticket counts, and the settled sum
/// never exceeds the allocation (rounding dust stays behind).
#[test]
fn pro_rata_split_within_one_tier() {
    let payouts = vec![Payout { n: 3, incentive: 0, pct: 1_000_000 }];
    let mut state = setup(vec![1, 2, 3], payouts, false);

    // X holds the same winning selection twice, Y once: tier total 3.
    buy(
        &mut state,
        &"X".to_string(),
        None,
        vec![vec![1, 2, 3], vec![3, 2, 1]],
        &funds(200),
        0,
    )
    .expect("buy X");
    buy(&mut state, &"Y".to_string(), None, vec![vec![1, 2, 3]], &funds(100), 0).expect("buy Y");
    assert_eq!(state.ticket_count, 3);
    // the two orderings of one selection collapse into one entry
    assert_eq!(state.tickets.len(), 2);

    // balance 201: gross 201, tax 20, net allocation 181.
    let resp = draw(&mut state, &"drawer".to_string(), None, &env_at(60, 201)).expect("draw");
    assert!(resp.is_complete);

    let pay_x = claim(&mut state, &"X".to_string()).expect("claim X").expect("payment X");
    let pay_y = claim(&mut state, &"Y".to_string()).expect("claim Y").expect("payment Y");
    // 181 * 2 / 3 = 120, 181 * 1 / 3 = 60; 180 <= 181: never exceeding.
    assert_eq!(pay_x.amount, 120);
    assert_eq!(pay_y.amount, 60);
    assert!(pay_x.amount + pay_y.amount <= 181);
}

/// For a completed drawing, the frequency array accounts for every ticket
/// of the snapshot, bucket by bucket.
#[test]
fn completed_drawing_frequency_array_totals_snapshot() {
    let payouts = vec![Payout { n: 3, incentive: 0, pct: 1_000_000 }];
    let mut state = setup(vec![1, 2, 3], payouts, false);

    buy(
        &mut state,
        &"X".to_string(),
        None,
        vec![vec![1, 2, 3], vec![4, 5, 6], vec![1, 2, 4]],
        &funds(300),
        0,
    )
    .expect("buy");
    draw(&mut state, &"drawer".to_string(), None, &env_at(60, 300)).expect("draw");

    let d = lotto::query::drawing(&state, Some(1)).expect("query").expect("drawing");
    assert_eq!(d.ticket_count, 3);
    assert_eq!(d.processed_ticket_count, 3);
    let total: u32 = d.match_counts.iter().map(|m| *m as u32).sum();
    assert_eq!(total, 3);
    // [4,5,6] matches 0, [1,2,4] matches 2, [1,2,3] matches 3
    assert_eq!(d.match_counts, vec![1, 0, 1, 1]);
}

/// Approval gate: a jackpot win cannot be settled while unapproved; after
/// approval it settles; rejection instead removes the claim with zero
/// payout.
#[test]
fn approval_gate_blocks_until_approved() {
    let payouts = vec![Payout { n: 3, incentive: 0, pct: 1_000_000 }];
    let mut state = setup(vec![1, 2, 3], payouts, true);

    buy(&mut state, &"Z".to_string(), None, vec![vec![1, 2, 3]], &funds(100), 0).expect("buy Z");
    let resp = draw(&mut state, &"drawer".to_string(), None, &env_at(60, 100)).expect("draw");
    assert!(resp.is_complete);

    // settle fails with pending-approval until approve succeeds
    let err = claim(&mut state, &"Z".to_string()).unwrap_err();
    assert_eq!(err, ContractError::PendingApproval);

    // a non-admin cannot approve
    let err = approve(&mut state, &"mallory".to_string(), false, &"Z".to_string()).unwrap_err();
    assert_eq!(err, ContractError::NotAuthorized);

    approve(&mut state, &"admin".to_string(), false, &"Z".to_string()).expect("approve");
    // no re-approval of an approved claim
    let err = approve(&mut state, &"admin".to_string(), false, &"Z".to_string()).unwrap_err();
    assert_eq!(err, ContractError::NotAuthorized);

    let pay = claim(&mut state, &"Z".to_string()).expect("claim").expect("payment");
    // pot 100: gross 100, tax 10, net 90
    assert_eq!(pay.amount, 90);
}

#[test]
fn rejection_removes_claim_with_zero_payout() {
    let payouts = vec![Payout { n: 3, incentive: 0, pct: 1_000_000 }];
    let mut state = setup(vec![1, 2, 3], payouts, true);

    buy(&mut state, &"Z".to_string(), None, vec![vec![1, 2, 3]], &funds(100), 0).expect("buy Z");
    draw(&mut state, &"drawer".to_string(), None, &env_at(60, 100)).expect("draw");
    assert!(load_claim(&state, &"Z".to_string()).is_ok());
    let reserved = state.balance_claimable;
    assert!(reserved > 0);

    reject(&mut state, &"admin".to_string(), false, &"Z".to_string()).expect("reject");
    assert_eq!(state.balance_claimable, 0);
    let err = load_claim(&state, &"Z".to_string()).unwrap_err();
    assert_eq!(err, ContractError::ClaimNotFound);

    // rejection pays nothing: the account records no winnings
    let acc = load_account(&state, &"Z".to_string()).expect("account");
    assert_eq!(acc.totals.winnings, 0);

    let err = claim(&mut state, &"Z".to_string()).unwrap_err();
    assert_eq!(err, ContractError::ClaimNotFound);
}

/// The boundary case of treasury reconciliation: a rolling round whose
/// balance exactly equals payout plus tax routes precisely, with no
/// double-count.
#[test]
fn rolling_settlement_boundary_routes_exactly() {
    let payouts = vec![Payout { n: 3, incentive: 0, pct: 500_000 }];
    let mut state = setup(vec![1, 2, 3], payouts, false);

    buy(&mut state, &"X".to_string(), None, vec![vec![1, 2, 3]], &funds(100), 0).expect("buy");
    // pot = 200; tier gross = 100, tax = 10, net = 90; payout + tax = 100.
    // round balance (200) >= payout + tax (100): house receives exactly
    // payout + tax and releases the payout.
    let resp = draw(&mut state, &"drawer".to_string(), None, &env_at(60, 200)).expect("draw");
    match resp.action {
        DrawAction::SettleHouse { incoming, outgoing } => {
            assert_eq!(outgoing, 90);
            assert_eq!(incoming, 100);
        },
        _ => panic!("expected a house settlement"),
    }

    // non-rolling variant: the whole round balance goes to the house
    let payouts = vec![Payout { n: 3, incentive: 0, pct: 500_000 }];
    let mut cfg = base_config(payouts, false);
    cfg.rolling = false;
    let msg = InstantiateMsg {
        owner: Some(Owner::Address("admin".to_string())),
        config: cfg,
        winning_numbers: Some(vec![1, 2, 3]),
    };
    let mut state2 = initialize(0, 1, &"admin".to_string(), msg).expect("init");
    buy(&mut state2, &"X".to_string(), None, vec![vec![1, 2, 3]], &funds(100), 0).expect("buy");
    let resp2 = draw(&mut state2, &"drawer".to_string(), None, &env_at(60, 200)).expect("draw");
    match resp2.action {
        DrawAction::SettleHouse { incoming, outgoing } => {
            assert_eq!(outgoing, 90);
            assert_eq!(incoming, 200);
        },
        _ => panic!("expected a house settlement"),
    }
}

/// A claim's cached amount is always recomputed from the current drawing
/// and payout table, never trusted.
#[test]
fn claim_amount_is_recomputed_from_drawing() {
    let payouts = vec![
        Payout { n: 3, incentive: 0, pct: 1_000_000 },
        Payout { n: 2, incentive: 50, pct: 0 },
    ];
    let mut state = setup(vec![1, 2, 3], payouts, false);
    buy(&mut state, &"X".to_string(), None, vec![vec![1, 2, 3]], &funds(100), 0).expect("buy");
    draw(&mut state, &"drawer".to_string(), None, &env_at(60, 100)).expect("draw");

    let d = lotto::query::drawing(&state, Some(1)).expect("q").expect("d");
    let mut c = lotto::util::copy_claim(&state.claims[0].claim);
    // poison the cache; recomputation must overwrite it
    c.amount = Some(123_456);
    c.set_amount(&d, &state.payouts);
    // pot 100: gross 100, tax 10, net 90
    assert_eq!(c.amount, Some(90));
    assert_eq!(
        lotto::util::calc_total_claim_amount(&c, &d, &state.payouts),
        90
    );
}

/// The pot tax is charged once on the pot-share total, rounded down, while
/// each tier's allocation withholds its share rounded up — so the
/// allocations never exceed the reserved net payout.
#[test]
fn pot_tax_is_charged_on_the_total() {
    // two tiers at 50% of a pot of 30: gross 15 each, total 30;
    // tax = 10% of 30 = 3, net pot payout 27
    let payouts = vec![
        Payout { n: 3, incentive: 0, pct: 500_000 },
        Payout { n: 2, incentive: 0, pct: 500_000 },
    ];
    let mut state = setup(vec![1, 2, 3], payouts, false);
    buy(&mut state, &"X".to_string(), None, vec![vec![1, 2, 3]], &funds(100), 0).expect("buy X");
    buy(&mut state, &"Y".to_string(), None, vec![vec![1, 2, 4]], &funds(100), 0).expect("buy Y");

    // the pot the host reports at draw time is 30

    let resp = draw(&mut state, &"drawer".to_string(), None, &env_at(60, 30)).expect("draw");
    assert!(resp.is_complete);

    let d = lotto::query::drawing(&state, Some(1)).expect("q").expect("d");
    assert_eq!(d.pot_payout, 27);
    assert_eq!(d.total_payout, 27);
    assert_eq!(state.balance_claimable, 27);

    // each tier allocation withholds ceil(1.5) = 2: 13 per winner
    let pay_x = claim(&mut state, &"X".to_string()).expect("claim X").expect("pay X");
    let pay_y = claim(&mut state, &"Y".to_string()).expect("claim Y").expect("pay Y");
    assert_eq!(pay_x.amount, 13);
    assert_eq!(pay_y.amount, 13);
    assert!(pay_x.amount + pay_y.amount <= 27);
}

/// Winnings accumulate across settled claims.
#[test]
fn winnings_accumulate_across_rounds() {
    let payouts = vec![Payout { n: 3, incentive: 0, pct: 1_000_000 }];
    let mut state = setup(vec![1, 2, 3], payouts, false);

    buy(&mut state, &"X".to_string(), None, vec![vec![1, 2, 3]], &funds(100), 0).expect("buy 1");
    draw(&mut state, &"drawer".to_string(), None, &env_at(60, 100)).expect("draw 1");
    claim(&mut state, &"X".to_string()).expect("claim 1");
    assert_eq!(load_account(&state, &"X".to_string()).expect("a").totals.winnings, 90);

    buy(&mut state, &"X".to_string(), None, vec![vec![1, 2, 3]], &funds(100), 0).expect("buy 2");
    draw(&mut state, &"drawer".to_string(), None, &env_at(120, 100)).expect("draw 2");
    claim(&mut state, &"X".to_string()).expect("claim 2");
    // 90 from each round, accumulated
    assert_eq!(load_account(&state, &"X".to_string()).expect("a").totals.winnings, 180);
}
