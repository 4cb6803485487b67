use lotto::error::ContractError;
use lotto::execute::buy::{buy, buy_seed};
use lotto::execute::draw::{draw, CallbackMsg, DrawAction, DrawEnv};
use lotto::execute::set_config::set_config;
use lotto::execute::withdraw::withdraw;
use lotto::models::{
    Coin, Config, MarketingInfo, Owner, Payout, RoundStatus, Style, StyleValue, Token,
};
use lotto::msg::InstantiateMsg;
use lotto::query::{dry_run, ready, select};
use lotto::state::LottoState;
use lotto::state::initialize;
use lotto::util::{hash_numbers, mul_pct, mul_ratio};
use lotto::xorshift32::Xorshift32;

fn config(nois_proxy: Option<String>) -> Config {
    Config {
        token: Token::Native { denom: "ujuno".to_string() },
        price: 100,
        max_number: 9,
        number_count: 3,
        round_seconds: 60,
        house_address: "house".to_string(),
        marketing: MarketingInfo { name: "lotto".to_string(), description: None },
        style: Style {
            bg: StyleValue::Str("blue".to_string()),
            colors: vec![],
            font: None,
            logo: None,
        },
        payouts: vec![
            Payout { n: 3, incentive: 0, pct: 1_000_000 },
            Payout { n: 2, incentive: 50, pct: 0 },
        ],
        rolling: true,
        min_balance: 0,
        drawer: "drawer".to_string(),
        batch_size: None,
        use_approval: Some(false),
        nois_proxy,
    }
}

fn setup(nois_proxy: Option<String>) -> LottoState {
    let msg = InstantiateMsg {
        owner: Some(Owner::Address("admin".to_string())),
        config: config(nois_proxy),
        winning_numbers: None,
    };
    initialize(0, 1, &"admin".to_string(), msg).expect("init")
}

fn funds(amount: u128) -> Vec<Coin> {
    vec![Coin { denom: "ujuno".to_string(), amount }]
}

fn env_at(time: u64, contract_balance: u128) -> DrawEnv {
    DrawEnv {
        time,
        time_nanos: time,
        height: 2,
        tx_index: 0,
        contract_addr: b"c".to_vec(),
        contract_balance,
    }
}

/// Every ticket must have exactly the configured count of distinct numbers
/// in range; anything else is rejected, naming the violation.
#[test]
fn ticket_validation_rejects_malformed_selections() {
    let mut state = setup(None);
    let sender = "X".to_string();

    let err = buy(&mut state, &sender, None, vec![vec![1, 2]], &funds(100), 0).unwrap_err();
    assert_eq!(err, ContractError::InvalidNumberCount);

    let err = buy(&mut state, &sender, None, vec![vec![1, 2, 2]], &funds(100), 0).unwrap_err();
    assert_eq!(err, ContractError::DuplicateNumber);

    let err = buy(&mut state, &sender, None, vec![vec![1, 2, 10]], &funds(100), 0).unwrap_err();
    assert_eq!(err, ContractError::NumberOutOfBounds);

    // nothing was registered by the rejected purchases
    assert_eq!(state.ticket_count, 0);
    assert!(state.tickets.is_empty());

    let err = buy(&mut state, &sender, None, vec![vec![1, 2, 3]], &funds(99), 0).unwrap_err();
    assert_eq!(err, ContractError::InsufficientFunds);

    buy(&mut state, &sender, None, vec![vec![1, 2, 3]], &funds(100), 0).expect("valid buy");
    assert_eq!(state.ticket_count, 1);
}

#[test]
fn config_validation() {
    let mut c = config(None);
    assert!(c.validate().is_ok());
    c.price = 0;
    assert_eq!(c.validate().unwrap_err(), ContractError::ValidationError);

    let mut c = config(None);
    c.round_seconds = 59;
    assert!(c.validate().is_err());

    let mut c = config(None);
    c.payouts.push(Payout { n: 3, incentive: 1, pct: 0 });
    // duplicate tier threshold
    assert!(c.validate().is_err());

    let mut c = config(None);
    c.payouts[0].pct = 1_000_001;
    assert!(c.validate().is_err());

    let mut c = config(None);
    c.number_count = 11;
    c.max_number = 9;
    // more numbers than distinct values exist
    assert!(c.validate().is_err());
}

#[test]
fn number_key_formatting() {
    assert_eq!(hash_numbers(&vec![1, 2, 3]), "1:2:3".to_string());
    assert_eq!(hash_numbers(&vec![305, 0, 47]), "305:0:47".to_string());
    assert_eq!(hash_numbers(&vec![]), "".to_string());
}

#[test]
fn fixed_point_math() {
    assert_eq!(mul_pct(200, 100_000), 20);
    assert_eq!(mul_pct(201, 100_000), 20);
    assert_eq!(mul_pct(200, 1_000_000), 200);
    assert_eq!(mul_pct(0, 500_000), 0);
    assert_eq!(mul_ratio(181, 2, 3), 120);
    assert_eq!(mul_ratio(7, 3, 5), 4);
}

#[test]
fn xorshift_is_reproducible() {
    let mut a = Xorshift32::new(1);
    let mut b = Xorshift32::new(1);
    let x = a.random_int_in_range(0, 9);
    assert_eq!(x, 9);
    assert_eq!(a.random_int_in_range(0, 9), 9);
    assert_eq!(b.random_int_in_range(0, 9), x);
    // swapped bounds draw from the same range
    let mut c = Xorshift32::new(1);
    assert_eq!(c.random_int_in_range(9, 0), 9);
    // a degenerate range returns its single value without consuming a draw
    assert_eq!(c.random_int_in_range(4, 4), 4);
}

#[test]
fn dry_run_simulates_deterministically() {
    let state = setup(None);
    let r1 = dry_run(&state, 1, 2, &vec![], 5, 2, 0, &b"c".to_vec()).expect("dry run");
    let r2 = dry_run(&state, 1, 2, &vec![], 5, 2, 0, &b"c".to_vec()).expect("dry run again");
    assert_eq!(r1.winning_numbers, r2.winning_numbers);
    assert_eq!(r1.match_counts, r2.match_counts);
    assert_eq!(r1.winning_numbers, vec![1, 4, 8]);
    // one match each, and the simulated tickets are reported for audit
    assert_eq!(r1.tickets, vec![vec![9, 1, 5], vec![3, 4, 2]]);
    assert_eq!(r1.match_counts, vec![0, 2, 0, 0]);
    let total: u32 = r1.match_counts.iter().map(|m| *m as u32).sum();
    assert_eq!(total, 2);
}

#[test]
fn seeded_purchase_registers_generated_tickets() {
    let mut state = setup(None);
    buy_seed(&mut state, &"X".to_string(), None, 3, 42, &funds(300), 0).expect("buy seed");
    assert_eq!(state.ticket_count, 3);
}

#[test]
fn timing_and_authorization() {
    let mut state = setup(None);
    buy(&mut state, &"X".to_string(), None, vec![vec![1, 2, 3]], &funds(100), 0).expect("buy");

    // the round has not reached its end time
    let err = draw(&mut state, &"drawer".to_string(), None, &env_at(59, 100)).unwrap_err();
    assert_eq!(err, ContractError::ActiveRound);

    assert_eq!(ready(&state, 2, 59).expect("ready"), false);
    assert_eq!(ready(&state, 2, 60).expect("ready"), true);
    // no fresh block yet
    assert_eq!(ready(&state, 1, 60).expect("ready"), false);

    // only the single designated drawer may advance the state machine
    let err = draw(&mut state, &"anyone".to_string(), None, &env_at(60, 100)).unwrap_err();
    assert_eq!(err, ContractError::NotAuthorized);

    let r = draw(&mut state, &"drawer".to_string(), None, &env_at(60, 100)).expect("draw");
    assert!(r.is_complete);

    // purchases are rejected while a drawing would be running; withdraw is
    // admin-gated
    let err = withdraw(&state, &"mallory".to_string(), false, 100).unwrap_err();
    assert_eq!(err, ContractError::NotAuthorized);
    let pay = withdraw(&state, &"admin".to_string(), false, 100).expect("withdraw").expect("pay");
    assert_eq!(pay.amount, 100);
}

#[test]
fn beacon_flow_parks_round_until_callback() {
    let mut state = setup(Some("proxy".to_string()));
    buy(&mut state, &"X".to_string(), None, vec![vec![1, 2, 3]], &funds(100), 0).expect("buy");

    // only the drawer may request randomness
    let err = draw(&mut state, &"mallory".to_string(), None, &env_at(60, 100)).unwrap_err();
    assert_eq!(err, ContractError::NotAuthorized);

    let r = draw(&mut state, &"drawer".to_string(), None, &env_at(60, 100)).expect("request");
    assert!(!r.is_complete);
    assert!(matches!(r.action, DrawAction::RequestRandomness { job_id: 1 }));
    assert_eq!(state.round_status, RoundStatus::Drawing);

    // parked: a plain advance cannot proceed
    let err = draw(&mut state, &"drawer".to_string(), None, &env_at(61, 100)).unwrap_err();
    assert_eq!(err, ContractError::WaitingForRandomness);

    // the callback must come from the configured beacon
    let cb = CallbackMsg { round_no: 1, randomness: vec![1, 2, 3, 4] };
    let err = draw(&mut state, &"mallory".to_string(), Some(cb), &env_at(62, 100)).unwrap_err();
    assert_eq!(err, ContractError::NotAuthorized);

    let cb = CallbackMsg { round_no: 1, randomness: vec![1, 2, 3, 4] };
    let r = draw(&mut state, &"proxy".to_string(), Some(cb), &env_at(62, 100)).expect("callback");
    assert!(!r.is_complete);

    // with the drawing installed, the drawer finishes the scan
    let r = draw(&mut state, &"drawer".to_string(), None, &env_at(63, 100)).expect("scan");
    assert!(r.is_complete);
    assert_eq!(state.round_status, RoundStatus::Active);
    assert_eq!(state.round_no, 2);
}

#[test]
fn staged_config_applies_only_at_round_boundary() {
    let mut state = setup(None);

    let mut new_cfg = config(None);
    new_cfg.price = 250;
    let err = set_config(&mut state, &"mallory".to_string(), false, new_cfg).unwrap_err();
    assert_eq!(err, ContractError::NotAuthorized);

    let mut new_cfg = config(None);
    new_cfg.price = 250;
    set_config(&mut state, &"admin".to_string(), false, new_cfg).expect("set config");

    // the active price is unchanged mid-round
    assert_eq!(state.price, 100);
    buy(&mut state, &"X".to_string(), None, vec![vec![1, 2, 3]], &funds(100), 0).expect("buy");

    let r = draw(&mut state, &"drawer".to_string(), None, &env_at(60, 100)).expect("draw");
    assert!(r.is_complete);

    // the staged configuration took effect at the rollover
    assert_eq!(state.price, 250);
    assert!(state.staged_config.is_none());
    let err = buy(&mut state, &"X".to_string(), None, vec![vec![1, 2, 3]], &funds(100), 0)
        .unwrap_err();
    assert_eq!(err, ContractError::InsufficientFunds);
}

#[test]
fn select_reports_requested_fields() {
    let state = setup(None);
    let resp = select(
        &state,
        500,
        Some(vec!["round".to_string(), "balance".to_string()]),
        None,
    )
    .expect("select");
    assert!(resp.owner.is_none());
    assert!(resp.config.is_none());
    let round = resp.round.expect("round");
    assert_eq!(round.round_no, 1);
    assert_eq!(round.balance, 500);
    assert_eq!(resp.balance, Some(500));
    assert_eq!(resp.balance_claimable, Some(0));

    let all = select(&state, 500, None, None).expect("select all");
    assert!(all.owner.is_some());
    let cfg = all.config.expect("config");
    assert_eq!(cfg.price, 100);
    assert_eq!(cfg.batch_size, Some(1000));
}

#[test]
fn claims_listing_and_pending_approval() {
    let msg = InstantiateMsg {
        owner: Some(Owner::Address("admin".to_string())),
        config: {
            let mut c = config(None);
            c.use_approval = Some(true);
            c
        },
        winning_numbers: Some(vec![1, 2, 3]),
    };
    let mut state = initialize(0, 1, &"admin".to_string(), msg).expect("init");

    buy(&mut state, &"X".to_string(), None, vec![vec![1, 2, 3]], &funds(100), 0).expect("buy X");
    buy(&mut state, &"Y".to_string(), None, vec![vec![1, 2, 4]], &funds(100), 0).expect("buy Y");
    let r = draw(&mut state, &"drawer".to_string(), None, &env_at(60, 200)).expect("draw");
    assert!(r.is_complete);

    let page = lotto::query::claims(&state, None, None).expect("claims");
    assert_eq!(page.len(), 2);
    // pot 200: jackpot gross 200, tax 20, net 180; two-match incentive 50
    let amounts: Vec<u128> = page.iter().map(|c| c.amount.unwrap()).collect();
    assert!(amounts.contains(&180));
    assert!(amounts.contains(&50));

    // pagination resumes strictly after the cursor owner
    let first_owner = state.claims[0].owner.clone();
    let rest = lotto::query::claims(&state, Some(first_owner), None).expect("claims page 2");
    assert_eq!(rest.len(), 1);

    let pending = lotto::query::claims_pending_approval(&state).expect("pending");
    assert_eq!(pending.len(), 1);
    assert_eq!(pending[0].owner, "X".to_string());
    assert_eq!(pending[0].amount, Some(180));
    assert!(!pending[0].is_approved);

    let one = lotto::query::claim(&state, &"Y".to_string()).expect("claim q").expect("some");
    assert_eq!(one.amount, 50);
    assert_eq!(one.round_no, 1);
    assert_eq!(one.winning_tickets.len(), 1);
}
