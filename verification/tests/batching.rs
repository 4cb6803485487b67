use lotto::error::ContractError;
use lotto::execute::buy::buy;
use lotto::execute::draw::{draw, DrawEnv};
use lotto::models::{
    Coin, Config, MarketingInfo, Owner, Payout, RoundStatus, Style, StyleValue, Token,
};
use lotto::msg::InstantiateMsg;
use lotto::state::{initialize, LottoState};

fn wide_config(batch_size: Option<u16>) -> Config {
    Config {
        token: Token::Native { denom: "ujuno".to_string() },
        price: 1,
        max_number: 200,
        number_count: 1,
        round_seconds: 60,
        house_address: "house".to_string(),
        marketing: MarketingInfo { name: "lotto".to_string(), description: None },
        style: Style {
            bg: StyleValue::Str("blue".to_string()),
            colors: vec![],
            font: None,
            logo: None,
        },
        payouts: vec![Payout { n: 1, incentive: 1, pct: 0 }],
        rolling: true,
        min_balance: 0,
        drawer: "drawer".to_string(),
        batch_size,
        use_approval: Some(false),
        nois_proxy: None,
    }
}

fn setup(batch_size: Option<u16>) -> LottoState {
    let msg = InstantiateMsg {
        owner: Some(Owner::Address("admin".to_string())),
        config: wide_config(batch_size),
        winning_numbers: Some(vec![7]),
    };
    initialize(0, 1, &"admin".to_string(), msg).expect("init")
}

fn funds(amount: u128) -> Vec<Coin> {
    vec![Coin { denom: "ujuno".to_string(), amount }]
}

fn env_at(time: u64, contract_balance: u128) -> DrawEnv {
    DrawEnv {
        time,
        time_nanos: time * 1_000_000_000,
        height: 10,
        tx_index: 0,
        contract_addr: b"contract".to_vec(),
        contract_balance,
    }
}

fn selections(n: u16) -> Vec<Vec<u16>> {
    (0..n).map(|v| vec![v]).collect()
}

/// With more tickets than one batch holds, the draw takes exactly as many
/// `advance` calls as there are batches; intermediate calls report
/// incomplete and the round remains in Drawing state throughout.
#[test]
fn draw_takes_one_advance_call_per_batch() {
    // the batch size clamps to its floor of 100; 101 entries need 2 calls
    let mut state = setup(Some(100));
    buy(&mut state, &"X".to_string(), None, selections(101), &funds(101), 0).expect("buy");
    assert_eq!(state.ticket_count, 101);

    let r1 = draw(&mut state, &"drawer".to_string(), None, &env_at(60, 101)).expect("advance 1");
    assert!(!r1.is_complete);
    assert_eq!(state.round_status, RoundStatus::Drawing);
    assert_eq!(state.round_no, 1);
    let d = lotto::query::drawing(&state, Some(1)).expect("q").expect("drawing");
    assert_eq!(d.processed_ticket_count, 100);

    // mid-drawing, ticket sales are closed
    let err = buy(&mut state, &"Y".to_string(), None, selections(1), &funds(1), 0).unwrap_err();
    assert_eq!(err, ContractError::NotActive);

    let r2 = draw(&mut state, &"drawer".to_string(), None, &env_at(61, 101)).expect("advance 2");
    assert!(r2.is_complete);
    assert_eq!(state.round_status, RoundStatus::Active);
    assert_eq!(state.round_no, 2);
}

/// Partition invariance: a scan that needs two bounded batches ends with
/// exactly the same frequency array and claim set as an unbounded single
/// pass over the same tickets.
#[test]
fn batched_scan_matches_single_pass() {
    let mut batched = setup(Some(100));
    let mut single = setup(Some(1000));

    for state in [&mut batched, &mut single] {
        buy(state, &"X".to_string(), None, selections(150), &funds(150), 0).expect("buy");
        buy(state, &"Y".to_string(), None, vec![vec![7]], &funds(1), 0).expect("buy Y");
    }

    // two calls for the batched state
    let r = draw(&mut batched, &"drawer".to_string(), None, &env_at(60, 151)).expect("b1");
    assert!(!r.is_complete);
    let r = draw(&mut batched, &"drawer".to_string(), None, &env_at(61, 151)).expect("b2");
    assert!(r.is_complete);

    // one call for the unbounded state
    let r = draw(&mut single, &"drawer".to_string(), None, &env_at(60, 151)).expect("s1");
    assert!(r.is_complete);

    let db = lotto::query::drawing(&batched, Some(1)).expect("q").expect("d");
    let ds = lotto::query::drawing(&single, Some(1)).expect("q").expect("d");
    assert_eq!(db.match_counts, ds.match_counts);
    assert_eq!(db.processed_ticket_count, ds.processed_ticket_count);

    assert_eq!(batched.claims.len(), single.claims.len());
    for (cb, cs) in batched.claims.iter().zip(single.claims.iter()) {
        assert_eq!(cb.owner, cs.owner);
        assert_eq!(cb.claim.matches, cs.claim.matches);
        assert_eq!(cb.claim.round_no, cs.claim.round_no);
    }
    assert_eq!(batched.jackpot_claimants.len(), single.jackpot_claimants.len());
}

/// Round-level idempotence: once a round completes, the next `advance`
/// begins a fresh round over a cleared ticket store — prior tickets are
/// never reprocessed.
#[test]
fn completed_round_never_reprocesses_tickets() {
    let mut state = setup(None);
    buy(&mut state, &"X".to_string(), None, vec![vec![7]], &funds(1), 0).expect("buy");

    let r = draw(&mut state, &"drawer".to_string(), None, &env_at(60, 1)).expect("advance");
    assert!(r.is_complete);
    assert_eq!(state.round_no, 2);
    assert_eq!(state.ticket_count, 0);
    assert!(state.tickets.is_empty());

    // the next round settles trivially: no tickets exist to rescore
    let r = draw(&mut state, &"drawer".to_string(), None, &env_at(120, 1)).expect("advance 2");
    assert!(r.is_complete);
    assert_eq!(state.round_no, 3);
    let d2 = lotto::query::drawing(&state, Some(2)).expect("q");
    assert!(d2.is_none());
    // the first round's drawing still records exactly one processed ticket
    let d1 = lotto::query::drawing(&state, Some(1)).expect("q").expect("d");
    assert_eq!(d1.processed_ticket_count, 1);

    // with no round number given, the query reports the latest drawing
    let latest = lotto::query::drawing(&state, None).expect("q");
    assert!(latest.is_none());
    let latest = lotto::state::load_latest_drawing(&state);
    assert!(latest.is_none());
}
