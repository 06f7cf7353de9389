use flashbet::oracle::FlashbetOracleState;
use flashbet::shared::{
    Bet, EventId, EventResult, FlashBetError, MarketId, Outcome, OracleEvent, Payout, UserEvent,
};
use flashbet::token::TokenState;
use flashbet::user::FlashbetUserState;

fn result(event: &str, outcome: Outcome) -> EventResult {
    EventResult {
        event_id: EventId::new(event.to_string()),
        outcome,
        score: None,
        timestamp: 11,
    }
}

#[test]
fn oracle_authorization_gates_publishing() {
    let mut o = FlashbetOracleState::new("owner".to_string());
    let reporter = "reporter".to_string();
    assert!(!o.is_authorized(&reporter));

    match o.try_publish(&reporter, result("mlb_game_001", Outcome::Home)) {
        Err(FlashBetError::UnauthorizedOracle) => {}
        other => panic!("expected UnauthorizedOracle, got {:?}", other),
    }
    assert!(!o.has_result(&EventId::new("mlb_game_001".to_string())));

    o.authorize_oracle(reporter.clone());
    assert!(o.is_authorized(&reporter));
    match o.try_publish(&reporter, result("mlb_game_001", Outcome::Home)) {
        Ok(OracleEvent::ResultPublished { result }) => {
            assert_eq!(result.event_id.0, "mlb_game_001");
            assert_eq!(result.outcome, Outcome::Home);
        }
        other => panic!("expected ResultPublished, got {:?}", other),
    }
    assert!(o.has_result(&EventId::new("mlb_game_001".to_string())));
    assert_eq!(
        o.get_result(&EventId::new("mlb_game_001".to_string())).unwrap().outcome,
        Outcome::Home
    );
}

#[test]
fn oracle_rejects_duplicate_results() {
    let mut o = FlashbetOracleState::new("owner".to_string());
    let reporter = "reporter".to_string();
    o.authorize_oracle(reporter.clone());
    o.try_publish(&reporter, result("nba_game_001", Outcome::Away)).unwrap();
    match o.try_publish(&reporter, result("nba_game_001", Outcome::Home)) {
        Err(FlashBetError::DuplicateResult(id)) => assert_eq!(id.0, "nba_game_001"),
        other => panic!("expected DuplicateResult, got {:?}", other),
    }
    // the first result stands
    assert_eq!(
        o.get_result(&EventId::new("nba_game_001".to_string())).unwrap().outcome,
        Outcome::Away
    );
}

#[test]
fn oracle_revocation_and_ownership() {
    let mut o = FlashbetOracleState::new("owner".to_string());
    let reporter = "reporter".to_string();
    o.authorize_oracle(reporter.clone());
    o.authorize_oracle(reporter.clone());  // idempotent
    assert!(o.is_authorized(&reporter));
    o.revoke_oracle(&reporter);
    assert!(!o.is_authorized(&reporter));
    match o.try_publish(&reporter, result("nfl_game_001", Outcome::Home)) {
        Err(FlashBetError::UnauthorizedOracle) => {}
        other => panic!("expected UnauthorizedOracle, got {:?}", other),
    }
    assert!(o.is_owner(&"owner".to_string()));
    assert!(!o.is_owner(&reporter));
    assert_eq!(o.get_owner().unwrap(), "owner");
}

#[test]
fn only_the_owner_administers_oracles() {
    let mut o = FlashbetOracleState::new("owner".to_string());
    let reporter = "reporter".to_string();
    match o.try_authorize_oracle(&"mallory".to_string(), reporter.clone()) {
        Err(FlashBetError::UnauthorizedOracle) => {}
        other => panic!("expected UnauthorizedOracle, got {:?}", other),
    }
    assert!(!o.is_authorized(&reporter));
    match o.try_authorize_oracle(&"owner".to_string(), reporter.clone()) {
        Ok(OracleEvent::OracleAuthorized { oracle }) => assert_eq!(oracle, "reporter"),
        other => panic!("expected OracleAuthorized, got {:?}", other),
    }
    assert!(o.is_authorized(&reporter));
    match o.try_revoke_oracle(&"mallory".to_string(), &reporter) {
        Err(FlashBetError::UnauthorizedOracle) => {}
        other => panic!("expected UnauthorizedOracle, got {:?}", other),
    }
    assert!(o.is_authorized(&reporter));
    o.try_revoke_oracle(&"owner".to_string(), &reporter).unwrap();
    assert!(!o.is_authorized(&reporter));
}

#[test]
fn test_ticker_symbol() {
    assert_eq!(flashbet::token::ticker_symbol(), "BET", "Ticker symbol should be 'BET'");
}

#[test]
fn token_credit_and_debit() {
    let mut t = TokenState::new();
    let alice = "alice".to_string();
    let bob = "bob".to_string();
    assert_eq!(t.get_balance(&alice), 0);

    t.credit(&alice, 500);
    t.credit(&bob, 120);
    assert_eq!(t.get_balance(&alice), 500);
    assert_eq!(t.get_balance(&bob), 120);

    t.debit(&alice, 200);
    assert_eq!(t.get_balance(&alice), 300);
    assert_eq!(t.get_balance(&bob), 120);

    // crediting saturates at the ceiling instead of wrapping
    t.credit(&alice, u64::MAX);
    assert_eq!(t.get_balance(&alice), u64::MAX);
}

#[test]
fn user_prepares_and_records_bets() {
    let mut u = FlashbetUserState::new();
    match u.prepare_bet(
        MarketId(1),
        EventId::new("mlb_game_001".to_string()),
        "alice".to_string(),
        Outcome::Home,
        0,
        50,
        "chain9".to_string(),
    ) {
        Err(FlashBetError::InvalidBetAmount(0)) => {}
        other => panic!("expected InvalidBetAmount, got {:?}", other),
    }
    assert_eq!(u.next_bet_id, 0);

    let bet = u
        .prepare_bet(
            MarketId(1),
            EventId::new("mlb_game_001".to_string()),
            "alice".to_string(),
            Outcome::Home,
            100,
            50,
            "chain9".to_string(),
        )
        .unwrap();
    assert_eq!(bet.bet_id, 0);
    assert_eq!(bet.amount, 100);
    assert_eq!(u.next_bet_id, 1);

    let event = u.record_bet("market-chain".to_string(), bet.clone());
    assert_eq!(
        event,
        UserEvent::BetPlaced { market_chain: "market-chain".to_string(), bet: bet.clone() }
    );
    assert_eq!(u.active_bets.len(), 1);
    assert_eq!(u.bet_history.len(), 1);

    // a second bet on the same market replaces the active entry
    let bet2 = u
        .prepare_bet(
            MarketId(1),
            EventId::new("mlb_game_001".to_string()),
            "alice".to_string(),
            Outcome::Away,
            40,
            60,
            "chain9".to_string(),
        )
        .unwrap();
    u.record_bet("market-chain".to_string(), bet2);
    assert_eq!(u.active_bets.len(), 1);
    assert_eq!(u.active_bets[0].outcome, Outcome::Away);
    assert_eq!(u.bet_history.len(), 2);
}

#[test]
fn user_tracks_payout_ids() {
    let mut u = FlashbetUserState::new();
    assert!(!u.has_payout(0));
    let payout = Payout { market_id: MarketId(9), bet_id: 0, amount: 5, timestamp: 1 };
    u.apply_payout(payout);
    assert!(u.has_payout(0));
    assert!(!u.has_payout(1));
}

#[test]
fn user_applies_payouts() {
    let mut u = FlashbetUserState::new();
    let bet = u
        .prepare_bet(
            MarketId(3),
            EventId::new("nba_game_001".to_string()),
            "alice".to_string(),
            Outcome::Home,
            100,
            50,
            "chain9".to_string(),
        )
        .unwrap();
    u.record_bet("market-chain".to_string(), bet);
    assert_eq!(u.active_bets.len(), 1);

    let payout = Payout { market_id: MarketId(3), bet_id: 0, amount: 166, timestamp: 90 };
    let event = u.apply_payout(payout);
    assert_eq!(
        event,
        UserEvent::PayoutReceived { market_id: MarketId(3), bet_id: 0, amount: 166 }
    );
    assert_eq!(u.active_bets.len(), 0);
    assert_eq!(u.payout_history.len(), 1);
    assert_eq!(u.bet_history.len(), 1);
}
