use flashbet::market::{payout_amount, FlashbetMarketState};
use flashbet::shared::{
    Bet, EventId, EventResult, FlashBetError, MarketEvent, MarketId, MarketInfo, MarketStatus,
    MarketType, Outcome,
};

fn info(event: &str, market_type: MarketType) -> MarketInfo {
    MarketInfo {
        event_id: EventId::new(event.to_string()),
        description: "Yankees vs Red Sox".to_string(),
        event_time: 1_000_000,
        market_type,
        home_team: "Yankees".to_string(),
        away_team: "Red Sox".to_string(),
    }
}

fn bet(id: u64, event: &str, outcome: Outcome, amount: u64) -> Bet {
    Bet {
        bet_id: id,
        market_id: MarketId(1),
        event_id: EventId::new(event.to_string()),
        user: format!("user{}", id),
        outcome,
        amount,
        timestamp: id,
        user_chain: format!("chain{}", id),
    }
}

fn result(event: &str, outcome: Outcome) -> EventResult {
    EventResult {
        event_id: EventId::new(event.to_string()),
        outcome,
        score: None,
        timestamp: 7,
    }
}

#[test]
fn create_market_starts_open_with_empty_pools() {
    let mut s = FlashbetMarketState::new();
    let ev = s.create_market(info("mlb_game_001", MarketType::MatchWinner)).unwrap();
    match ev {
        MarketEvent::MarketCreated { event_id, description } => {
            assert_eq!(event_id.0, "mlb_game_001");
            assert_eq!(description, "Yankees vs Red Sox");
        }
        other => panic!("expected MarketCreated, got {:?}", other),
    }
    let id = EventId::new("mlb_game_001".to_string());
    assert!(s.market_exists(&id));
    assert_eq!(s.get_status(&id), MarketStatus::Open);
    assert!(s.is_open(&id));
    assert_eq!(s.get_total_pool(&id), 0);
    assert_eq!(s.get_bet_count(&id), 0);
    assert_eq!(s.get_market(&id).unwrap().home_team, "Yankees");
}

#[test]
fn create_market_rejects_bad_id_and_duplicate() {
    let mut s = FlashbetMarketState::new();
    match s.create_market(info("soccer_game_001", MarketType::MatchWinner)) {
        Err(FlashBetError::InvalidEventId(id)) => assert_eq!(id, "soccer_game_001"),
        other => panic!("expected InvalidEventId, got {:?}", other),
    }
    s.create_market(info("mlb_game_001", MarketType::MatchWinner)).unwrap();
    match s.create_market(info("mlb_game_001", MarketType::MatchWinner)) {
        Err(FlashBetError::DuplicateMarket(id)) => assert_eq!(id.0, "mlb_game_001"),
        other => panic!("expected DuplicateMarket, got {:?}", other),
    }
}

#[test]
fn admission_updates_pools_and_conserves_total() {
    let mut s = FlashbetMarketState::new();
    s.create_market(info("mlb_game_001", MarketType::MatchWinner)).unwrap();
    let id = EventId::new("mlb_game_001".to_string());

    let ev = s.register_bet(bet(0, "mlb_game_001", Outcome::Home, 100)).unwrap();
    assert_eq!(
        ev,
        MarketEvent::BetPlaced {
            market_id: MarketId(1),
            bet_id: 0,
            outcome: Outcome::Home,
            amount: 100,
            total_pool: 100,
        }
    );
    s.register_bet(bet(1, "mlb_game_001", Outcome::Away, 40)).unwrap();
    s.register_bet(bet(2, "mlb_game_001", Outcome::Draw, 10)).unwrap();
    s.register_bet(bet(3, "mlb_game_001", Outcome::Home, 50)).unwrap();

    let home = s.get_pool_for_outcome(&id, &Outcome::Home);
    let away = s.get_pool_for_outcome(&id, &Outcome::Away);
    let draw = s.get_pool_for_outcome(&id, &Outcome::Draw);
    assert_eq!(home, 150);
    assert_eq!(away, 40);
    assert_eq!(draw, 10);
    assert_eq!(s.get_total_pool(&id), home + away + draw);
    assert_eq!(s.get_bet_count(&id), 4);
    assert_eq!(s.get_bets_for_outcome(&id, &Outcome::Home).len(), 2);
    let all = s.get_bets(&id);
    assert_eq!(all.len(), 4);
    assert_eq!(all[3].amount, 50);
    assert!(s.get_bets(&EventId::new("nfl_none".to_string())).is_empty());
}

#[test]
fn admission_rejections_leave_pools_untouched() {
    let mut s = FlashbetMarketState::new();
    s.create_market(info("mlb_game_001", MarketType::OverUnder { line: 8 })).unwrap();
    let id = EventId::new("mlb_game_001".to_string());
    s.register_bet(bet(0, "mlb_game_001", Outcome::Home, 100)).unwrap();

    match s.register_bet(bet(1, "nba_other_game", Outcome::Home, 10)) {
        Err(FlashBetError::MarketNotFound(e)) => assert_eq!(e.0, "nba_other_game"),
        other => panic!("expected MarketNotFound, got {:?}", other),
    }
    match s.register_bet(bet(2, "mlb_game_001", Outcome::Draw, 10)) {
        Err(FlashBetError::InvalidOutcome) => {}
        other => panic!("expected InvalidOutcome, got {:?}", other),
    }
    match s.register_bet(bet(3, "mlb_game_001", Outcome::Home, 0)) {
        Err(FlashBetError::InvalidBetAmount(a)) => assert_eq!(a, 0),
        other => panic!("expected InvalidBetAmount, got {:?}", other),
    }
    match s.register_bet(bet(4, "mlb_game_001", Outcome::Home, u64::MAX)) {
        Err(FlashBetError::PoolOverflow) => {}
        other => panic!("expected PoolOverflow, got {:?}", other),
    }
    assert_eq!(s.get_total_pool(&id), 100);
    assert_eq!(s.get_bet_count(&id), 1);

    s.lock_market(&id).unwrap();
    match s.register_bet(bet(5, "mlb_game_001", Outcome::Home, 10)) {
        Err(FlashBetError::MarketNotOpen(MarketStatus::Locked)) => {}
        other => panic!("expected MarketNotOpen(Locked), got {:?}", other),
    }
    assert_eq!(s.get_total_pool(&id), 100);
}

#[test]
fn redelivered_bet_is_not_pooled_twice() {
    let mut s = FlashbetMarketState::new();
    s.create_market(info("mlb_game_001", MarketType::MatchWinner)).unwrap();
    let id = EventId::new("mlb_game_001".to_string());
    s.register_bet(bet(0, "mlb_game_001", Outcome::Home, 100)).unwrap();

    // the same bet again, and a different bet reusing the identifier
    match s.register_bet(bet(0, "mlb_game_001", Outcome::Home, 100)) {
        Err(FlashBetError::DuplicateBet(b)) => assert_eq!(b, 0),
        other => panic!("expected DuplicateBet, got {:?}", other),
    }
    match s.register_bet(bet(0, "mlb_game_001", Outcome::Away, 55)) {
        Err(FlashBetError::DuplicateBet(b)) => assert_eq!(b, 0),
        other => panic!("expected DuplicateBet, got {:?}", other),
    }
    assert_eq!(s.get_total_pool(&id), 100);
    assert_eq!(s.get_pool_for_outcome(&id, &Outcome::Home), 100);
    assert_eq!(s.get_pool_for_outcome(&id, &Outcome::Away), 0);
    assert_eq!(s.get_bet_count(&id), 1);

    // the identifier is free on another market
    s.create_market(info("nba_game_002", MarketType::MatchWinner)).unwrap();
    s.register_bet(bet(0, "nba_game_002", Outcome::Home, 30)).unwrap();
}

#[test]
fn draw_on_over_under_rejected_whatever_the_status() {
    let mut s = FlashbetMarketState::new();
    s.create_market(info("nba_game_002", MarketType::OverUnder { line: 8 })).unwrap();
    match s.register_bet(bet(0, "nba_game_002", Outcome::Draw, 25)) {
        Err(FlashBetError::InvalidOutcome) => {}
        other => panic!("expected InvalidOutcome, got {:?}", other),
    }
    let id = EventId::new("nba_game_002".to_string());
    s.lock_market(&id).unwrap();
    match s.register_bet(bet(1, "nba_game_002", Outcome::Draw, 25)) {
        Err(FlashBetError::MarketNotOpen(MarketStatus::Locked)) => {}
        other => panic!("expected MarketNotOpen, got {:?}", other),
    }
}

#[test]
fn lifecycle_legality() {
    let mut s = FlashbetMarketState::new();
    s.create_market(info("mlb_game_001", MarketType::MatchWinner)).unwrap();
    let id = EventId::new("mlb_game_001".to_string());

    // lock from Open succeeds once; a second lock fails
    s.lock_market(&id).unwrap();
    assert_eq!(s.get_status(&id), MarketStatus::Locked);
    match s.lock_market(&id) {
        Err(FlashBetError::MarketNotOpen(MarketStatus::Locked)) => {}
        other => panic!("expected MarketNotOpen(Locked), got {:?}", other),
    }

    // resolve from Locked succeeds; lock on Resolved fails
    s.resolve_market(&id, Outcome::Away);
    assert_eq!(s.get_status(&id), MarketStatus::Resolved(Outcome::Away));
    match s.lock_market(&id) {
        Err(FlashBetError::MarketNotOpen(MarketStatus::Resolved(Outcome::Away))) => {}
        other => panic!("expected MarketNotOpen(Resolved), got {:?}", other),
    }

    // cancel on Resolved fails loudly
    match s.cancel_market(&id) {
        Err(FlashBetError::MarketAlreadyResolved) => {}
        other => panic!("expected MarketAlreadyResolved, got {:?}", other),
    }

    // cancel from Open and from Locked succeeds; resolve on Cancelled is a no-op
    let mut s2 = FlashbetMarketState::new();
    s2.create_market(info("nba_game_003", MarketType::MatchWinner)).unwrap();
    let id2 = EventId::new("nba_game_003".to_string());
    s2.cancel_market(&id2).unwrap();
    assert_eq!(s2.get_status(&id2), MarketStatus::Cancelled);
    s2.resolve_market(&id2, Outcome::Home);
    assert_eq!(s2.get_status(&id2), MarketStatus::Cancelled);

    // lock on an unknown market fails
    match s2.lock_market(&EventId::new("nfl_unknown".to_string())) {
        Err(FlashBetError::MarketNotFound(e)) => assert_eq!(e.0, "nfl_unknown"),
        other => panic!("expected MarketNotFound, got {:?}", other),
    }
}

#[test]
fn pro_rata_payout_example() {
    // bets {A:100 on Home, B:50 on Home, C:100 on Away}, resolved Home
    let mut s = FlashbetMarketState::new();
    s.create_market(info("mlb_game_001", MarketType::MatchWinner)).unwrap();
    s.register_bet(bet(0, "mlb_game_001", Outcome::Home, 100)).unwrap();
    s.register_bet(bet(1, "mlb_game_001", Outcome::Home, 50)).unwrap();
    s.register_bet(bet(2, "mlb_game_001", Outcome::Away, 100)).unwrap();

    let a = bet(0, "mlb_game_001", Outcome::Home, 100);
    let b = bet(1, "mlb_game_001", Outcome::Home, 50);
    let c = bet(2, "mlb_game_001", Outcome::Away, 100);
    assert_eq!(s.calculate_payout(&a, &Outcome::Home), 166);
    assert_eq!(s.calculate_payout(&b, &Outcome::Home), 83);
    assert_eq!(s.calculate_payout(&c, &Outcome::Home), 0);

    let events = s.handle_oracle_result(&result("mlb_game_001", Outcome::Home));
    assert_eq!(events.len(), 3);
    assert_eq!(
        events[0],
        MarketEvent::MarketResolved {
            event_id: EventId::new("mlb_game_001".to_string()),
            winning_outcome: Outcome::Home,
            total_pool: 250,
            winning_pool: 150,
            num_winners: 2,
        }
    );
    assert_eq!(
        events[1],
        MarketEvent::PayoutDistributed {
            market_id: MarketId(1),
            bet_id: 0,
            user_chain: "chain0".to_string(),
            amount: 166,
        }
    );
    assert_eq!(
        events[2],
        MarketEvent::PayoutDistributed {
            market_id: MarketId(1),
            bet_id: 1,
            user_chain: "chain1".to_string(),
            amount: 83,
        }
    );
    // rounding keeps the payouts within the pool
    assert!(166 + 83 <= 250);
    assert_eq!(s.get_status(&EventId::new("mlb_game_001".to_string())),
        MarketStatus::Resolved(Outcome::Home));
}

#[test]
fn exact_division_distributes_the_whole_pool() {
    // winners 100 + 100 = 200; 100 * 250 is divisible by 200
    let mut s = FlashbetMarketState::new();
    s.create_market(info("mlb_game_001", MarketType::MatchWinner)).unwrap();
    s.register_bet(bet(0, "mlb_game_001", Outcome::Home, 100)).unwrap();
    s.register_bet(bet(1, "mlb_game_001", Outcome::Home, 100)).unwrap();
    s.register_bet(bet(2, "mlb_game_001", Outcome::Away, 50)).unwrap();
    let events = s.handle_oracle_result(&result("mlb_game_001", Outcome::Home));
    let mut paid: u64 = 0;
    for e in &events {
        if let MarketEvent::PayoutDistributed { amount, .. } = e {
            paid += amount;
        }
    }
    assert_eq!(paid, 250);
}

#[test]
fn degenerate_winner_pool_pays_nothing() {
    // bets only on Away, resolved Home: every payout is zero
    let mut s = FlashbetMarketState::new();
    s.create_market(info("mlb_game_001", MarketType::MatchWinner)).unwrap();
    s.register_bet(bet(0, "mlb_game_001", Outcome::Away, 75)).unwrap();
    s.register_bet(bet(1, "mlb_game_001", Outcome::Away, 25)).unwrap();

    let a = bet(0, "mlb_game_001", Outcome::Away, 75);
    assert_eq!(s.calculate_payout(&a, &Outcome::Home), 0);

    let events = s.handle_oracle_result(&result("mlb_game_001", Outcome::Home));
    assert_eq!(
        events[0],
        MarketEvent::MarketResolved {
            event_id: EventId::new("mlb_game_001".to_string()),
            winning_outcome: Outcome::Home,
            total_pool: 100,
            winning_pool: 0,
            num_winners: 0,
        }
    );
    assert_eq!(events.len(), 1);
}

#[test]
fn resolution_is_idempotent() {
    let mut s = FlashbetMarketState::new();
    s.create_market(info("mlb_game_001", MarketType::MatchWinner)).unwrap();
    s.register_bet(bet(0, "mlb_game_001", Outcome::Home, 100)).unwrap();
    let id = EventId::new("mlb_game_001".to_string());

    let first = s.handle_oracle_result(&result("mlb_game_001", Outcome::Home));
    assert!(!first.is_empty());
    let total = s.get_total_pool(&id);
    let home = s.get_pool_for_outcome(&id, &Outcome::Home);

    // same result again: no state change, no emissions
    let second = s.handle_oracle_result(&result("mlb_game_001", Outcome::Home));
    assert!(second.is_empty());
    // a different result for the same market: still ignored
    let third = s.handle_oracle_result(&result("mlb_game_001", Outcome::Away));
    assert!(third.is_empty());
    assert_eq!(s.get_status(&id), MarketStatus::Resolved(Outcome::Home));
    assert_eq!(s.get_total_pool(&id), total);
    assert_eq!(s.get_pool_for_outcome(&id, &Outcome::Home), home);
}

#[test]
fn locked_market_still_resolves() {
    let mut s = FlashbetMarketState::new();
    s.create_market(info("mlb_game_001", MarketType::MatchWinner)).unwrap();
    s.register_bet(bet(0, "mlb_game_001", Outcome::Home, 10)).unwrap();
    let id = EventId::new("mlb_game_001".to_string());
    s.lock_market(&id).unwrap();
    let events = s.handle_oracle_result(&result("mlb_game_001", Outcome::Home));
    assert_eq!(events.len(), 2);
    assert_eq!(s.get_status(&id), MarketStatus::Resolved(Outcome::Home));
}

#[test]
fn unknown_market_result_is_ignored() {
    let mut s = FlashbetMarketState::new();
    let events = s.handle_oracle_result(&result("mlb_game_404", Outcome::Home));
    assert!(events.is_empty());
}

#[test]
fn market_listing_follows_creation_order() {
    let mut s = FlashbetMarketState::new();
    assert!(s.get_latest_market_event_id().is_none());
    assert!(s.get_all_market_ids().is_empty());
    s.create_market(info("mlb_game_001", MarketType::MatchWinner)).unwrap();
    s.create_market(info("nba_game_002", MarketType::MatchWinner)).unwrap();
    assert_eq!(s.get_all_market_ids(), vec!["mlb_game_001", "nba_game_002"]);
    assert_eq!(s.get_latest_market_event_id().unwrap().0, "nba_game_002");
}

#[test]
fn payout_amount_is_pure_and_repeatable() {
    assert_eq!(payout_amount(100, Outcome::Home, Outcome::Home, 250, 150), 166);
    assert_eq!(payout_amount(100, Outcome::Home, Outcome::Home, 250, 150), 166);
    assert_eq!(payout_amount(100, Outcome::Away, Outcome::Home, 250, 150), 0);
    assert_eq!(payout_amount(100, Outcome::Home, Outcome::Home, 250, 0), 0);
    // a lone winner takes the whole pool
    assert_eq!(payout_amount(10, Outcome::Draw, Outcome::Draw, 1000, 10), 1000);
    // large values go through the double-width intermediate without overflow
    let big = u64::MAX / 2;
    assert_eq!(payout_amount(big, Outcome::Home, Outcome::Home, big, big), big);
}
