use flashbet::shared::{
    validate_event_id, validate_outcome_for_market, EventId, MarketId, MarketStatus, MarketType,
    Outcome,
};

#[test]
fn test_market_id_display() {
    let id = MarketId(42);
    assert_eq!(id.label(), "Market#42");
}

#[test]
fn test_event_id_validation() {
    assert!(validate_event_id(&EventId::new("mlb_game_001".to_string())).is_ok());
    assert!(validate_event_id(&EventId::new("nba_game_001".to_string())).is_ok());
    assert!(validate_event_id(&EventId::new("invalid_001".to_string())).is_err());
}

#[test]
fn test_outcome_validation() {
    let match_winner = MarketType::MatchWinner;
    assert!(validate_outcome_for_market(Outcome::Home, &match_winner));
    assert!(validate_outcome_for_market(Outcome::Away, &match_winner));
    assert!(validate_outcome_for_market(Outcome::Draw, &match_winner));

    let over_under = MarketType::OverUnder { line: 200 };
    assert!(validate_outcome_for_market(Outcome::Home, &over_under));
    assert!(validate_outcome_for_market(Outcome::Away, &over_under));
    assert!(!validate_outcome_for_market(Outcome::Draw, &over_under));
}

#[test]
fn test_nfl_prefix_and_short_ids() {
    assert!(validate_event_id(&EventId::new("nfl_week1_007".to_string())).is_ok());
    assert!(validate_event_id(&EventId::new("".to_string())).is_err());
    assert!(validate_event_id(&EventId::new("mlb".to_string())).is_err());
    assert!(validate_event_id(&EventId::new("mlb_".to_string())).is_ok());
}

#[test]
fn test_invalid_event_id_carries_input() {
    match validate_event_id(&EventId::new("nhl_game_001".to_string())) {
        Err(flashbet::shared::FlashBetError::InvalidEventId(s)) => {
            assert_eq!(s, "nhl_game_001");
        }
        other => panic!("expected InvalidEventId, got {:?}", other),
    }
}

#[test]
fn test_market_id_label_edges() {
    assert_eq!(MarketId(0).label(), "Market#0");
    assert_eq!(MarketId(10).label(), "Market#10");
    assert_eq!(MarketId(18446744073709551615).label(), "Market#18446744073709551615");
}

#[test]
fn test_spread_rejects_draw() {
    let spread = MarketType::Spread { line: -3 };
    assert!(validate_outcome_for_market(Outcome::Home, &spread));
    assert!(validate_outcome_for_market(Outcome::Away, &spread));
    assert!(!validate_outcome_for_market(Outcome::Draw, &spread));
}

#[test]
fn test_outcome_and_status_labels() {
    assert_eq!(Outcome::Home.label(), "Home Win");
    assert_eq!(Outcome::Away.label(), "Away Win");
    assert_eq!(Outcome::Draw.label(), "Draw");
    assert_eq!(MarketStatus::Open.label(), "Open");
    assert_eq!(MarketStatus::Locked.label(), "Locked");
    assert_eq!(MarketStatus::Resolved(Outcome::Away).label(), "Resolved: Away Win");
    assert_eq!(MarketStatus::Cancelled.label(), "Cancelled");
}

#[test]
fn test_market_type_from_input() {
    let t: MarketType = flashbet::shared::MarketTypeInput::MatchWinner.into();
    assert_eq!(t, MarketType::MatchWinner);
}
