//! Shared data structures and validation rules used across the actors.

use vstd::prelude::*;
use vstd::string::StrSliceExecFns;
use vstd::string::StringExecFns;

verus! {

/// Unique identifier for a prediction market.
#[derive(Debug, Clone, Copy, PartialEq, Eq, Hash, Structural)]
pub struct MarketId(pub u64);

/// The character for a single decimal digit.
pub open spec fn decimal_digit(d: nat) -> char {
    if d == 0 {
        '0'
    } else if d == 1 {
        '1'
    } else if d == 2 {
        '2'
    } else if d == 3 {
        '3'
    } else if d == 4 {
        '4'
    } else if d == 5 {
        '5'
    } else if d == 6 {
        '6'
    } else if d == 7 {
        '7'
    } else if d == 8 {
        '8'
    } else {
        '9'
    }
}

/// The decimal representation of a number, most significant digit first.
pub open spec fn decimal_rep(n: nat) -> Seq<char>
    decreases n,
{
    if n < 10 {
        seq![decimal_digit(n)]
    } else {
        decimal_rep(n / 10).push(decimal_digit(n % 10))
    }
}

fn digit_str(d: u64) -> (s: &'static str)
    requires
        d < 10,
    ensures
        s@ == seq![decimal_digit(d as nat)],
{
    proof {
        reveal_strlit("0");
        reveal_strlit("1");
        reveal_strlit("2");
        reveal_strlit("3");
        reveal_strlit("4");
        reveal_strlit("5");
        reveal_strlit("6");
        reveal_strlit("7");
        reveal_strlit("8");
        reveal_strlit("9");
    }
    let s: &'static str = match d {
        0 => "0",
        1 => "1",
        2 => "2",
        3 => "3",
        4 => "4",
        5 => "5",
        6 => "6",
        7 => "7",
        8 => "8",
        _ => "9",
    };
    proof {
        assert(s@ =~= seq![decimal_digit(d as nat)]);
    }
    s
}

fn u64_to_decimal(n: u64) -> (s: String)
    ensures
        s@ == decimal_rep(n as nat),
    decreases n,
{
    if n < 10 {
        String::from_str(digit_str(n))
    } else {
        let prefix = u64_to_decimal(n / 10);
        let s = prefix.concat(digit_str(n % 10));
        proof {
            assert(s@ =~= decimal_rep(n as nat));
        }
        s
    }
}

impl MarketId {
    /// The human-readable form of the identifier, e.g. `Market#42`.
    pub fn label(&self) -> (s: String)
        ensures
            s@ == "Market#"@ + decimal_rep(self.0 as nat),
    {
        let prefix = String::from_str("Market#");
        prefix.concat(u64_to_decimal(self.0).as_str())
    }
}

/// Unique identifier for a sports event.
#[derive(Debug, PartialEq, Eq, Hash)]
pub struct EventId(pub String);

impl EventId {
    pub fn new(event_id: String) -> (r: Self)
        ensures
            r.0@ == event_id@,
    {
        EventId(event_id)
    }
}

impl Clone for EventId {
    fn clone(&self) -> (r: Self)
        ensures
            r == *self,
    {
        EventId(self.0.clone())
    }
}

/// Possible outcomes for a prediction market.
#[derive(Debug, Clone, Copy, PartialEq, Eq, Hash, Structural)]
pub enum Outcome {
    /// Home team / team A wins.
    Home,
    /// Away team / team B wins.
    Away,
    /// Tie or draw.
    Draw,
}

/// The human-readable form of an outcome.
pub open spec fn outcome_label(outcome: Outcome) -> Seq<char> {
    match outcome {
        Outcome::Home => "Home Win"@,
        Outcome::Away => "Away Win"@,
        Outcome::Draw => "Draw"@,
    }
}

impl Outcome {
    /// The human-readable form of the outcome.
    pub fn label(&self) -> (s: String)
        ensures
            s@ == outcome_label(*self),
    {
        match self {
            Outcome::Home => String::from_str("Home Win"),
            Outcome::Away => String::from_str("Away Win"),
            Outcome::Draw => String::from_str("Draw"),
        }
    }
}

/// Market status lifecycle.
#[derive(Debug, Clone, Copy, PartialEq, Eq, Structural)]
pub enum MarketStatus {
    /// Market is open for betting.
    Open,
    /// Market is locked; no more bets are accepted.
    Locked,
    /// Market is resolved with the winning outcome.  Terminal.
    Resolved(Outcome),
    /// Market is cancelled.  Terminal.
    Cancelled,
}

/// The human-readable form of a market status.
pub open spec fn status_label(status: MarketStatus) -> Seq<char> {
    match status {
        MarketStatus::Open => "Open"@,
        MarketStatus::Locked => "Locked"@,
        MarketStatus::Resolved(outcome) => "Resolved: "@ + outcome_label(outcome),
        MarketStatus::Cancelled => "Cancelled"@,
    }
}

impl MarketStatus {
    /// The human-readable form of the status.
    pub fn label(&self) -> (s: String)
        ensures
            s@ == status_label(*self),
    {
        match self {
            MarketStatus::Open => String::from_str("Open"),
            MarketStatus::Locked => String::from_str("Locked"),
            MarketStatus::Resolved(outcome) => String::from_str("Resolved: ").concat(
                outcome.label().as_str(),
            ),
            MarketStatus::Cancelled => String::from_str("Cancelled"),
        }
    }
}

/// Type of market.
#[derive(Debug, Clone, Copy, PartialEq, Eq, Structural)]
pub enum MarketType {
    /// Simple winner prediction (home, away, or draw).
    MatchWinner,
    /// Over/under on a total-points line; home stands for over, away for under.
    OverUnder { line: u32 },
    /// Point spread; home stands for the favourite, away for the underdog.
    Spread { line: i32 },
}

/// Input form of `MarketType`: only the match-winner kind can be requested.
#[derive(Debug, Clone, Copy, PartialEq, Eq, Structural)]
pub enum MarketTypeInput {
    /// Simple winner prediction (home, away, or draw).
    MatchWinner,
}

impl From<MarketTypeInput> for MarketType {
    fn from(input: MarketTypeInput) -> (r: MarketType) {
        match input {
            MarketTypeInput::MatchWinner => MarketType::MatchWinner,
        }
    }
}

impl vstd::std_specs::convert::FromSpecImpl<MarketTypeInput> for MarketType {
    open spec fn obeys_from_spec() -> bool {
        true
    }

    open spec fn from_spec(input: MarketTypeInput) -> MarketType {
        MarketType::MatchWinner
    }
}

/// Final score of a sports event.
#[derive(Debug, Clone, Copy, PartialEq, Eq, Structural)]
pub struct Score {
    /// Home team score.
    pub home: u32,
    /// Away team score.
    pub away: u32,
}

/// Description of a prediction market.
#[derive(Debug, PartialEq, Eq)]
pub struct MarketInfo {
    /// Unique event identifier, e.g. `mlb_game_20251024_001`.
    pub event_id: EventId,
    /// Human-readable description.
    pub description: String,
    /// Scheduled event start time, in microseconds since the epoch.
    pub event_time: u64,
    /// Type of market.
    pub market_type: MarketType,
    /// Home team name.
    pub home_team: String,
    /// Away team name.
    pub away_team: String,
}

impl Clone for MarketInfo {
    fn clone(&self) -> (r: Self)
        ensures
            r == *self,
    {
        MarketInfo {
            event_id: self.event_id.clone(),
            description: self.description.clone(),
            event_time: self.event_time,
            market_type: self.market_type,
            home_team: self.home_team.clone(),
            away_team: self.away_team.clone(),
        }
    }
}

/// A single bet record.  Created once when admitted and never mutated.
#[derive(Debug, PartialEq, Eq)]
pub struct Bet {
    /// Unique bet identifier, assigned monotonically by the bettor's actor.
    pub bet_id: u64,
    /// Market this bet is for.
    pub market_id: MarketId,
    /// Event the market settles on.
    pub event_id: EventId,
    /// Account that placed the bet.
    pub user: String,
    /// Chosen outcome.
    pub outcome: Outcome,
    /// Bet amount in tokens.  Strictly positive once admitted.
    pub amount: u64,
    /// When the bet was placed, in microseconds since the epoch.
    pub timestamp: u64,
    /// The bettor's home-chain identifier, used to route the payout back.
    pub user_chain: String,
}

impl Clone for Bet {
    fn clone(&self) -> (r: Self)
        ensures
            r == *self,
    {
        Bet {
            bet_id: self.bet_id,
            market_id: self.market_id,
            event_id: self.event_id.clone(),
            user: self.user.clone(),
            outcome: self.outcome,
            amount: self.amount,
            timestamp: self.timestamp,
            user_chain: self.user_chain.clone(),
        }
    }
}

/// Result of a sports event, produced by the oracle.
#[derive(Debug, PartialEq, Eq)]
pub struct EventResult {
    /// Event identifier matching `MarketInfo`.
    pub event_id: EventId,
    /// Winning outcome.
    pub outcome: Outcome,
    /// Optional final score.
    pub score: Option<Score>,
    /// When the result was determined, in microseconds since the epoch.
    pub timestamp: u64,
}

impl Clone for EventResult {
    fn clone(&self) -> (r: Self)
        ensures
            r == *self,
    {
        EventResult {
            event_id: self.event_id.clone(),
            outcome: self.outcome,
            score: self.score,
            timestamp: self.timestamp,
        }
    }
}

/// Payout record for a winning bet.
#[derive(Debug, Clone, Copy, PartialEq, Eq, Structural)]
pub struct Payout {
    /// Market that was resolved.
    pub market_id: MarketId,
    /// Bet that won.
    pub bet_id: u64,
    /// Payout amount: the stake plus winnings.
    pub amount: u64,
    /// When the payout was computed, in microseconds since the epoch.
    pub timestamp: u64,
}

/// Notifications emitted by a market actor for observers and collaborators.
#[derive(Debug, PartialEq, Eq)]
pub enum MarketEvent {
    /// A new market was created.
    MarketCreated { event_id: EventId, description: String },
    /// A bet was admitted into the pool.
    BetPlaced {
        market_id: MarketId,
        bet_id: u64,
        outcome: Outcome,
        amount: u64,
        total_pool: u64,
    },
    /// The market was resolved.  Emitted exactly once per market.
    MarketResolved {
        event_id: EventId,
        winning_outcome: Outcome,
        total_pool: u64,
        winning_pool: u64,
        num_winners: u64,
    },
    /// The market was locked; no more bets are accepted.
    MarketLocked { event_id: EventId },
    /// A payout instruction for one winning bet, addressed to the bettor's
    /// recorded chain.  Consumed by the external transfer interface.
    PayoutDistributed { market_id: MarketId, bet_id: u64, user_chain: String, amount: u64 },
}

/// Notifications emitted by a bettor's actor.
#[derive(Debug, PartialEq, Eq)]
pub enum UserEvent {
    /// The user placed a bet, to be forwarded to the given market chain.
    BetPlaced { market_chain: String, bet: Bet },
    /// The user received a payout.
    PayoutReceived { market_id: MarketId, bet_id: u64, amount: u64 },
    /// The user deposited funds.
    Deposited { amount: u64 },
}

/// Notifications emitted by the oracle actor.
#[derive(Debug, PartialEq, Eq)]
pub enum OracleEvent {
    /// A new event result was published.
    ResultPublished { result: EventResult },
    /// A new oracle publisher was authorized.
    OracleAuthorized { oracle: String },
}

/// Errors surfaced by the settlement core.
#[derive(Debug, PartialEq, Eq)]
pub enum FlashBetError {
    /// A transfer asked for more than the account holds.
    InsufficientFunds { required: u64, available: u64 },
    /// No market exists for the event.
    MarketNotFound(EventId),
    /// The market is not open for betting; carries the actual status.
    MarketNotOpen(MarketStatus),
    /// The bet amount is not strictly positive.
    InvalidBetAmount(u64),
    /// The chosen outcome is not legal for the market's type.
    InvalidOutcome,
    /// The market was already resolved.
    MarketAlreadyResolved,
    /// A market with this event identifier already exists.
    DuplicateMarket(EventId),
    /// A bet with this identifier was already admitted on the market: the
    /// `(event, bet)` key makes a redelivered bet a rejection, never a
    /// second pool entry.
    DuplicateBet(u64),
    /// Adding the stake would overflow a pool counter.
    PoolOverflow,
    /// The caller is not an authorized oracle (or not the owner).
    UnauthorizedOracle,
    /// A result was already published for the event.
    DuplicateResult(EventId),
    /// The event identifier does not carry a known sport prefix.
    InvalidEventId(String),
}

/// `p` is a prefix of `s`.
pub open spec fn is_char_prefix(p: Seq<char>, s: Seq<char>) -> bool {
    p.len() <= s.len() && s.subrange(0, p.len() as int) == p
}

/// The event identifier starts with one of the known sport prefixes.
pub open spec fn spec_valid_event_id(id: Seq<char>) -> bool {
    ||| is_char_prefix("mlb_"@, id)
    ||| is_char_prefix("nba_"@, id)
    ||| is_char_prefix("nfl_"@, id)
}

fn str_has_prefix(s: &str, p: &str) -> (b: bool)
    ensures
        b == is_char_prefix(p@, s@),
{
    let n = p.unicode_len();
    let m = s.unicode_len();
    if n > m {
        return false;
    }
    let mut i: usize = 0;
    while i < n
        invariant
            i <= n,
            n == p@.len(),
            n <= m,
            m == s@.len(),
            forall|k: int| 0 <= k < i ==> s@[k] == p@[k],
        decreases n - i,
    {
        if s.get_char(i) != p.get_char(i) {
            proof {
                assert(s@.subrange(0, n as int)[i as int] != p@[i as int]);
            }
            return false;
        }
        i += 1;
    }
    proof {
        assert(s@.subrange(0, n as int) =~= p@);
    }
    true
}

/// Validate the event identifier format: it must start with a sport prefix.
pub fn validate_event_id(event_id: &EventId) -> (r: Result<(), FlashBetError>)
    ensures
        r is Ok <==> spec_valid_event_id(event_id.0@),
        r is Err ==> r == Err::<(), FlashBetError>(
            FlashBetError::InvalidEventId(event_id.0),
        ),
{
    let id = &event_id.0;
    if str_has_prefix(id.as_str(), "mlb_") || str_has_prefix(id.as_str(), "nba_")
        || str_has_prefix(id.as_str(), "nfl_") {
        Ok(())
    } else {
        Err(FlashBetError::InvalidEventId(id.clone()))
    }
}

/// The outcomes a bet may choose for a given market type: a match-winner
/// market permits home, away and draw; over/under and spread markets permit
/// only home and away.
pub open spec fn spec_legal_outcome(outcome: Outcome, market_type: MarketType) -> bool {
    match market_type {
        MarketType::MatchWinner => true,
        MarketType::OverUnder { .. } => outcome != Outcome::Draw,
        MarketType::Spread { .. } => outcome != Outcome::Draw,
    }
}

/// Validate that the outcome is legal for the market type.
pub fn validate_outcome_for_market(outcome: Outcome, market_type: &MarketType) -> (r: bool)
    ensures
        r == spec_legal_outcome(outcome, *market_type),
{
    match market_type {
        MarketType::MatchWinner => true,
        MarketType::OverUnder { .. } => matches!(outcome, Outcome::Home | Outcome::Away),
        MarketType::Spread { .. } => matches!(outcome, Outcome::Home | Outcome::Away),
    }
}

} // verus!
