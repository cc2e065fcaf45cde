use vstd::prelude::*;

verus! {

/// Score a player needs to win a match.
pub const TARGET_SCORE: u32 = 3;

/// A hand in rock-paper-scissors.
#[derive(Clone, Copy, PartialEq, Eq, Structural, Debug)]
pub enum Symbol {
    Rock,
    Paper,
    Scissor,
}

/// Outcome of a round or a match, seen from the local player.
#[derive(Clone, Copy, PartialEq, Eq, Structural, Debug)]
pub enum Victor {
    You,
    Opp,
    Tie,
}

/// One round: each side picks a symbol; the round is finished once both
/// have picked.
#[derive(Clone, Copy, PartialEq, Eq, Structural, Debug)]
pub struct Round {
    pub your_symbol: Option<Symbol>,
    pub opp_symbol: Option<Symbol>,
}

/// A whole match: first player to `target_score` round wins takes it.
pub struct Match {
    pub players: (String, String),
    pub target_score: u32,
    pub scores: (u32, u32),
    pub current_round: Round,
    pub last_round: Option<(Symbol, Symbol)>,
}

/// Who wins when `you` meets `opp`.
pub open spec fn spec_beats(you: Symbol, opp: Symbol) -> Victor {
    match (you, opp) {
        (Symbol::Rock, Symbol::Rock) => Victor::Tie,
        (Symbol::Paper, Symbol::Paper) => Victor::Tie,
        (Symbol::Scissor, Symbol::Scissor) => Victor::Tie,
        (Symbol::Rock, Symbol::Paper) => Victor::Opp,
        (Symbol::Paper, Symbol::Scissor) => Victor::Opp,
        (Symbol::Scissor, Symbol::Rock) => Victor::Opp,
        (Symbol::Rock, Symbol::Scissor) => Victor::You,
        (Symbol::Paper, Symbol::Rock) => Victor::You,
        (Symbol::Scissor, Symbol::Paper) => Victor::You,
    }
}

/// The round's outcome: decided exactly when both sides have picked.
pub open spec fn spec_round_victor(r: Round) -> Option<Victor> {
    match (r.your_symbol, r.opp_symbol) {
        (Some(you), Some(opp)) => Some(spec_beats(you, opp)),
        _ => None,
    }
}

/// The round both sides of which have been revealed, as a pair, if the
/// round is finished.
pub open spec fn spec_round_pair(r: Round) -> Option<(Symbol, Symbol)> {
    match (r.your_symbol, r.opp_symbol) {
        (Some(you), Some(opp)) => Some((you, opp)),
        _ => None,
    }
}

/// The match's winner: the first side whose score reaches the target.
pub open spec fn spec_match_victor(m: Match) -> Option<Victor> {
    if m.scores.0 >= m.target_score {
        Some(Victor::You)
    } else if m.scores.1 >= m.target_score {
        Some(Victor::Opp)
    } else {
        None
    }
}

/// What settling the current round does to the match, and what it
/// returns: nothing while the round is still open; otherwise the round's
/// winner scores, and either the match is over (scores kept, round kept)
/// or the round is archived into `last_round` and a fresh round begins.
pub open spec fn spec_next_round(m: Match) -> (Match, Option<Victor>) {
    match spec_round_victor(m.current_round) {
        None => (m, None),
        Some(v) => {
            let scores = match v {
                Victor::You => ((m.scores.0 + 1) as u32, m.scores.1),
                Victor::Opp => (m.scores.0, (m.scores.1 + 1) as u32),
                Victor::Tie => m.scores,
            };
            let scored = Match { scores, ..m };
            match spec_match_victor(scored) {
                Some(w) => (scored, Some(w)),
                None => (
                    Match {
                        last_round: spec_round_pair(m.current_round),
                        current_round: Round { your_symbol: None, opp_symbol: None },
                        ..scored
                    },
                    None,
                ),
            }
        },
    }
}

impl Round {
    /// A round in which nobody has picked yet.
    fn new() -> (r: Self)
        ensures
            r.your_symbol is None,
            r.opp_symbol is None,
    {
        Self { your_symbol: None, opp_symbol: None }
    }

    /// Whether both sides have picked.
    pub fn finished(&self) -> (b: bool)
        ensures
            b == spec_round_victor(*self).is_some(),
    {
        self.victor().is_some()
    }

    /// Record the local player's pick; reports whether the round is now
    /// finished.
    pub fn your_turn(&mut self, symbol: Symbol) -> (b: bool)
        ensures
            final(self).your_symbol == Some(symbol),
            final(self).opp_symbol == old(self).opp_symbol,
            b == spec_round_victor(*final(self)).is_some(),
    {
        self.your_symbol = Some(symbol);
        self.finished()
    }

    /// Record the opponent's pick; reports whether the round is now
    /// finished.
    pub fn opp_turn(&mut self, symbol: Symbol) -> (b: bool)
        ensures
            final(self).opp_symbol == Some(symbol),
            final(self).your_symbol == old(self).your_symbol,
            b == spec_round_victor(*final(self)).is_some(),
    {
        self.opp_symbol = Some(symbol);
        self.finished()
    }

    /// The round's outcome, if it is decided.
    fn victor(&self) -> (v: Option<Victor>)
        ensures
            v == spec_round_victor(*self),
    {
        match (self.your_symbol, self.opp_symbol) {
            (Some(you), Some(opp)) => Some(
                match (you, opp) {
                    (Symbol::Rock, Symbol::Rock) => Victor::Tie,
                    (Symbol::Paper, Symbol::Paper) => Victor::Tie,
                    (Symbol::Scissor, Symbol::Scissor) => Victor::Tie,
                    (Symbol::Rock, Symbol::Paper) => Victor::Opp,
                    (Symbol::Paper, Symbol::Scissor) => Victor::Opp,
                    (Symbol::Scissor, Symbol::Rock) => Victor::Opp,
                    (Symbol::Rock, Symbol::Scissor) => Victor::You,
                    (Symbol::Paper, Symbol::Rock) => Victor::You,
                    (Symbol::Scissor, Symbol::Paper) => Victor::You,
                },
            ),
            _ => None,
        }
    }
}

impl Match {
    /// A fresh match between `you` and `opponent`, first to
    /// `target_score`.
    pub fn new(target_score: u32, you: String, opponent: String) -> (m: Self)
        ensures
            m.players == (you, opponent),
            m.target_score == target_score,
            m.scores == (0u32, 0u32),
            m.current_round.your_symbol is None,
            m.current_round.opp_symbol is None,
            m.last_round is None,
    {
        Self {
            players: (you, opponent),
            target_score,
            scores: (0, 0),
            current_round: Round::new(),
            last_round: None,
        }
    }

    /// Settle the current round, exactly as `spec_next_round` prescribes.
    pub fn next_round(&mut self) -> (v: Option<Victor>)
        requires
            old(self).scores.0 < u32::MAX,
            old(self).scores.1 < u32::MAX,
        ensures
            *final(self) == spec_next_round(*old(self)).0,
            v == spec_next_round(*old(self)).1,
    {
        let decided = self.current_round.victor();
        match decided {
            Some(victor) => {
                match victor {
                    Victor::You => {
                        let s = self.scores;
                        self.scores = (s.0 + 1, s.1);
                    },
                    Victor::Opp => {
                        let s = self.scores;
                        self.scores = (s.0, s.1 + 1);
                    },
                    Victor::Tie => {},
                }
                let over = self.victor();
                match over {
                    Some(w) => Some(w),
                    None => {
                        self.last_round = match (
                            self.current_round.your_symbol,
                            self.current_round.opp_symbol,
                        ) {
                            (Some(you), Some(opp)) => Some((you, opp)),
                            _ => None,
                        };
                        self.current_round = Round::new();
                        None
                    },
                }
            },
            None => None,
        }
    }

    /// The match's winner, if a score has reached the target.
    pub fn victor(&self) -> (v: Option<Victor>)
        ensures
            v == spec_match_victor(*self),
    {
        if self.scores.0 >= self.target_score {
            Some(Victor::You)
        } else if self.scores.1 >= self.target_score {
            Some(Victor::Opp)
        } else {
            None
        }
    }
}

} // verus!
