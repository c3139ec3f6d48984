use vstd::prelude::*;

verus! {

/// Where a game stands, from the player's point of view.
#[derive(PartialEq, Eq, Structural, Clone, Copy, Debug)]
pub enum GameState {
    NotStarted,
    Playing,
    EndedLoss,
    EndedWin,
}

impl GameState {
    /// True for the two final states, a loss and a win.
    pub fn game_ended(&self) -> (r: bool)
        ensures
            r <==> (*self == GameState::EndedLoss || *self == GameState::EndedWin),
    {
        match self {
            GameState::EndedLoss | GameState::EndedWin => true,
            _ => false,
        }
    }

    /// The state once the board has been checked after a play: a game in
    /// play ends in a loss when a mine is revealed, else in a win when every
    /// square without a mine is revealed. A loss takes priority.
    pub fn settle(&self, lost: bool, won: bool) -> (r: GameState)
        ensures
            *self == GameState::Playing && lost ==> r == GameState::EndedLoss,
            *self == GameState::Playing && !lost && won ==> r == GameState::EndedWin,
            !(*self == GameState::Playing && (lost || won)) ==> r == *self,
    {
        match self {
            GameState::Playing => if lost {
                GameState::EndedLoss
            } else if won {
                GameState::EndedWin
            } else {
                GameState::Playing
            },
            _ => *self,
        }
    }
}

/// The three preset board sizes.
#[derive(PartialEq, Eq, Structural, Clone, Copy, Debug)]
pub enum GameDifficulty {
    Beginner,
    Intermediate,
    Expert,
}

/// The display name of each difficulty.
pub open spec fn difficulty_name(d: GameDifficulty) -> Seq<char> {
    match d {
        GameDifficulty::Beginner => "Beginner"@,
        GameDifficulty::Intermediate => "Intermediate"@,
        GameDifficulty::Expert => "Expert"@,
    }
}

impl GameDifficulty {
    /// The display name of this difficulty.
    pub fn as_str(&self) -> (r: &'static str)
        ensures
            r@ == difficulty_name(*self),
    {
        match self {
            GameDifficulty::Beginner => "Beginner",
            GameDifficulty::Intermediate => "Intermediate",
            GameDifficulty::Expert => "Expert",
        }
    }
}

} // verus!
