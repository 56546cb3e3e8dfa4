//! The run of levels and the prompt that follows it.

use vstd::prelude::*;

verus! {

/// The level a game starts with.
pub const FIRST_LEVEL: usize = 1;

/// The level after which the game is won.
pub const LAST_LEVEL: usize = 49;

/// Where a game stands.
#[derive(Clone, Copy, Debug, PartialEq, Eq, Structural)]
pub enum Game {
    /// Level `level` is being played.
    Playing { level: usize },
    /// The levels are over and the player is asked whether to play again.
    Prompt { win: bool },
    /// The player has answered.
    Over { win: bool, play_again: bool },
}

impl Game {
    /// A game about to start its first level.
    pub fn new() -> (game: Game)
        ensures
            game == (Game::Playing { level: FIRST_LEVEL }),
    {
        Game::Playing { level: FIRST_LEVEL }
    }

    /// The game after the level in play has ended: a lost level ends the
    /// run of levels as a defeat, the last level won ends it as a victory,
    /// and any other level won leads to the next level.
    pub open spec fn after_level(self, won: bool) -> Game {
        match self {
            Game::Playing { level } => {
                if !won {
                    Game::Prompt { win: false }
                } else if level >= LAST_LEVEL {
                    Game::Prompt { win: true }
                } else {
                    Game::Playing { level: (level + 1) as usize }
                }
            },
            _ => self,
        }
    }

    /// The game after the two answer keys were read at the prompt: no key
    /// leaves the prompt standing; otherwise the player plays again unless
    /// the key for no was pressed.
    pub open spec fn after_answer(self, yes: bool, no: bool) -> Game {
        match self {
            Game::Prompt { win } => {
                if yes || no {
                    Game::Over { win, play_again: !no }
                } else {
                    self
                }
            },
            _ => self,
        }
    }

    /// Records how the level in play ended.
    pub fn level_over(self, won: bool) -> (game: Game)
        ensures
            game == self.after_level(won),
    {
        match self {
            Game::Playing { level } => {
                if !won {
                    Game::Prompt { win: false }
                } else if level >= LAST_LEVEL {
                    Game::Prompt { win: true }
                } else {
                    Game::Playing { level: level + 1 }
                }
            },
            _ => self,
        }
    }

    /// Reads the two answer keys at the prompt.
    pub fn answer(self, yes: bool, no: bool) -> (game: Game)
        ensures
            game == self.after_answer(yes, no),
    {
        match self {
            Game::Prompt { win } => {
                if yes || no {
                    Game::Over { win, play_again: !no }
                } else {
                    self
                }
            },
            _ => self,
        }
    }
}

} // verus!
