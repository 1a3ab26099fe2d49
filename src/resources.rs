use vstd::prelude::*;

use crate::events::Event;

verus! {

#[derive(Clone, Copy, Debug, PartialEq, Eq, Structural)]
pub enum GameplayState {
    Playing,
    Won,
}

impl GameplayState {
    /// The state's name as shown to the player.
    pub fn to_string(&self) -> (r: String)
        ensures
            *self == GameplayState::Playing ==> r@ == "Playing"@,
            *self == GameplayState::Won ==> r@ == "Won"@,
    {
        match self {
            GameplayState::Playing => "Playing".to_string(),
            GameplayState::Won => "Won".to_string(),
        }
    }
}

impl Default for GameplayState {
    fn default() -> (r: Self)
        ensures
            r == GameplayState::Playing,
    {
        GameplayState::Playing
    }
}

/// Whether the level is won, and how many inputs moved something.
#[derive(Clone, Copy, Debug, PartialEq, Eq, Structural)]
pub struct Gameplay {
    pub state: GameplayState,
    pub moves_count: u32,
}

impl Default for Gameplay {
    fn default() -> (r: Self)
        ensures
            r.state == GameplayState::Playing,
            r.moves_count == 0,
    {
        Gameplay { state: GameplayState::Playing, moves_count: 0 }
    }
}

/// The events produced during the current tick, oldest first.
#[derive(Debug)]
pub struct EventQueue {
    pub events: Vec<Event>,
}

impl Default for EventQueue {
    fn default() -> (r: Self)
        ensures
            r.events@.len() == 0,
    {
        EventQueue { events: Vec::new() }
    }
}

} // verus!
