//! Where events come from.

use vstd::prelude::*;
use crate::games::event::GameEvent;
use crate::time::{Duration, Instant, SystemTime};

verus! {

/// What one look at a game gave.
#[derive(Debug)]
pub struct GamePollResult {
    /// New events, in the order in which they were found.
    pub events: Vec<GameEvent>,
    /// Did the game answer?
    pub connected: bool,
}

impl Default for GamePollResult {
    fn default() -> (r: Self)
        ensures
            r.events@ == Seq::<GameEvent>::empty(),
            !r.connected,
    {
        GamePollResult { events: Vec::new(), connected: false }
    }
}

/// An event and when it was found.
#[derive(Debug)]
pub struct DetectedEvent {
    pub event: GameEvent,
    pub detected_at: Instant,
    pub detected_wall_time: SystemTime,
    pub game_time: Option<Duration>,
}

impl DetectedEvent {
    pub fn new(
        event: GameEvent,
        game_time: Option<Duration>,
        detected_at: Instant,
        detected_wall_time: SystemTime,
    ) -> (r: Self)
        ensures
            r.event == event,
            r.game_time == game_time,
            r.detected_at == detected_at,
            r.detected_wall_time == detected_wall_time,
    {
        DetectedEvent { event, detected_at, detected_wall_time, game_time }
    }
}

impl Clone for DetectedEvent {
    fn clone(&self) -> (r: Self)
        ensures
            r == *self,
    {
        DetectedEvent {
            event: self.event.clone(),
            detected_at: self.detected_at,
            detected_wall_time: self.detected_wall_time,
            game_time: self.game_time,
        }
    }
}

}
