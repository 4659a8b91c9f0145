//! What the battle log tells.

use vstd::prelude::*;
use crate::text;

verus! {

#[derive(Debug, PartialEq, Eq)]
pub enum WarThunderEvent {
    TargetDestroyed {
        attacker: Option<String>,
        action: String,
        vehicle: Option<String>,
        target: Option<String>,
        raw: String,
    },
    PlayerDestroyed { raw: String },
    CriticalHit { raw: String },
    SevereDamage { raw: String },
    BaseDestroyed { raw: String },
    Unknown(String),
}

/// An event with its texts as sequences of characters.
pub ghost enum EventView {
    TargetDestroyed {
        attacker: Option<Seq<char>>,
        action: Seq<char>,
        vehicle: Option<Seq<char>>,
        target: Option<Seq<char>>,
        raw: Seq<char>,
    },
    PlayerDestroyed { raw: Seq<char> },
    CriticalHit { raw: Seq<char> },
    SevereDamage { raw: Seq<char> },
    BaseDestroyed { raw: Seq<char> },
    Unknown { raw: Seq<char> },
}

impl View for WarThunderEvent {
    type V = EventView;

    open spec fn view(&self) -> EventView {
        match self {
            WarThunderEvent::TargetDestroyed { attacker, action, vehicle, target, raw } =>
                EventView::TargetDestroyed {
                attacker: text::opt_text(*attacker),
                action: action@,
                vehicle: text::opt_text(*vehicle),
                target: text::opt_text(*target),
                raw: raw@,
            },
            WarThunderEvent::PlayerDestroyed { raw } => EventView::PlayerDestroyed { raw: raw@ },
            WarThunderEvent::CriticalHit { raw } => EventView::CriticalHit { raw: raw@ },
            WarThunderEvent::SevereDamage { raw } => EventView::SevereDamage { raw: raw@ },
            WarThunderEvent::BaseDestroyed { raw } => EventView::BaseDestroyed { raw: raw@ },
            WarThunderEvent::Unknown(raw) => EventView::Unknown { raw: raw@ },
        }
    }
}

/// The actions that end a target.
pub open spec fn kill_action(action: Seq<char>) -> bool {
    action == "destroyed"@ || action == "shot down"@
}

pub fn is_kill_action(action: &str) -> (r: bool)
    ensures
        r == kill_action(action@),
{
    text::same(action, "destroyed") || text::same(action, "shot down")
}

impl EventView {
    /// The message that the event was read from.
    pub open spec fn raw_text(self) -> Seq<char> {
        match self {
            EventView::TargetDestroyed { raw, .. } => raw,
            EventView::PlayerDestroyed { raw } => raw,
            EventView::CriticalHit { raw } => raw,
            EventView::SevereDamage { raw } => raw,
            EventView::BaseDestroyed { raw } => raw,
            EventView::Unknown { raw } => raw,
        }
    }

    /// The player ended a target.
    pub open spec fn killed_by(self, player: Seq<char>) -> bool {
        self matches EventView::TargetDestroyed { attacker: Some(attacker), action, .. }
            && kill_action(action) && attacker == player
    }
}

impl WarThunderEvent {
    pub fn is_personal_kill(&self, player_name: &str) -> (r: bool)
        ensures
            r == self@.killed_by(player_name@),
    {
        match self {
            WarThunderEvent::TargetDestroyed { attacker: Some(attacker), action, .. } => {
                is_kill_action(action.as_str()) && text::same(attacker.as_str(), player_name)
            },
            _ => false,
        }
    }
}

}
