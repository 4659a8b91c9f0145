//! Events without regard to the game that they come from.

use vstd::prelude::*;
use crate::text;

verus! {

/// Something that happened in a game.
#[derive(Debug, PartialEq, Eq)]
pub struct GameEvent {
    /// What kind of event it is; decides on clips and groups.
    pub kind: GameEventKind,
    /// A line for the user.
    pub summary: String,
    /// Who did it.
    pub actor: Option<String>,
    /// To whom or what.
    pub subject: Option<String>,
    /// With what: a vehicle, a character.
    pub context: Option<String>,
    /// The same for two reports of one event.
    pub canonical_key: String,
}

#[derive(Clone, Copy, Debug, PartialEq, Eq, Structural)]
pub enum GameEventKind {
    /// The player ended somebody.
    Kill,
    /// The player was ended.
    Death,
    /// Something that the battle is about was destroyed.
    Objective,
    /// Several kills reported as one.
    MultiKill,
    /// Anything else.
    Other,
}

/// An event with its texts as sequences of characters.
pub ghost struct GameEventView {
    pub kind: GameEventKind,
    pub summary: Seq<char>,
    pub actor: Option<Seq<char>>,
    pub subject: Option<Seq<char>>,
    pub context: Option<Seq<char>>,
    pub canonical_key: Seq<char>,
}

impl View for GameEvent {
    type V = GameEventView;

    open spec fn view(&self) -> GameEventView {
        GameEventView {
            kind: self.kind,
            summary: self.summary@,
            actor: text::opt_text(self.actor),
            subject: text::opt_text(self.subject),
            context: text::opt_text(self.context),
            canonical_key: self.canonical_key@,
        }
    }
}

pub open spec fn event_views(s: Seq<GameEvent>) -> Seq<GameEventView> {
    s.map_values(|e: GameEvent| e@)
}

impl Clone for GameEvent {
    fn clone(&self) -> (r: Self)
        ensures
            r == *self,
    {
        GameEvent {
            kind: self.kind,
            summary: self.summary.clone(),
            actor: text::clone_opt_text(&self.actor),
            subject: text::clone_opt_text(&self.subject),
            context: text::clone_opt_text(&self.context),
            canonical_key: self.canonical_key.clone(),
        }
    }
}

impl GameEvent {
    pub fn new(kind: GameEventKind, summary: String, canonical_key: String) -> (r: Self)
        ensures
            r@ == (GameEventView {
                kind,
                summary: summary@,
                actor: None,
                subject: None,
                context: None,
                canonical_key: canonical_key@,
            }),
    {
        GameEvent { kind, summary, actor: None, subject: None, context: None, canonical_key }
    }
}

/// What the user interface shows of an event.
#[derive(Debug, PartialEq, Eq)]
pub struct GameEventSummary {
    pub kind: GameEventKind,
    pub actor: Option<String>,
    pub subject: Option<String>,
    pub summary: String,
}

impl<'a> From<&'a GameEvent> for GameEventSummary {
    fn from(event: &'a GameEvent) -> (r: Self) {
        GameEventSummary {
            kind: event.kind,
            actor: text::clone_opt_text(&event.actor),
            subject: text::clone_opt_text(&event.subject),
            summary: event.summary.clone(),
        }
    }
}

impl<'a> vstd::std_specs::convert::FromSpecImpl<&'a GameEvent> for GameEventSummary {
    open spec fn obeys_from_spec() -> bool {
        true
    }

    open spec fn from_spec(event: &'a GameEvent) -> Self {
        GameEventSummary {
            kind: event.kind,
            actor: event.actor,
            subject: event.subject,
            summary: event.summary,
        }
    }
}

}
