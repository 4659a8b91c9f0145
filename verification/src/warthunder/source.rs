//! From the lines of the battle log to events that make clips.

use vstd::prelude::*;
use vstd::string::*;
use crate::config::TriggerConfig;
use crate::games::event;
use crate::games::event::{GameEvent, GameEventKind, GameEventView};
use crate::games::source::GamePollResult;
use crate::text;
use crate::time::{Duration, Instant, NANOS_PER_SEC};
use crate::warthunder::client;
use crate::warthunder::client::{ChatMessage, ChatPoll, ChatView, HudPoll};
use crate::warthunder::events;
use crate::warthunder::events::{EventView, WarThunderEvent};
use crate::warthunder::parser;
use crate::warthunder::recent;
use crate::warthunder::recent::{RecentEventCache, RecentMessageCache};

verus! {

pub const EVENT_DEDUPE_SECONDS: u64 = 2;

pub const REMEMBERED_MESSAGES: usize = 1000;

/// How far the log has been read, and what was seen lately.
#[derive(Debug)]
pub struct WarThunderSourceState {
    pub last_chat_id: u64,
    pub last_evt_msg_id: u64,
    pub last_dmg_msg_id: u64,
    pub seen_messages: RecentMessageCache,
    pub seen_events: RecentEventCache,
}

/// A normalized text that names a base.
pub open spec fn names_base(normalized: Seq<char>) -> bool {
    normalized == "a base"@ || text::occurs_in(normalized, "base"@)
}

/// Does a normalized text name a base?
pub fn is_base_name(normalized: &str) -> (r: bool)
    ensures
        r == names_base(normalized@),
{
    text::same(normalized, "a base") || text::contains(normalized, "base")
}

/// A normalized text that tells of a destroyed base.
pub open spec fn tells_base_destroyed(normalized: Seq<char>) -> bool {
    ||| text::occurs_in(normalized, "base destroyed"@)
    ||| text::occurs_in(normalized, "enemy base destroyed"@)
    ||| text::occurs_in(normalized, "destroyed a base"@)
    ||| text::occurs_in(normalized, "destroyed enemy base"@)
}

/// Does a normalized text tell of a destroyed base?
pub fn mentions_base_destroyed(normalized: &str) -> (r: bool)
    ensures
        r == tells_base_destroyed(normalized@),
{
    text::contains(normalized, "base destroyed") || text::contains(
        normalized,
        "enemy base destroyed",
    ) || text::contains(normalized, "destroyed a base") || text::contains(
        normalized,
        "destroyed enemy base",
    )
}

/// A normalized text that tells of the player's end.
pub open spec fn tells_player_destroyed(normalized: Seq<char>) -> bool {
    ||| text::occurs_in(normalized, "you have been destroyed"@)
    ||| text::occurs_in(normalized, "vehicle destroyed"@)
    ||| text::occurs_in(normalized, "player destroyed"@)
}

/// Does a normalized text tell of the player's end?
pub fn mentions_player_destroyed(normalized: &str) -> (r: bool)
    ensures
        r == tells_player_destroyed(normalized@),
{
    text::contains(normalized, "you have been destroyed") || text::contains(
        normalized,
        "vehicle destroyed",
    ) || text::contains(normalized, "player destroyed")
}

fn raw_mentions_base_destroyed(raw: &str) -> (r: bool)
    ensures
        r == tells_base_destroyed(text::normalized(raw@)),
{
    mentions_base_destroyed(text::normalize(raw).as_str())
}

fn raw_mentions_player_destroyed(raw: &str) -> (r: bool)
    ensures
        r == tells_player_destroyed(text::normalized(raw@)),
{
    mentions_player_destroyed(text::normalize(raw).as_str())
}

/// The target's name holds the player's.
pub open spec fn target_names(target: Option<Seq<char>>, player: Seq<char>) -> bool {
    target matches Some(t) && text::occurs_in(text::normalized(t), text::normalized(player))
}

fn target_contains_player(target: &Option<String>, player_name: &str) -> (r: bool)
    ensures
        r == target_names(text::opt_text(*target), player_name@),
{
    match target {
        Some(target) => text::contains(
            text::normalize(target.as_str()).as_str(),
            text::normalize(player_name).as_str(),
        ),
        None => false,
    }
}

pub open spec fn target_names_base(target: Option<Seq<char>>) -> bool {
    target matches Some(t) && names_base(text::normalized(t))
}

fn target_is_base(target: &Option<String>) -> (r: bool)
    ensures
        r == target_names_base(text::opt_text(*target)),
{
    match target {
        Some(target) => is_base_name(text::normalize(target.as_str()).as_str()),
        None => false,
    }
}

/// The player ended somebody else.
pub open spec fn is_kill(event: EventView, player: Option<Seq<char>>) -> bool {
    match (event, player) {
        (
            EventView::TargetDestroyed { attacker: Some(attacker), action, target, .. },
            Some(name),
        ) => events::kill_action(action) && text::normalized(attacker) == text::normalized(name)
            && !target_names(target, name) && !target_names_base(target),
        _ => false,
    }
}

fn is_target_destroyed_event(event: &WarThunderEvent, player_name: Option<&str>) -> (r: bool)
    ensures
        r == is_kill(event@, text::opt_str(player_name)),
{
    let player_name: &str = match player_name {
        Some(name) => name,
        None => {
            return false;
        },
    };
    match event {
        WarThunderEvent::TargetDestroyed { attacker: Some(attacker), action, target, .. } => {
            events::is_kill_action(action.as_str()) && text::same(
                text::normalize(attacker.as_str()).as_str(),
                text::normalize(player_name).as_str(),
            ) && !target_contains_player(target, player_name) && !target_is_base(target)
        },
        _ => false,
    }
}

/// A base was destroyed.
pub open spec fn is_base_loss(event: EventView) -> bool {
    match event {
        EventView::BaseDestroyed { raw } => tells_base_destroyed(text::normalized(raw)),
        EventView::TargetDestroyed { action, target, raw, .. } => action == "destroyed"@ && (
        target_names_base(target) || tells_base_destroyed(text::normalized(raw))),
        EventView::Unknown { raw } => tells_base_destroyed(text::normalized(raw)),
        _ => false,
    }
}

fn is_base_destroyed_event(event: &WarThunderEvent) -> (r: bool)
    ensures
        r == is_base_loss(event@),
{
    match event {
        WarThunderEvent::BaseDestroyed { raw } => raw_mentions_base_destroyed(raw.as_str()),
        WarThunderEvent::TargetDestroyed { action, target, raw, .. } => {
            text::same(action.as_str(), "destroyed") && (target_is_base(target)
                || raw_mentions_base_destroyed(raw.as_str()))
        },
        WarThunderEvent::Unknown(raw) => raw_mentions_base_destroyed(raw.as_str()),
        _ => false,
    }
}

/// The player was ended.
pub open spec fn is_death(event: EventView, player: Option<Seq<char>>) -> bool {
    match event {
        EventView::PlayerDestroyed { raw } => tells_player_destroyed(text::normalized(raw)),
        EventView::TargetDestroyed { action, target, .. } => events::kill_action(action) && (
        player matches Some(name) && target_names(target, name)),
        EventView::Unknown { raw } => tells_player_destroyed(text::normalized(raw)),
        _ => false,
    }
}

fn is_player_destroyed_event(event: &WarThunderEvent, player_name: Option<&str>) -> (r: bool)
    ensures
        r == is_death(event@, text::opt_str(player_name)),
{
    match event {
        WarThunderEvent::PlayerDestroyed { raw } => raw_mentions_player_destroyed(raw.as_str()),
        WarThunderEvent::TargetDestroyed { action, target, .. } => {
            events::is_kill_action(action.as_str()) && match player_name {
                Some(name) => target_contains_player(target, name),
                None => false,
            }
        },
        WarThunderEvent::Unknown(raw) => raw_mentions_player_destroyed(raw.as_str()),
        _ => false,
    }
}

/// A player's name as it is compared: trimmed, and none where it is blank.
pub open spec fn known_player(player: Option<Seq<char>>) -> Option<Seq<char>> {
    client::trimmed(player)
}

/// What kind of clip an event makes, if any: the player's end before a base,
/// and a base before a kill.
pub open spec fn clip_kind(
    event: EventView,
    player: Option<Seq<char>>,
    triggers: TriggerConfig,
) -> Option<GameEventKind> {
    let name = known_player(player);
    if triggers.player_destroyed && is_death(event, name) {
        Some(GameEventKind::Death)
    } else if triggers.base_destroyed && is_base_loss(event) {
        Some(GameEventKind::Objective)
    } else if triggers.target_destroyed && is_kill(event, name) {
        Some(GameEventKind::Kill)
    } else {
        None
    }
}

pub fn should_clip_wt_event(
    event: &WarThunderEvent,
    player_name: Option<&str>,
    triggers: &TriggerConfig,
) -> (r: Option<GameEventKind>)
    ensures
        r == clip_kind(event@, text::opt_str(player_name), *triggers),
{
    let name: Option<&str> = match player_name {
        Some(name) => {
            let name = text::trim(name);
            if name.is_empty() {
                None
            } else {
                Some(name)
            }
        },
        None => None,
    };
    assert(text::opt_str(name) == known_player(text::opt_str(player_name)));
    if triggers.player_destroyed && is_player_destroyed_event(event, name) {
        return Some(GameEventKind::Death);
    }
    if triggers.base_destroyed && is_base_destroyed_event(event) {
        return Some(GameEventKind::Objective);
    }
    if triggers.target_destroyed && is_target_destroyed_event(event, name) {
        return Some(GameEventKind::Kill);
    }
    None
}

/// A kill is only clipped for a known player who is its attacker and not its
/// target.
pub proof fn lemma_clipped_kill_is_the_players(
    event: EventView,
    player: Option<Seq<char>>,
    triggers: TriggerConfig,
)
    requires
        clip_kind(event, player, triggers) == Some(GameEventKind::Kill),
    ensures
        known_player(player) matches Some(name) && event matches EventView::TargetDestroyed {
            attacker: Some(attacker),
            action,
            target,
            ..
        } && text::normalized(attacker) == text::normalized(name) && events::kill_action(action)
            && !target_names(target, name),
{
}

proof fn lemma_base_phrases()
    ensures
        text::occurs_in("a base"@, "base"@),
        text::occurs_in("enemy base destroyed"@, "base destroyed"@),
{
    reveal_strlit("a base");
    reveal_strlit("base");
    reveal_strlit("enemy base destroyed");
    reveal_strlit("base destroyed");
    assert("a base"@.subrange(2, 6) =~= "base"@);
    assert(text::matches_at("a base"@, "base"@, 2));
    assert("enemy base destroyed"@.subrange(6, 20) =~= "base destroyed"@);
    assert(text::matches_at("enemy base destroyed"@, "base destroyed"@, 6));
}

/// A line in normal form that reports the end of a base.
pub open spec fn reports_a_base(line: Seq<char>) -> bool {
    ||| text::occurs_in(line, "base destroyed"@)
    ||| text::occurs_in(line, "destroyed a base"@)
    ||| text::occurs_in(line, "destroyed enemy base"@)
}

/// A line in normal form that reports the end of the player.
pub open spec fn reports_the_player(line: Seq<char>) -> bool {
    ||| text::occurs_in(line, "you have been destroyed"@)
    ||| text::occurs_in(line, "vehicle destroyed"@)
    ||| text::occurs_in(line, "player destroyed"@)
}

proof fn lemma_reports(line: Seq<char>)
    ensures
        tells_base_destroyed(line) == reports_a_base(line),
        tells_player_destroyed(line) == reports_the_player(line),
        names_base(line) == text::occurs_in(line, "base"@),
{
    lemma_base_phrases();
    if text::occurs_in(line, "enemy base destroyed"@) {
        text::lemma_occurs_within(line, "enemy base destroyed"@, "base destroyed"@);
    }
}

/// Whoever the player destroys or shoots down is clipped as a kill, where kills
/// are wanted: the target names neither the player nor a base, and the line does
/// not report the end of one.
pub proof fn lemma_every_kill_is_clipped(
    attacker: Seq<char>,
    action: Seq<char>,
    vehicle: Option<Seq<char>>,
    target: Option<Seq<char>>,
    raw: Seq<char>,
    player: Seq<char>,
    triggers: TriggerConfig,
)
    requires
        triggers.target_destroyed,
        text::trim_of(player).len() > 0,
        action == "destroyed"@ || action == "shot down"@,
        text::normalized(attacker) == text::normalized(text::trim_of(player)),
        target matches Some(t) ==> {
            &&& !text::occurs_in(text::normalized(t), text::normalized(text::trim_of(player)))
            &&& !text::occurs_in(text::normalized(t), "base"@)
        },
        action == "destroyed"@ ==> !reports_a_base(text::normalized(raw)),
    ensures
        clip_kind(
            EventView::TargetDestroyed { attacker: Some(attacker), action, vehicle, target, raw },
            Some(player),
            triggers,
        ) == Some(GameEventKind::Kill),
{
    lemma_reports(text::normalized(raw));
    if let Some(t) = target {
        lemma_reports(text::normalized(t));
    }
}

/// Only the player's own doing is clipped as a kill: the attacker has the
/// player's name, something was destroyed or shot down, and it is neither the
/// player nor a base.
pub proof fn lemma_only_kills_are_clipped_as_kills(
    event: EventView,
    player: Option<Seq<char>>,
    triggers: TriggerConfig,
)
    requires
        clip_kind(event, player, triggers) == Some(GameEventKind::Kill),
    ensures
        triggers.target_destroyed,
        player is Some,
        text::trim_of(player->0).len() > 0,
        event matches EventView::TargetDestroyed { attacker: Some(attacker), action, target, .. }
            && {
            let name = text::normalized(text::trim_of(player->0));
            &&& text::normalized(attacker) == name
            &&& action == "destroyed"@ || action == "shot down"@
            &&& target matches Some(t) ==> !text::occurs_in(text::normalized(t), name)
                && !text::occurs_in(text::normalized(t), "base"@)
        },
{
    if let EventView::TargetDestroyed { target: Some(t), .. } = event {
        lemma_reports(text::normalized(t));
    }
}

/// The end of the player is clipped as a death, where deaths are wanted, before
/// anything else, and nothing else is clipped as one.
pub proof fn lemma_deaths_are_clipped(
    event: EventView,
    player: Option<Seq<char>>,
    triggers: TriggerConfig,
)
    ensures
        clip_kind(event, player, triggers) == Some(GameEventKind::Death) <==> {
            &&& triggers.player_destroyed
            &&& match event {
                EventView::PlayerDestroyed { raw } => reports_the_player(text::normalized(raw)),
                EventView::Unknown { raw } => reports_the_player(text::normalized(raw)),
                EventView::TargetDestroyed { action, target: Some(t), .. } => (action
                    == "destroyed"@ || action == "shot down"@) && player is Some && text::trim_of(
                    player->0,
                ).len() > 0 && text::occurs_in(
                    text::normalized(t),
                    text::normalized(text::trim_of(player->0)),
                ),
                _ => false,
            }
        },
{
    lemma_reports(text::normalized(event.raw_text()));
}

/// The end of a base is clipped as an objective, where those are wanted, unless
/// the same event is clipped as a death, and nothing else is clipped as one.
pub proof fn lemma_bases_are_clipped(
    event: EventView,
    player: Option<Seq<char>>,
    triggers: TriggerConfig,
)
    ensures
        clip_kind(event, player, triggers) == Some(GameEventKind::Objective) <==> {
            &&& triggers.base_destroyed
            &&& clip_kind(event, player, triggers) != Some(GameEventKind::Death)
            &&& match event {
                EventView::BaseDestroyed { raw } => reports_a_base(text::normalized(raw)),
                EventView::Unknown { raw } => reports_a_base(text::normalized(raw)),
                EventView::TargetDestroyed { action, target, raw, .. } => action == "destroyed"@
                    && (reports_a_base(text::normalized(raw)) || (target matches Some(t)
                    && text::occurs_in(text::normalized(t), "base"@))),
                _ => false,
            }
        },
{
    lemma_reports(text::normalized(event.raw_text()));
    if let EventView::TargetDestroyed { target: Some(t), .. } = event {
        lemma_reports(text::normalized(t));
    }
}

/// A message that reports the end of a base, and no fight, no hit and no damage,
/// is clipped as an objective where those are wanted.
pub proof fn lemma_base_message_is_clipped(
    message: Seq<char>,
    player: Option<Seq<char>>,
    triggers: TriggerConfig,
)
    requires
        triggers.base_destroyed,
        parser::combat_event(text::trim_of(message)) is None,
        text::occurs_in(text::normalized(text::trim_of(message)), "base destroyed"@),
        !text::occurs_in(text::normalized(text::trim_of(message)), "critical hit"@),
        !text::occurs_in(text::normalized(text::trim_of(message)), "severe damage"@),
    ensures
        clip_kind(parser::event_in(message), player, triggers) == Some(GameEventKind::Objective),
{
    parser::lemma_plain_message(message);
    lemma_bases_are_clipped(parser::event_in(message), player, triggers);
    lemma_deaths_are_clipped(parser::event_in(message), player, triggers);
}

/// A message that reports the end of the player, and no fight, no hit, no damage
/// and no base, is clipped as a death where those are wanted.
pub proof fn lemma_death_message_is_clipped(
    message: Seq<char>,
    player: Option<Seq<char>>,
    triggers: TriggerConfig,
)
    requires
        triggers.player_destroyed,
        parser::combat_event(text::trim_of(message)) is None,
        reports_the_player(text::normalized(text::trim_of(message))),
        !text::occurs_in(text::normalized(text::trim_of(message)), "base destroyed"@),
        !text::occurs_in(text::normalized(text::trim_of(message)), "critical hit"@),
        !text::occurs_in(text::normalized(text::trim_of(message)), "severe damage"@),
    ensures
        clip_kind(parser::event_in(message), player, triggers) == Some(GameEventKind::Death),
{
    parser::lemma_plain_message(message);
    lemma_deaths_are_clipped(parser::event_in(message), player, triggers);
}

/// A line that says that the player destroyed or shot down somebody is clipped as
/// a kill, where kills are wanted.
pub proof fn lemma_kill_line_is_clipped(
    player: Seq<char>,
    vehicle: Seq<char>,
    action: Seq<char>,
    target: Seq<char>,
    triggers: TriggerConfig,
)
    requires
        triggers.target_destroyed,
        action == "destroyed"@ || action == "shot down"@,
        parser::is_trimmed(player),
        parser::is_trimmed(vehicle),
        parser::is_trimmed(target),
        !vehicle.contains('('),
        !vehicle.contains(')'),
        parser::holds_no_action(player + " ("@ + vehicle + ")"@),
        !text::occurs_in(text::normalized(target), text::normalized(player)),
        !text::occurs_in(text::normalized(target), "base"@),
        !reports_a_base(
            text::normalized(player + " ("@ + vehicle + ")"@ + " "@ + action + " "@ + target),
        ),
    ensures
        clip_kind(
            parser::event_in(player + " ("@ + vehicle + ")"@ + " "@ + action + " "@ + target),
            Some(player),
            triggers,
        ) == Some(GameEventKind::Kill),
{
    let line = player + " ("@ + vehicle + ")"@ + " "@ + action + " "@ + target;
    parser::lemma_combat_line(player, vehicle, action, target);
    text::lemma_trim_is(player, 0, player.len() as int);
    assert(player.subrange(0, player.len() as int) =~= player);
    lemma_every_kill_is_clipped(
        player,
        action,
        Some(vehicle),
        Some(target),
        line,
        player,
        triggers,
    );
}

/// With no trigger set, nothing is clipped.
pub proof fn lemma_no_trigger_no_clip(event: EventView, player: Option<Seq<char>>)
    ensures
        clip_kind(
            event,
            player,
            (TriggerConfig {
                target_destroyed: false,
                base_destroyed: false,
                player_destroyed: false,
            }),
        ) is None,
{
}

pub open spec fn or_empty(o: Option<Seq<char>>) -> Seq<char> {
    match o {
        Some(s) => s,
        None => seq![],
    }
}

/// What two reports of one event have in common; none for an unknown event
/// without text.
pub open spec fn canonical_key(event: EventView) -> Option<Seq<char>> {
    match event {
        EventView::TargetDestroyed { attacker, action, vehicle, target, raw } => Some(
            "target_destroyed|"@ + text::normalized(or_empty(attacker)) + "|"@ + text::normalized(
                or_empty(vehicle),
            ) + "|"@ + text::normalized(action) + "|"@ + text::normalized(
                match target {
                    Some(t) => t,
                    None => raw,
                },
            ),
        ),
        EventView::PlayerDestroyed { raw } => Some("player_destroyed|"@ + text::normalized(raw)),
        EventView::CriticalHit { raw } => Some("critical_hit|"@ + text::normalized(raw)),
        EventView::SevereDamage { raw } => Some("severe_damage|"@ + text::normalized(raw)),
        EventView::BaseDestroyed { raw } => Some("base_destroyed|"@ + text::normalized(raw)),
        EventView::Unknown { raw } => if text::normalized(raw).len() == 0 {
            None
        } else {
            Some("unknown|"@ + text::normalized(raw))
        },
    }
}

fn opt_as_str(o: &Option<String>) -> (r: &str)
    ensures
        r@ == or_empty(text::opt_text(*o)),
{
    match o {
        Some(s) => s.as_str(),
        None => {
            proof {
                reveal_strlit("");
            }
            let empty = "";
            assert(empty@ =~= Seq::<char>::empty());
            empty
        },
    }
}

fn prefixed(prefix: &str, raw: &str) -> (r: String)
    ensures
        r@ == prefix@ + text::normalized(raw@),
{
    text::join2(prefix, text::normalize(raw).as_str())
}

fn canonical_wt_event_key(event: &WarThunderEvent) -> (r: Option<String>)
    ensures
        text::opt_text(r) == canonical_key(event@),
{
    match event {
        WarThunderEvent::TargetDestroyed { attacker, action, vehicle, target, raw } => {
            let mut key: String = "target_destroyed|".to_owned();
            key.append(text::normalize(opt_as_str(attacker)).as_str());
            key.append("|");
            key.append(text::normalize(opt_as_str(vehicle)).as_str());
            key.append("|");
            key.append(text::normalize(action.as_str()).as_str());
            key.append("|");
            let whom: &str = match target {
                Some(target) => target.as_str(),
                None => raw.as_str(),
            };
            key.append(text::normalize(whom).as_str());
            Some(key)
        },
        WarThunderEvent::PlayerDestroyed { raw } => Some(
            prefixed("player_destroyed|", raw.as_str()),
        ),
        WarThunderEvent::CriticalHit { raw } => Some(prefixed("critical_hit|", raw.as_str())),
        WarThunderEvent::SevereDamage { raw } => Some(prefixed("severe_damage|", raw.as_str())),
        WarThunderEvent::BaseDestroyed { raw } => Some(prefixed("base_destroyed|", raw.as_str())),
        WarThunderEvent::Unknown(raw) => {
            let normalized = text::normalize(raw.as_str());
            if normalized.as_str().is_empty() {
                None
            } else {
                Some(text::join2("unknown|", normalized.as_str()))
            }
        },
    }
}

/// A line for the user.
pub open spec fn event_line(event: EventView) -> Seq<char> {
    match event {
        EventView::TargetDestroyed { attacker: Some(a), action, vehicle, target: Some(t), .. } =>
            match vehicle {
            Some(v) => a + " "@ + action + " "@ + t + " with "@ + v,
            None => a + " "@ + action + " "@ + t,
        },
        _ => event.raw_text(),
    }
}

pub fn wt_event_summary(event: &WarThunderEvent) -> (r: String)
    ensures
        r@ == event_line(event@),
{
    match event {
        WarThunderEvent::TargetDestroyed { attacker, action, vehicle, target, raw } => {
            match (attacker, target) {
                (Some(attacker), Some(target)) => {
                    let mut line: String = attacker.clone();
                    line.append(" ");
                    line.append(action.as_str());
                    line.append(" ");
                    line.append(target.as_str());
                    if let Some(vehicle) = vehicle {
                        line.append(" with ");
                        line.append(vehicle.as_str());
                    }
                    line
                },
                _ => raw.clone(),
            }
        },
        WarThunderEvent::PlayerDestroyed { raw } => raw.clone(),
        WarThunderEvent::CriticalHit { raw } => raw.clone(),
        WarThunderEvent::SevereDamage { raw } => raw.clone(),
        WarThunderEvent::BaseDestroyed { raw } => raw.clone(),
        WarThunderEvent::Unknown(raw) => raw.clone(),
    }
}

/// An event of the log as an event of any game.
pub open spec fn as_game_event(event: EventView, kind: GameEventKind, key: Seq<char>) -> GameEventView {
    let parts = match event {
        EventView::TargetDestroyed { attacker, vehicle, target, .. } => (attacker, target, vehicle),
        _ => (None, None, None),
    };
    GameEventView {
        kind,
        summary: event_line(event),
        actor: parts.0,
        subject: parts.1,
        context: parts.2,
        canonical_key: key,
    }
}

pub fn wt_event_to_game_event(
    event: WarThunderEvent,
    kind: GameEventKind,
    canonical_key: String,
) -> (r: GameEvent)
    ensures
        r@ == as_game_event(event@, kind, canonical_key@),
{
    let summary = wt_event_summary(&event);
    let mut game_event = GameEvent::new(kind, summary, canonical_key);
    match event {
        WarThunderEvent::TargetDestroyed { attacker, vehicle, target, .. } => {
            game_event.actor = attacker;
            game_event.subject = target;
            game_event.context = vehicle;
        },
        _ => {},
    }
    game_event
}

/// The key under which an event is noted: its canonical key, and the time in
/// the game where the message tells it.
pub open spec fn noted_key(canonical: Seq<char>, message: ChatView) -> Seq<char> {
    match client::trimmed(message.time) {
        Some(time) => canonical + "|time:"@ + text::normalized(time),
        None => canonical,
    }
}

fn event_dedupe_key(canonical: &str, message: &ChatMessage) -> (r: String)
    ensures
        r@ == noted_key(canonical@, message@),
{
    if let Some(time) = &message.time {
        let time = text::trim(time.as_str());
        if !time.is_empty() {
            let mut key: String = canonical.to_owned();
            key.append("|time:");
            key.append(text::normalize(time).as_str());
            return key;
        }
    }
    canonical.to_owned()
}

/// What has been seen, and the events found, in the course of a poll.
pub ghost struct Progress {
    pub seen: Seq<Seq<char>>,
    pub noted: Seq<(Seq<char>, Instant)>,
    pub events: Seq<GameEventView>,
}

/// What stays the same in the course of a poll.
pub ghost struct PollContext {
    pub source: Seq<char>,
    pub player: Option<Seq<char>>,
    pub triggers: TriggerConfig,
    pub max_len: int,
    pub ttl: Duration,
    pub now: Instant,
}

/// One message taken in: a known one changes nothing; another is remembered,
/// and where it tells of an event that makes a clip and was not noted lately,
/// the event is noted and handed out.
pub open spec fn taken_in(p: Progress, c: PollContext, message: ChatView) -> Progress {
    let key = message.stable_key(c.source);
    if p.seen.contains(key) {
        p
    } else {
        let seen = recent::remembered(p.seen, c.max_len, key);
        let event = parser::event_in(message.text);
        match (clip_kind(event, c.player, c.triggers), canonical_key(event)) {
            (Some(kind), Some(canonical)) => {
                let event_key = noted_key(canonical, message);
                let kept = recent::pruned(p.noted, c.ttl, c.now);
                if recent::seen_keys(kept).contains(event_key) {
                    Progress { seen, noted: kept, events: p.events }
                } else {
                    Progress {
                        seen,
                        noted: kept.push((event_key, c.now)),
                        events: p.events.push(as_game_event(event, kind, event_key)),
                    }
                }
            },
            _ => Progress { seen, ..p },
        }
    }
}

pub open spec fn all_taken_in(p: Progress, c: PollContext, messages: Seq<ChatView>) -> Progress
    decreases messages.len(),
{
    if messages.len() == 0 {
        p
    } else {
        taken_in(all_taken_in(p, c, messages.drop_last()), c, messages.last())
    }
}

impl WarThunderSourceState {
    pub open spec fn wf(self) -> bool {
        &&& self.seen_messages.wf()
        &&& self.seen_events.wf()
    }

    pub open spec fn progress(self, events: Seq<GameEvent>) -> Progress {
        Progress {
            seen: self.seen_messages@,
            noted: self.seen_events@,
            events: event::event_views(events),
        }
    }

    pub open spec fn context(
        self,
        source: Seq<char>,
        player: Option<Seq<char>>,
        triggers: TriggerConfig,
        now: Instant,
    ) -> PollContext {
        PollContext {
            source,
            player,
            triggers,
            max_len: self.seen_messages.max_len as int,
            ttl: self.seen_events.ttl,
            now,
        }
    }

    pub fn new() -> (r: Self)
        ensures
            r.wf(),
            r.last_chat_id == 0,
            r.last_evt_msg_id == 0,
            r.last_dmg_msg_id == 0,
            r.seen_messages@ == Seq::<Seq<char>>::empty(),
            r.seen_messages.max_len == REMEMBERED_MESSAGES,
            r.seen_events@ == Seq::<(Seq<char>, Instant)>::empty(),
            r.seen_events.ttl.nanos == EVENT_DEDUPE_SECONDS * NANOS_PER_SEC,
    {
        WarThunderSourceState {
            last_chat_id: 0,
            last_evt_msg_id: 0,
            last_dmg_msg_id: 0,
            seen_messages: RecentMessageCache::new(REMEMBERED_MESSAGES),
            seen_events: RecentEventCache::new(Duration::from_secs(EVENT_DEDUPE_SECONDS)),
        }
    }
}

fn take_in_message(
    source: &str,
    message: &ChatMessage,
    state: &mut WarThunderSourceState,
    player_name: Option<&str>,
    triggers: &TriggerConfig,
    now: Instant,
    events: &mut Vec<GameEvent>,
)
    requires
        old(state).wf(),
    ensures
        final(state).wf(),
        final(state).seen_messages.max_len == old(state).seen_messages.max_len,
        final(state).seen_events.ttl == old(state).seen_events.ttl,
        final(state).last_chat_id == old(state).last_chat_id,
        final(state).last_evt_msg_id == old(state).last_evt_msg_id,
        final(state).last_dmg_msg_id == old(state).last_dmg_msg_id,
        final(state).progress(final(events)@) == taken_in(
            old(state).progress(old(events)@),
            old(state).context(source@, text::opt_str(player_name), *triggers, now),
            message@,
        ),
{
    let key = message.stable_key_with_prefix(source);
    if state.seen_messages.contains(key.as_str()) {
        return;
    }
    state.seen_messages.insert(key);
    let wt_event = parser::parse_gamechat_event(message.text.as_str());
    let canonical = canonical_wt_event_key(&wt_event);
    let kind: GameEventKind = match should_clip_wt_event(&wt_event, player_name, triggers) {
        Some(kind) => kind,
        None => {
            return;
        },
    };
    let canonical: String = match canonical {
        Some(canonical) => canonical,
        None => {
            return;
        },
    };
    let event_key = event_dedupe_key(canonical.as_str(), message);
    if !state.seen_events.insert_new(event_key.clone(), now) {
        return;
    }
    let ghost before = event::event_views(events@);
    let game_event = wt_event_to_game_event(wt_event, kind, event_key);
    events.push(game_event);
    assert(event::event_views(events@) =~= before.push(game_event@));
}

/// Takes in the messages of one source, one after the other.
pub fn collect_personal_events(
    source: &str,
    messages: &Vec<ChatMessage>,
    state: &mut WarThunderSourceState,
    player_name: Option<&str>,
    triggers: &TriggerConfig,
    now: Instant,
    events: &mut Vec<GameEvent>,
)
    requires
        old(state).wf(),
    ensures
        final(state).wf(),
        final(state).seen_messages.max_len == old(state).seen_messages.max_len,
        final(state).seen_events.ttl == old(state).seen_events.ttl,
        final(state).last_chat_id == old(state).last_chat_id,
        final(state).last_evt_msg_id == old(state).last_evt_msg_id,
        final(state).last_dmg_msg_id == old(state).last_dmg_msg_id,
        final(state).progress(final(events)@) == all_taken_in(
            old(state).progress(old(events)@),
            old(state).context(source@, text::opt_str(player_name), *triggers, now),
            client::chats(messages@),
        ),
{
    let ghost all = client::chats(messages@);
    let ghost start = state.progress(events@);
    let ghost c = state.context(source@, text::opt_str(player_name), *triggers, now);
    let mut i: usize = 0;
    while i < messages.len()
        invariant
            i <= messages.len(),
            all == client::chats(messages@),
            state.wf(),
            state.seen_messages.max_len == old(state).seen_messages.max_len,
            state.seen_events.ttl == old(state).seen_events.ttl,
            state.last_chat_id == old(state).last_chat_id,
            state.last_evt_msg_id == old(state).last_evt_msg_id,
            state.last_dmg_msg_id == old(state).last_dmg_msg_id,
            c == state.context(source@, text::opt_str(player_name), *triggers, now),
            state.progress(events@) == all_taken_in(start, c, all.subrange(0, i as int)),
        decreases messages.len() - i,
    {
        let ghost next = all.subrange(0, i + 1);
        assert(next.drop_last() == all.subrange(0, i as int));
        assert(next.last() == messages@[i as int]@);
        take_in_message(source, &messages[i], state, player_name, triggers, now, events);
        i = i + 1;
    }
    assert(all.subrange(0, all.len() as int) == all);
}

/// The keys of the messages remembered, one after the other.
pub open spec fn all_remembered(
    keys: Seq<Seq<char>>,
    max_len: int,
    source: Seq<char>,
    messages: Seq<ChatView>,
) -> Seq<Seq<char>>
    decreases messages.len(),
{
    if messages.len() == 0 {
        keys
    } else {
        recent::remembered(
            all_remembered(keys, max_len, source, messages.drop_last()),
            max_len,
            messages.last().stable_key(source),
        )
    }
}

/// Remembers messages without looking for events in them.
pub fn remember_messages(
    source: &str,
    messages: &Vec<ChatMessage>,
    seen_messages: &mut RecentMessageCache,
)
    requires
        old(seen_messages).wf(),
    ensures
        final(seen_messages).wf(),
        final(seen_messages).max_len == old(seen_messages).max_len,
        final(seen_messages)@ == all_remembered(
            old(seen_messages)@,
            old(seen_messages).max_len as int,
            source@,
            client::chats(messages@),
        ),
{
    let ghost all = client::chats(messages@);
    let ghost start = seen_messages@;
    let mut i: usize = 0;
    while i < messages.len()
        invariant
            i <= messages.len(),
            all == client::chats(messages@),
            seen_messages.wf(),
            seen_messages.max_len == old(seen_messages).max_len,
            seen_messages@ == all_remembered(
                start,
                seen_messages.max_len as int,
                source@,
                all.subrange(0, i as int),
            ),
        decreases messages.len() - i,
    {
        let ghost next = all.subrange(0, i + 1);
        assert(next.drop_last() == all.subrange(0, i as int));
        assert(next.last() == messages@[i as int]@);
        let key = messages[i].stable_key_with_prefix(source);
        seen_messages.insert(key);
        i = i + 1;
    }
    assert(all.subrange(0, all.len() as int) == all);
}

impl WarThunderSourceState {
    /// Starts behind what the log holds already, unless history counts.
    pub fn bootstrap(
        &mut self,
        include_history: bool,
        chat: Option<ChatPoll>,
        hud: Option<HudPoll>,
    )
        requires
            old(self).wf(),
        ensures
            final(self).wf(),
            final(self).seen_events == old(self).seen_events,
            final(self).seen_messages.max_len == old(self).seen_messages.max_len,
            include_history ==> *final(self) == *old(self),
            !include_history ==> {
                let max_len = old(self).seen_messages.max_len as int;
                let after_chat = match chat {
                    Some(chat) => all_remembered(
                        old(self).seen_messages@,
                        max_len,
                        "gamechat"@,
                        client::chats(chat.messages@),
                    ),
                    None => old(self).seen_messages@,
                };
                &&& final(self).last_chat_id == (match chat {
                    Some(chat) => chat.next_last_id,
                    None => old(self).last_chat_id,
                })
                &&& final(self).last_evt_msg_id == (match hud {
                    Some(hud) => hud.next_last_evt_id,
                    None => old(self).last_evt_msg_id,
                })
                &&& final(self).last_dmg_msg_id == (match hud {
                    Some(hud) => hud.next_last_dmg_id,
                    None => old(self).last_dmg_msg_id,
                })
                &&& final(self).seen_messages@ == (match hud {
                    Some(hud) => all_remembered(
                        all_remembered(
                            after_chat,
                            max_len,
                            "hud:event"@,
                            client::chats(hud.events@),
                        ),
                        max_len,
                        "hud:damage"@,
                        client::chats(hud.damage@),
                    ),
                    None => after_chat,
                })
            },
    {
        if include_history {
            return;
        }
        if let Some(chat) = chat {
            self.last_chat_id = chat.next_last_id;
            remember_messages("gamechat", &chat.messages, &mut self.seen_messages);
        }
        if let Some(hud) = hud {
            self.last_evt_msg_id = hud.next_last_evt_id;
            self.last_dmg_msg_id = hud.next_last_dmg_id;
            remember_messages("hud:event", &hud.events, &mut self.seen_messages);
            remember_messages("hud:damage", &hud.damage, &mut self.seen_messages);
        }
    }

    /// Takes in the answers of one poll; none where a request failed. Each
    /// answer is taken in at the time at which it came.
    pub fn poll(
        &mut self,
        chat: Option<ChatPoll>,
        hud: Option<HudPoll>,
        player_name: Option<&str>,
        triggers: &TriggerConfig,
        chat_at: Instant,
        hud_at: Instant,
    ) -> (r: GamePollResult)
        requires
            old(self).wf(),
        ensures
            final(self).wf(),
            final(self).seen_messages.max_len == old(self).seen_messages.max_len,
            final(self).seen_events.ttl == old(self).seen_events.ttl,
            r.connected == (chat is Some || hud is Some),
            final(self).last_chat_id == (match chat {
                Some(chat) => chat.next_last_id,
                None => old(self).last_chat_id,
            }),
            final(self).last_evt_msg_id == (match hud {
                Some(hud) => hud.next_last_evt_id,
                None => old(self).last_evt_msg_id,
            }),
            final(self).last_dmg_msg_id == (match hud {
                Some(hud) => hud.next_last_dmg_id,
                None => old(self).last_dmg_msg_id,
            }),
            final(self).progress(r.events@) == ({
                let player = text::opt_str(player_name);
                let start = old(self).progress(Seq::empty());
                let after_chat = match chat {
                    Some(chat) => all_taken_in(
                        start,
                        old(self).context("gamechat"@, player, *triggers, chat_at),
                        client::chats(chat.messages@),
                    ),
                    None => start,
                };
                match hud {
                    Some(hud) => all_taken_in(
                        all_taken_in(
                            after_chat,
                            old(self).context("hud:event"@, player, *triggers, hud_at),
                            client::chats(hud.events@),
                        ),
                        old(self).context("hud:damage"@, player, *triggers, hud_at),
                        client::chats(hud.damage@),
                    ),
                    None => after_chat,
                }
            }),
    {
        let mut events: Vec<GameEvent> = Vec::new();
        let mut connected: bool = false;
        if let Some(chat) = chat {
            connected = true;
            self.last_chat_id = chat.next_last_id;
            collect_personal_events(
                "gamechat",
                &chat.messages,
                self,
                player_name,
                triggers,
                chat_at,
                &mut events,
            );
        }
        if let Some(hud) = hud {
            connected = true;
            self.last_evt_msg_id = hud.next_last_evt_id;
            self.last_dmg_msg_id = hud.next_last_dmg_id;
            collect_personal_events(
                "hud:event",
                &hud.events,
                self,
                player_name,
                triggers,
                hud_at,
                &mut events,
            );
            collect_personal_events(
                "hud:damage",
                &hud.damage,
                self,
                player_name,
                triggers,
                hud_at,
                &mut events,
            );
        }
        GamePollResult { events, connected }
    }
}

/// A message that was just taken in tells nothing new when it comes again.
pub proof fn lemma_repeated_message_changes_nothing(p: Progress, c: PollContext, message: ChatView)
    requires
        c.max_len >= 1,
        p.seen.len() <= c.max_len,
    ensures
        taken_in(taken_in(p, c, message), c, message) == taken_in(p, c, message),
{
    let key = message.stable_key(c.source);
    if !p.seen.contains(key) {
        recent::lemma_remembered_is_known(p.seen, c.max_len, key);
    }
}

/// Every event that a message adds carries a key that was not noted, so two
/// reports of one event within its time give one event.
pub proof fn lemma_second_report_is_silent(
    p: Progress,
    c: PollContext,
    d: PollContext,
    first: ChatView,
    second: ChatView,
)
    requires
        d.now == c.now,
        d.ttl == c.ttl,
        d.player == c.player,
        d.triggers == c.triggers,
        taken_in(p, c, first).events.len() > p.events.len(),
        canonical_key(parser::event_in(first.text)) == canonical_key(
            parser::event_in(second.text),
        ),
        client::trimmed(first.time) == client::trimmed(second.time),
    ensures
        taken_in(taken_in(p, c, first), d, second).events == taken_in(p, c, first).events,
{
    let q = taken_in(p, c, first);
    let event = parser::event_in(first.text);
    let event_key = noted_key(canonical_key(event)->0, first);
    let kept = recent::pruned(p.noted, c.ttl, c.now);
    assert(q.noted == kept.push((event_key, c.now)));
    assert(q.noted == recent::noted(kept, event_key, c.now));
    recent::lemma_new_event_is_known_for_its_ttl(kept, c.ttl, event_key, c.now, c.now);
}

/// The seconds of a clock reading: seconds, minutes and seconds, or hours,
/// minutes and seconds.
pub open spec fn clock_seconds(parts: Seq<Seq<char>>) -> Option<nat> {
    let max = u64::MAX as nat;
    if parts.len() == 1 {
        text::parse_unsigned(parts[0], max)
    } else if parts.len() == 2 {
        match (text::parse_unsigned(parts[0], max), text::parse_unsigned(parts[1], max)) {
            (Some(m), Some(s)) => Some(capped(capped(m * 60) + s)),
            _ => None,
        }
    } else if parts.len() == 3 {
        match (
            text::parse_unsigned(parts[0], max),
            text::parse_unsigned(parts[1], max),
            text::parse_unsigned(parts[2], max),
        ) {
            (Some(h), Some(m), Some(s)) => Some(
                capped(capped(capped(h * 3600) + capped(m * 60)) + s),
            ),
            _ => None,
        }
    } else {
        None
    }
}

pub open spec fn capped(n: nat) -> nat {
    if n > u64::MAX {
        u64::MAX as nat
    } else {
        n
    }
}

fn saturating_times(n: u64, by: u64) -> (r: u64)
    ensures
        r == capped((n * by) as nat),
{
    proof {
        assert(n * by >= 0) by (nonlinear_arith);
    }
    match n.checked_mul(by) {
        Some(product) => product,
        None => u64::MAX,
    }
}

/// The seconds that a message's time tells, where it tells any.
pub open spec fn message_seconds(value: Option<Seq<char>>) -> Option<nat> {
    match client::trimmed(value) {
        Some(time) => clock_seconds(text::split_of(time, ':')),
        None => None,
    }
}

/// The time that a message tells, where it tells one.
pub fn parse_wt_message_time(value: Option<&str>) -> (r: Option<Duration>)
    ensures
        match (r, message_seconds(text::opt_str(value))) {
            (Some(span), Some(seconds)) => span.nanos == seconds * NANOS_PER_SEC,
            (None, None) => true,
            _ => false,
        },
{
    let value: &str = match value {
        Some(value) => text::trim(value),
        None => {
            return None;
        },
    };
    if value.is_empty() {
        return None;
    }
    let parts = text::split(value, ':');
    let ghost views = text::texts(parts@);
    assert(views.len() == parts@.len());
    if parts.len() == 1 {
        assert(views[0] == parts@[0]@);
        return match text::parse_u64(parts[0].as_str()) {
            Some(seconds) => Some(Duration::from_secs(seconds)),
            None => None,
        };
    }
    if parts.len() == 2 {
        assert(views[0] == parts@[0]@);
        assert(views[1] == parts@[1]@);
        let minutes: Option<u64> = text::parse_u64(parts[0].as_str());
        let seconds: Option<u64> = text::parse_u64(parts[1].as_str());
        return match (minutes, seconds) {
            (Some(m), Some(s)) => Some(
                Duration::from_secs(saturating_times(m, 60).saturating_add(s)),
            ),
            _ => None,
        };
    }
    if parts.len() == 3 {
        assert(views[0] == parts@[0]@);
        assert(views[1] == parts@[1]@);
        assert(views[2] == parts@[2]@);
        let hours: Option<u64> = text::parse_u64(parts[0].as_str());
        let minutes: Option<u64> = text::parse_u64(parts[1].as_str());
        let seconds: Option<u64> = text::parse_u64(parts[2].as_str());
        return match (hours, minutes, seconds) {
            (Some(h), Some(m), Some(s)) => Some(
                Duration::from_secs(
                    saturating_times(h, 3600).saturating_add(saturating_times(m, 60)).saturating_add(
                        s,
                    ),
                ),
            ),
            _ => None,
        };
    }
    None
}

/// Reports of two events that differ in one thing have different keys: who did it,
/// in what, what was done, or to whom.
pub proof fn lemma_keys_tell_events_apart(
    attacker: Seq<char>,
    other_attacker: Seq<char>,
    vehicle: Seq<char>,
    other_vehicle: Seq<char>,
    action: Seq<char>,
    other_action: Seq<char>,
    target: Seq<char>,
    other_target: Seq<char>,
    raw: Seq<char>,
    other_raw: Seq<char>,
)
    requires
        ({
            let a = text::normalized(attacker) != text::normalized(other_attacker);
            let v = text::normalized(vehicle) != text::normalized(other_vehicle);
            let x = text::normalized(action) != text::normalized(other_action);
            let t = text::normalized(target) != text::normalized(other_target);
            ||| a && !v && !x && !t
            ||| !a && v && !x && !t
            ||| !a && !v && x && !t
            ||| !a && !v && !x && t
        }),
    ensures
        canonical_key(
            EventView::TargetDestroyed {
                attacker: Some(attacker),
                action,
                vehicle: Some(vehicle),
                target: Some(target),
                raw,
            },
        ) != canonical_key(
            EventView::TargetDestroyed {
                attacker: Some(other_attacker),
                action: other_action,
                vehicle: Some(other_vehicle),
                target: Some(other_target),
                raw: other_raw,
            },
        ),
{
    let start = "target_destroyed|"@;
    let a = text::normalized(attacker);
    let v = text::normalized(vehicle);
    let x = text::normalized(action);
    let t = text::normalized(target);
    let a2 = text::normalized(other_attacker);
    let v2 = text::normalized(other_vehicle);
    let x2 = text::normalized(other_action);
    let t2 = text::normalized(other_target);
    let one = start + a + "|"@ + v + "|"@ + x + "|"@ + t;
    let other = start + a2 + "|"@ + v2 + "|"@ + x2 + "|"@ + t2;
    if one == other {
        if a != a2 {
            lemma_middles_differ(start, a, a2, "|"@ + v + "|"@ + x + "|"@ + t);
            assert(one =~= start + a + ("|"@ + v + "|"@ + x + "|"@ + t));
            assert(other =~= start + a2 + ("|"@ + v + "|"@ + x + "|"@ + t));
        } else if v != v2 {
            lemma_middles_differ(start + a + "|"@, v, v2, "|"@ + x + "|"@ + t);
            assert(one =~= start + a + "|"@ + v + ("|"@ + x + "|"@ + t));
            assert(other =~= start + a + "|"@ + v2 + ("|"@ + x + "|"@ + t));
        } else if x != x2 {
            lemma_middles_differ(start + a + "|"@ + v + "|"@, x, x2, "|"@ + t);
            assert(one =~= start + a + "|"@ + v + "|"@ + x + ("|"@ + t));
            assert(other =~= start + a + "|"@ + v + "|"@ + x2 + ("|"@ + t));
        } else {
            lemma_middles_differ(start + a + "|"@ + v + "|"@ + x + "|"@, t, t2, Seq::empty());
            assert(one =~= start + a + "|"@ + v + "|"@ + x + "|"@ + t + Seq::empty());
            assert(other =~= start + a + "|"@ + v + "|"@ + x + "|"@ + t2 + Seq::empty());
        }
    }
}

proof fn lemma_middles_differ(
    front: Seq<char>,
    one: Seq<char>,
    other: Seq<char>,
    back: Seq<char>,
)
    requires
        one != other,
    ensures
        front + one + back != front + other + back,
{
    let a = front + one + back;
    let b = front + other + back;
    assert(a.len() == front.len() + one.len() + back.len());
    assert(b.len() == front.len() + other.len() + back.len());
    if a == b {
        assert(one.len() == other.len());
        assert(a.subrange(front.len() as int, front.len() as int + one.len()) =~= one);
        assert(b.subrange(front.len() as int, front.len() as int + one.len()) =~= other);
    }
}

/// Two reports of one event that differ only in case, in spaces, in the time or in
/// the rest of the line have the same key.
pub proof fn lemma_reports_of_one_event_share_a_key(
    attacker: Option<Seq<char>>,
    action: Seq<char>,
    vehicle: Option<Seq<char>>,
    target: Seq<char>,
    other_target: Seq<char>,
    raw: Seq<char>,
    other_raw: Seq<char>,
)
    requires
        text::normalized(target) == text::normalized(other_target),
    ensures
        canonical_key(
            EventView::TargetDestroyed { attacker, action, vehicle, target: Some(target), raw },
        ) == canonical_key(
            EventView::TargetDestroyed {
                attacker,
                action,
                vehicle,
                target: Some(other_target),
                raw: other_raw,
            },
        ),
        canonical_key(EventView::BaseDestroyed { raw: target }) == canonical_key(
            EventView::BaseDestroyed { raw: other_target },
        ),
        canonical_key(EventView::PlayerDestroyed { raw: target }) == canonical_key(
            EventView::PlayerDestroyed { raw: other_target },
        ),
{
}

/// Messages of different words are different events of their kind, and the end of
/// a base is not the end of the player.
pub proof fn lemma_messages_tell_events_apart(raw: Seq<char>, other: Seq<char>)
    ensures
        text::normalized(raw) != text::normalized(other) ==> {
            &&& canonical_key(EventView::BaseDestroyed { raw }) != canonical_key(
                EventView::BaseDestroyed { raw: other },
            )
            &&& canonical_key(EventView::PlayerDestroyed { raw }) != canonical_key(
                EventView::PlayerDestroyed { raw: other },
            )
        },
        canonical_key(EventView::BaseDestroyed { raw }) != canonical_key(
            EventView::PlayerDestroyed { raw: other },
        ),
        canonical_key(EventView::BaseDestroyed { raw }) is Some,
        canonical_key(EventView::PlayerDestroyed { raw }) is Some,
{
    let a = text::normalized(raw);
    let b = text::normalized(other);
    let base = "base_destroyed|"@;
    let player = "player_destroyed|"@;
    if a != b {
        lemma_middles_differ(base, a, b, Seq::empty());
        lemma_middles_differ(player, a, b, Seq::empty());
        assert(base + a + Seq::empty() =~= base + a);
        assert(base + b + Seq::empty() =~= base + b);
        assert(player + a + Seq::empty() =~= player + a);
        assert(player + b + Seq::empty() =~= player + b);
    }
    reveal_strlit("base_destroyed|");
    reveal_strlit("player_destroyed|");
    assert((base + a)[0] == 'b');
    assert((player + b)[0] == 'p');
}

/// An event of the game keeps what the log says: who, in what, to whom, and the
/// kind and the key that it was given.
pub proof fn lemma_event_keeps_what_the_log_says(
    event: EventView,
    kind: GameEventKind,
    key: Seq<char>,
)
    ensures
        as_game_event(event, kind, key).kind == kind,
        as_game_event(event, kind, key).canonical_key == key,
        event matches EventView::TargetDestroyed { attacker, action, vehicle, target, raw } ==> {
            let told = as_game_event(event, kind, key);
            &&& told.actor == attacker
            &&& told.subject == target
            &&& told.context == vehicle
            &&& attacker is Some && target is Some ==> text::has_prefix(
                told.summary,
                attacker->0 + " "@ + action + " "@ + target->0,
            )
            &&& attacker is None || target is None ==> told.summary == raw
        },
        !(event is TargetDestroyed) ==> as_game_event(event, kind, key).summary
            == event.raw_text(),
{
    if let EventView::TargetDestroyed {
        attacker: Some(a),
        action,
        vehicle,
        target: Some(t),
        raw,
    } = event {
        let line = event_line(event);
        let start = a + " "@ + action + " "@ + t;
        assert(line.subrange(0, start.len() as int) =~= start);
    }
}

/// A message that was not read before and tells what makes a clip is reported, as
/// an event of its kind, unless the same event was reported a moment ago. A message
/// that makes no clip is reported as nothing. Either is remembered.
pub proof fn lemma_new_message_is_reported(p: Progress, c: PollContext, message: ChatView)
    requires
        c.max_len >= 1,
        p.seen.len() <= c.max_len,
        !p.seen.contains(message.stable_key(c.source)),
    ensures
        ({
            let event = parser::event_in(message.text);
            let kind = clip_kind(event, c.player, c.triggers);
            let after = taken_in(p, c, message);
            &&& after.seen.contains(message.stable_key(c.source))
            &&& kind is None ==> after.events == p.events && after.noted == p.noted
            &&& kind is Some && canonical_key(event) is Some && (forall|i: int|
                0 <= i < p.noted.len() ==> (#[trigger] p.noted[i]).0 != noted_key(
                    canonical_key(event)->0,
                    message,
                )) ==> {
                &&& after.events.len() == p.events.len() + 1
                &&& after.events.drop_last() == p.events
                &&& after.events.last().kind == kind->0
                &&& after.events.last().canonical_key == noted_key(canonical_key(event)->0, message)
                &&& after.noted.last() == (
                    noted_key(canonical_key(event)->0, message),
                    c.now,
                )
            }
        }),
{
    let key = message.stable_key(c.source);
    let event = parser::event_in(message.text);
    recent::lemma_remembered_is_known(p.seen, c.max_len, key);
    if clip_kind(event, c.player, c.triggers) is Some && canonical_key(event) is Some {
        let event_key = noted_key(canonical_key(event)->0, message);
        let kept = recent::pruned(p.noted, c.ttl, c.now);
        let after = taken_in(p, c, message);
        recent::lemma_pruned_is_part(p.noted, c.ttl, c.now);
        if forall|i: int| 0 <= i < p.noted.len() ==> (#[trigger] p.noted[i]).0 != event_key {
            if recent::seen_keys(kept).contains(event_key) {
                let i = choose|i: int|
                    0 <= i < recent::seen_keys(kept).len() && recent::seen_keys(kept)[i]
                        == event_key;
                assert(kept[i].0 == event_key);
                assert(p.noted.contains(kept[i]));
            }
            assert(after.events.drop_last() =~= p.events);
        }
    }
}

/// A message in the log and the same line on the display are different messages,
/// but report the same event: the time of the game is part of its key.
pub proof fn lemma_time_tells_repeated_events_apart(
    canonical: Seq<char>,
    one: ChatView,
    other: ChatView,
)
    requires
        one.time is Some,
        other.time is Some,
        text::trim_of(one.time->0).len() > 0,
        text::trim_of(other.time->0).len() > 0,
    ensures
        noted_key(canonical, one) == noted_key(canonical, other) <==> text::normalized(
            text::trim_of(one.time->0),
        ) == text::normalized(text::trim_of(other.time->0)),
{
    let a = text::normalized(text::trim_of(one.time->0));
    let b = text::normalized(text::trim_of(other.time->0));
    if a != b {
        lemma_middles_differ(canonical + "|time:"@, a, b, Seq::empty());
        assert(canonical + "|time:"@ + a + Seq::empty() =~= canonical + "|time:"@ + a);
        assert(canonical + "|time:"@ + b + Seq::empty() =~= canonical + "|time:"@ + b);
    }
}

/// A source that has just begun reports the same event again once two seconds have
/// passed, and not before.
pub proof fn lemma_event_is_reported_again_after_two_seconds(
    p: Progress,
    c: PollContext,
    message: ChatView,
    seen: Instant,
)
    requires
        c.ttl.nanos == EVENT_DEDUPE_SECONDS * NANOS_PER_SEC,
        !p.seen.contains(message.stable_key(c.source)),
        clip_kind(parser::event_in(message.text), c.player, c.triggers) is Some,
        canonical_key(parser::event_in(message.text)) is Some,
        p.noted == seq![
            (noted_key(canonical_key(parser::event_in(message.text))->0, message), seen),
        ],
        seen.nanos <= c.now.nanos,
    ensures
        c.now.nanos - seen.nanos <= 2_000_000_000 ==> taken_in(p, c, message).events == p.events,
        c.now.nanos - seen.nanos > 2_000_000_000 ==> taken_in(p, c, message).events.len()
            == p.events.len() + 1,
{
    let event_key = noted_key(canonical_key(parser::event_in(message.text))->0, message);
    let kept = recent::pruned(p.noted, c.ttl, c.now);
    assert(c.now.since(seen) == c.now.nanos - seen.nanos);
    if c.now.nanos - seen.nanos > 2_000_000_000 {
        assert(p.noted.drop_first() =~= Seq::empty());
        assert(recent::pruned(p.noted.drop_first(), c.ttl, c.now) =~= Seq::empty());
        assert(kept =~= Seq::empty());
        assert(recent::seen_keys(kept) =~= Seq::empty());
    } else {
        assert(kept == p.noted);
        assert(recent::seen_keys(kept)[0] == event_key);
        assert(recent::seen_keys(kept).contains(event_key));
    }
}

}
