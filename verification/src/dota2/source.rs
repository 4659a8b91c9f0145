//! From pushed states to events.

use vstd::prelude::*;
use vstd::string::*;
use vstd::utf8::*;
use crate::dota2::state::{GsiState, Player};
use crate::games::event;
use crate::games::event::{GameEvent, GameEventKind, GameEventView};
use crate::games::source::GamePollResult;
use crate::json;
use crate::json::{Json, JsonView};
use crate::text;
use crate::time::{Instant, NANOS_PER_SEC};

verus! {

/// The states received and looked at so far.
#[derive(Debug)]
pub struct DotaInner {
    /// The last state received.
    pub current: Option<GsiState>,
    /// The state at the last look.
    pub last_polled: Option<GsiState>,
    /// Was any state received?
    pub connected: bool,
    /// When the last one was.
    pub last_received: Option<Instant>,
    /// Has the start state been set?
    pub bootstrapped: bool,
}

/// The body of a request: what follows the blank line behind its headers, or
/// the whole where that is bare JSON.
pub open spec fn body_of(request: Seq<char>) -> Option<Seq<char>> {
    let bare = if text::has_prefix(text::trim_start_of(request), "{"@) {
        Some(text::trim_of(request))
    } else {
        None
    };
    match text::find_in(request, "\r\n\r\n"@) {
        Some(k) => if k + 4 < request.len() {
            Some(request.subrange(k + 4, request.len() as int))
        } else {
            bare
        },
        None => bare,
    }
}

/// The JSON in a raw request; none where the bytes are not UTF-8.
pub fn extract_json_body(raw: &[u8]) -> (r: Option<String>)
    ensures
        text::opt_text(r) == (if valid_utf8(raw@) {
            body_of(decode_utf8(raw@))
        } else {
            None
        }),
{
    let request = match text::from_utf8(raw) {
        Some(request) => request,
        None => {
            return None;
        },
    };
    if let Some(k) = text::find(request, "\r\n\r\n") {
        let len: usize = request.unicode_len();
        proof {
            reveal_strlit("\r\n\r\n");
            text::lemma_find_in(request@, "\r\n\r\n"@);
        }
        let start: usize = k + 4;
        if start < len {
            return Some(request.substring_char(start, len).to_owned());
        }
    }
    if text::starts_with(text::trim_start(request), "{") {
        Some(text::trim(request).to_owned())
    } else {
        None
    }
}

/// The payload carries the token that is asked for, if any is.
pub open spec fn authorized(payload: JsonView, expected: Option<Seq<char>>) -> bool {
    match expected {
        Some(token) => payload.field("auth"@) matches Some(auth) && auth.field("token"@) matches Some(
            sent,
        ) && sent.text() == Some(token),
        None => true,
    }
}

/// Does the payload carry the token that is asked for?
pub fn is_authorized(payload: &Json, expected: Option<&str>) -> (r: bool)
    ensures
        r == authorized(payload.viewed(), text::opt_str(expected)),
{
    match expected {
        Some(token) => match payload.get("auth") {
            Some(auth) => match auth.get("token") {
                Some(sent) => match sent.as_str() {
                    Some(sent) => text::same(sent, token),
                    None => false,
                },
                None => false,
            },
            None => false,
        },
        None => true,
    }
}

/// The payload of a request, where it is to be believed: its body is JSON and
/// carries the token that is asked for.
pub open spec fn believed(raw: Seq<u8>, expected: Option<Seq<char>>) -> Option<JsonView> {
    if raw.len() > 0 && valid_utf8(raw) {
        match body_of(decode_utf8(raw)) {
            Some(body) => match json::json_in(body) {
                Some(payload) => if authorized(payload, expected) {
                    Some(payload)
                } else {
                    None
                },
                None => None,
            },
            None => None,
        }
    } else {
        None
    }
}

/// What a request pushes, where it is to be believed.
pub fn accept_gsi_payload(raw: &[u8], expected: Option<&str>) -> (r: Option<Json>)
    ensures
        match r {
            Some(payload) => believed(raw@, text::opt_str(expected)) == Some(payload.viewed()),
            None => believed(raw@, text::opt_str(expected)) is None,
        },
{
    if raw.len() == 0 {
        return None;
    }
    match extract_json_body(raw) {
        Some(body) => match json::parse_json(body.as_str()) {
            Some(payload) => if is_authorized(&payload, expected) {
                Some(payload)
            } else {
                None
            },
            None => None,
        },
        None => None,
    }
}

/// The player's name: the configured one, unless that is blank, else the one
/// that the game sends, else a word that stands for it.
pub open spec fn player_called(sent: Option<Seq<char>>, configured: Option<Seq<char>>) -> Seq<
    char,
> {
    if configured matches Some(name) && text::trim_of(name).len() > 0 {
        configured->0
    } else {
        match sent {
            Some(name) => name,
            None => "Player"@,
        }
    }
}

pub fn resolve_player_name(player: &Player, configured: Option<&str>) -> (r: String)
    ensures
        r@ == player_called(text::opt_text(player.name), text::opt_str(configured)),
{
    if let Some(name) = configured {
        if !text::trim(name).is_empty() {
            return name.to_owned();
        }
    }
    match &player.name {
        Some(name) => name.clone(),
        None => "Player".to_owned(),
    }
}

/// The count went up, and by how much.
pub open spec fn rise(before: Option<u32>, now: Option<u32>) -> Option<u32> {
    match (before, now) {
        (Some(b), Some(n)) => if n > b {
            Some((n - b) as u32)
        } else {
            None
        },
        _ => None,
    }
}

/// Kills since the last state make one event.
pub open spec fn kill_event(name: Seq<char>, hero: Option<Seq<char>>, count: nat, kills: nat) -> GameEventView {
    GameEventView {
        kind: if count > 1 {
            GameEventKind::MultiKill
        } else {
            GameEventKind::Kill
        },
        summary: if count > 1 {
            name + " got a multi-kill ("@ + text::decimal(count) + " kills)"@
        } else {
            name + " got a kill"@
        },
        actor: Some(name),
        subject: None,
        context: hero,
        canonical_key: "dota_kill|"@ + name + "|"@ + text::decimal(kills),
    }
}

/// Deaths since the last state make one event.
pub open spec fn death_event(name: Seq<char>, deaths: nat) -> GameEventView {
    GameEventView {
        kind: GameEventKind::Death,
        summary: name + " died"@,
        actor: Some(name),
        subject: None,
        context: None,
        canonical_key: "dota_death|"@ + name + "|"@ + text::decimal(deaths),
    }
}

pub open spec fn hero_name(state: GsiState) -> Option<Seq<char>> {
    match state.hero {
        Some(hero) => text::opt_text(hero.name),
        None => None,
    }
}

/// What happened between two states: kills first, then deaths.
pub open spec fn changes(
    previous: Option<GsiState>,
    current: GsiState,
    configured: Option<Seq<char>>,
) -> Seq<GameEventView> {
    match (previous, current.player) {
        (Some(before), Some(now)) => match before.player {
            Some(was) => {
                let name = player_called(text::opt_text(now.name), configured);
                let kills = match rise(was.kills, now.kills) {
                    Some(count) => seq![
                        kill_event(name, hero_name(current), count as nat, now.kills->0 as nat),
                    ],
                    None => seq![],
                };
                let deaths = match rise(was.deaths, now.deaths) {
                    Some(_) => seq![death_event(name, now.deaths->0 as nat)],
                    None => seq![],
                };
                kills + deaths
            },
            None => seq![],
        },
        _ => seq![],
    }
}

fn kill_of(name: String, hero: Option<String>, count: u32, kills: u32) -> (r: GameEvent)
    ensures
        r@ == kill_event(name@, text::opt_text(hero), count as nat, kills as nat),
{
    let mut key: String = "dota_kill|".to_owned();
    key.append(name.as_str());
    key.append("|");
    key.append(text::decimal_text(kills as u128).as_str());
    let mut summary: String = name.clone();
    let kind: GameEventKind;
    if count > 1 {
        summary.append(" got a multi-kill (");
        summary.append(text::decimal_text(count as u128).as_str());
        summary.append(" kills)");
        kind = GameEventKind::MultiKill;
    } else {
        summary.append(" got a kill");
        kind = GameEventKind::Kill;
    }
    let mut event = GameEvent::new(kind, summary, key);
    event.actor = Some(name);
    event.context = hero;
    event
}

fn death_of(name: String, deaths: u32) -> (r: GameEvent)
    ensures
        r@ == death_event(name@, deaths as nat),
{
    let mut key: String = "dota_death|".to_owned();
    key.append(name.as_str());
    key.append("|");
    key.append(text::decimal_text(deaths as u128).as_str());
    let summary = text::join2(name.as_str(), " died");
    let mut event = GameEvent::new(GameEventKind::Death, summary, key);
    event.actor = Some(name);
    event
}

/// The events between two states.
pub fn diff_states(
    previous: &Option<GsiState>,
    current: &GsiState,
    player_name: Option<&str>,
) -> (r: Vec<GameEvent>)
    ensures
        event::event_views(r@) == changes(*previous, *current, text::opt_str(player_name)),
{
    let mut events: Vec<GameEvent> = Vec::new();
    let ghost none = event::event_views(events@);
    assert(none =~= Seq::<GameEventView>::empty());
    let before: &Player = match previous {
        Some(state) => match &state.player {
            Some(player) => player,
            None => {
                return events;
            },
        },
        None => {
            return events;
        },
    };
    let now: &Player = match &current.player {
        Some(player) => player,
        None => {
            return events;
        },
    };
    if let (Some(kills), Some(was)) = (now.kills, before.kills) {
        if kills > was {
            let hero: Option<String> = match &current.hero {
                Some(hero) => text::clone_opt_text(&hero.name),
                None => None,
            };
            let name = resolve_player_name(now, player_name);
            let event = kill_of(name, hero, kills - was, kills);
            events.push(event);
            assert(event::event_views(events@) =~= seq![event@]);
        }
    }
    let ghost after_kills = event::event_views(events@);
    if let (Some(deaths), Some(was)) = (now.deaths, before.deaths) {
        if deaths > was {
            let name = resolve_player_name(now, player_name);
            let event = death_of(name, deaths);
            events.push(event);
            assert(event::event_views(events@) =~= after_kills + seq![event@]);
        } else {
            assert(after_kills + Seq::<GameEventView>::empty() =~= after_kills);
        }
    } else {
        assert(after_kills + Seq::<GameEventView>::empty() =~= after_kills);
    }
    events
}

/// A first state is no event, and neither is a state in which neither kills
/// nor deaths went up.
pub proof fn lemma_nothing_happened(
    previous: Option<GsiState>,
    current: GsiState,
    configured: Option<Seq<char>>,
)
    requires
        previous matches Some(before) && current.player matches Some(now)
            && before.player matches Some(was) ==> rise(was.kills, now.kills) is None && rise(
            was.deaths,
            now.deaths,
        ) is None,
    ensures
        changes(previous, current, configured).len() == 0,
{
}

/// However many kills and deaths lie between two states, they make at most one
/// event of kills and one of a death.
pub proof fn lemma_changes_are_few(
    previous: Option<GsiState>,
    current: GsiState,
    configured: Option<Seq<char>>,
)
    ensures
        changes(previous, current, configured).len() <= 2,
        forall|i: int|
            0 <= i < changes(previous, current, configured).len() ==> ((
            #[trigger] changes(previous, current, configured)[i]).kind is Kill || changes(
                previous,
                current,
                configured,
            )[i].kind is MultiKill || changes(previous, current, configured)[i].kind is Death),
{
}

impl DotaInner {
    pub fn new() -> (r: DotaInner)
        ensures
            r.current is None,
            r.last_polled is None,
            !r.connected,
            r.last_received is None,
            !r.bootstrapped,
    {
        DotaInner {
            current: None,
            last_polled: None,
            connected: false,
            last_received: None,
            bootstrapped: false,
        }
    }

    /// Takes in a state that the game sent.
    pub fn receive(&mut self, state: GsiState, now: Instant)
        ensures
            *final(self) == (DotaInner {
                current: Some(state),
                connected: true,
                last_received: Some(now),
                ..*old(self)
            }),
    {
        self.current = Some(state);
        self.connected = true;
        self.last_received = Some(now);
    }

    /// Takes the present state as the one to compare with, so that nothing that
    /// happened before counts, unless the past is wanted.
    pub fn bootstrap(&mut self, include_history: bool)
        ensures
            *final(self) == (DotaInner {
                bootstrapped: true,
                last_polled: (if include_history {
                    old(self).last_polled
                } else {
                    old(self).current
                }),
                ..*old(self)
            }),
    {
        self.bootstrapped = true;
        if !include_history {
            self.last_polled = match &self.current {
                Some(state) => Some(state.clone()),
                None => None,
            };
        }
    }

    /// A state came in within the last ten seconds.
    pub open spec fn alive(self, now: Instant) -> bool {
        self.connected && (self.last_received matches Some(t) && now.since(t) < 10 * NANOS_PER_SEC)
    }

    /// The events since the last look.
    pub fn poll(&mut self, player_name: Option<&str>, now: Instant) -> (r: GamePollResult)
        ensures
            r.connected == old(self).alive(now),
            event::event_views(r.events@) == (match old(self).current {
                Some(current) => changes(old(self).last_polled, current, text::opt_str(player_name)),
                None => seq![],
            }),
            *final(self) == (DotaInner {
                last_polled: match old(self).current {
                    Some(current) => Some(current),
                    None => old(self).last_polled,
                },
                ..*old(self)
            }),
    {
        let recent: bool = match self.last_received {
            Some(t) => now.duration_since(t).nanos < 10 * NANOS_PER_SEC,
            None => false,
        };
        let connected: bool = self.connected && recent;
        let current: GsiState = match &self.current {
            Some(state) => state.clone(),
            None => {
                let r = GamePollResult { events: Vec::new(), connected };
                assert(event::event_views(r.events@) =~= Seq::<GameEventView>::empty());
                return r;
            },
        };
        let events = diff_states(&self.last_polled, &current, player_name);
        self.last_polled = Some(current);
        GamePollResult { events, connected }
    }
}

/// Right after a look, and with no new state, there is nothing to see: no event
/// is reported twice.
pub proof fn lemma_polled_state_is_quiet(state: GsiState, configured: Option<Seq<char>>)
    ensures
        changes(Some(state), state, configured).len() == 0,
{
}

/// Every rise of the player's kills between two states is one event: a kill where
/// it is one, a multi-kill where it is more. Every rise of the deaths is one death.
/// Nothing else is an event, and kills come before deaths.
pub proof fn lemma_every_rise_is_an_event(
    before: GsiState,
    current: GsiState,
    was: Player,
    now: Player,
    configured: Option<Seq<char>>,
)
    requires
        before.player == Some(was),
        current.player == Some(now),
    ensures
        ({
            let events = changes(Some(before), current, configured);
            let killed = was.kills is Some && now.kills is Some && now.kills->0 > was.kills->0;
            let died = was.deaths is Some && now.deaths is Some && now.deaths->0 > was.deaths->0;
            &&& events.len() == (if killed {
                1int
            } else {
                0
            }) + (if died {
                1int
            } else {
                0
            })
            &&& killed ==> {
                &&& now.kills->0 - was.kills->0 == 1 ==> events[0].kind == GameEventKind::Kill
                &&& now.kills->0 - was.kills->0 >= 2 ==> events[0].kind == GameEventKind::MultiKill
                &&& events[0].context == (match current.hero {
                    Some(hero) => text::opt_text(hero.name),
                    None => None,
                })
            }
            &&& died ==> events.last().kind == GameEventKind::Death
            &&& forall|i: int|
                0 <= i < events.len() ==> {
                    let called = (#[trigger] events[i]).actor;
                    if configured is Some && text::trim_of(configured->0).len() > 0 {
                        called == configured
                    } else if now.name is Some {
                        called == text::opt_text(now.name)
                    } else {
                        called == Some("Player"@)
                    }
                }
        }),
{
}

/// Without a player in both states nothing is an event.
pub proof fn lemma_no_player_no_event(
    previous: Option<GsiState>,
    current: GsiState,
    configured: Option<Seq<char>>,
)
    requires
        previous is None || previous->0.player is None || current.player is None,
    ensures
        changes(previous, current, configured).len() == 0,
{
}

/// Two kills at different counts are told apart, as are two deaths, and a kill is
/// never taken for a death.
pub proof fn lemma_counts_tell_events_apart(
    name: Seq<char>,
    hero: Option<Seq<char>>,
    count: nat,
    one: nat,
    other: nat,
)
    requires
        one != other,
    ensures
        kill_event(name, hero, count, one).canonical_key != kill_event(
            name,
            hero,
            count,
            other,
        ).canonical_key,
        death_event(name, one).canonical_key != death_event(name, other).canonical_key,
        kill_event(name, hero, count, one).canonical_key != death_event(name, one).canonical_key,
{
    if text::decimal(one) == text::decimal(other) {
        text::lemma_decimal_injective(one, other);
    }
    let k = "dota_kill|"@ + name + "|"@;
    let d = "dota_death|"@ + name + "|"@;
    let a = k + text::decimal(one);
    let b = k + text::decimal(other);
    if a == b {
        assert(a.skip(k.len() as int) =~= text::decimal(one));
        assert(b.skip(k.len() as int) =~= text::decimal(other));
    }
    let c = d + text::decimal(one);
    let e = d + text::decimal(other);
    if c == e {
        assert(c.skip(d.len() as int) =~= text::decimal(one));
        assert(e.skip(d.len() as int) =~= text::decimal(other));
    }
    reveal_strlit("dota_kill|");
    reveal_strlit("dota_death|");
    assert(a[5] == 'k');
    assert(c[5] == 'd');
}

/// A request that is asked for a token is only believed with that very token, and
/// then says what it would say without being asked.
pub proof fn lemma_only_the_token_is_believed(raw: Seq<u8>, token: Seq<char>)
    ensures
        believed(raw, Some(token)) matches Some(payload) ==> {
            &&& payload.field("auth"@) is Some
            &&& payload.field("auth"@)->0.field("token"@) is Some
            &&& payload.field("auth"@)->0.field("token"@)->0.text() == Some(token)
            &&& believed(raw, None) == Some(payload)
        },
        believed(raw, None) matches Some(payload) ==> ({
            &&& payload.field("auth"@) is Some
            &&& payload.field("auth"@)->0.field("token"@) is Some
            &&& payload.field("auth"@)->0.field("token"@)->0.text() == Some(token)
        } ==> believed(raw, Some(token)) == Some(payload)),
{
}

/// What stands behind the first blank line of a request is its body.
pub proof fn lemma_body_follows_the_blank_line(head: Seq<char>, body: Seq<char>)
    requires
        body.len() > 0,
        forall|i: int|
            0 <= i < head.len() ==> !#[trigger] text::matches_at(
                head + "\r\n\r\n"@ + body,
                "\r\n\r\n"@,
                i,
            ),
    ensures
        body_of(head + "\r\n\r\n"@ + body) == Some(body),
{
    reveal_strlit("\r\n\r\n");
    let blank = "\r\n\r\n"@;
    let request = head + blank + body;
    let n = head.len() as int;
    assert(request.subrange(n, n + 4) =~= blank);
    assert(text::matches_at(request, blank, n));
    text::lemma_find_in(request, blank);
    assert(text::occurs_in(request, blank));
    let k = text::find_in(request, blank)->0;
    if k < n {
        assert(k >= 0);
        assert(!text::matches_at(request, blank, k));
    }
    assert(k == n);
    assert(request.subrange(n + 4, request.len() as int) =~= body);
}

/// The game is connected for ten seconds after it last sent a state.
pub proof fn lemma_connected_for_ten_seconds(inner: DotaInner, received: Instant, now: Instant)
    requires
        inner.connected,
        inner.last_received == Some(received),
        received.nanos <= now.nanos,
    ensures
        inner.alive(now) <==> now.nanos - received.nanos < 10_000_000_000,
{
}

}
