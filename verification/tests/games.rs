use wt_clipper::config::TriggerConfig;
use wt_clipper::dota2::source::{accept_gsi_payload, diff_states, extract_json_body, DotaInner};
use wt_clipper::dota2::state::{GsiState, Hero, Player};
use wt_clipper::games::event::{GameEvent, GameEventKind, GameEventSummary};
use wt_clipper::json::Json;
use wt_clipper::time::{Duration, Instant};
use wt_clipper::warthunder::client::{
    fetch_gamechat, fetch_hudmsg, friendly_error, gamechat_path, hudmsg_path, looks_like_time,
    probe_result, state_summary, summarize_json, update_last_chat_id, ChatMessage, Endpoint,
    EndpointProbe, RequestFailure, WarThunderClient,
};
use wt_clipper::warthunder::events::WarThunderEvent;
use wt_clipper::warthunder::parser::{is_personal_kill, parse_gamechat_event};
use wt_clipper::warthunder::recent::{RecentEventCache, RecentMessageCache};
use wt_clipper::warthunder::source::{
    parse_wt_message_time, should_clip_wt_event, wt_event_to_game_event, WarThunderSourceState,
};

const SAMPLE_KILL: &str = "dawson16800 (F/A-18C Early) destroyed [ai] MiG-15bis";
const SAMPLE_AIR_KILL: &str =
    "dawson16800 (F/A-18C Early) shot down =3BEHO= BoBka_V (MiG-21bis)";

#[test]
fn parses_gamechat_kill() {
    assert_eq!(
        parse_gamechat_event(SAMPLE_KILL),
        WarThunderEvent::TargetDestroyed {
            attacker: Some("dawson16800".to_owned()),
            action: "destroyed".to_owned(),
            vehicle: Some("F/A-18C Early".to_owned()),
            target: Some("[ai] MiG-15bis".to_owned()),
            raw: SAMPLE_KILL.to_owned(),
        }
    );
}

#[test]
fn extracts_attacker() {
    let WarThunderEvent::TargetDestroyed { attacker, .. } = parse_gamechat_event(SAMPLE_KILL)
    else {
        panic!("expected TargetDestroyed");
    };

    assert_eq!(attacker.as_deref(), Some("dawson16800"));
}

#[test]
fn extracts_vehicle() {
    let WarThunderEvent::TargetDestroyed { vehicle, .. } = parse_gamechat_event(SAMPLE_KILL)
    else {
        panic!("expected TargetDestroyed");
    };

    assert_eq!(vehicle.as_deref(), Some("F/A-18C Early"));
}

#[test]
fn extracts_target() {
    let WarThunderEvent::TargetDestroyed { target, .. } = parse_gamechat_event(SAMPLE_KILL)
    else {
        panic!("expected TargetDestroyed");
    };

    assert_eq!(target.as_deref(), Some("[ai] MiG-15bis"));
}

#[test]
fn parses_real_air_kill_with_shot_down_action() {
    assert_eq!(
        parse_gamechat_event(SAMPLE_AIR_KILL),
        WarThunderEvent::TargetDestroyed {
            attacker: Some("dawson16800".to_owned()),
            action: "shot down".to_owned(),
            vehicle: Some("F/A-18C Early".to_owned()),
            target: Some("=3BEHO= BoBka_V (MiG-21bis)".to_owned()),
            raw: SAMPLE_AIR_KILL.to_owned(),
        }
    );
}

#[test]
fn parses_ground_kill_with_symbol_vehicle() {
    let raw = "dawson16800 (◍M1A1 HC) destroyed IT-1";

    assert_eq!(
        parse_gamechat_event(raw),
        WarThunderEvent::TargetDestroyed {
            attacker: Some("dawson16800".to_owned()),
            action: "destroyed".to_owned(),
            vehicle: Some("◍M1A1 HC".to_owned()),
            target: Some("IT-1".to_owned()),
            raw: raw.to_owned(),
        }
    );
}

#[test]
fn parses_player_death_without_treating_it_as_personal_kill() {
    let raw = "=TR3TA= QSR matejslay9 (JA37DI) shot down dawson16800 (F/A-18C Early)";
    let event = parse_gamechat_event(raw);

    assert_eq!(
        event,
        WarThunderEvent::TargetDestroyed {
            attacker: Some("=TR3TA= QSR matejslay9".to_owned()),
            action: "shot down".to_owned(),
            vehicle: Some("JA37DI".to_owned()),
            target: Some("dawson16800 (F/A-18C Early)".to_owned()),
            raw: raw.to_owned(),
        }
    );
    assert!(!is_personal_kill(&event, Some("dawson16800")));
}

#[test]
fn parses_personal_damage_but_does_not_make_it_a_personal_kill() {
    for action in ["severely damaged", "critically damaged", "set afire"] {
        let raw = format!("dawson16800 (F/A-18C Early) {action} =3BEHO= BoBka_V (MiG-21bis)");
        let event = parse_gamechat_event(&raw);

        let WarThunderEvent::TargetDestroyed {
            attacker,
            action: parsed_action,
            vehicle,
            target,
            ..
        } = &event
        else {
            panic!("expected TargetDestroyed for {action}");
        };

        assert_eq!(attacker.as_deref(), Some("dawson16800"));
        assert_eq!(parsed_action, action);
        assert_eq!(vehicle.as_deref(), Some("F/A-18C Early"));
        assert_eq!(target.as_deref(), Some("=3BEHO= BoBka_V (MiG-21bis)"));
        assert!(!is_personal_kill(&event, Some("dawson16800")));
    }
}

#[test]
fn parses_crash_action_without_target() {
    let raw = "dawson16800 (F/A-18C Early) has crashed";

    assert_eq!(
        parse_gamechat_event(raw),
        WarThunderEvent::TargetDestroyed {
            attacker: Some("dawson16800".to_owned()),
            action: "has crashed".to_owned(),
            vehicle: Some("F/A-18C Early".to_owned()),
            target: None,
            raw: raw.to_owned(),
        }
    );
}

#[test]
fn preserves_spaced_and_symbolic_names() {
    let raw = "某 玩家 =ABC= Long Name (F/A-18C Early) shot down =3BEHO= BoBka_V (MiG-21bis)";

    assert_eq!(
        parse_gamechat_event(raw),
        WarThunderEvent::TargetDestroyed {
            attacker: Some("某 玩家 =ABC= Long Name".to_owned()),
            action: "shot down".to_owned(),
            vehicle: Some("F/A-18C Early".to_owned()),
            target: Some("=3BEHO= BoBka_V (MiG-21bis)".to_owned()),
            raw: raw.to_owned(),
        }
    );
}

#[test]
fn personal_kill_requires_matching_player_name() {
    let event = parse_gamechat_event(SAMPLE_KILL);

    assert!(is_personal_kill(&event, Some("dawson16800")));
    assert!(!is_personal_kill(&event, Some("other_player")));
    assert!(!is_personal_kill(&event, None));
}

#[test]
fn personal_kill_accepts_shot_down() {
    let event = parse_gamechat_event(SAMPLE_AIR_KILL);

    assert!(is_personal_kill(&event, Some("dawson16800")));
}

#[test]
fn non_personal_target_destroyed_is_not_personal_kill() {
    let event = parse_gamechat_event("other (MiG-15bis) destroyed [ai] F-86");

    assert!(!is_personal_kill(&event, Some("dawson16800")));
}

#[test]
fn enemy_shot_down_player_name_parses_as_target_destroyed_for_death_decision() {
    let raw = "Enemy (MiG-29) shot down dawson16800 (F/A-18C Early)";

    assert_eq!(
        parse_gamechat_event(raw),
        WarThunderEvent::TargetDestroyed {
            attacker: Some("Enemy".to_owned()),
            action: "shot down".to_owned(),
            vehicle: Some("MiG-29".to_owned()),
            target: Some("dawson16800 (F/A-18C Early)".to_owned()),
            raw: raw.to_owned(),
        }
    );
}

#[test]
fn player_destroyed_a_base_parses_as_destroyed_action() {
    let raw = "dawson16800 (F/A-18C Early) destroyed a base";

    assert_eq!(
        parse_gamechat_event(raw),
        WarThunderEvent::TargetDestroyed {
            attacker: Some("dawson16800".to_owned()),
            action: "destroyed".to_owned(),
            vehicle: Some("F/A-18C Early".to_owned()),
            target: Some("a base".to_owned()),
            raw: raw.to_owned(),
        }
    );
}

#[test]
fn damage_messages_are_not_destroyed_events() {
    for raw in [
        "dawson16800 (F/A-18C Early) critically damaged Enemy",
        "dawson16800 (F/A-18C Early) severely damaged Enemy",
        "dawson16800 (F/A-18C Early) set afire Enemy",
    ] {
        let event = parse_gamechat_event(raw);
        assert!(!is_personal_kill(&event, Some("dawson16800")));
    }
}

#[test]
fn unknown_when_message_is_not_recognized() {
    assert_eq!(
        parse_gamechat_event("Capture the point"),
        WarThunderEvent::Unknown("Capture the point".to_owned())
    );
}

#[test]
fn parses_ground_kill_with_nested_vehicle_parentheses() {
    let raw = "dawson16800 (Leopard 2 (OTCo)) destroyed IT-1";

    assert_eq!(
        parse_gamechat_event(raw),
        WarThunderEvent::TargetDestroyed {
            attacker: Some("dawson16800".to_owned()),
            action: "destroyed".to_owned(),
            vehicle: Some("Leopard 2 (OTCo)".to_owned()),
            target: Some("IT-1".to_owned()),
            raw: raw.to_owned(),
        }
    );

    assert!(is_personal_kill(
        &parse_gamechat_event(raw),
        Some("dawson16800")
    ));
}

#[test]
fn parses_ground_kill_with_target_parentheses() {
    let raw = "dawson16800 (Leopard 2 (OTCo)) destroyed T-64A (1971)";

    assert_eq!(
        parse_gamechat_event(raw),
        WarThunderEvent::TargetDestroyed {
            attacker: Some("dawson16800".to_owned()),
            action: "destroyed".to_owned(),
            vehicle: Some("Leopard 2 (OTCo)".to_owned()),
            target: Some("T-64A (1971)".to_owned()),
            raw: raw.to_owned(),
        }
    );

    assert!(is_personal_kill(
        &parse_gamechat_event(raw),
        Some("dawson16800")
    ));
}

#[test]
fn ignores_duplicate() {
    let mut cache = RecentMessageCache::new(10);

    cache.insert("chat:1".to_owned());
    cache.insert("chat:1".to_owned());

    assert!(cache.contains("chat:1"));
    assert_eq!(cache.len(), 1);
}

#[test]
fn evicts_old_messages_when_capacity_is_exceeded() {
    let mut cache = RecentMessageCache::new(2);

    cache.insert("chat:1".to_owned());
    cache.insert("chat:2".to_owned());
    cache.insert("chat:3".to_owned());

    assert!(!cache.contains("chat:1"));
    assert!(cache.contains("chat:2"));
    assert!(cache.contains("chat:3"));
}

#[test]
fn event_cache_ignores_duplicates_until_ttl_expires() {
    let mut cache = RecentEventCache::new(Duration::from_secs(10));
    let now = Instant { nanos: 5_000_000_000 };

    assert!(cache.insert_new("kill".to_owned(), now));
    assert!(!cache.insert_new("kill".to_owned(), now.plus(Duration::from_secs(5))));
    assert!(cache.insert_new("kill".to_owned(), now.plus(Duration::from_secs(11))));
    assert_eq!(cache.len(now.plus(Duration::from_secs(11))), 1);
}



#[test]
fn updates_last_chat_id_with_highest_message_id() {
    let messages = vec![
        ChatMessage {
            id: Some(12),
            time: None,
            sender: None,
            text: "old".to_owned(),
        },
        ChatMessage {
            id: Some(15),
            time: None,
            sender: None,
            text: "new".to_owned(),
        },
    ];

    assert_eq!(update_last_chat_id(10, &Json::parse("[]").unwrap(), &messages), 15);
}

#[test]
fn does_not_move_last_chat_id_backwards() {
    let messages = vec![ChatMessage {
        id: Some(9),
        time: None,
        sender: None,
        text: "old".to_owned(),
    }];

    assert_eq!(
        update_last_chat_id(10, &Json::parse("{\"lastId\": 9}").unwrap(), &messages),
        10
    );
}

#[test]
fn message_without_id_uses_content_key() {
    let message = ChatMessage {
        id: None,
        time: Some("1:27".to_owned()),
        sender: Some("dawson16800".to_owned()),
        text: "dawson16800 (F/A-18C Early) destroyed [ai] MiG-15bis".to_owned(),
    };

    assert_eq!(
        message.stable_key_with_prefix("chat"),
        "chat:1:27|dawson16800|dawson16800 (F/A-18C Early) destroyed [ai] MiG-15bis"
    );
}

#[test]
fn updates_hud_damage_cursor_with_highest_damage_id() {
    let damage = vec![
        ChatMessage {
            id: Some(1),
            time: Some("83".to_owned()),
            sender: None,
            text: "kill one".to_owned(),
        },
        ChatMessage {
            id: Some(4),
            time: Some("167".to_owned()),
            sender: None,
            text: "kill four".to_owned(),
        },
    ];

    assert_eq!(update_last_chat_id(0, &Json::parse("{}").unwrap(), &damage), 4);
}

fn kill(attacker: &str) -> WarThunderEvent {
    WarThunderEvent::TargetDestroyed {
        attacker: Some(attacker.to_owned()),
        action: "destroyed".to_owned(),
        vehicle: Some("F/A-18C Early".to_owned()),
        target: Some("[ai] MiG-15bis".to_owned()),
        raw: format!("{attacker} (F/A-18C Early) destroyed [ai] MiG-15bis"),
    }
}

fn base_destroyed() -> WarThunderEvent {
    WarThunderEvent::TargetDestroyed {
        attacker: Some("dawson16800".to_owned()),
        action: "destroyed".to_owned(),
        vehicle: Some("F/A-18C Early".to_owned()),
        target: Some("a base".to_owned()),
        raw: "dawson16800 (F/A-18C Early) destroyed a base".to_owned(),
    }
}

#[test]
fn kill_translates_to_game_event() {
    let kind = should_clip_wt_event(
        &kill("dawson16800"),
        Some("dawson16800"),
        &TriggerConfig::default(),
    );
    assert_eq!(kind, Some(GameEventKind::Kill));
}

#[test]
fn base_destroyed_translates_to_objective() {
    let kind = should_clip_wt_event(
        &base_destroyed(),
        Some("dawson16800"),
        &TriggerConfig::default(),
    );
    assert_eq!(kind, Some(GameEventKind::Objective));
}

#[test]
fn wt_event_to_game_event_preserves_actor_and_subject() {
    let event = kill("dawson16800");
    let game_event = wt_event_to_game_event(event, GameEventKind::Kill, "key".to_owned());
    assert_eq!(game_event.actor.as_deref(), Some("dawson16800"));
    assert_eq!(game_event.subject.as_deref(), Some("[ai] MiG-15bis"));
    assert_eq!(game_event.context.as_deref(), Some("F/A-18C Early"));
    assert_eq!(game_event.kind, GameEventKind::Kill);
}

#[test]
fn parse_wt_message_time_accepts_common_formats() {
    assert_eq!(
        parse_wt_message_time(Some("0:30")),
        Some(Duration::from_secs(30))
    );
    assert_eq!(
        parse_wt_message_time(Some("1:03")),
        Some(Duration::from_secs(63))
    );
    assert_eq!(
        parse_wt_message_time(Some("1:02:03")),
        Some(Duration::from_secs(3723))
    );
    assert_eq!(
        parse_wt_message_time(Some("83")),
        Some(Duration::from_secs(83))
    );
    assert_eq!(parse_wt_message_time(Some("")), None);
}


fn player(kills: u32, deaths: u32, name: &str) -> Player {
    Player {
        kills: Some(kills),
        deaths: Some(deaths),
        name: Some(name.to_owned()),
        ..Default::default()
    }
}

fn state(player: Player, hero: Option<Hero>) -> GsiState {
    GsiState {
        player: Some(player),
        hero,
        ..Default::default()
    }
}

#[test]
fn detects_new_kill() {
    let prev = state(player(0, 0, "alice"), None);
    let curr = state(player(1, 0, "alice"), None);
    let events = diff_states(&Some(prev), &curr, Some("alice"));
    assert_eq!(events.len(), 1);
    assert_eq!(events[0].kind, GameEventKind::Kill);
    assert!(events[0].summary.contains("alice"));
}

#[test]
fn detects_multi_kill() {
    let prev = state(player(0, 0, "alice"), None);
    let curr = state(player(3, 0, "alice"), None);
    let events = diff_states(&Some(prev), &curr, Some("alice"));
    assert_eq!(events.len(), 1);
    assert_eq!(events[0].kind, GameEventKind::MultiKill);
}

#[test]
fn detects_death() {
    let prev = state(player(2, 0, "alice"), None);
    let curr = state(player(2, 1, "alice"), None);
    let events = diff_states(&Some(prev), &curr, Some("alice"));
    assert_eq!(events.len(), 1);
    assert_eq!(events[0].kind, GameEventKind::Death);
}

#[test]
fn no_change_emits_nothing() {
    let prev = state(player(5, 2, "alice"), None);
    let curr = state(player(5, 2, "alice"), None);
    let events = diff_states(&Some(prev), &curr, Some("alice"));
    assert!(events.is_empty());
}

#[test]
fn first_snapshot_emits_nothing() {
    let curr = state(player(10, 3, "alice"), None);
    let events = diff_states(&None, &curr, Some("alice"));
    assert!(events.is_empty());
}

#[test]
fn kill_and_death_in_same_update() {
    let prev = state(player(0, 0, "alice"), None);
    let curr = state(player(1, 1, "alice"), None);
    let events = diff_states(&Some(prev), &curr, Some("alice"));
    assert_eq!(events.len(), 2);
    assert!(events.iter().any(|e| e.kind == GameEventKind::Kill));
    assert!(events.iter().any(|e| e.kind == GameEventKind::Death));
}

#[test]
fn uses_configured_player_name_over_gsi_name() {
    let prev = state(player(0, 0, "gsi_name"), None);
    let curr = state(player(1, 0, "gsi_name"), None);
    let events = diff_states(&Some(prev), &curr, Some("configured_name"));
    assert_eq!(events[0].actor.as_deref(), Some("configured_name"));
}

#[test]
fn falls_back_to_gsi_name_when_not_configured() {
    let prev = state(player(0, 0, "gsi_name"), None);
    let curr = state(player(1, 0, "gsi_name"), None);
    let events = diff_states(&Some(prev), &curr, None);
    assert_eq!(events[0].actor.as_deref(), Some("gsi_name"));
}

#[test]
fn extracts_json_from_http_body() {
    let http =
        b"POST / HTTP/1.1\r\nContent-Type: application/json\r\n\r\n{\"player\":{\"kills\":1}}";
    let json = extract_json_body(http).unwrap();
    assert!(json.contains("\"kills\":1"));
}

#[test]
fn extracts_raw_json_without_headers() {
    let raw = b"{\"player\":{\"kills\":1}}";
    let json = extract_json_body(raw).unwrap();
    assert!(json.contains("\"kills\":1"));
}

#[test]
fn answers_are_turned_into_messages() {
    let answer = Json::parse(
        "[{\"id\": 3, \"msg\": \"b\", \"sender\": \"s\", \"time\": 5}, {\"id\": 2, \"msg\": \"a\"}]",
    )
    .unwrap();
    let poll = fetch_gamechat(1, &answer);
    assert_eq!(poll.next_last_id, 3);
    let texts: Vec<&str> = poll.messages.iter().map(|m| m.text.as_str()).collect();
    assert_eq!(texts, vec!["a", "b"]);
    let hud = Json::parse("{\"events\": [], \"damage\": [{\"id\": 9, \"msg\": \"d\"}]}").unwrap();
    let poll = fetch_hudmsg(4, 5, &hud);
    assert_eq!((poll.next_last_evt_id, poll.next_last_dmg_id), (4, 9));
    assert_eq!(gamechat_path(3), "/gamechat?lastId=3");
    assert_eq!(hudmsg_path(1, 2), "/hudmsg?lastEvt=1&lastDmg=2");
    assert!(looks_like_time("1:27"));
    assert!(!looks_like_time("hello"));
}

#[test]
fn failures_are_told_in_words() {
    let mut failure = RequestFailure {
        is_connect: true,
        is_timeout: false,
        is_status: false,
        status: None,
        is_decode: false,
        message: "m".to_owned(),
    };
    assert_eq!(friendly_error(&failure), "connection refused or API unavailable");
    failure.is_connect = false;
    failure.is_timeout = true;
    assert_eq!(friendly_error(&failure), "request timed out");
    failure.is_timeout = false;
    failure.is_status = true;
    failure.status = Some("404 Not Found".to_owned());
    assert_eq!(friendly_error(&failure), "HTTP 404 Not Found");
    failure.is_status = false;
    failure.is_decode = true;
    assert_eq!(friendly_error(&failure), "invalid JSON response");
    failure.is_decode = false;
    assert!(matches!(
        probe_result(Endpoint::State, Err(failure)),
        EndpointProbe::Failed { error, .. } if error == "m"
    ));
    let state = Json::parse("{\"valid\": true}").unwrap();
    assert!(probe_result(Endpoint::State, Ok(state)).is_ok());
}

#[test]
fn addresses_are_joined() {
    let client = WarThunderClient::new("http://127.0.0.1:8111").unwrap();
    assert_eq!(client.base_url(), "http://127.0.0.1:8111/");
    assert_eq!(
        client.url("/gamechat?lastId=0").as_deref(),
        Some("http://127.0.0.1:8111/gamechat?lastId=0")
    );
    assert!(WarThunderClient::new("no address").is_none());
}

#[test]
fn values_are_summarised() {
    assert_ne!(summarize_json(&Json::parse("[1,2]").unwrap()), "[1,2]");
    assert!(!state_summary(&Json::parse("{\"type\": \"f_18\"}").unwrap()).is_empty());
}

#[test]
fn a_kill_is_reported_once() {
    let mut state = WarThunderSourceState::new();
    let now = Instant { nanos: 1_000_000_000 };
    let answer = Json::parse(
        "[{\"id\": 3, \"msg\": \"dawson16800 (F/A-18C Early) destroyed [ai] MiG-15bis\", \"time\": \"1:27\"}]",
    )
    .unwrap();
    let triggers = TriggerConfig::default();
    let found = state.poll(Some(fetch_gamechat(0, &answer)), None, Some("dawson16800"), &triggers, now, now);
    assert!(found.connected);
    assert_eq!(found.events.len(), 1);
    assert_eq!(found.events[0].kind, GameEventKind::Kill);
    let again = state.poll(Some(fetch_gamechat(0, &answer)), None, Some("dawson16800"), &triggers, now, now);
    assert!(again.events.is_empty());
    let summary = GameEventSummary::from(&found.events[0]);
    assert_eq!(summary.actor.as_deref(), Some("dawson16800"));
}

#[test]
fn each_answer_is_taken_in_at_its_time() {
    let line = "dawson16800 (F/A-18C Early) destroyed [ai] MiG-15bis";
    let chat = Json::parse(&format!("[{{\"id\": 3, \"msg\": \"{line}\", \"time\": \"1:27\"}}]")).unwrap();
    let hud = Json::parse(&format!(
        "{{\"events\": [], \"damage\": [{{\"id\": 9, \"msg\": \"{line}\", \"time\": \"1:27\"}}]}}"
    ))
    .unwrap();
    let triggers = TriggerConfig::default();
    let events = |hud_at: Instant| {
        let mut state = WarThunderSourceState::new();
        let chat_at = Instant { nanos: 1_000_000_000 };
        state
            .poll(
                Some(fetch_gamechat(0, &chat)),
                Some(fetch_hudmsg(0, 0, &hud)),
                Some("dawson16800"),
                &triggers,
                chat_at,
                hud_at,
            )
            .events
            .len()
    };
    assert_eq!(events(Instant { nanos: 1_500_000_000 }), 1);
    assert_eq!(events(Instant { nanos: 3_600_000_000_000 }), 2);
}

#[test]
fn payloads_are_believed_with_the_right_token() {
    let raw = b"POST / HTTP/1.1\r\n\r\n{\"auth\": {\"token\": \"t\"}, \"player\": {\"kills\": 1}}";
    assert!(accept_gsi_payload(raw, None).is_some());
    assert!(accept_gsi_payload(raw, Some("t")).is_some());
    assert!(accept_gsi_payload(raw, Some("u")).is_none());
    assert!(accept_gsi_payload(b"", None).is_none());
    assert!(accept_gsi_payload(b"POST / HTTP/1.1\r\n\r\n{", None).is_none());
}

#[test]
fn states_are_compared_one_after_the_other() {
    let now = Instant { nanos: 1 };
    let mut inner = DotaInner::new();
    inner.receive(state(player(0, 0, "alice"), None), now);
    inner.bootstrap(false);
    inner.receive(state(player(1, 0, "alice"), Some(Hero::default())), now);
    let found = inner.poll(None, now);
    assert_eq!(found.events.len(), 1);
    let event: &GameEvent = &found.events[0];
    assert_eq!(event.kind, GameEventKind::Kill);
    assert!(inner.poll(None, now).events.is_empty());

    let mut past = DotaInner::new();
    past.receive(state(player(0, 0, "alice"), None), now);
    past.poll(None, now);
    past.receive(state(player(2, 0, "alice"), None), now);
    past.bootstrap(true);
    assert!(past.bootstrapped);
    assert!(!past.poll(None, now).events.is_empty());
}
