use wt_clipper::app::auto::{
    clip_context_for_pending, config_applied, detected_events,
    ensure_gsr_started_after_war_thunder_connected, game_event_kind_to_clip_reason,
    mark_gsr_save_failure_for_retry, pending_dedupe_key, pending_index_for_multi_kill,
    ready_pending_indices, requested_save_finished, restart_failure, schedule_pending_clip,
    start_failure, AutoClip, AutoClipConfig, ConfigAction, Cooldown, Opening, SaveRequest,
};
use wt_clipper::app::clip_types::ClipReason;
use wt_clipper::app::events::{AppEvent, ClipStatus};
use wt_clipper::capture::gpu_screen_recorder::{GsrHealth, SavedGsrReplay};
use wt_clipper::config::{AppConfig, CaptureConfig, CaptureStrategy, TriggerConfig};
use wt_clipper::games::event::{GameEvent, GameEventKind};
use wt_clipper::games::source::{DetectedEvent, GamePollResult};
use wt_clipper::time::{Duration, Instant, SystemTime};

fn kill_game_event(target: &str) -> GameEvent {
    let mut event = GameEvent::new(
        GameEventKind::Kill,
        format!("dawson16800 destroyed {target}"),
        format!("target_destroyed|dawson16800|f/a-18c early|destroyed|{target}"),
    );
    event.actor = Some("dawson16800".to_owned());
    event.subject = Some(target.to_owned());
    event.context = Some("F/A-18C Early".to_owned());
    event
}

fn objective_game_event() -> GameEvent {
    GameEvent::new(
        GameEventKind::Objective,
        "dawson16800 destroyed a base".to_owned(),
        "base_destroyed|dawson16800 destroyed a base".to_owned(),
    )
}

fn test_auto_config(post_event_seconds: u64) -> AutoClipConfig {
    AutoClipConfig {
        cooldown: Duration::from_secs(3),
        post_event_delay: Duration::from_secs(post_event_seconds),
        multi_kill_window: Duration::from_secs(5),
        include_history: false,
        triggers: TriggerConfig::default(),
        capture: CaptureConfig::default(),
    }
}

fn start() -> Instant {
    Instant { nanos: 7_000_000_000_000 }
}

fn epoch() -> SystemTime {
    SystemTime::unix_epoch()
}

#[test]
fn cooldown_blocks_close_independent_saves() {
    let mut cooldown = Cooldown::new(Duration::from_secs(3));
    let now = start();

    assert!(cooldown.allows(now));
    cooldown.record_save(now);
    assert!(!cooldown.allows(now.plus(Duration::from_secs(1))));
    assert!(cooldown.allows(now.plus(Duration::from_secs(4))));
}

#[test]
fn clip_context_uses_configured_post_event_delay() {
    let event = kill_game_event("[ai] MiG-15bis");
    let now = start();
    let pending = schedule_pending_clip(
        event.clone(),
        ClipReason::TargetDestroyed,
        now,
        None,
        epoch().plus(Duration::from_secs(100)),
        Duration::from_secs(5),
    );
    let config = test_auto_config(5);

    let context = clip_context_for_pending(
        &pending,
        Some("dawson16800"),
        &config,
        config.post_event_delay,
    );

    assert_eq!(pending.save_at, now.plus(Duration::from_secs(5)));
    assert_eq!(context.post_event_seconds, 5);
    assert_eq!(context.duration_seconds, config.capture.replay_seconds);
}

#[test]
fn pending_clip_is_ready_after_save_at() {
    let now = start();
    let pending = schedule_pending_clip(
        kill_game_event("[ai] MiG-15bis"),
        ClipReason::TargetDestroyed,
        now,
        None,
        epoch(),
        Duration::from_secs(5),
    );

    assert!(pending.is_ready(now.plus(Duration::from_secs(5))));
    assert_eq!(
        ready_pending_indices(&vec![pending], now.plus(Duration::from_secs(6))),
        vec![0]
    );
}

#[test]
fn failed_save_retries_twice_then_drops() {
    let now = start();
    let mut pending = schedule_pending_clip(
        kill_game_event("[ai] MiG-15bis"),
        ClipReason::TargetDestroyed,
        now,
        None,
        epoch(),
        Duration::from_secs(5),
    );

    assert!(mark_gsr_save_failure_for_retry(&mut pending, now));
    assert_eq!(pending.retry_count, 1);
    assert_eq!(pending.save_at, now.plus(Duration::from_secs(2)));
    assert!(mark_gsr_save_failure_for_retry(
        &mut pending,
        now.plus(Duration::from_secs(2))
    ));
    assert_eq!(pending.retry_count, 2);
    assert!(!mark_gsr_save_failure_for_retry(
        &mut pending,
        now.plus(Duration::from_secs(4))
    ));
    assert_eq!(pending.retry_count, 3);
    assert_eq!(pending.save_at, now.plus(Duration::from_secs(4)));
}

#[test]
fn second_close_kill_is_added_to_pending_clip() {
    let now = start();
    let mut pending = schedule_pending_clip(
        kill_game_event("[ai] MiG-15bis"),
        ClipReason::TargetDestroyed,
        now,
        None,
        epoch(),
        Duration::from_secs(5),
    );

    let second = kill_game_event("IT-1");
    pending.add_event(
        second,
        now.plus(Duration::from_secs(3)),
        None,
        epoch().plus(Duration::from_secs(3)),
        Duration::from_secs(5),
    );

    assert_eq!(pending.events.len(), 2);
    assert_eq!(pending.reason, ClipReason::MultiKill);
    assert_eq!(pending.save_at, now.plus(Duration::from_secs(8)));
    assert_eq!(pending.kill_count(), 2);
}

#[test]
fn duplicate_kill_is_not_added_to_pending_clip() {
    let now = start();
    let event = kill_game_event("[ai] MiG-15bis");
    let mut pending = schedule_pending_clip(
        event.clone(),
        ClipReason::TargetDestroyed,
        now,
        None,
        epoch(),
        Duration::from_secs(5),
    );

    let added = pending.add_event(
        event,
        now.plus(Duration::from_secs(1)),
        None,
        epoch().plus(Duration::from_secs(1)),
        Duration::from_secs(5),
    );

    assert!(!added);
    assert_eq!(pending.events.len(), 1);
    assert_eq!(pending.reason, ClipReason::TargetDestroyed);
}

#[test]
fn multi_kill_requires_real_time_window() {
    let now = start();
    let pending = schedule_pending_clip(
        kill_game_event("[ai] MiG-15bis"),
        ClipReason::TargetDestroyed,
        now,
        None,
        epoch(),
        Duration::from_secs(10),
    );
    let later = now.plus(Duration::from_secs(6));

    assert!(later.nanos < pending.save_at.nanos);
    assert_eq!(
        pending_index_for_multi_kill(
            &vec![pending],
            ClipReason::TargetDestroyed,
            later,
            None,
            Duration::from_secs(5)
        ),
        None
    );
}

#[test]
fn distinct_kill_inside_window_uses_existing_pending_clip() {
    let now = start();
    let pending = schedule_pending_clip(
        kill_game_event("[ai] MiG-15bis"),
        ClipReason::TargetDestroyed,
        now,
        None,
        epoch(),
        Duration::from_secs(10),
    );

    assert_eq!(
        pending_index_for_multi_kill(
            &vec![pending],
            ClipReason::TargetDestroyed,
            now.plus(Duration::from_secs(4)),
            None,
            Duration::from_secs(5)
        ),
        Some(0)
    );
}

#[test]
fn base_destroyed_inside_window_does_not_use_target_pending_clip() {
    let now = start();
    let pending = schedule_pending_clip(
        kill_game_event("[ai] MiG-15bis"),
        ClipReason::TargetDestroyed,
        now,
        None,
        epoch(),
        Duration::from_secs(10),
    );

    assert_eq!(
        pending_index_for_multi_kill(
            &vec![pending],
            ClipReason::BaseDestroyed,
            now.plus(Duration::from_secs(2)),
            None,
            Duration::from_secs(5)
        ),
        None
    );
}

#[test]
fn multi_kill_window_uses_game_time_when_available() {
    let now = start();
    let pending = schedule_pending_clip(
        kill_game_event("IT-1"),
        ClipReason::TargetDestroyed,
        now,
        Some(Duration::from_secs(44)),
        epoch(),
        Duration::from_secs(10),
    );

    assert_eq!(
        pending_index_for_multi_kill(
            &vec![pending],
            ClipReason::TargetDestroyed,
            now.plus(Duration::from_millis(1)),
            Some(Duration::from_secs(63)),
            Duration::from_secs(8)
        ),
        None
    );
}

#[test]
fn rapid_backend_read_splits_multi_kill_by_game_time() {
    let now = start();
    let delay = Duration::from_secs(11);
    let window = Duration::from_secs(8);
    let kills = [
        ("IT-1", 30),
        ("T-62", 34),
        ("T-55A", 40),
        ("T-10M", 44),
        ("T-62", 63),
    ];
    let mut pending_clips = Vec::new();

    for (target, game_seconds) in kills {
        let mut event = kill_game_event(target);
        event.canonical_key = format!("{}|time:{game_seconds}", event.canonical_key);
        let detected_at = now.plus(Duration::from_millis(game_seconds));
        if let Some(index) = pending_index_for_multi_kill(
            &pending_clips,
            ClipReason::TargetDestroyed,
            detected_at,
            Some(Duration::from_secs(game_seconds)),
            window,
        ) {
            pending_clips[index].add_event(
                event,
                detected_at,
                Some(Duration::from_secs(game_seconds)),
                epoch().plus(Duration::from_secs(game_seconds)),
                delay,
            );
        } else {
            pending_clips.push(schedule_pending_clip(
                event,
                ClipReason::TargetDestroyed,
                detected_at,
                Some(Duration::from_secs(game_seconds)),
                epoch().plus(Duration::from_secs(game_seconds)),
                delay,
            ));
        }
    }

    assert_eq!(pending_clips.len(), 2);
    assert_eq!(pending_clips[0].reason, ClipReason::MultiKill);
    assert_eq!(pending_clips[0].kill_count(), 4);
    assert_eq!(
        pending_clips[0].last_event_game_time,
        Some(Duration::from_secs(44))
    );
    assert_eq!(pending_clips[1].reason, ClipReason::TargetDestroyed);
    assert_eq!(pending_clips[1].kill_count(), 1);
    assert_eq!(
        pending_clips[1].last_event_game_time,
        Some(Duration::from_secs(63))
    );
}

#[test]
fn game_event_kind_to_clip_reason_mapping() {
    assert_eq!(
        game_event_kind_to_clip_reason(GameEventKind::Kill),
        ClipReason::TargetDestroyed
    );
    assert_eq!(
        game_event_kind_to_clip_reason(GameEventKind::Death),
        ClipReason::PlayerDestroyed
    );
    assert_eq!(
        game_event_kind_to_clip_reason(GameEventKind::Objective),
        ClipReason::BaseDestroyed
    );
    assert_eq!(
        game_event_kind_to_clip_reason(GameEventKind::MultiKill),
        ClipReason::MultiKill
    );
    assert_eq!(
        game_event_kind_to_clip_reason(GameEventKind::Other),
        ClipReason::Unknown
    );
}

#[test]
fn objective_event_creates_pending_clip() {
    let now = start();
    let pending = schedule_pending_clip(
        objective_game_event(),
        ClipReason::BaseDestroyed,
        now,
        None,
        epoch(),
        Duration::from_secs(5),
    );
    assert_eq!(pending.reason, ClipReason::BaseDestroyed);
    assert_eq!(pending.kill_count(), 0);
}

fn detected(event: GameEvent, seconds: u64) -> DetectedEvent {
    DetectedEvent::new(
        event,
        None,
        start().plus(Duration::from_secs(seconds)),
        epoch().plus(Duration::from_secs(seconds)),
    )
}

fn titles(events: &[AppEvent]) -> Vec<String> {
    let mut found = Vec::new();
    for event in events {
        if let AppEvent::ClipStatusChanged { payload } = event {
            found.push(payload.title.clone());
        }
    }
    found
}

#[test]
fn new_clips_have_their_own_identity() {
    let mut running = AutoClip::new(test_auto_config(5), None);
    running.on_event(detected(kill_game_event("IT-1"), 0));
    running.on_event(detected(objective_game_event(), 0));
    assert_eq!(running.pending_clips.len(), 2);
    let first = running.pending_clips[0].clip_id.clone();
    let second = running.pending_clips[1].clip_id.clone();
    assert!(first.starts_with("clip_"));
    assert!(second.starts_with("clip_"));
    assert_ne!(first, second);
    assert_eq!(first.len(), "clip_".len() + 36);
}

#[test]
fn an_event_is_taken_once() {
    let mut running = AutoClip::new(test_auto_config(5), None);
    let first = running.take_event(
        detected(kill_game_event("IT-1"), 0),
        "clip_a".to_owned(),
        "2024-01-01T00:00:00Z".to_owned(),
    );
    assert_eq!(first.len(), 2);
    assert_eq!(
        titles(&first),
        vec!["Clip GPU programmé: dawson16800 destroyed IT-1 (sauvegarde dans 5s)"]
    );
    assert_eq!(running.pending_clips[0].clip_id, "clip_a");
    let again = running.take_event(
        detected(kill_game_event("IT-1"), 1),
        "clip_b".to_owned(),
        "2024-01-01T00:00:01Z".to_owned(),
    );
    assert_eq!(again.len(), 1);
    assert!(matches!(again[0], AppEvent::KillDetected { .. }));
    assert_eq!(running.pending_clips.len(), 1);
    assert_eq!(running.pending_clips[0].save_at, start().plus(Duration::from_secs(5)));
}

#[test]
fn close_kills_share_a_clip_and_others_do_not() {
    let mut running = AutoClip::new(test_auto_config(5), None);
    running.on_event(detected(kill_game_event("IT-1"), 0));
    let told = running.on_event(detected(kill_game_event("T-62"), 3));
    assert_eq!(
        titles(&told),
        vec!["Multi-kill GPU en attente : 2 kills, sauvegarde dans 5s"]
    );
    assert_eq!(running.pending_clips.len(), 1);
    assert_eq!(running.pending_clips[0].reason, ClipReason::MultiKill);
    running.on_event(detected(kill_game_event("T-10M"), 20));
    assert_eq!(running.pending_clips.len(), 2);
    assert_eq!(running.pending_clips[1].reason, ClipReason::TargetDestroyed);
}

#[test]
fn events_of_one_look_are_found_together() {
    let polled = GamePollResult {
        events: vec![kill_game_event("IT-1"), objective_game_event()],
        connected: true,
    };
    let found = detected_events(&polled, start(), epoch());
    assert_eq!(found.len(), 2);
    assert_eq!(found[1].event.kind, GameEventKind::Objective);
    assert_eq!(found[1].detected_at, start());
    assert_eq!(found[0].game_time, None);
}

#[test]
fn connection_changes_are_told_once() {
    let mut running = AutoClip::new(test_auto_config(5), None);
    assert!(matches!(running.note_connection(false), Some(AppEvent::WtDisconnected)));
    assert!(running.note_connection(false).is_none());
    assert!(matches!(running.note_connection(true), Some(AppEvent::WtConnected)));
    assert!(running.note_connection(true).is_none());
}

fn saved() -> SavedGsrReplay {
    SavedGsrReplay {
        final_video_path: "/v/Replay.mp4".to_owned(),
        metadata_path: "/v/Replay.json".to_owned(),
        thumbnail_path: Some("/v/Replay.jpg".to_owned()),
        duration_seconds: 17,
        size_bytes: 99,
    }
}

#[test]
fn a_saved_clip_waits_no_longer() {
    let mut running = AutoClip::new(test_auto_config(5), Some("dawson16800".to_owned()));
    running.take_event(
        detected(kill_game_event("IT-1"), 0),
        "clip_a".to_owned(),
        "then".to_owned(),
    );
    let now = start().plus(Duration::from_secs(6));
    assert_eq!(ready_pending_indices(&running.pending_clips, now), vec![0]);
    let (context, told) = running.begin_save(0);
    assert_eq!(context.player_name.as_deref(), Some("dawson16800"));
    assert_eq!(
        context.pending_dedupe_key.as_deref(),
        Some("target-destroyed|target_destroyed|dawson16800|f/a-18c early|destroyed|IT-1")
    );
    assert!(matches!(told, AppEvent::ClipStatusChanged { payload }
        if payload.status == ClipStatus::Recording && payload.progress == Some(35)));
    let events = running.save_ended(0, &Ok(saved()), now, now);
    assert!(running.pending_clips.is_empty());
    assert!(!running.cooldown.allows(now.plus(Duration::from_secs(2))));
    assert!(matches!(&events[0], AppEvent::ClipStatusChanged { payload }
        if payload.status == ClipStatus::Ready && payload.title == "Clip prêt"
            && payload.file_path.as_deref() == Some("/v/Replay.mp4") && payload.id == "clip_a"));
    assert!(matches!(&events[1], AppEvent::ClipSaved { path, size_bytes, .. }
        if path == "/v/Replay.mp4" && *size_bytes == 99));
}

#[test]
fn a_clip_is_tried_three_times() {
    let mut running = AutoClip::new(test_auto_config(5), None);
    running.on_event(detected(kill_game_event("IT-1"), 0));
    let now = start().plus(Duration::from_secs(6));
    let failed = Err("pid".to_owned());
    let first = running.save_ended(0, &failed, now, now);
    assert!(matches!(&first[1], AppEvent::ClipFailed { message }
        if message == "GPU Screen Recorder n'a pas sauvegardé le clip: pid; retry 1/3"));
    assert_eq!(running.pending_clips[0].save_at, now.plus(Duration::from_secs(2)));
    running.save_ended(0, &failed, now, now);
    assert_eq!(running.pending_clips.len(), 1);
    let last = running.save_ended(0, &failed, now, now);
    assert!(matches!(&last[1], AppEvent::ClipFailed { message }
        if message == "GPU Screen Recorder n'a pas sauvegardé le clip: pid"));
    assert_eq!(titles(&last), vec!["Erreur GPU Replay"]);
    assert!(running.pending_clips.is_empty());
}

#[test]
fn the_end_of_a_save_leaves_earlier_clips_alone() {
    let mut running = AutoClip::new(test_auto_config(5), None);
    running.on_event(detected(objective_game_event(), 0));
    running.on_event(detected(kill_game_event("IT-1"), 0));
    let now = start().plus(Duration::from_secs(6));
    assert_eq!(ready_pending_indices(&running.pending_clips, now), vec![0, 1]);
    running.save_ended(1, &Ok(saved()), now, now);
    assert_eq!(running.pending_clips.len(), 1);
    assert_eq!(running.pending_clips[0].reason, ClipReason::BaseDestroyed);
}

#[test]
fn keys_of_a_clip_are_ordered() {
    let now = start();
    let mut pending = schedule_pending_clip(
        kill_game_event("T-62"),
        ClipReason::TargetDestroyed,
        now,
        None,
        epoch(),
        Duration::from_secs(5),
    );
    pending.add_event(kill_game_event("IT-1"), now, None, epoch(), Duration::from_secs(5));
    assert_eq!(
        pending_dedupe_key(&pending),
        "multi-kill|target_destroyed|dawson16800|f/a-18c early|destroyed|IT-1|target_destroyed|dawson16800|f/a-18c early|destroyed|T-62"
    );
}

#[test]
fn a_manual_save_is_told_from_start_to_end() {
    let running = AutoClip::new(test_auto_config(5), Some("p".to_owned()));
    let (status, context) =
        running.requested_save(SaveRequest::Manual, "clip_m".to_owned(), "then".to_owned());
    assert_eq!(status.title, "Sauvegarde GPU Replay...");
    assert_eq!(context.pending_dedupe_key.as_deref(), Some("manual|clip_m"));
    assert_eq!(context.reason, ClipReason::Manual);
    let (events, error) =
        requested_save_finished(SaveRequest::Manual, status.clone(), &Ok(saved()));
    assert_eq!(titles(&events), vec!["Clip prêt"]);
    assert_eq!(error, None);
    let (events, error) =
        requested_save_finished(SaveRequest::Manual, status, &Err("no".to_owned()));
    assert_eq!(titles(&events), vec!["Erreur GPU Replay"]);
    assert_eq!(error.as_deref(), Some("Clip manuel GPU Replay: no"));
}

#[test]
fn a_test_save_has_its_own_words() {
    let running = AutoClip::new(test_auto_config(5), None);
    let (status, context) = running.new_requested_save(SaveRequest::Test);
    assert!(status.id.starts_with("gsr_test_"));
    assert_eq!(status.title, "Test sauvegarde GPU Replay...");
    assert_eq!(
        context.pending_dedupe_key,
        Some(format!("gsr-test|{}", status.id))
    );
    let (events, _) = requested_save_finished(SaveRequest::Test, status.clone(), &Ok(saved()));
    assert_eq!(titles(&events), vec!["Test GPU Replay prêt"]);
    let (_, error) = requested_save_finished(SaveRequest::Test, status, &Err("no".to_owned()));
    assert_eq!(error.as_deref(), Some("Test sauvegarde GPU Replay: no"));
}

#[test]
fn the_recorder_waits_for_the_game() {
    let mut running = AutoClip::new(test_auto_config(5), None);
    assert_eq!(running.config.capture.capture_strategy, CaptureStrategy::Auto);
    assert_eq!(running.opening(), Opening::WaitForWarThunder);
    assert!(running.restart_refused().is_some());
    running.note_connection(true);
    assert!(running.restart_refused().is_none());
    running.config.capture.capture_strategy = CaptureStrategy::Monitor;
    assert_eq!(running.opening(), Opening::Start);
    assert!(ensure_gsr_started_after_war_thunder_connected(GsrHealth::Stopped));
    assert!(!ensure_gsr_started_after_war_thunder_connected(GsrHealth::Running));
    assert!(matches!(start_failure("x"), AppEvent::ClipFailed { message }
        if message == "GPU Screen Recorder: x"));
    assert!(matches!(restart_failure("x"), AppEvent::ClipFailed { message }
        if message == "Redémarrage GPU Screen Recorder: x"));
}

#[test]
fn new_settings_are_taken_over() {
    let mut running = AutoClip::new(test_auto_config(5), None);
    let mut config = AppConfig::default();
    config.clip.post_event_seconds = 9;
    let (answer, action) = running.update_config(&config);
    assert_eq!(action, ConfigAction::KeepWaiting);
    assert!(!answer.restart_required);
    assert_eq!(running.config.post_event_delay, Duration::from_secs(9));
    running.note_connection(true);
    config.capture.fps = 30;
    let (answer, action) = running.update_config(&config);
    assert_eq!(action, ConfigAction::RestartIfNeeded);
    assert!(answer.restart_required);
    let (answer, told) = config_applied(answer, &Ok(true));
    assert_eq!(
        answer.message,
        "Configuration appliquée; GPU Screen Recorder redémarré avec la nouvelle commande."
    );
    assert!(told.is_none());
    let (answer, told) = config_applied(answer, &Err("x".to_owned()));
    assert!(answer.restart_required);
    assert!(matches!(told, Some(AppEvent::ClipFailed { message })
        if message == "Configuration sauvegardée; redémarrage GPU Screen Recorder impossible: x"));
}

#[test]
fn one_look_takes_every_event_once() {
    let mut running = AutoClip::new(test_auto_config(5), None);
    let look = |events: Vec<GameEvent>| GamePollResult {
        events,
        connected: true,
    };
    let (connection, told) = running.on_poll(
        look(vec![
            kill_game_event("IT-1"),
            objective_game_event(),
            kill_game_event("IT-1"),
            kill_game_event("T-62"),
        ]),
        start(),
        epoch(),
    );
    assert!(matches!(connection, Some(AppEvent::WtConnected)));
    let lengths: Vec<usize> = told.iter().map(|lines| lines.len()).collect();
    assert_eq!(lengths, vec![2, 2, 1, 2]);
    assert_eq!(running.pending_clips.len(), 2);
    assert_eq!(running.pending_clips[0].reason, ClipReason::MultiKill);
    assert_eq!(running.pending_clips[0].events.len(), 2);
    assert_eq!(running.pending_clips[1].reason, ClipReason::BaseDestroyed);
    let (connection, told) = running.on_poll(look(Vec::new()), start(), epoch());
    assert!(connection.is_none());
    assert!(told.is_empty());
    let lost = GamePollResult::default();
    let (connection, _) = running.on_poll(lost, start(), epoch());
    assert!(matches!(connection, Some(AppEvent::WtDisconnected)));
}
