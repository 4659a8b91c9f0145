use wt_clipper::capture::buffer::ClipReason;
use wt_clipper::capture::quality::QualityPreset;
use wt_clipper::commands::{
    auto_clip_config, config_init_path, dump_request, print_message, status_line, WatchState,
};
use wt_clipper::cli::DumpEndpoint;
use wt_clipper::config::AppConfig;
use wt_clipper::time::Duration;
use wt_clipper::ui::app::{
    duration_label, picture_args, quality_label, reason_color, reason_label, relative_time,
    ClipFilter, Screen, ThumbnailJob, WtClipperApp,
};
use wt_clipper::ui::bridge::{AppEvent, ClipInfo, UiCommand};
use wt_clipper::ui::theme::{Theme, Tint};
use wt_clipper::warthunder::client::{ChatMessage, ChatPoll, Endpoint, EndpointProbe, HudPoll};

fn window() -> WtClipperApp {
    WtClipperApp::new(AppConfig::default(), 25).0
}

fn clip(name: &str, reason: ClipReason, age: u64) -> ClipInfo {
    ClipInfo {
        path: format!("/c/{name}"),
        thumbnail_path: None,
        preview_url: None,
        file_name: name.to_owned(),
        reason,
        size_bytes: 10,
        duration_seconds: 3,
        modified_secs_ago: age,
    }
}

fn kill(reason: ClipReason, text: &str) -> AppEvent {
    AppEvent::KillDetected {
        reason,
        vehicle: None,
        target: None,
        description: text.to_owned(),
    }
}

#[test]
fn a_window_asks_for_clips_and_checks_at_once() {
    let (window, commands) = WtClipperApp::new(AppConfig::default(), 25);
    assert_eq!(window.buffer_total_millis, 25_000);
    assert!(matches!(commands[0], UiCommand::LoadClips));
    assert!(matches!(commands[1], UiCommand::RunDiagnostics));
}

#[test]
fn kills_are_counted_and_listed() {
    let mut window = window();
    window.handle_event_at(kill(ClipReason::TargetDestroyed, "a"), "10:00:00".to_owned(), false);
    window.handle_event_at(kill(ClipReason::MultiKill, "b"), "10:00:01".to_owned(), false);
    window.handle_event_at(kill(ClipReason::PlayerDestroyed, "c"), "10:00:02".to_owned(), false);
    assert_eq!(window.session_kills, 2);
    assert_eq!(window.session_multi_kills, 1);
    assert_eq!(window.events[0].description, "c");
    assert_eq!(window.events[0].timestamp, "10:00:02");
    for _ in 0..30 {
        window.handle_event(kill(ClipReason::TargetDestroyed, "d"), false);
    }
    assert_eq!(window.events.len(), 20);
    assert_eq!(window.events[0].timestamp.len(), 8);
    assert_eq!(&window.events[0].timestamp[2..3], ":");
}

#[test]
fn a_saved_clip_is_shown_and_pictured() {
    let mut window = window();
    let saved = AppEvent::ClipSaved {
        path: "/c/a.mp4".to_owned(),
        reason: ClipReason::Manual,
        duration_seconds: 4,
        size_bytes: 7,
    };
    let jobs = window.handle_event(saved, true);
    assert_eq!(jobs[0].picture, "/c/a.jpg");
    assert_eq!(window.clips[0].thumbnail_path.as_deref(), Some("/c/a.jpg"));
    assert_eq!(window.clips_total_bytes, 7);
    assert_eq!(window.toasts[0].message, "Clip sauvegardé");
    let failed = AppEvent::ClipFailed { message: "x".to_owned() };
    window.handle_event(failed, false);
    assert_eq!(window.toasts[1].ttl_millis, 5_000);
    for _ in 0..20 {
        window.age_toasts(1_000);
    }
    assert_eq!(window.toasts.len(), 1);
    assert_eq!(window.toasts[0].message, "x");
}

#[test]
fn clips_are_searched_filtered_and_ordered() {
    let mut window = window();
    let loaded = AppEvent::ClipsLoaded {
        clips: vec![
            clip("Kill-Old.mp4", ClipReason::TargetDestroyed, 50),
            clip("death.mp4", ClipReason::PlayerDestroyed, 1),
            clip("kill-new.mp4", ClipReason::TargetDestroyed, 5),
        ],
        total_bytes: 30,
    };
    let jobs = window.handle_event(loaded, false);
    assert_eq!(jobs.len(), 3);
    let names = |window: &WtClipperApp| -> Vec<String> {
        window.clips_screen().into_iter().map(|clip| clip.file_name).collect()
    };
    assert_eq!(names(&window), vec!["death.mp4", "kill-new.mp4", "Kill-Old.mp4"]);
    window.search = "KILL".to_owned();
    assert_eq!(names(&window), vec!["kill-new.mp4", "Kill-Old.mp4"]);
    window.search = "  ".to_owned();
    window.filter = ClipFilter::Deaths;
    assert_eq!(names(&window), vec!["death.mp4"]);
    window.filter = ClipFilter::All;
    let commands = window.clear_clips();
    assert!(matches!(&commands[0], UiCommand::DeleteClip(path) if path == "/c/death.mp4"));
    assert_eq!(commands.len(), 3);
    assert!(window.clips.is_empty());
    assert_eq!(window.disk_used_bytes, 0);
}

#[test]
fn screens_and_time_ask_for_clips() {
    let mut window = window();
    assert!(window.refresh_due(5_000).is_none());
    assert!(window.refresh_due(5_001).is_some());
    assert!(window.refresh_due(5_002).is_none());
    assert!(window.select_screen(Screen::Diagnostics).is_none());
    assert!(window.select_screen(Screen::Clips).is_some());
    window.handle_event(AppEvent::BufferProgress { filled_millis: 3, total_millis: 5 }, false);
    assert_eq!(window.buffer_total_millis, 1_000);
    window.handle_event(AppEvent::WtConnected, false);
    assert!(window.wt_connected);
}

#[test]
fn labels_are_in_words() {
    assert_eq!(reason_label(ClipReason::MultiKill), "MULTI");
    assert_eq!(reason_color(ClipReason::PlayerDestroyed), Tint::DeathRed);
    assert_eq!(Theme::rgb(Tint::Accent), (222, 88, 51));
    assert_eq!(quality_label(QualityPreset::Medium), "Medium");
    assert_eq!(duration_label(0), "??s");
    assert_eq!(duration_label(12), "12s");
    assert_eq!(relative_time(59), "à l'instant");
    assert_eq!(relative_time(61), "il y a 1 min");
    assert_eq!(relative_time(7_200), "il y a 2 h");
    assert_eq!(relative_time(200_000), "il y a 2 j");
}

fn message(id: u64, text: &str) -> ChatMessage {
    ChatMessage {
        id: Some(id),
        time: None,
        sender: None,
        text: text.to_owned(),
    }
}

#[test]
fn messages_are_printed_once() {
    let mut state = WatchState::new();
    let history = ChatPoll { messages: vec![message(1, "old")], next_last_id: 1 };
    state.skip_history(Some(&history), None);
    assert_eq!(state.last_chat_id, 1);
    let poll = ChatPoll {
        messages: vec![
            message(1, "old"),
            message(2, "dawson16800 (F/A-18C Early) destroyed [ai] MiG-15bis"),
        ],
        next_last_id: 2,
    };
    assert_eq!(
        state.on_chat(&poll, Some("dawson16800")),
        vec!["[gamechat] dawson16800 (F/A-18C Early) destroyed [ai] MiG-15bis  <-- personal kill"]
    );
    assert!(state.on_chat(&poll, None).is_empty());
    let hud = HudPoll {
        events: vec![message(2, "e")],
        damage: vec![message(3, "d")],
        next_last_evt_id: 7,
        next_last_dmg_id: 8,
    };
    assert_eq!(state.on_hud(&hud, None), vec!["[hud] e", "[hud] d"]);
    assert_eq!((state.last_evt_msg_id, state.last_dmg_msg_id), (7, 8));
    assert_eq!(print_message("x", "y", None), "[x] y");
}

#[test]
fn commands_print_and_start_as_asked() {
    let reached = EndpointProbe::Reached {
        endpoint: Endpoint::State,
        summary: Some("ok".to_owned()),
    };
    assert_eq!(status_line(&reached), format!("{:<12} OK ok", "state"));
    let failed = EndpointProbe::Failed {
        endpoint: Endpoint::Indicators,
        error: "no".to_owned(),
    };
    assert_eq!(status_line(&failed), format!("{:<12} FAIL no", "indicators"));
    assert_eq!(dump_request(DumpEndpoint::Hudmsg), "/hudmsg?lastEvt=0&lastDmg=0");
    let config = AppConfig::default();
    let auto = auto_clip_config(&config, 3, None, true);
    assert_eq!(auto.post_event_delay, Duration::from_secs(config.clip.post_event_seconds));
    assert_eq!(auto.cooldown, Duration::from_secs(3));
    assert_eq!(
        auto_clip_config(&config, 3, Some(1), true).post_event_delay,
        Duration::from_secs(1)
    );
    assert_eq!(config_init_path(Some("/x"), None, None), "/x");
}

#[test]
fn pictures_of_clips_are_small() {
    let job = ThumbnailJob { video: "/v.mp4".to_owned(), picture: "/v.jpg".to_owned() };
    assert_eq!(
        picture_args(&job),
        vec!["-y", "-i", "/v.mp4", "-vframes", "1", "-s", "320x180", "/v.jpg"]
    );
}
