use wt_clipper::app::auto::schedule_pending_clip;
use wt_clipper::app::clip_types::ClipReason;
use wt_clipper::capture::audio::resolve_system_audio_source;
use wt_clipper::capture::gpu_screen_recorder::{
    process_from_proc, resolve_actual_gsr_pid, GpuScreenRecorderHandle, GsrEnvironment, PidSearch,
    SavedGsrReplay, StartStep, PID_SEARCH_SECONDS,
};
use wt_clipper::capture::output::{
    default_file_name, resolve_output_path_in_dir, slugify_filename_part,
};
use wt_clipper::capture::segments::{
    select_segments_around_event, sorted_chronologically, EventSegmentSelection, ReplaySegment,
};
use wt_clipper::capture::recorder::x11_source_chain;
use wt_clipper::cli::CaptureSource;
use wt_clipper::config::{
    default_config_toml, AppConfig, CaptureConfig, CaptureStrategy, ConfigValue,
    GpuScreenRecorderMode,
};
use wt_clipper::desktop::editor::temporary_output_path;
use wt_clipper::desktop::preview::{handle_preview_request, ClipPreviewServer, PreviewAsked};
use wt_clipper::desktop::status::runtime_event_id;
use wt_clipper::games::event::{GameEvent, GameEventKind};
use wt_clipper::time::{Duration, Instant, SystemTime};
use wt_clipper::warthunder::recent::RecentEventCache;

fn is_uuid(text: &str) -> bool {
    let groups: Vec<&str> = text.split('-').collect();
    let lengths: Vec<usize> = groups.iter().map(|group| group.len()).collect();
    lengths == vec![8, 4, 4, 4, 12]
        && groups[2].starts_with('4')
        && groups[3].starts_with(['8', '9', 'a', 'b'])
        && text
            .chars()
            .all(|c| c == '-' || c.is_ascii_digit() || ('a'..='f').contains(&c))
}

#[test]
fn an_address_leads_to_its_clip() {
    let mut server = ClipPreviewServer::new("http://127.0.0.1:9".to_owned());
    let first = server.url_for_path(Some("/c/a.MP4")).unwrap();
    let second = server.url_for_path(Some("/c/b.webm")).unwrap();
    assert_ne!(first, second);
    assert_eq!(server.url_for_path(Some("/c/a.MP4")).as_deref(), Some(first.as_str()));
    for (address, path) in [(first, "/c/a.MP4"), (second, "/c/b.webm")] {
        let asked = address.strip_prefix("http://127.0.0.1:9").unwrap();
        let request = format!("GET {asked} HTTP/1.1\r\nHost: x\r\n\r\n");
        let PreviewAsked::Clip { id, head_only, range } =
            handle_preview_request(request.as_bytes())
        else {
            panic!("expected a clip");
        };
        assert!(!head_only);
        assert_eq!(range, None);
        assert_eq!(server.path_of(&id).as_deref(), Some(path));
    }
    assert_eq!(server.url_for_path(None), None);
}

#[test]
fn identifiers_and_times_have_their_notation() {
    let event = GameEvent::new(GameEventKind::Kill, "s".to_owned(), "k".to_owned());
    let clip = schedule_pending_clip(
        event,
        ClipReason::TargetDestroyed,
        Instant { nanos: 0 },
        None,
        SystemTime { nanos: 0 },
        Duration::from_secs(5),
    );
    assert!(is_uuid(clip.clip_id.strip_prefix("clip_").unwrap()));
    assert!(clip.created_at.ends_with("+00:00"));
    assert!(clip.created_at.len() >= 25);
    assert_eq!(&clip.created_at[10..11], "T");
    let part = clip.created_at[19..].strip_suffix("+00:00").unwrap();
    assert!(part.is_empty() || part.starts_with('.') && part.len() % 3 == 1);

    let id = runtime_event_id("kill", SystemTime { nanos: 1_500_000_000 });
    assert!(is_uuid(id.strip_prefix("kill-1500-").unwrap()));

    let hidden = temporary_output_path("/c/a.mp4");
    let rest = hidden.strip_prefix("/c/.a.").unwrap();
    assert!(is_uuid(rest.strip_suffix(".tmp.mp4").unwrap()));

    let name = default_file_name();
    let time = name.strip_prefix("manual-").unwrap().strip_suffix(".webm").unwrap();
    assert!(time.len() >= 19);
    let tail: Vec<char> = time.chars().rev().take(15).collect();
    for (i, c) in tail.iter().enumerate() {
        assert!(if i % 3 == 2 { *c == '-' } else { c.is_ascii_digit() });
    }
    let chosen = resolve_output_path_in_dir(None, "/v", &Vec::new()).unwrap();
    assert!(chosen.starts_with("/v/manual-"));
}

#[test]
fn a_window_is_never_the_whole_screen() {
    assert!(x11_source_chain(CaptureSource::Window, None).is_err());
    let window = x11_source_chain(CaptureSource::Window, Some(7)).unwrap();
    let screen = x11_source_chain(CaptureSource::Screen, Some(7)).unwrap();
    assert!(window.ends_with(" xid=7"));
    assert!(!screen.contains("xid"));
}

#[test]
fn the_user_decides_on_sound() {
    let monitor = || Some("sink.monitor".to_owned());
    assert!(resolve_system_audio_source(Some(" YES "), Some("mine"), monitor()).is_none());
    assert_eq!(
        resolve_system_audio_source(Some("0"), Some(" mine "), monitor())
            .unwrap()
            .device,
        "mine"
    );
    assert_eq!(
        resolve_system_audio_source(None, Some(" "), monitor()).unwrap().device,
        "sink.monitor"
    );
    assert!(resolve_system_audio_source(None, None, None).is_none());
}

fn environment() -> GsrEnvironment {
    GsrEnvironment {
        home: Some("/home/u".to_owned()),
        xdg_session_type: Some("x11".to_owned()),
        has_wayland_display: false,
        has_display: true,
        native_available: true,
        flatpak_available: true,
        listed_monitors: Some(vec!["DP-1".to_owned()]),
        war_thunder_window: None,
    }
}

#[test]
fn saves_are_counted_once_and_asked_of_the_recorder() {
    let mut config = CaptureConfig::default();
    config.capture_strategy = CaptureStrategy::Monitor;
    config.gpu_screen_recorder_mode = GpuScreenRecorderMode::Flatpak;
    let env = environment();
    let mut handle = GpuScreenRecorderHandle::new(config, &env);
    let StartStep::Launch(command) = handle.start(false, &env) else {
        panic!("expected a command");
    };
    let started = command.command_line.clone();
    handle.started(command, 10, Some((20, "recorder".to_owned())));
    let status = handle.status(&env);
    assert_eq!(status.command_line.as_deref(), Some(started.as_str()));
    assert_eq!(status.wrapper_pid, Some(10));
    assert_eq!(status.signal_pid, Some(20));

    handle.save_requested();
    handle.save_requested();
    assert_eq!(handle.state.save_queue_len, 2);
    handle.save_dequeued();
    let plan = handle.save_replay(true, true).unwrap();
    assert_eq!(plan.recorder_pid, 20);
    let saved = SavedGsrReplay {
        final_video_path: "/v/a.mp4".to_owned(),
        metadata_path: "/v/a.json".to_owned(),
        thumbnail_path: None,
        duration_seconds: 3,
        size_bytes: 4,
    };
    handle.save_finished(&Ok(saved));
    handle.save_dequeued();
    let refused = handle.save_replay(true, false).unwrap_err();
    handle.save_finished(&Err(refused));
    let state = &handle.state;
    assert_eq!(state.save_queue_len, 0);
    assert_eq!(
        (
            state.total_saves_requested,
            state.total_saves_completed,
            state.total_saves_failed
        ),
        (2, 1, 1)
    );
    assert_eq!(state.recorder_pid, None);
    assert_eq!(state.last_output.as_deref(), Some("/v/a.mp4"));
}

fn at<'a>(value: &'a ConfigValue, keys: &[&str]) -> &'a ConfigValue {
    let mut value = value;
    for key in keys {
        let ConfigValue::Table(entries) = value else {
            panic!("expected a table at {key}");
        };
        value = &entries.iter().find(|entry| entry.0 == *key).unwrap().1;
    }
    value
}

#[test]
fn the_default_file_says_the_default_settings() {
    let value = AppConfig::load(default_config_toml()).unwrap();
    let usual = AppConfig::default();
    let number = |keys: &[&str]| match at(&value, keys) {
        ConfigValue::Integer(n) => *n as u64,
        other => panic!("expected a number, not {other:?}"),
    };
    let written = |keys: &[&str]| match at(&value, keys) {
        ConfigValue::Text(text) => text.clone(),
        other => panic!("expected a text, not {other:?}"),
    };
    let flag = |keys: &[&str]| match at(&value, keys) {
        ConfigValue::Boolean(flag) => *flag,
        other => panic!("expected a flag, not {other:?}"),
    };
    assert_eq!(number(&["clip", "post_event_seconds"]), usual.clip.post_event_seconds);
    assert_eq!(
        number(&["clip", "multi_kill_window_seconds"]),
        usual.clip.multi_kill_window_seconds
    );
    assert_eq!(written(&["library", "output_dir"]), usual.library.output_dir);
    let capture = &usual.capture;
    assert_eq!(written(&["capture", "target"]), capture.target);
    assert_eq!(number(&["capture", "fps"]), u64::from(capture.fps));
    assert_eq!(number(&["capture", "replay_seconds"]), capture.replay_seconds);
    assert_eq!(written(&["capture", "container"]), capture.container.as_arg());
    assert_eq!(written(&["capture", "codec"]), capture.codec.as_arg());
    assert_eq!(written(&["capture", "encoder"]), capture.encoder.as_arg());
    assert_eq!(written(&["capture", "quality"]), capture.quality.as_arg());
    assert_eq!(
        Some(written(&["capture", "bitrate_mode"]).as_str()),
        capture.bitrate_mode.as_arg()
    );
    assert_eq!(
        written(&["capture", "frame_rate_mode"]),
        capture.frame_rate_mode.as_arg()
    );
    assert_eq!(
        number(&["capture", "video_bitrate_kbps"]),
        u64::from(capture.video_bitrate_kbps)
    );
    assert_eq!(written(&["capture", "output_dir"]), capture.output_dir);
    assert_eq!(
        flag(&["capture", "restart_replay_on_save"]),
        capture.restart_replay_on_save
    );
    assert_eq!(written(&["war_thunder", "base_url"]), usual.war_thunder.base_url);
    assert_eq!(
        number(&["war_thunder", "poll_interval_ms"]),
        usual.war_thunder.poll_interval_ms
    );
    assert_eq!(
        flag(&["triggers", "target_destroyed"]),
        usual.triggers.target_destroyed
    );
    assert_eq!(number(&["storage", "max_clips"]), usual.storage.max_clips);
}

#[test]
fn a_slug_is_its_own_slug() {
    for input in [
        "",
        "!!!",
        "Ab  C__9",
        "--x--",
        "\u{c9}t\u{e9}",
        "\u{130}stanbul",
        "aaaaaaaaaaaaaaaaaaaaaaaaaaaaaaaaaaaaaaa-bbbb",
    ] {
        let slug = slugify_filename_part(input);
        assert_eq!(slugify_filename_part(&slug), slug, "{input:?}");
        assert!(!slug.is_empty() && slug.len() <= 40, "{input:?}");
        assert!(!slug.starts_with('-') && !slug.ends_with('-') && !slug.contains("--"));
        assert!(slug
            .chars()
            .all(|c| c == '-' || c.is_ascii_digit() || c.is_ascii_lowercase()));
    }
    assert_eq!(slugify_filename_part("!?"), "unknown");
    for c in '\0'..=char::MAX {
        assert!(c.to_lowercase().all(|lowered| !lowered.is_ascii_uppercase()), "{c:?}");
    }
}

#[test]
fn stated_defaults_are_the_defaults() {
    let mut stated = AppConfig::default();
    stated.war_thunder.player_name = Some(String::new());
    let done = stated.complete_loaded(Some("/h")).unwrap();
    let usual = AppConfig::default();
    assert_eq!(done.library.output_dir, "/h/Videos/WarThunder Clips");
    assert_eq!(done.capture.output_dir, "/h/Videos/WarThunder Clips/GSR");
    assert_eq!(done.war_thunder.player_name, None);
    assert_eq!(done.war_thunder.base_url, usual.war_thunder.base_url);
    assert_eq!(done.capture.video_bitrate_kbps, usual.capture.video_bitrate_kbps);
    assert_eq!(done.storage.max_clips, usual.storage.max_clips);
    assert!(AppConfig::default().complete_loaded(None).is_err());
}

#[test]
fn a_migration_leaves_nothing_for_a_second_one() {
    let old = "[clip]\nseconds = 3\noutput_dir = \"/o\"\n[capture]\nbackend = \"x\"\nfps = 30\n";
    let mut value = AppConfig::load(old).unwrap();
    let once = format!("{value:?}");
    AppConfig::migrate_legacy_fields(&mut value);
    assert_eq!(format!("{value:?}"), once);
    let mut usual = AppConfig::load(default_config_toml()).unwrap();
    let before = format!("{usual:?}");
    AppConfig::migrate_legacy_fields(&mut usual);
    assert_eq!(format!("{usual:?}"), before);
}

#[test]
fn the_recorder_has_some_seconds_to_appear() {
    let search = |processes, seconds| {
        resolve_actual_gsr_pid(&processes, "/v", "/v/wtclip", "DP-1", Duration::from_secs(seconds))
    };
    assert!(matches!(search(Vec::new(), PID_SEARCH_SECONDS - 1), PidSearch::Wait));
    assert!(matches!(
        search(Vec::new(), PID_SEARCH_SECONDS),
        PidSearch::TimedOut(message)
            if message.ends_with("target=DP-1 -ro /v -o /v/wtclip")
    ));
    let raw = b"gpu-screen-recorder\0-w\0DP-1\0-ro\0/v\0-o\0/v/wtclip\0";
    let process = process_from_proc("42", raw).unwrap();
    assert!(matches!(search(vec![process], 9), PidSearch::Found { pid: 42, .. }));
}

fn segment(index: u64, seconds: i128, path: &str) -> ReplaySegment {
    ReplaySegment {
        index,
        path: path.to_owned(),
        modified: SystemTime {
            nanos: seconds * 1_000_000_000,
        },
    }
}

#[test]
fn the_order_of_segments_does_not_matter_but_for_ties() {
    let found = |order: &[u64]| -> Vec<ReplaySegment> {
        order
            .iter()
            .map(|i| segment(*i, 1_000 + 2 * i128::from(*i), &format!("/s/{i}")))
            .collect()
    };
    let chosen = |order: &[u64]| {
        let time = SystemTime {
            nanos: 1_010_000_000_000,
        };
        match select_segments_around_event(&found(order), time, time, 6, 2, 2) {
            EventSegmentSelection::Selected(segments) => {
                segments.into_iter().map(|s| s.index).collect::<Vec<u64>>()
            }
            other => panic!("expected a selection, not {other:?}"),
        }
    };
    assert_eq!(chosen(&[1, 2, 3, 4, 5, 6, 7, 8]), chosen(&[8, 3, 5, 1, 7, 2, 6, 4]));

    let tied = vec![segment(1, 5, "/b"), segment(0, 1, "/x"), segment(1, 5, "/a")];
    let sorted = sorted_chronologically(&tied);
    let paths: Vec<&str> = sorted.iter().map(|s| s.path.as_str()).collect();
    assert_eq!(paths, vec!["/x", "/b", "/a"]);
}

#[test]
fn a_known_event_stays_known_whatever_else_is_noted() {
    let at = |seconds: u128| Instant {
        nanos: seconds * 1_000_000_000,
    };
    let mut cache = RecentEventCache::new(Duration::from_secs(10));
    assert!(cache.insert_new("a".to_owned(), at(1)));
    for second in 2..=11 {
        cache.insert(format!("other-{second}"), at(second));
        assert!(cache.contains("a", at(second)));
    }
    assert!(!cache.contains("a", at(12)));
}
