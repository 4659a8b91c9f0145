use wt_clipper::app::clip_types::{ClipContext, ClipReason};
use wt_clipper::capture::concat::FoundFile;
use wt_clipper::capture::gpu_screen_recorder::{
    build_gsr_command, duration_probe_args, generate_thumbnail, gsr_metadata, is_same_config,
    keyframe_interval_arg, monitor_listing, recording_picture_args, scan_replay_outputs,
    select_actual_gsr_process, signal_pid_from_state, wait_for_new_replay_output,
    write_gsr_metadata, GpuScreenRecorderHandle, GpuScreenRecorderState, GsrCommandError,
    GsrCommandLine, GsrEnvironment, GsrHealth, GsrMode, GsrProcessInfo, NewReplay, OutputFile,
};
use wt_clipper::config::{
    CaptureConfig, CaptureStrategy, GpuScreenRecorderMode, GsrBitrateMode, GsrCodec, GsrContainer,
    GsrEncoder, GsrFrameRateMode, GsrQuality,
};
use wt_clipper::number::Single;
use wt_clipper::time::SystemTime;

fn single(value: f32) -> Single {
    Single { bits: value.to_bits() }
}

fn test_config(output_dir: &str) -> CaptureConfig {
    CaptureConfig {
        capture_strategy: CaptureStrategy::Monitor,
        target: "eDP".to_owned(),
        gpu_screen_recorder_mode: GpuScreenRecorderMode::Flatpak,
        fps: 30,
        replay_seconds: 25,
        container: GsrContainer::Mp4,
        codec: GsrCodec::H264,
        encoder: GsrEncoder::Gpu,
        quality: GsrQuality::Medium,
        bitrate_mode: GsrBitrateMode::Auto,
        frame_rate_mode: GsrFrameRateMode::Cfr,
        keyframe_interval_seconds: single(1.0),
        restart_replay_on_save: false,
        video_bitrate_kbps: 0,
        output_dir: output_dir.to_owned(),
        audio_enabled: true,
        audio_input: "default_output".to_owned(),
    }
}

fn machine() -> GsrEnvironment {
    GsrEnvironment {
        home: Some("/home/pilot".to_owned()),
        xdg_session_type: Some("x11".to_owned()),
        has_wayland_display: false,
        has_display: true,
        native_available: false,
        flatpak_available: true,
        listed_monitors: None,
        war_thunder_window: None,
    }
}

fn built(config: &CaptureConfig) -> GsrCommandLine {
    build_gsr_command(config, &machine()).unwrap()
}

fn has_pair(command: &GsrCommandLine, key: &str, value: &str) -> bool {
    command
        .args
        .windows(2)
        .any(|args| args[0] == key && args[1] == value)
}

#[test]
fn builds_flatpak_command_from_config() {
    let config = test_config("/tmp/wt gsr");
    let command = built(&config);

    assert_eq!(command.program, "flatpak");
    assert!(command
        .command_line
        .contains("com.dec05eba.gpu_screen_recorder"));
    assert!(command.command_line.contains("-w eDP"));
    assert!(command.command_line.contains("-f 30"));
    assert!(command.command_line.contains("-fm cfr"));
    assert!(command.command_line.contains("-keyint 1"));
    assert!(command.command_line.contains("-r 25"));
    assert!(command.command_line.contains("-q medium"));
    assert!(has_pair(&command, "-restart-replay-on-save", "no"));
    assert!(command.command_line.contains("-ro \"/tmp/wt gsr\""));
    assert!(command.command_line.contains("-o \"/tmp/wt gsr/wtclip\""));
    assert!(has_pair(&command, "-a", "default_output"));
}

#[test]
fn changing_replay_seconds_changes_r_argument() {
    let mut config = test_config("/tmp/wt-gsr");
    config.replay_seconds = 40;
    assert!(has_pair(&built(&config), "-r", "40"));
}

#[test]
fn changing_fps_changes_f_argument() {
    let mut config = test_config("/tmp/wt-gsr");
    config.fps = 60;
    assert!(has_pair(&built(&config), "-f", "60"));
}

#[test]
fn default_config_generates_cfr_frame_rate_mode() {
    let config = test_config("/tmp/wt-gsr");
    assert!(has_pair(&built(&config), "-fm", "cfr"));
}

#[test]
fn default_config_does_not_restart_replay_on_save() {
    let config = test_config("/tmp/wt-gsr");
    assert!(has_pair(&built(&config), "-restart-replay-on-save", "no"));
}

#[test]
fn frame_rate_mode_content_generates_fm_content() {
    let mut config = test_config("/tmp/wt-gsr");
    config.frame_rate_mode = GsrFrameRateMode::Content;
    assert!(has_pair(&built(&config), "-fm", "content"));
}

#[test]
fn default_config_generates_keyint_1() {
    let config = test_config("/tmp/wt-gsr");
    assert!(has_pair(&built(&config), "-keyint", "1"));
}

#[test]
fn keyframe_interval_half_generates_keyint_half() {
    let mut config = test_config("/tmp/wt-gsr");
    config.keyframe_interval_seconds = single(0.5);
    assert!(has_pair(&built(&config), "-keyint", "0.5"));
}

#[test]
fn keyframe_interval_two_generates_keyint_2() {
    let mut config = test_config("/tmp/wt-gsr");
    config.keyframe_interval_seconds = single(2.0);
    assert!(has_pair(&built(&config), "-keyint", "2"));
}

#[test]
fn restart_replay_on_save_true_generates_yes() {
    let mut config = test_config("/tmp/wt-gsr");
    config.restart_replay_on_save = true;
    assert!(has_pair(&built(&config), "-restart-replay-on-save", "yes"));
}

#[test]
fn changing_quality_changes_q_argument() {
    let mut config = test_config("/tmp/wt-gsr");
    config.quality = GsrQuality::High;
    assert!(has_pair(&built(&config), "-q", "high"));
}

#[test]
fn bitrate_mode_auto_uses_quality_q_argument() {
    let mut config = test_config("/tmp/wt-gsr");
    config.bitrate_mode = GsrBitrateMode::Auto;
    config.quality = GsrQuality::VeryHigh;

    let command = built(&config);

    assert!(!command.args.iter().any(|arg| arg == "-bm"));
    assert!(has_pair(&command, "-q", "very_high"));
}

#[test]
fn bitrate_mode_cbr_adds_bm_cbr_and_bitrate_q_argument() {
    let mut config = test_config("/tmp/wt-gsr");
    config.bitrate_mode = GsrBitrateMode::Cbr;
    config.video_bitrate_kbps = 20_000;

    let command = built(&config);

    assert!(has_pair(&command, "-bm", "cbr"));
    assert!(has_pair(&command, "-q", "20000"));
}

#[test]
fn bitrate_mode_cbr_does_not_add_ffmpeg_opts() {
    let mut config = test_config("/tmp/wt-gsr");
    config.bitrate_mode = GsrBitrateMode::Cbr;
    config.video_bitrate_kbps = 20_000;

    let command = built(&config);

    assert!(!command.args.iter().any(|arg| arg == "-ffmpeg-opts"));
}

#[test]
fn bitrate_mode_vbr_uses_quality_q_argument() {
    let mut config = test_config("/tmp/wt-gsr");
    config.bitrate_mode = GsrBitrateMode::Vbr;
    config.quality = GsrQuality::VeryHigh;

    let command = built(&config);

    assert!(has_pair(&command, "-bm", "vbr"));
    assert!(has_pair(&command, "-q", "very_high"));
    assert!(!command.args.iter().any(|arg| arg == "-ffmpeg-opts"));
}

#[test]
fn bitrate_mode_qp_accepts_ultra_quality() {
    let mut config = test_config("/tmp/wt-gsr");
    config.bitrate_mode = GsrBitrateMode::Qp;
    config.quality = GsrQuality::Ultra;

    let command = built(&config);

    assert!(has_pair(&command, "-bm", "qp"));
    assert!(has_pair(&command, "-q", "ultra"));
}

#[test]
fn bitrate_mode_cbr_with_invalid_bitrate_falls_back_to_20000() {
    let mut config = test_config("/tmp/wt-gsr");
    config.bitrate_mode = GsrBitrateMode::Cbr;
    config.video_bitrate_kbps = 0;

    let command = built(&config);

    assert!(has_pair(&command, "-bm", "cbr"));
    assert!(has_pair(&command, "-q", "20000"));
}

#[test]
fn output_paths_are_absolute() {
    let command = built(&test_config("/tmp/wt-gsr"));
    assert!(std::path::Path::new(&command.output_dir).is_absolute());
    assert!(std::path::Path::new(&command.output_prefix).is_absolute());
}

#[test]
fn refuses_relative_output_dir() {
    let error = build_gsr_command(&test_config("relative-gsr"), &machine())
        .unwrap_err()
        .message();
    assert!(error.contains("output_dir must be absolute"));
}

#[test]
fn a_home_that_is_not_set_is_an_error() {
    let mut here = machine();
    here.home = None;
    let error = build_gsr_command(&test_config("~/clips"), &here).unwrap_err();
    assert!(matches!(error, GsrCommandError::HomeNotSet));
    assert_eq!(error.message(), "HOME is not set");
}

#[test]
fn a_missing_recorder_is_an_error() {
    let mut config = test_config("/tmp/wt-gsr");
    config.gpu_screen_recorder_mode = GpuScreenRecorderMode::Auto;
    let mut here = machine();
    here.flatpak_available = false;
    let error = build_gsr_command(&config, &here).unwrap_err();
    assert!(matches!(error, GsrCommandError::NotFound));
}

fn replay(path: &str, len: u64, seconds: i128) -> OutputFile {
    OutputFile {
        path: path.to_owned(),
        is_file: true,
        len,
        modified: Some(SystemTime { nanos: seconds * 1_000_000_000 }),
    }
}

#[test]
fn recursive_scan_finds_replay_mp4() {
    let files = vec![
        OutputFile {
            path: "/r/session".to_owned(),
            is_file: false,
            len: 0,
            modified: None,
        },
        replay("/r/session/Replay_001.mp4", 3, 1),
    ];
    assert_eq!(scan_replay_outputs(&files, "mp4"), vec![1]);
}

#[test]
fn wait_for_new_output_ignores_old_files() {
    let files = vec![replay("/r/Replay_old.mp4", 3, 1), replay("/r/Replay_new.mp4", 3, 2)];
    let before = vec!["/r/Replay_old.mp4".to_owned()];
    let found = wait_for_new_replay_output(&files, "mp4", &before, false, 1);
    assert!(matches!(found, NewReplay::Found(path) if path == "/r/Replay_new.mp4"));
}

#[test]
fn timeout_when_no_new_file() {
    let files = Vec::new();
    let waiting = wait_for_new_replay_output(&files, "mp4", &Vec::new(), false, 1);
    assert!(matches!(waiting, NewReplay::Wait));
    let late = wait_for_new_replay_output(&files, "mp4", &Vec::new(), true, 1);
    assert!(matches!(late, NewReplay::TimedOut(message)
        if message.contains("aucun nouveau fichier")));
}

#[test]
fn diagnostics_command_matches_built_command() {
    let config = test_config("/tmp/wt-gsr");
    let mut handle = GpuScreenRecorderHandle::new(config.clone(), &machine());
    let status = handle.status(&machine());
    let command = built(&config);

    assert_eq!(
        status.command_line.as_deref(),
        Some(command.command_line.as_str())
    );
    assert_eq!(status.output_prefix, command.output_prefix);
    assert_eq!(status.stderr_handling, "null");
}

fn process(pid: u32, args: &[&str]) -> GsrProcessInfo {
    GsrProcessInfo {
        pid,
        args: args.iter().map(|arg| (*arg).to_owned()).collect(),
        command_line: args.join(" "),
    }
}

#[test]
fn resolve_actual_gsr_pid_ignores_bwrap() {
    let processes = vec![
        process(
            10,
            &[
                "bwrap",
                "--args",
                "80",
                "--",
                "gpu-screen-recorder",
                "-w",
                "eDP",
                "-ro",
                "/tmp/wt gsr",
                "-o",
                "/tmp/wt gsr/wtclip",
            ],
        ),
        process(
            11,
            &[
                "gpu-screen-recorder",
                "-w",
                "eDP",
                "-ro",
                "/tmp/wt gsr",
                "-o",
                "/tmp/wt gsr/wtclip",
            ],
        ),
    ];

    let selected =
        select_actual_gsr_process(&processes, "/tmp/wt gsr", "/tmp/wt gsr/wtclip", "eDP").unwrap();

    assert_eq!(selected.pid, 11);
}

fn recorder_of(pid: u32, prefix: &str) -> GsrProcessInfo {
    process(
        pid,
        &[
            "gpu-screen-recorder",
            "-w",
            "eDP",
            "-ro",
            "/tmp/wt-gsr",
            "-o",
            prefix,
        ],
    )
}

#[test]
fn resolve_actual_gsr_pid_ignores_gsr_game_tracker() {
    let processes = vec![
        process(20, &["gsr-game-tracker", "gpu-screen-recorder"]),
        recorder_of(21, "/tmp/wt-gsr/wtclip"),
    ];

    let selected =
        select_actual_gsr_process(&processes, "/tmp/wt-gsr", "/tmp/wt-gsr/wtclip", "eDP").unwrap();

    assert_eq!(selected.pid, 21);
}

#[test]
fn resolve_actual_gsr_pid_ignores_gpu_screen_recorder_gtk() {
    let processes = vec![
        process(
            30,
            &[
                "gpu-screen-recorder-gtk",
                "gpu-screen-recorder",
                "-w",
                "eDP",
                "-ro",
                "/tmp/wt-gsr",
                "-o",
                "/tmp/wt-gsr/wtclip",
            ],
        ),
        recorder_of(31, "/tmp/wt-gsr/wtclip"),
    ];

    let selected =
        select_actual_gsr_process(&processes, "/tmp/wt-gsr", "/tmp/wt-gsr/wtclip", "eDP").unwrap();

    assert_eq!(selected.pid, 31);
}

#[test]
fn resolve_actual_gsr_pid_matches_output_prefix() {
    let processes = vec![
        recorder_of(40, "/tmp/wt-gsr/other"),
        recorder_of(41, "/tmp/wt-gsr/wtclip"),
    ];

    let selected =
        select_actual_gsr_process(&processes, "/tmp/wt-gsr", "/tmp/wt-gsr/wtclip", "eDP").unwrap();

    assert_eq!(selected.pid, 41);
}

#[test]
fn save_replay_sends_signal_to_recorder_pid_not_wrapper_pid() {
    let mut state = GpuScreenRecorderState {
        target_valid: true,
        mode: Some(GsrMode::Flatpak),
        wrapper_pid: Some(100),
        recorder_pid: Some(101),
        health: GsrHealth::Running,
        target: "eDP".to_owned(),
        output_dir: "/tmp/wt-gsr".to_owned(),
        output_prefix: "/tmp/wt-gsr/wtclip".to_owned(),
        last_output: None,
        last_error: None,
        restart_count: 0,
        command_line: None,
        recorder_command_line: None,
        monitors: Vec::new(),
        stderr_handling: "null".to_owned(),
        save_queue_len: 0,
        total_saves_requested: 0,
        total_saves_completed: 0,
        total_saves_failed: 0,
        capture_strategy: CaptureStrategy::Monitor,
        session_type: "x11".to_owned(),
        target_reason: "test".to_owned(),
    };

    assert_eq!(signal_pid_from_state(&state).unwrap(), 101);
    state.recorder_pid = None;
    assert!(signal_pid_from_state(&state).is_err());
}

#[test]
fn restart_leaves_only_one_recorder_process() {
    let processes = vec![
        recorder_of(50, "/tmp/wt-gsr/wtclip"),
        recorder_of(51, "/tmp/wt-gsr/wtclip"),
    ];

    let selected =
        select_actual_gsr_process(&processes, "/tmp/wt-gsr", "/tmp/wt-gsr/wtclip", "eDP").unwrap();

    assert_eq!(selected.pid, 51);
}

#[test]
fn diagnostics_reports_wrapper_and_recorder_pid() {
    let mut handle = GpuScreenRecorderHandle::new(test_config("/tmp/wt-gsr"), &machine());
    handle.state.wrapper_pid = Some(200);
    handle.state.recorder_pid = Some(201);
    handle.state.recorder_command_line =
        Some("gpu-screen-recorder -w eDP -ro /tmp/wt-gsr -o /tmp/wt-gsr/wtclip".to_owned());
    let status = handle.status(&machine());

    assert_eq!(status.wrapper_pid, Some(200));
    assert_eq!(status.recorder_pid, Some(201));
    assert_eq!(status.signal_pid, Some(201));
    assert!(status
        .recorder_command_line
        .as_deref()
        .unwrap()
        .contains("gpu-screen-recorder -w eDP"));
}

#[test]
fn stderr_is_not_left_piped_unread() {
    let mut handle = GpuScreenRecorderHandle::new(test_config("/tmp/wt-gsr"), &machine());
    let status = handle.status(&machine());

    assert_eq!(status.stderr_handling, "null");
}

fn manual_context(player: Option<&str>) -> ClipContext {
    ClipContext {
        reason: ClipReason::Manual,
        event: None,
        events: Vec::new(),
        player_name: player.map(str::to_owned),
        pending_clip_id: None,
        pending_dedupe_key: None,
        duration_seconds: 25,
        post_event_seconds: 0,
        first_event_time: None,
        last_event_time: None,
    }
}

#[test]
fn metadata_contains_gsr_backend() {
    let video = "/v/Replay_001.mp4";
    let thumbnail = Some("/v/Replay_001.jpg".to_owned());
    let metadata = write_gsr_metadata(
        video,
        &thumbnail,
        &manual_context(Some("dawson16800")),
        &test_config("/v"),
        17,
    );

    assert_eq!(metadata.capture_backend, "gpu_screen_recorder");
    assert_eq!(metadata.reason, "manual");
    assert_eq!(metadata.clip_type, "manual");
    assert_eq!(metadata.game, "War Thunder");
    assert_eq!(metadata.path, video);
    assert_eq!(metadata.source_path, video);
    assert_eq!(metadata.thumbnail_path, thumbnail);
    assert_eq!(metadata.container, "mp4");
    assert_eq!(metadata.duration_seconds, 17);
    assert!(metadata.created_at.len() > 19);
    assert!(metadata.created_at.contains('T'));
}

#[test]
fn metadata_uses_ffprobe_duration_when_available() {
    let metadata = gsr_metadata(
        "/v/Replay_001.mp4",
        &None,
        &manual_context(None),
        &test_config("/v"),
        9,
        "2024-05-01T10:00:00+00:00",
    );

    assert_eq!(metadata.duration_seconds, 9);
    assert_eq!(metadata.created_at, "2024-05-01T10:00:00+00:00");
}

#[test]
fn a_thumbnail_counts_once_it_holds_something() {
    let full = Some(FoundFile { is_file: true, len: 5 });
    let empty = Some(FoundFile { is_file: true, len: 0 });
    assert_eq!(
        generate_thumbnail("/v/a.mp4", true, full).as_deref(),
        Some("/v/a.jpg")
    );
    assert_eq!(generate_thumbnail("/v/a.mp4", false, full), None);
    assert_eq!(generate_thumbnail("/v/a.mp4", true, empty), None);
    assert_eq!(generate_thumbnail("/v/a.mp4", true, None), None);
}

#[test]
fn keyframe_intervals_are_kept_within_bounds() {
    let argument = |seconds: f32| {
        let mut config = test_config("/tmp/wt-gsr");
        config.keyframe_interval_seconds = single(seconds);
        keyframe_interval_arg(&config)
    };
    assert_eq!(argument(0.0), "0.1");
    assert_eq!(argument(-3.0), "0.1");
    assert_eq!(argument(0.1234), "0.123");
    assert_eq!(argument(1.25), "1.25");
    assert_eq!(argument(9.9996), "10");
    assert_eq!(argument(250.0), "10");
    assert_eq!(argument(f32::NAN), "1");
    assert_eq!(argument(f32::INFINITY), "1");
}

#[test]
fn the_least_change_of_an_interval_is_a_change() {
    let before = test_config("/tmp/wt-gsr");
    let mut after = test_config("/tmp/wt-gsr");
    assert!(is_same_config(&before, &after));
    after.keyframe_interval_seconds = single(1.000_000_1);
    assert!(!is_same_config(&before, &after));
    after.keyframe_interval_seconds = single(f32::NAN);
    let again = after.clone();
    assert!(!is_same_config(&after, &again));
}

#[test]
fn programs_are_asked_about_monitors_and_recordings() {
    let native = monitor_listing(GsrMode::Native);
    assert_eq!(native.program, "gpu-screen-recorder");
    assert_eq!(native.args, vec!["--list-monitors"]);
    let flatpak = monitor_listing(GsrMode::Flatpak);
    assert_eq!(flatpak.program, "flatpak");
    assert_eq!(
        flatpak.args,
        vec![
            "run",
            "--command=gpu-screen-recorder",
            "com.dec05eba.gpu_screen_recorder",
            "--list-monitors",
        ]
    );
    assert_eq!(
        duration_probe_args("/v.mp4"),
        vec![
            "-v",
            "error",
            "-show_entries",
            "format=duration",
            "-of",
            "default=noprint_wrappers=1:nokey=1",
            "/v.mp4",
        ]
    );
    assert_eq!(
        recording_picture_args("/v.mp4", "/v.jpg"),
        vec![
            "-y", "-hide_banner", "-loglevel", "error", "-i", "/v.mp4", "-vframes", "1", "-s",
            "640x360", "/v.jpg",
        ]
    );
}
