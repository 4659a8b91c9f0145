use wt_clipper::capture::audio::AudioCaptureSource;
use wt_clipper::capture::buffer::{
    buffer_pipeline_description, check_buffer_config, check_pipeline_bus, copied_segment_paths,
    copy_segments, final_video_path, print_saved_replay, saved_replay, start_buffer, BufferError,
    ClipReason, ReplayBufferConfig, SavedReplay,
};
use wt_clipper::capture::concat::{
    attempt_ended, concat_pipeline_description, concat_pipeline_description_with_audio,
    concatenate_segments_to_webm, temp_output_path, valid_segments, ConcatError, ConcatStep,
    FoundFile, SegmentInput,
};
use wt_clipper::capture::output::{
    default_file_name, default_output_dir, ensure_unique_path, manual_file_name,
    resolve_output_path_in_dir, slugify_filename_part, OutputError,
};
use wt_clipper::capture::quality::{QualityError, QualityPreset, VideoQuality};
use wt_clipper::capture::recorder::{
    choose_backend, gstreamer_warning_is_fatal, pipeline_description, record, verify_output_file,
    wait_for_eos_or_error, work_then_close, BusMessage, BusStep, CaptureBackend, PipelineSource,
    RecordError, RecordingRequest,
};
use wt_clipper::capture::segments::ReplaySegment;
use wt_clipper::capture::x11::{
    decode_x11_text, find_war_thunder_window, parse_x11_window_id, resolve_x11_window_id,
    searched_window, war_thunder_window_score, WindowChoice, X11WindowError, X11WindowSelection,
};
use wt_clipper::capture::x11_window::{
    detect_war_thunder_window_x11, get_window_title, get_wm_class, has_display,
    read_process_cmdline, score_war_thunder_window, window_info,
};
use wt_clipper::cli::CaptureSource;
use wt_clipper::time::{Duration, SystemTime};

#[test]
fn audio_chain_uses_pulse_monitor_and_opus() {
    let source = AudioCaptureSource {
        device: "alsa_output.test.monitor".to_owned(),
    };
    let chain = source.source_chain();

    assert!(chain.contains("pulsesrc device=\"alsa_output.test.monitor\""));
    assert!(chain.contains("opusenc bitrate=128000"));
}

#[test]
fn audio_chain_escapes_device_name() {
    let source = AudioCaptureSource {
        device: "sink\"name.monitor".to_owned(),
    };

    assert!(source.source_chain().contains("sink\\\"name.monitor"));
}

#[test]
fn builds_splitmux_pipeline() {
    let pipeline = buffer_pipeline_description(
        PipelineSource::PipeWirePortal { fd: 8, node_id: 99 },
        CaptureSource::Screen,
        "/tmp/session/segment-%06d.webm",
        Duration::from_secs(2),
        7,
        VideoQuality::default(),
    )
    .unwrap();

    assert!(pipeline.contains("pipewiresrc fd=8 path=99"));
    assert!(pipeline.contains("splitmuxsink"));
    assert!(pipeline.contains("video/x-raw,framerate=60/1"));
    assert!(pipeline.contains("target-bitrate=12000000"));
    assert!(pipeline.contains("muxer-factory=webmmux"));
    assert!(pipeline.contains("max-size-time=2000000000"));
    assert!(pipeline.contains("max-files=7"));
}

#[test]
fn clip_reason_slug() {
    assert_eq!(ClipReason::TargetDestroyed.slug(), "target-destroyed");
    assert_eq!(ClipReason::PlayerDestroyed.slug(), "player-destroyed");
    assert_eq!(ClipReason::Manual.slug(), "manual");
    assert_eq!(ClipReason::Unknown.slug(), "unknown");
}

#[test]
fn saved_replay_can_hold_final_video() {
    let replay = SavedReplay {
        final_video_path: Some("/tmp/replay.webm".to_owned()),
        segments_dir: None,
    };

    assert_eq!(replay.final_video_path.as_deref(), Some("/tmp/replay.webm"));
}

fn buffer_config() -> ReplayBufferConfig {
    ReplayBufferConfig {
        buffer_seconds: 30,
        segment_seconds: 2,
        output_dir: None,
        source: CaptureSource::Screen,
        keep_segments: false,
        quality: VideoQuality::default(),
    }
}

#[test]
fn the_buffer_needs_lengths() {
    let mut config = buffer_config();
    assert_eq!(check_buffer_config(&config), Ok(()));
    config.segment_seconds = 0;
    assert_eq!(check_buffer_config(&config), Err(BufferError::NoSegmentSeconds));
    config.buffer_seconds = 0;
    assert_eq!(check_buffer_config(&config), Err(BufferError::NoBufferSeconds));
    assert_eq!(
        BufferError::NoBufferSeconds.message(),
        "buffer seconds must be greater than zero"
    );
    let plan = start_buffer(
        &buffer_config(),
        PipelineSource::X11 { window_id: None },
        "/tmp/s",
    )
    .unwrap();
    assert_eq!(plan.keep_segments, 17);
    assert!(plan.pipeline.starts_with("ximagesrc use-damage=0 show-pointer=true ! "));
    assert!(plan.pipeline.ends_with("location=\"/tmp/s/segment-%06d.webm\""));
}

#[test]
fn an_x11_window_is_not_buffered() {
    let mut config = buffer_config();
    config.source = CaptureSource::Window;
    let refused = start_buffer(&config, PipelineSource::X11 { window_id: Some(3) }, "/tmp/s");
    assert!(matches!(refused, Err(BufferError::WindowNotSupported)));
}

#[test]
fn segments_are_numbered_anew_in_a_clip() {
    let segments = vec![
        ReplaySegment {
            index: 9,
            path: "/b/segment-000009.webm".to_owned(),
            modified: SystemTime { nanos: 0 },
        },
        ReplaySegment {
            index: 4,
            path: "/b/segment-000004.webm".to_owned(),
            modified: SystemTime { nanos: 1 },
        },
    ];
    let copies = copy_segments(&segments, "/clips/x");
    assert_eq!(copies[0].from, "/b/segment-000009.webm");
    assert_eq!(copies[0].to, "/clips/x/segment-000000.webm");
    assert_eq!(copies[1].to, "/clips/x/segment-000001.webm");
    let listed = copied_segment_paths(&vec![
        "/clips/x/segment-000001.webm".to_owned(),
        "/clips/x/notes.txt".to_owned(),
        "/clips/x/segment-000000.webm".to_owned(),
    ]);
    assert_eq!(
        listed,
        vec!["/clips/x/segment-000000.webm", "/clips/x/segment-000001.webm"]
    );
    assert_eq!(
        final_video_path("/clips/x", &vec!["/clips/x.webm".to_owned()]).unwrap(),
        "/clips/x-1.webm"
    );
}

#[test]
fn a_saved_replay_is_told() {
    let kept = saved_replay("/c/x.webm".to_owned(), "/c/x".to_owned(), true);
    assert_eq!(kept.segments_dir.as_deref(), Some("/c/x"));
    assert_eq!(print_saved_replay(&kept).as_deref(), Some("[CLIP] saved: /c/x.webm"));
    let bare = SavedReplay { final_video_path: None, segments_dir: Some("/c/x".to_owned()) };
    assert_eq!(print_saved_replay(&bare).as_deref(), Some("[CLIP] saved segments: /c/x"));
}

#[test]
fn the_end_of_the_stream_ends_the_buffer() {
    assert_eq!(check_pipeline_bus(BusMessage::Other), Ok(()));
    assert_eq!(
        check_pipeline_bus(BusMessage::Eos),
        Err("replay buffer pipeline ended unexpectedly".to_owned())
    );
}

fn input(path: &str, len: u64) -> SegmentInput {
    SegmentInput {
        path: path.to_owned(),
        found: Some(FoundFile { is_file: true, len }),
    }
}

#[test]
fn valid_segments_preserve_input_order_and_filter_empty_files() {
    let a = "/s/segment-000001.webm";
    let b = "/s/segment-000002.webm";
    let empty = "/s/segment-000003.webm";

    let valid = valid_segments(&vec![input(b, 1), input(empty, 0), input(a, 1)]).unwrap();

    assert_eq!(valid, vec![b, a]);
}

#[test]
fn concat_pipeline_uses_overridden_video_bitrate() {
    let quality =
        VideoQuality::with_overrides(QualityPreset::High, None, Some(20_000)).unwrap();
    let pipeline = concat_pipeline_description(
        &vec!["/tmp/segment-000001.webm".to_owned()],
        "/tmp/out.webm",
        quality,
    );

    assert!(pipeline.contains("target-bitrate=20000000"));
}

#[test]
fn audio_concat_pipeline_uses_separate_video_and_audio_concats() {
    let pipeline = concat_pipeline_description_with_audio(
        &vec![
            "/tmp/session/segment-000000.webm".to_owned(),
            "/tmp/session/segment-000001.webm".to_owned(),
        ],
        "/tmp/out.webm",
        VideoQuality::default(),
    );

    assert!(pipeline.contains("concat name=vc"));
    assert!(pipeline.contains("concat name=ac"));
    assert!(pipeline.contains("decodebin name=d0"));
    assert!(pipeline.contains("opusenc bitrate=128000"));
    assert!(pipeline.contains("webmmux name=mux"));
}

#[test]
fn empty_segment_list_errors() {
    let valid = valid_segments(&Vec::new()).unwrap();
    assert!(valid.is_empty());
}

#[test]
fn every_segment_is_read() {
    let pipeline = concat_pipeline_description(
        &vec![
            "/tmp/segment-000001.webm".to_owned(),
            "/tmp/segment-000002.webm".to_owned(),
        ],
        "/tmp/out.webm",
        VideoQuality::new(30, 10_000, 4).unwrap(),
    );

    assert!(pipeline.contains("concat name=c"));
    assert!(pipeline.contains("video/x-raw,framerate=30/1"));
    assert!(pipeline.contains(
        "vp8enc deadline=1 end-usage=cbr target-bitrate=10000000 cpu-used=4 keyframe-max-dist=60"
    ));
    assert!(pipeline.contains("decodebin"));
    assert!(pipeline.contains("/tmp/segment-000001.webm"));
    assert!(pipeline.contains("/tmp/segment-000002.webm"));
    assert!(pipeline.contains("filesink location=\"/tmp/out.webm\""));
}

#[test]
fn segments_that_cannot_be_joined_are_refused() {
    let odd = valid_segments(&vec![input("/s/clip.webm", 1)]);
    assert!(matches!(odd, Err(ConcatError::InvalidName(p)) if p == "/s/clip.webm"));
    let gone = SegmentInput { path: "/s/segment-000001.webm".to_owned(), found: None };
    let missing = valid_segments(&vec![gone]).unwrap_err();
    assert_eq!(
        missing.message(),
        "replay segment does not exist: /s/segment-000001.webm"
    );
    let empty = concatenate_segments_to_webm(
        &vec![input("/s/segment-000001.webm", 0)],
        "/c/out.webm",
        VideoQuality::default(),
        true,
    );
    assert!(matches!(empty, Err(ConcatError::NoSegments)));
}

#[test]
fn sound_is_tried_first_and_picture_alone_last() {
    let plan = concatenate_segments_to_webm(
        &vec![input("/s/segment-000001.webm", 5)],
        "/c/out.webm",
        VideoQuality::default(),
        true,
    )
    .unwrap();
    assert_eq!(plan.temp_output, "/c/out.webm.tmp");
    assert_eq!(temp_output_path("/c/out"), "/c/out.tmp");
    assert_eq!(plan.attempts.len(), 2);
    assert!(plan.attempts[0].contains("concat name=ac"));
    assert!(!plan.attempts[1].contains("concat name=ac"));
    assert!(matches!(
        attempt_ended(&plan, 0, Err("x".to_owned())),
        ConcatStep::Retry(1)
    ));
    assert!(matches!(
        attempt_ended(&plan, 1, Err("x".to_owned())),
        ConcatStep::GiveUp(error) if error == "x"
    ));
    assert!(matches!(attempt_ended(&plan, 0, Ok(())), ConcatStep::Finish));
    let video = wt_clipper::capture::concat::verify_output_file("/c/out.webm.tmp", Some(0));
    assert!(matches!(video, Err(ConcatError::Empty(_))));
    let none = wt_clipper::capture::concat::verify_output_file("/c/out.webm.tmp", None);
    assert!(matches!(none, Err(ConcatError::NotCreated(_))));
}

#[test]
fn default_file_name_is_manual_webm() {
    let name = default_file_name();

    assert!(name.starts_with("manual-"));
    assert!(name.ends_with(".webm"));
    assert_eq!(name.len(), "manual-2024-01-01-00-00-00.webm".len());
}

#[test]
fn default_output_dir_uses_home_videos_folder() {
    let dir = default_output_dir(Some("/home/pilot")).expect("HOME should be set in tests");

    assert!(dir.ends_with("Videos/WarThunder Clips"));
    assert!(matches!(default_output_dir(None), Err(OutputError::HomeNotSet)));
}

#[test]
fn ensure_unique_path_returns_original_when_available() {
    let path = "/tmp/wt-clipper-test-available.webm".to_owned();

    assert_eq!(ensure_unique_path(path.clone(), &Vec::new()).unwrap(), path);
}

#[test]
fn ensure_unique_path_adds_suffix_when_file_exists() {
    let path = "/tmp/wt-clipper-test-exists.webm".to_owned();

    let unique = ensure_unique_path(path.clone(), &vec![path.clone()]).unwrap();

    assert_ne!(unique, path);
    assert!(unique.contains("-1.webm"));
}

#[test]
fn a_path_without_a_name_cannot_be_numbered() {
    let refused = ensure_unique_path("/".to_owned(), &vec!["/".to_owned()]);
    assert!(matches!(refused, Err(OutputError::InvalidFileName(p)) if p == "/"));
    let mut taken = vec!["/t/a".to_owned()];
    for index in 1..10_000 {
        taken.push(format!("/t/a-{index}"));
    }
    let full = ensure_unique_path("/t/a".to_owned(), &taken).unwrap_err();
    assert_eq!(full.message(), "could not find a unique output path for /t/a");
}

#[test]
fn a_recording_goes_where_it_is_asked_for() {
    assert_eq!(
        resolve_output_path_in_dir(Some("/x/a.webm".to_owned()), "/d", &Vec::new()).unwrap(),
        "/x/a.webm"
    );
    let named = resolve_output_path_in_dir(None, "/d", &Vec::new()).unwrap();
    assert!(named.starts_with("/d/manual-"));
    assert_eq!(manual_file_name("t"), "manual-t.webm");
}

#[test]
fn slugifies_aircraft_name() {
    assert_eq!(slugify_filename_part("F/A-18C Early"), "f-a-18c-early");
}

#[test]
fn slugifies_symbolic_ground_vehicle_name() {
    assert_eq!(slugify_filename_part("◍M1A1 HC"), "m1a1-hc");
}

#[test]
fn a_slug_is_never_empty_nor_long() {
    assert_eq!(slugify_filename_part("◍◍"), "unknown");
    assert_eq!(slugify_filename_part("ÉCLAIR"), "clair");
    assert_eq!(slugify_filename_part(&"a".repeat(60)).len(), 40);
}

#[test]
fn presets_have_expected_values() {
    assert_eq!(QualityPreset::Low.video_quality().video_bitrate_kbps, 4_000);
    assert_eq!(
        QualityPreset::Medium.video_quality().video_bitrate_kbps,
        8_000
    );
    assert_eq!(QualityPreset::High.video_quality().fps, 60);
    assert_eq!(
        QualityPreset::High.video_quality().video_bitrate_kbps,
        12_000
    );
}

#[test]
fn converts_kbps_to_bits_per_second() {
    let quality = VideoQuality::new(60, 12_000, 4).unwrap();
    assert_eq!(quality.bitrate_bps(), 12_000_000);
}

#[test]
fn keyframe_interval_is_two_seconds() {
    assert_eq!(
        VideoQuality::new(30, 8_000, 4).unwrap().keyframe_max_dist(),
        60
    );
    assert_eq!(
        VideoQuality::new(60, 12_000, 4)
            .unwrap()
            .keyframe_max_dist(),
        120
    );
}

#[test]
fn cli_overrides_preset_values() {
    let quality =
        VideoQuality::with_overrides(QualityPreset::Low, Some(60), Some(16_000)).unwrap();
    assert_eq!(quality.fps, 60);
    assert_eq!(quality.video_bitrate_kbps, 16_000);
    assert_eq!(quality.encoder_cpu_used, 6);
}

#[test]
fn a_quality_without_frames_or_bits_is_refused() {
    assert_eq!(VideoQuality::new(0, 1, 1), Err(QualityError::FpsZero));
    assert_eq!(VideoQuality::new(1, 0, 1), Err(QualityError::BitrateZero));
    assert_eq!(VideoQuality::new(1, 1, 17), Err(QualityError::CpuUsedTooHigh));
    assert_eq!(
        VideoQuality::default().log_summary(),
        "60 fps, 12000 kbps, VP8/WebM"
    );
}

#[test]
fn chooses_x11_backend_on_x11() {
    assert!(matches!(choose_backend("x11", None, None), CaptureBackend::X11));
}

#[test]
fn chooses_portal_backend_on_wayland() {
    assert!(matches!(
        choose_backend("wayland", None, None),
        CaptureBackend::PortalPipeWire
    ));
}

#[test]
fn manual_pipewire_path_overrides_session_type() {
    assert!(matches!(
        choose_backend("x11", Some("42"), None),
        CaptureBackend::ManualPipeWirePath(path) if path == "42"
    ));
    assert!(matches!(
        choose_backend("x11", None, Some("t")),
        CaptureBackend::ManualPipeWireTarget(target) if target == "t"
    ));
}

#[test]
fn x11_window_request_uses_resolved_window_pipeline() {
    let pipeline = pipeline_description(
        PipelineSource::X11 {
            window_id: Some(0x3a00007),
        },
        CaptureSource::Window,
        "/tmp/out.webm",
        VideoQuality::default(),
        None,
    )
    .unwrap();

    assert!(pipeline.contains("ximagesrc"));
    assert!(pipeline.contains("xid=60817415"));
    assert!(pipeline.contains("filesink location=\"/tmp/out.webm\""));
}

#[test]
fn x11_window_request_without_window_id_errors() {
    let error = pipeline_description(
        PipelineSource::X11 { window_id: None },
        CaptureSource::Window,
        "/tmp/out.webm",
        VideoQuality::default(),
        None,
    )
    .unwrap_err()
    .message();

    assert!(error.contains("no X11 window id"));
}

#[test]
fn recording_pipeline_can_mux_system_audio() {
    let audio = AudioCaptureSource {
        device: "alsa_output.test.monitor".to_owned(),
    };
    let pipeline = pipeline_description(
        PipelineSource::PipeWirePortal { fd: 8, node_id: 99 },
        CaptureSource::Screen,
        "/tmp/out.webm",
        VideoQuality::default(),
        Some(&audio),
    )
    .unwrap();

    assert!(pipeline.contains("webmmux name=mux"));
    assert!(pipeline.contains("pulsesrc device=\"alsa_output.test.monitor\""));
    assert!(pipeline.contains("opusenc bitrate=128000"));
}

#[test]
fn splitmuxsink_warning_is_fatal() {
    assert!(gstreamer_warning_is_fatal(
        "Could not add sink_28 element",
        Some("splitmuxsink will not work")
    ));
    assert!(!gstreamer_warning_is_fatal("latency redistribution", None));
}

#[test]
fn a_portal_pipeline_keeps_its_shape() {
    let pipeline = pipeline_description(
        PipelineSource::PipeWirePortal { fd: 8, node_id: 99 },
        CaptureSource::Screen,
        "/tmp/out.webm",
        VideoQuality::new(30, 10_000, 4).unwrap(),
        None,
    )
    .unwrap();

    assert_eq!(
        pipeline,
        "pipewiresrc fd=8 path=99 do-timestamp=true ! queue max-size-buffers=4 leaky=downstream ! videoconvert ! videorate ! video/x-raw,framerate=30/1 ! queue max-size-buffers=8 leaky=downstream ! vp8enc deadline=1 end-usage=cbr target-bitrate=10000000 cpu-used=4 keyframe-max-dist=60 ! webmmux ! filesink location=\"/tmp/out.webm\""
    );
}

#[test]
fn an_x11_pipeline_keeps_its_shape() {
    let pipeline = pipeline_description(
        PipelineSource::X11 { window_id: None },
        CaptureSource::Screen,
        "/tmp/out.webm",
        VideoQuality::new(30, 10_000, 4).unwrap(),
        None,
    )
    .unwrap();

    assert!(pipeline.contains("ximagesrc"));
    assert!(pipeline.contains("vp8enc"));
    assert!(pipeline.contains("target-bitrate=10000000"));
    assert_eq!(
        pipeline,
        "ximagesrc use-damage=0 do-timestamp=true show-pointer=true ! queue max-size-buffers=4 leaky=downstream ! videoconvert ! videorate ! video/x-raw,framerate=30/1 ! queue max-size-buffers=8 leaky=downstream ! vp8enc deadline=1 end-usage=cbr target-bitrate=10000000 cpu-used=4 keyframe-max-dist=60 ! webmmux ! filesink location=\"/tmp/out.webm\""
    );
}

#[test]
fn a_recording_needs_a_duration() {
    let mut request = RecordingRequest {
        duration: Duration::from_secs(0),
        output_path: "/tmp/o.webm".to_owned(),
        source: CaptureSource::Screen,
        quality: VideoQuality::default(),
    };
    let source = PipelineSource::PipeWirePath("4\"2".to_owned());
    assert!(matches!(record(&request, source, None), Err(RecordError::NoDuration)));
    request.duration = Duration::from_secs(3);
    let source = PipelineSource::PipeWirePath("4\"2".to_owned());
    let pipeline = record(&request, source, None).unwrap();
    assert!(pipeline.starts_with("pipewiresrc path=\"4\\\"2\" do-timestamp=true ! "));
    assert!(matches!(verify_output_file("/o", None), Err(RecordError::NotCreated(_))));
    let empty = verify_output_file("/o", Some(0)).unwrap_err();
    assert_eq!(empty.message(), "recording output is empty: /o");
    assert!(verify_output_file("/o", Some(1)).is_ok());
}

#[test]
fn waiting_for_a_pipeline_ends_for_good_reasons_only() {
    assert!(matches!(wait_for_eos_or_error(Some(BusMessage::Eos)), BusStep::Finished));
    assert!(matches!(wait_for_eos_or_error(Some(BusMessage::Other)), BusStep::KeepWaiting));
    assert!(matches!(wait_for_eos_or_error(None), BusStep::Failed(said)
        if said == "timed out waiting for recording finalization"));
    let warning = BusMessage::Warning {
        source: "Some(\"mux\")".to_owned(),
        error: "will not work".to_owned(),
        debug: None,
        debug_shown: "None".to_owned(),
    };
    assert!(matches!(wait_for_eos_or_error(Some(warning)), BusStep::Failed(said)
        if said == "GStreamer warning from Some(\"mux\"): will not work (None)"));
    assert_eq!(
        work_then_close(Err("a".to_owned()), Err("b".to_owned())),
        Err("a".to_owned())
    );
    assert_eq!(work_then_close(Ok(()), Err("b".to_owned())), Err("b".to_owned()));
}

#[test]
fn parses_decimal_and_hex_x11_ids() {
    assert_eq!(parse_x11_window_id("12345").unwrap(), 12345);
    assert_eq!(parse_x11_window_id("0x3a00007").unwrap(), 0x3a00007);
    assert_eq!(parse_x11_window_id(" 0XFF ").unwrap(), 255);
    assert!(matches!(parse_x11_window_id("0xzz"), Err(X11WindowError::NotHexadecimal)));
    assert!(matches!(parse_x11_window_id("0x100000000"), Err(X11WindowError::NotHexadecimal)));
    assert!(matches!(parse_x11_window_id("window"), Err(X11WindowError::NotDecimal)));
}

#[test]
fn decodes_null_separated_x11_text() {
    assert_eq!(
        decode_x11_text(b"aces.exe\0Aces.exe\0").as_deref(),
        Some("aces.exe Aces.exe")
    );
    assert_eq!(decode_x11_text(b"\0 \0"), None);
    assert_eq!(decode_x11_text(b"a\xffb").as_deref(), Some("a\u{fffd}b"));
}

#[test]
fn scores_war_thunder_window_names() {
    assert!(war_thunder_window_score(Some("War Thunder"), None) > 0);
    assert!(war_thunder_window_score(None, Some("aces.exe Aces.exe")) > 0);
    assert_eq!(war_thunder_window_score(Some("WT Clipper"), None), 0);
}

#[test]
fn the_first_best_window_is_found() {
    let window = |id: u32, title: &str| X11WindowSelection {
        id,
        title: Some(title.to_owned()),
        class: None,
    };
    let windows = vec![window(1, "Firefox"), window(2, "War Thunder"), window(3, "War Thunder")];
    assert_eq!(find_war_thunder_window(&windows).unwrap().id, 2);
    assert!(find_war_thunder_window(&vec![window(1, "Firefox")]).is_none());
    assert!(matches!(searched_window(None), Err(X11WindowError::NotFound)));
}

#[test]
fn a_given_window_needs_no_search() {
    assert!(matches!(
        resolve_x11_window_id(CaptureSource::Screen, Some("x")),
        Ok(WindowChoice::Screen)
    ));
    assert!(matches!(
        resolve_x11_window_id(CaptureSource::Window, None),
        Ok(WindowChoice::Search)
    ));
    assert!(matches!(
        resolve_x11_window_id(CaptureSource::Window, Some("0x10")),
        Ok(WindowChoice::Window(window)) if window.id == 16
    ));
}

#[test]
fn scores_war_thunder_title_highly() {
    assert!(score_war_thunder_window("War Thunder", None, None) >= 100);
}

#[test]
fn scores_steam_app_class() {
    assert!(score_war_thunder_window("", Some("steam_app_236390"), None) >= 80);
}

#[test]
fn scores_aces_cmdline() {
    assert!(score_war_thunder_window("", None, Some("steam aces.exe")) >= 70);
}

#[test]
fn ignores_unrelated_window() {
    assert_eq!(
        score_war_thunder_window("Firefox", Some("firefox"), None),
        0
    );
}

#[test]
fn the_highest_score_then_the_lowest_id_is_detected() {
    let listed = |id: u32, title: &str, class: Option<&str>| {
        window_info(id, title.to_owned(), class.map(str::to_owned), None, None)
    };
    let windows = vec![
        listed(9, "War Thunder", None),
        listed(4, "War Thunder", None),
        listed(1, "aces", None),
        listed(2, "Firefox", None),
    ];
    let best = detect_war_thunder_window_x11(&windows).unwrap();
    assert_eq!(best.id, 4);
    assert_eq!(best.score, 110);
    assert_eq!(listed(0x3a00007, "", None).id_hex, "0x3a00007");
    assert!(detect_war_thunder_window_x11(&vec![listed(2, "Firefox", None)]).is_none());
}

#[test]
fn window_properties_are_read() {
    assert_eq!(get_window_title(b"War Thunder\0", b""), "War Thunder");
    assert_eq!(get_window_title(b"", b" old \0"), "old");
    assert_eq!(get_window_title(b"", b""), "");
    assert_eq!(get_wm_class(b"aces\0Aces\0").as_deref(), Some("aces Aces"));
    assert_eq!(get_wm_class(b"\0"), None);
    assert_eq!(
        read_process_cmdline(b"/usr/bin/wine\0C:/aces.exe\0").as_deref(),
        Some("wine aces.exe")
    );
    assert_eq!(read_process_cmdline(b""), None);
    assert!(has_display(Some(":0")));
    assert!(!has_display(Some("  ")));
    assert!(!has_display(None));
}
