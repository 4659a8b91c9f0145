use wt_clipper::app::clip_types::ClipReason;
use wt_clipper::app::events::{AppEvent, UiCommand};
use wt_clipper::capture::concat::FoundFile;
use wt_clipper::capture::gpu_screen_recorder::{GsrHealth, GsrMode, GsrStatus};
use wt_clipper::config::AppConfig;
use wt_clipper::desktop::backend::{
    backend_failure, command_action, config_saved, emit_app_event, gallery_scan_roots_for_config,
    resolve_configured_video_quality, saved_clip, scan_finished, tauri_event_name, BackendPart,
    CommandAction,
};
use wt_clipper::desktop::editor::{
    cleanup_export_failure, edited_duration, edited_metadata, edited_result,
    ensure_command_available,
    ensure_not_original, escape_drawtext_value, export_attempt_ended, find_drawtext_font,
    finish_export, font_paths, format_seconds_arg, format_time_label, media_probe_args,
    new_export_plan, open_parent_folder,
    open_path, plan_export, probe_media_info, resolve_output_path, run_command, run_video_export,
    sanitize_file_stem, social_filter_with_text, source_metadata_path, stage_progress,
    stderr_summary, temporary_output_path, thumbnail_args, validate_input_path,
    validate_non_empty_file, validate_trim_request, write_edited_metadata, ClipEditRequest,
    ClipEditorMode, EditorError, EditorExportProgressStep, ExportFacts, ExportStage, ExportStep,
    FfprobeFormat, FfprobeStream, FinishedRun, FontFile, OutputFormat, SocialLayout, VersionProbe,
};
use wt_clipper::desktop::gallery::{
    clip_reason_from_name, gallery_scan_roots_for_base_dirs, is_supported_gallery_video,
    scan_clips, GalleryEntry,
};
use wt_clipper::desktop::preview::{
    after_chunk, clip_id_of_hash, handle_preview_request, http_status, next_chunk,
    parse_byte_range, preview_answer, preview_clip_id, video_content_type, ClipPreviewServer,
    PreviewAsked,
};
use wt_clipper::desktop::status::{event_id_with, runtime_event_time, RuntimeStatus};
use wt_clipper::desktop::updater::{check_for_updates, FoundUpdate, UpdateStep};
use wt_clipper::number::{Double, Single};
use wt_clipper::path::{extension, with_extension};
use wt_clipper::time::{Duration, SystemTime};

fn seconds(value: f64) -> Double {
    Double { bits: value.to_bits() }
}

fn request(mode: ClipEditorMode) -> ClipEditRequest {
    ClipEditRequest {
        clip_path: "/tmp/source.webm".to_owned(),
        metadata_path: None,
        start_seconds: seconds(8.0),
        end_seconds: seconds(19.0),
        mode,
        output_format: OutputFormat::Webm,
        layout: Some(SocialLayout::VerticalBlur),
        title: Some("Test".to_owned()),
        subtitle: Some("Subtitle".to_owned()),
        watermark: true,
        fps: 30,
        bitrate_kbps: 10_000,
    }
}

#[test]
fn trim_request_validates_start_end() {
    let validate = |start: f64, end: f64, duration: f64| {
        validate_trim_request(seconds(start), seconds(end), seconds(duration))
    };
    assert!(validate(0.0, 1.0, 2.0).is_ok());
    assert!(validate(-0.1, 1.0, 2.0).is_err());
    assert!(validate(1.0, 1.0, 2.0).is_err());
    assert!(validate(1.0, 3.0, 2.0).is_err());
}

#[test]
fn each_fault_of_a_cut_has_its_words() {
    let validate = |start: f64, end: f64, duration: f64| {
        validate_trim_request(seconds(start), seconds(end), seconds(duration))
    };
    let fault = |start: f64, end: f64, duration: f64| {
        validate(start, end, duration).unwrap_err().message()
    };
    let not_finite = "Le debut et la fin doivent etre des nombres valides.";
    assert_eq!(fault(f64::NAN, 1.0, f64::NAN), not_finite);
    assert_eq!(fault(0.0, f64::INFINITY, 2.0), not_finite);
    assert_eq!(fault(-5e-324, 1.0, 2.0), "Le debut du trim doit etre positif.");
    assert_eq!(fault(1.0, 1.0, 2.0), "La fin du trim doit etre apres le debut.");
    let latest: f64 = 2.0 + 0.150;
    let past = f64::from_bits(latest.to_bits() + 1);
    assert_eq!(fault(0.0, past, 2.0), "La fin du trim depasse la duree du clip.");
    assert!(validate(0.0, latest, 2.0).is_ok());
    assert!(validate(-0.0, f64::MAX, f64::NAN).is_ok());
    assert!(validate(0.0, f64::MAX, f64::INFINITY).is_ok());
    assert!(validate(0.0, 0.2, -1.0).is_err());
}

#[test]
fn a_cut_is_as_long_as_its_points_are_apart() {
    let length = |start: f64, end: f64| {
        let mut clip = request(ClipEditorMode::TrimOriginal);
        clip.start_seconds = seconds(start);
        clip.end_seconds = seconds(end);
        f64::from_bits(edited_duration(&clip).bits)
    };
    assert_eq!(length(0.1, 0.3), 0.3 - 0.1);
    assert_eq!(length(1e-9, 3600.7), 3600.7 - 1e-9);
    assert_eq!(length(3.0, 2.0), 0.0);
    assert_eq!(length(f64::NAN, 2.0), 0.0);
    assert_eq!(length(2.0, f64::INFINITY), f64::INFINITY);
    assert_eq!(length(f64::INFINITY, f64::INFINITY), 0.0);
}

#[test]
fn export_never_overwrites_original() {
    let input = "/e/clip.webm";
    let output = resolve_output_path(
        &request(ClipEditorMode::TrimOriginal),
        input,
        "/e",
        &vec![input.to_owned()],
    )
    .unwrap();

    assert_ne!(input, output);
    assert!(ensure_not_original(input, &output, Some(input), Some("/e")).is_ok());
    assert!(matches!(
        ensure_not_original(input, "/e/clip.webm", None, None),
        Err(EditorError::OverOriginal)
    ));
    assert!(matches!(
        ensure_not_original(input, "/e//./clip.webm", None, None),
        Err(EditorError::OverOriginal)
    ));
}

#[test]
fn edited_output_path_is_unique() {
    let input = "/e/clip.webm";
    let mut taken = vec![input.to_owned()];
    let first =
        resolve_output_path(&request(ClipEditorMode::TrimOriginal), input, "/e", &taken).unwrap();
    taken.push(first.clone());
    let second =
        resolve_output_path(&request(ClipEditorMode::TrimOriginal), input, "/e", &taken).unwrap();

    assert_eq!(first, "/e/clip_trim_00-08_00-19.webm");
    assert_ne!(first, second);
    assert!(second.contains("-1.webm"));
}

#[test]
fn social_export_uses_mp4() {
    let output = resolve_output_path(
        &request(ClipEditorMode::SocialVertical),
        "/e/clip.webm",
        "/e",
        &Vec::new(),
    )
    .unwrap();

    assert_eq!(extension(&output).as_deref(), Some("mp4"));
}

#[test]
fn missing_ffmpeg_returns_clear_error() {
    let error = ensure_command_available(
        "wt-clipper-definitely-missing-ffmpeg",
        VersionProbe::NotFound,
    )
    .unwrap_err()
    .message();

    assert!(error.contains("sudo apt install ffmpeg"));
}

#[test]
fn a_broken_command_is_told() {
    assert!(ensure_command_available("ffmpeg", VersionProbe::Succeeded).is_ok());
    assert_eq!(
        ensure_command_available("ffmpeg", VersionProbe::Failed).unwrap_err().message(),
        "ffmpeg est installe mais ne repond pas correctement."
    );
    assert_eq!(
        ensure_command_available("ffmpeg", VersionProbe::NotStarted("denied".to_owned()))
            .unwrap_err()
            .message(),
        "Impossible de lancer ffmpeg: denied"
    );
}

#[test]
fn metadata_created_for_edited_clip() {
    let metadata = edited_metadata(
        &request(ClipEditorMode::TrimOriginal),
        "/e/clip.webm",
        "/e/clip_trim_00-08_00-19.webm",
        Some("target-destroyed".to_owned()),
        "then".to_owned(),
    );

    assert_eq!(metadata.kind, "edited_clip");
    assert_eq!(metadata.duration_seconds, seconds(11.0));
    assert_eq!(metadata.reason.as_deref(), Some("target-destroyed"));
    let now = write_edited_metadata(&request(ClipEditorMode::TrimOriginal), "/i", "/o", None);
    assert!(now.created_at.contains('T'));
    assert_eq!(
        source_metadata_path(&request(ClipEditorMode::TrimOriginal), "/e/clip.webm"),
        "/e/clip.json"
    );
}

#[test]
fn thumbnail_path_for_edited_clip_is_jpg() {
    let output = "/tmp/clip_vertical_00-08_00-19.mp4";

    assert_eq!(
        extension(&with_extension(output, "jpg")).as_deref(),
        Some("jpg")
    );
}

fn facts() -> ExportFacts {
    ExportFacts {
        duration_seconds: seconds(60.0),
        base_dir: "/clips".to_owned(),
        taken: vec!["/tmp/source.webm".to_owned()],
        canonical_input: Some("/tmp/source.webm".to_owned()),
        canonical_output_dir: None,
    }
}

#[test]
fn failed_export_removes_tmp_file() {
    let plan = plan_export(&request(ClipEditorMode::TrimOriginal), &facts(), "id").unwrap();
    assert_eq!(plan.tmp_path, "/clips/Edited/.source_trim_00-08_00-19.id.tmp.webm");
    assert_eq!(
        cleanup_export_failure(&plan),
        vec![
            "/clips/Edited/.source_trim_00-08_00-19.id.tmp.webm",
            "/clips/Edited/source_trim_00-08_00-19.json",
            "/clips/Edited/source_trim_00-08_00-19.jpg",
        ]
    );
}

#[test]
fn a_plan_checks_the_cut_first() {
    let mut wrong = request(ClipEditorMode::SocialVertical);
    wrong.end_seconds = seconds(0.0);
    assert!(matches!(
        plan_export(&wrong, &facts(), "id"),
        Err(EditorError::EndBeforeStart)
    ));
    let plan = new_export_plan(&request(ClipEditorMode::SocialVertical), &facts()).unwrap();
    assert_eq!(plan.output_dir, "/clips/Social");
    assert_eq!(plan.output_path, "/clips/Social/source_vertical_00-08_00-19.mp4");
    let other = temporary_output_path(&plan.output_path);
    assert_ne!(other, plan.tmp_path);
    assert!(matches!(
        finish_export(&plan, true),
        Err(EditorError::OutputExists(_))
    ));
    assert!(finish_export(&plan, false).is_ok());
    let done = edited_result(&plan, &request(ClipEditorMode::SocialVertical), false, 9);
    assert_eq!(done.thumbnail_path, None);
    assert_eq!(done.duration_seconds, seconds(11.0));
}

#[test]
fn an_export_never_goes_over_the_clip() {
    let mut clip = request(ClipEditorMode::TrimOriginal);
    clip.clip_path = "/clips/Edited/source_trim_00-08_00-19.webm".to_owned();
    let mut known = facts();
    known.canonical_input = None;
    known.taken = Vec::new();
    let plan = plan_export(&clip, &known, "id").unwrap();
    assert_ne!(plan.output_path, clip.clip_path);
}

#[test]
fn a_webm_cut_is_copied_first() {
    let clip = request(ClipEditorMode::TrimOriginal);
    let attempts = run_video_export(&clip, "/i.webm", "/t.webm", None);
    assert_eq!(attempts.len(), 2);
    assert_eq!(
        attempts[0].args,
        vec![
            "-y", "-hide_banner", "-loglevel", "error", "-ss", "8.000", "-to", "19.000", "-i",
            "/i.webm", "-map", "0:v:0", "-map", "0:a?", "-c", "copy", "-avoid_negative_ts",
            "make_zero", "/t.webm",
        ]
    );
    assert!(attempts[1].args.contains(&"libvpx-vp9".to_owned()));
    assert!(attempts[1].args.contains(&"10000k".to_owned()));
    let failed = FinishedRun { success: false, stderr: b"one\ntwo\n \n".to_vec() };
    assert!(matches!(
        export_attempt_ended(&attempts, 0, Some(failed)),
        ExportStep::Retry(1)
    ));
    let again = FinishedRun { success: false, stderr: b"one\ntwo\n \n".to_vec() };
    let ended = export_attempt_ended(&attempts, 1, Some(again));
    assert!(matches!(ended, ExportStep::GiveUp(error)
        if error.message() == "Encodage FFmpeg a echoue: two"));
    let good = FinishedRun { success: true, stderr: Vec::new() };
    assert!(matches!(
        export_attempt_ended(&attempts, 0, Some(good)),
        ExportStep::Written
    ));
}

#[test]
fn an_upright_clip_tries_its_texts_first() {
    let clip = request(ClipEditorMode::SocialVertical);
    let attempts = run_video_export(&clip, "/i.webm", "/t.mp4", Some("/f.ttf"));
    assert_eq!(attempts.len(), 2);
    assert!(attempts[0].args.iter().any(|arg| arg.contains("drawtext")));
    assert!(!attempts[1].args.iter().any(|arg| arg.contains("drawtext")));
    let plain = run_video_export(&clip, "/i.webm", "/t.mp4", None);
    assert_eq!(plain.len(), 1);
    let filter = social_filter_with_text(&clip, "/f:1.ttf");
    assert!(filter.contains("fontfile='/f\\:1.ttf':text='Test':fontcolor=white:fontsize=58"));
    assert!(filter.contains("overlay=(W-w)/2:(H-h)/2+28,format=yuv420p,drawtext"));
    assert!(filter.ends_with("boxborderw=12[v]"));
    let youtube = run_video_export(
        &request(ClipEditorMode::YoutubeHorizontal),
        "/i.webm",
        "/t.mp4",
        None,
    );
    assert_eq!(youtube.len(), 1);
    assert!(youtube[0].args.contains(&"libx264".to_owned()));
}

#[test]
fn drawn_texts_are_escaped() {
    assert_eq!(escape_drawtext_value("a:b'c%d\\e\nf"), "a\\:b\\'c\\%d\\\\e f");
    let fonts = vec![
        FontFile { path: "/a".to_owned(), is_file: false },
        FontFile { path: "/b".to_owned(), is_file: true },
        FontFile { path: "/c".to_owned(), is_file: true },
    ];
    assert_eq!(find_drawtext_font(&fonts).as_deref(), Some("/b"));
}

#[test]
fn points_in_a_clip_are_written_in_seconds() {
    assert_eq!(format_seconds_arg(seconds(1.2345)), "1.234");
    assert_eq!(format_seconds_arg(seconds(1.2355)), format!("{:.3}", 1.2355_f64));
    assert_eq!(format_seconds_arg(seconds(0.0625)), format!("{:.3}", 0.0625_f64));
    assert_eq!(format_seconds_arg(seconds(-5.0)), "0.000");
    assert_eq!(format_time_label(seconds(3723.0)), "01-02-03");
    assert_eq!(format_time_label(seconds(63.5)), "01-04");
}

#[test]
fn names_of_clips_become_file_names() {
    assert_eq!(sanitize_file_stem("  Kill: F/A-18C  Early.v2__x"), "kill-fa-18c-early-v2_x");
    assert_eq!(sanitize_file_stem("◍"), "clip");
    assert_eq!(sanitize_file_stem(&"a".repeat(100)).len(), 80);
}

#[test]
fn a_clip_to_edit_is_a_video_with_something_in_it() {
    let full = Some(FoundFile { is_file: true, len: 3 });
    let empty = Some(FoundFile { is_file: true, len: 0 });
    assert!(validate_input_path("/a.MP4", full).is_ok());
    assert!(matches!(validate_input_path("/a.mp4", None), Err(EditorError::ClipMissing(_))));
    assert!(matches!(validate_input_path("/a.mp4", empty), Err(EditorError::ClipInvalid(_))));
    assert_eq!(
        validate_input_path("/a.avi", full).unwrap_err().message(),
        "Format video non pris en charge pour l'editeur: /a.avi"
    );
    assert_eq!(
        validate_non_empty_file("/t", "Miniature invalide", empty).unwrap_err().message(),
        "Miniature invalide: /t"
    );
    assert_eq!(
        run_command("Trim", None).unwrap_err().message(),
        "Impossible de lancer Trim"
    );
    assert_eq!(stderr_summary(b" \n"), "aucun detail fourni par FFmpeg");
    assert_eq!(stderr_summary(b"bad \xff byte\n\n"), "bad \u{fffd} byte");
    assert_eq!(thumbnail_args("/v", "/p").last().map(String::as_str), Some("/p"));
}

fn stream(kind: &str, duration: Option<Double>) -> FfprobeStream {
    FfprobeStream {
        codec_type: Some(kind.to_owned()),
        codec_name: None,
        width: Some(1920),
        height: None,
        avg_frame_rate: None,
        r_frame_rate: Some("60/1".to_owned()),
        duration,
    }
}

#[test]
fn a_video_is_described_by_its_stream_and_its_file() {
    let format = Some(FfprobeFormat {
        format_name: None,
        duration: Some(seconds(5.0)),
        size: Some("77".to_owned()),
    });
    let streams = vec![stream("audio", Some(seconds(1.0))), stream("video", Some(seconds(f64::NAN)))];
    let info = probe_media_info("/a.webm", &streams, &format, Some(3)).unwrap();
    assert_eq!(info.duration_seconds, seconds(5.0));
    assert_eq!(info.width, 1920);
    assert_eq!(info.height, 0);
    assert_eq!(info.frame_rate.as_deref(), Some("60/1"));
    assert_eq!(info.codec, "unknown");
    assert_eq!(info.container, "webm");
    assert_eq!(info.size_bytes, 77);
    assert!(matches!(
        probe_media_info("/a.webm", &vec![stream("audio", Some(seconds(1.0)))], &format, None),
        Err(EditorError::NoVideoTrack(_))
    ));
    assert!(matches!(
        probe_media_info("/a.webm", &vec![stream("video", None)], &None, None),
        Err(EditorError::NoDuration(_))
    ));
}

#[test]
fn an_export_tells_its_stages() {
    let first = stage_progress(ExportStage::Preparing);
    assert_eq!((first.progress, first.active), (0, true));
    let last = stage_progress(ExportStage::Failed("x".to_owned()));
    assert_eq!(last.step, EditorExportProgressStep::Failed);
    assert_eq!(last.error.as_deref(), Some("x"));
    assert_eq!(
        stage_progress(ExportStage::Done("/o".to_owned())).output_path.as_deref(),
        Some("/o")
    );
}

#[test]
fn paths_are_opened_if_they_are_there() {
    assert_eq!(open_path("/x".to_owned(), true).unwrap(), "/x");
    assert_eq!(
        open_path("/x".to_owned(), false).unwrap_err().message(),
        "Chemin introuvable: /x"
    );
    assert_eq!(open_parent_folder("/x/y.mp4").unwrap(), "/x");
    assert!(matches!(open_parent_folder("/"), Err(EditorError::NoParent)));
}

#[test]
fn byte_ranges_lie_in_the_file() {
    assert_eq!(parse_byte_range("0-", 10), Some((0, 9)));
    assert_eq!(parse_byte_range("2-5", 10), Some((2, 5)));
    assert_eq!(parse_byte_range("2-50", 10), Some((2, 9)));
    assert_eq!(parse_byte_range("10-", 10), None);
    assert_eq!(parse_byte_range("5-2", 10), None);
    assert_eq!(parse_byte_range("x-2", 10), None);
    assert_eq!(parse_byte_range("-3", 4), Some((1, 3)));
    assert_eq!(parse_byte_range("0-", 0), None);
}

#[test]
fn requests_are_read() {
    assert!(matches!(handle_preview_request(b""), PreviewAsked::Nothing));
    assert!(matches!(
        handle_preview_request(b"POST /a.mp4 HTTP/1.1\r\n\r\n"),
        PreviewAsked::Refused("405 Method Not Allowed")
    ));
    assert!(matches!(
        handle_preview_request(b"GET /a.txt HTTP/1.1\r\n\r\n"),
        PreviewAsked::Refused("404 Not Found")
    ));
    assert!(matches!(
        handle_preview_request(b"GET /.mp4 HTTP/1.1\r\n\r\n"),
        PreviewAsked::Refused("404 Not Found")
    ));
    let asked = handle_preview_request(b"HEAD //a\xff.b.mp4 HTTP/1.1\r\nRange: bytes=1-2\r\n\r\n");
    assert!(matches!(asked, PreviewAsked::Clip { id, head_only: true, range }
        if id == "a\u{fffd}.b" && range.as_deref() == Some("1-2")));
}

#[test]
fn answers_name_what_they_send() {
    let part = preview_answer("/a.MP4", &Some("2-5".to_owned()), 10);
    assert_eq!((part.start, part.length), (2, 4));
    assert_eq!(
        part.head,
        "HTTP/1.1 206 Partial Content\r\nContent-Type: video/mp4\r\nAccept-Ranges: bytes\r\nContent-Range: bytes 2-5/10\r\nContent-Length: 4\r\nConnection: close\r\n\r\n"
    );
    let all = preview_answer("/a.webm", &Some("x".to_owned()), 10);
    assert_eq!(
        all.head,
        "HTTP/1.1 200 OK\r\nContent-Type: video/webm\r\nAccept-Ranges: bytes\r\nContent-Length: 10\r\nConnection: close\r\n\r\n"
    );
    assert_eq!(
        http_status("404 Not Found"),
        "HTTP/1.1 404 Not Found\r\nContent-Length: 0\r\nConnection: close\r\n\r\n"
    );
    assert_eq!(video_content_type("/a"), "video/webm");
    let mut remaining = 150_000;
    let mut chunks = 0;
    while remaining > 0 {
        remaining = after_chunk(remaining, next_chunk(remaining));
        chunks += 1;
    }
    assert_eq!(chunks, 3);
}

#[test]
fn clips_can_be_asked_for_under_their_address() {
    let mut server = ClipPreviewServer::new("http://127.0.0.1:9".to_owned());
    let url = server.url_for_path(Some("/v/a.MP4")).unwrap();
    let id = preview_clip_id("/v/a.MP4");
    assert_eq!(url, format!("http://127.0.0.1:9/{id}.mp4"));
    assert_eq!(id.len(), 16);
    assert_ne!(id, preview_clip_id("/v/b.MP4"));
    assert_eq!(server.path_of(&id).as_deref(), Some("/v/a.MP4"));
    assert_eq!(server.path_of("x"), None);
    assert_eq!(server.url_for_path(None), None);
    assert_eq!(clip_id_of_hash(255), "00000000000000ff");
    server.register(id.clone(), "/v/c.webm".to_owned());
    assert_eq!(server.path_of(&id).as_deref(), Some("/v/c.webm"));
    assert_eq!(server.clips.len(), 1);
}

fn entry(path: &str, seconds: i128) -> GalleryEntry {
    GalleryEntry {
        path: path.to_owned(),
        is_file: true,
        canonical: None,
        len: Some(10),
        modified: Some(SystemTime { nanos: seconds * 1_000_000_000 }),
        reason: None,
        duration_seconds: None,
        has_thumbnail: false,
        preview_url: None,
    }
}

#[test]
fn the_youngest_clips_come_first_and_none_twice() {
    let now = SystemTime { nanos: 100_000_000_000 };
    let mut same = entry("/c/./kill-a.mp4", 99);
    same.canonical = Some("/c/kill-a.mp4".to_owned());
    let mut unread = entry("/c/death.mp4", 1);
    unread.len = None;
    let mut named = entry("/c/x.webm", 90);
    named.reason = Some(ClipReason::Manual);
    named.duration_seconds = Some(12);
    named.has_thumbnail = true;
    let entries = vec![
        entry("/c/kill-a.mp4", 40),
        same,
        entry("/c/notes.txt", 99),
        unread,
        named,
        entry("/c/multi-kill.mp4", 40),
    ];
    let (clips, total) = scan_clips(&entries, now);
    let names: Vec<&str> = clips.iter().map(|clip| clip.file_name.as_str()).collect();
    assert_eq!(names, vec!["x.webm", "kill-a.mp4", "multi-kill.mp4"]);
    assert_eq!(total, 30);
    assert_eq!(clips[0].reason, ClipReason::Manual);
    assert_eq!(clips[0].thumbnail_path.as_deref(), Some("/c/x.jpg"));
    assert_eq!(clips[1].reason, ClipReason::TargetDestroyed);
    assert_eq!(clips[1].modified_secs_ago, 60);
}

#[test]
fn names_tell_reasons() {
    assert_eq!(clip_reason_from_name("multi-kill-1"), ClipReason::MultiKill);
    assert_eq!(clip_reason_from_name("base-1"), ClipReason::BaseDestroyed);
    assert_eq!(clip_reason_from_name("kill-1"), ClipReason::TargetDestroyed);
    assert_eq!(clip_reason_from_name("death"), ClipReason::PlayerDestroyed);
    assert_eq!(clip_reason_from_name("manual"), ClipReason::Manual);
    assert_eq!(clip_reason_from_name("Replay"), ClipReason::Unknown);
    assert!(is_supported_gallery_video("/a.WebM", true));
    assert!(!is_supported_gallery_video("/a.webm", false));
}

#[test]
fn no_directory_is_searched_twice() {
    let roots =
        gallery_scan_roots_for_base_dirs(&vec!["/c".to_owned(), "/c/".to_owned(), "/d".to_owned()]);
    assert_eq!(
        roots,
        vec!["/c", "/c/Edited", "/c/Social", "/d", "/d/Edited", "/d/Social"]
    );
    let config = AppConfig::default();
    let roots = gallery_scan_roots_for_config(&config, Some("/h")).unwrap();
    assert_eq!(roots[0], "/h/Videos/WarThunder Clips");
    assert!(gallery_scan_roots_for_config(&config, None).is_err());
}

fn gsr(mode: GsrMode) -> GsrStatus {
    GsrStatus {
        available: true,
        mode: Some(mode),
        health: GsrHealth::Running,
        pid: Some(2),
        wrapper_pid: Some(1),
        recorder_pid: Some(2),
        signal_pid: Some(2),
        recorder_command_line: None,
        stderr_handling: "null".to_owned(),
        save_queue_len: 0,
        total_saves_requested: 3,
        total_saves_completed: 2,
        total_saves_failed: 1,
        target: "eDP".to_owned(),
        target_valid: true,
        monitors: vec!["eDP".to_owned()],
        capture_strategy: "auto".to_owned(),
        session_type: "x11".to_owned(),
        target_reason: "r".to_owned(),
        command_line: None,
        output_dir: "/o".to_owned(),
        output_prefix: "/o/wtclip".to_owned(),
        last_output: None,
        last_error: None,
        restart_count: 0,
        replay_seconds: 25,
        fps: 60,
        quality: "high".to_owned(),
        bitrate_mode: "cbr".to_owned(),
        frame_rate_mode: "cfr".to_owned(),
        keyframe_interval_seconds: Single { bits: 1.0_f32.to_bits() },
        restart_replay_on_save: false,
        video_bitrate_kbps: 20_000,
        effective_q_argument: "20000".to_owned(),
        codec: "h264".to_owned(),
        container: "mp4".to_owned(),
        encoder: "gpu".to_owned(),
    }
}

#[test]
fn the_status_follows_the_events() {
    let now = SystemTime::unix_epoch().plus(Duration::from_millis(86_400_000 + 3_723_004));
    let mut status = RuntimeStatus::from_config(&AppConfig::default(), Some("/h"));
    assert_eq!(
        status.gsr_output_prefix.as_deref(),
        Some("/h/Videos/WarThunder Clips/GSR/wtclip")
    );
    status.update_runtime_status(&AppEvent::WtConnected, now);
    assert!(status.wt_connected);
    status.update_runtime_status(&AppEvent::ClipFailed { message: "m".to_owned() }, now);
    assert_eq!(status.last_error.as_deref(), Some("m"));
    let saved = AppEvent::ClipSaved {
        path: "/a".to_owned(),
        reason: ClipReason::Manual,
        duration_seconds: 1,
        size_bytes: 1,
    };
    status.update_runtime_status(&saved, now);
    assert_eq!(status.clips_saved, 1);
    assert_eq!(status.last_error, None);
    status.update_runtime_status(&AppEvent::GsrStatusChanged { status: gsr(GsrMode::Flatpak) }, now);
    assert_eq!(status.gsr_mode.as_deref(), Some("flatpak"));
    assert_eq!(status.gsr_total_saves_failed, 1);
    for count in 0..30 {
        let kill = AppEvent::KillDetected {
            reason: ClipReason::TargetDestroyed,
            vehicle: None,
            target: None,
            description: format!("kill {count}"),
        };
        status.update_runtime_status(&kill, now);
    }
    assert_eq!(status.recent_events.len(), 24);
    assert_eq!(status.recent_events[0].description, "kill 29");
    assert_eq!(status.recent_events[0].at, "01:02:03");
    assert!(status.recent_events[0].id.starts_with("kill-90123004-"));
    assert_ne!(status.recent_events[0].id, status.recent_events[1].id);
    assert_eq!(runtime_event_time(SystemTime { nanos: -1 }), "00:00:00");
    assert_eq!(event_id_with("kill", now, "u"), "kill-90123004-u");
}

#[test]
fn events_are_passed_on_under_their_names() {
    assert_eq!(emit_app_event(&AppEvent::WtConnected), vec!["wt-connected", "app-event"]);
    let failed = AppEvent::ClipFailed { message: "m".to_owned() };
    assert_eq!(tauri_event_name(&failed), "clip-failed");
    let clip = saved_clip("/v/a.mp4", ClipReason::Manual, 3, 4, None);
    assert_eq!(clip.file_name, "a.mp4");
    assert_eq!(clip.modified_secs_ago, 0);
}

#[test]
fn commands_become_actions() {
    let deleted = command_action(UiCommand::DeleteClip("/v/a.mp4".to_owned()));
    assert!(matches!(deleted, CommandAction::Delete { files, .. }
        if files == vec!["/v/a.mp4", "/v/a.json", "/v/a.jpg"]));
    assert!(matches!(command_action(UiCommand::LoadClips), CommandAction::LoadClips));
    assert!(matches!(command_action(UiCommand::RestartGpuRecorder), CommandAction::Restart));
    let message = |event: AppEvent| match event {
        AppEvent::ClipFailed { message } => message,
        _ => panic!("expected a message"),
    };
    assert_eq!(
        message(config_saved(false, Ok("x".to_owned()))),
        "La configuration n'a pas pu être sauvegardée"
    );
    assert_eq!(message(config_saved(true, Ok("x".to_owned()))), "x");
    assert_eq!(
        message(config_saved(true, Err("gone".to_owned()))),
        "Configuration sauvegardée; backend: gone"
    );
    assert_eq!(message(scan_finished(Err("e".to_owned()))), "Scan clips: e");
    assert_eq!(message(backend_failure(BackendPart::AutoClip, "e")), "Auto clip: e");
    let quality = resolve_configured_video_quality(
        wt_clipper::capture::quality::QualityPreset::Low,
        50,
        9_000,
    )
    .unwrap();
    assert_eq!((quality.fps, quality.encoder_cpu_used), (50, 6));
}

#[test]
fn updates_are_installed_where_there_are_any() {
    assert!(matches!(check_for_updates(None), UpdateStep::Tell(result) if !result.available));
    let found = FoundUpdate { version: "9".to_owned(), notes: None };
    assert!(matches!(check_for_updates(Some(found)), UpdateStep::Install(update)
        if update.version == "9"));
}

#[test]
fn programs_are_asked_about_a_clip() {
    assert_eq!(
        media_probe_args("/v.mp4"),
        vec![
            "-v",
            "error",
            "-show_entries",
            "format=duration,size,format_name:stream=codec_type,codec_name,width,height,avg_frame_rate,r_frame_rate,duration",
            "-of",
            "json",
            "/v.mp4",
        ]
    );
    assert_eq!(
        font_paths("/program"),
        vec![
            "/program/assets/fonts/Inter-Regular.ttf",
            "/usr/share/fonts/truetype/dejavu/DejaVuSans.ttf",
            "/usr/share/fonts/truetype/liberation2/LiberationSans-Regular.ttf",
        ]
    );
}
