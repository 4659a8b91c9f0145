use wt_clipper::config::GpuScreenRecorderMode;
use wt_clipper::doctor::{
    apply_gsr_mode_warning, check_command, check_free_space, check_writable_directory_path,
    first_useful_line, flatpak_gsr_info_is_installed, format_check_text, format_report_text,
    format_system_requirements_report, gsr_flatpak_binary_reachable, install_commands,
    report_call, requirement_call, requirement_from_probe, run_command_probe, summary_for_checks,
    AskedProgram, CommandProbe,
    DiagnosticLogsSummary, DirectoryFacts, DirectoryWritableStatus, DoctorCheck, DoctorReport,
    DoctorStatus, RequirementCheck, RequirementStatus, ProbeOutcome, RunOutcome, SystemRequirementsReport,
};

#[test]
fn formats_check_with_hint() {
    let check = DoctorCheck::warn(
        "War Thunder localhost",
        "unreachable",
        Some("start War Thunder and enter a battle"),
    );

    assert_eq!(
        format_check_text(&check),
        "[WARN] War Thunder localhost: unreachable\n       hint: start War Thunder and enter a battle\n"
    );
}

#[test]
fn parses_first_useful_command_output_line() {
    assert_eq!(
        first_useful_line("\nffmpeg version 6.1 Copyright\nmore"),
        Some("ffmpeg version 6.1 Copyright".to_owned())
    );
}

#[test]
fn maps_missing_probe_to_missing_requirement() {
    let check = requirement_from_probe(
        "ffmpeg",
        "FFmpeg",
        CommandProbe {
            status: RequirementStatus::Missing,
            summary: "ffmpeg not found".to_owned(),
            details: Some("not found".to_owned()),
            version: None,
            path: None,
            output: None,
        },
        "FFmpeg is available.",
        "FFmpeg is not installed.",
        Some("sudo apt install ffmpeg".to_owned()),
    );
    assert_eq!(check.status, RequirementStatus::Missing);
    assert_eq!(check.command.as_deref(), Some("sudo apt install ffmpeg"));
}

#[test]
fn flatpak_mode_warns_when_only_native_gsr_is_installed() {
    let mut flatpak = RequirementCheck::missing(
        "gsr_flatpak",
        "GPU Screen Recorder Flatpak",
        "missing",
        None,
        None,
        None,
    );
    let mut native = RequirementCheck::ok(
        "gsr_native",
        "GPU Screen Recorder Native",
        "ok",
        None,
        None,
        None,
        Some("/usr/bin/gpu-screen-recorder".to_owned()),
    );

    apply_gsr_mode_warning(&GpuScreenRecorderMode::Flatpak, &mut flatpak, &mut native);

    assert_eq!(flatpak.status, RequirementStatus::Warning);
    assert!(flatpak.summary.contains("configured to use Flatpak"));
    assert_eq!(native.status, RequirementStatus::Passed);
}

#[test]
fn native_mode_warns_when_only_flatpak_gsr_is_installed() {
    let mut flatpak = RequirementCheck::ok(
        "gsr_flatpak",
        "GPU Screen Recorder Flatpak",
        "ok",
        None,
        None,
        None,
        None,
    );
    let mut native = RequirementCheck::missing(
        "gsr_native",
        "GPU Screen Recorder Native",
        "missing",
        None,
        None,
        None,
    );

    apply_gsr_mode_warning(&GpuScreenRecorderMode::Native, &mut flatpak, &mut native);

    assert_eq!(native.status, RequirementStatus::Warning);
    assert!(native.summary.contains("configured to use native"));
    assert_eq!(flatpak.status, RequirementStatus::Passed);
}

#[test]
fn missing_both_gsr_modes_is_error() {
    let mut flatpak = RequirementCheck::missing(
        "gsr_flatpak",
        "GPU Screen Recorder Flatpak",
        "missing",
        None,
        None,
        None,
    );
    let mut native = RequirementCheck::missing(
        "gsr_native",
        "GPU Screen Recorder Native",
        "missing",
        None,
        None,
        None,
    );

    apply_gsr_mode_warning(&GpuScreenRecorderMode::Flatpak, &mut flatpak, &mut native);

    assert_eq!(flatpak.status, RequirementStatus::Error);
    assert_eq!(native.status, RequirementStatus::Error);
    assert_eq!(flatpak.summary, "GPU Screen Recorder is missing.");
}

#[test]
fn flatpak_gsr_usage_output_counts_as_available() {
    let probe = CommandProbe {
        status: RequirementStatus::Error,
        summary: "command exited with status 1".to_owned(),
        details: Some(
            "usage: gpu-screen-recorder -w <window_id|monitor|focused|portal|region|v4l2_device_path>"
                .to_owned(),
        ),
        version: None,
        path: None,
        output: Some(
            "usage: gpu-screen-recorder -w <window_id|monitor|focused|portal|region|v4l2_device_path>"
                .to_owned(),
        ),
    };

    assert!(gsr_flatpak_binary_reachable(&probe));
}

#[test]
fn flatpak_gsr_info_success_counts_as_installed() {
    let info = CommandProbe {
        status: RequirementStatus::Passed,
        summary: "available".to_owned(),
        details: Some("Name: com.dec05eba.gpu_screen_recorder".to_owned()),
        version: None,
        path: None,
        output: Some("Name: com.dec05eba.gpu_screen_recorder".to_owned()),
    };

    assert!(flatpak_gsr_info_is_installed(&info));
}

#[test]
fn flatpak_mode_does_not_report_missing_when_flatpak_gsr_is_installed() {
    let mut flatpak = RequirementCheck::warning(
        "gsr_flatpak",
        "GPU Screen Recorder Flatpak",
        "GSR Flatpak is installed, but the recorder command could not be verified.",
        Some("diagnostics.summary.gsrFlatpakCommandFailed"),
        None,
        None,
    );
    let mut native = RequirementCheck::missing(
        "gsr_native",
        "GPU Screen Recorder Native",
        "missing",
        None,
        None,
        None,
    );

    apply_gsr_mode_warning(&GpuScreenRecorderMode::Flatpak, &mut flatpak, &mut native);

    assert_ne!(flatpak.status, RequirementStatus::Error);
    assert_ne!(flatpak.summary, "GPU Screen Recorder is missing.");
}

#[test]
fn war_thunder_closed_is_warning_not_error() {
    let check = RequirementCheck::warning(
        "war_thunder_api",
        "War Thunder API",
        "Waiting for War Thunder. This is normal if the game is closed.",
        Some("diagnostics.summary.waitingForWarThunder"),
        Some("GET http://127.0.0.1:8111/state failed".to_owned()),
        None,
    );

    assert_eq!(check.status, RequirementStatus::Warning);
}

#[test]
fn diagnostics_report_uses_current_state() {
    let mut report = sample_requirements_report();
    report.war_thunder_api = RequirementCheck::ok(
        "war_thunder_api",
        "War Thunder API",
        "War Thunder local API is reachable.",
        Some("diagnostics.summary.warThunderReachable"),
        Some("HTTP 200 OK (runtime connected)".to_owned()),
        None,
        None,
    );

    let text = format_system_requirements_report(&report);

    assert!(text.contains("War Thunder API: OK"));
    assert!(text.contains("HTTP 200 OK"));
}

#[test]
fn diagnostics_report_contains_capture_mode_and_strategy() {
    let report = sample_requirements_report();
    let text = format_system_requirements_report(&report);
    assert!(text.contains("Capture mode: flatpak"));
    assert!(text.contains("Capture strategy: auto"));
}

#[test]
fn diagnostics_report_contains_ffmpeg_and_ffprobe() {
    let report = sample_requirements_report();
    let text = format_system_requirements_report(&report);
    assert!(text.contains("FFmpeg: OK"));
    assert!(text.contains("FFprobe: OK"));
}

#[test]
fn diagnostics_report_does_not_include_sensitive_env() {
    let report = sample_requirements_report();
    let text = format_system_requirements_report(&report);
    assert!(!text.contains("GITHUB_TOKEN"));
    assert!(!text.contains("WT_CLIPPER_UPDATE"));
    assert!(!text.contains("SECRET"));
}

#[test]
fn output_dir_writable_check_with_tempdir() {
    let facts = DirectoryFacts {
        is_there: true,
        parent_is_there: true,
        write_error: None,
    };
    let result = check_writable_directory_path("/tmp/wt-clipper-doctor-test", &facts);
    assert!(matches!(result, DirectoryWritableStatus::Writable(_)));
}

#[test]
fn install_commands_non_empty() {
    let commands = install_commands();
    assert!(!commands.install_gsr_flatpak.is_empty());
    assert!(!commands.install_ffmpeg_apt.is_empty());
    assert!(!commands.install_ffmpeg_pacman.is_empty());
    assert!(!commands.install_ffmpeg_dnf.is_empty());
    assert!(!commands.install_flatpak_apt.is_empty());
}

fn sample_requirements_report() -> SystemRequirementsReport {
    let ok = |id: &str, label: &str| {
        RequirementCheck::ok(
            id,
            label,
            "available",
            None,
            None,
            None,
            Some("/usr/bin/tool".to_owned()),
        )
    };
    SystemRequirementsReport {
        app_version: "0.2.3".to_owned(),
        os: Some("linux".to_owned()),
        session_type: Some("wayland".to_owned()),
        war_thunder_api: RequirementCheck::warning(
            "war_thunder_api",
            "War Thunder API",
            "Waiting for War Thunder. This is normal if the game is closed.",
            Some("diagnostics.summary.waitingForWarThunder"),
            None,
            None,
        ),
        flatpak: ok("flatpak", "Flatpak"),
        gsr_flatpak: ok("gsr_flatpak", "GPU Screen Recorder Flatpak"),
        gsr_native: RequirementCheck::missing(
            "gsr_native",
            "GPU Screen Recorder Native",
            "missing",
            None,
            None,
            None,
        ),
        ffmpeg: ok("ffmpeg", "FFmpeg"),
        ffprobe: ok("ffprobe", "FFprobe"),
        capture_mode: "flatpak".to_owned(),
        capture_strategy: "auto".to_owned(),
        configured_target: "eDP".to_owned(),
        effective_target: Some("portal".to_owned()),
        target_reason: Some("wayland auto".to_owned()),
        output_dir: ok("output_dir", "Output directory"),
        config_dir: ok("config_dir", "Config directory"),
        install_commands: install_commands(),
        logs: DiagnosticLogsSummary {
            recent_logs: vec!["No persistent log file configured yet.".to_owned()],
            logs_path: None,
            can_copy_logs: true,
        },
    }
}

#[test]
fn summary_reports_warnings() {
    let checks = vec![
        DoctorCheck::ok("Session", "Wayland"),
        DoctorCheck::warn("War Thunder localhost", "unreachable", Some("not fatal")),
    ];

    assert_eq!(
        summary_for_checks(&checks),
        "Doctor completed with warnings."
    );
}

#[test]
fn summary_reports_errors() {
    let checks = vec![
        DoctorCheck::ok("Session", "Wayland"),
        DoctorCheck::error(
            "GSR Flatpak command",
            "missing",
            Some("install Flatpak GSR"),
        ),
    ];

    assert_eq!(summary_for_checks(&checks), "Doctor completed with errors.");
}

#[test]
fn summary_reports_success() {
    let checks = vec![DoctorCheck::ok("GSR Flatpak command", "ready")];

    assert_eq!(
        summary_for_checks(&checks),
        "Doctor completed successfully."
    );
}

#[test]
fn formats_report_text() {
    let report = DoctorReport {
        checks: vec![DoctorCheck::ok("GSR Flatpak command", "ready")],
        summary: "Doctor completed successfully.".to_owned(),
    };

    assert_eq!(
        format_report_text(&report),
        "WT Clipper Doctor\n\n[OK] GSR Flatpak command: ready\n\nSummary:\nDoctor completed successfully.\n"
    );
}

#[test]
fn directories_that_cannot_be_written_are_told() {
    let denied = DirectoryFacts {
        is_there: true,
        parent_is_there: true,
        write_error: Some("read-only".to_owned()),
    };
    assert!(matches!(
        check_writable_directory_path("/d", &denied),
        DirectoryWritableStatus::NotWritable(dir, error) if dir == "/d" && error == "read-only"
    ));
    let missing = DirectoryFacts {
        is_there: false,
        parent_is_there: true,
        write_error: None,
    };
    assert!(matches!(
        check_writable_directory_path("/d/e", &missing),
        DirectoryWritableStatus::MissingParentWritable(_)
    ));
    let lost = DirectoryFacts {
        is_there: false,
        parent_is_there: false,
        write_error: None,
    };
    assert!(matches!(
        check_writable_directory_path("/d/e", &lost),
        DirectoryWritableStatus::NotWritable(_, error)
            if error == "parent directory does not exist"
    ));
}

#[test]
fn commands_are_judged_by_how_they_ran() {
    assert_eq!(
        check_command("Flatpak", "flatpak", &RunOutcome::Succeeded).status,
        DoctorStatus::Passed
    );
    let exited = check_command("Flatpak", "flatpak", &RunOutcome::Exited("exit status: 1".to_owned()));
    assert_eq!(exited.status, DoctorStatus::Warn);
    assert_eq!(exited.message, "command exited with status exit status: 1");
}

#[test]
fn free_space_has_two_limits() {
    let gib: u64 = 1_073_741_824;
    assert_eq!(check_free_space("/d", gib - 1, 0).status, DoctorStatus::Error);
    assert_eq!(check_free_space("/d", 2 * gib, 3 * gib).status, DoctorStatus::Error);
    assert_eq!(check_free_space("/d", 2 * gib, gib).status, DoctorStatus::Warn);
    assert_eq!(check_free_space("/d", 6 * gib, gib).status, DoctorStatus::Passed);
}

#[test]
fn probes_tell_what_a_command_printed() {
    let missing = run_command_probe("ffmpeg", ProbeOutcome::NotFound("os error 2".to_owned()), None);
    assert_eq!(missing.status, RequirementStatus::Missing);
    assert_eq!(missing.summary, "ffmpeg not found");
    let ran = run_command_probe(
        "ffmpeg",
        ProbeOutcome::Ran {
            success: true,
            status: "exit status: 0".to_owned(),
            stdout: b"ffmpeg version \xff6\n".to_vec(),
            stderr: Vec::new(),
        },
        Some("/usr/bin/ffmpeg".to_owned()),
    );
    assert_eq!(ran.status, RequirementStatus::Passed);
    assert_eq!(ran.path.as_deref(), Some("/usr/bin/ffmpeg"));
    assert_eq!(ran.output.as_deref(), Some("ffmpeg version \u{fffd}6"));
}

#[test]
fn the_diagnosis_asks_programs() {
    let help = report_call(AskedProgram::GsrFlatpakHelp);
    assert_eq!(help.program, "flatpak");
    assert_eq!(
        help.args,
        vec![
            "run",
            "--command=gpu-screen-recorder",
            "com.dec05eba.gpu_screen_recorder",
            "--help",
        ]
    );
    assert_eq!(report_call(AskedProgram::Ffmpeg).args, vec!["--version"]);
    assert_eq!(requirement_call(AskedProgram::Ffmpeg).args, vec!["-version"]);
    assert_eq!(requirement_call(AskedProgram::Flatpak).args, vec!["--version"]);
    assert_eq!(
        requirement_call(AskedProgram::GsrFlatpakApp).args,
        vec!["info", "com.dec05eba.gpu_screen_recorder"]
    );
    assert_eq!(requirement_call(AskedProgram::GsrNative).program, "gpu-screen-recorder");
}
