//! The events that the desktop application passes on, and what it answers to
//! the commands of the user.

use vstd::prelude::*;
use vstd::string::*;
use crate::app::events::{AppEvent, ClipInfo, UiCommand};
use crate::app::clip_types::ClipReason;
use crate::capture::quality::{QualityError, QualityPreset, VideoQuality};
use crate::config;
use crate::config::{AppConfig, HomeNotSet};
use crate::desktop::gallery;
use crate::path;
use crate::text;

verus! {

/// The name under which an event is passed on.
pub open spec fn event_name(event: AppEvent) -> Seq<char> {
    match event {
        AppEvent::WtConnected => "wt-connected"@,
        AppEvent::WtDisconnected => "wt-disconnected"@,
        AppEvent::KillDetected { .. } => "kill-detected"@,
        AppEvent::ClipSaved { .. } => "clip-saved"@,
        AppEvent::ClipStatusChanged { .. } => "clip-status-changed"@,
        AppEvent::ClipFailed { .. } => "clip-failed"@,
        AppEvent::GsrStatusChanged { .. } => "gsr-status-changed"@,
        AppEvent::DiskUsage { .. } => "disk-usage"@,
        AppEvent::ClipsLoaded { .. } => "clips-loaded"@,
        AppEvent::DiagnosticsReady(_) => "diagnostics-ready"@,
    }
}

pub fn tauri_event_name(event: &AppEvent) -> (r: &'static str)
    ensures
        r@ == event_name(*event),
{
    match event {
        AppEvent::WtConnected => "wt-connected",
        AppEvent::WtDisconnected => "wt-disconnected",
        AppEvent::KillDetected { .. } => "kill-detected",
        AppEvent::ClipSaved { .. } => "clip-saved",
        AppEvent::ClipStatusChanged { .. } => "clip-status-changed",
        AppEvent::ClipFailed { .. } => "clip-failed",
        AppEvent::GsrStatusChanged { .. } => "gsr-status-changed",
        AppEvent::DiskUsage { .. } => "disk-usage",
        AppEvent::ClipsLoaded { .. } => "clips-loaded",
        AppEvent::DiagnosticsReady(_) => "diagnostics-ready",
    }
}

/// All names under which an event is passed on, in order: a change of a clip's
/// status under an older spelling first, then its own name, and last the name
/// that all events share.
pub open spec fn all_names(event: AppEvent) -> Seq<Seq<char>> {
    if event is ClipStatusChanged {
        seq!["clip_status_changed"@, event_name(event), "app-event"@]
    } else {
        seq![event_name(event), "app-event"@]
    }
}

pub fn emit_app_event(event: &AppEvent) -> (r: Vec<&'static str>)
    ensures
        text::strs(r@) == all_names(*event),
{
    let mut names: Vec<&'static str> = Vec::new();
    if let AppEvent::ClipStatusChanged { .. } = event {
        names.push("clip_status_changed");
    }
    names.push(tauri_event_name(event));
    names.push("app-event");
    assert(text::strs(names@) =~= all_names(*event));
    names
}

/// What is passed on of a clip that has just been saved.
pub fn saved_clip(
    p: &str,
    reason: ClipReason,
    duration_seconds: u64,
    size_bytes: u64,
    preview_url: Option<String>,
) -> (r: ClipInfo)
    ensures
        r.path@ == p@,
        r.thumbnail_path is None,
        r.preview_url == preview_url,
        r.file_name@ == (match path::file_name_of(p@) {
            Some(name) => name,
            None => seq![],
        }),
        r.reason == reason,
        r.duration_seconds == duration_seconds,
        r.size_bytes == size_bytes,
        r.modified_secs_ago == 0,
{
    ClipInfo {
        path: p.to_owned(),
        thumbnail_path: None,
        preview_url,
        file_name: match path::file_name(p) {
            Some(name) => name,
            None => String::new(),
        },
        reason,
        size_bytes,
        duration_seconds,
        modified_secs_ago: 0,
    }
}

/// What part of the program failed to run.
#[derive(Clone, Copy, Debug, PartialEq, Eq, Structural)]
pub enum BackendPart {
    Runtime,
    OutputDir,
    AutoClip,
    ManualClip,
    Restart,
    Scan,
}

impl BackendPart {
    pub open spec fn label_text(self) -> Seq<char> {
        match self {
            BackendPart::Runtime => "Tokio runtime: "@,
            BackendPart::OutputDir => "Output dir: "@,
            BackendPart::AutoClip => "Auto clip: "@,
            BackendPart::ManualClip => "Clip manuel: "@,
            BackendPart::Restart => "Redémarrage buffer: "@,
            BackendPart::Scan => "Scan clips: "@,
        }
    }
}

/// A part of the program failed.
pub fn backend_failure(part: BackendPart, error: &str) -> (r: AppEvent)
    ensures
        r.is_failure(part.label_text() + error@),
{
    let label: &str = match part {
        BackendPart::Runtime => "Tokio runtime: ",
        BackendPart::OutputDir => "Output dir: ",
        BackendPart::AutoClip => "Auto clip: ",
        BackendPart::ManualClip => "Clip manuel: ",
        BackendPart::Restart => "Redémarrage buffer: ",
        BackendPart::Scan => "Scan clips: ",
    };
    AppEvent::ClipFailed { message: text::join2(label, error) }
}

/// The clips have been looked for.
pub fn scan_finished(found: Result<(Vec<ClipInfo>, u64), String>) -> (r: AppEvent)
    ensures
        match found {
            Ok(scan) => r == (AppEvent::ClipsLoaded { clips: scan.0, total_bytes: scan.1 }),
            Err(error) => r.is_failure("Scan clips: "@ + error@),
        },
{
    match found {
        Ok((clips, total_bytes)) => AppEvent::ClipsLoaded { clips, total_bytes },
        Err(error) => backend_failure(BackendPart::Scan, error.as_str()),
    }
}

/// What a command asks the desktop application to do.
#[derive(Debug)]
pub enum CommandAction {
    /// Look for clips where the settings say.
    LoadClips,
    /// Diagnose the machine.
    Diagnose,
    /// Delete these files, tell so, and look for clips in the output directory.
    Delete { files: Vec<String>, told: AppEvent },
    /// Show the output directory.
    OpenFolder,
    /// Save the settings and hand them on.
    SaveConfig(AppConfig),
    /// Have the recorder save a clip.
    SaveManual,
    /// Have the recorder start again.
    Restart,
}

pub fn command_action(command: UiCommand) -> (r: CommandAction)
    ensures
        match command {
            UiCommand::LoadClips => r is LoadClips,
            UiCommand::RunDiagnostics => r is Diagnose,
            UiCommand::DeleteClip(p) => r matches CommandAction::Delete { files, told }
                && text::texts(files@) == seq![
                p@,
                path::with_extension_of(p@, "json"@),
                path::with_extension_of(p@, "jpg"@),
            ] && told.is_failure("Clip supprimé"@),
            UiCommand::OpenOutputFolder => r is OpenFolder,
            UiCommand::UpdateConfig(config) => r == CommandAction::SaveConfig(config),
            UiCommand::SaveManualClip => r is SaveManual,
            UiCommand::RestartGpuRecorder => r is Restart,
        },
{
    match command {
        UiCommand::LoadClips => CommandAction::LoadClips,
        UiCommand::RunDiagnostics => CommandAction::Diagnose,
        UiCommand::DeleteClip(p) => CommandAction::Delete {
            files: gallery::delete_clip_files(p.as_str()),
            told: AppEvent::ClipFailed { message: "Clip supprimé".to_owned() },
        },
        UiCommand::OpenOutputFolder => CommandAction::OpenFolder,
        UiCommand::UpdateConfig(config) => CommandAction::SaveConfig(config),
        UiCommand::SaveManualClip => CommandAction::SaveManual,
        UiCommand::RestartGpuRecorder => CommandAction::Restart,
    }
}

/// What is told once settings were to be saved: the answer of the recorder, its
/// failure to answer, or that they could not be saved.
pub fn config_saved(saved: bool, answer: Result<String, String>) -> (r: AppEvent)
    ensures
        r.is_failure(
            if !saved {
                "La configuration n'a pas pu être sauvegardée"@
            } else {
                match answer {
                    Ok(message) => message@,
                    Err(error) => "Configuration sauvegardée; backend: "@ + error@,
                }
            },
        ),
{
    let message: String = if !saved {
        "La configuration n'a pas pu être sauvegardée".to_owned()
    } else {
        match answer {
            Ok(message) => message,
            Err(error) => text::join2("Configuration sauvegardée; backend: ", error.as_str()),
        }
    };
    AppEvent::ClipFailed { message }
}

/// The directories of clips that the settings name: that of finished clips and
/// that of replays.
pub open spec fn configured_dirs(config: AppConfig, home: Option<Seq<char>>) -> Option<
    Seq<Seq<char>>,
> {
    match (
        config::tilde_expanded(config.library.output_dir@, home),
        config::tilde_expanded(config.capture.output_dir@, home),
    ) {
        (Some(library), Some(replays)) => Some(seq![library, replays]),
        _ => None,
    }
}

/// Where clips are looked for according to the settings.
pub fn gallery_scan_roots_for_config(config: &AppConfig, home: Option<&str>) -> (r: Result<
    Vec<String>,
    HomeNotSet,
>)
    ensures
        match configured_dirs(*config, text::opt_str(home)) {
            Some(dirs) => r matches Ok(roots) && text::texts(roots@) == gallery::scan_roots(dirs),
            None => r is Err,
        },
{
    let library = match config.library.output_dir_path(home) {
        Ok(dir) => dir,
        Err(error) => {
            return Err(error);
        },
    };
    let replays = match config.capture.output_dir_path(home) {
        Ok(dir) => dir,
        Err(error) => {
            return Err(error);
        },
    };
    let mut dirs: Vec<String> = Vec::new();
    dirs.push(library);
    dirs.push(replays);
    assert(text::texts(dirs@) =~= seq![library@, replays@]);
    Ok(gallery::gallery_scan_roots_for_base_dirs(&dirs))
}

/// The quality that the settings name: their frame rate and bit rate, with the
/// encoder's effort of the preset.
pub fn resolve_configured_video_quality(
    preset: QualityPreset,
    fps: u32,
    video_bitrate_kbps: u32,
) -> (r: Result<VideoQuality, QualityError>)
    ensures
        r == (VideoQuality {
            fps,
            video_bitrate_kbps,
            encoder_cpu_used: preset.quality().encoder_cpu_used,
        }).checked(),
{
    let base = preset.video_quality();
    VideoQuality::new(fps, video_bitrate_kbps, base.encoder_cpu_used)
}

/// Events of different kinds are passed on under different names, and every event
/// under the name that all share.
pub proof fn lemma_names_tell_events_apart(a: AppEvent, b: AppEvent)
    ensures
        event_name(a) == event_name(b) ==> {
            &&& a is WtConnected == b is WtConnected
            &&& a is WtDisconnected == b is WtDisconnected
            &&& a is KillDetected == b is KillDetected
            &&& a is ClipSaved == b is ClipSaved
            &&& a is ClipStatusChanged == b is ClipStatusChanged
            &&& a is ClipFailed == b is ClipFailed
            &&& a is GsrStatusChanged == b is GsrStatusChanged
            &&& a is DiskUsage == b is DiskUsage
            &&& a is ClipsLoaded == b is ClipsLoaded
            &&& a is DiagnosticsReady == b is DiagnosticsReady
        },
        all_names(a).contains(event_name(a)),
        all_names(a).last() == "app-event"@,
{
    reveal_strlit("wt-connected");
    reveal_strlit("wt-disconnected");
    reveal_strlit("kill-detected");
    reveal_strlit("clip-saved");
    reveal_strlit("clip-status-changed");
    reveal_strlit("clip-failed");
    reveal_strlit("gsr-status-changed");
    reveal_strlit("disk-usage");
    reveal_strlit("clips-loaded");
    reveal_strlit("diagnostics-ready");
    assert("wt-connected"@.len() == 12 && "wt-connected"@[0] == 'w');
    assert("wt-disconnected"@.len() == 15);
    assert("kill-detected"@.len() == 13);
    assert("clip-saved"@.len() == 10 && "clip-saved"@[0] == 'c');
    assert("clip-status-changed"@.len() == 19);
    assert("clip-failed"@.len() == 11);
    assert("gsr-status-changed"@.len() == 18);
    assert("disk-usage"@.len() == 10 && "disk-usage"@[0] == 'd');
    assert("clips-loaded"@.len() == 12 && "clips-loaded"@[0] == 'c');
    assert("diagnostics-ready"@.len() == 17);
    if a is ClipStatusChanged {
        assert(all_names(a)[1] == event_name(a));
    } else {
        assert(all_names(a)[0] == event_name(a));
    }
}

}
