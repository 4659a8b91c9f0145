//! What the program and its user interface tell each other.

use vstd::prelude::*;
use crate::app::clip_types::ClipReason;
use crate::capture::gpu_screen_recorder::GsrStatus;
use crate::config::AppConfig;
use crate::doctor::DoctorReport;
use crate::text;

verus! {

/// How far a clip has come.
#[derive(Clone, Copy, Debug, PartialEq, Eq, Structural)]
pub enum ClipStatus {
    Detected,
    Recording,
    Encoding,
    Saving,
    Ready,
    Failed,
}

#[derive(Debug)]
pub struct ClipStatusPayload {
    pub id: String,
    pub status: ClipStatus,
    pub reason: ClipReason,
    pub title: String,
    pub created_at: String,
    pub file_path: Option<String>,
    pub thumbnail_path: Option<String>,
    pub duration_seconds: Option<u64>,
    pub size_bytes: Option<u64>,
    pub progress: Option<u8>,
    pub error: Option<String>,
    pub exportable_at: Option<String>,
    pub can_export: bool,
    pub retryable: bool,
}

impl Clone for ClipStatusPayload {
    fn clone(&self) -> (r: Self)
        ensures
            r == *self,
    {
        ClipStatusPayload {
            id: self.id.clone(),
            status: self.status,
            reason: self.reason,
            title: self.title.clone(),
            created_at: self.created_at.clone(),
            file_path: text::clone_opt_text(&self.file_path),
            thumbnail_path: text::clone_opt_text(&self.thumbnail_path),
            duration_seconds: self.duration_seconds,
            size_bytes: self.size_bytes,
            progress: self.progress,
            error: text::clone_opt_text(&self.error),
            exportable_at: text::clone_opt_text(&self.exportable_at),
            can_export: self.can_export,
            retryable: self.retryable,
        }
    }
}

/// A status with its texts as sequences of characters.
pub ghost struct StatusView {
    pub id: Seq<char>,
    pub status: ClipStatus,
    pub reason: ClipReason,
    pub title: Seq<char>,
    pub created_at: Seq<char>,
    pub file_path: Option<Seq<char>>,
    pub thumbnail_path: Option<Seq<char>>,
    pub duration_seconds: Option<u64>,
    pub size_bytes: Option<u64>,
    pub progress: Option<u8>,
    pub error: Option<Seq<char>>,
    pub exportable_at: Option<Seq<char>>,
    pub can_export: bool,
    pub retryable: bool,
}

impl View for ClipStatusPayload {
    type V = StatusView;

    open spec fn view(&self) -> StatusView {
        StatusView {
            id: self.id@,
            status: self.status,
            reason: self.reason,
            title: self.title@,
            created_at: self.created_at@,
            file_path: text::opt_text(self.file_path),
            thumbnail_path: text::opt_text(self.thumbnail_path),
            duration_seconds: self.duration_seconds,
            size_bytes: self.size_bytes,
            progress: self.progress,
            error: text::opt_text(self.error),
            exportable_at: text::opt_text(self.exportable_at),
            can_export: self.can_export,
            retryable: self.retryable,
        }
    }
}

/// What the user interface is told.
#[derive(Debug)]
pub enum AppEvent {
    WtConnected,
    WtDisconnected,
    KillDetected {
        reason: ClipReason,
        vehicle: Option<String>,
        target: Option<String>,
        description: String,
    },
    ClipSaved { path: String, reason: ClipReason, duration_seconds: u64, size_bytes: u64 },
    ClipStatusChanged { payload: ClipStatusPayload },
    ClipFailed { message: String },
    GsrStatusChanged { status: GsrStatus },
    DiskUsage { used_bytes: u64 },
    ClipsLoaded { clips: Vec<ClipInfo>, total_bytes: u64 },
    DiagnosticsReady(DoctorReport),
}

impl AppEvent {
    pub open spec fn is_failure(self, said: Seq<char>) -> bool {
        self matches AppEvent::ClipFailed { message } && message@ == said
    }

    pub open spec fn is_status(self, view: StatusView) -> bool {
        self matches AppEvent::ClipStatusChanged { payload } && payload@ == view
    }

    pub open spec fn is_saved(
        self,
        at: Seq<char>,
        why: ClipReason,
        seconds: u64,
        bytes: u64,
    ) -> bool {
        self matches AppEvent::ClipSaved { path, reason, duration_seconds, size_bytes } && path@
            == at && reason == why && duration_seconds == seconds && size_bytes == bytes
    }

    pub open spec fn is_detected(
        self,
        why: ClipReason,
        with: Option<Seq<char>>,
        whom: Option<Seq<char>>,
        what: Seq<char>,
    ) -> bool {
        self matches AppEvent::KillDetected { reason, vehicle, target, description } && reason
            == why && text::opt_text(vehicle) == with && text::opt_text(target) == whom
            && description@ == what
    }
}

/// What the user interface asks for.
#[derive(Debug)]
pub enum UiCommand {
    SaveManualClip,
    DeleteClip(String),
    OpenOutputFolder,
    UpdateConfig(AppConfig),
    RestartGpuRecorder,
    LoadClips,
    RunDiagnostics,
}

/// A clip in the library.
#[derive(Debug)]
pub struct ClipInfo {
    pub path: String,
    pub thumbnail_path: Option<String>,
    pub preview_url: Option<String>,
    pub file_name: String,
    pub reason: ClipReason,
    pub size_bytes: u64,
    pub duration_seconds: u64,
    pub modified_secs_ago: u64,
}

/// A clip with its texts as sequences of characters.
pub ghost struct ClipView {
    pub path: Seq<char>,
    pub thumbnail_path: Option<Seq<char>>,
    pub preview_url: Option<Seq<char>>,
    pub file_name: Seq<char>,
    pub reason: ClipReason,
    pub size_bytes: u64,
    pub duration_seconds: u64,
    pub modified_secs_ago: u64,
}

impl View for ClipInfo {
    type V = ClipView;

    open spec fn view(&self) -> ClipView {
        ClipView {
            path: self.path@,
            thumbnail_path: text::opt_text(self.thumbnail_path),
            preview_url: text::opt_text(self.preview_url),
            file_name: self.file_name@,
            reason: self.reason,
            size_bytes: self.size_bytes,
            duration_seconds: self.duration_seconds,
            modified_secs_ago: self.modified_secs_ago,
        }
    }
}

impl Clone for ClipInfo {
    fn clone(&self) -> (r: Self)
        ensures
            r == *self,
    {
        ClipInfo {
            path: self.path.clone(),
            thumbnail_path: text::clone_opt_text(&self.thumbnail_path),
            preview_url: text::clone_opt_text(&self.preview_url),
            file_name: self.file_name.clone(),
            reason: self.reason,
            size_bytes: self.size_bytes,
            duration_seconds: self.duration_seconds,
            modified_secs_ago: self.modified_secs_ago,
        }
    }
}

}
