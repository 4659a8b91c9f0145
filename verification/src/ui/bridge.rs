//! What the window and the recording part of the program tell each other.
//! Spans of time are in thousandths of a second.

use vstd::prelude::*;
use crate::capture::buffer::ClipReason;
use crate::config::AppConfig;
use crate::doctor::DoctorReport;
use crate::text;

verus! {

#[derive(Clone, Copy, Debug, PartialEq, Eq, Structural)]
pub enum ClipStatus {
    Detected,
    Recording,
    Encoding,
    Saving,
    PendingExport,
    WaitingPostEvent,
    FreezingSegments,
    ReadyToExport,
    Exporting,
    Ready,
    Failed,
    Expired,
}

#[derive(Clone, Copy, Debug, PartialEq, Eq, Structural)]
pub enum ExportProgressStep {
    Preparing,
    Extracting,
    Assembling,
    Encoding,
    Thumbnail,
    Saving,
    Done,
    Failed,
}

#[derive(Debug)]
pub struct ExportProgressPayload {
    pub active: bool,
    pub total: usize,
    pub completed: usize,
    pub failed: usize,
    pub current_clip_id: Option<String>,
    pub current_clip_title: Option<String>,
    pub current_step: ExportProgressStep,
    pub progress: u8,
    pub message: String,
}

#[derive(Debug)]
pub struct ClipStatusPayload {
    pub id: String,
    pub status: ClipStatus,
    pub reason: ClipReason,
    pub title: String,
    pub created_at: String,
    pub file_path: Option<String>,
    pub thumbnail_path: Option<String>,
    pub duration_seconds: Option<u64>,
    pub size_bytes: Option<u64>,
    pub progress: Option<u8>,
    pub error: Option<String>,
}

#[allow(inconsistent_fields)]
#[derive(Debug)]
pub enum AppEvent {
    WtConnected,
    WtDisconnected,
    KillDetected {
        reason: ClipReason,
        vehicle: Option<String>,
        target: Option<String>,
        description: String,
    },
    ClipSaved { path: String, reason: ClipReason, duration_seconds: u64, size_bytes: u64 },
    ClipStatusChanged { payload: ClipStatusPayload },
    ExportProgressChanged { payload: ExportProgressPayload },
    ClipFailed { message: String },
    BufferProgress { filled_millis: u128, total_millis: u128 },
    DiskUsage { used_bytes: u64 },
    ClipsLoaded { clips: Vec<ClipInfo>, total_bytes: u64 },
    DiagnosticsReady(DoctorReport),
}

#[derive(Debug)]
pub enum UiCommand {
    SaveManualClip,
    DeleteClip(String),
    OpenOutputFolder,
    UpdateConfig(AppConfig),
    RestartBuffer,
    LoadClips,
    RunDiagnostics,
}

#[derive(Debug)]
pub struct ClipInfo {
    pub path: String,
    pub thumbnail_path: Option<String>,
    pub preview_url: Option<String>,
    pub file_name: String,
    pub reason: ClipReason,
    pub size_bytes: u64,
    pub duration_seconds: u64,
    pub modified_secs_ago: u64,
}

impl Clone for ClipInfo {
    fn clone(&self) -> (r: Self)
        ensures
            r == *self,
    {
        ClipInfo {
            path: self.path.clone(),
            thumbnail_path: text::clone_opt_text(&self.thumbnail_path),
            preview_url: text::clone_opt_text(&self.preview_url),
            file_name: self.file_name.clone(),
            reason: self.reason,
            size_bytes: self.size_bytes,
            duration_seconds: self.duration_seconds,
            modified_secs_ago: self.modified_secs_ago,
        }
    }
}

}
