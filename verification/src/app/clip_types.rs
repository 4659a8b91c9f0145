//! What a clip is about.

use vstd::prelude::*;
use crate::games::event::GameEvent;
use crate::time::SystemTime;

verus! {

/// Why a clip is made.
#[derive(Clone, Copy, Debug, PartialEq, Eq, Structural)]
pub enum ClipReason {
    TargetDestroyed,
    BaseDestroyed,
    PlayerDestroyed,
    MultiKill,
    Manual,
    Unknown,
}

impl ClipReason {
    pub open spec fn slug_text(self) -> Seq<char> {
        match self {
            ClipReason::TargetDestroyed => "target-destroyed"@,
            ClipReason::BaseDestroyed => "base-destroyed"@,
            ClipReason::PlayerDestroyed => "player-destroyed"@,
            ClipReason::MultiKill => "multi-kill"@,
            ClipReason::Manual => "manual"@,
            ClipReason::Unknown => "unknown"@,
        }
    }

    /// The reason as part of a name.
    pub fn slug(self) -> (r: &'static str)
        ensures
            r@ == self.slug_text(),
    {
        match self {
            ClipReason::TargetDestroyed => "target-destroyed",
            ClipReason::BaseDestroyed => "base-destroyed",
            ClipReason::PlayerDestroyed => "player-destroyed",
            ClipReason::MultiKill => "multi-kill",
            ClipReason::Manual => "manual",
            ClipReason::Unknown => "unknown",
        }
    }
}

/// What is known of a clip when it is saved.
#[derive(Debug)]
pub struct ClipContext {
    pub reason: ClipReason,
    pub event: Option<GameEvent>,
    pub events: Vec<GameEvent>,
    pub player_name: Option<String>,
    pub pending_clip_id: Option<String>,
    pub pending_dedupe_key: Option<String>,
    pub duration_seconds: u64,
    pub post_event_seconds: u64,
    pub first_event_time: Option<SystemTime>,
    pub last_event_time: Option<SystemTime>,
}

/// Where a saved replay lies.
#[derive(Debug)]
pub struct SavedReplay {
    pub final_video_path: Option<String>,
    pub metadata_path: Option<String>,
    pub segments_dir: Option<String>,
}

}
