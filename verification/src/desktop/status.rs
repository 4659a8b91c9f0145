//! What the desktop application knows of the running program.

use vstd::prelude::*;
use vstd::string::*;
use crate::app::auto::RuntimeConfigUpdateResult;
use crate::app::clip_types::ClipReason;
use crate::app::events::AppEvent;
use crate::capture::gpu_screen_recorder::{GsrHealth, GsrMode, GsrStatus};
use crate::config;
use crate::config::AppConfig;
use crate::order;
use crate::path;
use crate::stamp;
use crate::text;
use crate::time::{SystemTime, NANOS_PER_MILLI, NANOS_PER_SEC};

verus! {

/// Something that happened, as it is listed.
#[derive(Debug)]
pub struct RuntimeEvent {
    pub id: String,
    pub at: String,
    pub kind: ClipReason,
    pub description: String,
}

#[derive(Debug)]
pub struct RuntimeStatus {
    pub wt_connected: bool,
    pub gsr_available: bool,
    pub gsr_health: GsrHealth,
    pub gsr_pid: Option<u32>,
    pub gsr_wrapper_pid: Option<u32>,
    pub gsr_recorder_pid: Option<u32>,
    pub gsr_signal_pid: Option<u32>,
    pub gsr_mode: Option<String>,
    pub gsr_target: String,
    pub gsr_monitors: Vec<String>,
    pub gsr_command_line: Option<String>,
    pub gsr_recorder_command_line: Option<String>,
    pub gsr_stderr_handling: String,
    pub gsr_save_queue_len: usize,
    pub gsr_total_saves_requested: u64,
    pub gsr_total_saves_completed: u64,
    pub gsr_total_saves_failed: u64,
    pub gsr_output_dir: Option<String>,
    pub gsr_output_prefix: Option<String>,
    pub gsr_last_output: Option<String>,
    pub gsr_last_error: Option<String>,
    pub gsr_restart_count: u64,
    pub gsr_replay_seconds: u64,
    pub gsr_fps: u32,
    pub gsr_quality: String,
    pub auto_clip_running: bool,
    pub config_restart_required: bool,
    pub clips_saved: usize,
    pub recent_events: Vec<RuntimeEvent>,
    pub last_error: Option<String>,
}

/// How many events are listed.
pub const LISTED_EVENTS: usize = 24;

pub open spec fn mode_text(mode: GsrMode) -> Seq<char> {
    match mode {
        GsrMode::Native => "native"@,
        GsrMode::Flatpak => "flatpak"@,
    }
}

fn mode_name(mode: GsrMode) -> (r: &'static str)
    ensures
        r@ == mode_text(mode),
{
    match mode {
        GsrMode::Native => "native",
        GsrMode::Flatpak => "flatpak",
    }
}

/// Where replays go according to the settings.
pub open spec fn configured_dir(config: AppConfig, home: Option<Seq<char>>) -> Option<Seq<char>> {
    config::tilde_expanded(config.capture.output_dir@, home)
}

fn configured_output_dir(config: &AppConfig, home: Option<&str>) -> (r: Option<String>)
    ensures
        text::opt_text(r) == configured_dir(*config, text::opt_str(home)),
{
    match config.capture.output_dir_path(home) {
        Ok(dir) => Some(dir),
        Err(_) => None,
    }
}

fn prefix_in(dir: &Option<String>) -> (r: Option<String>)
    ensures
        text::opt_text(r) == (match *dir {
            Some(d) => Some(path::joined_path(d@, "wtclip"@)),
            None => None,
        }),
{
    match dir {
        Some(d) => Some(path::join_path(d.as_str(), "wtclip")),
        None => None,
    }
}

pub open spec fn prefix_of(dir: Option<Seq<char>>) -> Option<Seq<char>> {
    match dir {
        Some(d) => Some(path::joined_path(d, "wtclip"@)),
        None => None,
    }
}

impl RuntimeStatus {
    /// The part that comes from the settings.
    pub open spec fn follows(self, config: AppConfig, home: Option<Seq<char>>) -> bool {
        &&& self.gsr_target@ == config.capture.target@
        &&& self.gsr_replay_seconds == config.capture.replay_seconds
        &&& self.gsr_fps == config.capture.fps
        &&& self.gsr_quality@ == config.capture.quality.arg()
        &&& text::opt_text(self.gsr_output_dir) == configured_dir(config, home)
        &&& text::opt_text(self.gsr_output_prefix) == prefix_of(configured_dir(config, home))
    }

    /// The part that comes from the recorder.
    pub open spec fn shows(self, gsr: GsrStatus) -> bool {
        &&& self.gsr_available == gsr.available
        &&& self.gsr_health == gsr.health
        &&& self.gsr_pid == gsr.pid
        &&& self.gsr_wrapper_pid == gsr.wrapper_pid
        &&& self.gsr_recorder_pid == gsr.recorder_pid
        &&& self.gsr_signal_pid == gsr.signal_pid
        &&& text::opt_text(self.gsr_mode) == (match gsr.mode {
            Some(mode) => Some(mode_text(mode)),
            None => None,
        })
        &&& self.gsr_target@ == gsr.target@
        &&& text::texts(self.gsr_monitors@) == text::texts(gsr.monitors@)
        &&& text::opt_text(self.gsr_command_line) == text::opt_text(gsr.command_line)
        &&& text::opt_text(self.gsr_recorder_command_line) == text::opt_text(
            gsr.recorder_command_line,
        )
        &&& self.gsr_stderr_handling@ == gsr.stderr_handling@
        &&& self.gsr_save_queue_len == gsr.save_queue_len
        &&& self.gsr_total_saves_requested == gsr.total_saves_requested
        &&& self.gsr_total_saves_completed == gsr.total_saves_completed
        &&& self.gsr_total_saves_failed == gsr.total_saves_failed
        &&& text::opt_text(self.gsr_output_dir) == Some(gsr.output_dir@)
        &&& text::opt_text(self.gsr_output_prefix) == Some(gsr.output_prefix@)
        &&& text::opt_text(self.gsr_last_output) == text::opt_text(gsr.last_output)
        &&& text::opt_text(self.gsr_last_error) == text::opt_text(gsr.last_error)
        &&& self.gsr_restart_count == gsr.restart_count
        &&& self.gsr_replay_seconds == gsr.replay_seconds
        &&& self.gsr_fps == gsr.fps
        &&& self.gsr_quality@ == gsr.quality@
    }

    /// All that is not about the recorder is as it was.
    pub open spec fn keeps_own(self, before: RuntimeStatus) -> bool {
        &&& self.wt_connected == before.wt_connected
        &&& self.auto_clip_running == before.auto_clip_running
        &&& self.config_restart_required == before.config_restart_required
        &&& self.clips_saved == before.clips_saved
        &&& self.recent_events == before.recent_events
        &&& self.last_error == before.last_error
    }

    /// The status before anything has happened.
    pub fn from_config(config: &AppConfig, home: Option<&str>) -> (r: Self)
        ensures
            r.follows(*config, text::opt_str(home)),
            !r.wt_connected,
            !r.gsr_available,
            r.gsr_health is Stopped,
            r.gsr_pid is None && r.gsr_wrapper_pid is None && r.gsr_recorder_pid is None
                && r.gsr_signal_pid is None,
            r.gsr_mode is None,
            r.gsr_monitors@.len() == 0,
            r.gsr_command_line is None && r.gsr_recorder_command_line is None,
            r.gsr_stderr_handling@ == "null"@,
            r.gsr_save_queue_len == 0,
            r.gsr_total_saves_requested == 0 && r.gsr_total_saves_completed == 0
                && r.gsr_total_saves_failed == 0,
            r.gsr_last_output is None && r.gsr_last_error is None,
            r.gsr_restart_count == 0,
            !r.auto_clip_running && !r.config_restart_required,
            r.clips_saved == 0,
            r.recent_events@.len() == 0,
            r.last_error is None,
    {
        let dir = configured_output_dir(config, home);
        let prefix = prefix_in(&dir);
        RuntimeStatus {
            wt_connected: false,
            gsr_available: false,
            gsr_health: GsrHealth::Stopped,
            gsr_pid: None,
            gsr_wrapper_pid: None,
            gsr_recorder_pid: None,
            gsr_signal_pid: None,
            gsr_mode: None,
            gsr_target: config.capture.target.clone(),
            gsr_monitors: Vec::new(),
            gsr_command_line: None,
            gsr_recorder_command_line: None,
            gsr_stderr_handling: "null".to_owned(),
            gsr_save_queue_len: 0,
            gsr_total_saves_requested: 0,
            gsr_total_saves_completed: 0,
            gsr_total_saves_failed: 0,
            gsr_output_dir: dir,
            gsr_output_prefix: prefix,
            gsr_last_output: None,
            gsr_last_error: None,
            gsr_restart_count: 0,
            gsr_replay_seconds: config.capture.replay_seconds,
            gsr_fps: config.capture.fps,
            gsr_quality: config.capture.quality.as_arg().to_owned(),
            auto_clip_running: false,
            config_restart_required: false,
            clips_saved: 0,
            recent_events: Vec::new(),
            last_error: None,
        }
    }

    /// New settings were saved and taken over.
    pub fn save_config(
        &mut self,
        config: &AppConfig,
        home: Option<&str>,
        result: &RuntimeConfigUpdateResult,
    )
        ensures
            final(self).follows(*config, text::opt_str(home)),
            final(self).config_restart_required == result.restart_required,
            final(self).last_error is None,
            *final(self) == (RuntimeStatus {
                gsr_target: final(self).gsr_target,
                gsr_replay_seconds: final(self).gsr_replay_seconds,
                gsr_fps: final(self).gsr_fps,
                gsr_quality: final(self).gsr_quality,
                gsr_output_dir: final(self).gsr_output_dir,
                gsr_output_prefix: final(self).gsr_output_prefix,
                config_restart_required: result.restart_required,
                last_error: None,
                ..*old(self)
            }),
    {
        let dir = configured_output_dir(config, home);
        let prefix = prefix_in(&dir);
        self.config_restart_required = result.restart_required;
        self.gsr_target = config.capture.target.clone();
        self.gsr_replay_seconds = config.capture.replay_seconds;
        self.gsr_fps = config.capture.fps;
        self.gsr_quality = config.capture.quality.as_arg().to_owned();
        self.gsr_output_dir = dir;
        self.gsr_output_prefix = prefix;
        self.last_error = None;
    }

    /// Takes over what the recorder says of itself.
    pub fn apply_gsr_runtime_status(&mut self, gsr: &GsrStatus)
        ensures
            final(self).shows(*gsr),
            final(self).keeps_own(*old(self)),
    {
        self.gsr_available = gsr.available;
        self.gsr_health = gsr.health;
        self.gsr_pid = gsr.pid;
        self.gsr_wrapper_pid = gsr.wrapper_pid;
        self.gsr_recorder_pid = gsr.recorder_pid;
        self.gsr_signal_pid = gsr.signal_pid;
        self.gsr_mode = match gsr.mode {
            Some(mode) => Some(mode_name(mode).to_owned()),
            None => None,
        };
        self.gsr_target = gsr.target.clone();
        self.gsr_monitors = text::clone_texts(&gsr.monitors);
        self.gsr_command_line = text::clone_opt_text(&gsr.command_line);
        self.gsr_recorder_command_line = text::clone_opt_text(&gsr.recorder_command_line);
        self.gsr_stderr_handling = gsr.stderr_handling.clone();
        self.gsr_save_queue_len = gsr.save_queue_len;
        self.gsr_total_saves_requested = gsr.total_saves_requested;
        self.gsr_total_saves_completed = gsr.total_saves_completed;
        self.gsr_total_saves_failed = gsr.total_saves_failed;
        self.gsr_output_dir = Some(gsr.output_dir.clone());
        self.gsr_output_prefix = Some(gsr.output_prefix.clone());
        self.gsr_last_output = text::clone_opt_text(&gsr.last_output);
        self.gsr_last_error = text::clone_opt_text(&gsr.last_error);
        self.gsr_restart_count = gsr.restart_count;
        self.gsr_replay_seconds = gsr.replay_seconds;
        self.gsr_fps = gsr.fps;
        self.gsr_quality = gsr.quality.clone();
    }
}

pub open spec fn since_epoch(now: SystemTime) -> nat {
    if now.nanos < 0 {
        0
    } else {
        now.nanos as nat
    }
}

/// The identifier of an event at the given time.
pub open spec fn event_id(prefix: Seq<char>, now: SystemTime, unique: Seq<char>) -> Seq<char> {
    prefix + "-"@ + text::decimal(since_epoch(now) / NANOS_PER_MILLI as nat) + "-"@ + unique
}

pub fn event_id_with(prefix: &str, now: SystemTime, unique: &str) -> (r: String)
    ensures
        r@ == event_id(prefix@, now, unique@),
{
    let nanos: u128 = if now.nanos < 0 {
        0
    } else {
        now.nanos as u128
    };
    let mut r: String = text::join2(prefix, "-");
    r.append(text::decimal_text(nanos / NANOS_PER_MILLI).as_str());
    r.append("-");
    r.append(unique);
    r
}

/// A new identifier of an event at the given time.
pub fn runtime_event_id(prefix: &str, now: SystemTime) -> (r: String)
    ensures
        exists|unique: Seq<char>|
            stamp::is_uuid(unique) && r@ == #[trigger] event_id(prefix@, now, unique),
{
    let unique = stamp::new_uuid();
    event_id_with(prefix, now, unique.as_str())
}

/// The time of day in UTC.
pub open spec fn clock_text(now: SystemTime) -> Seq<char> {
    let seconds = (since_epoch(now) / NANOS_PER_SEC as nat) % 86_400;
    text::padded_decimal(seconds / 3_600, 2) + ":"@ + text::padded_decimal((seconds / 60) % 60, 2)
        + ":"@ + text::padded_decimal(seconds % 60, 2)
}

pub fn runtime_event_time(now: SystemTime) -> (r: String)
    ensures
        r@ == clock_text(now),
{
    let nanos: u128 = if now.nanos < 0 {
        0
    } else {
        now.nanos as u128
    };
    let seconds: u128 = (nanos / NANOS_PER_SEC) % 86_400;
    let mut r: String = text::padded_decimal_text(seconds / 3_600, 2);
    r.append(":");
    r.append(text::padded_decimal_text((seconds / 60) % 60, 2).as_str());
    r.append(":");
    r.append(text::padded_decimal_text(seconds % 60, 2).as_str());
    r
}

impl RuntimeStatus {
    /// What an event at the given time makes of the status. An event that is
    /// listed has the given identifier.
    pub open spec fn becomes(
        self,
        after: RuntimeStatus,
        event: AppEvent,
        id: Seq<char>,
        now: SystemTime,
    ) -> bool {
        match event {
            AppEvent::WtConnected => after == (RuntimeStatus { wt_connected: true, ..self }),
            AppEvent::WtDisconnected => after == (RuntimeStatus { wt_connected: false, ..self }),
            AppEvent::GsrStatusChanged { status } => after.shows(status) && after.keeps_own(self),
            AppEvent::KillDetected { reason, description, .. } => {
                let entry = after.recent_events@[0];
                &&& after == (RuntimeStatus { recent_events: after.recent_events, ..self })
                &&& after.recent_events@ == order::in_front(
                    self.recent_events@,
                    entry,
                    LISTED_EVENTS as nat,
                )
                &&& entry.id@ == id
                &&& entry.at@ == clock_text(now)
                &&& entry.kind == reason
                &&& entry.description@ == description@
            },
            AppEvent::ClipFailed { message } => after == (RuntimeStatus {
                last_error: after.last_error,
                ..self
            }) && text::opt_text(after.last_error) == Some(message@),
            AppEvent::ClipSaved { .. } => after == (RuntimeStatus {
                clips_saved: (if self.clips_saved == usize::MAX {
                    usize::MAX
                } else {
                    (self.clips_saved + 1) as usize
                }),
                last_error: None,
                ..self
            }),
            AppEvent::ClipsLoaded { clips, .. } => after == (RuntimeStatus {
                clips_saved: clips@.len() as usize,
                ..self
            }),
            _ => after == self,
        }
    }

    /// What an event does to the status. An event that is listed gets the given
    /// identifier, and the time of day.
    pub fn update_with_id(&mut self, event: &AppEvent, id: String, now: SystemTime)
        ensures
            old(self).becomes(*final(self), *event, id@, now),
    {
        match event {
            AppEvent::WtConnected => {
                self.wt_connected = true;
            },
            AppEvent::WtDisconnected => {
                self.wt_connected = false;
            },
            AppEvent::GsrStatusChanged { status } => {
                self.apply_gsr_runtime_status(status);
            },
            AppEvent::KillDetected { reason, description, .. } => {
                let entry = RuntimeEvent {
                    id,
                    at: runtime_event_time(now),
                    kind: *reason,
                    description: description.clone(),
                };
                let ghost before = self.recent_events@;
                let ghost new = entry;
                self.recent_events.insert(0, entry);
                assert(self.recent_events@ =~= seq![new] + before);
                if self.recent_events.len() > LISTED_EVENTS {
                    self.recent_events.truncate(LISTED_EVENTS);
                }
                assert(self.recent_events@ =~= order::in_front(before, new, LISTED_EVENTS as nat));
            },
            AppEvent::ClipFailed { message } => {
                self.last_error = Some(message.clone());
            },
            AppEvent::ClipSaved { .. } => {
                if self.clips_saved < usize::MAX {
                    self.clips_saved = self.clips_saved + 1;
                }
                self.last_error = None;
            },
            AppEvent::ClipsLoaded { clips, .. } => {
                self.clips_saved = clips.len();
            },
            _ => {},
        }
    }

    /// What an event does to the status at the given time. An event that is
    /// listed gets a new identifier.
    pub fn update_runtime_status(&mut self, event: &AppEvent, now: SystemTime)
        ensures
            exists|unique: Seq<char>|
                stamp::is_uuid(unique) && old(self).becomes(
                    *final(self),
                    *event,
                    #[trigger] event_id("kill"@, now, unique),
                    now,
                ),
    {
        let id = runtime_event_id("kill", now);
        self.update_with_id(event, id, now);
    }
}

/// The list of events never grows beyond its length.
pub proof fn lemma_listed_events_are_few(
    before: RuntimeStatus,
    after: RuntimeStatus,
    event: AppEvent,
    id: Seq<char>,
    now: SystemTime,
)
    requires
        before.recent_events@.len() <= LISTED_EVENTS,
        before.becomes(after, event, id, now),
    ensures
        after.recent_events@.len() <= LISTED_EVENTS,
        event is KillDetected ==> after.recent_events@.len() >= 1,
{
}

/// The status follows what happens: it shows whether the game is connected, how
/// many clips were saved, what went wrong last, and the latest events first.
pub proof fn lemma_status_follows_events(
    before: RuntimeStatus,
    after: RuntimeStatus,
    event: AppEvent,
    id: Seq<char>,
    now: SystemTime,
)
    requires
        before.becomes(after, event, id, now),
    ensures
        event is WtConnected ==> after.wt_connected,
        event is WtDisconnected ==> !after.wt_connected,
        !(event is WtConnected) && !(event is WtDisconnected) ==> after.wt_connected
            == before.wt_connected,
        event is ClipSaved ==> (before.clips_saved < usize::MAX ==> after.clips_saved
            == before.clips_saved + 1) && after.last_error is None,
        event matches AppEvent::ClipFailed { message } ==> text::opt_text(after.last_error) == Some(
            message@,
        ) && after.clips_saved == before.clips_saved,
        event matches AppEvent::ClipsLoaded { clips, .. } ==> after.clips_saved == clips.len(),
        event matches AppEvent::KillDetected { reason, description, .. } ==> {
            &&& after.recent_events@.len() > 0
            &&& after.recent_events@[0].kind == reason
            &&& after.recent_events@[0].description@ == description@
            &&& after.recent_events@[0].id@ == id
            &&& forall|i: int|
                1 <= i < after.recent_events@.len() ==> #[trigger] after.recent_events@[i]
                    == before.recent_events@[i - 1]
            &&& before.recent_events@.len() < 24 ==> after.recent_events@.len()
                == before.recent_events@.len() + 1
            &&& after.recent_events@.len() <= 24 || after.recent_events@.len()
                <= before.recent_events@.len() + 1
        },
        event matches AppEvent::GsrStatusChanged { status } ==> {
            &&& after.gsr_health == status.health
            &&& after.gsr_recorder_pid == status.recorder_pid
            &&& after.gsr_wrapper_pid == status.wrapper_pid
            &&& after.gsr_signal_pid == status.signal_pid
            &&& after.gsr_target@ == status.target@
            &&& text::opt_text(after.gsr_last_output) == text::opt_text(status.last_output)
            &&& text::opt_text(after.gsr_last_error) == text::opt_text(status.last_error)
            &&& after.gsr_total_saves_completed == status.total_saves_completed
            &&& after.gsr_total_saves_failed == status.total_saves_failed
            &&& after.gsr_fps == status.fps
            &&& after.gsr_replay_seconds == status.replay_seconds
        },
{
}

/// The time of day is told in hours, minutes and seconds of two digits.
pub proof fn lemma_time_of_day(now: SystemTime, hours: nat, minutes: nat, seconds: nat, days: nat)
    requires
        now.nanos >= 0,
        hours < 24,
        minutes < 60,
        seconds < 60,
        now.nanos as nat / 1_000_000_000 == days * 86_400 + hours * 3_600 + minutes * 60 + seconds,
    ensures
        clock_text(now) == text::padded_decimal(hours, 2) + ":"@ + text::padded_decimal(minutes, 2)
            + ":"@ + text::padded_decimal(seconds, 2),
{
    let all = now.nanos as nat / 1_000_000_000;
    let day = hours * 3_600 + minutes * 60 + seconds;
    assert(all % 86_400 == day);
    assert(day / 3_600 == hours);
    assert((day / 60) % 60 == minutes);
    assert(day % 60 == seconds);
}

}
