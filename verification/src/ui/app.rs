//! The state of the window, and how events and the user change it.

use vstd::prelude::*;
use vstd::string::*;
use crate::capture::buffer::ClipReason;
use crate::capture::quality::QualityPreset;
use crate::config::AppConfig;
use crate::doctor::DoctorReport;
use crate::number;
use crate::order;
use crate::path;
use crate::stamp;
use crate::text;
use crate::ui::bridge::{AppEvent, ClipInfo, UiCommand};
use crate::ui::theme::Tint;

verus! {

/// A line of the feed.
#[derive(Debug)]
pub struct EventEntry {
    pub timestamp: String,
    pub reason: ClipReason,
    pub vehicle: Option<String>,
    pub target: Option<String>,
    pub description: String,
}

/// A message that is shown for a while.
#[derive(Debug)]
pub struct Toast {
    pub message: String,
    pub ttl_millis: u64,
    pub color: Tint,
}

#[derive(Clone, Copy, Debug, PartialEq, Eq, Structural)]
pub enum Screen {
    Dashboard,
    Clips,
    Configuration,
    Diagnostics,
}

#[derive(Clone, Copy, Debug, PartialEq, Eq, Structural)]
pub enum ClipFilter {
    All,
    Kills,
    MultiKills,
    Deaths,
}

#[derive(Debug)]
pub struct WtClipperApp {
    pub active_screen: Screen,
    pub wt_connected: bool,
    pub player_name: Option<String>,
    pub buffer_filled_millis: u128,
    pub buffer_total_millis: u128,
    pub disk_used_bytes: u64,
    pub session_kills: u32,
    pub session_multi_kills: u32,
    pub clips: Vec<ClipInfo>,
    pub events: Vec<EventEntry>,
    pub toasts: Vec<Toast>,
    pub config: AppConfig,
    pub search: String,
    pub filter: ClipFilter,
    pub diagnostics: Option<DoctorReport>,
    pub diagnostics_running: bool,
    pub clips_total_bytes: u64,
    pub last_refresh_millis: u64,
}

/// A picture to be taken of a video.
#[derive(Debug)]
pub struct ThumbnailJob {
    pub video: String,
    pub picture: String,
}

/// How many events the feed holds.
pub const FEED_LENGTH: usize = 20;

/// After how long the clips are looked for again.
pub const REFRESH_MILLIS: u64 = 5_000;

/// The longest step by which the messages grow old at once.
pub const MAX_TOAST_STEP: u64 = 200;

pub open spec fn grown_by_one(n: u32) -> u32 {
    if n == u32::MAX {
        n
    } else {
        (n + 1) as u32
    }
}

fn one_more(n: u32) -> (r: u32)
    ensures
        r == grown_by_one(n),
{
    if n == u32::MAX {
        n
    } else {
        n + 1
    }
}

pub open spec fn bytes_with(total: u64, more: u64) -> u64 {
    if total + more > u64::MAX {
        u64::MAX
    } else {
        (total + more) as u64
    }
}

pub open spec fn picture_of(video: Seq<char>) -> Seq<char> {
    path::with_extension_of(video, "jpg"@)
}

/// A clip that was just saved.
pub open spec fn is_new_clip(
    clip: ClipInfo,
    video: Seq<char>,
    reason: ClipReason,
    duration_seconds: u64,
    size_bytes: u64,
    has_picture: bool,
) -> bool {
    &&& clip.path@ == video
    &&& text::opt_text(clip.thumbnail_path) == (if has_picture {
        Some(picture_of(video))
    } else {
        None
    })
    &&& clip.preview_url is None
    &&& clip.file_name@ == (match path::file_name_of(video) {
        Some(name) => name,
        None => video,
    })
    &&& clip.reason == reason
    &&& clip.size_bytes == size_bytes
    &&& clip.duration_seconds == duration_seconds
    &&& clip.modified_secs_ago == 0
}

/// One picture for each clip, in order.
pub open spec fn jobs_for(jobs: Seq<ThumbnailJob>, clips: Seq<ClipInfo>) -> bool {
    &&& jobs.len() == clips.len()
    &&& forall|i: int|
        0 <= i < jobs.len() ==> (#[trigger] jobs[i]).video@ == clips[i].path@ && jobs[i].picture@
            == picture_of(clips[i].path@)
}

pub open spec fn is_toast(toast: Toast, message: Seq<char>, ttl_millis: u64, color: Tint) -> bool {
    toast.message@ == message && toast.ttl_millis == ttl_millis && toast.color == color
}

fn job(video: &str) -> (r: ThumbnailJob)
    ensures
        r.video@ == video@,
        r.picture@ == picture_of(video@),
{
    ThumbnailJob { video: video.to_owned(), picture: path::with_extension(video, "jpg") }
}

/// What FFmpeg is called with to take the picture of a clip.
pub fn picture_args(job: &ThumbnailJob) -> (r: Vec<String>)
    ensures
        text::texts(r@) == seq![
            "-y"@,
            "-i"@,
            job.video@,
            "-vframes"@,
            "1"@,
            "-s"@,
            "320x180"@,
            job.picture@,
        ],
{
    let r = text::owned_texts(
        &["-y", "-i", job.video.as_str(), "-vframes", "1", "-s", "320x180", job.picture.as_str()],
    );
    assert(text::texts(r@) =~= seq![
        "-y"@,
        "-i"@,
        job.video@,
        "-vframes"@,
        "1"@,
        "-s"@,
        "320x180"@,
        job.picture@,
    ]);
    r
}

impl WtClipperApp {
    /// The window when it opens, and what it asks for at once. `buffer_seconds`
    /// is the length of the buffer.
    pub fn new(config: AppConfig, buffer_seconds: u64) -> (r: (Self, Vec<UiCommand>))
        ensures
            r.0.active_screen is Dashboard,
            !r.0.wt_connected,
            text::opt_text(r.0.player_name) == text::opt_text(config.war_thunder.player_name),
            r.0.buffer_filled_millis == 0,
            r.0.buffer_total_millis == buffer_seconds * 1000,
            r.0.disk_used_bytes == 0 && r.0.clips_total_bytes == 0,
            r.0.session_kills == 0 && r.0.session_multi_kills == 0,
            r.0.clips@.len() == 0 && r.0.events@.len() == 0 && r.0.toasts@.len() == 0,
            r.0.config == config,
            r.0.search@.len() == 0,
            r.0.filter is All,
            r.0.diagnostics is None && !r.0.diagnostics_running,
            r.0.last_refresh_millis == 0,
            r.1@.len() == 2 && r.1@[0] is LoadClips && r.1@[1] is RunDiagnostics,
    {
        let player_name = text::clone_opt_text(&config.war_thunder.player_name);
        let app = WtClipperApp {
            active_screen: Screen::Dashboard,
            wt_connected: false,
            player_name,
            buffer_filled_millis: 0,
            buffer_total_millis: buffer_seconds as u128 * 1000,
            disk_used_bytes: 0,
            session_kills: 0,
            session_multi_kills: 0,
            clips: Vec::new(),
            events: Vec::new(),
            toasts: Vec::new(),
            config,
            search: String::new(),
            filter: ClipFilter::All,
            diagnostics: None,
            diagnostics_running: false,
            clips_total_bytes: 0,
            last_refresh_millis: 0,
        };
        let mut commands: Vec<UiCommand> = Vec::new();
        commands.push(UiCommand::LoadClips);
        commands.push(UiCommand::RunDiagnostics);
        (app, commands)
    }

    /// What an event at the given time, else at some time of day, does to the
    /// window, and the pictures that are to be taken. `has_picture` tells of a saved clip whether it has one.
    pub open spec fn takes(
        self,
        after: WtClipperApp,
        event: AppEvent,
        timestamp: Option<Seq<char>>,
        has_picture: bool,
        jobs: Seq<ThumbnailJob>,
    ) -> bool {
        match event {
            AppEvent::WtConnected => jobs.len() == 0 && after == (WtClipperApp {
                wt_connected: true,
                ..self
            }),
            AppEvent::WtDisconnected => jobs.len() == 0 && after == (WtClipperApp {
                wt_connected: false,
                ..self
            }),
            AppEvent::KillDetected { reason, vehicle, target, description } => {
                let entry = after.events@[0];
                &&& jobs.len() == 0
                &&& after == (WtClipperApp {
                    session_multi_kills: (if reason is MultiKill {
                        grown_by_one(self.session_multi_kills)
                    } else {
                        self.session_multi_kills
                    }),
                    session_kills: (if reason is MultiKill || reason is TargetDestroyed {
                        grown_by_one(self.session_kills)
                    } else {
                        self.session_kills
                    }),
                    events: after.events,
                    ..self
                })
                &&& after.events@ == order::in_front(self.events@, entry, FEED_LENGTH as nat)
                &&& match timestamp {
                    Some(t) => entry.timestamp@ == t,
                    None => stamp::is_time_of_day(entry.timestamp@),
                }
                &&& entry.reason == reason
                &&& entry.vehicle == vehicle
                &&& entry.target == target
                &&& entry.description == description
            },
            AppEvent::ClipSaved { path: video, reason, duration_seconds, size_bytes } => {
                &&& after == (WtClipperApp {
                    clips: after.clips,
                    clips_total_bytes: bytes_with(self.clips_total_bytes, size_bytes),
                    disk_used_bytes: bytes_with(self.clips_total_bytes, size_bytes),
                    toasts: after.toasts,
                    ..self
                })
                &&& after.clips@.len() == self.clips@.len() + 1
                &&& after.clips@ == seq![after.clips@[0]] + self.clips@
                &&& is_new_clip(
                    after.clips@[0],
                    video@,
                    reason,
                    duration_seconds,
                    size_bytes,
                    has_picture,
                )
                &&& after.toasts@ == self.toasts@.push(after.toasts@.last())
                &&& is_toast(after.toasts@.last(), "Clip sauvegardé"@, 4_000, Tint::KillGreen)
                &&& jobs.len() == 1
                &&& jobs[0].video@ == video@
                &&& jobs[0].picture@ == picture_of(video@)
            },
            AppEvent::ClipFailed { message } => {
                &&& jobs.len() == 0
                &&& after == (WtClipperApp { toasts: after.toasts, ..self })
                &&& after.toasts@ == self.toasts@.push(after.toasts@.last())
                &&& is_toast(after.toasts@.last(), message@, 5_000, Tint::DeathRed)
            },
            AppEvent::BufferProgress { filled_millis, total_millis } => jobs.len() == 0 && after
                == (WtClipperApp {
                buffer_filled_millis: filled_millis,
                buffer_total_millis: (if total_millis < 1_000 {
                    1_000
                } else {
                    total_millis
                }),
                ..self
            }),
            AppEvent::DiskUsage { used_bytes } => jobs.len() == 0 && after == (WtClipperApp {
                disk_used_bytes: used_bytes,
                ..self
            }),
            AppEvent::ClipsLoaded { clips, total_bytes } => {
                &&& after == (WtClipperApp {
                    clips,
                    clips_total_bytes: total_bytes,
                    disk_used_bytes: total_bytes,
                    ..self
                })
                &&& jobs_for(jobs, clips@)
            },
            AppEvent::DiagnosticsReady(report) => jobs.len() == 0 && after == (WtClipperApp {
                diagnostics: Some(report),
                diagnostics_running: false,
                ..self
            }),
            AppEvent::ClipStatusChanged { .. } => jobs.len() == 0 && after == self,
            AppEvent::ExportProgressChanged { .. } => jobs.len() == 0 && after == self,
        }
    }

    /// An event at the given time of day.
    pub fn handle_event_at(
        &mut self,
        event: AppEvent,
        timestamp: String,
        has_picture: bool,
    ) -> (r: Vec<ThumbnailJob>)
        ensures
            old(self).takes(*final(self), event, Some(timestamp@), has_picture, r@),
    {
        let mut jobs: Vec<ThumbnailJob> = Vec::new();
        match event {
            AppEvent::WtConnected => {
                self.wt_connected = true;
            },
            AppEvent::WtDisconnected => {
                self.wt_connected = false;
            },
            AppEvent::KillDetected { reason, vehicle, target, description } => {
                if reason == ClipReason::MultiKill {
                    self.session_multi_kills = one_more(self.session_multi_kills);
                }
                if reason == ClipReason::MultiKill || reason == ClipReason::TargetDestroyed {
                    self.session_kills = one_more(self.session_kills);
                }
                let entry = EventEntry { timestamp, reason, vehicle, target, description };
                let ghost before = self.events@;
                let ghost new = entry;
                self.events.insert(0, entry);
                assert(self.events@ =~= seq![new] + before);
                if self.events.len() > FEED_LENGTH {
                    self.events.truncate(FEED_LENGTH);
                }
                assert(self.events@ =~= order::in_front(before, new, FEED_LENGTH as nat));
            },
            AppEvent::ClipSaved { path: video, reason, duration_seconds, size_bytes } => {
                let file_name: String = match path::file_name(video.as_str()) {
                    Some(name) => name,
                    None => video.clone(),
                };
                let clip = ClipInfo {
                    path: video.clone(),
                    thumbnail_path: if has_picture {
                        Some(path::with_extension(video.as_str(), "jpg"))
                    } else {
                        None
                    },
                    preview_url: None,
                    file_name,
                    reason,
                    size_bytes,
                    duration_seconds,
                    modified_secs_ago: 0,
                };
                let ghost before = self.clips@;
                let ghost new = clip;
                self.clips.insert(0, clip);
                assert(self.clips@ =~= seq![new] + before);
                self.clips_total_bytes = if self.clips_total_bytes > u64::MAX - size_bytes {
                    u64::MAX
                } else {
                    self.clips_total_bytes + size_bytes
                };
                self.toasts.push(
                    Toast {
                        message: "Clip sauvegardé".to_owned(),
                        ttl_millis: 4_000,
                        color: Tint::KillGreen,
                    },
                );
                self.disk_used_bytes = self.clips_total_bytes;
                jobs.push(job(video.as_str()));
            },
            AppEvent::ClipFailed { message } => {
                self.toasts.push(Toast { message, ttl_millis: 5_000, color: Tint::DeathRed });
            },
            AppEvent::BufferProgress { filled_millis, total_millis } => {
                self.buffer_filled_millis = filled_millis;
                self.buffer_total_millis = if total_millis < 1_000 {
                    1_000
                } else {
                    total_millis
                };
            },
            AppEvent::DiskUsage { used_bytes } => {
                self.disk_used_bytes = used_bytes;
            },
            AppEvent::ClipsLoaded { clips, total_bytes } => {
                let mut i: usize = 0;
                while i < clips.len()
                    invariant
                        i <= clips.len(),
                        jobs_for(jobs@, clips@.subrange(0, i as int)),
                    decreases clips.len() - i,
                {
                    jobs.push(job(clips[i].path.as_str()));
                    i = i + 1;
                }
                assert(clips@.subrange(0, clips@.len() as int) == clips@);
                self.clips = clips;
                self.clips_total_bytes = total_bytes;
                self.disk_used_bytes = total_bytes;
            },
            AppEvent::DiagnosticsReady(report) => {
                self.diagnostics = Some(report);
                self.diagnostics_running = false;
            },
            AppEvent::ClipStatusChanged { .. } => {},
            AppEvent::ExportProgressChanged { .. } => {},
        }
        jobs
    }

    /// An event now.
    pub fn handle_event(&mut self, event: AppEvent, has_picture: bool) -> (r: Vec<ThumbnailJob>)
        ensures
            old(self).takes(*final(self), event, None, has_picture, r@),
    {
        let timestamp = stamp::local_time("%H:%M:%S");
        self.handle_event_at(event, timestamp, has_picture)
    }

    /// A clip is shown: its name holds what is searched for, in either case, and
    /// its reason is one of those asked for.
    pub open spec fn shows(self, clip: ClipInfo) -> bool {
        &&& text::trim_of(self.search@).len() == 0 || text::occurs_in(
            text::ascii_lowered(clip.file_name@),
            text::ascii_lowered(self.search@),
        )
        &&& match self.filter {
            ClipFilter::All => true,
            ClipFilter::Kills => clip.reason is TargetDestroyed,
            ClipFilter::MultiKills => clip.reason is MultiKill,
            ClipFilter::Deaths => clip.reason is PlayerDestroyed,
        }
    }

    pub fn clip_matches(&self, clip: &ClipInfo) -> (r: bool)
        ensures
            r == self.shows(*clip),
    {
        let search_matches: bool = text::trim(self.search.as_str()).unicode_len() == 0
            || text::contains(
            text::to_ascii_lowercase(clip.file_name.as_str()).as_str(),
            text::to_ascii_lowercase(self.search.as_str()).as_str(),
        );
        let filter_matches: bool = match self.filter {
            ClipFilter::All => true,
            ClipFilter::Kills => clip.reason == ClipReason::TargetDestroyed,
            ClipFilter::MultiKills => clip.reason == ClipReason::MultiKill,
            ClipFilter::Deaths => clip.reason == ClipReason::PlayerDestroyed,
        };
        search_matches && filter_matches
    }

    /// The clips that are shown, in the order in which they are kept.
    pub open spec fn shown_clips(self, clips: Seq<ClipInfo>) -> Seq<ClipInfo>
        decreases clips.len(),
    {
        if clips.len() == 0 {
            seq![]
        } else if self.shows(clips.last()) {
            self.shown_clips(clips.drop_last()).push(clips.last())
        } else {
            self.shown_clips(clips.drop_last())
        }
    }

    /// The clips that are shown, the youngest first.
    pub fn clips_screen(&self) -> (r: Vec<ClipInfo>)
        ensures
            is_sorted_by_age(r@, self.shown_clips(self.clips@)),
    {
        let mut shown: Vec<ClipInfo> = Vec::new();
        let mut ages: Vec<u64> = Vec::new();
        let mut i: usize = 0;
        assert(ages@ =~= ages_of(shown@));
        while i < self.clips.len()
            invariant
                i <= self.clips.len(),
                shown@ == self.shown_clips(self.clips@.subrange(0, i as int)),
                ages@ == ages_of(shown@),
            decreases self.clips.len() - i,
        {
            let ghost next = self.clips@.subrange(0, i + 1);
            assert(next.drop_last() == self.clips@.subrange(0, i as int));
            assert(next.last() == self.clips@[i as int]);
            if self.clip_matches(&self.clips[i]) {
                let ghost before = shown@;
                ages.push(self.clips[i].modified_secs_ago);
                shown.push(self.clips[i].clone());
                assert(ages@ =~= ages_of(shown@));
            }
            i = i + 1;
        }
        assert(self.clips@.subrange(0, self.clips@.len() as int) == self.clips@);
        let positions = order::youngest_first(&ages);
        let mut r: Vec<ClipInfo> = Vec::new();
        let mut k: usize = 0;
        while k < positions.len()
            invariant
                k <= positions.len(),
                positions@.len() == shown@.len(),
                ages@ == ages_of(shown@),
                order::is_order(ages_of(shown@), positions@),
                r@.len() == k,
                forall|j: int| 0 <= j < k ==> (#[trigger] r@[j]) == shown@[positions@[j] as int],
            decreases positions.len() - k,
        {
            assert(positions@[k as int] < ages_of(shown@).len());
            r.push(shown[positions[k]].clone());
            k = k + 1;
        }
        assert(order::is_order(ages_of(shown@), positions@));
        r
    }

    /// The clips are looked for again once they are old enough.
    pub fn refresh_due(&mut self, now_millis: u64) -> (r: Option<UiCommand>)
        ensures
            ({
                let due = now_millis >= old(self).last_refresh_millis && now_millis - old(
                    self).last_refresh_millis > REFRESH_MILLIS;
                &&& r is Some <==> due
                &&& r matches Some(command) ==> command is LoadClips
                &&& *final(self) == (WtClipperApp {
                    last_refresh_millis: (if due {
                        now_millis
                    } else {
                        old(self).last_refresh_millis
                    }),
                    ..*old(self)
                })
            }),
    {
        if now_millis >= self.last_refresh_millis && now_millis - self.last_refresh_millis
            > REFRESH_MILLIS {
            self.last_refresh_millis = now_millis;
            Some(UiCommand::LoadClips)
        } else {
            None
        }
    }

    /// The user goes to a screen; the clips are looked for again there.
    pub fn select_screen(&mut self, screen: Screen) -> (r: Option<UiCommand>)
        ensures
            *final(self) == (WtClipperApp { active_screen: screen, ..*old(self) }),
            r is Some <==> screen is Clips,
            r matches Some(command) ==> command is LoadClips,
    {
        self.active_screen = screen;
        if screen == Screen::Clips {
            Some(UiCommand::LoadClips)
        } else {
            None
        }
    }

    /// The user wants all shown clips gone: a command for each, and the list is
    /// empty from now on.
    pub fn clear_clips(&mut self) -> (r: Vec<UiCommand>)
        ensures
            *final(self) == (WtClipperApp {
                clips: final(self).clips,
                clips_total_bytes: 0,
                disk_used_bytes: 0,
                ..*old(self)
            }),
            final(self).clips@.len() == 0,
            exists|shown: Seq<ClipInfo>|
                {
                    &&& #[trigger] is_sorted_by_age(
                        shown,
                        old(self).shown_clips(old(self).clips@),
                    )
                    &&& r@.len() == shown.len()
                    &&& forall|i: int|
                        0 <= i < shown.len() ==> (#[trigger] r@[i] matches UiCommand::DeleteClip(p)
                            && p@ == shown[i].path@)
                },
    {
        let shown = self.clips_screen();
        let mut commands: Vec<UiCommand> = Vec::new();
        let mut i: usize = 0;
        while i < shown.len()
            invariant
                i <= shown.len(),
                commands@.len() == i,
                forall|j: int|
                    0 <= j < i ==> (#[trigger] commands@[j] matches UiCommand::DeleteClip(p) && p@
                        == shown@[j].path@),
            decreases shown.len() - i,
        {
            commands.push(UiCommand::DeleteClip(shown[i].path.clone()));
            i = i + 1;
        }
        self.clips = Vec::new();
        self.clips_total_bytes = 0;
        self.disk_used_bytes = 0;
        assert(is_sorted_by_age(shown@, old(self).shown_clips(old(self).clips@)));
        commands
    }

    /// The messages that are left after some time, in order.
    pub open spec fn aged(toasts: Seq<Toast>, step: u64) -> Seq<Toast>
        decreases toasts.len(),
    {
        if toasts.len() == 0 {
            seq![]
        } else {
            let rest = WtClipperApp::aged(toasts.drop_last(), step);
            if toasts.last().ttl_millis > step {
                rest.push(
                    (Toast {
                        ttl_millis: (toasts.last().ttl_millis - step) as u64,
                        ..toasts.last()
                    }),
                )
            } else {
                rest
            }
        }
    }

    /// Some time has passed: every message is shown for that much less, and at
    /// most for a fifth of a second less.
    pub fn age_toasts(&mut self, elapsed_millis: u64)
        ensures
            *final(self) == (WtClipperApp { toasts: final(self).toasts, ..*old(self) }),
            final(self).toasts@ == WtClipperApp::aged(
                old(self).toasts@,
                (if elapsed_millis > MAX_TOAST_STEP {
                    MAX_TOAST_STEP
                } else {
                    elapsed_millis
                }),
            ),
    {
        let step: u64 = if elapsed_millis > MAX_TOAST_STEP {
            MAX_TOAST_STEP
        } else {
            elapsed_millis
        };
        let ghost all = self.toasts@;
        let mut left: Vec<Toast> = Vec::new();
        let mut i: usize = 0;
        while i < self.toasts.len()
            invariant
                i <= self.toasts.len(),
                *self == *old(self),
                all == self.toasts@,
                left@ == WtClipperApp::aged(all.subrange(0, i as int), step),
            decreases self.toasts.len() - i,
        {
            let ghost next = all.subrange(0, i + 1);
            assert(next.drop_last() == all.subrange(0, i as int));
            assert(next.last() == self.toasts@[i as int]);
            let toast = &self.toasts[i];
            if toast.ttl_millis > step {
                left.push(
                    Toast {
                        message: toast.message.clone(),
                        ttl_millis: toast.ttl_millis - step,
                        color: toast.color,
                    },
                );
            }
            i = i + 1;
        }
        assert(all.subrange(0, all.len() as int) == all);
        self.toasts = left;
    }
}

pub open spec fn ages_of(s: Seq<ClipInfo>) -> Seq<u64> {
    s.map_values(|c: ClipInfo| c.modified_secs_ago)
}

/// The same clips, the youngest first.
pub open spec fn is_sorted_by_age(sorted: Seq<ClipInfo>, clips: Seq<ClipInfo>) -> bool {
    exists|positions: Seq<usize>|
        {
            &&& #[trigger] order::is_order(ages_of(clips), positions)
            &&& sorted.len() == clips.len()
            &&& forall|i: int|
                0 <= i < sorted.len() ==> #[trigger] sorted[i] == clips[positions[i] as int]
        }
}

pub open spec fn label_of(reason: ClipReason) -> Seq<char> {
    match reason {
        ClipReason::TargetDestroyed => "KILL"@,
        ClipReason::PlayerDestroyed => "MORT"@,
        ClipReason::MultiKill => "MULTI"@,
        ClipReason::Manual => "MANUAL"@,
        ClipReason::Unknown => "CLIP"@,
    }
}

pub fn reason_label(reason: ClipReason) -> (r: &'static str)
    ensures
        r@ == label_of(reason),
{
    match reason {
        ClipReason::TargetDestroyed => "KILL",
        ClipReason::PlayerDestroyed => "MORT",
        ClipReason::MultiKill => "MULTI",
        ClipReason::Manual => "MANUAL",
        ClipReason::Unknown => "CLIP",
    }
}

pub fn reason_color(reason: ClipReason) -> (r: Tint)
    ensures
        r == (match reason {
            ClipReason::TargetDestroyed | ClipReason::Manual => Tint::KillGreen,
            ClipReason::MultiKill => Tint::MultiPurple,
            ClipReason::PlayerDestroyed => Tint::DeathRed,
            ClipReason::Unknown => Tint::TextMuted,
        }),
{
    match reason {
        ClipReason::TargetDestroyed | ClipReason::Manual => Tint::KillGreen,
        ClipReason::MultiKill => Tint::MultiPurple,
        ClipReason::PlayerDestroyed => Tint::DeathRed,
        ClipReason::Unknown => Tint::TextMuted,
    }
}

pub fn quality_label(quality: QualityPreset) -> (r: &'static str)
    ensures
        r@ == (match quality {
            QualityPreset::Low => "Low"@,
            QualityPreset::Medium => "Medium"@,
            QualityPreset::High => "High"@,
        }),
{
    match quality {
        QualityPreset::Low => "Low",
        QualityPreset::Medium => "Medium",
        QualityPreset::High => "High",
    }
}

/// The length of a clip as it is shown.
pub fn duration_label(duration_seconds: u64) -> (r: String)
    ensures
        r@ == (if duration_seconds > 0 {
            text::decimal(duration_seconds as nat) + "s"@
        } else {
            "??s"@
        }),
{
    if duration_seconds > 0 {
        text::join2(text::decimal_text(duration_seconds as u128).as_str(), "s")
    } else {
        "??s".to_owned()
    }
}

/// How long ago something was.
/// A size in the greatest unit of which it holds one.
pub open spec fn shown_size(bytes: u64) -> Seq<char> {
    if bytes >= 1_073_741_824 {
        number::with_tenth(bytes as nat, 1_073_741_824) + " GB"@
    } else if bytes >= 1_048_576 {
        number::with_tenth(bytes as nat, 1_048_576) + " MB"@
    } else if bytes >= 1024 {
        number::with_tenth(bytes as nat, 1024) + " KB"@
    } else {
        text::decimal(bytes as nat) + " B"@
    }
}

pub fn human_bytes(bytes: u64) -> (r: String)
    ensures
        r@ == shown_size(bytes),
{
    if bytes >= 1_073_741_824 {
        text::join2(number::text_with_tenth(bytes, 1_073_741_824).as_str(), " GB")
    } else if bytes >= 1_048_576 {
        text::join2(number::text_with_tenth(bytes, 1_048_576).as_str(), " MB")
    } else if bytes >= 1024 {
        text::join2(number::text_with_tenth(bytes, 1024).as_str(), " KB")
    } else {
        text::join2(text::decimal_text(bytes as u128).as_str(), " B")
    }
}

pub open spec fn ago_text(seconds: u64) -> Seq<char> {
    if seconds < 60 {
        "à l'instant"@
    } else if seconds < 3600 {
        "il y a "@ + text::decimal((seconds / 60) as nat) + " min"@
    } else if seconds < 86_400 {
        "il y a "@ + text::decimal((seconds / 3600) as nat) + " h"@
    } else {
        "il y a "@ + text::decimal((seconds / 86_400) as nat) + " j"@
    }
}

pub fn relative_time(seconds: u64) -> (r: String)
    ensures
        r@ == ago_text(seconds),
{
    if seconds < 60 {
        return "à l'instant".to_owned();
    }
    let count: u64;
    let unit: &str;
    if seconds < 3600 {
        count = seconds / 60;
        unit = " min";
    } else if seconds < 86_400 {
        count = seconds / 3600;
        unit = " h";
    } else {
        count = seconds / 86_400;
        unit = " j";
    }
    let mut r: String = text::join2("il y a ", text::decimal_text(count as u128).as_str());
    r.append(unit);
    r
}

/// The window follows what happens: it counts the kills of the session, lists the
/// latest events first, and puts a saved clip in front of the others.
pub proof fn lemma_window_follows_events(
    before: WtClipperApp,
    after: WtClipperApp,
    event: AppEvent,
    timestamp: Option<Seq<char>>,
    has_picture: bool,
    jobs: Seq<ThumbnailJob>,
)
    requires
        before.takes(after, event, timestamp, has_picture, jobs),
    ensures
        event is WtConnected ==> after.wt_connected,
        event is WtDisconnected ==> !after.wt_connected,
        event matches AppEvent::KillDetected { reason, vehicle, target, description } ==> {
            &&& (reason == ClipReason::TargetDestroyed || reason == ClipReason::MultiKill)
                && before.session_kills < u32::MAX ==> after.session_kills == before.session_kills
                + 1
            &&& reason != ClipReason::TargetDestroyed && reason != ClipReason::MultiKill
                ==> after.session_kills == before.session_kills
            &&& reason == ClipReason::MultiKill && before.session_multi_kills < u32::MAX
                ==> after.session_multi_kills == before.session_multi_kills + 1
            &&& reason != ClipReason::MultiKill ==> after.session_multi_kills
                == before.session_multi_kills
            &&& after.events@.len() > 0
            &&& after.events@[0].reason == reason
            &&& after.events@[0].description == description
            &&& after.events@[0].vehicle == vehicle
            &&& after.events@[0].target == target
            &&& forall|i: int|
                1 <= i < after.events@.len() ==> #[trigger] after.events@[i] == before.events@[i
                    - 1]
            &&& before.events@.len() < 20 ==> after.events@.len() == before.events@.len() + 1
        },
        event matches AppEvent::ClipSaved { path: video, reason, duration_seconds, size_bytes }
            ==> {
            &&& after.clips@.len() == before.clips@.len() + 1
            &&& after.clips@[0].path@ == video@
            &&& after.clips@[0].reason == reason
            &&& after.clips@[0].size_bytes == size_bytes
            &&& after.clips@[0].duration_seconds == duration_seconds
            &&& after.clips@[0].modified_secs_ago == 0
            &&& forall|i: int|
                1 <= i < after.clips@.len() ==> #[trigger] after.clips@[i] == before.clips@[i - 1]
            &&& before.clips_total_bytes + size_bytes <= u64::MAX ==> after.clips_total_bytes
                == before.clips_total_bytes + size_bytes
            &&& jobs.len() == 1
            &&& jobs[0].video@ == video@
        },
        event matches AppEvent::ClipsLoaded { clips, total_bytes } ==> after.clips == clips
            && after.clips_total_bytes == total_bytes && jobs.len() == clips@.len(),
        event matches AppEvent::ClipFailed { message } ==> after.toasts@.len()
            == before.toasts@.len() + 1 && after.toasts@.last().message@ == message@ && after.clips
            == before.clips,
{
}

/// The clips that are shown are those that match, and all of them.
pub proof fn lemma_matching_clips_are_shown(app: WtClipperApp, clips: Seq<ClipInfo>)
    ensures
        forall|c: ClipInfo| #[trigger]
            app.shown_clips(clips).contains(c) <==> clips.contains(c) && app.shows(c),
    decreases clips.len(),
{
    if clips.len() > 0 {
        let t = clips.drop_last();
        lemma_matching_clips_are_shown(app, t);
        let before = app.shown_clips(t);
        let all = app.shown_clips(clips);
        assert forall|c: ClipInfo| #[trigger] all.contains(c) <==> clips.contains(c) && app.shows(
            c,
        ) by {
            if before.contains(c) {
                let k = choose|k: int| 0 <= k < before.len() && before[k] == c;
                assert(all[k] == c);
            }
            if t.contains(c) {
                let k = choose|k: int| 0 <= k < t.len() && t[k] == c;
                assert(clips[k] == c);
            }
            if clips.contains(c) {
                let k = choose|k: int| 0 <= k < clips.len() && clips[k] == c;
                if k < t.len() {
                    assert(t[k] == c);
                } else if app.shows(c) {
                    assert(all[before.len() as int] == c);
                }
            }
            if all.contains(c) {
                let k = choose|k: int| 0 <= k < all.len() && all[k] == c;
                if k < before.len() {
                    assert(before[k] == c);
                    assert(before.contains(c));
                } else {
                    assert(clips[clips.len() - 1] == c);
                }
            }
        }
    }
}

/// A filter shows the clips of its reason, and a search those whose name holds what
/// is searched for, whatever its case. Without either every clip is shown.
pub proof fn lemma_filter_and_search(app: WtClipperApp, clip: ClipInfo)
    ensures
        app.filter == ClipFilter::Kills && app.shows(clip) ==> clip.reason
            == ClipReason::TargetDestroyed,
        app.filter == ClipFilter::MultiKills && app.shows(clip) ==> clip.reason
            == ClipReason::MultiKill,
        app.filter == ClipFilter::Deaths && app.shows(clip) ==> clip.reason
            == ClipReason::PlayerDestroyed,
        text::trim_of(app.search@).len() == 0 ==> {
            &&& app.filter == ClipFilter::All ==> app.shows(clip)
            &&& app.filter == ClipFilter::Kills && clip.reason == ClipReason::TargetDestroyed
                ==> app.shows(clip)
            &&& app.filter == ClipFilter::MultiKills && clip.reason == ClipReason::MultiKill
                ==> app.shows(clip)
            &&& app.filter == ClipFilter::Deaths && clip.reason == ClipReason::PlayerDestroyed
                ==> app.shows(clip)
        },
        text::trim_of(app.search@).len() > 0 && app.filter == ClipFilter::All ==> app.shows(clip)
            == text::occurs_in(
            text::ascii_lowered(clip.file_name@),
            text::ascii_lowered(app.search@),
        ),
{
}

/// The clips on the screen come with the youngest first.
pub proof fn lemma_screen_shows_youngest_first(sorted: Seq<ClipInfo>, clips: Seq<ClipInfo>)
    requires
        is_sorted_by_age(sorted, clips),
    ensures
        sorted.len() == clips.len(),
        forall|i: int, j: int|
            0 <= i < j < sorted.len() ==> (#[trigger] sorted[i]).modified_secs_ago <= (
            #[trigger] sorted[j]).modified_secs_ago,
        forall|i: int| 0 <= i < sorted.len() ==> clips.contains(#[trigger] sorted[i]),
{
    let positions = choose|positions: Seq<usize>|
        {
            &&& #[trigger] order::is_order(ages_of(clips), positions)
            &&& sorted.len() == clips.len()
            &&& forall|i: int|
                0 <= i < sorted.len() ==> #[trigger] sorted[i] == clips[positions[i] as int]
        };
    assert forall|i: int, j: int| 0 <= i < j < sorted.len() implies (
    #[trigger] sorted[i]).modified_secs_ago <= (#[trigger] sorted[j]).modified_secs_ago by {
        assert(order::comes_before(ages_of(clips), positions[i] as int, positions[j] as int));
        assert(positions[i] < ages_of(clips).len() && positions[j] < ages_of(clips).len());
    }
    assert forall|i: int| 0 <= i < sorted.len() implies clips.contains(#[trigger] sorted[i]) by {
        assert(positions[i] < ages_of(clips).len());
    }
}

/// A message stays until its time is over.
pub proof fn lemma_messages_grow_old(toasts: Seq<Toast>, step: u64, i: int)
    requires
        0 <= i < toasts.len(),
    ensures
        toasts[i].ttl_millis > step ==> exists|k: int|
            0 <= k < WtClipperApp::aged(toasts, step).len() && (#[trigger] WtClipperApp::aged(
                toasts,
                step,
            )[k]).message == toasts[i].message && WtClipperApp::aged(toasts, step)[k].ttl_millis
                == toasts[i].ttl_millis - step,
        (forall|j: int| 0 <= j < toasts.len() ==> (#[trigger] toasts[j]).ttl_millis <= step)
            ==> WtClipperApp::aged(toasts, step).len() == 0,
    decreases toasts.len(),
{
    let t = toasts.drop_last();
    let before = WtClipperApp::aged(t, step);
    let all = WtClipperApp::aged(toasts, step);
    assert(toasts[toasts.len() - 1] == toasts.last());
    if i < t.len() {
        lemma_messages_grow_old(t, step, i);
        assert(t[i] == toasts[i]);
        if toasts[i].ttl_millis > step {
            let k = choose|k: int|
                0 <= k < before.len() && (#[trigger] before[k]).message == t[i].message
                    && before[k].ttl_millis == t[i].ttl_millis - step;
            assert(all[k] == before[k]);
        }
    } else if toasts[i].ttl_millis > step {
        assert(all[before.len() as int].message == toasts[i].message);
    }
    if forall|j: int| 0 <= j < toasts.len() ==> (#[trigger] toasts[j]).ttl_millis <= step {
        assert(toasts[toasts.len() - 1].ttl_millis <= step);
        if t.len() > 0 {
            assert forall|j: int| 0 <= j < t.len() implies (#[trigger] t[j]).ttl_millis <= step by {
                assert(t[j] == toasts[j]);
            }
            lemma_messages_grow_old(t, step, 0);
        }
    }
}

}
