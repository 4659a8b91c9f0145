//! Clips made by themselves: events come in, clips wait for what follows the
//! event to be recorded, and are then saved.

use vstd::prelude::*;
use vstd::string::*;
use crate::app::clip_types::{ClipContext, ClipReason};
use crate::app::events::{AppEvent, ClipStatus, ClipStatusPayload, StatusView};
use crate::capture::gpu_screen_recorder;
use crate::capture::gpu_screen_recorder::{GsrHealth, SavedGsrReplay};
use crate::config::{AppConfig, CaptureConfig, TriggerConfig};
use crate::games::event::{GameEvent, GameEventKind};
use crate::games::source::{DetectedEvent, GamePollResult};
use crate::stamp;
use crate::text;
use crate::time::{Duration, Instant, SystemTime, NANOS_PER_SEC};

verus! {

/// The settings of the automatic clips.
#[derive(Debug)]
pub struct AutoClipConfig {
    pub cooldown: Duration,
    pub post_event_delay: Duration,
    pub multi_kill_window: Duration,
    pub include_history: bool,
    pub triggers: TriggerConfig,
    pub capture: CaptureConfig,
}

/// What became of new settings.
#[derive(Debug)]
pub struct RuntimeConfigUpdateResult {
    pub applied_live: bool,
    pub restart_required: bool,
    pub message: String,
}

/// Saves follow each other at some distance.
#[derive(Clone, Copy, Debug, PartialEq, Eq, Structural)]
pub struct Cooldown {
    pub duration: Duration,
    pub last_save: Option<Instant>,
}

impl Cooldown {
    pub fn new(duration: Duration) -> (r: Self)
        ensures
            r.duration == duration,
            r.last_save is None,
    {
        Cooldown { duration, last_save: None }
    }

    pub open spec fn over(self, now: Instant) -> bool {
        match self.last_save {
            Some(last) => now.since(last) >= self.duration.nanos,
            None => true,
        }
    }

    pub fn allows(&self, now: Instant) -> (r: bool)
        ensures
            r == self.over(now),
    {
        match self.last_save {
            Some(last) => now.duration_since(last).nanos >= self.duration.nanos,
            None => true,
        }
    }

    pub fn record_save(&mut self, now: Instant)
        ensures
            *final(self) == (Cooldown { last_save: Some(now), ..*old(self) }),
    {
        self.last_save = Some(now);
    }
}

/// Right after a save no further one is allowed until the cooldown is over.
pub proof fn lemma_cooldown(c: Cooldown, save: Instant, later: Instant)
    requires
        c.last_save == Some(save),
    ensures
        c.over(later) <==> later.since(save) >= c.duration.nanos,
{
}

/// A clip that waits to be saved.
#[derive(Debug)]
pub struct ScheduledClip {
    pub clip_id: String,
    pub created_at: String,
    pub reason: ClipReason,
    pub last_event_time: Instant,
    pub last_event_game_time: Option<Duration>,
    pub first_event_wall_time: SystemTime,
    pub last_event_wall_time: SystemTime,
    pub save_at: Instant,
    pub event_keys: Vec<String>,
    pub events: Vec<GameEvent>,
    pub descriptions: Vec<String>,
    pub retry_count: u8,
}

pub open spec fn all_kills(events: Seq<GameEvent>) -> bool {
    forall|i: int| 0 <= i < events.len() ==> (#[trigger] events[i]).kind is Kill
}

/// How many of the events are kills.
pub open spec fn kills_in(events: Seq<GameEvent>) -> nat
    decreases events.len(),
{
    if events.len() == 0 {
        0
    } else {
        kills_in(events.drop_last()) + (if events.last().kind is Kill {
            1nat
        } else {
            0nat
        })
    }
}

pub proof fn lemma_kills_in(events: Seq<GameEvent>)
    ensures
        kills_in(events) <= events.len(),
        all_kills(events) ==> kills_in(events) == events.len(),
    decreases events.len(),
{
    if events.len() > 0 {
        lemma_kills_in(events.drop_last());
        if all_kills(events) {
            assert forall|i: int| 0 <= i < events.drop_last().len() implies (
            #[trigger] events.drop_last()[i]).kind is Kill by {
                assert(events[i].kind is Kill);
            }
            assert(events[events.len() - 1].kind is Kill);
        }
    }
}

fn are_all_kills(events: &Vec<GameEvent>) -> (r: bool)
    ensures
        r == all_kills(events@),
{
    let mut i: usize = 0;
    while i < events.len()
        invariant
            i <= events.len(),
            forall|j: int| 0 <= j < i ==> (#[trigger] events@[j]).kind is Kill,
        decreases events.len() - i,
    {
        if events[i].kind != GameEventKind::Kill {
            return false;
        }
        i = i + 1;
    }
    true
}

/// A clip after another event has joined it: it waits for what follows this
/// event, and is a multi-kill once all of its events are kills.
pub open spec fn grown(
    before: ScheduledClip,
    after: ScheduledClip,
    event: GameEvent,
    event_time: Instant,
    event_game_time: Option<Duration>,
    event_wall_time: SystemTime,
    delay: Duration,
) -> bool {
    &&& after.clip_id == before.clip_id
    &&& after.created_at == before.created_at
    &&& after.first_event_wall_time == before.first_event_wall_time
    &&& after.retry_count == before.retry_count
    &&& after.last_event_time == event_time
    &&& after.last_event_game_time == (match event_game_time {
        Some(t) => Some(t),
        None => before.last_event_game_time,
    })
    &&& after.last_event_wall_time == event_wall_time
    &&& after.save_at.nanos == event_time.nanos + delay.nanos
    &&& after.event_keys@ == before.event_keys@.push(event.canonical_key)
    &&& after.events@ == before.events@.push(event)
    &&& after.descriptions@ == before.descriptions@.push(event.summary)
    &&& after.reason == (if all_kills(before.events@.push(event)) {
        ClipReason::MultiKill
    } else {
        before.reason
    })
}

impl ScheduledClip {
    /// The keys are those of the events, one each, and no key occurs twice.
    pub open spec fn wf(self) -> bool {
        &&& forall|i: int, j: int|
            0 <= i < j < self.event_keys@.len() ==> (#[trigger] self.event_keys@[i])@ != (
            #[trigger] self.event_keys@[j])@
        &&& self.events@.len() >= 1
        &&& self.event_keys@.len() == self.events@.len()
        &&& self.descriptions@.len() == self.events@.len()
        &&& forall|i: int|
            0 <= i < self.events@.len() ==> (#[trigger] self.event_keys@[i])
                == self.events@[i].canonical_key
        &&& forall|i: int|
            0 <= i < self.events@.len() ==> (#[trigger] self.descriptions@[i])
                == self.events@[i].summary
    }

    pub open spec fn has_key(self, key: Seq<char>) -> bool {
        text::texts(self.event_keys@).contains(key)
    }

    /// A clip of one event.
    pub open spec fn starts_with(
        self,
        event: GameEvent,
        reason: ClipReason,
        event_time: Instant,
        event_game_time: Option<Duration>,
        event_wall_time: SystemTime,
        delay: Duration,
    ) -> bool {
        &&& self.reason == reason
        &&& self.last_event_time == event_time
        &&& self.last_event_game_time == event_game_time
        &&& self.first_event_wall_time == event_wall_time
        &&& self.last_event_wall_time == event_wall_time
        &&& self.save_at.nanos == event_time.nanos + delay.nanos
        &&& self.event_keys@ == seq![event.canonical_key]
        &&& self.events@ == seq![event]
        &&& self.descriptions@ == seq![event.summary]
        &&& self.retry_count == 0
    }

    /// A clip of one event under the given identifier.
    pub fn with_identity(
        clip_id: String,
        created_at: String,
        event: GameEvent,
        reason: ClipReason,
        event_time: Instant,
        event_game_time: Option<Duration>,
        event_wall_time: SystemTime,
        delay: Duration,
    ) -> (r: Self)
        requires
            event_time.nanos + delay.nanos <= u128::MAX,
        ensures
            r.wf(),
            r.clip_id == clip_id,
            r.created_at == created_at,
            r.starts_with(
                event,
                reason,
                event_time,
                event_game_time,
                event_wall_time,
                delay,
            ),
    {
        let mut event_keys: Vec<String> = Vec::new();
        event_keys.push(event.canonical_key.clone());
        let mut descriptions: Vec<String> = Vec::new();
        descriptions.push(event.summary.clone());
        let mut events: Vec<GameEvent> = Vec::new();
        events.push(event);
        ScheduledClip {
            clip_id,
            created_at,
            reason,
            last_event_time: event_time,
            last_event_game_time: event_game_time,
            first_event_wall_time: event_wall_time,
            last_event_wall_time: event_wall_time,
            save_at: event_time.plus(delay),
            event_keys,
            events,
            descriptions,
            retry_count: 0,
        }
    }

    /// A clip of one event under a new identifier.
    pub fn new(
        event: GameEvent,
        reason: ClipReason,
        event_time: Instant,
        event_game_time: Option<Duration>,
        event_wall_time: SystemTime,
        delay: Duration,
    ) -> (r: Self)
        requires
            event_time.nanos + delay.nanos <= u128::MAX,
        ensures
            r.wf(),
            stamp::is_id(r.clip_id@, "clip_"@),
            stamp::is_utc_time(r.created_at@),
            r.starts_with(
                event,
                reason,
                event_time,
                event_game_time,
                event_wall_time,
                delay,
            ),
    {
        let clip_id = stamp::new_id("clip_");
        let created_at = stamp::utc_time();
        ScheduledClip::with_identity(
            clip_id,
            created_at,
            event,
            reason,
            event_time,
            event_game_time,
            event_wall_time,
            delay,
        )
    }

    /// Adds an event, unless it is there already; says whether it did. The clip
    /// then waits for what follows this event, and becomes a multi-kill once it
    /// holds several events and all are kills.
    pub fn add_event(
        &mut self,
        event: GameEvent,
        event_time: Instant,
        event_game_time: Option<Duration>,
        event_wall_time: SystemTime,
        delay: Duration,
    ) -> (r: bool)
        requires
            old(self).wf(),
            event_time.nanos + delay.nanos <= u128::MAX,
        ensures
            final(self).wf(),
            r == !old(self).has_key(event.canonical_key@),
            !r ==> *final(self) == *old(self),
            r ==> grown(
                *old(self),
                *final(self),
                event,
                event_time,
                event_game_time,
                event_wall_time,
                delay,
            ),
    {
        if text::holds_text(&self.event_keys, event.canonical_key.as_str()) {
            return false;
        }
        proof {
            assert forall|i: int| 0 <= i < self.event_keys@.len() implies (
            #[trigger] self.event_keys@[i])@ != event.canonical_key@ by {
                assert(text::texts(self.event_keys@)[i] == self.event_keys@[i]@);
            }
        }
        self.event_keys.push(event.canonical_key.clone());
        self.last_event_time = event_time;
        if event_game_time.is_some() {
            self.last_event_game_time = event_game_time;
        }
        self.last_event_wall_time = event_wall_time;
        self.save_at = event_time.plus(delay);
        self.descriptions.push(event.summary.clone());
        self.events.push(event);
        if are_all_kills(&self.events) {
            self.reason = ClipReason::MultiKill;
        }
        true
    }

    pub open spec fn ready(self, now: Instant) -> bool {
        now.nanos >= self.save_at.nanos
    }

    pub fn is_ready(&self, now: Instant) -> (r: bool)
        ensures
            r == self.ready(now),
    {
        now.nanos >= self.save_at.nanos
    }

    pub fn kill_count(&self) -> (r: usize)
        ensures
            r == kills_in(self.events@),
    {
        let mut n: usize = 0;
        let mut i: usize = 0;
        while i < self.events.len()
            invariant
                i <= self.events.len(),
                n <= i,
                n == kills_in(self.events@.subrange(0, i as int)),
            decreases self.events.len() - i,
        {
            assert(self.events@.subrange(0, i + 1).drop_last() == self.events@.subrange(
                0,
                i as int,
            ));
            if self.events[i].kind == GameEventKind::Kill {
                n = n + 1;
            }
            i = i + 1;
        }
        assert(self.events@.subrange(0, self.events@.len() as int) == self.events@);
        n
    }
}

pub fn schedule_pending_clip(
    event: GameEvent,
    reason: ClipReason,
    event_time: Instant,
    event_game_time: Option<Duration>,
    event_wall_time: SystemTime,
    delay: Duration,
) -> (r: ScheduledClip)
    requires
        event_time.nanos + delay.nanos <= u128::MAX,
    ensures
        r.wf(),
        stamp::is_id(r.clip_id@, "clip_"@),
        stamp::is_utc_time(r.created_at@),
        r.starts_with(event, reason, event_time, event_game_time, event_wall_time, delay),
{
    ScheduledClip::new(
        event,
        reason,
        event_time,
        event_game_time,
        event_wall_time,
        delay,
    )
}

/// The reason and the keys of the events, in order.
pub open spec fn dedupe_key(reason: ClipReason, keys: Seq<Seq<char>>) -> Seq<char> {
    reason.slug_text() + "|"@ + text::joined(text::ordered_once(keys), "|"@)
}

pub fn pending_dedupe_key(pending: &ScheduledClip) -> (r: String)
    ensures
        r@ == dedupe_key(pending.reason, text::texts(pending.event_keys@)),
{
    let keys = text::sort_and_dedup(&pending.event_keys);
    let mut r: String = text::join2(pending.reason.slug(), "|");
    r.append(text::join(&keys, "|").as_str());
    r
}

fn clone_events(events: &Vec<GameEvent>) -> (r: Vec<GameEvent>)
    ensures
        r@ == events@,
{
    let mut r: Vec<GameEvent> = Vec::new();
    let mut i: usize = 0;
    while i < events.len()
        invariant
            i <= events.len(),
            r@ == events@.subrange(0, i as int),
        decreases events.len() - i,
    {
        r.push(events[i].clone());
        i = i + 1;
    }
    assert(events@.subrange(0, events@.len() as int) == events@);
    r
}

fn opt_owned(o: Option<&str>) -> (r: Option<String>)
    ensures
        text::opt_text(r) == text::opt_str(o),
{
    match o {
        Some(s) => Some(s.to_owned()),
        None => None,
    }
}

/// What is known of a pending clip when it is saved.
pub open spec fn context_of(
    c: ClipContext,
    pending: ScheduledClip,
    player: Option<Seq<char>>,
    replay_seconds: u64,
    delay: Duration,
) -> bool {
    &&& c.reason == pending.reason
    &&& c.event == Some(pending.events@[0])
    &&& c.events@ == pending.events@
    &&& text::opt_text(c.player_name) == player
    &&& c.pending_clip_id == Some(pending.clip_id)
    &&& text::opt_text(c.pending_dedupe_key) == Some(
        dedupe_key(pending.reason, text::texts(pending.event_keys@)),
    )
    &&& c.duration_seconds == replay_seconds
    &&& c.post_event_seconds == delay.nanos / NANOS_PER_SEC
    &&& c.first_event_time == Some(pending.first_event_wall_time)
    &&& c.last_event_time == Some(pending.last_event_wall_time)
}

pub fn clip_context_for_pending(
    pending: &ScheduledClip,
    player_name: Option<&str>,
    auto_config: &AutoClipConfig,
    configured_post_event_delay: Duration,
) -> (r: ClipContext)
    requires
        pending.wf(),
        configured_post_event_delay.valid(),
    ensures
        context_of(
            r,
            *pending,
            text::opt_str(player_name),
            auto_config.capture.replay_seconds,
            configured_post_event_delay,
        ),
{
    ClipContext {
        reason: pending.reason,
        event: Some(pending.events[0].clone()),
        events: clone_events(&pending.events),
        player_name: opt_owned(player_name),
        pending_clip_id: Some(pending.clip_id.clone()),
        pending_dedupe_key: Some(pending_dedupe_key(pending)),
        duration_seconds: auto_config.capture.replay_seconds,
        post_event_seconds: configured_post_event_delay.as_secs(),
        first_event_time: Some(pending.first_event_wall_time),
        last_event_time: Some(pending.last_event_wall_time),
    }
}

/// A status without a file.
pub open spec fn bare_status(
    id: Seq<char>,
    status: ClipStatus,
    reason: ClipReason,
    title: Seq<char>,
    created_at: Seq<char>,
    progress: Option<u8>,
    error: Option<Seq<char>>,
) -> StatusView {
    StatusView {
        id,
        status,
        reason,
        title,
        created_at,
        file_path: None,
        thumbnail_path: None,
        duration_seconds: None,
        size_bytes: None,
        progress,
        error,
        exportable_at: None,
        can_export: false,
        retryable: false,
    }
}

pub fn status_payload(
    pending: &ScheduledClip,
    status: ClipStatus,
    reason: ClipReason,
    title: String,
    progress: Option<u8>,
    error: Option<String>,
) -> (r: ClipStatusPayload)
    ensures
        r@ == bare_status(
            pending.clip_id@,
            status,
            reason,
            title@,
            pending.created_at@,
            progress,
            text::opt_text(error),
        ),
{
    ClipStatusPayload {
        id: pending.clip_id.clone(),
        status,
        reason,
        title,
        created_at: pending.created_at.clone(),
        file_path: None,
        thumbnail_path: None,
        duration_seconds: None,
        size_bytes: None,
        progress,
        error,
        exportable_at: None,
        can_export: false,
        retryable: false,
    }
}

pub open spec fn clips_wf(pending: Seq<ScheduledClip>) -> bool {
    forall|i: int| 0 <= i < pending.len() ==> (#[trigger] pending[i]).wf()
}

/// The positions of the clips that are due, in order.
pub open spec fn ready_positions(pending: Seq<ScheduledClip>, now: Instant) -> Seq<int>
    decreases pending.len(),
{
    if pending.len() == 0 {
        seq![]
    } else if pending.last().ready(now) {
        ready_positions(pending.drop_last(), now).push(pending.len() - 1)
    } else {
        ready_positions(pending.drop_last(), now)
    }
}

pub fn ready_pending_indices(pending_clips: &Vec<ScheduledClip>, now: Instant) -> (r: Vec<usize>)
    ensures
        gpu_screen_recorder::as_ints(r@) == ready_positions(pending_clips@, now),
        forall|k: int|
            0 <= k < r@.len() ==> (#[trigger] r@[k]) < pending_clips@.len()
                && pending_clips@[r@[k] as int].ready(now),
        forall|k: int, m: int| 0 <= k < m < r@.len() ==> (#[trigger] r@[k]) < (#[trigger] r@[m]),
{
    let mut r: Vec<usize> = Vec::new();
    let mut i: usize = 0;
    assert(gpu_screen_recorder::as_ints(r@) =~= ready_positions(
        pending_clips@.subrange(0, 0),
        now,
    ));
    while i < pending_clips.len()
        invariant
            i <= pending_clips.len(),
            gpu_screen_recorder::as_ints(r@) == ready_positions(
                pending_clips@.subrange(0, i as int),
                now,
            ),
            forall|k: int|
                0 <= k < r@.len() ==> (#[trigger] r@[k]) < i && pending_clips@[r@[k] as int].ready(
                    now,
                ),
            forall|k: int, m: int|
                0 <= k < m < r@.len() ==> (#[trigger] r@[k]) < (#[trigger] r@[m]),
        decreases pending_clips.len() - i,
    {
        assert(pending_clips@.subrange(0, i + 1).drop_last() == pending_clips@.subrange(
            0,
            i as int,
        ));
        let ghost before = gpu_screen_recorder::as_ints(r@);
        if pending_clips[i].is_ready(now) {
            r.push(i);
            assert(gpu_screen_recorder::as_ints(r@) =~= before.push(i as int));
        }
        i = i + 1;
    }
    assert(pending_clips@.subrange(0, pending_clips@.len() as int) == pending_clips@);
    r
}

/// A kill joins a clip of kills that still waits, if it follows the clip's last
/// event soon enough: by the game's clock where both times are known, else by
/// the machine's.
pub open spec fn joins(
    pending: ScheduledClip,
    now: Instant,
    game_time: Option<Duration>,
    window: Duration,
) -> bool {
    &&& pending.reason is TargetDestroyed || pending.reason is MultiKill
    &&& !pending.ready(now)
    &&& match (game_time, pending.last_event_game_time) {
        (Some(t), Some(last)) => t.nanos >= last.nanos && t.nanos - last.nanos <= window.nanos,
        _ => now.since(pending.last_event_time) <= window.nanos,
    }
}

fn kill_joins(
    pending: &ScheduledClip,
    now: Instant,
    game_time: Option<Duration>,
    window: Duration,
) -> (r: bool)
    ensures
        r == joins(*pending, now, game_time, window),
{
    let of_kills: bool = pending.reason == ClipReason::TargetDestroyed || pending.reason
        == ClipReason::MultiKill;
    of_kills && !pending.is_ready(now) && match (game_time, pending.last_event_game_time) {
        (Some(t), Some(last)) => t.nanos >= last.nanos && t.nanos - last.nanos <= window.nanos,
        _ => now.duration_since(pending.last_event_time).nanos <= window.nanos,
    }
}

/// The clip that an event joins: the first that it can join.
pub open spec fn joined_position(
    pending: Seq<ScheduledClip>,
    reason: ClipReason,
    now: Instant,
    game_time: Option<Duration>,
    window: Duration,
    r: Option<int>,
) -> bool {
    match r {
        Some(i) => {
            &&& reason is TargetDestroyed
            &&& 0 <= i < pending.len()
            &&& joins(pending[i], now, game_time, window)
            &&& forall|j: int|
                0 <= j < i ==> !joins(#[trigger] pending[j], now, game_time, window)
        },
        None => !(reason is TargetDestroyed) || forall|j: int|
            0 <= j < pending.len() ==> !joins(#[trigger] pending[j], now, game_time, window),
    }
}

pub open spec fn opt_int(o: Option<usize>) -> Option<int> {
    match o {
        Some(i) => Some(i as int),
        None => None,
    }
}

pub fn pending_index_for_multi_kill(
    pending_clips: &Vec<ScheduledClip>,
    reason: ClipReason,
    now: Instant,
    game_time: Option<Duration>,
    multi_kill_window: Duration,
) -> (r: Option<usize>)
    ensures
        joined_position(
            pending_clips@,
            reason,
            now,
            game_time,
            multi_kill_window,
            opt_int(r),
        ),
{
    if reason != ClipReason::TargetDestroyed {
        return None;
    }
    let mut i: usize = 0;
    while i < pending_clips.len()
        invariant
            i <= pending_clips.len(),
            reason is TargetDestroyed,
            forall|j: int|
                0 <= j < i ==> !joins(
                    #[trigger] pending_clips@[j],
                    now,
                    game_time,
                    multi_kill_window,
                ),
        decreases pending_clips.len() - i,
    {
        if kill_joins(&pending_clips[i], now, game_time, multi_kill_window) {
            return Some(i);
        }
        i = i + 1;
    }
    None
}

/// Only kills are ever grouped.
pub proof fn lemma_only_kills_are_grouped(
    pending: Seq<ScheduledClip>,
    reason: ClipReason,
    now: Instant,
    game_time: Option<Duration>,
    window: Duration,
    r: Option<int>,
)
    requires
        joined_position(pending, reason, now, game_time, window, r),
        !(reason is TargetDestroyed),
    ensures
        r is None,
{
}

pub open spec fn reason_for(kind: GameEventKind) -> ClipReason {
    match kind {
        GameEventKind::Kill => ClipReason::TargetDestroyed,
        GameEventKind::Death => ClipReason::PlayerDestroyed,
        GameEventKind::Objective => ClipReason::BaseDestroyed,
        GameEventKind::MultiKill => ClipReason::MultiKill,
        GameEventKind::Other => ClipReason::Unknown,
    }
}

pub fn game_event_kind_to_clip_reason(kind: GameEventKind) -> (r: ClipReason)
    ensures
        r == reason_for(kind),
{
    match kind {
        GameEventKind::Kill => ClipReason::TargetDestroyed,
        GameEventKind::Death => ClipReason::PlayerDestroyed,
        GameEventKind::Objective => ClipReason::BaseDestroyed,
        GameEventKind::MultiKill => ClipReason::MultiKill,
        GameEventKind::Other => ClipReason::Unknown,
    }
}

pub const MAX_SAVE_ATTEMPTS: u8 = 3;

pub const RETRY_SECONDS: u64 = 2;

/// The clip is tried again after so many failed saves.
pub open spec fn is_retried(failures: u8) -> bool {
    failures < MAX_SAVE_ATTEMPTS
}

/// A clip whose save failed: one failure more, and two seconds until the next
/// try where there is one. All else is as it was.
pub open spec fn after_failed_save(pending: ScheduledClip, now: Instant) -> ScheduledClip {
    let failures: u8 = if pending.retry_count == u8::MAX {
        u8::MAX
    } else {
        (pending.retry_count + 1) as u8
    };
    ScheduledClip {
        retry_count: failures,
        save_at: if is_retried(failures) {
            Instant { nanos: (now.nanos + RETRY_SECONDS * NANOS_PER_SEC) as u128 }
        } else {
            pending.save_at
        },
        ..pending
    }
}

/// A new clip whose save fails three times is tried again two seconds after the
/// first failure and two seconds after the second, and not after the third.
/// Nothing but its count of failures and its time changes.
pub proof fn lemma_three_failed_saves(
    pending: ScheduledClip,
    first: Instant,
    second: Instant,
    third: Instant,
)
    requires
        pending.retry_count == 0,
        first.nanos + RETRY_SECONDS * NANOS_PER_SEC <= u128::MAX,
        second.nanos + RETRY_SECONDS * NANOS_PER_SEC <= u128::MAX,
    ensures
        ({
            let once = after_failed_save(pending, first);
            let twice = after_failed_save(once, second);
            let thrice = after_failed_save(twice, third);
            &&& once.retry_count == 1 && is_retried(once.retry_count)
            &&& once.save_at.nanos == first.nanos + 2 * NANOS_PER_SEC
            &&& twice.retry_count == 2 && is_retried(twice.retry_count)
            &&& twice.save_at.nanos == second.nanos + 2 * NANOS_PER_SEC
            &&& thrice.retry_count == 3 && !is_retried(thrice.retry_count)
            &&& thrice.save_at == twice.save_at
            &&& thrice == (ScheduledClip {
                retry_count: thrice.retry_count,
                save_at: thrice.save_at,
                ..pending
            })
        }),
{
}

/// A save failed: the clip is tried again in two seconds, unless this was the
/// third time.
pub fn mark_gsr_save_failure_for_retry(pending: &mut ScheduledClip, now: Instant) -> (r: bool)
    requires
        now.nanos + RETRY_SECONDS * NANOS_PER_SEC <= u128::MAX,
    ensures
        *final(pending) == after_failed_save(*old(pending), now),
        r == is_retried(final(pending).retry_count),
        old(pending).wf() ==> final(pending).wf(),
{
    if pending.retry_count < u8::MAX {
        pending.retry_count = pending.retry_count + 1;
    }
    let should_retry: bool = pending.retry_count < MAX_SAVE_ATTEMPTS;
    if should_retry {
        pending.save_at = now.plus(Duration::from_secs(RETRY_SECONDS));
    }
    should_retry
}

/// Takes over new settings; says whether the recorder's settings changed.
pub fn apply_runtime_config(
    auto_config: &mut AutoClipConfig,
    config: &AppConfig,
) -> (r: RuntimeConfigUpdateResult)
    ensures
        r.applied_live,
        r.restart_required == !gpu_screen_recorder::same_settings(
            old(auto_config).capture,
            config.capture,
        ),
        r.message@ == (if r.restart_required {
            "Configuration sauvegardée; GPU Screen Recorder va être redémarré."@
        } else {
            "Configuration appliquée au backend GPU Screen Recorder."@
        }),
        final(auto_config).cooldown == old(auto_config).cooldown,
        final(auto_config).include_history == old(auto_config).include_history,
        final(auto_config).triggers == config.triggers,
        final(auto_config).capture == config.capture,
        final(auto_config).post_event_delay.nanos == config.clip.post_event_seconds * NANOS_PER_SEC,
        final(auto_config).multi_kill_window.nanos == config.clip.multi_kill_window_seconds
            * NANOS_PER_SEC,
        final(auto_config).post_event_delay.valid(),
        final(auto_config).multi_kill_window.valid(),
{
    let restart_required: bool = !gpu_screen_recorder::is_same_config(
        &auto_config.capture,
        &config.capture,
    );
    auto_config.triggers = config.triggers;
    auto_config.post_event_delay = Duration::from_secs(config.clip.post_event_seconds);
    auto_config.multi_kill_window = Duration::from_secs(config.clip.multi_kill_window_seconds);
    auto_config.capture = config.capture.clone();
    RuntimeConfigUpdateResult {
        applied_live: true,
        restart_required,
        message: if restart_required {
            "Configuration sauvegardée; GPU Screen Recorder va être redémarré.".to_owned()
        } else {
            "Configuration appliquée au backend GPU Screen Recorder.".to_owned()
        },
    }
}

/// The automatic clips while they run.
#[derive(Debug)]
pub struct AutoClip {
    pub config: AutoClipConfig,
    pub player_name: Option<String>,
    pub cooldown: Cooldown,
    pub pending_clips: Vec<ScheduledClip>,
    pub last_wt_connected: Option<bool>,
}

/// How the recorder is treated when the program starts.
#[derive(Clone, Copy, Debug, PartialEq, Eq, Structural)]
pub enum Opening {
    WaitForWarThunder,
    Start,
}

/// What new settings ask of the recorder.
#[derive(Clone, Copy, Debug, PartialEq, Eq, Structural)]
pub enum ConfigAction {
    KeepWaiting,
    RestartIfNeeded,
}

/// A save that the user asked for.
#[derive(Clone, Copy, Debug, PartialEq, Eq, Structural)]
pub enum SaveRequest {
    Manual,
    Test,
}

impl SaveRequest {
    pub open spec fn id_start(self) -> Seq<char> {
        match self {
            SaveRequest::Manual => "clip_"@,
            SaveRequest::Test => "gsr_test_"@,
        }
    }

    pub open spec fn key_start(self) -> Seq<char> {
        match self {
            SaveRequest::Manual => "manual|"@,
            SaveRequest::Test => "gsr-test|"@,
        }
    }

    pub open spec fn started_title(self) -> Seq<char> {
        match self {
            SaveRequest::Manual => "Sauvegarde GPU Replay..."@,
            SaveRequest::Test => "Test sauvegarde GPU Replay..."@,
        }
    }

    pub open spec fn ready_title(self) -> Seq<char> {
        match self {
            SaveRequest::Manual => "Clip prêt"@,
            SaveRequest::Test => "Test GPU Replay prêt"@,
        }
    }

    pub open spec fn failure_start(self) -> Seq<char> {
        match self {
            SaveRequest::Manual => "Clip manuel GPU Replay: "@,
            SaveRequest::Test => "Test sauvegarde GPU Replay: "@,
        }
    }
}

/// A saved clip's status, from the one it had before.
pub open spec fn ready_status(
    before: StatusView,
    title: Seq<char>,
    replay: SavedGsrReplay,
) -> StatusView {
    StatusView {
        status: ClipStatus::Ready,
        title,
        file_path: Some(replay.final_video_path@),
        thumbnail_path: text::opt_text(replay.thumbnail_path),
        duration_seconds: Some(replay.duration_seconds),
        size_bytes: Some(replay.size_bytes),
        progress: Some(100u8),
        ..before
    }
}

/// A clip was saved.
pub open spec fn saved_events(
    events: Seq<AppEvent>,
    before: StatusView,
    title: Seq<char>,
    replay: SavedGsrReplay,
) -> bool {
    &&& events.len() == 2
    &&& events[0].is_status(ready_status(before, title, replay))
    &&& events[1].is_saved(
        replay.final_video_path@,
        before.reason,
        replay.duration_seconds,
        replay.size_bytes,
    )
}

fn events_of_saved(
    status: ClipStatusPayload,
    title: &str,
    replay: &SavedGsrReplay,
) -> (r: Vec<AppEvent>)
    ensures
        saved_events(r@, status@, title@, *replay),
{
    let mut ready: ClipStatusPayload = status;
    ready.status = ClipStatus::Ready;
    ready.title = title.to_owned();
    ready.file_path = Some(replay.final_video_path.clone());
    ready.thumbnail_path = text::clone_opt_text(&replay.thumbnail_path);
    ready.duration_seconds = Some(replay.duration_seconds);
    ready.size_bytes = Some(replay.size_bytes);
    ready.progress = Some(100);
    let reason = ready.reason;
    let mut events: Vec<AppEvent> = Vec::new();
    events.push(AppEvent::ClipStatusChanged { payload: ready });
    events.push(
        AppEvent::ClipSaved {
            path: replay.final_video_path.clone(),
            reason,
            duration_seconds: replay.duration_seconds,
            size_bytes: replay.size_bytes,
        },
    );
    events
}

/// A clip could not be saved.
pub open spec fn failed_events(
    events: Seq<AppEvent>,
    before: StatusView,
    title: Seq<char>,
    message: Seq<char>,
) -> bool {
    &&& events.len() == 2
    &&& events[0].is_status(
        (StatusView {
            status: ClipStatus::Failed,
            title,
            progress: None,
            error: Some(message),
            ..before
        }),
    )
    &&& events[1].is_failure(message)
}

fn events_of_failure(
    status: ClipStatusPayload,
    title: &str,
    message: String,
) -> (r: Vec<AppEvent>)
    ensures
        failed_events(r@, status@, title@, message@),
{
    let mut failed: ClipStatusPayload = status;
    failed.status = ClipStatus::Failed;
    failed.title = title.to_owned();
    failed.progress = None;
    failed.error = Some(message.clone());
    let mut events: Vec<AppEvent> = Vec::new();
    events.push(AppEvent::ClipStatusChanged { payload: failed });
    events.push(AppEvent::ClipFailed { message });
    events
}

/// The title of a clip that several kills have joined.
pub open spec fn multi_kill_title(kills: nat, delay: Duration) -> Seq<char> {
    "Multi-kill GPU en attente : "@ + text::decimal(kills) + " kills, sauvegarde dans "@
        + text::decimal((delay.nanos / NANOS_PER_SEC) as nat) + "s"@
}

/// The title of a new clip.
pub open spec fn scheduled_title(summary: Seq<char>, delay: Duration) -> Seq<char> {
    "Clip GPU programmé: "@ + summary + " (sauvegarde dans "@ + text::decimal(
        (delay.nanos / NANOS_PER_SEC) as nat,
    ) + "s)"@
}

/// Some clip holds the event already.
pub open spec fn is_pending(pending: Seq<ScheduledClip>, key: Seq<char>) -> bool {
    exists|i: int| 0 <= i < pending.len() && (#[trigger] pending[i]).has_key(key)
}

fn holds_event(pending: &Vec<ScheduledClip>, key: &str) -> (r: bool)
    ensures
        r == is_pending(pending@, key@),
{
    let mut i: usize = 0;
    while i < pending.len()
        invariant
            i <= pending.len(),
            forall|j: int| 0 <= j < i ==> !(#[trigger] pending@[j]).has_key(key@),
        decreases pending.len() - i,
    {
        if text::holds_text(&pending[i].event_keys, key) {
            assert(pending@[i as int].has_key(key@));
            return true;
        }
        i = i + 1;
    }
    false
}

/// What an event does to the clips that wait, and what is told of it. An event
/// that some clip holds already changes nothing. A kill joins the first clip
/// that it can join. Any other event starts a clip of its own, at the end.
pub open spec fn event_taken(
    before: Seq<ScheduledClip>,
    after: Seq<ScheduledClip>,
    told: Seq<AppEvent>,
    event: GameEvent,
    now: Instant,
    game_time: Option<Duration>,
    wall_time: SystemTime,
    delay: Duration,
    window: Duration,
) -> bool {
    let reason = reason_for(event.kind);
    &&& told.len() >= 1
    &&& told[0].is_detected(
        reason,
        text::opt_text(event.context),
        text::opt_text(event.subject),
        event.summary@,
    )
    &&& if is_pending(before, event.canonical_key@) {
        told.len() == 1 && after == before
    } else if reason is TargetDestroyed && exists|i: int|
        0 <= i < before.len() && joins(#[trigger] before[i], now, game_time, window) {
        told.len() == 2 && exists|i: int|
            {
                &&& #[trigger] joined_position(before, reason, now, game_time, window, Some(i))
                &&& after.len() == before.len()
                &&& forall|j: int| 0 <= j < before.len() && j != i ==> after[j] == before[j]
                &&& grown(before[i], after[i], event, now, game_time, wall_time, delay)
                &&& told[1].is_status(
                    bare_status(
                        after[i].clip_id@,
                        ClipStatus::Detected,
                        after[i].reason,
                        multi_kill_title(kills_in(after[i].events@), delay),
                        after[i].created_at@,
                        Some(15u8),
                        None,
                    ),
                )
            }
    } else {
        &&& told.len() == 2
        &&& after.len() == before.len() + 1
        &&& after.drop_last() == before
        &&& after.last().starts_with(event, reason, now, game_time, wall_time, delay)
        &&& told[1].is_status(
            bare_status(
                after.last().clip_id@,
                ClipStatus::Detected,
                reason,
                scheduled_title(event.summary@, delay),
                after.last().created_at@,
                Some(10u8),
                None,
            ),
        )
    }
}

/// Where a clip was started, it has the given identity.
pub open spec fn new_clip_is(
    before: Seq<ScheduledClip>,
    after: Seq<ScheduledClip>,
    clip_id: Seq<char>,
    created_at: Seq<char>,
) -> bool {
    after.len() > before.len() ==> after.last().clip_id@ == clip_id && after.last().created_at@
        == created_at
}

/// The clips that wait, from before the first of some events to after the last,
/// and what is told of each event.
pub open spec fn is_course(
    states: Seq<Seq<ScheduledClip>>,
    told: Seq<Vec<AppEvent>>,
    events: Seq<GameEvent>,
    now: Instant,
    wall: SystemTime,
    delay: Duration,
    window: Duration,
) -> bool {
    &&& states.len() == events.len() + 1
    &&& told.len() == events.len()
    &&& forall|i: int|
        0 <= i < events.len() ==> event_taken(
            #[trigger] states[i],
            states[i + 1],
            told[i]@,
            events[i],
            now,
            None,
            wall,
            delay,
            window,
        )
}

/// What the events of one look at the game do to the clips that wait: they are
/// taken one after the other.
pub open spec fn events_taken(
    before: Seq<ScheduledClip>,
    after: Seq<ScheduledClip>,
    told: Seq<Vec<AppEvent>>,
    events: Seq<GameEvent>,
    now: Instant,
    wall: SystemTime,
    delay: Duration,
    window: Duration,
) -> bool {
    exists|states: Seq<Seq<ScheduledClip>>|
        {
            &&& #[trigger] is_course(states, told, events, now, wall, delay, window)
            &&& states[0] == before
            &&& states.last() == after
        }
}

/// The events of one look at the game, all found at the same time.
pub open spec fn detected_together(
    found: Seq<DetectedEvent>,
    events: Seq<GameEvent>,
    now: Instant,
    wall: SystemTime,
) -> bool {
    &&& found.len() == events.len()
    &&& forall|i: int|
        0 <= i < events.len() ==> (#[trigger] found[i]).event == events[i] && found[i].detected_at
            == now && found[i].detected_wall_time == wall && found[i].game_time is None
}

pub fn detected_events(
    polled: &GamePollResult,
    now: Instant,
    wall: SystemTime,
) -> (r: Vec<DetectedEvent>)
    ensures
        detected_together(r@, polled.events@, now, wall),
{
    let mut r: Vec<DetectedEvent> = Vec::new();
    let mut i: usize = 0;
    while i < polled.events.len()
        invariant
            i <= polled.events.len(),
            detected_together(r@, polled.events@.subrange(0, i as int), now, wall),
        decreases polled.events.len() - i,
    {
        r.push(DetectedEvent::new(polled.events[i].clone(), None, now, wall));
        i = i + 1;
    }
    assert(polled.events@.subrange(0, polled.events@.len() as int) == polled.events@);
    r
}

/// Does the recorder still have to be started?
pub open spec fn start_needed(health: GsrHealth) -> bool {
    !(health is Running || health is SavingReplay || health is Starting)
}

/// Once the game answers, the recorder is started unless it is at work already.
pub fn ensure_gsr_started_after_war_thunder_connected(health: GsrHealth) -> (r: bool)
    ensures
        r == start_needed(health),
{
    match health {
        GsrHealth::Running | GsrHealth::SavingReplay | GsrHealth::Starting => false,
        _ => true,
    }
}

/// The recorder could not be started.
pub fn start_failure(error: &str) -> (r: AppEvent)
    ensures
        r.is_failure("GPU Screen Recorder: "@ + error@),
{
    AppEvent::ClipFailed { message: text::join2("GPU Screen Recorder: ", error) }
}

/// The recorder could not be started again.
pub fn restart_failure(error: &str) -> (r: AppEvent)
    ensures
        r.is_failure("Redémarrage GPU Screen Recorder: "@ + error@),
{
    AppEvent::ClipFailed { message: text::join2("Redémarrage GPU Screen Recorder: ", error) }
}

pub open spec fn save_failure_text(error: Seq<char>, retries: Option<u8>) -> Seq<char> {
    let said = "GPU Screen Recorder n'a pas sauvegardé le clip: "@ + error;
    match retries {
        Some(n) => said + "; retry "@ + text::decimal(n as nat) + "/3"@,
        None => said,
    }
}

fn save_failure(error: &str, retries: Option<u8>) -> (r: String)
    ensures
        r@ == save_failure_text(error@, retries),
{
    let mut r: String = text::join2("GPU Screen Recorder n'a pas sauvegardé le clip: ", error);
    if let Some(n) = retries {
        r.append("; retry ");
        r.append(text::decimal_text(n as u128).as_str());
        r.append("/3");
    }
    r
}

/// What a save that the user asked for is to know.
pub open spec fn request_context(
    c: ClipContext,
    kind: SaveRequest,
    id: Seq<char>,
    player: Option<Seq<char>>,
    replay_seconds: u64,
) -> bool {
    &&& c.reason is Manual
    &&& c.event is None
    &&& c.events@.len() == 0
    &&& text::opt_text(c.player_name) == player
    &&& text::opt_text(c.pending_clip_id) == Some(id)
    &&& text::opt_text(c.pending_dedupe_key) == Some(kind.key_start() + id)
    &&& c.duration_seconds == replay_seconds
    &&& c.post_event_seconds == 0
    &&& c.first_event_time is None
    &&& c.last_event_time is None
}

/// The status of a save that the user asked for, when it starts.
pub open spec fn request_status(
    kind: SaveRequest,
    id: Seq<char>,
    created_at: Seq<char>,
) -> StatusView {
    bare_status(
        id,
        ClipStatus::Recording,
        ClipReason::Manual,
        kind.started_title(),
        created_at,
        Some(35u8),
        None,
    )
}

/// A save that the user asked for has ended. The error is what the user is told.
pub fn requested_save_finished(
    kind: SaveRequest,
    status: ClipStatusPayload,
    saved: &Result<SavedGsrReplay, String>,
) -> (r: (Vec<AppEvent>, Option<String>))
    ensures
        match *saved {
            Ok(replay) => saved_events(r.0@, status@, kind.ready_title(), replay) && r.1 is None,
            Err(error) => {
                let message = kind.failure_start() + error@;
                &&& failed_events(r.0@, status@, "Erreur GPU Replay"@, message)
                &&& text::opt_text(r.1) == Some(message)
            },
        },
{
    match saved {
        Ok(replay) => {
            let title: &str = match kind {
                SaveRequest::Manual => "Clip prêt",
                SaveRequest::Test => "Test GPU Replay prêt",
            };
            (events_of_saved(status, title, replay), None)
        },
        Err(error) => {
            let start: &str = match kind {
                SaveRequest::Manual => "Clip manuel GPU Replay: ",
                SaveRequest::Test => "Test sauvegarde GPU Replay: ",
            };
            let message = text::join2(start, error.as_str());
            let told = Some(message.clone());
            (events_of_failure(status, "Erreur GPU Replay", message), told)
        },
    }
}

/// What the user is told of new settings once the recorder has taken them over,
/// or has not; the answer itself, and an event where something failed.
pub fn config_applied(
    response: RuntimeConfigUpdateResult,
    restarted: &Result<bool, String>,
) -> (r: (RuntimeConfigUpdateResult, Option<AppEvent>))
    ensures
        r.0.applied_live == response.applied_live,
        r.0.restart_required == restarted is Err,
        match *restarted {
            Ok(again) => {
                &&& r.0.message@ == (if again {
                    "Configuration appliquée; GPU Screen Recorder redémarré avec la nouvelle commande."@
                } else {
                    "Configuration appliquée au backend GPU Screen Recorder."@
                })
                &&& r.1 is None
            },
            Err(error) => {
                let message =
                    "Configuration sauvegardée; redémarrage GPU Screen Recorder impossible: "@
                    + error@;
                &&& r.0.message@ == message
                &&& (r.1 matches Some(told) && told.is_failure(message))
            },
        },
{
    match restarted {
        Ok(again) => {
            let message: &str = if *again {
                "Configuration appliquée; GPU Screen Recorder redémarré avec la nouvelle commande."
            } else {
                "Configuration appliquée au backend GPU Screen Recorder."
            };
            let answer = RuntimeConfigUpdateResult {
                applied_live: response.applied_live,
                restart_required: false,
                message: message.to_owned(),
            };
            (answer, None)
        },
        Err(error) => {
            let message = text::join2(
                "Configuration sauvegardée; redémarrage GPU Screen Recorder impossible: ",
                error.as_str(),
            );
            let told = AppEvent::ClipFailed { message: message.clone() };
            let answer = RuntimeConfigUpdateResult {
                applied_live: response.applied_live,
                restart_required: true,
                message,
            };
            (answer, Some(told))
        },
    }
}

impl AutoClip {
    pub open spec fn wf(self) -> bool {
        &&& clips_wf(self.pending_clips@)
        &&& self.config.post_event_delay.valid()
    }

    /// The recorder waits for a game that does not answer yet.
    pub open spec fn is_waiting(self) -> bool {
        let strategy = self.config.capture.capture_strategy;
        (strategy is Auto || strategy is Portal) && self.last_wt_connected != Some(true)
    }

    pub fn new(config: AutoClipConfig, player_name: Option<String>) -> (r: Self)
        requires
            config.post_event_delay.valid(),
        ensures
            r.wf(),
            r.config == config,
            r.player_name == player_name,
            r.cooldown.duration == config.cooldown,
            r.cooldown.last_save is None,
            r.pending_clips@.len() == 0,
            r.last_wt_connected is None,
    {
        let cooldown = Cooldown::new(config.cooldown);
        AutoClip {
            config,
            player_name,
            cooldown,
            pending_clips: Vec::new(),
            last_wt_connected: None,
        }
    }

    pub fn opening(&self) -> (r: Opening)
        ensures
            r == (if self.config.capture.capture_strategy is Auto
                || self.config.capture.capture_strategy is Portal {
                Opening::WaitForWarThunder
            } else {
                Opening::Start
            }),
    {
        if self.config.capture.capture_strategy.should_wait_for_war_thunder() {
            Opening::WaitForWarThunder
        } else {
            Opening::Start
        }
    }

    /// The game answered, or did not. The first answer and every change is told;
    /// when the game begins to answer, the recorder may have to be started.
    pub fn note_connection(&mut self, connected: bool) -> (r: Option<AppEvent>)
        ensures
            *final(self) == (AutoClip { last_wt_connected: Some(connected), ..*old(self) }),
            r is Some <==> old(self).last_wt_connected != Some(connected),
            r matches Some(told) ==> (if connected {
                told is WtConnected
            } else {
                told is WtDisconnected
            }),
    {
        let changed: bool = match self.last_wt_connected {
            Some(before) => before != connected,
            None => true,
        };
        self.last_wt_connected = Some(connected);
        if !changed {
            None
        } else if connected {
            Some(AppEvent::WtConnected)
        } else {
            Some(AppEvent::WtDisconnected)
        }
    }

    /// Takes an event; a clip that it starts gets the given identity.
    pub fn take_event(
        &mut self,
        detected: DetectedEvent,
        clip_id: String,
        created_at: String,
    ) -> (r: Vec<AppEvent>)
        requires
            old(self).wf(),
            detected.detected_at.nanos + old(self).config.post_event_delay.nanos <= u128::MAX,
        ensures
            final(self).wf(),
            *final(self) == (AutoClip { pending_clips: final(self).pending_clips, ..*old(self) }),
            event_taken(
                old(self).pending_clips@,
                final(self).pending_clips@,
                r@,
                detected.event,
                detected.detected_at,
                detected.game_time,
                detected.detected_wall_time,
                old(self).config.post_event_delay,
                old(self).config.multi_kill_window,
            ),
            new_clip_is(
                old(self).pending_clips@,
                final(self).pending_clips@,
                clip_id@,
                created_at@,
            ),
    {
        let delay = self.config.post_event_delay;
        let reason = game_event_kind_to_clip_reason(detected.event.kind);
        let now = detected.detected_at;
        let ghost before = self.pending_clips@;
        let mut told: Vec<AppEvent> = Vec::new();
        told.push(
            AppEvent::KillDetected {
                reason,
                vehicle: text::clone_opt_text(&detected.event.context),
                target: text::clone_opt_text(&detected.event.subject),
                description: detected.event.summary.clone(),
            },
        );
        if holds_event(&self.pending_clips, detected.event.canonical_key.as_str()) {
            return told;
        }
        let position = pending_index_for_multi_kill(
            &self.pending_clips,
            reason,
            now,
            detected.game_time,
            self.config.multi_kill_window,
        );
        if let Some(i) = position {
            assert(!before[i as int].has_key(detected.event.canonical_key@));
            let ghost event = detected.event;
            let added = self.pending_clips[i].add_event(
                detected.event,
                now,
                detected.game_time,
                detected.detected_wall_time,
                delay,
            );
            let pending = &self.pending_clips[i];
            let mut title: String = text::join2(
                "Multi-kill GPU en attente : ",
                text::decimal_text(pending.kill_count() as u128).as_str(),
            );
            title.append(" kills, sauvegarde dans ");
            title.append(text::decimal_text(delay.as_secs() as u128).as_str());
            title.append("s");
            told.push(
                AppEvent::ClipStatusChanged {
                    payload: status_payload(
                        pending,
                        ClipStatus::Detected,
                        pending.reason,
                        title,
                        Some(15),
                        None,
                    ),
                },
            );
            assert(joined_position(
                before,
                reason,
                now,
                detected.game_time,
                self.config.multi_kill_window,
                Some(i as int),
            ));
            return told;
        }
        let mut title: String = text::join2(
            "Clip GPU programmé: ",
            detected.event.summary.as_str(),
        );
        title.append(" (sauvegarde dans ");
        title.append(text::decimal_text(delay.as_secs() as u128).as_str());
        title.append("s)");
        let pending = ScheduledClip::with_identity(
            clip_id,
            created_at,
            detected.event,
            reason,
            now,
            detected.game_time,
            detected.detected_wall_time,
            delay,
        );
        told.push(
            AppEvent::ClipStatusChanged {
                payload: status_payload(
                    &pending,
                    ClipStatus::Detected,
                    reason,
                    title,
                    Some(10),
                    None,
                ),
            },
        );
        self.pending_clips.push(pending);
        assert(self.pending_clips@.drop_last() == before);
        told
    }

    /// Takes an event; a clip that it starts gets a new identity.
    pub fn on_event(&mut self, detected: DetectedEvent) -> (r: Vec<AppEvent>)
        requires
            old(self).wf(),
            detected.detected_at.nanos + old(self).config.post_event_delay.nanos <= u128::MAX,
        ensures
            final(self).wf(),
            *final(self) == (AutoClip { pending_clips: final(self).pending_clips, ..*old(self) }),
            event_taken(
                old(self).pending_clips@,
                final(self).pending_clips@,
                r@,
                detected.event,
                detected.detected_at,
                detected.game_time,
                detected.detected_wall_time,
                old(self).config.post_event_delay,
                old(self).config.multi_kill_window,
            ),
            final(self).pending_clips@.len() > old(self).pending_clips@.len() ==> stamp::is_id(
                final(self).pending_clips@.last().clip_id@,
                "clip_"@,
            ) && stamp::is_utc_time(final(self).pending_clips@.last().created_at@),
    {
        let clip_id = stamp::new_id("clip_");
        self.take_event(detected, clip_id, stamp::utc_time())
    }

    /// One look at the game: what is told of the connection, where that changed,
    /// and of each event.
    pub fn on_poll(&mut self, polled: GamePollResult, now: Instant, wall: SystemTime) -> (r: (
        Option<AppEvent>,
        Vec<Vec<AppEvent>>,
    ))
        requires
            old(self).wf(),
            now.nanos + old(self).config.post_event_delay.nanos <= u128::MAX,
        ensures
            final(self).wf(),
            *final(self) == (AutoClip {
                last_wt_connected: Some(polled.connected),
                pending_clips: final(self).pending_clips,
                ..*old(self)
            }),
            r.0 is Some <==> old(self).last_wt_connected != Some(polled.connected),
            r.0 matches Some(told) ==> (if polled.connected {
                told is WtConnected
            } else {
                told is WtDisconnected
            }),
            events_taken(
                old(self).pending_clips@,
                final(self).pending_clips@,
                r.1@,
                polled.events@,
                now,
                wall,
                old(self).config.post_event_delay,
                old(self).config.multi_kill_window,
            ),
            forall|k: int|
                old(self).pending_clips@.len() <= k < final(self).pending_clips@.len()
                    ==> stamp::is_id((#[trigger] final(self).pending_clips@[k]).clip_id@, "clip_"@)
                    && stamp::is_utc_time(final(self).pending_clips@[k].created_at@),
    {
        let connection = self.note_connection(polled.connected);
        let found = detected_events(&polled, now, wall);
        let ghost begun = self.pending_clips@;
        let ghost base = *self;
        let ghost events = polled.events@;
        let ghost mut states = seq![begun];
        let mut told: Vec<Vec<AppEvent>> = Vec::new();
        let mut i: usize = 0;
        while i < found.len()
            invariant
                i <= found.len(),
                detected_together(found@, events, now, wall),
                self.wf(),
                *self == (AutoClip { pending_clips: self.pending_clips, ..base }),
                now.nanos + base.config.post_event_delay.nanos <= u128::MAX,
                is_course(
                    states,
                    told@,
                    events.subrange(0, i as int),
                    now,
                    wall,
                    base.config.post_event_delay,
                    base.config.multi_kill_window,
                ),
                states[0] == begun,
                states.last() == self.pending_clips@,
                begun.len() <= self.pending_clips@.len(),
                forall|k: int|
                    begun.len() <= k < self.pending_clips@.len() ==> stamp::is_id(
                        (#[trigger] self.pending_clips@[k]).clip_id@,
                        "clip_"@,
                    ) && stamp::is_utc_time(self.pending_clips@[k].created_at@),
            decreases found.len() - i,
        {
            let ghost before = self.pending_clips@;
            let ghost earlier = states;
            let ghost said = told@;
            let detected = found[i].clone();
            let lines = self.on_event(detected);
            told.push(lines);
            proof {
                let after = self.pending_clips@;
                lemma_event_keeps_identities(
                    before,
                    after,
                    lines@,
                    events[i as int],
                    now,
                    None,
                    wall,
                    base.config.post_event_delay,
                    base.config.multi_kill_window,
                );
                states = earlier.push(after);
                let so_far = events.subrange(0, i + 1);
                assert forall|j: int| 0 <= j < so_far.len() implies event_taken(
                    #[trigger] states[j],
                    states[j + 1],
                    told@[j]@,
                    so_far[j],
                    now,
                    None,
                    wall,
                    base.config.post_event_delay,
                    base.config.multi_kill_window,
                ) by {
                    if j < i {
                        assert(states[j] == earlier[j] && states[j + 1] == earlier[j + 1]);
                        assert(told@[j] == said[j]);
                        assert(so_far[j] == events.subrange(0, i as int)[j]);
                    }
                }
                assert forall|k: int| begun.len() <= k < after.len() implies stamp::is_id(
                    (#[trigger] after[k]).clip_id@,
                    "clip_"@,
                ) && stamp::is_utc_time(after[k].created_at@) by {
                    if k < before.len() {
                        assert(after[k].clip_id == before[k].clip_id);
                    } else {
                        assert(after[k] == after.last());
                    }
                }
            }
            i = i + 1;
        }
        assert(events.subrange(0, events.len() as int) == events);
        (connection, told)
    }

    /// A clip that is due is about to be saved: what the save is to know, and
    /// what is told.
    pub fn begin_save(&self, index: usize) -> (r: (ClipContext, AppEvent))
        requires
            self.wf(),
            index < self.pending_clips@.len(),
        ensures
            context_of(
                r.0,
                self.pending_clips@[index as int],
                text::opt_text(self.player_name),
                self.config.capture.replay_seconds,
                self.config.post_event_delay,
            ),
            r.1.is_status(
                bare_status(
                    self.pending_clips@[index as int].clip_id@,
                    ClipStatus::Recording,
                    self.pending_clips@[index as int].reason,
                    "Sauvegarde GPU Replay..."@,
                    self.pending_clips@[index as int].created_at@,
                    Some(35u8),
                    None,
                ),
            ),
    {
        let pending = &self.pending_clips[index];
        let player: Option<&str> = match &self.player_name {
            Some(name) => Some(name.as_str()),
            None => None,
        };
        let context = clip_context_for_pending(
            pending,
            player,
            &self.config,
            self.config.post_event_delay,
        );
        let payload = status_payload(
            pending,
            ClipStatus::Recording,
            pending.reason,
            "Sauvegarde GPU Replay...".to_owned(),
            Some(35),
            None,
        );
        (context, AppEvent::ClipStatusChanged { payload })
    }

    /// A save has ended. A saved clip waits no longer; one that could not be
    /// saved is tried again, unless this was its last try. `due_at` is when the
    /// clip was found to be due, `ended_at` when the save ended.
    pub fn save_ended(
        &mut self,
        index: usize,
        saved: &Result<SavedGsrReplay, String>,
        due_at: Instant,
        ended_at: Instant,
    ) -> (r: Vec<AppEvent>)
        requires
            old(self).wf(),
            index < old(self).pending_clips@.len(),
            ended_at.nanos + RETRY_SECONDS * NANOS_PER_SEC <= u128::MAX,
        ensures
            final(self).wf(),
            *final(self) == (AutoClip {
                pending_clips: final(self).pending_clips,
                cooldown: (Cooldown { last_save: Some(due_at), ..old(self).cooldown }),
                ..*old(self)
            }),
            save_outcome(
                old(self).pending_clips@,
                final(self).pending_clips@,
                r@,
                index as int,
                *saved,
                ended_at,
            ),
    {
        let ghost before = self.pending_clips@;
        match saved {
            Ok(replay) => {
                let pending = self.pending_clips.remove(index);
                let status = status_payload(
                    &pending,
                    ClipStatus::Ready,
                    pending.reason,
                    "Clip prêt".to_owned(),
                    Some(100),
                    None,
                );
                self.cooldown.record_save(due_at);
                events_of_saved(status, "Clip prêt", replay)
            },
            Err(error) => {
                let should_retry = mark_gsr_save_failure_for_retry(
                    &mut self.pending_clips[index],
                    ended_at,
                );
                let pending = &self.pending_clips[index];
                let retries: Option<u8> = if should_retry {
                    Some(pending.retry_count)
                } else {
                    None
                };
                let message = save_failure(error.as_str(), retries);
                let status = status_payload(
                    pending,
                    ClipStatus::Failed,
                    pending.reason,
                    String::new(),
                    None,
                    None,
                );
                let title: &str = if should_retry {
                    "Erreur GPU Replay, nouvel essai..."
                } else {
                    "Erreur GPU Replay"
                };
                let told = events_of_failure(status, title, message);
                self.cooldown.record_save(due_at);
                if !should_retry {
                    self.pending_clips.remove(index);
                    assert(self.pending_clips@ == before.remove(index as int));
                } else {
                    assert(self.pending_clips@ == before.update(
                        index as int,
                        self.pending_clips@[index as int],
                    ));
                }
                told
            },
        }
    }

    /// A save that the user asked for, under the given identity: its status and
    /// what it is to know.
    pub fn requested_save(
        &self,
        kind: SaveRequest,
        id: String,
        created_at: String,
    ) -> (r: (ClipStatusPayload, ClipContext))
        ensures
            r.0@ == request_status(kind, id@, created_at@),
            request_context(
                r.1,
                kind,
                id@,
                text::opt_text(self.player_name),
                self.config.capture.replay_seconds,
            ),
    {
        let title: &str = match kind {
            SaveRequest::Manual => "Sauvegarde GPU Replay...",
            SaveRequest::Test => "Test sauvegarde GPU Replay...",
        };
        let key_start: &str = match kind {
            SaveRequest::Manual => "manual|",
            SaveRequest::Test => "gsr-test|",
        };
        let context = ClipContext {
            reason: ClipReason::Manual,
            event: None,
            events: Vec::new(),
            player_name: text::clone_opt_text(&self.player_name),
            pending_clip_id: Some(id.clone()),
            pending_dedupe_key: Some(text::join2(key_start, id.as_str())),
            duration_seconds: self.config.capture.replay_seconds,
            post_event_seconds: 0,
            first_event_time: None,
            last_event_time: None,
        };
        let status = ClipStatusPayload {
            id,
            status: ClipStatus::Recording,
            reason: ClipReason::Manual,
            title: title.to_owned(),
            created_at,
            file_path: None,
            thumbnail_path: None,
            duration_seconds: None,
            size_bytes: None,
            progress: Some(35),
            error: None,
            exportable_at: None,
            can_export: false,
            retryable: false,
        };
        (status, context)
    }

    /// A save that the user asked for, under a new identity.
    pub fn new_requested_save(&self, kind: SaveRequest) -> (r: (ClipStatusPayload, ClipContext))
        ensures
            stamp::is_id(r.0@.id, kind.id_start()),
            stamp::is_utc_time(r.0@.created_at),
            r.0@ == request_status(kind, r.0@.id, r.0@.created_at),
            request_context(
                r.1,
                kind,
                r.0@.id,
                text::opt_text(self.player_name),
                self.config.capture.replay_seconds,
            ),
    {
        let id = match kind {
            SaveRequest::Manual => stamp::new_id("clip_"),
            SaveRequest::Test => stamp::new_id("gsr_test_"),
        };
        self.requested_save(kind, id, stamp::utc_time())
    }

    /// The user wants the recorder to start again: refused while it waits for
    /// the game.
    pub fn restart_refused(&self) -> (r: Option<AppEvent>)
        ensures
            r is Some <==> self.is_waiting(),
            r matches Some(told) ==> told.is_failure(
                "War Thunder n'est pas encore détecté; GPU Screen Recorder démarrera automatiquement quand l'API localhost sera disponible."@,
            ),
    {
        if self.waits() {
            Some(
                AppEvent::ClipFailed {
                    message: "War Thunder n'est pas encore détecté; GPU Screen Recorder démarrera automatiquement quand l'API localhost sera disponible.".to_owned(),
                },
            )
        } else {
            None
        }
    }

    fn waits(&self) -> (r: bool)
        ensures
            r == self.is_waiting(),
    {
        let connected: bool = match self.last_wt_connected {
            Some(connected) => connected,
            None => false,
        };
        self.config.capture.capture_strategy.should_wait_for_war_thunder() && !connected
    }

    /// Takes over new settings: what the recorder is to do, and the answer so
    /// far. While the recorder waits for the game the answer is final.
    pub fn update_config(&mut self, config: &AppConfig) -> (r: (
        RuntimeConfigUpdateResult,
        ConfigAction,
    ))
        requires
            old(self).wf(),
        ensures
            final(self).wf(),
            *final(self) == (AutoClip { config: final(self).config, ..*old(self) }),
            final(self).config.cooldown == old(self).config.cooldown,
            final(self).config.include_history == old(self).config.include_history,
            final(self).config.triggers == config.triggers,
            final(self).config.capture == config.capture,
            final(self).config.post_event_delay.nanos == config.clip.post_event_seconds
                * NANOS_PER_SEC,
            final(self).config.multi_kill_window.nanos == config.clip.multi_kill_window_seconds
                * NANOS_PER_SEC,
            r.0.applied_live,
            r.1 == (if final(self).is_waiting() {
                ConfigAction::KeepWaiting
            } else {
                ConfigAction::RestartIfNeeded
            }),
            r.1 is KeepWaiting ==> !r.0.restart_required && r.0.message@
                == "Configuration appliquée; GSR attend War Thunder avant de résoudre la cible capture."@,
            r.1 is RestartIfNeeded ==> r.0.restart_required
                == !gpu_screen_recorder::same_settings(
                old(self).config.capture,
                config.capture,
            ),
    {
        let response = apply_runtime_config(&mut self.config, config);
        if self.waits() {
            let answer = RuntimeConfigUpdateResult {
                applied_live: response.applied_live,
                restart_required: false,
                message: "Configuration appliquée; GSR attend War Thunder avant de résoudre la cible capture.".to_owned(),
            };
            (answer, ConfigAction::KeepWaiting)
        } else {
            (response, ConfigAction::RestartIfNeeded)
        }
    }
}

/// What the end of a save does to the clips that wait, and what is told of it.
pub open spec fn save_outcome(
    before: Seq<ScheduledClip>,
    after: Seq<ScheduledClip>,
    told: Seq<AppEvent>,
    index: int,
    saved: Result<SavedGsrReplay, String>,
    ended_at: Instant,
) -> bool {
    let clip = before[index];
    let status = bare_status(
        clip.clip_id@,
        ClipStatus::Failed,
        clip.reason,
        Seq::empty(),
        clip.created_at@,
        None,
        None,
    );
    match saved {
        Ok(replay) => {
            &&& after == before.remove(index)
            &&& saved_events(told, status, "Clip prêt"@, replay)
        },
        Err(error) => {
            if clip.retry_count + 1 < MAX_SAVE_ATTEMPTS {
                let retries = (clip.retry_count + 1) as u8;
                &&& after.len() == before.len()
                &&& after == before.update(index, after[index])
                &&& after[index] == (ScheduledClip {
                    retry_count: retries,
                    save_at: after[index].save_at,
                    ..clip
                })
                &&& after[index].save_at.nanos == ended_at.nanos + RETRY_SECONDS * NANOS_PER_SEC
                &&& failed_events(
                    told,
                    status,
                    "Erreur GPU Replay, nouvel essai..."@,
                    save_failure_text(error@, Some(retries)),
                )
            } else {
                &&& after == before.remove(index)
                &&& failed_events(
                    told,
                    status,
                    "Erreur GPU Replay"@,
                    save_failure_text(error@, None),
                )
            }
        },
    }
}

/// No event waits in two clips.
pub open spec fn keys_apart(pending: Seq<ScheduledClip>) -> bool {
    forall|i: int, j: int, key: Seq<char>|
        0 <= i < j < pending.len() && #[trigger] pending[i].has_key(key) ==> !(
        #[trigger] pending[j].has_key(key))
}

proof fn lemma_keys_after_push(keys: Seq<String>, key: String, k: Seq<char>)
    ensures
        text::texts(keys.push(key)).contains(k) <==> (text::texts(keys).contains(k) || k == key@),
{
    let old_texts = text::texts(keys);
    let new_texts = text::texts(keys.push(key));
    assert(new_texts =~= old_texts.push(key@));
    if old_texts.contains(k) {
        let i = choose|i: int| 0 <= i < old_texts.len() && old_texts[i] == k;
        assert(new_texts[i] == k);
    }
    if k == key@ {
        assert(new_texts[keys.len() as int] == k);
    }
    if new_texts.contains(k) && k != key@ {
        let i = choose|i: int| 0 <= i < new_texts.len() && new_texts[i] == k;
        assert(old_texts[i] == k);
    }
}

/// After an event was taken, some clip holds it: the same event, reported
/// again, changes nothing and starts no second clip.
pub proof fn lemma_event_is_taken_once(
    before: Seq<ScheduledClip>,
    after: Seq<ScheduledClip>,
    told: Seq<AppEvent>,
    again: Seq<ScheduledClip>,
    told_again: Seq<AppEvent>,
    event: GameEvent,
    now: Instant,
    game_time: Option<Duration>,
    wall_time: SystemTime,
    later: Instant,
    later_game_time: Option<Duration>,
    later_wall_time: SystemTime,
    delay: Duration,
    window: Duration,
)
    requires
        event_taken(before, after, told, event, now, game_time, wall_time, delay, window),
        event_taken(
            after,
            again,
            told_again,
            event,
            later,
            later_game_time,
            later_wall_time,
            delay,
            window,
        ),
    ensures
        is_pending(after, event.canonical_key@),
        again == after,
        told_again.len() == 1,
{
    let key = event.canonical_key@;
    let reason = reason_for(event.kind);
    if is_pending(before, key) {
    } else if reason is TargetDestroyed && exists|i: int|
        0 <= i < before.len() && joins(#[trigger] before[i], now, game_time, window) {
        let i = choose|i: int|
            {
                &&& #[trigger] joined_position(before, reason, now, game_time, window, Some(i))
                &&& after.len() == before.len()
                &&& grown(before[i], after[i], event, now, game_time, wall_time, delay)
            };
        lemma_keys_after_push(before[i].event_keys@, event.canonical_key, key);
        assert(after[i].has_key(key));
    } else {
        let clip = after.last();
        assert(text::texts(clip.event_keys@)[0] == key);
        assert(after[after.len() - 1].has_key(key));
    }
}

/// Taking an event never puts one event into two clips.
pub proof fn lemma_keys_stay_apart(
    before: Seq<ScheduledClip>,
    after: Seq<ScheduledClip>,
    told: Seq<AppEvent>,
    event: GameEvent,
    now: Instant,
    game_time: Option<Duration>,
    wall_time: SystemTime,
    delay: Duration,
    window: Duration,
)
    requires
        keys_apart(before),
        event_taken(before, after, told, event, now, game_time, wall_time, delay, window),
    ensures
        keys_apart(after),
{
    let own = event.canonical_key@;
    let reason = reason_for(event.kind);
    if is_pending(before, own) {
    } else if reason is TargetDestroyed && exists|i: int|
        0 <= i < before.len() && joins(#[trigger] before[i], now, game_time, window) {
        let p = choose|i: int|
            {
                &&& #[trigger] joined_position(before, reason, now, game_time, window, Some(i))
                &&& after.len() == before.len()
                &&& forall|j: int| 0 <= j < before.len() && j != i ==> after[j] == before[j]
                &&& grown(before[i], after[i], event, now, game_time, wall_time, delay)
            };
        assert forall|i: int, j: int, key: Seq<char>|
            0 <= i < j < after.len() && #[trigger] after[i].has_key(key) implies !(
        #[trigger] after[j].has_key(key)) by {
            lemma_keys_after_push(before[p].event_keys@, event.canonical_key, key);
            assert(before[i].has_key(key) || (i == p && key == own));
            if after[j].has_key(key) {
                assert(before[j].has_key(key) || (j == p && key == own));
            }
        }
    } else {
        assert forall|i: int, j: int, key: Seq<char>|
            0 <= i < j < after.len() && #[trigger] after[i].has_key(key) implies !(
        #[trigger] after[j].has_key(key)) by {
            assert(after.drop_last()[i] == after[i]);
            assert(before[i].has_key(key));
            if j < before.len() {
                assert(after.drop_last()[j] == after[j]);
            } else if after[j].has_key(key) {
                let keys = text::texts(after.last().event_keys@);
                let k = choose|k: int| 0 <= k < keys.len() && keys[k] == key;
                assert(k == 0);
                assert(is_pending(before, own));
            }
        }
    }
}

/// A clip is tried at most three times: every clip that waits has been tried
/// less often, and this stays so whatever happens.
pub open spec fn has_tries_left(pending: Seq<ScheduledClip>) -> bool {
    forall|i: int| 0 <= i < pending.len() ==> (#[trigger] pending[i]).retry_count < MAX_SAVE_ATTEMPTS
}

/// No clip is tried more than three times: a clip that is dropped after a
/// failure has been tried three times, and one that is kept less often.
pub proof fn lemma_three_tries(
    before: Seq<ScheduledClip>,
    after: Seq<ScheduledClip>,
    told: Seq<AppEvent>,
    index: int,
    saved: Result<SavedGsrReplay, String>,
    ended_at: Instant,
)
    requires
        has_tries_left(before),
        0 <= index < before.len(),
        save_outcome(before, after, told, index, saved, ended_at),
    ensures
        has_tries_left(after),
        saved is Err ==> (after.len() < before.len() <==> before[index].retry_count + 1
            == MAX_SAVE_ATTEMPTS),
{
    assert(before[index].retry_count < MAX_SAVE_ATTEMPTS);
}

/// Events leave the number of tries alone.
pub proof fn lemma_events_keep_tries(
    before: Seq<ScheduledClip>,
    after: Seq<ScheduledClip>,
    told: Seq<AppEvent>,
    event: GameEvent,
    now: Instant,
    game_time: Option<Duration>,
    wall_time: SystemTime,
    delay: Duration,
    window: Duration,
)
    requires
        has_tries_left(before),
        event_taken(before, after, told, event, now, game_time, wall_time, delay, window),
    ensures
        has_tries_left(after),
{
    let own = event.canonical_key@;
    let reason = reason_for(event.kind);
    if is_pending(before, own) {
    } else if reason is TargetDestroyed && exists|i: int|
        0 <= i < before.len() && joins(#[trigger] before[i], now, game_time, window) {
    } else {
        assert forall|i: int| 0 <= i < after.len() implies (#[trigger] after[i]).retry_count
            < MAX_SAVE_ATTEMPTS by {
            if i < before.len() {
                assert(after.drop_last()[i] == after[i]);
                assert(before[i].retry_count < MAX_SAVE_ATTEMPTS);
            }
        }
    }
}

/// Saving the clips that are due from the last to the first is safe: the end
/// of one save leaves every clip before it where it was.
pub proof fn lemma_earlier_clips_stay(
    before: Seq<ScheduledClip>,
    after: Seq<ScheduledClip>,
    told: Seq<AppEvent>,
    index: int,
    earlier: int,
    saved: Result<SavedGsrReplay, String>,
    ended_at: Instant,
)
    requires
        0 <= earlier < index < before.len(),
        save_outcome(before, after, told, index, saved, ended_at),
    ensures
        earlier < after.len(),
        after[earlier] == before[earlier],
{
    if saved is Err && before[index].retry_count + 1 < MAX_SAVE_ATTEMPTS {
        assert(before.update(index, after[index])[earlier] == before[earlier]);
    }
}

/// Kills that follow each other soon enough share a clip: a new kill that some
/// waiting clip can take starts no clip of its own, and a clip of kills that it
/// joins becomes a multi-kill.
pub proof fn lemma_close_kills_share_a_clip(
    before: Seq<ScheduledClip>,
    after: Seq<ScheduledClip>,
    told: Seq<AppEvent>,
    event: GameEvent,
    now: Instant,
    game_time: Option<Duration>,
    wall_time: SystemTime,
    delay: Duration,
    window: Duration,
    open: int,
) -> (joined: int)
    requires
        event_taken(before, after, told, event, now, game_time, wall_time, delay, window),
        event.kind is Kill,
        !is_pending(before, event.canonical_key@),
        0 <= open < before.len(),
        joins(before[open], now, game_time, window),
    ensures
        0 <= joined <= open,
        after.len() == before.len(),
        after[joined].clip_id == before[joined].clip_id,
        after[joined].events@ == before[joined].events@.push(event),
        after[joined].save_at.nanos == now.nanos + delay.nanos,
        all_kills(before[joined].events@) ==> after[joined].reason is MultiKill,
{
    let reason = reason_for(event.kind);
    let i = choose|i: int|
        {
            &&& #[trigger] joined_position(before, reason, now, game_time, window, Some(i))
            &&& after.len() == before.len()
            &&& grown(before[i], after[i], event, now, game_time, wall_time, delay)
        };
    if i > open {
        assert(!joins(before[open], now, game_time, window));
    }
    let events = before[i].events@;
    if all_kills(events) {
        assert forall|k: int| 0 <= k < events.push(event).len() implies (#[trigger] events.push(
            event,
        )[k]).kind is Kill by {
            if k < events.len() {
                assert(events[k].kind is Kill);
            }
        }
    }
    i
}

/// An event that joins no clip gets one of its own, also where a save has just
/// been made.
pub proof fn lemma_other_events_get_their_own_clip(
    before: Seq<ScheduledClip>,
    after: Seq<ScheduledClip>,
    told: Seq<AppEvent>,
    event: GameEvent,
    now: Instant,
    game_time: Option<Duration>,
    wall_time: SystemTime,
    delay: Duration,
    window: Duration,
)
    requires
        event_taken(before, after, told, event, now, game_time, wall_time, delay, window),
        !is_pending(before, event.canonical_key@),
        !(event.kind is Kill) || forall|i: int|
            0 <= i < before.len() ==> !joins(#[trigger] before[i], now, game_time, window),
    ensures
        after.len() == before.len() + 1,
        after.drop_last() == before,
        after.last().events@ == seq![event],
        after.last().save_at.nanos == now.nanos + delay.nanos,
{
}

/// Taking an event leaves every clip under its identifier, with the time of its
/// making and at its place, and adds at most one at the end.
pub proof fn lemma_event_keeps_identities(
    before: Seq<ScheduledClip>,
    after: Seq<ScheduledClip>,
    told: Seq<AppEvent>,
    event: GameEvent,
    now: Instant,
    game_time: Option<Duration>,
    wall_time: SystemTime,
    delay: Duration,
    window: Duration,
)
    requires
        event_taken(before, after, told, event, now, game_time, wall_time, delay, window),
    ensures
        before.len() <= after.len() <= before.len() + 1,
        forall|k: int|
            0 <= k < before.len() ==> (#[trigger] after[k]).clip_id == before[k].clip_id
                && after[k].created_at == before[k].created_at,
{
    if after.len() > before.len() {
        assert forall|k: int| 0 <= k < before.len() implies (#[trigger] after[k]).clip_id
            == before[k].clip_id && after[k].created_at == before[k].created_at by {
            assert(after.drop_last()[k] == after[k]);
        }
    }
}

/// However many events one look at the game brings: afterwards some clip holds
/// each of them, and still no event waits in two clips.
pub proof fn lemma_poll_takes_every_event_once(
    before: Seq<ScheduledClip>,
    after: Seq<ScheduledClip>,
    told: Seq<Vec<AppEvent>>,
    events: Seq<GameEvent>,
    now: Instant,
    wall: SystemTime,
    delay: Duration,
    window: Duration,
)
    requires
        keys_apart(before),
        events_taken(before, after, told, events, now, wall, delay, window),
    ensures
        keys_apart(after),
        forall|i: int|
            0 <= i < events.len() ==> is_pending(after, (#[trigger] events[i]).canonical_key@),
{
    let states = choose|states: Seq<Seq<ScheduledClip>>|
        {
            &&& #[trigger] is_course(states, told, events, now, wall, delay, window)
            &&& states[0] == before
            &&& states.last() == after
        };
    lemma_course(states, told, events, now, wall, delay, window, events.len() as int);
}

proof fn lemma_course(
    states: Seq<Seq<ScheduledClip>>,
    told: Seq<Vec<AppEvent>>,
    events: Seq<GameEvent>,
    now: Instant,
    wall: SystemTime,
    delay: Duration,
    window: Duration,
    n: int,
)
    requires
        is_course(states, told, events, now, wall, delay, window),
        keys_apart(states[0]),
        0 <= n <= events.len(),
    ensures
        keys_apart(states[n]),
        forall|i: int|
            0 <= i < n ==> is_pending(states[n], (#[trigger] events[i]).canonical_key@),
    decreases n,
{
    if n > 0 {
        let m = n - 1;
        lemma_course(states, told, events, now, wall, delay, window, m);
        let before = states[m];
        let after = states[m + 1];
        lemma_keys_stay_apart(
            before,
            after,
            told[m]@,
            events[m],
            now,
            None,
            wall,
            delay,
            window,
        );
        lemma_taken_event_is_held(
            before,
            after,
            told[m]@,
            events[m],
            now,
            None,
            wall,
            delay,
            window,
        );
        assert forall|i: int| 0 <= i < n implies is_pending(
            states[n],
            (#[trigger] events[i]).canonical_key@,
        ) by {
            if i < m {
                assert(is_pending(before, events[i].canonical_key@));
            }
        }
    }
}

/// After an event was taken, some clip holds it, and every event that was held
/// still is.
proof fn lemma_taken_event_is_held(
    before: Seq<ScheduledClip>,
    after: Seq<ScheduledClip>,
    told: Seq<AppEvent>,
    event: GameEvent,
    now: Instant,
    game_time: Option<Duration>,
    wall_time: SystemTime,
    delay: Duration,
    window: Duration,
)
    requires
        event_taken(before, after, told, event, now, game_time, wall_time, delay, window),
    ensures
        is_pending(after, event.canonical_key@),
        forall|key: Seq<char>| #[trigger] is_pending(before, key) ==> is_pending(after, key),
{
    let own = event.canonical_key@;
    let reason = reason_for(event.kind);
    if is_pending(before, own) {
    } else if reason is TargetDestroyed && exists|i: int|
        0 <= i < before.len() && joins(#[trigger] before[i], now, game_time, window) {
        let p = choose|i: int|
            {
                &&& #[trigger] joined_position(before, reason, now, game_time, window, Some(i))
                &&& after.len() == before.len()
                &&& forall|j: int| 0 <= j < before.len() && j != i ==> after[j] == before[j]
                &&& grown(before[i], after[i], event, now, game_time, wall_time, delay)
            };
        lemma_keys_after_push(before[p].event_keys@, event.canonical_key, own);
        assert(after[p].has_key(own));
        assert forall|key: Seq<char>| #[trigger] is_pending(before, key) implies is_pending(
            after,
            key,
        ) by {
            let i = choose|i: int| 0 <= i < before.len() && (#[trigger] before[i]).has_key(key);
            lemma_keys_after_push(before[p].event_keys@, event.canonical_key, key);
            assert(after[i].has_key(key));
        }
    } else {
        assert(text::texts(after.last().event_keys@)[0] == own);
        assert(after[after.len() - 1].has_key(own));
        assert forall|key: Seq<char>| #[trigger] is_pending(before, key) implies is_pending(
            after,
            key,
        ) by {
            let i = choose|i: int| 0 <= i < before.len() && (#[trigger] before[i]).has_key(key);
            assert(after.drop_last()[i] == after[i]);
            assert(after[i].has_key(key));
        }
    }
}

/// A waiting clip can take a kill at this time: it is a clip of kills, its save is
/// not due, and the kill follows its last event within the window. The game's
/// clock counts where it is known of both, else the machine's.
pub open spec fn can_take(
    clip: ScheduledClip,
    now: Instant,
    game_time: Option<Duration>,
    window: Duration,
) -> bool {
    &&& clip.reason == ClipReason::TargetDestroyed || clip.reason == ClipReason::MultiKill
    &&& now.nanos < clip.save_at.nanos
    &&& if game_time is Some && clip.last_event_game_time is Some {
        let last = clip.last_event_game_time->0.nanos;
        last <= game_time->0.nanos <= last + window.nanos
    } else {
        now.nanos <= clip.last_event_time.nanos + window.nanos
    }
}

proof fn lemma_can_take(
    clip: ScheduledClip,
    now: Instant,
    game_time: Option<Duration>,
    window: Duration,
)
    ensures
        can_take(clip, now, game_time, window) == joins(clip, now, game_time, window),
{
}

/// A new kill goes into the oldest waiting clip that can take it. The clip then
/// holds the kill as its last event and waits for what follows it. It keeps its
/// identity, its first event and its tries, and is a multi-kill where it holds
/// nothing but kills. The other clips stay as they are.
pub proof fn lemma_kill_joins_the_oldest_clip(
    before: Seq<ScheduledClip>,
    after: Seq<ScheduledClip>,
    told: Seq<AppEvent>,
    event: GameEvent,
    now: Instant,
    game_time: Option<Duration>,
    wall_time: SystemTime,
    delay: Duration,
    window: Duration,
    oldest: int,
)
    requires
        event_taken(before, after, told, event, now, game_time, wall_time, delay, window),
        event.kind == GameEventKind::Kill,
        forall|i: int|
            0 <= i < before.len() ==> !text::texts((#[trigger] before[i]).event_keys@).contains(
                event.canonical_key@,
            ),
        0 <= oldest < before.len(),
        can_take(before[oldest], now, game_time, window),
        forall|i: int|
            0 <= i < oldest ==> !can_take(#[trigger] before[i], now, game_time, window),
    ensures
        after.len() == before.len(),
        forall|i: int|
            0 <= i < before.len() && i != oldest ==> #[trigger] after[i] == before[i],
        ({
            let was = before[oldest];
            let is = after[oldest];
            &&& is.events@ == was.events@.push(event)
            &&& is.event_keys@ == was.event_keys@.push(event.canonical_key)
            &&& is.descriptions@ == was.descriptions@.push(event.summary)
            &&& is.save_at.nanos == now.nanos + delay.nanos
            &&& is.last_event_time == now
            &&& is.last_event_wall_time == wall_time
            &&& is.first_event_wall_time == was.first_event_wall_time
            &&& is.clip_id == was.clip_id
            &&& is.created_at == was.created_at
            &&& is.retry_count == was.retry_count
            &&& game_time is Some ==> is.last_event_game_time == game_time
            &&& game_time is None ==> is.last_event_game_time == was.last_event_game_time
            &&& (forall|k: int|
                0 <= k < was.events@.len() ==> (#[trigger] was.events@[k]).kind
                    == GameEventKind::Kill) ==> is.reason == ClipReason::MultiKill
            &&& (exists|k: int|
                0 <= k < was.events@.len() && (#[trigger] was.events@[k]).kind
                    != GameEventKind::Kill) ==> is.reason == was.reason
        }),
{
    let reason = reason_for(event.kind);
    assert forall|i: int| 0 <= i < before.len() implies can_take(
        #[trigger] before[i],
        now,
        game_time,
        window,
    ) == joins(before[i], now, game_time, window) by {
        lemma_can_take(before[i], now, game_time, window);
    }
    assert(joins(before[oldest], now, game_time, window));
    assert(!is_pending(before, event.canonical_key@));
    let i = choose|i: int|
        {
            &&& #[trigger] joined_position(before, reason, now, game_time, window, Some(i))
            &&& after.len() == before.len()
            &&& forall|j: int| 0 <= j < before.len() && j != i ==> after[j] == before[j]
            &&& grown(before[i], after[i], event, now, game_time, wall_time, delay)
        };
    if i < oldest {
        assert(!can_take(before[i], now, game_time, window));
    }
    if i > oldest {
        assert(!joins(before[oldest], now, game_time, window));
    }
    let events = before[oldest].events@;
    let more = events.push(event);
    if exists|k: int| 0 <= k < events.len() && (#[trigger] events[k]).kind != GameEventKind::Kill {
        let k = choose|k: int|
            0 <= k < events.len() && (#[trigger] events[k]).kind != GameEventKind::Kill;
        assert(more[k] == events[k]);
        assert(!all_kills(more));
    } else {
        assert forall|k: int| 0 <= k < more.len() implies (#[trigger] more[k]).kind is Kill by {
            if k < events.len() {
                assert(events[k].kind == GameEventKind::Kill);
            }
        }
    }
}

/// A new event that no waiting clip can take starts a clip at the end: of this
/// one event, for the reason that its kind gives, due once the seconds after it
/// are over. The clips that waited stay as they are.
pub proof fn lemma_other_event_starts_a_clip(
    before: Seq<ScheduledClip>,
    after: Seq<ScheduledClip>,
    told: Seq<AppEvent>,
    event: GameEvent,
    now: Instant,
    game_time: Option<Duration>,
    wall_time: SystemTime,
    delay: Duration,
    window: Duration,
)
    requires
        event_taken(before, after, told, event, now, game_time, wall_time, delay, window),
        forall|i: int|
            0 <= i < before.len() ==> !text::texts((#[trigger] before[i]).event_keys@).contains(
                event.canonical_key@,
            ),
        event.kind == GameEventKind::Kill ==> forall|i: int|
            0 <= i < before.len() ==> !can_take(#[trigger] before[i], now, game_time, window),
    ensures
        after.len() == before.len() + 1,
        forall|i: int| 0 <= i < before.len() ==> #[trigger] after[i] == before[i],
        ({
            let clip = after[before.len() as int];
            &&& clip.events@ == seq![event]
            &&& clip.event_keys@ == seq![event.canonical_key]
            &&& clip.descriptions@ == seq![event.summary]
            &&& clip.save_at.nanos == now.nanos + delay.nanos
            &&& clip.last_event_time == now
            &&& clip.last_event_game_time == game_time
            &&& clip.first_event_wall_time == wall_time
            &&& clip.last_event_wall_time == wall_time
            &&& clip.retry_count == 0
            &&& clip.reason == (match event.kind {
                GameEventKind::Kill => ClipReason::TargetDestroyed,
                GameEventKind::Death => ClipReason::PlayerDestroyed,
                GameEventKind::Objective => ClipReason::BaseDestroyed,
                GameEventKind::MultiKill => ClipReason::MultiKill,
                GameEventKind::Other => ClipReason::Unknown,
            })
        }),
{
    assert forall|i: int| 0 <= i < before.len() implies can_take(
        #[trigger] before[i],
        now,
        game_time,
        window,
    ) == joins(before[i], now, game_time, window) by {
        lemma_can_take(before[i], now, game_time, window);
    }
    assert(!is_pending(before, event.canonical_key@));
    assert forall|i: int| 0 <= i < before.len() implies #[trigger] after[i] == before[i] by {
        assert(after.drop_last()[i] == after[i]);
    }
    assert(after.last() == after[before.len() as int]);
}

/// An event is told of once when it is found, and with the clip it goes into, by
/// the clip's identifier and reason.
pub proof fn lemma_event_is_told(
    before: Seq<ScheduledClip>,
    after: Seq<ScheduledClip>,
    told: Seq<AppEvent>,
    event: GameEvent,
    now: Instant,
    game_time: Option<Duration>,
    wall_time: SystemTime,
    delay: Duration,
    window: Duration,
)
    requires
        event_taken(before, after, told, event, now, game_time, wall_time, delay, window),
    ensures
        told.len() >= 1,
        told[0] matches AppEvent::KillDetected { reason, vehicle, target, description } && reason
            == reason_for(event.kind) && text::opt_text(vehicle) == text::opt_text(event.context)
            && text::opt_text(target) == text::opt_text(event.subject) && description@
            == event.summary@,
        told.len() == 2 <==> after != before,
        told.len() <= 2,
        told.len() == 2 ==> (told[1] matches AppEvent::ClipStatusChanged { payload }
            && payload.status == ClipStatus::Detected && exists|k: int|
            0 <= k < after.len() && payload.id@ == (#[trigger] after[k]).clip_id@ && payload.reason
                == after[k].reason && payload.created_at@ == after[k].created_at@
                && after[k].has_key(event.canonical_key@)),
{
    let key = event.canonical_key@;
    let reason = reason_for(event.kind);
    if is_pending(before, key) {
    } else if reason is TargetDestroyed && exists|i: int|
        0 <= i < before.len() && joins(#[trigger] before[i], now, game_time, window) {
        let i = choose|i: int|
            {
                &&& #[trigger] joined_position(before, reason, now, game_time, window, Some(i))
                &&& after.len() == before.len()
                &&& grown(before[i], after[i], event, now, game_time, wall_time, delay)
                &&& told[1].is_status(
                    bare_status(
                        after[i].clip_id@,
                        ClipStatus::Detected,
                        after[i].reason,
                        multi_kill_title(kills_in(after[i].events@), delay),
                        after[i].created_at@,
                        Some(15u8),
                        None,
                    ),
                )
            };
        lemma_keys_after_push(before[i].event_keys@, event.canonical_key, key);
        assert(after[i].has_key(key));
        assert(after[i].events@.len() == before[i].events@.len() + 1);
    } else {
        let clip = after[after.len() - 1];
        assert(clip == after.last());
        assert(text::texts(clip.event_keys@)[0] == key);
        assert(clip.has_key(key));
    }
}

/// The clips that are due are all those, and only those, whose time has come.
pub proof fn lemma_due_clips(pending: Seq<ScheduledClip>, now: Instant)
    ensures
        forall|i: int|
            #[trigger] ready_positions(pending, now).contains(i) <==> 0 <= i < pending.len()
                && pending[i].save_at.nanos <= now.nanos,
        forall|j: int, k: int|
            0 <= j < k < ready_positions(pending, now).len() ==> (#[trigger] ready_positions(
                pending,
                now,
            )[j]) < (#[trigger] ready_positions(pending, now)[k]),
    decreases pending.len(),
{
    if pending.len() > 0 {
        let front = pending.drop_last();
        lemma_due_clips(front, now);
        let r = ready_positions(pending, now);
        let s = ready_positions(front, now);
        assert forall|i: int| #[trigger] r.contains(i) <==> 0 <= i < pending.len()
            && pending[i].save_at.nanos <= now.nanos by {
            if s.contains(i) {
                let k = choose|k: int| 0 <= k < s.len() && s[k] == i;
                assert(r[k] == i);
                assert(front[i] == pending[i]);
            }
            if pending.last().ready(now) {
                assert(r[s.len() as int] == pending.len() - 1);
            }
            if r.contains(i) {
                let k = choose|k: int| 0 <= k < r.len() && r[k] == i;
                if k < s.len() {
                    assert(s[k] == i);
                    assert(s.contains(i));
                }
            }
            if 0 <= i < front.len() {
                assert(front[i] == pending[i]);
            }
        }
        assert forall|j: int, k: int| 0 <= j < k < r.len() implies (#[trigger] r[j]) < (
        #[trigger] r[k]) by {
            assert(s[j] == r[j]);
            assert(s.contains(s[j]));
            if k < s.len() {
                assert(s[k] == r[k]);
            }
        }
    }
}

/// What a clip is saved with: it reaches from its first event to its last one, as
/// long as the recorder keeps and with the seconds after its events that are set,
/// and it tells all of its events and the clip's own identifier.
pub proof fn lemma_saved_clip_spans_its_events(
    first: ScheduledClip,
    clip: ScheduledClip,
    one: GameEvent,
    reason: ClipReason,
    one_at: Instant,
    one_wall: SystemTime,
    other: GameEvent,
    other_at: Instant,
    other_wall: SystemTime,
    delay: Duration,
    c: ClipContext,
    player: Option<Seq<char>>,
    replay_seconds: u64,
)
    requires
        first.starts_with(one, reason, one_at, None, one_wall, delay),
        grown(first, clip, other, other_at, None, other_wall, delay),
        context_of(c, clip, player, replay_seconds, delay),
    ensures
        c.first_event_time == Some(one_wall),
        c.last_event_time == Some(other_wall),
        c.event == Some(one),
        c.events@ == seq![one, other],
        c.duration_seconds == replay_seconds,
        c.post_event_seconds == delay.nanos / 1_000_000_000,
        text::opt_text(c.player_name) == player,
        c.pending_clip_id == Some(first.clip_id),
        c.reason == clip.reason,
{
    assert(clip.events@ =~= seq![one, other]);
}

/// A saved clip is told of as ready, with its file, its picture, its length and
/// its size, under its own identifier and reason, and waits no more.
pub proof fn lemma_saved_clip_is_ready(
    before: Seq<ScheduledClip>,
    after: Seq<ScheduledClip>,
    told: Seq<AppEvent>,
    index: int,
    replay: SavedGsrReplay,
    ended_at: Instant,
)
    requires
        0 <= index < before.len(),
        save_outcome(before, after, told, index, Ok(replay), ended_at),
    ensures
        after.len() == before.len() - 1,
        forall|i: int| 0 <= i < index ==> #[trigger] after[i] == before[i],
        forall|i: int| index <= i < after.len() ==> #[trigger] after[i] == before[i + 1],
        told.len() == 2,
        told[0] matches AppEvent::ClipStatusChanged { payload } && {
            &&& payload.status == ClipStatus::Ready
            &&& payload.id@ == before[index].clip_id@
            &&& payload.reason == before[index].reason
            &&& payload.created_at@ == before[index].created_at@
            &&& text::opt_text(payload.file_path) == Some(replay.final_video_path@)
            &&& text::opt_text(payload.thumbnail_path) == text::opt_text(replay.thumbnail_path)
            &&& payload.duration_seconds == Some(replay.duration_seconds)
            &&& payload.size_bytes == Some(replay.size_bytes)
            &&& payload.progress == Some(100u8)
            &&& payload.error is None
        },
        told[1] matches AppEvent::ClipSaved { path, reason, duration_seconds, size_bytes }
            && path@ == replay.final_video_path@ && reason == before[index].reason
            && duration_seconds == replay.duration_seconds && size_bytes == replay.size_bytes,
{
}

/// A clip whose save failed is told of as failed, with what went wrong. It waits
/// two seconds more until it has failed three times, and no clip but it changes.
pub proof fn lemma_failed_clip_waits_or_goes(
    before: Seq<ScheduledClip>,
    after: Seq<ScheduledClip>,
    told: Seq<AppEvent>,
    index: int,
    error: String,
    ended_at: Instant,
)
    requires
        0 <= index < before.len(),
        save_outcome(before, after, told, index, Err(error), ended_at),
    ensures
        before[index].retry_count < 2 ==> {
            &&& after.len() == before.len()
            &&& after[index].save_at.nanos == ended_at.nanos + 2_000_000_000
            &&& after[index].retry_count == before[index].retry_count + 1
            &&& after[index].events@ == before[index].events@
            &&& after[index].clip_id == before[index].clip_id
            &&& after[index].reason == before[index].reason
            &&& after[index].first_event_wall_time == before[index].first_event_wall_time
            &&& after[index].last_event_wall_time == before[index].last_event_wall_time
            &&& forall|i: int|
                0 <= i < before.len() && i != index ==> #[trigger] after[i] == before[i]
        },
        before[index].retry_count >= 2 ==> {
            &&& after.len() == before.len() - 1
            &&& forall|i: int| 0 <= i < index ==> #[trigger] after[i] == before[i]
            &&& forall|i: int| index <= i < after.len() ==> #[trigger] after[i] == before[i + 1]
        },
        told.len() == 2,
        told[0] matches AppEvent::ClipStatusChanged { payload } && {
            &&& payload.status == ClipStatus::Failed
            &&& payload.id@ == before[index].clip_id@
            &&& payload.reason == before[index].reason
            &&& payload.file_path is None
            &&& payload.error is Some
            &&& text::occurs_in(payload.error->0@, error@)
            &&& told[1] matches AppEvent::ClipFailed { message } && message@ == payload.error->0@
        },
{
    let said = "GPU Screen Recorder n'a pas sauvegardé le clip: "@;
    let whole = said + error@;
    assert(whole.subrange(said.len() as int, whole.len() as int) =~= error@);
    assert(text::matches_at(whole, error@, said.len() as int));
    let retries = (before[index].retry_count + 1) as u8;
    let longer = save_failure_text(error@, Some(retries));
    assert(longer.subrange(said.len() as int, said.len() as int + error@.len()) =~= error@);
    assert(text::matches_at(longer, error@, said.len() as int));
}

}
