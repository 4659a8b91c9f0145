//! GPU Screen Recorder: the command that starts it, the process that runs it,
//! and the replays that it saves.

use vstd::prelude::*;
use vstd::string::*;
use crate::app::clip_types::{ClipContext, ClipReason};
use crate::capture::concat::FoundFile;
use crate::capture::output;
use crate::config;
use crate::config::{
    CaptureConfig, CaptureStrategy, GpuScreenRecorderMode, GsrBitrateMode, GsrCodec, GsrContainer,
    GsrEncoder, GsrFrameRateMode, GsrQuality,
};
use crate::desktop::editor;
use crate::games::event::{GameEvent, GameEventKind};
use crate::number;
use crate::number::{Double, Single};
use crate::path;
use crate::stamp;
use crate::text;
use crate::time::{Duration, Instant, SystemTime, NANOS_PER_SEC};

verus! {

/// How the recorder is installed.
#[derive(Clone, Copy, Debug, PartialEq, Eq, Structural)]
pub enum GsrMode {
    Native,
    Flatpak,
}

#[derive(Clone, Copy, Debug, PartialEq, Eq, Structural)]
pub enum GsrHealth {
    NotAvailable,
    Stopped,
    Starting,
    Running,
    SavingReplay,
    Error,
}

/// What the recorder finds on the machine that it is to run on.
#[derive(Debug)]
pub struct GsrEnvironment {
    /// The home directory.
    pub home: Option<String>,
    /// The value of `XDG_SESSION_TYPE`.
    pub xdg_session_type: Option<String>,
    /// Is `WAYLAND_DISPLAY` set?
    pub has_wayland_display: bool,
    /// Is `DISPLAY` set?
    pub has_display: bool,
    /// Is the recorder installed as a program of its own?
    pub native_available: bool,
    /// Is Flatpak installed?
    pub flatpak_available: bool,
    /// The monitors that the recorder lists; none where it could not be asked.
    pub listed_monitors: Option<Vec<String>>,
    /// The identifier of the game's window, where X11 shows one.
    pub war_thunder_window: Option<String>,
}

/// Why the recorder cannot be started.
#[derive(Debug)]
pub enum GsrCommandError {
    HomeNotSet,
    OutputDirNotAbsolute(String),
    NotFound,
}

impl GsrCommandError {
    pub open spec fn text_of(self) -> Seq<char> {
        match self {
            GsrCommandError::HomeNotSet => "HOME is not set"@,
            GsrCommandError::OutputDirNotAbsolute(dir) =>
                "GPU Screen Recorder output_dir must be absolute: "@ + dir@,
            GsrCommandError::NotFound =>
                "GPU Screen Recorder not found: install native gpu-screen-recorder or Flatpak"@,
        }
    }

    pub fn message(&self) -> (r: String)
        ensures
            r@ == self.text_of(),
    {
        match self {
            GsrCommandError::HomeNotSet => "HOME is not set".to_owned(),
            GsrCommandError::OutputDirNotAbsolute(dir) => text::join2(
                "GPU Screen Recorder output_dir must be absolute: ",
                dir.as_str(),
            ),
            GsrCommandError::NotFound =>
                "GPU Screen Recorder not found: install native gpu-screen-recorder or Flatpak".to_owned(),
        }
    }
}

/// The recorder's command.
#[derive(Debug)]
pub struct GsrCommandLine {
    pub mode: GsrMode,
    pub program: String,
    pub args: Vec<String>,
    pub command_line: String,
    pub output_dir: String,
    pub output_prefix: String,
    pub target: String,
    pub capture_strategy: CaptureStrategy,
    pub session_type: String,
    pub target_reason: String,
}

/// The kind of the desktop session: what the environment calls it, else what
/// the displays in it suggest.
pub open spec fn session_of(xdg: Option<Seq<char>>, wayland: bool, x11: bool) -> Seq<char> {
    let named = match xdg {
        Some(value) => text::ascii_lowered(text::trim_of(value)),
        None => seq![],
    };
    if named.len() > 0 {
        named
    } else if wayland {
        "wayland"@
    } else if x11 {
        "x11"@
    } else {
        "unknown"@
    }
}

pub fn session_type(
    xdg_session_type: &Option<String>,
    has_wayland_display: bool,
    has_display: bool,
) -> (r: String)
    ensures
        r@ == session_of(text::opt_text(*xdg_session_type), has_wayland_display, has_display),
{
    if let Some(value) = xdg_session_type {
        let value = text::to_ascii_lowercase(text::trim(value.as_str()));
        if !value.as_str().is_empty() {
            return value;
        }
    }
    if has_wayland_display {
        "wayland".to_owned()
    } else if has_display {
        "x11".to_owned()
    } else {
        "unknown".to_owned()
    }
}

/// How to run the recorder; nowhere to be found where it may be either way and
/// is installed neither way.
pub open spec fn mode_of(
    mode: GpuScreenRecorderMode,
    native_available: bool,
    flatpak_available: bool,
) -> Option<GsrMode> {
    match mode {
        GpuScreenRecorderMode::Native => Some(GsrMode::Native),
        GpuScreenRecorderMode::Flatpak => Some(GsrMode::Flatpak),
        GpuScreenRecorderMode::Auto => if native_available {
            Some(GsrMode::Native)
        } else if flatpak_available {
            Some(GsrMode::Flatpak)
        } else {
            None
        },
    }
}

pub fn resolve_mode(
    mode: GpuScreenRecorderMode,
    native_available: bool,
    flatpak_available: bool,
) -> (r: Result<GsrMode, GsrCommandError>)
    ensures
        match r {
            Ok(found) => mode_of(mode, native_available, flatpak_available) == Some(found),
            Err(e) => e is NotFound && mode_of(mode, native_available, flatpak_available) is None,
        },
{
    match mode {
        GpuScreenRecorderMode::Native => Ok(GsrMode::Native),
        GpuScreenRecorderMode::Flatpak => Ok(GsrMode::Flatpak),
        GpuScreenRecorderMode::Auto => {
            if native_available {
                Ok(GsrMode::Native)
            } else if flatpak_available {
                Ok(GsrMode::Flatpak)
            } else {
                Err(GsrCommandError::NotFound)
            }
        },
    }
}

/// A target that is no monitor.
pub open spec fn special_target(target: Seq<char>) -> bool {
    target == "portal"@ || target == "focused"@
}

pub fn is_special_capture_target(target: &str) -> (r: bool)
    ensures
        r == special_target(target@),
{
    text::same(target, "portal") || text::same(target, "focused")
}

pub open spec fn is_hex_digit(c: char) -> bool {
    ('0' <= c && c <= '9') || ('a' <= c && c <= 'f') || ('A' <= c && c <= 'F')
}

pub open spec fn all_hex_digits(s: Seq<char>) -> bool {
    forall|i: int| 0 <= i < s.len() ==> is_hex_digit(#[trigger] s[i])
}

/// The notation of a window's number.
pub open spec fn window_id(target: Seq<char>) -> bool {
    text::strip_prefix_of(target, "0x"@) matches Some(hex) && hex.len() > 0 && all_hex_digits(hex)
}

fn is_all_hex_digits(s: &str) -> (r: bool)
    ensures
        r == all_hex_digits(s@),
{
    let v = text::chars_of(s);
    let mut i: usize = 0;
    while i < v.len()
        invariant
            i <= v.len(),
            v@ == s@,
            forall|j: int| 0 <= j < i ==> is_hex_digit(#[trigger] s@[j]),
        decreases v.len() - i,
    {
        let c: char = v[i];
        if !(('0' <= c && c <= '9') || ('a' <= c && c <= 'f') || ('A' <= c && c <= 'F')) {
            assert(!is_hex_digit(s@[i as int]));
            return false;
        }
        i = i + 1;
    }
    true
}

pub fn is_x11_window_id(target: &str) -> (r: bool)
    ensures
        r == window_id(target@),
{
    match text::strip_prefix(target, "0x") {
        Some(hex) => !hex.is_empty() && is_all_hex_digits(hex),
        None => false,
    }
}

/// The recorder can be pointed at the target: a special target, a window, or
/// one of the monitors.
pub open spec fn valid_target(target: Seq<char>, monitors: Seq<Seq<char>>) -> bool {
    let t = text::trim_of(target);
    t.len() > 0 && (special_target(t) || window_id(t) || monitors.contains(t))
}

pub fn target_is_valid(target: &str, monitors: &Vec<String>) -> (r: bool)
    ensures
        r == valid_target(target@, text::texts(monitors@)),
{
    let target = text::trim(target);
    if target.is_empty() {
        return false;
    }
    is_special_capture_target(target) || is_x11_window_id(target) || text::holds_text(
        monitors,
        target,
    )
}

/// The first of the monitors that is a real one.
pub open spec fn first_real_monitor(monitors: Seq<Seq<char>>) -> Option<Seq<char>>
    decreases monitors.len(),
{
    if monitors.len() == 0 {
        None
    } else if !special_target(monitors[0]) {
        Some(monitors[0])
    } else {
        first_real_monitor(monitors.drop_first())
    }
}

fn find_real_monitor(monitors: &Vec<String>) -> (r: Option<String>)
    ensures
        text::opt_text(r) == first_real_monitor(text::texts(monitors@)),
{
    let ghost all = text::texts(monitors@);
    let mut i: usize = 0;
    assert(all.subrange(0, all.len() as int) == all);
    while i < monitors.len()
        invariant
            i <= monitors.len(),
            all == text::texts(monitors@),
            first_real_monitor(all) == first_real_monitor(
                all.subrange(i as int, all.len() as int),
            ),
        decreases monitors.len() - i,
    {
        let ghost rest = all.subrange(i as int, all.len() as int);
        assert(rest.drop_first() == all.subrange(i + 1, all.len() as int));
        assert(rest[0] == monitors@[i as int]@);
        if !is_special_capture_target(monitors[i].as_str()) {
            return Some(monitors[i].clone());
        }
        i = i + 1;
    }
    None
}

/// What is recorded where `requested` is asked for: itself where it is valid,
/// else a real monitor. A special target never takes the place of a configured
/// monitor: where no real monitor is known, what was asked for stays, and only
/// where nothing was asked for the first entry is taken.
pub open spec fn effective_target(requested: Seq<char>, monitors: Seq<Seq<char>>) -> Seq<char> {
    let wanted = text::trim_of(requested);
    if valid_target(wanted, monitors) {
        wanted
    } else if monitors.len() == 0 {
        "screen"@
    } else {
        match first_real_monitor(monitors) {
            Some(monitor) => monitor,
            None => if wanted.len() > 0 {
                wanted
            } else {
                monitors[0]
            },
        }
    }
}

pub fn select_effective_target(requested: &str, monitors: &Vec<String>) -> (r: String)
    ensures
        r@ == effective_target(requested@, text::texts(monitors@)),
{
    let requested = text::trim(requested);
    if target_is_valid(requested, monitors) {
        return requested.to_owned();
    }
    if monitors.len() == 0 {
        assert(text::texts(monitors@).len() == 0);
        return "screen".to_owned();
    }
    match find_real_monitor(monitors) {
        Some(monitor) => monitor,
        None => {
            if !requested.is_empty() {
                requested.to_owned()
            } else {
                assert(text::texts(monitors@)[0] == monitors@[0]@);
                monitors[0].clone()
            }
        },
    }
}

/// Recording a special target takes asking for it, or asking for nothing.
pub proof fn lemma_special_target_is_never_substituted(
    requested: Seq<char>,
    monitors: Seq<Seq<char>>,
)
    requires
        text::trim_of(requested).len() > 0,
        !special_target(text::trim_of(requested)),
    ensures
        !special_target(effective_target(requested, monitors)),
{
    lemma_first_real_monitor(monitors);
    reveal_strlit("screen");
    reveal_strlit("portal");
    reveal_strlit("focused");
    assert("screen"@[0] == 's');
    assert("portal"@[0] == 'p');
    assert("focused"@.len() == 7);
    assert("screen"@.len() == 6);
}

/// Where a real monitor is known, the target is one that the recorder can be
/// pointed at.
pub proof fn lemma_effective_target_is_valid(requested: Seq<char>, monitors: Seq<Seq<char>>)
    requires
        first_real_monitor(monitors) matches Some(monitor) && text::trim_of(monitor) == monitor
            && monitor.len() > 0,
    ensures
        valid_target(effective_target(requested, monitors), monitors),
{
    lemma_first_real_monitor(monitors);
}

proof fn lemma_first_real_monitor(monitors: Seq<Seq<char>>)
    ensures
        first_real_monitor(monitors) matches Some(monitor) ==> !special_target(monitor)
            && monitors.contains(monitor),
    decreases monitors.len(),
{
    if monitors.len() > 0 {
        if !special_target(monitors[0]) {
            assert(monitors.contains(monitors[0]));
        } else {
            lemma_first_real_monitor(monitors.drop_first());
            if let Some(monitor) = first_real_monitor(monitors.drop_first()) {
                let k = choose|k: int|
                    0 <= k < monitors.drop_first().len() && monitors.drop_first()[k] == monitor;
                assert(monitors[k + 1] == monitor);
            }
        }
    }
}

/// The monitors to choose from: those that the recorder lists and the special
/// targets, in order, each once.
pub open spec fn monitors_known(listed: Option<Seq<Seq<char>>>) -> Seq<Seq<char>> {
    let names = match listed {
        Some(names) => names,
        None => seq![],
    };
    text::ordered_once(names + seq!["portal"@, "focused"@])
}

pub open spec fn opt_texts(o: Option<Vec<String>>) -> Option<Seq<Seq<char>>> {
    match o {
        Some(v) => Some(text::texts(v@)),
        None => None,
    }
}

pub fn list_monitors(listed: &Option<Vec<String>>) -> (r: Vec<String>)
    ensures
        text::texts(r@) == monitors_known(opt_texts(*listed)),
{
    let mut names: Vec<String> = match listed {
        Some(names) => text::clone_texts(names),
        None => Vec::new(),
    };
    let ghost before = match opt_texts(*listed) {
        Some(v) => v,
        None => seq![],
    };
    assert(text::texts(names@) =~= before);
    names.push("portal".to_owned());
    names.push("focused".to_owned());
    assert(text::texts(names@) =~= before + seq!["portal"@, "focused"@]);
    text::sort_and_dedup(&names)
}

/// The monitors in the recorder's listing: what stands before the first bar of
/// each line.
pub open spec fn monitor_names(lines: Seq<Seq<char>>) -> Seq<Seq<char>>
    decreases lines.len(),
{
    if lines.len() == 0 {
        seq![]
    } else {
        let name = text::trim_of(text::split_of(lines.last(), '|')[0]);
        if name.len() == 0 {
            monitor_names(lines.drop_last())
        } else {
            monitor_names(lines.drop_last()).push(name)
        }
    }
}

pub fn parse_gsr_monitor_output(listing: &str) -> (r: Vec<String>)
    ensures
        text::texts(r@) == monitor_names(text::lines_of(listing@)),
{
    let lines = text::lines(listing);
    let ghost all = text::texts(lines@);
    let mut r: Vec<String> = Vec::new();
    let mut i: usize = 0;
    assert(text::texts(r@) =~= monitor_names(all.subrange(0, 0)));
    while i < lines.len()
        invariant
            i <= lines.len(),
            all == text::texts(lines@),
            text::texts(r@) == monitor_names(all.subrange(0, i as int)),
        decreases lines.len() - i,
    {
        let ghost next = all.subrange(0, i + 1);
        assert(next.drop_last() == all.subrange(0, i as int));
        assert(next.last() == lines@[i as int]@);
        let parts = text::split(lines[i].as_str(), '|');
        assert(text::texts(parts@)[0] == parts@[0]@);
        let name = text::trim(parts[0].as_str());
        let ghost before = text::texts(r@);
        if !name.is_empty() {
            let name: String = name.to_owned();
            r.push(name);
            assert(text::texts(r@) =~= before.push(name@));
        }
        i = i + 1;
    }
    assert(all.subrange(0, all.len() as int) == all);
    r
}

/// What the recorder's listing command gave.
#[derive(Debug)]
pub struct CommandOutput {
    pub success: bool,
    pub status: String,
    pub stdout: Vec<u8>,
    pub stderr: Vec<u8>,
}

/// A program and what it is called with.
#[derive(Debug)]
pub struct ProgramCall {
    pub program: String,
    pub args: Vec<String>,
}

impl ProgramCall {
    pub open spec fn is(self, program: Seq<char>, args: Seq<Seq<char>>) -> bool {
        self.program@ == program && text::texts(self.args@) == args
    }
}

/// What the recorder is called with in its sandbox, to answer one option.
pub open spec fn flatpak_question(option: Seq<char>) -> Seq<Seq<char>> {
    seq!["run"@, "--command=gpu-screen-recorder"@, flatpak_app_id(), option]
}

/// The recorder in its sandbox, asked with one option.
pub fn ask_in_flatpak(option: &str) -> (r: ProgramCall)
    ensures
        r.is("flatpak"@, flatpak_question(option@)),
{
    let args = text::owned_texts(
        &["run", "--command=gpu-screen-recorder", "com.dec05eba.gpu_screen_recorder", option],
    );
    assert(text::texts(args@) =~= flatpak_question(option@));
    ProgramCall { program: "flatpak".to_owned(), args }
}

/// The command that lists the monitors.
pub fn monitor_listing(mode: GsrMode) -> (r: ProgramCall)
    ensures
        match mode {
            GsrMode::Native => r.is("gpu-screen-recorder"@, seq!["--list-monitors"@]),
            GsrMode::Flatpak => r.is("flatpak"@, flatpak_question("--list-monitors"@)),
        },
{
    match mode {
        GsrMode::Native => {
            let args = text::owned_texts(&["--list-monitors"]);
            assert(text::texts(args@) =~= seq!["--list-monitors"@]);
            ProgramCall { program: "gpu-screen-recorder".to_owned(), args }
        },
        GsrMode::Flatpak => ask_in_flatpak("--list-monitors"),
    }
}

/// What FFprobe is called with to print how long a video is.
pub fn duration_probe_args(video: &str) -> (r: Vec<String>)
    ensures
        text::texts(r@) == seq![
            "-v"@,
            "error"@,
            "-show_entries"@,
            "format=duration"@,
            "-of"@,
            "default=noprint_wrappers=1:nokey=1"@,
            video@,
        ],
{
    let r = text::owned_texts(
        &[
            "-v",
            "error",
            "-show_entries",
            "format=duration",
            "-of",
            "default=noprint_wrappers=1:nokey=1",
            video,
        ],
    );
    assert(text::texts(r@) =~= seq![
        "-v"@,
        "error"@,
        "-show_entries"@,
        "format=duration"@,
        "-of"@,
        "default=noprint_wrappers=1:nokey=1"@,
        video@,
    ]);
    r
}

/// How long a video is in whole seconds, at least one: nothing where what was
/// printed is no finite number or not positive.
pub fn probed_seconds(printed: Double) -> (r: Option<u64>)
    ensures
        r == (if printed.is_finite() && printed.steps() > 0 {
            let whole = number::whole_up_to(number::nearest_whole(printed), u64::MAX as nat);
            Some(if whole < 1 {
                1u64
            } else {
                whole as u64
            })
        } else {
            None
        }),
{
    let zero = Double { bits: 0 };
    if printed.finite() && zero.less(printed) {
        let whole: u64 = number::to_nearest_whole(printed);
        Some(
            if whole < 1 {
                1
            } else {
                whole
            },
        )
    } else {
        None
    }
}

/// What FFmpeg is called with to take a picture of a recording.
pub fn recording_picture_args(video: &str, picture: &str) -> (r: Vec<String>)
    ensures
        text::texts(r@) == seq![
            "-y"@,
            "-hide_banner"@,
            "-loglevel"@,
            "error"@,
            "-i"@,
            video@,
            "-vframes"@,
            "1"@,
            "-s"@,
            "640x360"@,
            picture@,
        ],
{
    editor::thumbnail_args(video, picture)
}

/// The monitors that the listing command printed; an error where it failed.
pub fn query_gsr_monitors(ran: &CommandOutput) -> (r: Result<Vec<String>, String>)
    ensures
        match r {
            Ok(names) => ran.success && text::texts(names@) == monitor_names(
                text::lines_of(text::text_in(ran.stdout@)),
            ),
            Err(message) => !ran.success && message@
                == "GPU Screen Recorder --list-monitors exited with status "@ + ran.status@ + ": "@
                + text::text_in(ran.stderr@),
        },
{
    if ran.success {
        let listing = text::from_utf8_lossy(ran.stdout.as_slice());
        Ok(parse_gsr_monitor_output(listing.as_str()))
    } else {
        let mut message: String =
            "GPU Screen Recorder --list-monitors exited with status ".to_owned();
        message.append(ran.status.as_str());
        message.append(": ");
        message.append(text::from_utf8_lossy(ran.stderr.as_slice()).as_str());
        Err(message)
    }
}


/// Where the recorder is pointed, and why.
pub ghost struct TargetView {
    pub target: Seq<char>,
    pub session_type: Seq<char>,
    pub reason: Seq<char>,
}

#[derive(Debug)]
pub struct ResolvedCaptureTarget {
    pub target: String,
    pub session_type: String,
    pub reason: String,
}

impl View for ResolvedCaptureTarget {
    type V = TargetView;

    open spec fn view(&self) -> TargetView {
        TargetView {
            target: self.target@,
            session_type: self.session_type@,
            reason: self.reason@,
        }
    }
}

impl GsrEnvironment {
    pub open spec fn session(self) -> Seq<char> {
        session_of(
            text::opt_text(self.xdg_session_type),
            self.has_wayland_display,
            self.has_display,
        )
    }

    pub open spec fn monitors(self) -> Seq<Seq<char>> {
        monitors_known(opt_texts(self.listed_monitors))
    }

    pub open spec fn mode(self, wanted: GpuScreenRecorderMode) -> Option<GsrMode> {
        mode_of(wanted, self.native_available, self.flatpak_available)
    }

    pub fn session_type(&self) -> (r: String)
        ensures
            r@ == self.session(),
    {
        session_type(&self.xdg_session_type, self.has_wayland_display, self.has_display)
    }
}

/// Where the recorder is pointed: by the strategy and the session, and at the
/// configured monitor where neither has anything better.
pub open spec fn resolved_target(config: CaptureConfig, env: GsrEnvironment) -> TargetView {
    let session = env.session();
    let fallback = effective_target(config.target@, env.monitors());
    let chosen = match config.capture_strategy {
        CaptureStrategy::Monitor => (fallback, "monitor strategy"@),
        CaptureStrategy::Focused => ("focused"@, "focused strategy"@),
        CaptureStrategy::Portal => if session == "x11"@ {
            (fallback, "portal unsupported on X11; fallback monitor"@)
        } else {
            ("portal"@, "portal strategy"@)
        },
        CaptureStrategy::Auto => if session == "x11"@ {
            match env.war_thunder_window {
                Some(window) => (window@, "War Thunder X11 window detected"@),
                None => (fallback, "War Thunder X11 window not found; fallback monitor"@),
            }
        } else if session == "wayland"@ {
            (
                "portal"@,
                "Wayland auto strategy uses desktop portal after War Thunder API is reachable"@,
            )
        } else {
            (fallback, "unknown session; fallback monitor"@)
        },
    };
    TargetView { target: chosen.0, session_type: session, reason: chosen.1 }
}

fn resolved(target: String, session_type: String, reason: &str) -> (r: ResolvedCaptureTarget)
    ensures
        r@ == (TargetView { target: target@, session_type: session_type@, reason: reason@ }),
{
    ResolvedCaptureTarget { target, session_type, reason: reason.to_owned() }
}

pub fn resolve_capture_target(config: &CaptureConfig, env: &GsrEnvironment) -> (r:
    ResolvedCaptureTarget)
    ensures
        r@ == resolved_target(*config, *env),
{
    let session = env.session_type();
    let monitors = list_monitors(&env.listed_monitors);
    let fallback = select_effective_target(config.target.as_str(), &monitors);
    let on_x11: bool = text::same(session.as_str(), "x11");
    let on_wayland: bool = text::same(session.as_str(), "wayland");
    match config.capture_strategy {
        CaptureStrategy::Monitor => resolved(fallback, session, "monitor strategy"),
        CaptureStrategy::Focused => resolved("focused".to_owned(), session, "focused strategy"),
        CaptureStrategy::Portal => {
            if on_x11 {
                resolved(fallback, session, "portal unsupported on X11; fallback monitor")
            } else {
                resolved("portal".to_owned(), session, "portal strategy")
            }
        },
        CaptureStrategy::Auto => {
            if on_x11 {
                match &env.war_thunder_window {
                    Some(window) => resolved(
                        window.clone(),
                        session,
                        "War Thunder X11 window detected",
                    ),
                    None => resolved(
                        fallback,
                        session,
                        "War Thunder X11 window not found; fallback monitor",
                    ),
                }
            } else if on_wayland {
                resolved(
                    "portal".to_owned(),
                    session,
                    "Wayland auto strategy uses desktop portal after War Thunder API is reachable",
                )
            } else {
                resolved(fallback, session, "unknown session; fallback monitor")
            }
        },
    }
}

/// The frame rate that the recorder is told: one frame per second to 240.
pub fn sanitized_fps(fps: u32) -> (r: u32)
    ensures
        r == config::clamped(fps as int, 1, 240),
{
    if fps < 1 {
        1
    } else if fps > 240 {
        240
    } else {
        fps
    }
}

/// The bits of a tenth, the shortest interval between key frames in seconds.
pub const SHORTEST_KEYFRAME_INTERVAL: u32 = 0x3dcc_cccd;

/// The bits of ten, the longest interval between key frames in seconds.
pub const LONGEST_KEYFRAME_INTERVAL: u32 = 0x4120_0000;

/// The interval between key frames in thousandths of a second: a tenth of a
/// second to ten seconds, and one second where the setting is no finite number.
pub open spec fn keyframe_millis(setting: Single) -> nat {
    if setting.is_finite() {
        number::rounded_up(
            number::thousandfold(
                number::single_clamped(
                    setting,
                    Single { bits: SHORTEST_KEYFRAME_INTERVAL },
                    Single { bits: LONGEST_KEYFRAME_INTERVAL },
                ),
            ),
            number::single_steps_in_one(),
        )
    } else {
        1000
    }
}

/// Thousandths as a decimal fraction without trailing zeros.
pub open spec fn as_seconds(millis: nat) -> Seq<char> {
    if millis % 1000 == 0 {
        text::decimal(millis / 1000)
    } else {
        text::trim_end_char_of(
            text::decimal(millis / 1000) + "."@ + text::padded_decimal(millis % 1000, 3),
            '0',
        )
    }
}

pub fn keyframe_interval_arg(config: &CaptureConfig) -> (r: String)
    ensures
        r@ == as_seconds(keyframe_millis(config.keyframe_interval_seconds)),
{
    let millis: u64 = if config.keyframe_interval_seconds.finite() {
        number::nearest_thousandths(
            number::clamp_single(
                config.keyframe_interval_seconds,
                Single { bits: SHORTEST_KEYFRAME_INTERVAL },
                Single { bits: LONGEST_KEYFRAME_INTERVAL },
            ),
        )
    } else {
        1000
    };
    if millis % 1000 == 0 {
        text::decimal_text((millis / 1000) as u128)
    } else {
        let mut shown: String = text::decimal_text((millis / 1000) as u128);
        shown.append(".");
        shown.append(text::padded_decimal_text((millis % 1000) as u128, 3).as_str());
        text::trim_end_char(shown.as_str(), '0').to_owned()
    }
}

/// What stands behind `-q`: the bit rate where it is constant, else the quality.
pub open spec fn q_argument(config: CaptureConfig) -> Seq<char> {
    match config.bitrate_mode {
        GsrBitrateMode::Cbr => text::decimal(
            if config.video_bitrate_kbps == 0 {
                20_000
            } else {
                config.video_bitrate_kbps as nat
            },
        ),
        _ => config.quality.arg(),
    }
}

fn effective_cbr_bitrate_kbps(config: &CaptureConfig) -> (r: u32)
    ensures
        r == (if config.video_bitrate_kbps == 0 {
            20_000
        } else {
            config.video_bitrate_kbps
        }),
{
    if config.video_bitrate_kbps == 0 {
        20_000
    } else {
        config.video_bitrate_kbps
    }
}

pub fn effective_q_argument(config: &CaptureConfig) -> (r: String)
    ensures
        r@ == q_argument(*config),
{
    match config.bitrate_mode {
        GsrBitrateMode::Cbr => text::decimal_text(effective_cbr_bitrate_kbps(config) as u128),
        _ => config.quality.as_arg().to_owned(),
    }
}

/// A character that a shell takes as it is.
pub open spec fn shell_safe(c: char) -> bool {
    output::is_ascii_alphanumeric(c) || c == '-' || c == '_' || c == '.' || c == '/' || c == ':'
        || c == '='
}

pub open spec fn all_shell_safe(s: Seq<char>) -> bool {
    forall|i: int| 0 <= i < s.len() ==> shell_safe(#[trigger] s[i])
}

/// A part of a command as it is shown: in double quotes where it holds anything
/// that a shell would read.
pub open spec fn quoted(value: Seq<char>) -> Seq<char> {
    if all_shell_safe(value) {
        value
    } else {
        "\""@ + text::replaced(text::replaced(value, '\\', "\\\\"@), '"', "\\\""@) + "\""@
    }
}

pub fn shell_quote(value: &str) -> (r: String)
    ensures
        r@ == quoted(value@),
{
    let v = text::chars_of(value);
    let mut i: usize = 0;
    while i < v.len()
        invariant
            i <= v.len(),
            v@ == value@,
            forall|j: int| 0 <= j < i ==> shell_safe(#[trigger] value@[j]),
        decreases v.len() - i,
    {
        let c: char = v[i];
        let safe: bool = ('0' <= c && c <= '9') || ('a' <= c && c <= 'z') || ('A' <= c && c <= 'Z')
            || c == '-' || c == '_' || c == '.' || c == '/' || c == ':' || c == '=';
        if !safe {
            assert(!shell_safe(value@[i as int]));
            let once = text::replace_char(value, '\\', "\\\\");
            let twice = text::replace_char(once.as_str(), '"', "\\\"");
            let mut r: String = "\"".to_owned();
            r.append(twice.as_str());
            r.append("\"");
            return r;
        }
        i = i + 1;
    }
    value.to_owned()
}

pub open spec fn all_quoted(parts: Seq<Seq<char>>) -> Seq<Seq<char>> {
    parts.map_values(|p: Seq<char>| quoted(p))
}

/// The words of a command, each as it is shown, with spaces between them.
pub open spec fn shown_command(program: Seq<char>, args: Seq<Seq<char>>) -> Seq<char> {
    text::joined(all_quoted(seq![program] + args), " "@)
}

fn command_text(program: &str, args: &Vec<String>) -> (r: String)
    ensures
        r@ == shown_command(program@, text::texts(args@)),
{
    let mut parts: Vec<String> = Vec::new();
    let first = shell_quote(program);
    parts.push(first);
    let ghost all = seq![program@] + text::texts(args@);
    assert(text::texts(parts@) =~= all_quoted(all).subrange(0, 1)) by {
        assert(all_quoted(all)[0] == quoted(all[0]));
    }
    let mut i: usize = 0;
    while i < args.len()
        invariant
            i <= args.len(),
            all == seq![program@] + text::texts(args@),
            text::texts(parts@) == all_quoted(all).subrange(0, i + 1),
        decreases args.len() - i,
    {
        let ghost before = text::texts(parts@);
        let part = shell_quote(args[i].as_str());
        parts.push(part);
        assert(all[i + 1] == args@[i as int]@);
        assert(all_quoted(all)[i + 1] == part@);
        assert(text::texts(parts@) =~= before.push(part@));
        i = i + 1;
    }
    assert(all_quoted(all).subrange(0, all.len() as int) =~= all_quoted(all));
    text::join(&parts, " ")
}

pub open spec fn flatpak_app_id() -> Seq<char> {
    "com.dec05eba.gpu_screen_recorder"@
}

pub open spec fn program_of(mode: GsrMode) -> Seq<char> {
    match mode {
        GsrMode::Native => "gpu-screen-recorder"@,
        GsrMode::Flatpak => "flatpak"@,
    }
}

pub open spec fn yes_or_no(b: bool) -> Seq<char> {
    if b {
        "yes"@
    } else {
        "no"@
    }
}

/// What comes before the recorder's own arguments.
pub open spec fn launch_args(mode: GsrMode) -> Seq<Seq<char>> {
    match mode {
        GsrMode::Native => seq![],
        GsrMode::Flatpak => seq!["run"@, "--command=gpu-screen-recorder"@, flatpak_app_id()],
    }
}

/// What is recorded and how it is encoded.
pub open spec fn video_args(config: CaptureConfig, target: Seq<char>) -> Seq<Seq<char>> {
    seq![
        "-w"@,
        target,
        "-f"@,
        text::decimal(config::clamped(config.fps as int, 1, 240) as nat),
        "-fm"@,
        config.frame_rate_mode.arg(),
        "-keyint"@,
        as_seconds(keyframe_millis(config.keyframe_interval_seconds)),
        "-r"@,
        text::decimal(
            if config.replay_seconds >= 1 {
                config.replay_seconds as nat
            } else {
                1
            },
        ),
        "-c"@,
        config.container.arg(),
        "-k"@,
        config.codec.arg(),
        "-encoder"@,
        config.encoder.arg(),
    ]
}

pub open spec fn bitrate_args(config: CaptureConfig) -> Seq<Seq<char>> {
    match config.bitrate_mode.arg() {
        Some(mode) => seq!["-bm"@, mode],
        None => seq![],
    }
}

/// How good the picture is, and where replays go.
pub open spec fn output_args(config: CaptureConfig, dir: Seq<char>) -> Seq<Seq<char>> {
    seq![
        "-q"@,
        q_argument(config),
        "-restart-replay-on-save"@,
        yes_or_no(config.restart_replay_on_save),
        "-ro"@,
        dir,
        "-o"@,
        path::joined_path(dir, "wtclip"@),
    ]
}

/// The sound to record, where it is wanted and named.
pub open spec fn audio_args(config: CaptureConfig) -> Seq<Seq<char>> {
    if config.audio_enabled && text::trim_of(config.audio_input@).len() > 0 {
        seq!["-a"@, text::trim_of(config.audio_input@)]
    } else {
        seq![]
    }
}

/// All arguments of the recorder's command.
pub open spec fn recorder_args(
    config: CaptureConfig,
    mode: GsrMode,
    target: Seq<char>,
    dir: Seq<char>,
) -> Seq<Seq<char>> {
    launch_args(mode) + video_args(config, target) + bitrate_args(config) + output_args(config, dir)
        + audio_args(config)
}

fn push_arg(args: &mut Vec<String>, arg: &str)
    ensures
        text::texts(final(args)@) == text::texts(old(args)@).push(arg@),
{
    let ghost before = text::texts(args@);
    args.push(arg.to_owned());
    assert(text::texts(args@) =~= before.push(arg@));
}

fn push_launch_args(args: &mut Vec<String>, mode: GsrMode)
    ensures
        text::texts(final(args)@) == text::texts(old(args)@) + launch_args(mode),
{
    let ghost before = text::texts(args@);
    match mode {
        GsrMode::Native => {},
        GsrMode::Flatpak => {
            push_arg(args, "run");
            push_arg(args, "--command=gpu-screen-recorder");
            push_arg(args, "com.dec05eba.gpu_screen_recorder");
        },
    }
    assert(text::texts(args@) =~= before + launch_args(mode));
}

fn push_video_args(args: &mut Vec<String>, config: &CaptureConfig, target: &str)
    ensures
        text::texts(final(args)@) == text::texts(old(args)@) + video_args(*config, target@),
{
    let ghost before = text::texts(args@);
    let replay_seconds: u64 = if config.replay_seconds >= 1 {
        config.replay_seconds
    } else {
        1
    };
    push_arg(args, "-w");
    push_arg(args, target);
    push_arg(args, "-f");
    push_arg(args, text::decimal_text(sanitized_fps(config.fps) as u128).as_str());
    push_arg(args, "-fm");
    push_arg(args, config.frame_rate_mode.as_arg());
    push_arg(args, "-keyint");
    push_arg(args, keyframe_interval_arg(config).as_str());
    push_arg(args, "-r");
    push_arg(args, text::decimal_text(replay_seconds as u128).as_str());
    push_arg(args, "-c");
    push_arg(args, config.container.as_arg());
    push_arg(args, "-k");
    push_arg(args, config.codec.as_arg());
    push_arg(args, "-encoder");
    push_arg(args, config.encoder.as_arg());
    assert(text::texts(args@) =~= before + video_args(*config, target@));
}

fn append_bitrate_mode_args(args: &mut Vec<String>, config: &CaptureConfig)
    ensures
        text::texts(final(args)@) == text::texts(old(args)@) + bitrate_args(*config),
{
    let ghost before = text::texts(args@);
    if let Some(mode) = config.bitrate_mode.as_arg() {
        push_arg(args, "-bm");
        push_arg(args, mode);
    }
    assert(text::texts(args@) =~= before + bitrate_args(*config));
}

fn restart_replay_on_save_arg(config: &CaptureConfig) -> (r: &'static str)
    ensures
        r@ == yes_or_no(config.restart_replay_on_save),
{
    if config.restart_replay_on_save {
        "yes"
    } else {
        "no"
    }
}

fn push_output_args(args: &mut Vec<String>, config: &CaptureConfig, dir: &str, prefix: &str)
    requires
        prefix@ == path::joined_path(dir@, "wtclip"@),
    ensures
        text::texts(final(args)@) == text::texts(old(args)@) + output_args(*config, dir@),
{
    let ghost before = text::texts(args@);
    push_arg(args, "-q");
    push_arg(args, effective_q_argument(config).as_str());
    push_arg(args, "-restart-replay-on-save");
    push_arg(args, restart_replay_on_save_arg(config));
    push_arg(args, "-ro");
    push_arg(args, dir);
    push_arg(args, "-o");
    push_arg(args, prefix);
    assert(text::texts(args@) =~= before + output_args(*config, dir@));
}

fn push_audio_args(args: &mut Vec<String>, config: &CaptureConfig)
    ensures
        text::texts(final(args)@) == text::texts(old(args)@) + audio_args(*config),
{
    let ghost before = text::texts(args@);
    if config.audio_enabled {
        let audio_input = text::trim(config.audio_input.as_str());
        if !audio_input.is_empty() {
            push_arg(args, "-a");
            push_arg(args, audio_input);
        }
    }
    assert(text::texts(args@) =~= before + audio_args(*config));
}

/// The directory for replays, with the home directory in place of a tilde.
pub open spec fn replay_dir(config: CaptureConfig, env: GsrEnvironment) -> Option<Seq<char>> {
    config::tilde_expanded(config.output_dir@, text::opt_text(env.home))
}

impl GsrCommandLine {
    /// The command that the settings ask for on this machine.
    pub open spec fn built_from(self, config: CaptureConfig, env: GsrEnvironment) -> bool {
        let target = resolved_target(config, env);
        &&& replay_dir(config, env) == Some(self.output_dir@)
        &&& path::is_absolute_path(self.output_dir@)
        &&& env.mode(config.gpu_screen_recorder_mode) == Some(self.mode)
        &&& self.program@ == program_of(self.mode)
        &&& text::texts(self.args@) == recorder_args(
            config,
            self.mode,
            target.target,
            self.output_dir@,
        )
        &&& self.command_line@ == shown_command(self.program@, text::texts(self.args@))
        &&& self.output_prefix@ == path::joined_path(self.output_dir@, "wtclip"@)
        &&& self.target@ == target.target
        &&& self.session_type@ == target.session_type
        &&& self.target_reason@ == target.reason
        &&& self.capture_strategy == config.capture_strategy
    }
}

/// Why no command can be built: the first of the reasons that apply.
pub open spec fn command_error(config: CaptureConfig, env: GsrEnvironment, e: GsrCommandError) -> bool {
    match replay_dir(config, env) {
        None => e is HomeNotSet,
        Some(dir) => if !path::is_absolute_path(dir) {
            e matches GsrCommandError::OutputDirNotAbsolute(named) && named@ == dir
        } else {
            e is NotFound && env.mode(config.gpu_screen_recorder_mode) is None
        },
    }
}

pub fn build_gsr_command(config: &CaptureConfig, env: &GsrEnvironment) -> (r: Result<
    GsrCommandLine,
    GsrCommandError,
>)
    ensures
        match r {
            Ok(command) => command.built_from(*config, *env),
            Err(e) => command_error(*config, *env, e),
        },
{
    let home: Option<&str> = match &env.home {
        Some(home) => Some(home.as_str()),
        None => None,
    };
    assert(text::opt_str(home) == text::opt_text(env.home));
    let output_dir: String = match config.output_dir_path(home) {
        Ok(dir) => dir,
        Err(_) => {
            return Err(GsrCommandError::HomeNotSet);
        },
    };
    if !path::is_absolute(output_dir.as_str()) {
        return Err(GsrCommandError::OutputDirNotAbsolute(output_dir));
    }
    let output_prefix = path::join_path(output_dir.as_str(), "wtclip");
    let mode: GsrMode = match resolve_mode(
        config.gpu_screen_recorder_mode,
        env.native_available,
        env.flatpak_available,
    ) {
        Ok(mode) => mode,
        Err(e) => {
            return Err(e);
        },
    };
    let resolved_target = resolve_capture_target(config, env);
    let program: String = match mode {
        GsrMode::Native => "gpu-screen-recorder".to_owned(),
        GsrMode::Flatpak => "flatpak".to_owned(),
    };
    let mut args: Vec<String> = Vec::new();
    assert(text::texts(args@) =~= Seq::<Seq<char>>::empty());
    push_launch_args(&mut args, mode);
    assert(text::texts(args@) =~= launch_args(mode));
    push_video_args(&mut args, config, resolved_target.target.as_str());
    append_bitrate_mode_args(&mut args, config);
    push_output_args(&mut args, config, output_dir.as_str(), output_prefix.as_str());
    push_audio_args(&mut args, config);
    let command_line = command_text(program.as_str(), &args);
    Ok(
        GsrCommandLine {
            mode,
            program,
            args,
            command_line,
            output_dir,
            output_prefix,
            target: resolved_target.target,
            capture_strategy: config.capture_strategy,
            session_type: resolved_target.session_type,
            target_reason: resolved_target.reason,
        },
    )
}

/// The option `key` stands among the arguments, and `value` behind it. Options
/// and values take turns from the argument `first` on.
pub open spec fn is_set_to(
    args: Seq<Seq<char>>,
    first: int,
    key: Seq<char>,
    value: Seq<char>,
) -> bool {
    &&& exists|p: int|
        first <= p < args.len() - 1 && (p - first) % 2 == 0 && #[trigger] args[p] == key && args[p
            + 1] == value
    &&& forall|p: int|
        first <= p < args.len() && (p - first) % 2 == 0 && #[trigger] args[p] == key ==> p + 1
            < args.len() && args[p + 1] == value
}

/// The option `key` does not stand among the arguments.
pub open spec fn is_not_set(args: Seq<Seq<char>>, first: int, key: Seq<char>) -> bool {
    forall|p: int|
        first <= p < args.len() && (p - first) % 2 == 0 ==> #[trigger] args[p] != key
}

/// The options of a command in the order in which they stand.
spec fn option_order(bm: bool, a: bool) -> Seq<Seq<char>> {
    seq!["-w"@, "-f"@, "-fm"@, "-keyint"@, "-r"@, "-c"@, "-k"@, "-encoder"@] + (if bm {
        seq!["-bm"@]
    } else {
        seq![]
    }) + seq!["-q"@, "-restart-replay-on-save"@, "-ro"@, "-o"@] + (if a {
        seq!["-a"@]
    } else {
        seq![]
    })
}

/// Each option stands once.
proof fn lemma_options_differ(bm: bool, a: bool)
    ensures
        forall|i: int, j: int|
            0 <= i < option_order(bm, a).len() && 0 <= j < option_order(bm, a).len()
                && #[trigger] option_order(bm, a)[i] == #[trigger] option_order(bm, a)[j] ==> i
                == j,
        !bm ==> forall|i: int|
            0 <= i < option_order(bm, a).len() ==> #[trigger] option_order(bm, a)[i] != "-bm"@,
        !a ==> forall|i: int|
            0 <= i < option_order(bm, a).len() ==> #[trigger] option_order(bm, a)[i] != "-a"@,
{
    reveal_strlit("-w");
    reveal_strlit("-f");
    reveal_strlit("-fm");
    reveal_strlit("-keyint");
    reveal_strlit("-r");
    reveal_strlit("-c");
    reveal_strlit("-k");
    reveal_strlit("-encoder");
    reveal_strlit("-bm");
    reveal_strlit("-q");
    reveal_strlit("-restart-replay-on-save");
    reveal_strlit("-ro");
    reveal_strlit("-o");
    reveal_strlit("-a");
    assert("-w"@.len() == 2 && "-w"@[1] == 'w');
    assert("-f"@.len() == 2 && "-f"@[1] == 'f');
    assert("-r"@.len() == 2 && "-r"@[1] == 'r');
    assert("-c"@.len() == 2 && "-c"@[1] == 'c');
    assert("-k"@.len() == 2 && "-k"@[1] == 'k');
    assert("-q"@.len() == 2 && "-q"@[1] == 'q');
    assert("-o"@.len() == 2 && "-o"@[1] == 'o');
    assert("-a"@.len() == 2 && "-a"@[1] == 'a');
    assert("-fm"@.len() == 3 && "-fm"@[1] == 'f');
    assert("-bm"@.len() == 3 && "-bm"@[1] == 'b');
    assert("-ro"@.len() == 3 && "-ro"@[1] == 'r');
    assert("-keyint"@.len() == 7);
    assert("-encoder"@.len() == 8);
    assert("-restart-replay-on-save"@.len() == 23);
}

proof fn lemma_set_at(
    args: Seq<Seq<char>>,
    first: int,
    keys: Seq<Seq<char>>,
    i: int,
    value: Seq<char>,
)
    requires
        0 <= first,
        args.len() == first + 2 * keys.len(),
        forall|j: int|
            0 <= j < keys.len() ==> args[first + 2 * j] == #[trigger] keys[j],
        forall|j: int, k: int|
            0 <= j < keys.len() && 0 <= k < keys.len() && #[trigger] keys[j] == #[trigger] keys[k]
                ==> j == k,
        0 <= i < keys.len(),
        args[first + 2 * i + 1] == value,
    ensures
        is_set_to(args, first, keys[i], value),
{
    let p = first + 2 * i;
    assert(args[p] == keys[i]);
    assert forall|q: int|
        first <= q < args.len() && (q - first) % 2 == 0 && #[trigger] args[q]
            == keys[i] implies q + 1 < args.len() && args[q + 1] == value by {
        let j = (q - first) / 2;
        assert(q == first + 2 * j);
        assert(args[first + 2 * j] == keys[j]);
        assert(j == i);
    }
}

proof fn lemma_not_set(args: Seq<Seq<char>>, first: int, keys: Seq<Seq<char>>, key: Seq<char>)
    requires
        0 <= first,
        args.len() == first + 2 * keys.len(),
        forall|j: int|
            0 <= j < keys.len() ==> args[first + 2 * j] == #[trigger] keys[j],
        forall|j: int| 0 <= j < keys.len() ==> #[trigger] keys[j] != key,
    ensures
        is_not_set(args, first, key),
{
    assert forall|q: int| first <= q < args.len() && (q - first) % 2 == 0 implies #[trigger] args[q]
        != key by {
        let j = (q - first) / 2;
        assert(q == first + 2 * j);
        assert(args[first + 2 * j] == keys[j]);
    }
}

/// The command starts the recorder, in its sandbox where that is its mode, and
/// tells it each setting under the option that the recorder has for it.
#[verifier::rlimit(60)]
#[verifier::spinoff_prover]
pub proof fn lemma_command_tells_each_setting(
    command: GsrCommandLine,
    config: CaptureConfig,
    env: GsrEnvironment,
)
    requires
        command.built_from(config, env),
    ensures
        ({
            let args = text::texts(command.args@);
            let first: int = if command.mode is Flatpak {
                3
            } else {
                0
            };
            let sound = text::trim_of(config.audio_input@);
            &&& match command.mode {
                GsrMode::Native => command.program@ == "gpu-screen-recorder"@,
                GsrMode::Flatpak => command.program@ == "flatpak"@ && args.len() >= 3 && args[0]
                    == "run"@ && args[1] == "--command=gpu-screen-recorder"@ && args[2]
                    == "com.dec05eba.gpu_screen_recorder"@,
            }
            &&& is_set_to(args, first, "-w"@, command.target@)
            &&& is_set_to(
                args,
                first,
                "-f"@,
                text::decimal(
                    if config.fps == 0 {
                        1
                    } else if config.fps > 240 {
                        240
                    } else {
                        config.fps as nat
                    },
                ),
            )
            &&& is_set_to(
                args,
                first,
                "-fm"@,
                match config.frame_rate_mode {
                    GsrFrameRateMode::Cfr => "cfr"@,
                    GsrFrameRateMode::Vfr => "vfr"@,
                    GsrFrameRateMode::Content => "content"@,
                },
            )
            &&& is_set_to(
                args,
                first,
                "-keyint"@,
                as_seconds(keyframe_millis(config.keyframe_interval_seconds)),
            )
            &&& is_set_to(
                args,
                first,
                "-r"@,
                text::decimal(
                    if config.replay_seconds == 0 {
                        1
                    } else {
                        config.replay_seconds as nat
                    },
                ),
            )
            &&& is_set_to(
                args,
                first,
                "-c"@,
                match config.container {
                    GsrContainer::Mp4 => "mp4"@,
                    GsrContainer::Mkv => "mkv"@,
                },
            )
            &&& is_set_to(
                args,
                first,
                "-k"@,
                match config.codec {
                    GsrCodec::H264 => "h264"@,
                    GsrCodec::Hevc => "hevc"@,
                    GsrCodec::Av1 => "av1"@,
                },
            )
            &&& is_set_to(
                args,
                first,
                "-encoder"@,
                match config.encoder {
                    GsrEncoder::Gpu => "gpu"@,
                    GsrEncoder::Cpu => "cpu"@,
                },
            )
            &&& match config.bitrate_mode {
                GsrBitrateMode::Auto => is_not_set(args, first, "-bm"@),
                GsrBitrateMode::Qp => is_set_to(args, first, "-bm"@, "qp"@),
                GsrBitrateMode::Cbr => is_set_to(args, first, "-bm"@, "cbr"@),
                GsrBitrateMode::Vbr => is_set_to(args, first, "-bm"@, "vbr"@),
            }
            &&& config.bitrate_mode is Cbr ==> is_set_to(
                args,
                first,
                "-q"@,
                text::decimal(
                    if config.video_bitrate_kbps == 0 {
                        20_000
                    } else {
                        config.video_bitrate_kbps as nat
                    },
                ),
            )
            &&& !(config.bitrate_mode is Cbr) ==> is_set_to(
                args,
                first,
                "-q"@,
                match config.quality {
                    GsrQuality::Medium => "medium"@,
                    GsrQuality::High => "high"@,
                    GsrQuality::VeryHigh => "very_high"@,
                    GsrQuality::Ultra => "ultra"@,
                },
            )
            &&& config.restart_replay_on_save ==> is_set_to(
                args,
                first,
                "-restart-replay-on-save"@,
                "yes"@,
            )
            &&& !config.restart_replay_on_save ==> is_set_to(
                args,
                first,
                "-restart-replay-on-save"@,
                "no"@,
            )
            &&& is_set_to(args, first, "-ro"@, command.output_dir@)
            &&& is_set_to(args, first, "-o"@, command.output_prefix@)
            &&& path::file_name_of(command.output_prefix@) == Some("wtclip"@)
            &&& text::has_prefix(command.output_prefix@, command.output_dir@)
            &&& if config.audio_enabled && sound.len() > 0 {
                is_set_to(args, first, "-a"@, sound)
            } else {
                is_not_set(args, first, "-a"@)
            }
        }),
{
    let args = text::texts(command.args@);
    let first: int = if command.mode is Flatpak {
        3
    } else {
        0
    };
    reveal_strlit("wtclip");
    assert("wtclip"@.len() == 6);
    assert(!"wtclip"@.contains('/'));
    path::lemma_joined_path(command.output_dir@, "wtclip"@);
    let bm = config.bitrate_mode.arg() is Some;
    let a = config.audio_enabled && text::trim_of(config.audio_input@).len() > 0;
    let keys = option_order(bm, a);
    lemma_options_differ(bm, a);
    let v = video_args(config, command.target@);
    let b = bitrate_args(config);
    let o = output_args(config, command.output_dir@);
    let s = audio_args(config);
    assert(args == launch_args(command.mode) + v + b + o + s);
    let q: int = if bm {
        9
    } else {
        8
    };
    assert(args.len() == first + 2 * keys.len());
    assert forall|j: int| 0 <= j < keys.len() implies args[first + 2 * j] == #[trigger] keys[j] by {
        if j < 8 {
            assert(args[first + 2 * j] == v[2 * j]);
        } else if j < q {
            assert(args[first + 2 * j] == b[0]);
        } else if j < q + 4 {
            assert(args[first + 2 * j] == o[2 * (j - q)]);
        } else {
            assert(args[first + 2 * j] == s[0]);
        }
    }
    assert(args[first + 1] == v[1]);
    assert(args[first + 3] == v[3]);
    assert(args[first + 5] == v[5]);
    assert(args[first + 7] == v[7]);
    assert(args[first + 9] == v[9]);
    assert(args[first + 11] == v[11]);
    assert(args[first + 13] == v[13]);
    assert(args[first + 15] == v[15]);
    assert(args[first + 2 * q + 1] == o[1]);
    assert(args[first + 2 * q + 3] == o[3]);
    assert(args[first + 2 * q + 5] == o[5]);
    assert(args[first + 2 * q + 7] == o[7]);
    lemma_set_at(args, first, keys, 0, v[1]);
    lemma_set_at(args, first, keys, 1, v[3]);
    lemma_set_at(args, first, keys, 2, v[5]);
    lemma_set_at(args, first, keys, 3, v[7]);
    lemma_set_at(args, first, keys, 4, v[9]);
    lemma_set_at(args, first, keys, 5, v[11]);
    lemma_set_at(args, first, keys, 6, v[13]);
    lemma_set_at(args, first, keys, 7, v[15]);
    if bm {
        assert(args[first + 17] == b[1]);
        lemma_set_at(args, first, keys, 8, b[1]);
    } else {
        lemma_not_set(args, first, keys, "-bm"@);
    }
    lemma_set_at(args, first, keys, q, o[1]);
    lemma_set_at(args, first, keys, q + 1, o[3]);
    lemma_set_at(args, first, keys, q + 2, o[5]);
    lemma_set_at(args, first, keys, q + 3, o[7]);
    if a {
        assert(args[first + 2 * (q + 4) + 1] == s[1]);
        lemma_set_at(args, first, keys, q + 4, s[1]);
    } else {
        lemma_not_set(args, first, keys, "-a"@);
    }
}

/// Replays only ever go to absolute paths.
pub proof fn lemma_command_paths_are_absolute(
    command: GsrCommandLine,
    config: CaptureConfig,
    env: GsrEnvironment,
)
    requires
        command.built_from(config, env),
    ensures
        path::is_absolute_path(command.output_dir@),
        path::is_absolute_path(command.output_prefix@),
{
    reveal_strlit("wtclip");
    assert("wtclip"@[0] == 'w');
}


pub open spec fn waiting_reason() -> Seq<char> {
    "waiting for War Thunder localhost"@
}

/// What is known of the recorder.
#[derive(Debug)]
pub struct GpuScreenRecorderState {
    pub mode: Option<GsrMode>,
    pub wrapper_pid: Option<u32>,
    pub recorder_pid: Option<u32>,
    pub health: GsrHealth,
    pub target: String,
    pub target_valid: bool,
    pub capture_strategy: CaptureStrategy,
    pub session_type: String,
    pub target_reason: String,
    pub output_dir: String,
    pub output_prefix: String,
    pub last_output: Option<String>,
    pub last_error: Option<String>,
    pub restart_count: u64,
    pub command_line: Option<String>,
    pub recorder_command_line: Option<String>,
    pub monitors: Vec<String>,
    pub stderr_handling: String,
    pub save_queue_len: usize,
    pub total_saves_requested: u64,
    pub total_saves_completed: u64,
    pub total_saves_failed: u64,
}

/// The recorder's state with its texts as sequences of characters.
pub ghost struct GsrStateView {
    pub mode: Option<GsrMode>,
    pub wrapper_pid: Option<u32>,
    pub recorder_pid: Option<u32>,
    pub health: GsrHealth,
    pub target: Seq<char>,
    pub target_valid: bool,
    pub capture_strategy: CaptureStrategy,
    pub session_type: Seq<char>,
    pub target_reason: Seq<char>,
    pub output_dir: Seq<char>,
    pub output_prefix: Seq<char>,
    pub last_output: Option<Seq<char>>,
    pub last_error: Option<Seq<char>>,
    pub restart_count: u64,
    pub command_line: Option<Seq<char>>,
    pub recorder_command_line: Option<Seq<char>>,
    pub monitors: Seq<Seq<char>>,
    pub stderr_handling: Seq<char>,
    pub save_queue_len: usize,
    pub total_saves_requested: u64,
    pub total_saves_completed: u64,
    pub total_saves_failed: u64,
}

impl View for GpuScreenRecorderState {
    type V = GsrStateView;

    open spec fn view(&self) -> GsrStateView {
        GsrStateView {
            mode: self.mode,
            wrapper_pid: self.wrapper_pid,
            recorder_pid: self.recorder_pid,
            health: self.health,
            target: self.target@,
            target_valid: self.target_valid,
            capture_strategy: self.capture_strategy,
            session_type: self.session_type@,
            target_reason: self.target_reason@,
            output_dir: self.output_dir@,
            output_prefix: self.output_prefix@,
            last_output: text::opt_text(self.last_output),
            last_error: text::opt_text(self.last_error),
            restart_count: self.restart_count,
            command_line: text::opt_text(self.command_line),
            recorder_command_line: text::opt_text(self.recorder_command_line),
            monitors: text::texts(self.monitors@),
            stderr_handling: self.stderr_handling@,
            save_queue_len: self.save_queue_len,
            total_saves_requested: self.total_saves_requested,
            total_saves_completed: self.total_saves_completed,
            total_saves_failed: self.total_saves_failed,
        }
    }
}

/// The recorder: its settings, its state, and the process that was started.
#[derive(Debug)]
pub struct GpuScreenRecorderHandle {
    pub config: CaptureConfig,
    pub state: GpuScreenRecorderState,
    pub child: Option<u32>,
}

/// The state before anything was started.
pub open spec fn initial_state(config: CaptureConfig, env: GsrEnvironment) -> GsrStateView {
    let dir = match replay_dir(config, env) {
        Some(dir) => dir,
        None => config.output_dir@,
    };
    GsrStateView {
        mode: None,
        wrapper_pid: None,
        recorder_pid: None,
        health: GsrHealth::Stopped,
        target: config.target@,
        target_valid: false,
        capture_strategy: config.capture_strategy,
        session_type: env.session(),
        target_reason: "not resolved yet"@,
        output_dir: dir,
        output_prefix: path::joined_path(dir, "wtclip"@),
        last_output: None,
        last_error: None,
        restart_count: 0,
        command_line: None,
        recorder_command_line: None,
        monitors: env.monitors(),
        stderr_handling: "null"@,
        save_queue_len: 0,
        total_saves_requested: 0,
        total_saves_completed: 0,
        total_saves_failed: 0,
    }
}

/// The recorder is at work.
pub open spec fn at_work(health: GsrHealth) -> bool {
    health is Running || health is SavingReplay
}

pub fn is_at_work(health: GsrHealth) -> (r: bool)
    ensures
        r == at_work(health),
{
    match health {
        GsrHealth::Running | GsrHealth::SavingReplay => true,
        _ => false,
    }
}

/// The state with a fresh list of monitors. While the recorder is not at work
/// the target follows from the settings again.
pub open spec fn refreshed(s: GsrStateView, config: CaptureConfig, env: GsrEnvironment) -> GsrStateView {
    let monitors = env.monitors();
    let next = if at_work(s.health) {
        GsrStateView { monitors, ..s }
    } else {
        GsrStateView {
            monitors,
            capture_strategy: config.capture_strategy,
            session_type: env.session(),
            target: effective_target(config.target@, monitors),
            target_reason: if (config.capture_strategy is Auto || config.capture_strategy is Portal)
                && s.target_reason == waiting_reason() {
                s.target_reason
            } else {
                "configured fallback target"@
            },
            ..s
        }
    };
    GsrStateView { target_valid: valid_target(next.target, monitors), ..next }
}

/// What came of waiting for the started process.
#[derive(Debug)]
pub enum ChildStatus {
    /// It ended, with this status.
    Exited(String),
    /// It runs.
    Alive,
    /// It could not be asked.
    Unknown(String),
}

/// What to do to start the recorder.
#[derive(Debug)]
pub enum StartStep {
    /// Nothing: it runs.
    AlreadyRunning,
    /// Give up, with this error.
    Failed(String),
    /// Run this command.
    Launch(GsrCommandLine),
}

pub open spec fn plus_one(n: u64) -> u64 {
    if n == u64::MAX {
        n
    } else {
        (n + 1) as u64
    }
}

fn more(n: u64) -> (r: u64)
    ensures
        r == plus_one(n),
{
    if n == u64::MAX {
        n
    } else {
        n + 1
    }
}

/// The settings with a target that the recorder can be pointed at, and a word
/// on it where that is not the configured one.
pub open spec fn retargeted(s: GsrStateView, config: CaptureConfig, env: GsrEnvironment) -> GsrStateView {
    let monitors = env.monitors();
    let target = effective_target(config.target@, monitors);
    GsrStateView {
        monitors,
        capture_strategy: config.capture_strategy,
        session_type: env.session(),
        target,
        target_reason: "configured fallback target"@,
        target_valid: valid_target(target, monitors),
        last_error: if target != config.target@ {
            Some(
                "Target GSR '"@ + config.target@ + "' invalide, utilisation automatique de '"@
                    + target + "'"@,
            )
        } else {
            s.last_error
        },
        ..s
    }
}

/// All settings but the target.
pub open spec fn with_target(config: CaptureConfig, target: String) -> CaptureConfig {
    CaptureConfig { target, ..config }
}

impl GpuScreenRecorderHandle {
    pub fn new(config: CaptureConfig, env: &GsrEnvironment) -> (r: Self)
        ensures
            r.config == config,
            r.state@ == initial_state(config, *env),
            r.child is None,
    {
        let home: Option<&str> = match &env.home {
            Some(home) => Some(home.as_str()),
            None => None,
        };
        assert(text::opt_str(home) == text::opt_text(env.home));
        let output_dir: String = match config.output_dir_path(home) {
            Ok(dir) => dir,
            Err(_) => config.output_dir.clone(),
        };
        let output_prefix = path::join_path(output_dir.as_str(), "wtclip");
        let state = GpuScreenRecorderState {
            mode: None,
            wrapper_pid: None,
            recorder_pid: None,
            health: GsrHealth::Stopped,
            target: config.target.clone(),
            target_valid: false,
            capture_strategy: config.capture_strategy,
            session_type: env.session_type(),
            target_reason: "not resolved yet".to_owned(),
            output_dir,
            output_prefix,
            last_output: None,
            last_error: None,
            restart_count: 0,
            command_line: None,
            recorder_command_line: None,
            monitors: list_monitors(&env.listed_monitors),
            stderr_handling: "null".to_owned(),
            save_queue_len: 0,
            total_saves_requested: 0,
            total_saves_completed: 0,
            total_saves_failed: 0,
        };
        GpuScreenRecorderHandle { config, state, child: None }
    }

    /// Waits for the game before a target is chosen.
    pub fn mark_waiting_for_war_thunder(&mut self, env: &GsrEnvironment)
        ensures
            final(self).config == old(self).config,
            final(self).child is None,
            final(self).state@ == ({
                let s = old(self).state@;
                let target = effective_target(old(self).config.target@, s.monitors);
                GsrStateView {
                    wrapper_pid: None,
                    recorder_pid: None,
                    health: GsrHealth::Stopped,
                    capture_strategy: old(self).config.capture_strategy,
                    session_type: env.session(),
                    target,
                    target_reason: waiting_reason(),
                    command_line: None,
                    recorder_command_line: None,
                    target_valid: valid_target(target, s.monitors),
                    mode: match s.mode {
                        Some(mode) => Some(mode),
                        None => env.mode(old(self).config.gpu_screen_recorder_mode),
                    },
                    ..s
                }
            }),
    {
        let target = select_effective_target(self.config.target.as_str(), &self.state.monitors);
        let target_valid: bool = target_is_valid(target.as_str(), &self.state.monitors);
        let mode: Option<GsrMode> = match resolve_mode(
            self.config.gpu_screen_recorder_mode,
            env.native_available,
            env.flatpak_available,
        ) {
            Ok(mode) => Some(mode),
            Err(_) => None,
        };
        self.child = None;
        self.state.wrapper_pid = None;
        self.state.recorder_pid = None;
        self.state.health = GsrHealth::Stopped;
        self.state.capture_strategy = self.config.capture_strategy;
        self.state.session_type = env.session_type();
        self.state.target = target;
        self.state.target_reason = "waiting for War Thunder localhost".to_owned();
        self.state.command_line = None;
        self.state.recorder_command_line = None;
        self.state.target_valid = target_valid;
        if self.state.mode.is_none() {
            self.state.mode = mode;
        }
    }

    fn refresh_monitors_and_effective_target(&mut self, env: &GsrEnvironment)
        ensures
            final(self).child == old(self).child,
            final(self).config == with_target(old(self).config, final(self).config.target),
            final(self).config.target@ == effective_target(
                old(self).config.target@,
                env.monitors(),
            ),
            final(self).state@ == retargeted(old(self).state@, old(self).config, *env),
    {
        let monitors = list_monitors(&env.listed_monitors);
        let effective = select_effective_target(self.config.target.as_str(), &monitors);
        if !text::same(effective.as_str(), self.config.target.as_str()) {
            let mut message: String = "Target GSR '".to_owned();
            message.append(self.config.target.as_str());
            message.append("' invalide, utilisation automatique de '");
            message.append(effective.as_str());
            message.append("'");
            self.config.target = effective;
            self.state.last_error = Some(message);
        }
        self.state.target_valid = target_is_valid(self.config.target.as_str(), &monitors);
        self.state.monitors = monitors;
        self.state.capture_strategy = self.config.capture_strategy;
        self.state.session_type = env.session_type();
        self.state.target = self.config.target.clone();
        self.state.target_reason = "configured fallback target".to_owned();
    }

    /// Begins to start the recorder, unless it runs.
    pub fn start(&mut self, child_running: bool, env: &GsrEnvironment) -> (r: StartStep)
        ensures
            match r {
                StartStep::AlreadyRunning => child_running && old(self).child is Some
                    && final(self).config == old(self).config && final(self).child == old(
                    self,
                ).child && final(self).state@ == (GsrStateView {
                    health: GsrHealth::Running,
                    ..old(self).state@
                }),
                StartStep::Launch(command) => {
                    &&& !(child_running && old(self).child is Some)
                    &&& final(self).child is None
                    &&& final(self).config == with_target(
                        old(self).config,
                        final(self).config.target,
                    )
                    &&& final(self).config.target@ == effective_target(
                        old(self).config.target@,
                        env.monitors(),
                    )
                    &&& command.built_from(final(self).config, *env)
                    &&& final(self).state@ == retargeted(
                        (GsrStateView {
                            health: GsrHealth::Starting,
                            last_error: None,
                            ..old(self).state@
                        }),
                        old(self).config,
                        *env,
                    )
                },
                StartStep::Failed(message) => {
                    &&& !(child_running && old(self).child is Some)
                    &&& final(self).child is None
                    &&& final(self).config == with_target(
                        old(self).config,
                        final(self).config.target,
                    )
                    &&& final(self).config.target@ == effective_target(
                        old(self).config.target@,
                        env.monitors(),
                    )
                    &&& exists|e: GsrCommandError|
                        #[trigger] command_error(final(self).config, *env, e) && message@
                            == e.text_of()
                    &&& final(self).state@ == (GsrStateView {
                        health: GsrHealth::Error,
                        last_error: Some(message@),
                        ..retargeted(
                            (GsrStateView {
                                health: GsrHealth::Starting,
                                last_error: None,
                                ..old(self).state@
                            }),
                            old(self).config,
                            *env,
                        )
                    })
                },
            },
    {
        if self.child.is_some() && child_running {
            self.state.health = GsrHealth::Running;
            return StartStep::AlreadyRunning;
        }
        self.child = None;
        self.state.health = GsrHealth::Starting;
        self.state.last_error = None;
        self.refresh_monitors_and_effective_target(env);
        match build_gsr_command(&self.config, env) {
            Ok(command) => StartStep::Launch(command),
            Err(error) => {
                let message = error.message();
                self.state.health = GsrHealth::Error;
                self.state.last_error = Some(message.clone());
                StartStep::Failed(message)
            },
        }
    }

    /// The recorder could not be started, or its process not be found.
    pub fn start_failed(&mut self, message: &str)
        ensures
            final(self).config == old(self).config,
            final(self).child == old(self).child,
            final(self).state@ == (GsrStateView {
                health: GsrHealth::Error,
                last_error: Some(message@),
                ..old(self).state@
            }),
    {
        self.state.health = GsrHealth::Error;
        self.state.last_error = Some(message.to_owned());
    }

    /// The recorder runs: `child_pid` is the process that was started, and
    /// `recorder` the one that records and its command where they differ.
    pub fn started(
        &mut self,
        command: GsrCommandLine,
        child_pid: u32,
        recorder: Option<(u32, String)>,
    )
        ensures
            final(self).config == old(self).config,
            final(self).child == Some(child_pid),
            final(self).state@ == launched(old(self).state@, command, child_pid, recorder),
    {
        let (recorder_pid, recorder_command_line): (u32, String) = match recorder {
            Some(found) => found,
            None => (child_pid, command.command_line.clone()),
        };
        self.state.mode = Some(command.mode);
        self.state.wrapper_pid = Some(child_pid);
        self.state.recorder_pid = Some(recorder_pid);
        self.state.health = GsrHealth::Running;
        self.state.target_valid = target_is_valid(command.target.as_str(), &self.state.monitors);
        self.state.target = command.target;
        self.state.capture_strategy = command.capture_strategy;
        self.state.session_type = command.session_type;
        self.state.target_reason = command.target_reason;
        self.state.command_line = Some(command.command_line);
        self.state.recorder_command_line = Some(recorder_command_line);
        self.state.output_dir = command.output_dir;
        self.state.output_prefix = command.output_prefix;
        self.state.stderr_handling = "null".to_owned();
        self.child = Some(child_pid);
    }

    /// The recorder has been stopped.
    pub fn stop(&mut self)
        ensures
            final(self).config == old(self).config,
            final(self).child is None,
            final(self).state@ == (GsrStateView {
                wrapper_pid: None,
                recorder_pid: None,
                health: GsrHealth::Stopped,
                ..old(self).state@
            }),
    {
        self.child = None;
        self.state.wrapper_pid = None;
        self.state.recorder_pid = None;
        self.state.health = GsrHealth::Stopped;
    }

    /// Begins a restart: notes the reason and takes over new settings. The
    /// processes to stop first are handed out: what was started, and what records.
    pub fn restart(&mut self, config: Option<CaptureConfig>, reason: &str) -> (r: (
        Option<u32>,
        Option<u32>,
    ))
        ensures
            r == (old(self).child, old(self).state.recorder_pid),
            final(self).child is None,
            final(self).config == (match config {
                Some(config) => config,
                None => old(self).config,
            }),
            final(self).state@ == (GsrStateView {
                health: GsrHealth::Starting,
                last_error: Some(reason@),
                restart_count: plus_one(old(self).state.restart_count),
                ..old(self).state@
            }),
    {
        if let Some(config) = config {
            self.config = config;
        }
        self.state.health = GsrHealth::Starting;
        self.state.last_error = Some(reason.to_owned());
        self.state.restart_count = more(self.state.restart_count);
        let child: Option<u32> = self.child;
        self.child = None;
        (child, self.state.recorder_pid)
    }

    /// The processes of a restart have been stopped.
    pub fn restart_stopped(&mut self)
        ensures
            final(self).config == old(self).config,
            final(self).child == old(self).child,
            final(self).state@ == (GsrStateView {
                wrapper_pid: None,
                recorder_pid: None,
                ..old(self).state@
            }),
    {
        self.state.wrapper_pid = None;
        self.state.recorder_pid = None;
    }

    fn refresh_monitors_snapshot(&mut self, env: &GsrEnvironment)
        ensures
            final(self).config == old(self).config,
            final(self).child == old(self).child,
            final(self).state@ == refreshed(old(self).state@, old(self).config, *env),
    {
        self.state.monitors = list_monitors(&env.listed_monitors);
        if !is_at_work(self.state.health) {
            let was_waiting: bool = self.config.capture_strategy.should_wait_for_war_thunder()
                && text::same(
                self.state.target_reason.as_str(),
                "waiting for War Thunder localhost",
            );
            self.state.capture_strategy = self.config.capture_strategy;
            self.state.session_type = env.session_type();
            self.state.target = select_effective_target(
                self.config.target.as_str(),
                &self.state.monitors,
            );
            if !was_waiting {
                self.state.target_reason = "configured fallback target".to_owned();
            }
        }
        self.state.target_valid = target_is_valid(
            self.state.target.as_str(),
            &self.state.monitors,
        );
    }

    pub fn update_config_without_restart(&mut self, config: CaptureConfig, env: &GsrEnvironment)
        ensures
            final(self).config == config,
            final(self).child == old(self).child,
            final(self).state@ == refreshed(old(self).state@, config, *env),
    {
        self.config = config;
        self.refresh_monitors_snapshot(env);
    }

    /// Do the settings differ from the present ones, so that the recorder has
    /// to be restarted with them?
    pub fn update_config_and_restart_if_needed(&self, config: &CaptureConfig) -> (r: bool)
        ensures
            r == !same_settings(self.config, *config),
    {
        !is_same_config(&self.config, config)
    }

    /// The state after a look at the started process and the one that records.
    pub open spec fn looked_at(
        s: GsrStateView,
        child: Option<u32>,
        found: ChildStatus,
        recorder_alive: bool,
    ) -> GsrStateView {
        match child {
            Some(pid) => match found {
                ChildStatus::Exited(status) => GsrStateView {
                    wrapper_pid: None,
                    recorder_pid: None,
                    health: GsrHealth::Error,
                    last_error: Some("GPU Screen Recorder exited: "@ + status@),
                    ..s
                },
                ChildStatus::Alive => if s.health is SavingReplay {
                    s
                } else if s.recorder_pid is Some && !recorder_alive {
                    GsrStateView {
                        wrapper_pid: Some(pid),
                        recorder_pid: None,
                        health: GsrHealth::Error,
                        last_error: Some("GPU Screen Recorder recorder process exited"@),
                        ..s
                    }
                } else {
                    GsrStateView { wrapper_pid: Some(pid), health: GsrHealth::Running, ..s }
                },
                ChildStatus::Unknown(error) => GsrStateView {
                    health: GsrHealth::Error,
                    last_error: Some(error@),
                    ..s
                },
            },
            None => if s.health is Error {
                s
            } else {
                GsrStateView {
                    health: GsrHealth::Stopped,
                    wrapper_pid: None,
                    recorder_pid: None,
                    ..s
                }
            },
        }
    }

    /// Takes note of what became of the processes.
    pub fn refresh_status(
        &mut self,
        found: ChildStatus,
        recorder_alive: bool,
        env: &GsrEnvironment,
    )
        ensures
            final(self).config == old(self).config,
            final(self).child == (if old(self).child is Some && found is Exited {
                None
            } else {
                old(self).child
            }),
            final(self).state@ == refreshed(
                Self::looked_at(old(self).state@, old(self).child, found, recorder_alive),
                old(self).config,
                *env,
            ),
    {
        match self.child {
            Some(pid) => match found {
                ChildStatus::Exited(status) => {
                    let message = text::join2("GPU Screen Recorder exited: ", status.as_str());
                    self.child = None;
                    self.state.wrapper_pid = None;
                    self.state.recorder_pid = None;
                    self.state.health = GsrHealth::Error;
                    self.state.last_error = Some(message);
                },
                ChildStatus::Alive => {
                    if self.state.health != GsrHealth::SavingReplay {
                        self.state.health = GsrHealth::Running;
                        self.state.wrapper_pid = Some(pid);
                        if self.state.recorder_pid.is_some() && !recorder_alive {
                            self.state.recorder_pid = None;
                            self.state.health = GsrHealth::Error;
                            self.state.last_error = Some(
                                "GPU Screen Recorder recorder process exited".to_owned(),
                            );
                        }
                    }
                },
                ChildStatus::Unknown(error) => {
                    self.state.health = GsrHealth::Error;
                    self.state.last_error = Some(error);
                },
            },
            None => {
                if self.state.health != GsrHealth::Error {
                    self.state.health = GsrHealth::Stopped;
                    self.state.wrapper_pid = None;
                    self.state.recorder_pid = None;
                }
            },
        }
        self.refresh_monitors_snapshot(env);
    }
}

/// The same settings, texts compared by their characters.
pub open spec fn same_settings(a: CaptureConfig, b: CaptureConfig) -> bool {
    &&& a.capture_strategy == b.capture_strategy
    &&& a.target@ == b.target@
    &&& a.gpu_screen_recorder_mode == b.gpu_screen_recorder_mode
    &&& a.fps == b.fps
    &&& a.replay_seconds == b.replay_seconds
    &&& a.container == b.container
    &&& a.codec == b.codec
    &&& a.encoder == b.encoder
    &&& a.quality == b.quality
    &&& a.bitrate_mode == b.bitrate_mode
    &&& a.frame_rate_mode == b.frame_rate_mode
    &&& a.keyframe_interval_seconds.equals(b.keyframe_interval_seconds)
    &&& a.restart_replay_on_save == b.restart_replay_on_save
    &&& a.video_bitrate_kbps == b.video_bitrate_kbps
    &&& a.output_dir@ == b.output_dir@
    &&& a.audio_enabled == b.audio_enabled
    &&& a.audio_input@ == b.audio_input@
}

pub fn is_same_config(a: &CaptureConfig, b: &CaptureConfig) -> (r: bool)
    ensures
        r == same_settings(*a, *b),
{
    a.capture_strategy == b.capture_strategy && text::same(a.target.as_str(), b.target.as_str())
        && a.gpu_screen_recorder_mode == b.gpu_screen_recorder_mode && a.fps == b.fps
        && a.replay_seconds == b.replay_seconds && a.container == b.container && a.codec == b.codec
        && a.encoder == b.encoder && a.quality == b.quality && a.bitrate_mode == b.bitrate_mode
        && a.frame_rate_mode == b.frame_rate_mode && a.keyframe_interval_seconds.same_as(
        b.keyframe_interval_seconds,
    ) && a.restart_replay_on_save == b.restart_replay_on_save
        && a.video_bitrate_kbps == b.video_bitrate_kbps && text::same(
        a.output_dir.as_str(),
        b.output_dir.as_str(),
    ) && a.audio_enabled == b.audio_enabled && text::same(
        a.audio_input.as_str(),
        b.audio_input.as_str(),
    )
}


/// What the user is shown of the recorder.
#[derive(Debug)]
pub struct GsrStatus {
    pub available: bool,
    pub mode: Option<GsrMode>,
    pub health: GsrHealth,
    pub pid: Option<u32>,
    pub wrapper_pid: Option<u32>,
    pub recorder_pid: Option<u32>,
    pub signal_pid: Option<u32>,
    pub recorder_command_line: Option<String>,
    pub stderr_handling: String,
    pub save_queue_len: usize,
    pub total_saves_requested: u64,
    pub total_saves_completed: u64,
    pub total_saves_failed: u64,
    pub target: String,
    pub target_valid: bool,
    pub monitors: Vec<String>,
    pub capture_strategy: String,
    pub session_type: String,
    pub target_reason: String,
    pub command_line: Option<String>,
    pub output_dir: String,
    pub output_prefix: String,
    pub last_output: Option<String>,
    pub last_error: Option<String>,
    pub restart_count: u64,
    pub replay_seconds: u64,
    pub fps: u32,
    pub quality: String,
    pub bitrate_mode: String,
    pub frame_rate_mode: String,
    pub keyframe_interval_seconds: Single,
    pub restart_replay_on_save: bool,
    pub video_bitrate_kbps: u32,
    pub effective_q_argument: String,
    pub codec: String,
    pub container: String,
    pub encoder: String,
}

pub open spec fn bitrate_label(mode: GsrBitrateMode) -> Seq<char> {
    match mode {
        GsrBitrateMode::Auto => "auto"@,
        GsrBitrateMode::Qp => "qp"@,
        GsrBitrateMode::Cbr => "cbr"@,
        GsrBitrateMode::Vbr => "vbr"@,
    }
}

pub fn bitrate_mode_label(mode: GsrBitrateMode) -> (r: &'static str)
    ensures
        r@ == bitrate_label(mode),
{
    match mode {
        GsrBitrateMode::Auto => "auto",
        GsrBitrateMode::Qp => "qp",
        GsrBitrateMode::Cbr => "cbr",
        GsrBitrateMode::Vbr => "vbr",
    }
}

pub open spec fn strategy_label(strategy: CaptureStrategy) -> Seq<char> {
    match strategy {
        CaptureStrategy::Auto => "auto"@,
        CaptureStrategy::Monitor => "monitor"@,
        CaptureStrategy::Focused => "focused"@,
        CaptureStrategy::Portal => "portal"@,
    }
}

pub fn capture_strategy_label(strategy: CaptureStrategy) -> (r: &'static str)
    ensures
        r@ == strategy_label(strategy),
{
    match strategy {
        CaptureStrategy::Auto => "auto",
        CaptureStrategy::Monitor => "monitor",
        CaptureStrategy::Focused => "focused",
        CaptureStrategy::Portal => "portal",
    }
}

/// The settings give a command on this machine.
pub open spec fn can_build(config: CaptureConfig, env: GsrEnvironment) -> bool {
    (replay_dir(config, env) matches Some(dir) && path::is_absolute_path(dir)) && env.mode(
        config.gpu_screen_recorder_mode,
    ) is Some
}

/// The command that the settings give.
pub open spec fn built_line(config: CaptureConfig, env: GsrEnvironment) -> Seq<char> {
    let mode = env.mode(config.gpu_screen_recorder_mode)->0;
    shown_command(
        program_of(mode),
        recorder_args(
            config,
            mode,
            resolved_target(config, env).target,
            replay_dir(config, env)->0,
        ),
    )
}

/// The recorder waits for the game, so no target is chosen yet.
pub open spec fn waits_for_game(s: GsrStateView, config: CaptureConfig) -> bool {
    (config.capture_strategy is Auto || config.capture_strategy is Portal) && s.health is Stopped
        && s.target_reason == waiting_reason()
}

pub open spec fn installed(mode: GsrMode, env: GsrEnvironment) -> bool {
    match mode {
        GsrMode::Native => env.native_available,
        GsrMode::Flatpak => env.flatpak_available,
    }
}

impl GsrStatus {
    /// The status tells what the state and the settings are. While the recorder
    /// is not at work, the target is the one that it would be started with.
    pub open spec fn tells(self, s: GsrStateView, config: CaptureConfig, env: GsrEnvironment) -> bool {
        let planned = !waits_for_game(s, config) && can_build(config, env);
        let target = if at_work(s.health) || !planned {
            TargetView {
                target: s.target,
                session_type: s.session_type,
                reason: s.target_reason,
            }
        } else {
            resolved_target(config, env)
        };
        &&& self.available == (env.mode(config.gpu_screen_recorder_mode) matches Some(mode)
            && installed(mode, env))
        &&& self.mode == (match s.mode {
            Some(mode) => Some(mode),
            None => env.mode(config.gpu_screen_recorder_mode),
        })
        &&& self.health == s.health
        &&& self.pid == s.recorder_pid
        &&& self.wrapper_pid == s.wrapper_pid
        &&& self.recorder_pid == s.recorder_pid
        &&& self.signal_pid == s.recorder_pid
        &&& text::opt_text(self.recorder_command_line) == s.recorder_command_line
        &&& self.stderr_handling@ == s.stderr_handling
        &&& self.save_queue_len == s.save_queue_len
        &&& self.total_saves_requested == s.total_saves_requested
        &&& self.total_saves_completed == s.total_saves_completed
        &&& self.total_saves_failed == s.total_saves_failed
        &&& self.target@ == target.target
        &&& self.target_valid == valid_target(target.target, s.monitors)
        &&& text::texts(self.monitors@) == s.monitors
        &&& self.capture_strategy@ == strategy_label(
            if at_work(s.health) || !planned {
                s.capture_strategy
            } else {
                config.capture_strategy
            },
        )
        &&& self.session_type@ == target.session_type
        &&& self.target_reason@ == target.reason
        &&& text::opt_text(self.command_line) == (match s.command_line {
            Some(line) => Some(line),
            None => if planned {
                Some(built_line(config, env))
            } else {
                None
            },
        })
        &&& self.output_dir@ == (if planned {
            replay_dir(config, env)->0
        } else {
            s.output_dir
        })
        &&& self.output_prefix@ == (if planned {
            path::joined_path(replay_dir(config, env)->0, "wtclip"@)
        } else {
            s.output_prefix
        })
        &&& text::opt_text(self.last_output) == s.last_output
        &&& text::opt_text(self.last_error) == s.last_error
        &&& self.restart_count == s.restart_count
        &&& self.replay_seconds == config.replay_seconds
        &&& self.fps == config.fps
        &&& self.quality@ == config.quality.arg()
        &&& self.bitrate_mode@ == bitrate_label(config.bitrate_mode)
        &&& self.frame_rate_mode@ == config.frame_rate_mode.arg()
        &&& self.keyframe_interval_seconds == config.keyframe_interval_seconds
        &&& self.restart_replay_on_save == config.restart_replay_on_save
        &&& self.video_bitrate_kbps == config.video_bitrate_kbps
        &&& self.effective_q_argument@ == q_argument(config)
        &&& self.codec@ == config.codec.arg()
        &&& self.container@ == config.container.arg()
        &&& self.encoder@ == config.encoder.arg()
    }
}

/// The state once the recorder runs.
pub open spec fn launched(
    s: GsrStateView,
    command: GsrCommandLine,
    child_pid: u32,
    recorder: Option<(u32, String)>,
) -> GsrStateView {
    GsrStateView {
        mode: Some(command.mode),
        wrapper_pid: Some(child_pid),
        recorder_pid: Some(
            match recorder {
                Some(found) => found.0,
                None => child_pid,
            },
        ),
        health: GsrHealth::Running,
        target: command.target@,
        target_valid: valid_target(command.target@, s.monitors),
        capture_strategy: command.capture_strategy,
        session_type: command.session_type@,
        target_reason: command.target_reason@,
        command_line: Some(command.command_line@),
        recorder_command_line: Some(
            match recorder {
                Some(found) => found.1@,
                None => command.command_line@,
            },
        ),
        output_dir: command.output_dir@,
        output_prefix: command.output_prefix@,
        stderr_handling: "null"@,
        ..s
    }
}

/// A save was asked for and waits its turn.
pub open spec fn with_save_asked_for(s: GsrStateView) -> GsrStateView {
    GsrStateView {
        total_saves_requested: plus_one(s.total_saves_requested),
        save_queue_len: if s.save_queue_len == usize::MAX {
            usize::MAX
        } else {
            (s.save_queue_len + 1) as usize
        },
        ..s
    }
}

/// It is a save's turn.
pub open spec fn with_save_begun(s: GsrStateView) -> GsrStateView {
    GsrStateView {
        save_queue_len: if s.save_queue_len == 0 {
            0
        } else {
            (s.save_queue_len - 1) as usize
        },
        ..s
    }
}

/// A save has ended.
pub open spec fn with_save_ended(
    s: GsrStateView,
    saved: Result<SavedGsrReplay, String>,
) -> GsrStateView {
    match saved {
        Ok(replay) => GsrStateView {
            health: GsrHealth::Running,
            last_output: Some(replay.final_video_path@),
            last_error: None,
            total_saves_completed: plus_one(s.total_saves_completed),
            ..s
        },
        Err(message) => GsrStateView {
            health: GsrHealth::Error,
            last_error: Some(message@),
            total_saves_failed: plus_one(s.total_saves_failed),
            ..s
        },
    }
}

/// Every save that is asked for ends up among those that succeeded or among
/// those that failed, and leaves the queue as long as it was. `checked` is the
/// state between, in which the saves were not counted.
pub proof fn lemma_each_save_is_counted_once(
    s: GsrStateView,
    checked: GsrStateView,
    saved: Result<SavedGsrReplay, String>,
)
    requires
        s.total_saves_requested < u64::MAX,
        s.total_saves_completed < u64::MAX,
        s.total_saves_failed < u64::MAX,
        s.save_queue_len < usize::MAX,
        checked == (GsrStateView {
            wrapper_pid: checked.wrapper_pid,
            recorder_pid: checked.recorder_pid,
            health: checked.health,
            last_error: checked.last_error,
            ..with_save_begun(with_save_asked_for(s))
        }),
    ensures
        ({
            let after = with_save_ended(checked, saved);
            &&& after.total_saves_requested == s.total_saves_requested + 1
            &&& after.total_saves_completed + after.total_saves_failed == s.total_saves_completed
                + s.total_saves_failed + 1
            &&& after.save_queue_len == s.save_queue_len
        }),
{
}

/// While the recorder runs, the status shows the command that was started, and
/// a save is asked of the process that records, not of the one that wraps it.
pub proof fn lemma_status_shows_what_runs(
    status: GsrStatus,
    s: GsrStateView,
    command: GsrCommandLine,
    child_pid: u32,
    recorder: Option<(u32, String)>,
    config: CaptureConfig,
    env: GsrEnvironment,
)
    requires
        status.tells(launched(s, command, child_pid, recorder), config, env),
    ensures
        text::opt_text(status.command_line) == Some(command.command_line@),
        status.target@ == command.target@,
        status.wrapper_pid == Some(child_pid),
        status.signal_pid == (match recorder {
            Some(found) => Some(found.0),
            None => Some(child_pid),
        }),
{
}

fn or_clone(first: &Option<String>, second: Option<String>) -> (r: Option<String>)
    ensures
        text::opt_text(r) == (match text::opt_text(*first) {
            Some(t) => Some(t),
            None => text::opt_text(second),
        }),
{
    match first {
        Some(t) => Some(t.clone()),
        None => second,
    }
}

#[verifier::rlimit(40)]
pub fn status_from_inner(handle: &GpuScreenRecorderHandle, env: &GsrEnvironment) -> (r: GsrStatus)
    ensures
        r.tells(handle.state@, handle.config, *env),
{
    let state = &handle.state;
    let config = &handle.config;
    let waiting: bool = config.capture_strategy.should_wait_for_war_thunder() && state.health
        == GsrHealth::Stopped && text::same(
        state.target_reason.as_str(),
        "waiting for War Thunder localhost",
    );
    let command: Option<GsrCommandLine> = if waiting {
        None
    } else {
        match build_gsr_command(config, env) {
            Ok(command) => Some(command),
            Err(_) => None,
        }
    };
    let ghost planned = !waits_for_game(state@, *config) && can_build(*config, *env);
    assert(command is Some == planned);
    let working: bool = is_at_work(state.health);
    let mode: Option<GsrMode> = match resolve_mode(
        config.gpu_screen_recorder_mode,
        env.native_available,
        env.flatpak_available,
    ) {
        Ok(mode) => Some(mode),
        Err(_) => None,
    };
    let available: bool = match mode {
        Some(GsrMode::Native) => env.native_available,
        Some(GsrMode::Flatpak) => env.flatpak_available,
        None => false,
    };
    let shown_mode: Option<GsrMode> = match state.mode {
        Some(mode) => Some(mode),
        None => mode,
    };
    let target: String;
    let session_type: String;
    let target_reason: String;
    let strategy: CaptureStrategy;
    let planned_line: Option<String>;
    let output_dir: String;
    let output_prefix: String;
    match command {
        Some(command) => {
            planned_line = Some(command.command_line);
            output_dir = command.output_dir;
            output_prefix = command.output_prefix;
            if working {
                target = state.target.clone();
                session_type = state.session_type.clone();
                target_reason = state.target_reason.clone();
                strategy = state.capture_strategy;
            } else {
                target = command.target;
                session_type = command.session_type;
                target_reason = command.target_reason;
                strategy = command.capture_strategy;
            }
        },
        None => {
            planned_line = None;
            output_dir = state.output_dir.clone();
            output_prefix = state.output_prefix.clone();
            target = state.target.clone();
            session_type = state.session_type.clone();
            target_reason = state.target_reason.clone();
            strategy = state.capture_strategy;
        },
    }
    let target_valid: bool = target_is_valid(target.as_str(), &state.monitors);
    GsrStatus {
        available,
        mode: shown_mode,
        health: state.health,
        pid: state.recorder_pid,
        wrapper_pid: state.wrapper_pid,
        recorder_pid: state.recorder_pid,
        signal_pid: state.recorder_pid,
        recorder_command_line: text::clone_opt_text(&state.recorder_command_line),
        stderr_handling: state.stderr_handling.clone(),
        save_queue_len: state.save_queue_len,
        total_saves_requested: state.total_saves_requested,
        total_saves_completed: state.total_saves_completed,
        total_saves_failed: state.total_saves_failed,
        target,
        target_valid,
        monitors: text::clone_texts(&state.monitors),
        capture_strategy: capture_strategy_label(strategy).to_owned(),
        session_type,
        target_reason,
        command_line: or_clone(&state.command_line, planned_line),
        output_dir,
        output_prefix,
        last_output: text::clone_opt_text(&state.last_output),
        last_error: text::clone_opt_text(&state.last_error),
        restart_count: state.restart_count,
        replay_seconds: config.replay_seconds,
        fps: config.fps,
        quality: config.quality.as_arg().to_owned(),
        bitrate_mode: bitrate_mode_label(config.bitrate_mode).to_owned(),
        frame_rate_mode: config.frame_rate_mode.as_arg().to_owned(),
        keyframe_interval_seconds: config.keyframe_interval_seconds,
        restart_replay_on_save: config.restart_replay_on_save,
        video_bitrate_kbps: config.video_bitrate_kbps,
        effective_q_argument: effective_q_argument(config),
        codec: config.codec.as_arg().to_owned(),
        container: config.container.as_arg().to_owned(),
        encoder: config.encoder.as_arg().to_owned(),
    }
}

/// The process to which a request to save goes: the one that records, never the
/// one that was started in its stead.
pub fn signal_pid_from_state(state: &GpuScreenRecorderState) -> (r: Result<u32, String>)
    ensures
        match r {
            Ok(pid) => state.recorder_pid == Some(pid),
            Err(message) => state.recorder_pid is None && message@
                == "GPU Screen Recorder n'est pas lancé: recorder_pid indisponible"@,
        },
{
    match state.recorder_pid {
        Some(pid) => Ok(pid),
        None => Err("GPU Screen Recorder n'est pas lancé: recorder_pid indisponible".to_owned()),
    }
}

/// What is needed to save a replay.
#[derive(Debug)]
pub struct SavePlan {
    pub recorder_pid: u32,
    pub output_dir: String,
    pub extension: &'static str,
}

/// A saved replay.
#[derive(Debug)]
pub struct SavedGsrReplay {
    pub final_video_path: String,
    pub metadata_path: String,
    pub thumbnail_path: Option<String>,
    pub duration_seconds: u64,
    pub size_bytes: u64,
}

pub open spec fn not_running_text() -> Seq<char> {
    "GPU Screen Recorder n'est pas lancé; redémarrez le backend GPU Replay"@
}

pub open spec fn recorder_gone_text() -> Seq<char> {
    "GPU Screen Recorder recorder_pid n'est plus vivant"@
}

/// The state once it is known whether the processes run.
pub open spec fn running_checked(
    s: GsrStateView,
    child: Option<u32>,
    child_running: bool,
    recorder_alive: bool,
) -> GsrStateView {
    if !(child is Some && child_running) {
        GsrStateView {
            wrapper_pid: None,
            recorder_pid: None,
            health: GsrHealth::Error,
            last_error: Some(not_running_text()),
            ..s
        }
    } else if s.recorder_pid is Some && !recorder_alive {
        GsrStateView {
            wrapper_pid: child,
            recorder_pid: None,
            health: GsrHealth::Error,
            last_error: Some(recorder_gone_text()),
            ..s
        }
    } else {
        GsrStateView { wrapper_pid: child, ..s }
    }
}

impl GpuScreenRecorderHandle {
    pub fn status(&mut self, env: &GsrEnvironment) -> (r: GsrStatus)
        ensures
            final(self).config == old(self).config,
            final(self).child == old(self).child,
            final(self).state@ == refreshed(old(self).state@, old(self).config, *env),
            r.tells(final(self).state@, final(self).config, *env),
    {
        self.refresh_monitors_snapshot(env);
        status_from_inner(self, env)
    }

    fn ensure_running(&mut self, child_running: bool, recorder_alive: bool) -> (r: Result<
        (),
        String,
    >)
        ensures
            final(self).config == old(self).config,
            final(self).state@ == running_checked(
                old(self).state@,
                old(self).child,
                child_running,
                recorder_alive,
            ),
            final(self).child == (if child_running {
                old(self).child
            } else {
                None
            }),
            match r {
                Ok(_) => old(self).child is Some && child_running && (old(
                    self,
                ).state.recorder_pid is Some ==> recorder_alive),
                Err(message) => if old(self).child is Some && child_running {
                    old(self).state.recorder_pid is Some && !recorder_alive && message@
                        == recorder_gone_text()
                } else {
                    message@ == not_running_text()
                },
            },
    {
        if !(self.child.is_some() && child_running) {
            self.child = None;
            self.state.wrapper_pid = None;
            self.state.recorder_pid = None;
            self.state.health = GsrHealth::Error;
            let message: String =
                "GPU Screen Recorder n'est pas lancé; redémarrez le backend GPU Replay".to_owned();
            self.state.last_error = Some(message.clone());
            return Err(message);
        }
        self.state.wrapper_pid = self.child;
        if self.state.recorder_pid.is_some() && !recorder_alive {
            self.state.recorder_pid = None;
            self.state.health = GsrHealth::Error;
            let message: String = "GPU Screen Recorder recorder_pid n'est plus vivant".to_owned();
            self.state.last_error = Some(message.clone());
            return Err(message);
        }
        Ok(())
    }

    /// A replay is asked for: it is counted and waits its turn.
    pub fn save_requested(&mut self)
        ensures
            final(self).config == old(self).config,
            final(self).child == old(self).child,
            final(self).state@ == with_save_asked_for(old(self).state@),
    {
        self.state.total_saves_requested = more(self.state.total_saves_requested);
        if self.state.save_queue_len < usize::MAX {
            self.state.save_queue_len = self.state.save_queue_len + 1;
        }
    }

    /// A replay has its turn.
    pub fn save_dequeued(&mut self)
        ensures
            final(self).config == old(self).config,
            final(self).child == old(self).child,
            final(self).state@ == with_save_begun(old(self).state@),
    {
        if self.state.save_queue_len > 0 {
            self.state.save_queue_len = self.state.save_queue_len - 1;
        }
    }

    /// Begins to save a replay: the processes must run.
    pub fn save_replay(&mut self, child_running: bool, recorder_alive: bool) -> (r: Result<
        SavePlan,
        String,
    >)
        ensures
            final(self).config == old(self).config,
            match r {
                Ok(plan) => {
                    &&& old(self).child is Some && child_running && recorder_alive
                    &&& old(self).state.recorder_pid == Some(plan.recorder_pid)
                    &&& plan.output_dir@ == old(self).state@.output_dir
                    &&& plan.extension@ == old(self).config.container.arg()
                    &&& final(self).child == old(self).child
                    &&& final(self).state@ == (GsrStateView {
                        wrapper_pid: old(self).child,
                        health: GsrHealth::SavingReplay,
                        ..old(self).state@
                    })
                },
                Err(message) => {
                    &&& !(old(self).child is Some && child_running && recorder_alive && old(
                        self,
                    ).state.recorder_pid is Some)
                    &&& final(self).child == (if child_running {
                        old(self).child
                    } else {
                        None
                    })
                    &&& final(self).state@ == running_checked(
                        old(self).state@,
                        old(self).child,
                        child_running,
                        recorder_alive,
                    )
                    &&& message@ == (if !(old(self).child is Some && child_running) {
                        not_running_text()
                    } else if old(self).state.recorder_pid is Some {
                        recorder_gone_text()
                    } else {
                        "GPU Screen Recorder n'est pas lancé: recorder_pid indisponible"@
                    })
                },
            },
    {
        match self.ensure_running(child_running, recorder_alive) {
            Ok(_) => {},
            Err(message) => {
                return Err(message);
            },
        }
        let recorder_pid: u32 = match signal_pid_from_state(&self.state) {
            Ok(pid) => pid,
            Err(message) => {
                return Err(message);
            },
        };
        self.state.health = GsrHealth::SavingReplay;
        Ok(
            SavePlan {
                recorder_pid,
                output_dir: self.state.output_dir.clone(),
                extension: self.config.container.extension(),
            },
        )
    }

    /// A replay has been saved, or has not.
    pub fn save_finished(&mut self, saved: &Result<SavedGsrReplay, String>)
        ensures
            final(self).config == old(self).config,
            final(self).child == old(self).child,
            final(self).state@ == with_save_ended(old(self).state@, *saved),
    {
        match saved {
            Ok(replay) => {
                self.state.health = GsrHealth::Running;
                self.state.last_output = Some(replay.final_video_path.clone());
                self.state.last_error = None;
                self.state.total_saves_completed = more(self.state.total_saves_completed);
            },
            Err(message) => {
                self.state.health = GsrHealth::Error;
                self.state.last_error = Some(message.clone());
                self.state.total_saves_failed = more(self.state.total_saves_failed);
            },
        }
    }
}

/// What a written replay becomes: an error where the file is empty. Its length
/// is the measured one, or the configured one where it could not be measured.
pub fn finished_replay(
    video_path: String,
    size_bytes: u64,
    probed_seconds: Option<u64>,
    thumbnail_path: Option<String>,
    config: &CaptureConfig,
) -> (r: Result<SavedGsrReplay, String>)
    ensures
        match r {
            Ok(replay) => {
                &&& size_bytes > 0
                &&& replay.final_video_path@ == video_path@
                &&& replay.metadata_path@ == path::with_extension_of(video_path@, "json"@)
                &&& replay.thumbnail_path == thumbnail_path
                &&& replay.duration_seconds == (match probed_seconds {
                    Some(seconds) => seconds,
                    None => config.replay_seconds,
                })
                &&& replay.size_bytes == size_bytes
            },
            Err(message) => size_bytes == 0 && message@ == "clip GSR vide: "@ + video_path@,
        },
{
    if size_bytes == 0 {
        return Err(text::join2("clip GSR vide: ", video_path.as_str()));
    }
    let metadata_path = path::with_extension(video_path.as_str(), "json");
    let duration_seconds: u64 = match probed_seconds {
        Some(seconds) => seconds,
        None => config.replay_seconds,
    };
    Ok(
        SavedGsrReplay {
            final_video_path: video_path,
            metadata_path,
            thumbnail_path,
            duration_seconds,
            size_bytes,
        },
    )
}


/// A running process and the command that it was started with.
#[derive(Debug)]
pub struct GsrProcessInfo {
    pub pid: u32,
    pub args: Vec<String>,
    pub command_line: String,
}

/// The words of a command line as the kernel keeps it: ended by zero bytes, and
/// empty ones left out.
pub open spec fn cmdline_words(bytes: Seq<u8>) -> Seq<Seq<u8>>
    decreases bytes.len(),
    via cmdline_words_decreases
{
    if bytes.len() == 0 {
        seq![]
    } else {
        let k = first_zero(bytes);
        let rest = if k < bytes.len() {
            cmdline_words(bytes.subrange(k + 1, bytes.len() as int))
        } else {
            seq![]
        };
        if k == 0 {
            rest
        } else {
            seq![bytes.subrange(0, k)] + rest
        }
    }
}

#[via_fn]
proof fn cmdline_words_decreases(bytes: Seq<u8>) {
    lemma_first_zero(bytes);
}

/// The position of the first zero byte; the length where there is none.
pub open spec fn first_zero(bytes: Seq<u8>) -> int
    decreases bytes.len(),
{
    if bytes.len() == 0 || bytes[0] == 0 {
        0
    } else {
        1 + first_zero(bytes.drop_first())
    }
}

proof fn lemma_first_zero(bytes: Seq<u8>)
    ensures
        0 <= first_zero(bytes) <= bytes.len(),
    decreases bytes.len(),
{
    if bytes.len() == 0 || bytes[0] == 0 {
    } else {
        lemma_first_zero(bytes.drop_first());
    }
}

/// The words as text.
pub open spec fn words_as_text(words: Seq<Seq<u8>>) -> Seq<Seq<char>> {
    words.map_values(|w: Seq<u8>| text::text_in(w))
}

/// The arguments in a command line as the kernel keeps it.
pub fn args_from_cmdline(bytes: &[u8]) -> (r: Vec<String>)
    ensures
        text::texts(r@) == words_as_text(cmdline_words(bytes@)),
{
    let mut r: Vec<String> = Vec::new();
    let mut start: usize = 0;
    assert(bytes@.subrange(0, bytes@.len() as int) == bytes@);
    assert(text::texts(r@) + words_as_text(cmdline_words(bytes@)) =~= words_as_text(
        cmdline_words(bytes@),
    ));
    while start < bytes.len()
        invariant
            start <= bytes.len(),
            text::texts(r@) + words_as_text(
                cmdline_words(bytes@.subrange(start as int, bytes@.len() as int)),
            ) == words_as_text(cmdline_words(bytes@)),
        decreases bytes.len() - start,
    {
        let ghost rest = bytes@.subrange(start as int, bytes@.len() as int);
        let mut end: usize = start;
        assert(rest.subrange(0, rest.len() as int) == rest);
        while end < bytes.len() && bytes[end] != 0
            invariant
                start <= end <= bytes.len(),
                rest == bytes@.subrange(start as int, bytes@.len() as int),
                first_zero(rest) == end - start + first_zero(
                    rest.subrange(end - start, rest.len() as int),
                ),
            decreases bytes.len() - end,
        {
            assert(rest.subrange(end - start, rest.len() as int).drop_first() == rest.subrange(
                end + 1 - start,
                rest.len() as int,
            ));
            end = end + 1;
        }
        proof {
            let left = rest.subrange(end - start, rest.len() as int);
            if end < bytes@.len() {
                assert(left[0] == bytes@[end as int]);
            }
            assert(first_zero(left) == 0);
            assert(first_zero(rest) == end - start);
        }
        let ghost before = text::texts(r@);
        let ghost next = if end < bytes@.len() {
            bytes@.subrange(end + 1, bytes@.len() as int)
        } else {
            Seq::<u8>::empty()
        };
        proof {
            if end < bytes@.len() {
                assert(rest.subrange(end - start + 1, rest.len() as int) == next);
            }
            assert(rest.subrange(0, end - start) == bytes@.subrange(start as int, end as int));
        }
        if end > start {
            let word = text::from_utf8_lossy(
                vstd::slice::slice_subrange(bytes, start, end),
            );
            r.push(word);
            proof {
                let w = bytes@.subrange(start as int, end as int);
                assert(text::texts(r@) =~= before.push(text::text_in(w)));
                assert(words_as_text(seq![w] + cmdline_words(next)) =~= seq![
                    text::text_in(w),
                ] + words_as_text(cmdline_words(next)));
                assert(before.push(text::text_in(w)) + words_as_text(cmdline_words(next))
                    =~= before + (seq![text::text_in(w)] + words_as_text(cmdline_words(next))));
            }
        }
        if end < bytes.len() {
            start = end + 1;
        } else {
            assert(bytes@.subrange(bytes@.len() as int, bytes@.len() as int) =~= next);
            start = end;
        }
    }
    proof {
        let none = bytes@.subrange(start as int, bytes@.len() as int);
        assert(words_as_text(cmdline_words(none)) =~= Seq::<Seq<char>>::empty());
        assert(text::texts(r@) + words_as_text(cmdline_words(none)) =~= text::texts(r@));
    }
    r
}

/// A process, given the name of its directory under `/proc` and its command
/// line; none where the name is no number or the command line is empty.
pub fn process_from_proc(name: &str, cmdline: &[u8]) -> (r: Option<GsrProcessInfo>)
    ensures
        match r {
            Some(process) => {
                &&& text::parse_unsigned(name@, u32::MAX as nat) == Some(process.pid as nat)
                &&& text::texts(process.args@) == words_as_text(cmdline_words(cmdline@))
                &&& process.args@.len() > 0
                &&& process.command_line@ == text::joined(text::texts(process.args@), " "@)
            },
            None => text::parse_unsigned(name@, u32::MAX as nat) is None || cmdline_words(
                cmdline@,
            ).len() == 0,
        },
{
    match text::parse_u32(name) {
        Some(pid) => {
            let args = args_from_cmdline(cmdline);
            if args.len() == 0 {
                assert(text::texts(args@).len() == 0);
                None
            } else {
                let command_line = text::join(&args, " ");
                Some(GsrProcessInfo { pid, args, command_line })
            }
        },
        None => None,
    }
}

pub open spec fn ignored_names() -> Seq<Seq<char>> {
    seq![
        "bwrap"@,
        "flatpak"@,
        "flatpak-spawn"@,
        "gsr-kms-server"@,
        "kms-server-proxy"@,
        "gpu-screen-recorder-gtk"@,
        "gsr-game-tracker"@,
    ]
}

/// The file name of an argument is one of the programs around the recorder.
pub open spec fn names_ignored(arg: Seq<char>) -> bool {
    path::file_name_of(arg) matches Some(name) && ignored_names().contains(name)
}

/// The command is one of the programs around the recorder, not the recorder.
pub open spec fn ignored_command(args: Seq<Seq<char>>) -> bool {
    exists|i: int| 0 <= i < args.len() && names_ignored(#[trigger] args[i])
}

fn is_ignored_name(arg: &str) -> (r: bool)
    ensures
        r == names_ignored(arg@),
{
    let mut ignored: Vec<String> = Vec::new();
    ignored.push("bwrap".to_owned());
    ignored.push("flatpak".to_owned());
    ignored.push("flatpak-spawn".to_owned());
    ignored.push("gsr-kms-server".to_owned());
    ignored.push("kms-server-proxy".to_owned());
    ignored.push("gpu-screen-recorder-gtk".to_owned());
    ignored.push("gsr-game-tracker".to_owned());
    assert(text::texts(ignored@) =~= ignored_names());
    match path::file_name(arg) {
        Some(name) => text::holds_text(&ignored, name.as_str()),
        None => false,
    }
}

fn ignored_gsr_process(args: &Vec<String>) -> (r: bool)
    ensures
        r == ignored_command(text::texts(args@)),
{
    let ghost all = text::texts(args@);
    let mut i: usize = 0;
    while i < args.len()
        invariant
            i <= args.len(),
            all == text::texts(args@),
            forall|j: int| 0 <= j < i ==> !names_ignored(#[trigger] all[j]),
        decreases args.len() - i,
    {
        assert(all[i as int] == args@[i as int]@);
        if is_ignored_name(args[i].as_str()) {
            return true;
        }
        i = i + 1;
    }
    false
}

/// The program that a command runs is the recorder.
pub open spec fn runs_recorder(args: Seq<Seq<char>>) -> bool {
    args.len() > 0 && path::file_name_of(args[0]) == Some("gpu-screen-recorder"@)
}

fn runs_gsr(args: &Vec<String>) -> (r: bool)
    ensures
        r == runs_recorder(text::texts(args@)),
{
    if args.len() == 0 {
        return false;
    }
    assert(text::texts(args@)[0] == args@[0]@);
    match path::file_name(args[0].as_str()) {
        Some(name) => text::same(name.as_str(), "gpu-screen-recorder"),
        None => false,
    }
}

/// A process may be stopped as the recorder: it is the recorder itself.
pub open spec fn safe_to_stop(args: Seq<Seq<char>>) -> bool {
    !ignored_command(args) && runs_recorder(args)
}

pub fn is_safe_recorder_process(args: &Vec<String>) -> (r: bool)
    ensures
        r == safe_to_stop(text::texts(args@)),
{
    !ignored_gsr_process(args) && runs_gsr(args)
}

/// Somewhere `key` is followed by `expected`.
pub open spec fn has_pair(args: Seq<Seq<char>>, key: Seq<char>, expected: Seq<char>) -> bool {
    exists|i: int|
        0 <= i && i + 1 < args.len() && #[trigger] args[i] == key && args[i + 1] == expected
}

fn arg_pair_matches(args: &Vec<String>, key: &str, expected: &str) -> (r: bool)
    ensures
        r == has_pair(text::texts(args@), key@, expected@),
{
    let ghost all = text::texts(args@);
    if args.len() < 2 {
        return false;
    }
    let last: usize = args.len() - 1;
    let mut i: usize = 0;
    while i < last
        invariant
            i <= last,
            last + 1 == args.len(),
            all == text::texts(args@),
            forall|j: int|
                0 <= j < i && j + 1 < all.len() ==> !(#[trigger] all[j] == key@ && all[j + 1]
                    == expected@),
        decreases last - i,
    {
        assert(all[i as int] == args@[i as int]@);
        assert(all[i + 1] == args@[i + 1]@);
        if text::same(args[i].as_str(), key) && text::same(args[i + 1].as_str(), expected) {
            return true;
        }
        i = i + 1;
    }
    false
}

/// The process is the recorder, started for this target and these paths.
pub open spec fn is_our_recorder(
    args: Seq<Seq<char>>,
    target: Seq<char>,
    output_dir: Seq<char>,
    output_prefix: Seq<char>,
) -> bool {
    &&& !ignored_command(args)
    &&& runs_recorder(args)
    &&& has_pair(args, "-w"@, target)
    &&& has_pair(args, "-ro"@, output_dir)
    &&& has_pair(args, "-o"@, output_prefix)
}

fn process_matches_actual_gsr(
    process: &GsrProcessInfo,
    target: &str,
    output_dir: &str,
    output_prefix: &str,
) -> (r: bool)
    ensures
        r == is_our_recorder(
            text::texts(process.args@),
            target@,
            output_dir@,
            output_prefix@,
        ),
{
    !ignored_gsr_process(&process.args) && runs_gsr(&process.args) && arg_pair_matches(
        &process.args,
        "-w",
        target,
    ) && arg_pair_matches(&process.args, "-ro", output_dir) && arg_pair_matches(
        &process.args,
        "-o",
        output_prefix,
    )
}

/// The recorder among the processes: the one with the highest number where
/// there are several, and the last of those where numbers repeat.
pub open spec fn recorder_position(
    processes: Seq<GsrProcessInfo>,
    target: Seq<char>,
    output_dir: Seq<char>,
    output_prefix: Seq<char>,
    position: Option<int>,
) -> bool {
    match position {
        Some(i) => {
            &&& 0 <= i < processes.len()
            &&& is_our_recorder(
                text::texts(processes[i].args@),
                target,
                output_dir,
                output_prefix,
            )
            &&& forall|j: int|
                0 <= j < processes.len() && is_our_recorder(
                    text::texts((#[trigger] processes[j]).args@),
                    target,
                    output_dir,
                    output_prefix,
                ) ==> processes[j].pid < processes[i].pid || (processes[j].pid == processes[i].pid
                    && j <= i)
        },
        None => forall|j: int|
            0 <= j < processes.len() ==> !is_our_recorder(
                text::texts((#[trigger] processes[j]).args@),
                target,
                output_dir,
                output_prefix,
            ),
    }
}

/// The recorder among the processes.
pub fn select_actual_gsr_process<'a>(
    processes: &'a Vec<GsrProcessInfo>,
    output_dir: &str,
    output_prefix: &str,
    target: &str,
) -> (r: Option<&'a GsrProcessInfo>)
    ensures
        match r {
            Some(found) => exists|i: int|
                #[trigger] recorder_position(
                    processes@,
                    target@,
                    output_dir@,
                    output_prefix@,
                    Some(i),
                ) && *found == processes@[i],
            None => recorder_position(processes@, target@, output_dir@, output_prefix@, None),
        },
{
    let mut best: Option<usize> = None;
    let mut i: usize = 0;
    while i < processes.len()
        invariant
            i <= processes.len(),
            match best {
                Some(b) => b < i && is_our_recorder(
                    text::texts(processes@[b as int].args@),
                    target@,
                    output_dir@,
                    output_prefix@,
                ) && (forall|j: int|
                    0 <= j < i && is_our_recorder(
                        text::texts((#[trigger] processes@[j]).args@),
                        target@,
                        output_dir@,
                        output_prefix@,
                    ) ==> processes@[j].pid < processes@[b as int].pid || (processes@[j].pid
                        == processes@[b as int].pid && j <= b)),
                None => forall|j: int|
                    0 <= j < i ==> !is_our_recorder(
                        text::texts((#[trigger] processes@[j]).args@),
                        target@,
                        output_dir@,
                        output_prefix@,
                    ),
            },
        decreases processes.len() - i,
    {
        if process_matches_actual_gsr(&processes[i], target, output_dir, output_prefix) {
            let take: bool = match best {
                Some(b) => processes[i].pid >= processes[b].pid,
                None => true,
            };
            if take {
                best = Some(i);
            }
        }
        i = i + 1;
    }
    match best {
        Some(b) => {
            assert(recorder_position(
                processes@,
                target@,
                output_dir@,
                output_prefix@,
                Some(b as int),
            ));
            Some(&processes[b])
        },
        None => None,
    }
}

/// The error where the recorder's process is not found in time.
pub open spec fn not_found_text(
    target: Seq<char>,
    output_dir: Seq<char>,
    output_prefix: Seq<char>,
) -> Seq<char> {
    "impossible de résoudre le vrai PID gpu-screen-recorder pour target="@ + target + " -ro "@
        + output_dir + " -o "@ + output_prefix
}

pub fn pid_not_found_message(target: &str, output_dir: &str, output_prefix: &str) -> (r: String)
    ensures
        r@ == not_found_text(target@, output_dir@, output_prefix@),
{
    let mut r: String =
        "impossible de résoudre le vrai PID gpu-screen-recorder pour target=".to_owned();
    r.append(target);
    r.append(" -ro ");
    r.append(output_dir);
    r.append(" -o ");
    r.append(output_prefix);
    r
}

/// One look for the process that records, behind the one that was started.
#[derive(Debug)]
pub enum PidSearch {
    Found { pid: u32, command_line: String },
    /// Look again after a pause.
    Wait,
    TimedOut(String),
}

/// Looks for the process that records, `waited` after the start: it has some
/// seconds to appear.
pub fn resolve_actual_gsr_pid(
    processes: &Vec<GsrProcessInfo>,
    output_dir: &str,
    output_prefix: &str,
    target: &str,
    waited: Duration,
) -> (r: PidSearch)
    ensures
        match r {
            PidSearch::Found { pid, command_line } => exists|i: int|
                #[trigger] recorder_position(
                    processes@,
                    target@,
                    output_dir@,
                    output_prefix@,
                    Some(i),
                ) && pid == processes@[i].pid && command_line@ == processes@[i].command_line@,
            PidSearch::Wait => recorder_position(
                processes@,
                target@,
                output_dir@,
                output_prefix@,
                None,
            ) && waited.nanos < PID_SEARCH_SECONDS * NANOS_PER_SEC,
            PidSearch::TimedOut(message) => recorder_position(
                processes@,
                target@,
                output_dir@,
                output_prefix@,
                None,
            ) && waited.nanos >= PID_SEARCH_SECONDS * NANOS_PER_SEC && message@ == not_found_text(
                target@,
                output_dir@,
                output_prefix@,
            ),
        },
{
    match select_actual_gsr_process(processes, output_dir, output_prefix, target) {
        Some(process) => PidSearch::Found {
            pid: process.pid,
            command_line: process.command_line.clone(),
        },
        None => if waited.nanos < Duration::from_secs(PID_SEARCH_SECONDS).nanos {
            PidSearch::Wait
        } else {
            PidSearch::TimedOut(pid_not_found_message(target, output_dir, output_prefix))
        },
    }
}

/// How long the process that records has to appear.
pub const PID_SEARCH_SECONDS: u64 = 5;

/// How long a process has to end by itself.
pub const STOP_SECONDS: u64 = 3;

/// How long a new replay has to appear, and to be written.
pub const REPLAY_SAVE_SECONDS: u64 = 30;

/// How long a replay must not have grown to be complete.
pub const STABLE_FILE_MILLIS: u64 = 750;

/// How long to wait before the next look at a replay that may still grow.
pub const STABLE_FILE_POLL_MILLIS: u64 = 250;

/// What to do about the recorder's process on the way to stopping it.
#[derive(Clone, Copy, Debug, PartialEq, Eq, Structural)]
pub enum StopAction {
    /// It is gone, or there is none.
    Done,
    /// It is not the recorder: leave it alone.
    Refuse,
    /// Ask this process to end.
    Terminate(u32),
    /// Look again after a pause.
    Wait,
    /// End this process.
    Kill(u32),
}

/// The first step to stop the process that records.
pub fn stop_recorder_pid(recorder_pid: Option<u32>, alive: bool, safe: bool) -> (r: StopAction)
    ensures
        r == (match recorder_pid {
            Some(pid) => if !alive {
                StopAction::Done
            } else if !safe {
                StopAction::Refuse
            } else {
                StopAction::Terminate(pid)
            },
            None => StopAction::Done,
        }),
{
    match recorder_pid {
        Some(pid) => if !alive {
            StopAction::Done
        } else if !safe {
            StopAction::Refuse
        } else {
            StopAction::Terminate(pid)
        },
        None => StopAction::Done,
    }
}

/// A further step once a process was asked to end.
pub fn stop_step(pid: u32, alive: bool, timed_out: bool) -> (r: StopAction)
    ensures
        r == (if !alive {
            StopAction::Done
        } else if !timed_out {
            StopAction::Wait
        } else {
            StopAction::Kill(pid)
        }),
{
    if !alive {
        StopAction::Done
    } else if !timed_out {
        StopAction::Wait
    } else {
        StopAction::Kill(pid)
    }
}

/// A file below the directory for replays.
#[derive(Debug)]
pub struct OutputFile {
    pub path: String,
    pub is_file: bool,
    pub len: u64,
    pub modified: Option<SystemTime>,
}

pub open spec fn written_at(file: OutputFile) -> int {
    match file.modified {
        Some(t) => t.nanos as int,
        None => 0,
    }
}

/// The file ends in the extension, whatever the case of its letters.
pub open spec fn has_extension(p: Seq<char>, extension: Seq<char>) -> bool {
    path::extension_of(p) matches Some(ext) && text::ascii_lowered(ext) == text::ascii_lowered(
        text::trim_start_char_of(extension, '.'),
    )
}

pub open spec fn is_replay(file: OutputFile, extension: Seq<char>) -> bool {
    file.is_file && has_extension(file.path@, extension)
}

fn is_replay_file(file: &OutputFile, extension: &str) -> (r: bool)
    ensures
        r == is_replay(*file, extension@),
{
    let wanted = text::to_ascii_lowercase(text::trim_start_char(extension, '.'));
    file.is_file && match path::extension(file.path.as_str()) {
        Some(ext) => text::same(
            text::to_ascii_lowercase(ext.as_str()).as_str(),
            wanted.as_str(),
        ),
        None => false,
    }
}

/// The positions of the replays among the files, the ones written earlier
/// first, those written at once in the order of the listing.
pub open spec fn replay_positions(files: Seq<OutputFile>, extension: Seq<char>) -> Seq<int>
    decreases files.len(),
{
    if files.len() == 0 {
        seq![]
    } else {
        let before = replay_positions(files.drop_last(), extension);
        if is_replay(files.last(), extension) {
            let at = slot_for(before, files, written_at(files.last()));
            before.insert(at, files.len() - 1)
        } else {
            before
        }
    }
}

/// Where a file written at `written` goes in a list ordered by time.
pub open spec fn slot_for(positions: Seq<int>, files: Seq<OutputFile>, written: int) -> int
    decreases positions.len(),
{
    if positions.len() == 0 || written_at(files[positions.last()]) <= written {
        positions.len() as int
    } else {
        slot_for(positions.drop_last(), files, written)
    }
}

pub open spec fn as_ints(v: Seq<usize>) -> Seq<int> {
    v.map_values(|k: usize| k as int)
}

proof fn lemma_replay_positions(files: Seq<OutputFile>, extension: Seq<char>)
    ensures
        forall|k: int|
            0 <= k < replay_positions(files, extension).len() ==> 0 <= (
            #[trigger] replay_positions(files, extension)[k]) < files.len() && is_replay(
                files[replay_positions(files, extension)[k]],
                extension,
            ),
    decreases files.len(),
{
    if files.len() > 0 {
        let t = files.drop_last();
        lemma_replay_positions(t, extension);
        let before = replay_positions(t, extension);
        let at = slot_for(before, files, written_at(files.last()));
        lemma_slot_for(before, files, written_at(files.last()));
        let all = replay_positions(files, extension);
        assert forall|k: int| 0 <= k < all.len() implies 0 <= (#[trigger] all[k]) < files.len()
            && is_replay(files[all[k]], extension) by {
            if is_replay(files.last(), extension) {
                if k < at {
                    assert(all[k] == before[k]);
                    assert(t[before[k]] == files[before[k]]);
                } else if k > at {
                    assert(all[k] == before[k - 1]);
                    assert(t[before[k - 1]] == files[before[k - 1]]);
                }
            } else {
                assert(all[k] == before[k]);
                assert(t[before[k]] == files[before[k]]);
            }
        }
    }
}

proof fn lemma_slot_for(positions: Seq<int>, files: Seq<OutputFile>, written: int)
    ensures
        0 <= slot_for(positions, files, written) <= positions.len(),
    decreases positions.len(),
{
    if positions.len() == 0 || written_at(files[positions.last()]) <= written {
    } else {
        lemma_slot_for(positions.drop_last(), files, written);
    }
}

fn file_time(file: &OutputFile) -> (r: i128)
    ensures
        r == written_at(*file),
{
    match file.modified {
        Some(t) => t.nanos,
        None => 0,
    }
}

proof fn lemma_slot_for_same(positions: Seq<int>, a: Seq<OutputFile>, b: Seq<OutputFile>, written: int)
    requires
        forall|k: int|
            0 <= k < positions.len() ==> a[#[trigger] positions[k]] == b[positions[k]],
    ensures
        slot_for(positions, a, written) == slot_for(positions, b, written),
    decreases positions.len(),
{
    if positions.len() > 0 {
        assert(a[positions[positions.len() - 1]] == b[positions[positions.len() - 1]]);
        assert forall|k: int| 0 <= k < positions.drop_last().len() implies a[
        #[trigger] positions.drop_last()[k]] == b[positions.drop_last()[k]] by {
            assert(positions.drop_last()[k] == positions[k]);
        }
        lemma_slot_for_same(positions.drop_last(), a, b, written);
    }
}

/// The replays among the files, oldest first, as positions in the listing.
pub fn scan_replay_outputs(files: &Vec<OutputFile>, extension: &str) -> (r: Vec<usize>)
    ensures
        as_ints(r@) == replay_positions(files@, extension@),
        forall|k: int|
            0 <= k < r@.len() ==> (#[trigger] r@[k]) < files@.len() && is_replay(
                files@[r@[k] as int],
                extension@,
            ),
{
    let mut r: Vec<usize> = Vec::new();
    let mut i: usize = 0;
    assert(as_ints(r@) =~= replay_positions(files@.subrange(0, 0), extension@));
    while i < files.len()
        invariant
            i <= files.len(),
            as_ints(r@) == replay_positions(files@.subrange(0, i as int), extension@),
            forall|k: int| 0 <= k < r@.len() ==> (#[trigger] r@[k]) < i,
        decreases files.len() - i,
    {
        let ghost next = files@.subrange(0, i + 1);
        assert(next.drop_last() == files@.subrange(0, i as int));
        assert(next.last() == files@[i as int]);
        let ghost before = as_ints(r@);
        if is_replay_file(&files[i], extension) {
            let written: i128 = file_time(&files[i]);
            let mut at: usize = r.len();
            assert(before.subrange(0, before.len() as int) == before);
            while at > 0 && file_time(&files[r[at - 1]]) > written
                invariant
                    i < files.len(),
                    at <= r.len(),
                    before == as_ints(r@),
                    written == written_at(files@[i as int]),
                    forall|k: int| 0 <= k < r@.len() ==> (#[trigger] r@[k]) < i,
                    slot_for(before, files@, written as int) == slot_for(
                        before.subrange(0, at as int),
                        files@,
                        written as int,
                    ),
                decreases at,
            {
                let ghost head = before.subrange(0, at as int);
                assert(head.last() == r@[at - 1] as int);
                assert(head.drop_last() == before.subrange(0, at - 1));
                at = at - 1;
            }
            proof {
                if at > 0 {
                    assert(before.subrange(0, at as int).last() == r@[at - 1] as int);
                }
                assert(at == slot_for(before, files@, written as int));
                assert forall|k: int| 0 <= k < before.len() implies files@[
                #[trigger] before[k]] == next[before[k]] by {
                    assert(before[k] == r@[k] as int);
                }
                lemma_slot_for_same(before, files@, next, written as int);
            }
            r.insert(at, i);
            assert(as_ints(r@) =~= before.insert(at as int, i as int));
            assert forall|k: int| 0 <= k < r@.len() implies (#[trigger] r@[k]) < i + 1 by {
                if k < at {
                    assert(r@[k] as int == before[k]);
                } else if k > at {
                    assert(r@[k] as int == before[k - 1]);
                }
            }
        }
        i = i + 1;
    }
    assert(files@.subrange(0, files@.len() as int) == files@);
    proof {
        lemma_replay_positions(files@, extension@);
        assert forall|k: int| 0 <= k < r@.len() implies (#[trigger] r@[k]) < files@.len()
            && is_replay(files@[r@[k] as int], extension@) by {
            assert(as_ints(r@)[k] == r@[k] as int);
        }
    }
    r
}

/// What one look for a new replay gave.
#[derive(Debug)]
pub enum NewReplay {
    /// The newest new replay.
    Found(String),
    /// None yet: look again after a pause.
    Wait,
    /// None in the time allowed.
    TimedOut(String),
}

/// A replay that was not there before and holds something.
pub open spec fn is_new_replay(file: OutputFile, before: Seq<Seq<char>>) -> bool {
    !before.contains(file.path@) && file.len > 0
}

/// The last of the positions whose file is new.
pub open spec fn newest_new(
    positions: Seq<int>,
    files: Seq<OutputFile>,
    before: Seq<Seq<char>>,
) -> Option<int>
    decreases positions.len(),
{
    if positions.len() == 0 {
        None
    } else if is_new_replay(files[positions.last()], before) {
        Some(positions.last())
    } else {
        newest_new(positions.drop_last(), files, before)
    }
}

/// One look for a replay that was not there before.
pub fn wait_for_new_replay_output(
    files: &Vec<OutputFile>,
    extension: &str,
    before: &Vec<String>,
    timed_out: bool,
    timeout_seconds: u64,
) -> (r: NewReplay)
    ensures
        match newest_new(
            replay_positions(files@, extension@),
            files@,
            text::texts(before@),
        ) {
            Some(k) => r matches NewReplay::Found(p) && p@ == files@[k].path@,
            None => if timed_out {
                r matches NewReplay::TimedOut(message) && message@
                    == "GPU Screen Recorder n'a produit aucun nouveau fichier "@ + extension@
                    + " dans "@ + text::decimal(timeout_seconds as nat) + "s"@
            } else {
                r is Wait
            },
        },
{
    let positions = scan_replay_outputs(files, extension);
    let ghost all = as_ints(positions@);
    let ghost known = text::texts(before@);
    let mut k: usize = positions.len();
    assert(all.subrange(0, all.len() as int) == all);
    while k > 0
        invariant
            k <= positions.len(),
            all == as_ints(positions@),
            known == text::texts(before@),
            all == replay_positions(files@, extension@),
            forall|j: int| 0 <= j < positions@.len() ==> (#[trigger] positions@[j]) < files@.len(),
            newest_new(all, files@, known) == newest_new(
                all.subrange(0, k as int),
                files@,
                known,
            ),
        decreases k,
    {
        let ghost head = all.subrange(0, k as int);
        assert(head.last() == positions@[k - 1] as int);
        assert(head.drop_last() == all.subrange(0, k - 1));
        let file = &files[positions[k - 1]];
        if !text::holds_text(before, file.path.as_str()) && file.len > 0 {
            return NewReplay::Found(file.path.clone());
        }
        k = k - 1;
    }
    if timed_out {
        let mut message: String =
            "GPU Screen Recorder n'a produit aucun nouveau fichier ".to_owned();
        message.append(extension);
        message.append(" dans ");
        message.append(text::decimal_text(timeout_seconds as u128).as_str());
        message.append("s");
        NewReplay::TimedOut(message)
    } else {
        NewReplay::Wait
    }
}

/// A replay that was there before is never taken for the new one.
pub proof fn lemma_new_replay_is_new(
    files: Seq<OutputFile>,
    extension: Seq<char>,
    before: Seq<Seq<char>>,
    k: int,
)
    requires
        newest_new(replay_positions(files, extension), files, before) == Some(k),
    ensures
        0 <= k < files.len(),
        is_new_replay(files[k], before),
        is_replay(files[k], extension),
{
    lemma_replay_positions(files, extension);
    lemma_newest_new(replay_positions(files, extension), files, before);
}

proof fn lemma_newest_new(positions: Seq<int>, files: Seq<OutputFile>, before: Seq<Seq<char>>)
    ensures
        newest_new(positions, files, before) matches Some(k) ==> is_new_replay(files[k], before)
            && positions.contains(k),
    decreases positions.len(),
{
    if positions.len() > 0 {
        if is_new_replay(files[positions.last()], before) {
            assert(positions[positions.len() - 1] == positions.last());
        } else {
            lemma_newest_new(positions.drop_last(), files, before);
            if let Some(k) = newest_new(positions.drop_last(), files, before) {
                let m = choose|m: int|
                    0 <= m < positions.drop_last().len() && positions.drop_last()[m] == k;
                assert(positions[m] == k);
            }
        }
    }
}

/// How long a written file has kept its size.
#[derive(Clone, Copy, Debug, PartialEq, Eq, Structural)]
pub struct FileRest {
    pub last_size: Option<u64>,
    pub stable_since: Instant,
}

/// What follows from one look at a written file.
#[derive(Debug)]
pub enum FileRestStep {
    Stable,
    Wait,
    TimedOut(String),
}

impl FileRest {
    pub fn new(now: Instant) -> (r: FileRest)
        ensures
            r.last_size is None,
            r.stable_since == now,
    {
        FileRest { last_size: None, stable_since: now }
    }

    /// The file holds something and has the size of the last look.
    pub open spec fn unchanged(self, size: u64) -> bool {
        size > 0 && self.last_size == Some(size)
    }
}

/// One look at a written file: it is finished once its size has not changed for
/// long enough.
pub fn wait_until_file_stable(
    rest: &mut FileRest,
    file_path: &str,
    size: u64,
    now: Instant,
    stable_duration: Duration,
    timed_out: bool,
    timeout_seconds: u64,
) -> (r: FileRestStep)
    ensures
        *final(rest) == (if old(rest).unchanged(size) {
            *old(rest)
        } else {
            FileRest { last_size: Some(size), stable_since: now }
        }),
        if old(rest).unchanged(size) && now.since(old(rest).stable_since) >= stable_duration.nanos {
            r is Stable
        } else if timed_out {
            r matches FileRestStep::TimedOut(message) && message@ == "fichier GSR instable après "@
                + text::decimal(timeout_seconds as nat) + "s: "@ + file_path@
        } else {
            r is Wait
        },
{
    if size > 0 && rest.last_size == Some(size) {
        if now.duration_since(rest.stable_since).nanos >= stable_duration.nanos {
            return FileRestStep::Stable;
        }
    } else {
        rest.last_size = Some(size);
        rest.stable_since = now;
    }
    if timed_out {
        let mut message: String = "fichier GSR instable après ".to_owned();
        message.append(text::decimal_text(timeout_seconds as u128).as_str());
        message.append("s: ");
        message.append(file_path);
        FileRestStep::TimedOut(message)
    } else {
        FileRestStep::Wait
    }
}


pub open spec fn clip_type(reason: ClipReason) -> Seq<char> {
    match reason {
        ClipReason::TargetDestroyed => "kill"@,
        ClipReason::BaseDestroyed => "base"@,
        ClipReason::PlayerDestroyed => "death"@,
        ClipReason::MultiKill => "multi"@,
        ClipReason::Manual => "manual"@,
        ClipReason::Unknown => "clip"@,
    }
}

pub fn clip_type_for_reason(reason: ClipReason) -> (r: &'static str)
    ensures
        r@ == clip_type(reason),
{
    match reason {
        ClipReason::TargetDestroyed => "kill",
        ClipReason::BaseDestroyed => "base",
        ClipReason::PlayerDestroyed => "death",
        ClipReason::MultiKill => "multi",
        ClipReason::Manual => "manual",
        ClipReason::Unknown => "clip",
    }
}

/// The event's line, where it has one.
pub open spec fn event_text(event: GameEvent) -> Option<Seq<char>> {
    if event.summary@.len() == 0 {
        None
    } else {
        Some(event.summary@)
    }
}

fn raw_event_text(event: &GameEvent) -> (r: Option<String>)
    ensures
        text::opt_text(r) == event_text(*event),
{
    if event.summary.as_str().is_empty() {
        None
    } else {
        Some(event.summary.clone())
    }
}

pub open spec fn stem_prefix(reason: ClipReason) -> Seq<char> {
    match reason {
        ClipReason::TargetDestroyed => "kill"@,
        ClipReason::BaseDestroyed => "base"@,
        ClipReason::PlayerDestroyed => "death"@,
        ClipReason::MultiKill => "multi-kill"@,
        ClipReason::Manual => "manual"@,
        ClipReason::Unknown => "clip"@,
    }
}

/// A name for a clip: why it was made, and what happened in it.
pub open spec fn clip_stem(context: ClipContext) -> Seq<char> {
    let said = match context.event {
        Some(event) => event_text(event),
        None => None,
    };
    stem_prefix(context.reason) + "-"@ + (match said {
        Some(line) => output::slug_of(output::lowercase_each(line)),
        None => "replay"@,
    })
}

pub fn suggested_clip_stem(context: &ClipContext) -> (r: String)
    ensures
        r@ == clip_stem(*context),
{
    let mut r: String = match context.reason {
        ClipReason::TargetDestroyed => "kill".to_owned(),
        ClipReason::BaseDestroyed => "base".to_owned(),
        ClipReason::PlayerDestroyed => "death".to_owned(),
        ClipReason::MultiKill => "multi-kill".to_owned(),
        ClipReason::Manual => "manual".to_owned(),
        ClipReason::Unknown => "clip".to_owned(),
    };
    r.append("-");
    let said: Option<String> = match &context.event {
        Some(event) => raw_event_text(event),
        None => None,
    };
    match said {
        Some(line) => {
            r.append(output::slugify_filename_part(line.as_str()).as_str());
        },
        None => {
            r.append("replay");
        },
    }
    r
}

/// An event as it stands beside a clip.
#[derive(Debug)]
pub struct MetadataEvent {
    pub kind: &'static str,
    pub actor: Option<String>,
    pub subject: Option<String>,
    pub context: Option<String>,
    pub summary: String,
}

pub open spec fn kind_label(kind: GameEventKind) -> Seq<char> {
    match kind {
        GameEventKind::Kill => "kill"@,
        GameEventKind::Death => "death"@,
        GameEventKind::Objective => "objective"@,
        GameEventKind::MultiKill => "multikill"@,
        GameEventKind::Other => "other"@,
    }
}

pub open spec fn describes_event(m: MetadataEvent, event: GameEvent) -> bool {
    &&& m.kind@ == kind_label(event.kind)
    &&& m.actor == event.actor
    &&& m.subject == event.subject
    &&& m.context == event.context
    &&& m.summary == event.summary
}

pub fn metadata_event(event: &GameEvent) -> (r: MetadataEvent)
    ensures
        describes_event(r, *event),
{
    let kind: &'static str = match event.kind {
        GameEventKind::Kill => "kill",
        GameEventKind::Death => "death",
        GameEventKind::Objective => "objective",
        GameEventKind::MultiKill => "multikill",
        GameEventKind::Other => "other",
    };
    MetadataEvent {
        kind,
        actor: text::clone_opt_text(&event.actor),
        subject: text::clone_opt_text(&event.subject),
        context: text::clone_opt_text(&event.context),
        summary: event.summary.clone(),
    }
}

/// What is written beside a clip.
#[derive(Debug)]
pub struct GsrClipMetadata {
    pub id: String,
    pub created_by: &'static str,
    pub capture_backend: &'static str,
    pub kind: &'static str,
    pub reason: &'static str,
    pub clip_type: &'static str,
    pub title: String,
    pub game: &'static str,
    pub player_name: Option<String>,
    pub raw_event: Option<String>,
    pub path: String,
    pub source_path: String,
    pub video_path: String,
    pub thumbnail_path: Option<String>,
    pub duration_seconds: u64,
    pub codec: &'static str,
    pub container: &'static str,
    pub fps: u32,
    pub created_at: String,
    pub event: Option<MetadataEvent>,
    pub events: Option<Vec<MetadataEvent>>,
    pub kill_count: Option<usize>,
    pub quality: &'static str,
    pub target: String,
}

/// The event that a clip is named after: its own, else the first of its events.
pub open spec fn primary_event(context: ClipContext) -> Option<GameEvent> {
    match context.event {
        Some(event) => Some(event),
        None => if context.events@.len() > 0 {
            Some(context.events@[0])
        } else {
            None
        },
    }
}

impl GsrClipMetadata {
    pub open spec fn describes(
        self,
        video_path: Seq<char>,
        thumbnail_path: Option<String>,
        context: ClipContext,
        config: CaptureConfig,
        duration_seconds: u64,
        created_at: Seq<char>,
    ) -> bool {
        &&& self.id@ == (match context.pending_clip_id {
            Some(id) => id@,
            None => match path::file_stem_of(video_path) {
                Some(stem) => stem,
                None => "clip"@,
            },
        })
        &&& self.created_by@ == "wt-clipper"@
        &&& self.capture_backend@ == "gpu_screen_recorder"@
        &&& self.kind@ == "clip"@
        &&& self.reason@ == context.reason.slug_text()
        &&& self.clip_type@ == clip_type(context.reason)
        &&& self.title@ == clip_stem(context)
        &&& self.game@ == "War Thunder"@
        &&& self.player_name == context.player_name
        &&& text::opt_text(self.raw_event) == (match primary_event(context) {
            Some(event) => event_text(event),
            None => None,
        })
        &&& self.path@ == video_path
        &&& self.source_path@ == video_path
        &&& self.video_path@ == video_path
        &&& self.thumbnail_path == thumbnail_path
        &&& self.duration_seconds == duration_seconds
        &&& self.codec@ == config.codec.arg()
        &&& self.container@ == config.container.arg()
        &&& self.fps == config.fps
        &&& self.created_at@ == created_at
        &&& match (self.event, primary_event(context)) {
            (Some(m), Some(event)) => describes_event(m, event),
            (None, None) => true,
            _ => false,
        }
        &&& match self.events {
            Some(list) => context.events@.len() > 0 && list@.len() == context.events@.len()
                && forall|i: int|
                0 <= i < list@.len() ==> describes_event(#[trigger] list@[i], context.events@[i]),
            None => context.events@.len() == 0,
        }
        &&& self.kill_count == (if context.reason is MultiKill {
            Some(context.events.len())
        } else {
            None
        })
        &&& self.quality@ == config.quality.arg()
        &&& self.target == config.target
    }
}

/// What to write beside a clip.
pub fn gsr_metadata(
    video_path: &str,
    thumbnail_path: &Option<String>,
    context: &ClipContext,
    config: &CaptureConfig,
    duration_seconds: u64,
    created_at: &str,
) -> (r: GsrClipMetadata)
    ensures
        r.describes(
            video_path@,
            *thumbnail_path,
            *context,
            *config,
            duration_seconds,
            created_at@,
        ),
{
    let primary: Option<&GameEvent> = match &context.event {
        Some(event) => Some(event),
        None => if context.events.len() > 0 {
            Some(&context.events[0])
        } else {
            None
        },
    };
    let raw_event: Option<String> = match primary {
        Some(event) => raw_event_text(event),
        None => None,
    };
    let event: Option<MetadataEvent> = match primary {
        Some(event) => Some(metadata_event(event)),
        None => None,
    };
    let mut list: Vec<MetadataEvent> = Vec::new();
    let mut i: usize = 0;
    while i < context.events.len()
        invariant
            i <= context.events.len(),
            list@.len() == i,
            forall|j: int|
                0 <= j < i ==> describes_event(#[trigger] list@[j], context.events@[j]),
        decreases context.events.len() - i,
    {
        list.push(metadata_event(&context.events[i]));
        i = i + 1;
    }
    let events: Option<Vec<MetadataEvent>> = if list.len() > 0 {
        Some(list)
    } else {
        None
    };
    let id: String = match &context.pending_clip_id {
        Some(id) => id.clone(),
        None => match path::file_stem(video_path) {
            Some(stem) => stem,
            None => "clip".to_owned(),
        },
    };
    let kill_count: Option<usize> = if context.reason == ClipReason::MultiKill {
        Some(context.events.len())
    } else {
        None
    };
    GsrClipMetadata {
        id,
        created_by: "wt-clipper",
        capture_backend: "gpu_screen_recorder",
        kind: "clip",
        reason: context.reason.slug(),
        clip_type: clip_type_for_reason(context.reason),
        title: suggested_clip_stem(context),
        game: "War Thunder",
        player_name: text::clone_opt_text(&context.player_name),
        raw_event,
        path: video_path.to_owned(),
        source_path: video_path.to_owned(),
        video_path: video_path.to_owned(),
        thumbnail_path: text::clone_opt_text(thumbnail_path),
        duration_seconds,
        codec: config.codec.as_arg(),
        container: config.container.as_arg(),
        fps: config.fps,
        created_at: created_at.to_owned(),
        event,
        events,
        kill_count,
        quality: config.quality.as_arg(),
        target: config.target.clone(),
    }
}

/// What to write beside a clip that was made now.
pub fn write_gsr_metadata(
    video_path: &str,
    thumbnail_path: &Option<String>,
    context: &ClipContext,
    config: &CaptureConfig,
    duration_seconds: u64,
) -> (r: GsrClipMetadata)
    ensures
        r.describes(
            video_path@,
            *thumbnail_path,
            *context,
            *config,
            duration_seconds,
            r.created_at@,
        ),
        stamp::is_utc_time(r.created_at@),
{
    let created_at = stamp::utc_time();
    gsr_metadata(
        video_path,
        thumbnail_path,
        context,
        config,
        duration_seconds,
        created_at.as_str(),
    )
}

/// The picture of a clip, where FFmpeg succeeded and left a file that is not
/// empty.
pub fn generate_thumbnail(video_path: &str, succeeded: bool, found: Option<FoundFile>) -> (r:
    Option<String>)
    ensures
        text::opt_text(r) == (if succeeded && (found matches Some(file) && file.is_file && file.len
            > 0) {
            Some(path::with_extension_of(video_path@, "jpg"@))
        } else {
            None
        }),
{
    let filled: bool = match found {
        Some(file) => file.is_file && file.len > 0,
        None => false,
    };
    if succeeded && filled {
        Some(path::with_extension(video_path, "jpg"))
    } else {
        None
    }
}

/// What the environment calls the session, or its displays suggest.
pub open spec fn is_session(env: GsrEnvironment, kind: Seq<char>) -> bool {
    let named = match env.xdg_session_type {
        Some(value) => text::ascii_lowered(text::trim_of(value@)),
        None => Seq::empty(),
    };
    if named.len() > 0 {
        named == kind
    } else if env.has_wayland_display {
        kind == "wayland"@
    } else if env.has_display {
        kind == "x11"@
    } else {
        kind == "unknown"@
    }
}

/// The name of a monitor that the recorder lists.
pub open spec fn is_listed_monitor(env: GsrEnvironment, name: Seq<char>) -> bool {
    env.listed_monitors matches Some(listed) && text::texts(listed@).contains(name) && name
        != "portal"@ && name != "focused"@
}

/// The recorder is pointed where the strategy says: at the game's window on X11,
/// at the portal on Wayland, at what has the focus, or at the monitor that is set.
/// A monitor that is not there is never recorded where a listed one is.
pub proof fn lemma_target_follows_the_strategy(config: CaptureConfig, env: GsrEnvironment)
    ensures
        ({
            let target = resolved_target(config, env).target;
            let wanted = text::trim_of(config.target@);
            let x11 = is_session(env, "x11"@);
            let wayland = is_session(env, "wayland"@);
            let by_monitor = match config.capture_strategy {
                CaptureStrategy::Monitor => true,
                CaptureStrategy::Focused => false,
                CaptureStrategy::Portal => x11,
                CaptureStrategy::Auto => (x11 && env.war_thunder_window is None) || (!x11
                    && !wayland),
            };
            &&& config.capture_strategy is Focused ==> target == "focused"@
            &&& config.capture_strategy is Portal && !x11 ==> target == "portal"@
            &&& config.capture_strategy is Auto && wayland ==> target == "portal"@
            &&& config.capture_strategy is Auto && x11 ==> (env.war_thunder_window matches Some(
                window,
            ) ==> target == window@)
            &&& by_monitor && (wanted == "portal"@ || wanted == "focused"@ || is_listed_monitor(
                env,
                wanted,
            )) && wanted.len() > 0 ==> target == wanted
            &&& by_monitor && wanted.len() > 0 && !window_id(wanted) && wanted != "portal"@
                && wanted != "focused"@ && !is_listed_monitor(env, wanted) && (exists|m: Seq<
                char,
            >| #[trigger] is_listed_monitor(env, m)) ==> is_listed_monitor(env, target)
            &&& by_monitor && wanted.len() == 0 && (exists|m: Seq<char>| #[trigger]
                is_listed_monitor(env, m)) ==> is_listed_monitor(env, target)
            &&& by_monitor && wanted.len() > 0 && !(exists|m: Seq<char>| #[trigger]
                is_listed_monitor(env, m)) ==> target == wanted
        }),
{
    reveal_strlit("x11");
    reveal_strlit("wayland");
    assert("x11"@.len() == 3);
    assert("wayland"@.len() == 7);
    reveal_strlit("unknown");
    assert("unknown"@.len() == 7);
    assert("unknown"@[0] == 'u');
    assert("wayland"@[0] == 'w');
    assert(is_session(env, "x11"@) == (env.session() == "x11"@));
    assert(is_session(env, "wayland"@) == (env.session() == "wayland"@));
    let names = match opt_texts(env.listed_monitors) {
        Some(names) => names,
        None => Seq::empty(),
    };
    let more = names + seq!["portal"@, "focused"@];
    let monitors = env.monitors();
    text::lemma_ordered_once(more);
    assert forall|m: Seq<char>| #[trigger] monitors.contains(m) <==> (names.contains(m) || m
        == "portal"@ || m == "focused"@) by {
        assert(monitors.contains(m) <==> more.contains(m));
        if names.contains(m) {
            let k = choose|k: int| 0 <= k < names.len() && names[k] == m;
            assert(more[k] == m);
        }
        if more.contains(m) {
            let k = choose|k: int| 0 <= k < more.len() && more[k] == m;
            if k < names.len() {
                assert(names[k] == m);
            }
        }
        assert(more[names.len() as int] == "portal"@);
        assert(more[names.len() as int + 1] == "focused"@);
    }
    assert(monitors.contains("portal"@));
    lemma_first_real_monitor(monitors);
    lemma_real_monitor_is_found(monitors);
    let wanted = text::trim_of(config.target@);
    text::lemma_trim_twice(config.target@);
    if exists|m: Seq<char>| #[trigger] is_listed_monitor(env, m) {
        let m = choose|m: Seq<char>| #[trigger] is_listed_monitor(env, m);
        assert(monitors.contains(m));
        assert(first_real_monitor(monitors) is Some);
        assert(is_listed_monitor(env, first_real_monitor(monitors)->0));
    } else {
        if let Some(m) = first_real_monitor(monitors) {
            assert(is_listed_monitor(env, m));
        }
    }
}

proof fn lemma_real_monitor_is_found(monitors: Seq<Seq<char>>)
    ensures
        (exists|m: Seq<char>| #[trigger] monitors.contains(m) && !special_target(m))
            ==> first_real_monitor(monitors) is Some,
    decreases monitors.len(),
{
    if monitors.len() > 0 && special_target(monitors[0]) {
        let t = monitors.drop_first();
        lemma_real_monitor_is_found(t);
        if exists|m: Seq<char>| #[trigger] monitors.contains(m) && !special_target(m) {
            let m = choose|m: Seq<char>| #[trigger] monitors.contains(m) && !special_target(m);
            let k = choose|k: int| 0 <= k < monitors.len() && monitors[k] == m;
            assert(t[k - 1] == m);
            assert(t.contains(m));
        }
    }
}

/// The recorder runs the way that is set, and where either way will do, natively
/// if it is installed so, else in its sandbox, and not at all where it is in
/// neither.
pub proof fn lemma_mode_is_obeyed(env: GsrEnvironment)
    ensures
        env.mode(GpuScreenRecorderMode::Native) == Some(GsrMode::Native),
        env.mode(GpuScreenRecorderMode::Flatpak) == Some(GsrMode::Flatpak),
        env.native_available ==> env.mode(GpuScreenRecorderMode::Auto) == Some(GsrMode::Native),
        !env.native_available && env.flatpak_available ==> env.mode(GpuScreenRecorderMode::Auto)
            == Some(GsrMode::Flatpak),
        env.mode(GpuScreenRecorderMode::Auto) is None <==> !env.native_available
            && !env.flatpak_available,
{
}

/// How many words start the recorder before its own arguments.
pub open spec fn words_before(mode: GsrMode) -> int {
    match mode {
        GsrMode::Native => 0,
        GsrMode::Flatpak => 3,
    }
}

proof fn lemma_command_tells_where(
    command: GsrCommandLine,
    config: CaptureConfig,
    env: GsrEnvironment,
)
    requires
        command.built_from(config, env),
    ensures
        ({
            let args = text::texts(command.args@);
            let first = words_before(command.mode);
            &&& is_set_to(args, first, "-w"@, command.target@)
            &&& is_set_to(args, first, "-ro"@, command.output_dir@)
            &&& is_set_to(args, first, "-o"@, command.output_prefix@)
            &&& first <= args.len()
        }),
{
    lemma_command_tells_each_setting(command, config, env);
}

/// The recorder that a command starts is recognized among the processes, by the
/// words that it was started with, and may be stopped.
pub proof fn lemma_own_recorder_is_recognized(
    command: GsrCommandLine,
    config: CaptureConfig,
    env: GsrEnvironment,
    program: Seq<char>,
    own: Seq<Seq<char>>,
)
    requires
        command.built_from(config, env),
        path::file_name_of(program) == Some("gpu-screen-recorder"@),
        own == text::texts(command.args@).skip(words_before(command.mode)),
        forall|i: int|
            0 <= i < own.len() ==> !(path::file_name_of(#[trigger] own[i]) matches Some(name)
                && ignored_names().contains(name)),
    ensures
        is_our_recorder(
            seq![program] + own,
            command.target@,
            command.output_dir@,
            command.output_prefix@,
        ),
        safe_to_stop(seq![program] + own),
{
    let first = words_before(command.mode);
    let args = text::texts(command.args@);
    let words = seq![program] + own;
    lemma_command_tells_where(command, config, env);
    lemma_recorder_is_not_ignored();
    assert forall|i: int| 0 <= i < words.len() implies !names_ignored(#[trigger] words[i]) by {
        if i > 0 {
            assert(words[i] == own[i - 1]);
        }
    }
    assert forall|i: int| 0 < i < words.len() implies #[trigger] words[i] == args[first + i
        - 1] by {
        assert(words[i] == own[i - 1]);
    }
    lemma_pair_behind(args, first, words, "-w"@, command.target@);
    lemma_pair_behind(args, first, words, "-ro"@, command.output_dir@);
    lemma_pair_behind(args, first, words, "-o"@, command.output_prefix@);
}

proof fn lemma_recorder_is_not_ignored()
    ensures
        !ignored_names().contains("gpu-screen-recorder"@),
{
    reveal_strlit("bwrap");
    reveal_strlit("flatpak");
    reveal_strlit("flatpak-spawn");
    reveal_strlit("gsr-kms-server");
    reveal_strlit("kms-server-proxy");
    reveal_strlit("gpu-screen-recorder-gtk");
    reveal_strlit("gsr-game-tracker");
    reveal_strlit("gpu-screen-recorder");
    assert("gpu-screen-recorder"@.len() == 19);
    assert("bwrap"@.len() == 5);
    assert("flatpak"@.len() == 7);
    assert("flatpak-spawn"@.len() == 13);
    assert("gsr-kms-server"@.len() == 14);
    assert("kms-server-proxy"@.len() == 16);
    assert("gpu-screen-recorder-gtk"@.len() == 23);
    assert("gsr-game-tracker"@.len() == 16);
}

proof fn lemma_pair_behind(
    args: Seq<Seq<char>>,
    first: int,
    words: Seq<Seq<char>>,
    key: Seq<char>,
    value: Seq<char>,
)
    requires
        0 <= first <= args.len(),
        words.len() == args.len() - first + 1,
        forall|i: int| 0 < i < words.len() ==> #[trigger] words[i] == args[first + i - 1],
        is_set_to(args, first, key, value),
    ensures
        has_pair(words, key, value),
{
    let p = choose|p: int|
        first <= p < args.len() - 1 && (p - first) % 2 == 0 && #[trigger] args[p] == key && args[p
            + 1] == value;
    let i = p - first + 1;
    assert(words[i] == key);
    assert(words[i + 1] == value);
}

/// A process of a program around the recorder is neither taken for it nor stopped
/// in its place, and neither is a recorder of something else.
pub proof fn lemma_other_processes_are_left_alone(
    args: Seq<Seq<char>>,
    target: Seq<char>,
    output_dir: Seq<char>,
    output_prefix: Seq<char>,
    at: int,
    name: Seq<char>,
)
    requires
        0 <= at < args.len(),
        path::file_name_of(args[at]) == Some(name),
        name == "bwrap"@ || name == "flatpak"@ || name == "flatpak-spawn"@ || name
            == "gsr-kms-server"@ || name == "kms-server-proxy"@ || name
            == "gpu-screen-recorder-gtk"@ || name == "gsr-game-tracker"@,
    ensures
        !is_our_recorder(args, target, output_dir, output_prefix),
        !safe_to_stop(args),
{
    let names = ignored_names();
    assert(names[0] == "bwrap"@);
    assert(names[1] == "flatpak"@);
    assert(names[2] == "flatpak-spawn"@);
    assert(names[3] == "gsr-kms-server"@);
    assert(names[4] == "kms-server-proxy"@);
    assert(names[5] == "gpu-screen-recorder-gtk"@);
    assert(names[6] == "gsr-game-tracker"@);
    assert(names.contains(name));
    assert(names_ignored(args[at]));
}

/// Only a recorder of this target and these paths is taken for our own.
pub proof fn lemma_only_our_recorder_is_taken(
    args: Seq<Seq<char>>,
    target: Seq<char>,
    output_dir: Seq<char>,
    output_prefix: Seq<char>,
)
    requires
        is_our_recorder(args, target, output_dir, output_prefix),
    ensures
        args.len() > 0,
        path::file_name_of(args[0]) == Some("gpu-screen-recorder"@),
        exists|i: int|
            0 <= i < args.len() - 1 && #[trigger] args[i] == "-w"@ && args[i + 1] == target,
        exists|i: int|
            0 <= i < args.len() - 1 && #[trigger] args[i] == "-ro"@ && args[i + 1] == output_dir,
        exists|i: int|
            0 <= i < args.len() - 1 && #[trigger] args[i] == "-o"@ && args[i + 1] == output_prefix,
        safe_to_stop(args),
{
}

proof fn lemma_slot_in_order(positions: Seq<int>, files: Seq<OutputFile>, written: int)
    requires
        forall|i: int, j: int|
            0 <= i <= j < positions.len() ==> written_at(files[#[trigger] positions[i]])
                <= written_at(files[#[trigger] positions[j]]),
    ensures
        0 <= slot_for(positions, files, written) <= positions.len(),
        forall|i: int|
            0 <= i < slot_for(positions, files, written) ==> written_at(
                files[#[trigger] positions[i]],
            ) <= written,
        forall|i: int|
            slot_for(positions, files, written) <= i < positions.len() ==> written_at(
                files[#[trigger] positions[i]],
            ) > written,
    decreases positions.len(),
{
    if positions.len() == 0 {
    } else if written_at(files[positions.last()]) <= written {
        assert forall|i: int| 0 <= i < positions.len() implies written_at(
            files[#[trigger] positions[i]],
        ) <= written by {
            assert(written_at(files[positions[i]]) <= written_at(
                files[positions[positions.len() - 1]],
            ));
        }
    } else {
        let t = positions.drop_last();
        assert forall|i: int, j: int| 0 <= i <= j < t.len() implies written_at(
            files[#[trigger] t[i]],
        ) <= written_at(files[#[trigger] t[j]]) by {
            assert(t[i] == positions[i] && t[j] == positions[j]);
        }
        lemma_slot_in_order(t, files, written);
        let k = slot_for(t, files, written);
        assert forall|i: int| 0 <= i < k implies written_at(files[#[trigger] positions[i]])
            <= written by {
            assert(t[i] == positions[i]);
        }
        assert forall|i: int| k <= i < positions.len() implies written_at(
            files[#[trigger] positions[i]],
        ) > written by {
            if i < t.len() {
                assert(t[i] == positions[i]);
            }
        }
    }
}

/// The replays among the files are all files with the extension, and no others,
/// the ones written earlier first.
pub proof fn lemma_replays_are_in_order(files: Seq<OutputFile>, extension: Seq<char>)
    ensures
        forall|k: int|
            #[trigger] replay_positions(files, extension).contains(k) <==> 0 <= k < files.len()
                && is_replay(files[k], extension),
        forall|i: int, j: int|
            0 <= i <= j < replay_positions(files, extension).len() ==> written_at(
                files[#[trigger] replay_positions(files, extension)[i]],
            ) <= written_at(files[#[trigger] replay_positions(files, extension)[j]]),
    decreases files.len(),
{
    if files.len() > 0 {
        let t = files.drop_last();
        lemma_replays_are_in_order(t, extension);
        lemma_replay_positions(t, extension);
        let before = replay_positions(t, extension);
        let all = replay_positions(files, extension);
        let written = written_at(files.last());
        assert forall|k: int| 0 <= k < before.len() implies files[#[trigger] before[k]]
            == t[before[k]] by {}
        assert forall|i: int, j: int| 0 <= i <= j < before.len() implies written_at(
            files[#[trigger] before[i]],
        ) <= written_at(files[#[trigger] before[j]]) by {
            assert(files[before[i]] == t[before[i]] && files[before[j]] == t[before[j]]);
        }
        lemma_slot_in_order(before, files, written);
        let at = slot_for(before, files, written);
        let own = is_replay(files.last(), extension);
        assert forall|k: int| #[trigger] all.contains(k) <==> 0 <= k < files.len() && is_replay(
            files[k],
            extension,
        ) by {
            if before.contains(k) {
                let i = choose|i: int| 0 <= i < before.len() && before[i] == k;
                assert(t[k] == files[k]);
                if own {
                    assert(all[if i < at { i } else { i + 1 }] == k);
                }
            }
            if own {
                assert(all[at] == files.len() - 1);
            }
            if all.contains(k) {
                let i = choose|i: int| 0 <= i < all.len() && all[i] == k;
                if own {
                    if i < at {
                        assert(before[i] == k);
                        assert(before.contains(k));
                    } else if i > at {
                        assert(before[i - 1] == k);
                        assert(before.contains(k));
                    }
                }
            }
            if 0 <= k < t.len() {
                assert(t[k] == files[k]);
            }
        }
        assert forall|i: int, j: int| 0 <= i <= j < all.len() implies written_at(
            files[#[trigger] all[i]],
        ) <= written_at(files[#[trigger] all[j]]) by {
            if own {
                let x = if i < at {
                    i
                } else {
                    i - 1
                };
                let y = if j < at {
                    j
                } else {
                    j - 1
                };
                if i != at {
                    assert(all[i] == before[x]);
                }
                if j != at {
                    assert(all[j] == before[y]);
                }
            }
        }
    }
}

/// The new replay is the one written last of all files with the extension that
/// were not there before and hold something. Where none is found there is none.
pub proof fn lemma_new_replay_is_the_latest(
    files: Seq<OutputFile>,
    extension: Seq<char>,
    before: Seq<Seq<char>>,
)
    ensures
        match newest_new(replay_positions(files, extension), files, before) {
            Some(k) => {
                &&& 0 <= k < files.len()
                &&& files[k].is_file
                &&& files[k].len > 0
                &&& !before.contains(files[k].path@)
                &&& has_extension(files[k].path@, extension)
                &&& forall|j: int|
                    0 <= j < files.len() && (#[trigger] files[j]).is_file && files[j].len > 0
                        && !before.contains(files[j].path@) && has_extension(
                        files[j].path@,
                        extension,
                    ) ==> written_at(files[j]) <= written_at(files[k])
            },
            None => forall|j: int|
                0 <= j < files.len() && (#[trigger] files[j]).is_file && files[j].len > 0
                    && has_extension(files[j].path@, extension) ==> before.contains(files[j].path@),
        },
{
    let positions = replay_positions(files, extension);
    lemma_replays_are_in_order(files, extension);
    lemma_newest_is_last(positions, files, before);
    assert forall|j: int| 0 <= j < files.len() && is_replay(#[trigger] files[j], extension) implies
        positions.contains(j) by {}
    if let Some(k) = newest_new(positions, files, before) {
        assert(positions.contains(k));
    }
}

proof fn lemma_newest_is_last(positions: Seq<int>, files: Seq<OutputFile>, before: Seq<Seq<char>>)
    requires
        forall|i: int, j: int|
            0 <= i <= j < positions.len() ==> written_at(files[#[trigger] positions[i]])
                <= written_at(files[#[trigger] positions[j]]),
    ensures
        match newest_new(positions, files, before) {
            Some(k) => positions.contains(k) && is_new_replay(files[k], before) && forall|j: int|
                #[trigger] positions.contains(j) && is_new_replay(files[j], before) ==> written_at(
                    files[j],
                ) <= written_at(files[k]),
            None => forall|j: int|
                #[trigger] positions.contains(j) ==> !is_new_replay(files[j], before),
        },
    decreases positions.len(),
{
    if positions.len() > 0 {
        let t = positions.drop_last();
        let last = positions.last();
        assert(positions[positions.len() - 1] == last);
        assert forall|i: int, j: int| 0 <= i <= j < t.len() implies written_at(
            files[#[trigger] t[i]],
        ) <= written_at(files[#[trigger] t[j]]) by {
            assert(t[i] == positions[i] && t[j] == positions[j]);
        }
        lemma_newest_is_last(t, files, before);
        assert forall|j: int| #[trigger] positions.contains(j) implies t.contains(j) || j
            == last by {
            let i = choose|i: int| 0 <= i < positions.len() && positions[i] == j;
            if i < t.len() {
                assert(t[i] == j);
            }
        }
        assert forall|j: int| #[trigger] t.contains(j) implies positions.contains(j) by {
            let i = choose|i: int| 0 <= i < t.len() && t[i] == j;
            assert(positions[i] == j);
        }
        if is_new_replay(files[last], before) {
            assert forall|j: int| #[trigger] positions.contains(j) implies written_at(files[j])
                <= written_at(files[last]) by {
                let i = choose|i: int| 0 <= i < positions.len() && positions[i] == j;
                assert(written_at(files[positions[i]]) <= written_at(
                    files[positions[positions.len() - 1]],
                ));
            }
        }
    }
}

/// The same settings are the same both ways, and make the same command on the same
/// machine: whatever would change the command is a change of the settings.
pub proof fn lemma_same_settings_make_the_same_command(
    a: CaptureConfig,
    b: CaptureConfig,
    env: GsrEnvironment,
    one: GsrCommandLine,
    other: GsrCommandLine,
)
    requires
        same_settings(a, b),
        one.built_from(a, env),
        other.built_from(b, env),
    ensures
        same_settings(b, a),
        one.mode == other.mode,
        one.program@ == other.program@,
        text::texts(one.args@) == text::texts(other.args@),
        one.command_line@ == other.command_line@,
        one.output_dir@ == other.output_dir@,
{
    number::lemma_equal_singles(a.keyframe_interval_seconds, b.keyframe_interval_seconds);
    let x = a.keyframe_interval_seconds;
    let y = b.keyframe_interval_seconds;
    let low = Single { bits: SHORTEST_KEYFRAME_INTERVAL };
    let high = Single { bits: LONGEST_KEYFRAME_INTERVAL };
    assert(number::single_clamped(x, low, high).steps() == number::single_clamped(
        y,
        low,
        high,
    ).steps());
    assert(number::thousandfold(number::single_clamped(x, low, high)) == number::thousandfold(
        number::single_clamped(y, low, high),
    ));
    assert(keyframe_millis(x) == keyframe_millis(y));
}

/// A process that is gone records no more: its state is an error that says so. A
/// recorder that runs is at work, and without a process nothing runs.
pub proof fn lemma_state_follows_the_processes(
    s: GsrStateView,
    pid: u32,
    status: String,
    recorder_alive: bool,
)
    ensures
        ({
            let gone = GpuScreenRecorderHandle::looked_at(
                s,
                Some(pid),
                ChildStatus::Exited(status),
                recorder_alive,
            );
            &&& gone.health == GsrHealth::Error
            &&& gone.recorder_pid is None
            &&& gone.wrapper_pid is None
            &&& gone.last_error is Some
            &&& text::has_suffix(gone.last_error->0, status@)
        }),
        ({
            let alive = GpuScreenRecorderHandle::looked_at(
                s,
                Some(pid),
                ChildStatus::Alive,
                recorder_alive,
            );
            &&& s.health == GsrHealth::SavingReplay ==> alive == s
            &&& s.health != GsrHealth::SavingReplay && recorder_alive ==> alive.health
                == GsrHealth::Running && alive.wrapper_pid == Some(pid) && alive.recorder_pid
                == s.recorder_pid
            &&& s.health != GsrHealth::SavingReplay && !recorder_alive && s.recorder_pid is Some
                ==> alive.health == GsrHealth::Error && alive.recorder_pid is None
                && alive.last_error is Some
        }),
        ({
            let none = GpuScreenRecorderHandle::looked_at(
                s,
                None,
                ChildStatus::Alive,
                recorder_alive,
            );
            &&& s.health != GsrHealth::Error ==> none.health == GsrHealth::Stopped
                && none.recorder_pid is None && none.wrapper_pid is None
            &&& s.health == GsrHealth::Error ==> none == s
        }),
{
    let said = "GPU Screen Recorder exited: "@;
    let whole = said + status@;
    assert(whole.subrange(whole.len() - status@.len(), whole.len() as int) =~= status@);
}

/// A saved replay is the last output, and the recorder runs on without an error. A
/// save that failed is an error, and the last output stays.
pub proof fn lemma_save_ends_in_a_replay_or_an_error(
    s: GsrStateView,
    replay: SavedGsrReplay,
    error: String,
)
    ensures
        ({
            let after = with_save_ended(s, Ok(replay));
            &&& after.health == GsrHealth::Running
            &&& after.last_output == Some(replay.final_video_path@)
            &&& after.last_error is None
            &&& after.recorder_pid == s.recorder_pid
            &&& s.total_saves_completed < u64::MAX ==> after.total_saves_completed
                == s.total_saves_completed + 1
            &&& after.total_saves_failed == s.total_saves_failed
        }),
        ({
            let after = with_save_ended(s, Err(error));
            &&& after.health == GsrHealth::Error
            &&& after.last_output == s.last_output
            &&& after.last_error == Some(error@)
            &&& s.total_saves_failed < u64::MAX ==> after.total_saves_failed
                == s.total_saves_failed + 1
            &&& after.total_saves_completed == s.total_saves_completed
        }),
{
}

/// A recorder that was started runs with its command. What records is the process
/// that was found, or the one that was started where no other was found.
pub proof fn lemma_started_recorder_runs(
    s: GsrStateView,
    command: GsrCommandLine,
    child_pid: u32,
    recorder: Option<(u32, String)>,
)
    ensures
        ({
            let after = launched(s, command, child_pid, recorder);
            &&& after.health == GsrHealth::Running
            &&& after.mode == Some(command.mode)
            &&& after.wrapper_pid == Some(child_pid)
            &&& recorder matches Some(found) ==> after.recorder_pid == Some(found.0)
            &&& recorder is None ==> after.recorder_pid == Some(child_pid)
            &&& after.command_line == Some(command.command_line@)
            &&& after.target == command.target@
            &&& after.output_dir == command.output_dir@
            &&& after.output_prefix == command.output_prefix@
            &&& after.restart_count == s.restart_count
            &&& after.last_output == s.last_output
        }),
{
}

/// What is written beside a clip names the clip, why it was made, and all that
/// happened in it, in order.
pub proof fn lemma_metadata_describes_the_clip(
    m: GsrClipMetadata,
    video_path: Seq<char>,
    thumbnail_path: Option<String>,
    context: ClipContext,
    config: CaptureConfig,
    duration_seconds: u64,
    created_at: Seq<char>,
)
    requires
        m.describes(
            video_path,
            thumbnail_path,
            context,
            config,
            duration_seconds,
            created_at,
        ),
    ensures
        context.pending_clip_id matches Some(id) ==> m.id@ == id@,
        m.video_path@ == video_path,
        m.path@ == video_path,
        m.thumbnail_path == thumbnail_path,
        m.duration_seconds == duration_seconds,
        m.created_at@ == created_at,
        m.player_name == context.player_name,
        m.fps == config.fps,
        m.reason@ == (match context.reason {
            ClipReason::TargetDestroyed => "target-destroyed"@,
            ClipReason::BaseDestroyed => "base-destroyed"@,
            ClipReason::PlayerDestroyed => "player-destroyed"@,
            ClipReason::MultiKill => "multi-kill"@,
            ClipReason::Manual => "manual"@,
            ClipReason::Unknown => "unknown"@,
        }),
        m.clip_type@ == (match context.reason {
            ClipReason::TargetDestroyed => "kill"@,
            ClipReason::BaseDestroyed => "base"@,
            ClipReason::PlayerDestroyed => "death"@,
            ClipReason::MultiKill => "multi"@,
            ClipReason::Manual => "manual"@,
            ClipReason::Unknown => "clip"@,
        }),
        context.reason == ClipReason::MultiKill ==> m.kill_count == Some(context.events.len()),
        context.reason != ClipReason::MultiKill ==> m.kill_count is None,
        context.events@.len() > 0 ==> m.events is Some && m.events->0@.len() == context.events@.len(),
        m.events matches Some(list) ==> forall|i: int|
            0 <= i < list@.len() ==> (#[trigger] list@[i]).summary == context.events@[i].summary
                && list@[i].actor == context.events@[i].actor && list@[i].subject
                == context.events@[i].subject && list@[i].context == context.events@[i].context
                && list@[i].kind@ == (match context.events@[i].kind {
                GameEventKind::Kill => "kill"@,
                GameEventKind::Death => "death"@,
                GameEventKind::Objective => "objective"@,
                GameEventKind::MultiKill => "multikill"@,
                GameEventKind::Other => "other"@,
            }),
        context.event matches Some(event) ==> (m.event matches Some(told) && told.summary
            == event.summary),
{
}

/// A name for a clip begins with why it was made.
pub proof fn lemma_stem_begins_with_the_reason(context: ClipContext)
    ensures
        text::has_prefix(
            clip_stem(context),
            match context.reason {
                ClipReason::TargetDestroyed => "kill-"@,
                ClipReason::BaseDestroyed => "base-"@,
                ClipReason::PlayerDestroyed => "death-"@,
                ClipReason::MultiKill => "multi-kill-"@,
                ClipReason::Manual => "manual-"@,
                ClipReason::Unknown => "clip-"@,
            },
        ),
        context.event matches Some(event) ==> (event.summary@.len() > 0 ==> text::has_suffix(
            clip_stem(context),
            output::slug_of(output::lowercase_each(event.summary@)),
        )),
        context.event is None ==> text::has_suffix(clip_stem(context), "replay"@),
{
    reveal_strlit("-");
    reveal_strlit("kill");
    reveal_strlit("kill-");
    reveal_strlit("base");
    reveal_strlit("base-");
    reveal_strlit("death");
    reveal_strlit("death-");
    reveal_strlit("multi-kill");
    reveal_strlit("multi-kill-");
    reveal_strlit("manual");
    reveal_strlit("manual-");
    reveal_strlit("clip");
    reveal_strlit("clip-");
    let stem = clip_stem(context);
    let start = stem_prefix(context.reason) + "-"@;
    assert(stem.subrange(0, start.len() as int) =~= start);
    assert("kill"@ + "-"@ =~= "kill-"@);
    assert("base"@ + "-"@ =~= "base-"@);
    assert("death"@ + "-"@ =~= "death-"@);
    assert("multi-kill"@ + "-"@ =~= "multi-kill-"@);
    assert("manual"@ + "-"@ =~= "manual-"@);
    assert("clip"@ + "-"@ =~= "clip-"@);
    let tail = stem.skip(start.len() as int);
    assert(stem =~= start + tail);
    assert(stem.subrange(stem.len() - tail.len(), stem.len() as int) =~= tail);
    if let Some(event) = context.event {
        if event.summary@.len() > 0 {
            assert(tail =~= output::slug_of(output::lowercase_each(event.summary@)));
        }
    } else {
        assert(tail =~= "replay"@);
    }
}

proof fn lemma_monitor_names(lines: Seq<Seq<char>>)
    ensures
        forall|i: int|
            0 <= i < lines.len() && text::trim_of(
                text::split_of(#[trigger] lines[i], '|')[0],
            ).len() > 0 ==> monitor_names(lines).contains(
                text::trim_of(text::split_of(lines[i], '|')[0]),
            ),
        forall|k: int|
            0 <= k < monitor_names(lines).len() ==> (#[trigger] monitor_names(lines)[k]).len() > 0,
    decreases lines.len(),
{
    if lines.len() > 0 {
        let t = lines.drop_last();
        lemma_monitor_names(t);
        let before = monitor_names(t);
        let all = monitor_names(lines);
        assert forall|i: int|
            0 <= i < lines.len() && text::trim_of(
                text::split_of(#[trigger] lines[i], '|')[0],
            ).len() > 0 implies all.contains(
            text::trim_of(text::split_of(lines[i], '|')[0]),
        ) by {
            let name = text::trim_of(text::split_of(lines[i], '|')[0]);
            if i < t.len() {
                assert(t[i] == lines[i]);
                assert(before.contains(name));
                let k = choose|k: int| 0 <= k < before.len() && before[k] == name;
                assert(all[k] == name);
            } else {
                assert(all[before.len() as int] == name);
            }
        }
        assert forall|k: int| 0 <= k < all.len() implies (#[trigger] all[k]).len() > 0 by {
            if k < before.len() {
                assert(all[k] == before[k]);
            }
        }
    }
}

/// A line of the recorder's listing names its monitor before the first bar.
pub proof fn lemma_listed_monitor_is_known(
    front: Seq<Seq<char>>,
    name: Seq<char>,
    rest: Seq<char>,
    back: Seq<Seq<char>>,
)
    requires
        name.len() > 0,
        !name.contains('|'),
        !text::is_space(name[0]),
        !text::is_space(name.last()),
    ensures
        monitor_names(front + seq![name + seq!['|'] + rest] + back).contains(name),
        monitor_names(front + seq![name] + back).contains(name),
{
    let long = name + seq!['|'] + rest;
    text::lemma_trim_is(name, 0, name.len() as int);
    assert(name.subrange(0, name.len() as int) =~= name);
    assert forall|j: int| 0 <= j < name.len() implies long[j] != '|' && name[j] != '|' by {
        assert(long[j] == name[j]);
        assert(name.contains(name[j]));
    }
    text::lemma_index_of_char_is(long, '|', name.len() as int);
    text::lemma_index_of_char_is(name, '|', name.len() as int);
    assert(long.subrange(0, name.len() as int) =~= name);
    assert(text::split_of(long, '|')[0] == name);
    assert(text::split_of(name, '|')[0] == name);
    let one = front + seq![long] + back;
    let other = front + seq![name] + back;
    let at = front.len() as int;
    assert(one[at] == long);
    assert(other[at] == name);
    lemma_monitor_names(one);
    lemma_monitor_names(other);
}

/// The same settings are the same in every setting, so that a change of any of them
/// counts as one.
pub proof fn lemma_every_setting_counts(a: CaptureConfig, b: CaptureConfig)
    ensures
        same_settings(a, b) ==> {
            &&& a.capture_strategy == b.capture_strategy
            &&& a.target@ == b.target@
            &&& a.gpu_screen_recorder_mode == b.gpu_screen_recorder_mode
            &&& a.fps == b.fps
            &&& a.replay_seconds == b.replay_seconds
            &&& a.container == b.container
            &&& a.codec == b.codec
            &&& a.encoder == b.encoder
            &&& a.quality == b.quality
            &&& a.bitrate_mode == b.bitrate_mode
            &&& a.frame_rate_mode == b.frame_rate_mode
            &&& a.keyframe_interval_seconds.steps() == b.keyframe_interval_seconds.steps()
            &&& a.restart_replay_on_save == b.restart_replay_on_save
            &&& a.video_bitrate_kbps == b.video_bitrate_kbps
            &&& a.output_dir@ == b.output_dir@
            &&& a.audio_enabled == b.audio_enabled
            &&& a.audio_input@ == b.audio_input@
        },
        a == b && !a.keyframe_interval_seconds.is_nan() ==> same_settings(a, b),
{
}

/// An interval is told in seconds with up to three digits behind the point and no
/// zero at the end.
pub proof fn lemma_interval_is_told_in_seconds(millis: nat)
    ensures
        millis % 1000 == 0 ==> as_seconds(millis) == text::decimal(millis / 1000),
        millis % 1000 != 0 ==> {
            let full = text::decimal(millis / 1000) + "."@ + text::padded_decimal(
                millis % 1000,
                3,
            );
            &&& text::has_prefix(full, as_seconds(millis))
            &&& as_seconds(millis).len() > 0
            &&& as_seconds(millis).last() != '0'
            &&& forall|i: int|
                as_seconds(millis).len() <= i < full.len() ==> #[trigger] full[i] == '0'
        },
{
    if millis % 1000 != 0 {
        let full = text::decimal(millis / 1000) + "."@ + text::padded_decimal(millis % 1000, 3);
        reveal_strlit(".");
        assert(full.contains('.')) by {
            assert(full[text::decimal(millis / 1000).len() as int] == '.');
        }
        lemma_trimmed_zeros(full);
    }
}

proof fn lemma_trimmed_zeros(s: Seq<char>)
    requires
        s.contains('.'),
    ensures
        text::has_prefix(s, text::trim_end_char_of(s, '0')),
        text::trim_end_char_of(s, '0').len() > 0,
        text::trim_end_char_of(s, '0').last() != '0',
        forall|i: int|
            text::trim_end_char_of(s, '0').len() <= i < s.len() ==> #[trigger] s[i] == '0',
    decreases s.len(),
{
    if s.last() == '0' {
        let t = s.drop_last();
        let k = choose|k: int| 0 <= k < s.len() && s[k] == '.';
        assert(s[s.len() - 1] == '0');
        assert(t[k] == '.');
        lemma_trimmed_zeros(t);
        let r = text::trim_end_char_of(s, '0');
        assert(t.subrange(0, r.len() as int) =~= s.subrange(0, r.len() as int));
        assert forall|i: int| r.len() <= i < s.len() implies #[trigger] s[i] == '0' by {
            if i < t.len() {
                assert(t[i] == s[i]);
            }
        }
    } else {
        assert(s.subrange(0, s.len() as int) =~= s);
    }
}

/// The interval that the recorder is told is the nearest thousandth of the setting,
/// a tenth of a second at least and ten seconds at most, and a second where the
/// setting is no finite number.
pub proof fn lemma_interval_is_kept_within_bounds(setting: Single)
    ensures
        !setting.is_finite() ==> keyframe_millis(setting) == 1000,
        setting.is_finite() && setting.steps() <= (Single { bits: 0x3dcc_cccd }).steps()
            ==> keyframe_millis(setting) == 100,
        setting.is_finite() && setting.steps() >= (Single { bits: 0x4120_0000 }).steps()
            ==> keyframe_millis(setting) == 10_000,
        setting.is_finite() && (Single { bits: 0x3dcc_cccd }).steps() < setting.steps() < (Single {
            bits: 0x4120_0000,
        }).steps() ==> keyframe_millis(setting) == number::rounded_up(
            number::thousandfold(setting),
            number::single_steps_in_one(),
        ),
{
    number::lemma_thousandths_of_a_tenth_and_ten();
    let low = Single { bits: 0x3dcc_cccd };
    let high = Single { bits: 0x4120_0000 };
    assert(low.steps() < high.steps());
}

/// The command line of a process is cut at its zero bytes: words that hold none,
/// each with a zero byte behind it, are read as they are.
pub proof fn lemma_cmdline_is_cut_at_zeros(word: Seq<u8>, rest: Seq<u8>)
    requires
        word.len() > 0,
        !word.contains(0),
    ensures
        cmdline_words(word + seq![0u8] + rest) == seq![word] + cmdline_words(rest),
        cmdline_words(word) == seq![word],
        cmdline_words(Seq::empty()) == Seq::<Seq<u8>>::empty(),
{
    let bytes = word + seq![0u8] + rest;
    lemma_zero_behind(word, seq![0u8] + rest);
    assert(bytes =~= word + (seq![0u8] + rest));
    assert(first_zero(bytes) == word.len());
    assert(bytes.subrange(0, word.len() as int) =~= word);
    assert(bytes.subrange(word.len() as int + 1, bytes.len() as int) =~= rest);
    lemma_zero_behind(word, Seq::empty());
    assert(word + Seq::<u8>::empty() =~= word);
    assert(word.subrange(0, word.len() as int) =~= word);
    assert(cmdline_words(word) =~= seq![word]);
}

proof fn lemma_zero_behind(word: Seq<u8>, rest: Seq<u8>)
    requires
        !word.contains(0),
        rest.len() == 0 || rest[0] == 0,
    ensures
        first_zero(word + rest) == word.len(),
    decreases word.len(),
{
    let s = word + rest;
    if word.len() > 0 {
        let t = word.drop_first();
        assert(word.contains(word[0]));
        assert(s[0] == word[0]);
        assert(!t.contains(0)) by {
            if t.contains(0) {
                let i = choose|i: int| 0 <= i < t.len() && t[i] == 0;
                assert(word[i + 1] == 0);
            }
        }
        lemma_zero_behind(t, rest);
        assert(s.drop_first() =~= t + rest);
    }
}

/// What is shown of a command can be read by a shell: a word of plain characters
/// stays as it is, and any other is quoted, with each quote in it behind a
/// backslash.
pub proof fn lemma_shown_words(value: Seq<char>)
    ensures
        (forall|i: int|
            0 <= i < value.len() ==> ('a' <= (#[trigger] value[i]) && value[i] <= 'z') || ('A'
                <= value[i] && value[i] <= 'Z') || ('0' <= value[i] && value[i] <= '9') || value[i]
                == '-' || value[i] == '_' || value[i] == '.' || value[i] == '/' || value[i] == ':'
                || value[i] == '=') ==> quoted(value) == value,
        (exists|i: int|
            0 <= i < value.len() && ((#[trigger] value[i]) == ' ' || value[i] == '"' || value[i]
                == '$' || value[i] == ';' || value[i] == '&' || value[i] == '|')) ==> {
            &&& quoted(value).len() >= 2
            &&& quoted(value)[0] == '"'
            &&& quoted(value).last() == '"'
        },
{
    reveal_strlit("\"");
    if exists|i: int|
        0 <= i < value.len() && ((#[trigger] value[i]) == ' ' || value[i] == '"' || value[i] == '$'
            || value[i] == ';' || value[i] == '&' || value[i] == '|') {
        let i = choose|i: int|
            0 <= i < value.len() && ((#[trigger] value[i]) == ' ' || value[i] == '"' || value[i]
                == '$' || value[i] == ';' || value[i] == '&' || value[i] == '|');
        assert(!shell_safe(value[i]));
        assert(!all_shell_safe(value));
    } else if forall|i: int|
        0 <= i < value.len() ==> ('a' <= (#[trigger] value[i]) && value[i] <= 'z') || ('A'
            <= value[i] && value[i] <= 'Z') || ('0' <= value[i] && value[i] <= '9') || value[i]
            == '-' || value[i] == '_' || value[i] == '.' || value[i] == '/' || value[i] == ':'
            || value[i] == '=' {
        assert(all_shell_safe(value));
    }
}

/// What the user is shown is what is: the processes, the saves, what went wrong and
/// the settings.
pub proof fn lemma_status_tells_what_is(
    status: GsrStatus,
    s: GsrStateView,
    config: CaptureConfig,
    env: GsrEnvironment,
)
    requires
        status.tells(s, config, env),
    ensures
        status.health == s.health,
        status.recorder_pid == s.recorder_pid,
        status.wrapper_pid == s.wrapper_pid,
        status.signal_pid == s.recorder_pid,
        status.pid == s.recorder_pid,
        status.total_saves_requested == s.total_saves_requested,
        status.total_saves_completed == s.total_saves_completed,
        status.total_saves_failed == s.total_saves_failed,
        status.save_queue_len == s.save_queue_len,
        status.restart_count == s.restart_count,
        text::opt_text(status.last_output) == s.last_output,
        text::opt_text(status.last_error) == s.last_error,
        status.fps == config.fps,
        status.replay_seconds == config.replay_seconds,
        status.video_bitrate_kbps == config.video_bitrate_kbps,
        status.keyframe_interval_seconds == config.keyframe_interval_seconds,
        status.restart_replay_on_save == config.restart_replay_on_save,
        s.health == GsrHealth::Running ==> status.target@ == s.target,
        s.command_line matches Some(line) ==> text::opt_text(status.command_line) == Some(line),
        config.gpu_screen_recorder_mode == GpuScreenRecorderMode::Native ==> status.available
            == env.native_available,
        config.gpu_screen_recorder_mode == GpuScreenRecorderMode::Flatpak ==> status.available
            == env.flatpak_available,
        config.gpu_screen_recorder_mode == GpuScreenRecorderMode::Auto ==> status.available == (
        env.native_available || env.flatpak_available),
{
}

/// Before the recorder starts, a target that it cannot be pointed at gives way to a
/// monitor that it lists, and the user is told so. One that it can be pointed at
/// stays, and nothing is told.
pub proof fn lemma_target_gives_way_to_a_monitor(
    s: GsrStateView,
    config: CaptureConfig,
    env: GsrEnvironment,
)
    requires
        text::trim_of(config.target@) == config.target@,
        config.target@.len() > 0,
    ensures
        ({
            let after = retargeted(s, config, env);
            let known = config.target@ == "portal"@ || config.target@ == "focused"@ || window_id(
                config.target@,
            ) || is_listed_monitor(env, config.target@);
            &&& known ==> after.target == config.target@ && after.last_error == s.last_error
                && after.target_valid
            &&& !known && (exists|m: Seq<char>| #[trigger] is_listed_monitor(env, m))
                ==> is_listed_monitor(env, after.target) && after.last_error is Some
                && text::occurs_in(after.last_error->0, after.target)
            &&& after.health == s.health
            &&& after.recorder_pid == s.recorder_pid
        }),
{
    let probe = CaptureConfig { capture_strategy: CaptureStrategy::Monitor, ..config };
    lemma_target_follows_the_strategy(probe, env);
    let names = match opt_texts(env.listed_monitors) {
        Some(names) => names,
        None => Seq::empty(),
    };
    let more = names + seq!["portal"@, "focused"@];
    let monitors = env.monitors();
    text::lemma_ordered_once(more);
    let target = effective_target(config.target@, monitors);
    if is_listed_monitor(env, config.target@) {
        let k = choose|k: int| 0 <= k < names.len() && names[k] == config.target@;
        assert(more[k] == config.target@);
        assert(monitors.contains(config.target@));
    }
    let a = "Target GSR '"@;
    let b = "' invalide, utilisation automatique de '"@;
    let said = a + config.target@ + b + target + "'"@;
    let at = (a + config.target@ + b).len() as int;
    assert(said.subrange(at, at + target.len()) =~= target);
    assert(text::matches_at(said, target, at));
}

/// While the recorder works, a fresh list of monitors changes neither its target nor
/// its processes.
pub proof fn lemma_working_recorder_keeps_its_target(
    s: GsrStateView,
    config: CaptureConfig,
    env: GsrEnvironment,
)
    ensures
        s.health == GsrHealth::Running || s.health == GsrHealth::SavingReplay ==> refreshed(
            s,
            config,
            env,
        ).target == s.target && refreshed(s, config, env).target_reason == s.target_reason,
        refreshed(s, config, env).health == s.health,
        refreshed(s, config, env).recorder_pid == s.recorder_pid,
        refreshed(s, config, env).last_error == s.last_error,
        refreshed(s, config, env).monitors == env.monitors(),
{
}

}
