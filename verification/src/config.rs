//! The settings of the program: their defaults, and how a settings file is
//! read.

use vstd::prelude::*;
use vstd::string::*;
use crate::number::Single;
use crate::path;
use crate::text;
use crate::time::{Duration, NANOS_PER_MILLI};

verus! {

#[derive(Debug)]
pub struct AppConfig {
    pub clip: ClipConfig,
    pub library: LibraryConfig,
    pub capture: CaptureConfig,
    pub war_thunder: WarThunderConfig,
    pub triggers: TriggerConfig,
    pub storage: StorageConfig,
}

/// How clips are cut and kills are grouped.
#[derive(Clone, Copy, Debug, PartialEq, Eq, Structural)]
pub struct ClipConfig {
    pub post_event_seconds: u64,
    pub multi_kill_window_seconds: u64,
}

/// Where finished clips go.
#[derive(Debug)]
pub struct LibraryConfig {
    pub output_dir: String,
}

/// What the recorder is told.
#[derive(Debug)]
pub struct CaptureConfig {
    pub capture_strategy: CaptureStrategy,
    pub target: String,
    pub gpu_screen_recorder_mode: GpuScreenRecorderMode,
    pub fps: u32,
    pub replay_seconds: u64,
    pub container: GsrContainer,
    pub codec: GsrCodec,
    pub encoder: GsrEncoder,
    pub quality: GsrQuality,
    pub bitrate_mode: GsrBitrateMode,
    pub frame_rate_mode: GsrFrameRateMode,
    pub keyframe_interval_seconds: Single,
    pub restart_replay_on_save: bool,
    pub video_bitrate_kbps: u32,
    pub output_dir: String,
    pub audio_enabled: bool,
    pub audio_input: String,
}

#[derive(Clone, Copy, Debug, PartialEq, Eq, Structural)]
pub enum CaptureStrategy {
    /// The best target for the session: the game's window on X11, the portal
    /// on Wayland, once the game answers; a monitor where there is neither.
    Auto,
    /// Always the configured monitor.
    Monitor,
    /// The window that has the focus.
    Focused,
    /// The desktop portal.
    Portal,
}

#[derive(Clone, Copy, Debug, PartialEq, Eq, Structural)]
pub enum GpuScreenRecorderMode {
    Auto,
    Native,
    Flatpak,
}

#[derive(Clone, Copy, Debug, PartialEq, Eq, Structural)]
pub enum GsrContainer {
    Mp4,
    Mkv,
}

#[derive(Clone, Copy, Debug, PartialEq, Eq, Structural)]
pub enum GsrCodec {
    H264,
    Hevc,
    Av1,
}

#[derive(Clone, Copy, Debug, PartialEq, Eq, Structural)]
pub enum GsrEncoder {
    Gpu,
    Cpu,
}

#[derive(Clone, Copy, Debug, PartialEq, Eq, Structural)]
pub enum GsrQuality {
    Medium,
    High,
    VeryHigh,
    Ultra,
}

#[derive(Clone, Copy, Debug, PartialEq, Eq, Structural)]
pub enum GsrBitrateMode {
    Auto,
    Qp,
    Cbr,
    Vbr,
}

#[derive(Clone, Copy, Debug, PartialEq, Eq, Structural)]
pub enum GsrFrameRateMode {
    Cfr,
    Vfr,
    Content,
}

#[derive(Debug)]
pub struct WarThunderConfig {
    pub base_url: String,
    pub player_name: Option<String>,
    pub poll_interval_ms: u64,
    pub request_timeout_ms: u64,
}

/// Which events make a clip.
#[derive(Clone, Copy, Debug, PartialEq, Eq, Structural)]
pub struct TriggerConfig {
    pub target_destroyed: bool,
    pub base_destroyed: bool,
    pub player_destroyed: bool,
}

#[derive(Clone, Copy, Debug, PartialEq, Eq, Structural)]
pub struct StorageConfig {
    pub max_clips: u64,
    pub max_storage_gb: u64,
}

impl CaptureStrategy {
    pub fn should_wait_for_war_thunder(self) -> (r: bool)
        ensures
            r == (self is Auto || self is Portal),
    {
        match self {
            CaptureStrategy::Auto | CaptureStrategy::Portal => true,
            CaptureStrategy::Monitor | CaptureStrategy::Focused => false,
        }
    }
}

impl GsrContainer {
    pub open spec fn arg(self) -> Seq<char> {
        match self {
            GsrContainer::Mp4 => "mp4"@,
            GsrContainer::Mkv => "mkv"@,
        }
    }

    pub fn as_arg(self) -> (r: &'static str)
        ensures
            r@ == self.arg(),
    {
        match self {
            GsrContainer::Mp4 => "mp4",
            GsrContainer::Mkv => "mkv",
        }
    }

    pub fn extension(self) -> (r: &'static str)
        ensures
            r@ == self.arg(),
    {
        self.as_arg()
    }
}

impl GsrCodec {
    pub open spec fn arg(self) -> Seq<char> {
        match self {
            GsrCodec::H264 => "h264"@,
            GsrCodec::Hevc => "hevc"@,
            GsrCodec::Av1 => "av1"@,
        }
    }

    pub fn as_arg(self) -> (r: &'static str)
        ensures
            r@ == self.arg(),
    {
        match self {
            GsrCodec::H264 => "h264",
            GsrCodec::Hevc => "hevc",
            GsrCodec::Av1 => "av1",
        }
    }
}

impl GsrEncoder {
    pub open spec fn arg(self) -> Seq<char> {
        match self {
            GsrEncoder::Gpu => "gpu"@,
            GsrEncoder::Cpu => "cpu"@,
        }
    }

    pub fn as_arg(self) -> (r: &'static str)
        ensures
            r@ == self.arg(),
    {
        match self {
            GsrEncoder::Gpu => "gpu",
            GsrEncoder::Cpu => "cpu",
        }
    }
}

impl GsrQuality {
    pub open spec fn arg(self) -> Seq<char> {
        match self {
            GsrQuality::Medium => "medium"@,
            GsrQuality::High => "high"@,
            GsrQuality::VeryHigh => "very_high"@,
            GsrQuality::Ultra => "ultra"@,
        }
    }

    pub fn as_arg(self) -> (r: &'static str)
        ensures
            r@ == self.arg(),
    {
        match self {
            GsrQuality::Medium => "medium",
            GsrQuality::High => "high",
            GsrQuality::VeryHigh => "very_high",
            GsrQuality::Ultra => "ultra",
        }
    }
}

impl GsrBitrateMode {
    pub open spec fn arg(self) -> Option<Seq<char>> {
        match self {
            GsrBitrateMode::Auto => None,
            GsrBitrateMode::Qp => Some("qp"@),
            GsrBitrateMode::Cbr => Some("cbr"@),
            GsrBitrateMode::Vbr => Some("vbr"@),
        }
    }

    pub fn as_arg(self) -> (r: Option<&'static str>)
        ensures
            match r {
                Some(arg) => self.arg() == Some(arg@),
                None => self.arg() is None,
            },
    {
        match self {
            GsrBitrateMode::Auto => None,
            GsrBitrateMode::Qp => Some("qp"),
            GsrBitrateMode::Cbr => Some("cbr"),
            GsrBitrateMode::Vbr => Some("vbr"),
        }
    }
}

impl GsrFrameRateMode {
    pub open spec fn arg(self) -> Seq<char> {
        match self {
            GsrFrameRateMode::Cfr => "cfr"@,
            GsrFrameRateMode::Vfr => "vfr"@,
            GsrFrameRateMode::Content => "content"@,
        }
    }

    pub fn as_arg(self) -> (r: &'static str)
        ensures
            r@ == self.arg(),
    {
        match self {
            GsrFrameRateMode::Cfr => "cfr",
            GsrFrameRateMode::Vfr => "vfr",
            GsrFrameRateMode::Content => "content",
        }
    }
}

impl Default for ClipConfig {
    fn default() -> (r: Self)
        ensures
            r.post_event_seconds == 5,
            r.multi_kill_window_seconds == 8,
    {
        ClipConfig { post_event_seconds: 5, multi_kill_window_seconds: 8 }
    }
}

impl Default for LibraryConfig {
    fn default() -> (r: Self)
        ensures
            r.output_dir@ == "~/Videos/WarThunder Clips"@,
    {
        LibraryConfig { output_dir: "~/Videos/WarThunder Clips".to_owned() }
    }
}

pub const DEFAULT_VIDEO_BITRATE_KBPS: u32 = 20_000;

/// The bits of one, the seconds between key frames.
pub const DEFAULT_KEYFRAME_INTERVAL: u32 = 0x3f80_0000;

impl CaptureConfig {
    /// The settings that apply where the settings file says nothing, with the
    /// given directory.
    pub open spec fn is_default_in(self, dir: Seq<char>) -> bool {
        &&& self.capture_strategy is Auto
        &&& self.target@ == Seq::<char>::empty()
        &&& self.gpu_screen_recorder_mode is Flatpak
        &&& self.fps == 60
        &&& self.replay_seconds == 25
        &&& self.container is Mp4
        &&& self.codec is H264
        &&& self.encoder is Gpu
        &&& self.quality is VeryHigh
        &&& self.bitrate_mode is Cbr
        &&& self.frame_rate_mode is Cfr
        &&& self.keyframe_interval_seconds == (Single { bits: DEFAULT_KEYFRAME_INTERVAL })
        &&& !self.restart_replay_on_save
        &&& self.video_bitrate_kbps == DEFAULT_VIDEO_BITRATE_KBPS
        &&& self.output_dir@ == dir
        &&& self.audio_enabled
        &&& self.audio_input@ == "default_output"@
    }

    /// The settings that apply where the settings file says nothing.
    pub open spec fn is_default(self) -> bool {
        self.is_default_in("~/Videos/WarThunder Clips/GSR"@)
    }
}

impl Default for CaptureConfig {
    fn default() -> (r: Self)
        ensures
            r.is_default(),
    {
        CaptureConfig {
            capture_strategy: CaptureStrategy::Auto,
            target: String::new(),
            gpu_screen_recorder_mode: GpuScreenRecorderMode::Flatpak,
            fps: 60,
            replay_seconds: 25,
            container: GsrContainer::Mp4,
            codec: GsrCodec::H264,
            encoder: GsrEncoder::Gpu,
            quality: GsrQuality::VeryHigh,
            bitrate_mode: GsrBitrateMode::Cbr,
            frame_rate_mode: GsrFrameRateMode::Cfr,
            keyframe_interval_seconds: Single { bits: DEFAULT_KEYFRAME_INTERVAL },
            restart_replay_on_save: false,
            video_bitrate_kbps: DEFAULT_VIDEO_BITRATE_KBPS,
            output_dir: "~/Videos/WarThunder Clips/GSR".to_owned(),
            audio_enabled: true,
            audio_input: "default_output".to_owned(),
        }
    }
}

impl Clone for CaptureConfig {
    fn clone(&self) -> (r: Self)
        ensures
            r == *self,
    {
        CaptureConfig {
            capture_strategy: self.capture_strategy,
            target: self.target.clone(),
            gpu_screen_recorder_mode: self.gpu_screen_recorder_mode,
            fps: self.fps,
            replay_seconds: self.replay_seconds,
            container: self.container,
            codec: self.codec,
            encoder: self.encoder,
            quality: self.quality,
            bitrate_mode: self.bitrate_mode,
            frame_rate_mode: self.frame_rate_mode,
            keyframe_interval_seconds: self.keyframe_interval_seconds,
            restart_replay_on_save: self.restart_replay_on_save,
            video_bitrate_kbps: self.video_bitrate_kbps,
            output_dir: self.output_dir.clone(),
            audio_enabled: self.audio_enabled,
            audio_input: self.audio_input.clone(),
        }
    }
}

impl Default for WarThunderConfig {
    fn default() -> (r: Self)
        ensures
            r.base_url@ == "http://127.0.0.1:8111"@,
            r.player_name is None,
            r.poll_interval_ms == 300,
            r.request_timeout_ms == 500,
    {
        WarThunderConfig {
            base_url: "http://127.0.0.1:8111".to_owned(),
            player_name: None,
            poll_interval_ms: 300,
            request_timeout_ms: 500,
        }
    }
}

impl Default for TriggerConfig {
    fn default() -> (r: Self)
        ensures
            r.target_destroyed,
            r.base_destroyed,
            !r.player_destroyed,
    {
        TriggerConfig { target_destroyed: true, base_destroyed: true, player_destroyed: false }
    }
}

impl Default for StorageConfig {
    fn default() -> (r: Self)
        ensures
            r.max_clips == 100,
            r.max_storage_gb == 20,
    {
        StorageConfig { max_clips: 100, max_storage_gb: 20 }
    }
}

impl AppConfig {
    /// The settings that apply where there is no settings file, with the given
    /// directories.
    pub open spec fn is_default_in(self, library_dir: Seq<char>, capture_dir: Seq<char>) -> bool {
        &&& self.clip == (ClipConfig { post_event_seconds: 5, multi_kill_window_seconds: 8 })
        &&& self.library.output_dir@ == library_dir
        &&& self.capture.is_default_in(capture_dir)
        &&& self.war_thunder.base_url@ == "http://127.0.0.1:8111"@
        &&& self.war_thunder.player_name is None
        &&& self.war_thunder.poll_interval_ms == 300
        &&& self.war_thunder.request_timeout_ms == 500
        &&& self.triggers == (TriggerConfig {
            target_destroyed: true,
            base_destroyed: true,
            player_destroyed: false,
        })
        &&& self.storage == (StorageConfig { max_clips: 100, max_storage_gb: 20 })
    }

    /// The settings that apply where there is no settings file.
    pub open spec fn is_default(self) -> bool {
        self.is_default_in("~/Videos/WarThunder Clips"@, "~/Videos/WarThunder Clips/GSR"@)
    }
}

impl Default for AppConfig {
    fn default() -> (r: Self)
        ensures
            r.is_default(),
    {
        AppConfig {
            clip: ClipConfig::default(),
            library: LibraryConfig::default(),
            capture: CaptureConfig::default(),
            war_thunder: WarThunderConfig::default(),
            triggers: TriggerConfig::default(),
            storage: StorageConfig::default(),
        }
    }
}

/// The home directory is needed and not known.
#[derive(Clone, Copy, Debug, PartialEq, Eq, Structural)]
pub struct HomeNotSet;

impl HomeNotSet {
    pub fn message(self) -> (r: &'static str)
        ensures
            r@ == "HOME is not set"@,
    {
        "HOME is not set"
    }
}

/// A path with the home directory in place of a leading tilde; none where the
/// home directory is needed and not known.
pub open spec fn tilde_expanded(p: Seq<char>, home: Option<Seq<char>>) -> Option<Seq<char>> {
    if p == "~"@ {
        home
    } else {
        match text::strip_prefix_of(p, "~/"@) {
            Some(rest) => match home {
                Some(dir) => Some(path::joined_path(dir, rest)),
                None => None,
            },
            None => Some(p),
        }
    }
}

pub fn expand_tilde(p: &str, home: Option<&str>) -> (r: Result<String, HomeNotSet>)
    ensures
        match r {
            Ok(expanded) => tilde_expanded(p@, text::opt_str(home)) == Some(expanded@),
            Err(_) => tilde_expanded(p@, text::opt_str(home)) is None,
        },
{
    if text::same(p, "~") {
        return match home {
            Some(dir) => Ok(dir.to_owned()),
            None => Err(HomeNotSet),
        };
    }
    match text::strip_prefix(p, "~/") {
        Some(rest) => match home {
            Some(dir) => Ok(path::join_path(dir, rest)),
            None => Err(HomeNotSet),
        },
        None => Ok(p.to_owned()),
    }
}

impl LibraryConfig {
    pub fn output_dir_path(&self, home: Option<&str>) -> (r: Result<String, HomeNotSet>)
        ensures
            match r {
                Ok(dir) => tilde_expanded(self.output_dir@, text::opt_str(home)) == Some(dir@),
                Err(_) => tilde_expanded(self.output_dir@, text::opt_str(home)) is None,
            },
    {
        expand_tilde(self.output_dir.as_str(), home)
    }
}

impl CaptureConfig {
    pub fn output_dir_path(&self, home: Option<&str>) -> (r: Result<String, HomeNotSet>)
        ensures
            match r {
                Ok(dir) => tilde_expanded(self.output_dir@, text::opt_str(home)) == Some(dir@),
                Err(_) => tilde_expanded(self.output_dir@, text::opt_str(home)) is None,
            },
    {
        expand_tilde(self.output_dir.as_str(), home)
    }
}

pub open spec fn clamped(n: int, low: int, high: int) -> int {
    if n < low {
        low
    } else if n > high {
        high
    } else {
        n
    }
}

impl WarThunderConfig {
    /// How long to wait between two polls: a quarter to half a second.
    pub fn poll_interval(&self) -> (r: Duration)
        ensures
            r.nanos == clamped(self.poll_interval_ms as int, 250, 500) * NANOS_PER_MILLI,
    {
        let ms: u64 = if self.poll_interval_ms < 250 {
            250
        } else if self.poll_interval_ms > 500 {
            500
        } else {
            self.poll_interval_ms
        };
        Duration::from_millis(ms)
    }

    pub fn request_timeout(&self) -> (r: Duration)
        ensures
            r.nanos == self.request_timeout_ms * NANOS_PER_MILLI,
    {
        Duration::from_millis(self.request_timeout_ms)
    }
}

/// The directory for settings: the one that the environment names, else the
/// one below the home directory.
pub open spec fn settings_dir(xdg: Option<Seq<char>>, home: Option<Seq<char>>) -> Seq<char> {
    match xdg {
        Some(dir) => dir,
        None => match home {
            Some(dir) => path::joined_path(dir, ".config"@),
            None => "."@,
        },
    }
}

fn config_home(xdg_config_home: Option<&str>, home: Option<&str>) -> (r: Option<String>)
    ensures
        match r {
            Some(dir) => dir@ == settings_dir(text::opt_str(xdg_config_home), text::opt_str(home)),
            None => xdg_config_home is None && home is None,
        },
{
    match xdg_config_home {
        Some(dir) => Some(dir.to_owned()),
        None => match home {
            Some(dir) => Some(path::join_path(dir, ".config")),
            None => None,
        },
    }
}

pub fn default_config_path(xdg_config_home: Option<&str>, home: Option<&str>) -> (r: String)
    ensures
        r@ == path::joined_path(
            path::joined_path(
                settings_dir(text::opt_str(xdg_config_home), text::opt_str(home)),
                "wt-clipper"@,
            ),
            "config.toml"@,
        ),
{
    let dir: String = match config_home(xdg_config_home, home) {
        Some(dir) => dir,
        None => ".".to_owned(),
    };
    let dir = path::join_path(dir.as_str(), "wt-clipper");
    path::join_path(dir.as_str(), "config.toml")
}

impl AppConfig {
    /// What becomes of settings right after they were read from a file: tildes
    /// are expanded, a constant bit rate of zero gives way to the default, and a
    /// blank player name counts as none; nothing where the home directory is
    /// needed and not known.
    pub open spec fn completes(
        self,
        home: Option<Seq<char>>,
        r: Result<AppConfig, HomeNotSet>,
    ) -> bool {
        match r {
            Ok(done) => {
                &&& tilde_expanded(self.library.output_dir@, home) == Some(
                    done.library.output_dir@,
                )
                &&& tilde_expanded(self.capture.output_dir@, home) == Some(
                    done.capture.output_dir@,
                )
                &&& done.capture.video_bitrate_kbps == (if self.capture.bitrate_mode is Cbr
                    && self.capture.video_bitrate_kbps == 0 {
                    DEFAULT_VIDEO_BITRATE_KBPS
                } else {
                    self.capture.video_bitrate_kbps
                })
                &&& done.war_thunder.player_name == (match self.war_thunder.player_name {
                    Some(name) => if text::trim_of(name@).len() == 0 {
                        None
                    } else {
                        Some(name)
                    },
                    None => None,
                })
                &&& done == (AppConfig {
                    library: done.library,
                    capture: CaptureConfig {
                        output_dir: done.capture.output_dir,
                        video_bitrate_kbps: done.capture.video_bitrate_kbps,
                        ..self.capture
                    },
                    war_thunder: WarThunderConfig {
                        player_name: done.war_thunder.player_name,
                        ..self.war_thunder
                    },
                    ..self
                })
            },
            Err(_) => tilde_expanded(self.library.output_dir@, home) is None || tilde_expanded(
                self.capture.output_dir@,
                home,
            ) is None,
        }
    }

    /// The settings right after they were read from a file, completed.
    pub fn complete_loaded(self, home: Option<&str>) -> (r: Result<AppConfig, HomeNotSet>)
        ensures
            self.completes(text::opt_str(home), r),
    {
        let mut config = self;
        let dir: String = match config.library.output_dir_path(home) {
            Ok(dir) => dir,
            Err(e) => {
                return Err(e);
            },
        };
        config.library.output_dir = dir;
        let dir: String = match config.capture.output_dir_path(home) {
            Ok(dir) => dir,
            Err(e) => {
                return Err(e);
            },
        };
        config.capture.output_dir = dir;
        if config.capture.bitrate_mode == GsrBitrateMode::Cbr && config.capture.video_bitrate_kbps
            == 0 {
            config.capture.video_bitrate_kbps = DEFAULT_VIDEO_BITRATE_KBPS;
        }
        let blank: bool = match &config.war_thunder.player_name {
            Some(name) => text::trim(name.as_str()).is_empty(),
            None => false,
        };
        if blank {
            config.war_thunder.player_name = None;
        }
        Ok(config)
    }
}


/// A value of a settings file. A number with a fraction, a date and an array
/// are kept in their notation.
#[derive(Debug)]
pub enum ConfigValue {
    Text(String),
    Integer(i64),
    Boolean(bool),
    Other(String),
    Table(Vec<(String, ConfigValue)>),
}

/// What a value of a settings file is, apart from how it is stored.
pub ghost enum ConfigView {
    Text(Seq<char>),
    Integer(i64),
    Boolean(bool),
    Other(Seq<char>),
    Table(Seq<(Seq<char>, ConfigView)>),
}

impl ConfigValue {
    pub open spec fn viewed(self) -> ConfigView
        decreases self,
    {
        match self {
            ConfigValue::Text(t) => ConfigView::Text(t@),
            ConfigValue::Integer(n) => ConfigView::Integer(n),
            ConfigValue::Boolean(b) => ConfigView::Boolean(b),
            ConfigValue::Other(t) => ConfigView::Other(t@),
            ConfigValue::Table(entries) => ConfigView::Table(
                Seq::new(
                    entries@.len(),
                    |i: int|
                        if 0 <= i < entries@.len() {
                            (entries@[i].0@, entries@[i].1.viewed())
                        } else {
                            (seq![], ConfigView::Boolean(false))
                        },
                ),
            ),
        }
    }
}

/// What the entries of a table are, apart from how they are stored.
pub open spec fn entries_view(entries: Seq<(String, ConfigValue)>) -> Seq<
    (Seq<char>, ConfigView),
> {
    entries.map_values(|e: (String, ConfigValue)| (e.0@, e.1.viewed()))
}

pub proof fn lemma_table_viewed(entries: Vec<(String, ConfigValue)>)
    ensures
        ConfigValue::Table(entries).viewed() == ConfigView::Table(entries_view(entries@)),
{
    if let ConfigView::Table(seen) = ConfigValue::Table(entries).viewed() {
        assert(seen =~= entries_view(entries@));
    }
}

/// A value as the `toml` crate reads it; opaque here.
#[verifier::external_type_specification]
#[verifier::external_body]
pub struct ExTomlValue(toml::Value);

/// What the `toml` crate reads in `source`, where that is a settings file.
pub uninterp spec fn toml_in(source: Seq<char>) -> Option<ConfigView>;

/// Takes a `toml::Value` apart, one variant each.
#[verifier::external_body]
fn config_from(value: toml::Value) -> (r: ConfigValue) {
    match value {
        toml::Value::String(t) => ConfigValue::Text(t),
        toml::Value::Integer(n) => ConfigValue::Integer(n),
        toml::Value::Boolean(b) => ConfigValue::Boolean(b),
        toml::Value::Table(t) => {
            ConfigValue::Table(t.into_iter().map(|(k, v)| (k, config_from(v))).collect())
        },
        toml::Value::Float(_) => ConfigValue::Other(value.to_string()),
        toml::Value::Datetime(_) => ConfigValue::Other(value.to_string()),
        toml::Value::Array(_) => ConfigValue::Other(value.to_string()),
    }
}

/// `toml::from_str` reads a settings file. What it reads is only named; nothing
/// is read where the text is no TOML.
#[verifier::external_body]
fn parse_toml(source: &str) -> (r: Option<ConfigValue>)
    ensures
        match r {
            Some(value) => toml_in(source@) == Some(value.viewed()),
            None => toml_in(source@) is None,
        },
{
    toml::from_str::<toml::Value>(source).ok().map(config_from)
}

/// The value under `key`.
pub open spec fn entry_of(entries: Seq<(Seq<char>, ConfigView)>, key: Seq<char>) -> Option<
    ConfigView,
>
    decreases entries.len(),
{
    if entries.len() == 0 {
        None
    } else if entries.last().0 == key {
        Some(entries.last().1)
    } else {
        entry_of(entries.drop_last(), key)
    }
}

/// The entries with the value under `key` replaced; as they are where there is
/// none.
pub open spec fn replaced_entry(
    entries: Seq<(Seq<char>, ConfigView)>,
    key: Seq<char>,
    value: ConfigView,
) -> Seq<(Seq<char>, ConfigView)>
    decreases entries.len(),
{
    if entries.len() == 0 {
        entries
    } else if entries.last().0 == key {
        entries.drop_last().push((key, value))
    } else {
        replaced_entry(entries.drop_last(), key, value).push(entries.last())
    }
}

/// The entries without the one under `key`.
pub open spec fn without_entry(
    entries: Seq<(Seq<char>, ConfigView)>,
    key: Seq<char>,
) -> Seq<(Seq<char>, ConfigView)>
    decreases entries.len(),
{
    if entries.len() == 0 {
        entries
    } else if entries.last().0 == key {
        entries.drop_last()
    } else {
        without_entry(entries.drop_last(), key).push(entries.last())
    }
}

/// The entries without those under any of `keys`.
pub open spec fn without_entries(
    entries: Seq<(Seq<char>, ConfigView)>,
    keys: Seq<Seq<char>>,
) -> Seq<(Seq<char>, ConfigView)>
    decreases keys.len(),
{
    if keys.len() == 0 {
        entries
    } else {
        without_entry(without_entries(entries, keys.drop_last()), keys.last())
    }
}

/// No key twice.
pub open spec fn keys_distinct(entries: Seq<(Seq<char>, ConfigView)>) -> bool {
    forall|i: int, j: int|
        0 <= i < j < entries.len() ==> (#[trigger] entries[i]).0 != (#[trigger] entries[j]).0
}

/// Keys of the clip section that are no longer used.
pub open spec fn obsolete_clip_keys() -> Seq<Seq<char>> {
    seq![
        "seconds"@,
        "segment_seconds"@,
        "output_dir"@,
        "quality"@,
        "fps"@,
        "video_bitrate_kbps"@,
        "source"@,
        "keep_segments"@,
        "export_mode"@,
    ]
}

/// The clip section's output directory, as older settings have it.
pub open spec fn legacy_output_dir(root: Seq<(Seq<char>, ConfigView)>) -> Option<ConfigView> {
    match entry_of(root, "clip"@) {
        Some(ConfigView::Table(clip)) => entry_of(clip, "output_dir"@),
        _ => None,
    }
}

/// The settings with a library section.
pub open spec fn with_library(root: Seq<(Seq<char>, ConfigView)>) -> Seq<(Seq<char>, ConfigView)> {
    if entry_of(root, "library"@) is None {
        root.push(("library"@, ConfigView::Table(seq![])))
    } else {
        root
    }
}

/// The settings with the old output directory in the library section, where
/// that section has none.
pub open spec fn with_library_dir(
    root: Seq<(Seq<char>, ConfigView)>,
    legacy: Option<ConfigView>,
) -> Seq<(Seq<char>, ConfigView)> {
    match (legacy, entry_of(root, "library"@)) {
        (Some(dir), Some(ConfigView::Table(library))) => if entry_of(library, "output_dir"@) is None {
            replaced_entry(root, "library"@, ConfigView::Table(library.push(("output_dir"@, dir))))
        } else {
            root
        },
        _ => root,
    }
}

/// The settings with some keys removed from the section `name`.
pub open spec fn section_without(
    root: Seq<(Seq<char>, ConfigView)>,
    name: Seq<char>,
    keys: Seq<Seq<char>>,
) -> Seq<(Seq<char>, ConfigView)> {
    match entry_of(root, name) {
        Some(ConfigView::Table(section)) => replaced_entry(
            root,
            name,
            ConfigView::Table(without_entries(section, keys)),
        ),
        _ => root,
    }
}

/// Older settings in the present form: the clip section's output directory
/// becomes the library's, and keys that are no longer used are gone.
pub open spec fn migrated(root: Seq<(Seq<char>, ConfigView)>) -> Seq<(Seq<char>, ConfigView)> {
    let with_dir = with_library_dir(with_library(root), legacy_output_dir(root));
    let kept = without_entry(with_dir, "pending_exports"@);
    section_without(
        section_without(kept, "capture"@, seq!["backend"@]),
        "clip"@,
        obsolete_clip_keys(),
    )
}

/// The position of the entry under `key`.
fn position_of(entries: &Vec<(String, ConfigValue)>, key: &str) -> (r: Option<usize>)
    ensures
        match r {
            Some(i) => {
                &&& i < entries@.len()
                &&& entries@[i as int].0@ == key@
                &&& forall|j: int| i < j < entries@.len() ==> (#[trigger] entries@[j]).0@ != key@
            },
            None => forall|j: int| 0 <= j < entries@.len() ==> (#[trigger] entries@[j]).0@ != key@,
        },
{
    let mut i: usize = entries.len();
    while i > 0
        invariant
            i <= entries.len(),
            forall|j: int| i <= j < entries@.len() ==> (#[trigger] entries@[j]).0@ != key@,
        decreases i,
    {
        if text::same(entries[i - 1].0.as_str(), key) {
            return Some(i - 1);
        }
        i = i - 1;
    }
    None
}

/// What a position of a key means for the entries: the value that stands there,
/// and the entries with it replaced or removed.
proof fn lemma_at_position(
    entries: Seq<(Seq<char>, ConfigView)>,
    key: Seq<char>,
    i: int,
    value: ConfigView,
)
    requires
        0 <= i < entries.len(),
        entries[i].0 == key,
        forall|j: int| i < j < entries.len() ==> (#[trigger] entries[j]).0 != key,
    ensures
        entry_of(entries, key) == Some(entries[i].1),
        replaced_entry(entries, key, value) == entries.update(i, (key, value)),
        without_entry(entries, key) == entries.remove(i),
    decreases entries.len(),
{
    if i == entries.len() - 1 {
        assert(entries.drop_last().push((key, value)) =~= entries.update(i, (key, value)));
        assert(entries.drop_last() =~= entries.remove(i));
    } else {
        let t = entries.drop_last();
        assert forall|j: int| i < j < t.len() implies (#[trigger] t[j]).0 != key by {
            assert(entries[j].0 != key);
        }
        assert(entries[entries.len() - 1].0 != key);
        lemma_at_position(t, key, i, value);
        assert(t.update(i, (key, value)).push(entries.last()) =~= entries.update(i, (key, value)));
        assert(t.remove(i).push(entries.last()) =~= entries.remove(i));
    }
}

proof fn lemma_no_position(entries: Seq<(Seq<char>, ConfigView)>, key: Seq<char>, value: ConfigView)
    requires
        forall|j: int| 0 <= j < entries.len() ==> (#[trigger] entries[j]).0 != key,
    ensures
        entry_of(entries, key) is None,
        replaced_entry(entries, key, value) == entries,
        without_entry(entries, key) == entries,
    decreases entries.len(),
{
    if entries.len() > 0 {
        let t = entries.drop_last();
        assert forall|j: int| 0 <= j < t.len() implies (#[trigger] t[j]).0 != key by {
            assert(entries[j].0 != key);
        }
        assert(entries[entries.len() - 1].0 != key);
        lemma_no_position(t, key, value);
        assert(t.push(entries.last()) =~= entries);
    }
}

/// Removes the entry under `key` and hands out its value.
fn take_entry(entries: &mut Vec<(String, ConfigValue)>, key: &str) -> (r: Option<ConfigValue>)
    ensures
        entries_view(final(entries)@) == without_entry(entries_view(old(entries)@), key@),
        match r {
            Some(value) => entry_of(entries_view(old(entries)@), key@) == Some(value.viewed()),
            None => entry_of(entries_view(old(entries)@), key@) is None,
        },
{
    let ghost before = entries_view(entries@);
    match position_of(entries, key) {
        Some(i) => {
            proof {
                assert forall|j: int| i < j < before.len() implies (#[trigger] before[j]).0
                    != key@ by {
                    assert(entries@[j].0@ != key@);
                }
                lemma_at_position(before, key@, i as int, before[i as int].1);
            }
            let entry = entries.remove(i);
            assert(entries_view(entries@) =~= before.remove(i as int));
            Some(entry.1)
        },
        None => {
            proof {
                assert forall|j: int| 0 <= j < before.len() implies (#[trigger] before[j]).0
                    != key@ by {
                    assert(entries@[j].0@ != key@);
                }
                lemma_no_position(before, key@, ConfigView::Boolean(false));
            }
            None
        },
    }
}

fn remove_keys(entries: &mut Vec<(String, ConfigValue)>, keys: &[&str])
    ensures
        entries_view(final(entries)@) == without_entries(
            entries_view(old(entries)@),
            text::strs(keys@),
        ),
{
    let ghost before = entries_view(entries@);
    let ghost all = text::strs(keys@);
    let mut i: usize = 0;
    while i < keys.len()
        invariant
            i <= keys.len(),
            all == text::strs(keys@),
            entries_view(entries@) == without_entries(before, all.subrange(0, i as int)),
        decreases keys.len() - i,
    {
        let ghost next = all.subrange(0, i + 1);
        assert(next.drop_last() == all.subrange(0, i as int));
        assert(next.last() == keys@[i as int]@);
        let _gone = take_entry(entries, keys[i]);
        i = i + 1;
    }
    assert(all.subrange(0, all.len() as int) == all);
}

fn remove_keys_of_section(root: &mut Vec<(String, ConfigValue)>, name: &str, keys: &[&str])
    ensures
        entries_view(final(root)@) == section_without(
            entries_view(old(root)@),
            name@,
            text::strs(keys@),
        ),
{
    let ghost before = entries_view(root@);
    match position_of(root, name) {
        Some(i) => {
            proof {
                assert forall|j: int| i < j < before.len() implies (#[trigger] before[j]).0
                    != name@ by {
                    assert(root@[j].0@ != name@);
                }
            }
            let entry = root.remove(i);
            let ghost section_name = entry.0@;
            let (own_name, value): (String, ConfigValue) = entry;
            match value {
                ConfigValue::Table(section) => {
                    let mut section = section;
                    let ghost was = entries_view(section@);
                    proof {
                        lemma_table_viewed(section);
                    }
                    remove_keys(&mut section, keys);
                    let ghost now = ConfigView::Table(without_entries(was, text::strs(keys@)));
                    proof {
                        lemma_table_viewed(section);
                        lemma_at_position(before, name@, i as int, now);
                    }
                    root.insert(i, (own_name, ConfigValue::Table(section)));
                    assert(entries_view(root@) =~= before.update(i as int, (name@, now)));
                },
                other => {
                    proof {
                        lemma_at_position(before, name@, i as int, other.viewed());
                    }
                    root.insert(i, (own_name, other));
                    assert(entries_view(root@) =~= before);
                },
            }
        },
        None => {
            proof {
                assert forall|j: int| 0 <= j < before.len() implies (#[trigger] before[j]).0
                    != name@ by {
                    assert(root@[j].0@ != name@);
                }
                lemma_no_position(before, name@, ConfigView::Boolean(false));
            }
        },
    }
}


impl ConfigValue {
    /// A copy of the value.
    pub fn copy(&self) -> (r: ConfigValue)
        ensures
            r.viewed() == self.viewed(),
        decreases *self,
    {
        match self {
            ConfigValue::Text(t) => ConfigValue::Text(t.clone()),
            ConfigValue::Integer(n) => ConfigValue::Integer(*n),
            ConfigValue::Boolean(b) => ConfigValue::Boolean(*b),
            ConfigValue::Other(t) => ConfigValue::Other(t.clone()),
            ConfigValue::Table(entries) => {
                let mut copied: Vec<(String, ConfigValue)> = Vec::new();
                let ghost all = entries_view(entries@);
                let mut i: usize = 0;
                while i < entries.len()
                    invariant
                        i <= entries.len(),
                        all == entries_view(entries@),
                        *self matches ConfigValue::Table(inner) && inner == *entries,
                        entries_view(copied@) == all.subrange(0, i as int),
                    decreases entries.len() - i,
                {
                    let ghost before = entries_view(copied@);
                    let value = entries[i].1.copy();
                    copied.push((entries[i].0.clone(), value));
                    assert(entries_view(copied@) =~= before.push(all[i as int]));
                    i = i + 1;
                }
                assert(all.subrange(0, all.len() as int) == all);
                proof {
                    lemma_table_viewed(*entries);
                    lemma_table_viewed(copied);
                }
                ConfigValue::Table(copied)
            },
        }
    }
}

/// A copy of the value under `key`.
fn entry_copy(entries: &Vec<(String, ConfigValue)>, key: &str) -> (r: Option<ConfigValue>)
    ensures
        match r {
            Some(value) => entry_of(entries_view(entries@), key@) == Some(value.viewed()),
            None => entry_of(entries_view(entries@), key@) is None,
        },
{
    let ghost all = entries_view(entries@);
    match position_of(entries, key) {
        Some(i) => {
            proof {
                assert forall|j: int| i < j < all.len() implies (#[trigger] all[j]).0 != key@ by {
                    assert(entries@[j].0@ != key@);
                }
                lemma_at_position(all, key@, i as int, all[i as int].1);
            }
            Some(entries[i].1.copy())
        },
        None => {
            proof {
                assert forall|j: int| 0 <= j < all.len() implies (#[trigger] all[j]).0 != key@ by {
                    assert(entries@[j].0@ != key@);
                }
                lemma_no_position(all, key@, ConfigView::Boolean(false));
            }
            None
        },
    }
}

fn legacy_dir(root: &Vec<(String, ConfigValue)>) -> (r: Option<ConfigValue>)
    ensures
        match r {
            Some(value) => legacy_output_dir(entries_view(root@)) == Some(value.viewed()),
            None => legacy_output_dir(entries_view(root@)) is None,
        },
{
    match entry_copy(root, "clip") {
        Some(ConfigValue::Table(clip)) => {
            proof {
                lemma_table_viewed(clip);
            }
            entry_copy(&clip, "output_dir")
        },
        _ => None,
    }
}

fn set_library_dir(root: &mut Vec<(String, ConfigValue)>, legacy: Option<ConfigValue>)
    ensures
        entries_view(final(root)@) == with_library_dir(
            with_library(entries_view(old(root)@)),
            match legacy {
                Some(value) => Some(value.viewed()),
                None => None,
            },
        ),
{
    let ghost start = entries_view(root@);
    match position_of(root, "library") {
        Some(i) => {
            proof {
                assert forall|j: int| i < j < start.len() implies (#[trigger] start[j]).0
                    != "library"@ by {
                    assert(root@[j].0@ != "library"@);
                }
                lemma_at_position(start, "library"@, i as int, start[i as int].1);
            }
        },
        None => {
            proof {
                assert forall|j: int| 0 <= j < start.len() implies (#[trigger] start[j]).0
                    != "library"@ by {
                    assert(root@[j].0@ != "library"@);
                }
                lemma_no_position(start, "library"@, ConfigView::Boolean(false));
            }
            let empty: Vec<(String, ConfigValue)> = Vec::new();
            proof {
                lemma_table_viewed(empty);
                assert(entries_view(empty@) =~= Seq::<(Seq<char>, ConfigView)>::empty());
            }
            root.push(("library".to_owned(), ConfigValue::Table(empty)));
            assert(entries_view(root@) =~= with_library(start));
        },
    }
    let ghost before = entries_view(root@);
    assert(before == with_library(start));
    if let Some(dir) = legacy {
        match position_of(root, "library") {
            Some(i) => {
                proof {
                    assert forall|j: int| i < j < before.len() implies (#[trigger] before[j]).0
                        != "library"@ by {
                        assert(root@[j].0@ != "library"@);
                    }
                    lemma_at_position(before, "library"@, i as int, before[i as int].1);
                }
                let (name, value): (String, ConfigValue) = root.remove(i);
                match value {
                    ConfigValue::Table(library) => {
                        let mut library = library;
                        let ghost was = entries_view(library@);
                        proof {
                            lemma_table_viewed(library);
                        }
                        let present: bool = entry_copy(&library, "output_dir").is_some();
                        if !present {
                            library.push(("output_dir".to_owned(), dir));
                            assert(entries_view(library@) =~= was.push(
                                ("output_dir"@, dir.viewed()),
                            ));
                        }
                        let ghost now = ConfigView::Table(entries_view(library@));
                        proof {
                            lemma_table_viewed(library);
                            lemma_at_position(before, "library"@, i as int, now);
                        }
                        root.insert(i, (name, ConfigValue::Table(library)));
                        assert(entries_view(root@) =~= before.update(i as int, ("library"@, now)));
                        proof {
                            if present {
                                assert(before.update(i as int, ("library"@, now)) =~= before);
                            }
                        }
                    },
                    other => {
                        root.insert(i, (name, other));
                        assert(entries_view(root@) =~= before);
                    },
                }
            },
            None => {
                proof {
                    assert forall|j: int| 0 <= j < before.len() implies (#[trigger] before[j]).0
                        != "library"@ by {
                        assert(root@[j].0@ != "library"@);
                    }
                    lemma_no_position(before, "library"@, ConfigView::Boolean(false));
                }
            },
        }
    }
}

/// The value with its tables in the present form.
pub open spec fn migrated_value(value: ConfigView) -> ConfigView {
    match value {
        ConfigView::Table(root) => ConfigView::Table(migrated(root)),
        other => other,
    }
}

/// A settings file that is no TOML.
#[derive(Clone, Copy, Debug, PartialEq, Eq, Structural)]
pub struct NotToml;

impl AppConfig {
    pub fn migrate_legacy_fields(value: &mut ConfigValue)
        ensures
            final(value).viewed() == migrated_value(old(value).viewed()),
    {
        match value {
            ConfigValue::Table(root) => {
                proof {
                    lemma_table_viewed(*root);
                }
                let ghost start = entries_view(root@);
                let legacy = legacy_dir(root);
                set_library_dir(root, legacy);
                let _gone = take_entry(root, "pending_exports");
                let backend: [&str; 1] = ["backend"];
                assert(text::strs(backend@) =~= seq!["backend"@]);
                remove_keys_of_section(root, "capture", backend.as_slice());
                let obsolete: [&str; 9] = [
                    "seconds",
                    "segment_seconds",
                    "output_dir",
                    "quality",
                    "fps",
                    "video_bitrate_kbps",
                    "source",
                    "keep_segments",
                    "export_mode",
                ];
                assert(text::strs(obsolete@) =~= obsolete_clip_keys());
                remove_keys_of_section(root, "clip", obsolete.as_slice());
                assert(entries_view(root@) == migrated(start));
                proof {
                    lemma_table_viewed(*root);
                }
            },
            _ => {},
        }
    }

    /// The settings of a file in the present form, before they are given their
    /// types.
    pub fn load(source: &str) -> (r: Result<ConfigValue, NotToml>)
        ensures
            match r {
                Ok(value) => toml_in(source@) matches Some(read) && value.viewed()
                    == migrated_value(read),
                Err(_) => toml_in(source@) is None,
            },
    {
        match parse_toml(source) {
            Some(value) => {
                let mut value = value;
                AppConfig::migrate_legacy_fields(&mut value);
                Ok(value)
            },
            None => Err(NotToml),
        }
    }
}

pub open spec fn default_toml() -> Seq<char> {
    "[clip]\npost_event_seconds = 5\nmulti_kill_window_seconds = 8\n\n[library]\noutput_dir = \"~/Videos/WarThunder Clips\"\n\n[capture]\ncapture_strategy = \"auto\"\ntarget = \"\"\nmode = \"flatpak\"\nfps = 60\nreplay_seconds = 25\ncontainer = \"mp4\"\ncodec = \"h264\"\nencoder = \"gpu\"\nquality = \"very_high\"\nbitrate_mode = \"cbr\"\nframe_rate_mode = \"cfr\"\nkeyframe_interval_seconds = 1.0\nrestart_replay_on_save = false\nvideo_bitrate_kbps = 20000\noutput_dir = \"~/Videos/WarThunder Clips/GSR\"\naudio_enabled = true\naudio_input = \"default_output\"\n\n[war_thunder]\nbase_url = \"http://127.0.0.1:8111\"\nplayer_name = \"\"\npoll_interval_ms = 300\nrequest_timeout_ms = 500\n\n[triggers]\ntarget_destroyed = true\nbase_destroyed = true\nplayer_destroyed = false\n\n[storage]\nmax_clips = 100\nmax_storage_gb = 20\n"@
}

/// A settings file that states the defaults.
pub fn default_config_toml() -> (r: &'static str)
    ensures
        r@ == default_toml(),
{
    "[clip]\npost_event_seconds = 5\nmulti_kill_window_seconds = 8\n\n[library]\noutput_dir = \"~/Videos/WarThunder Clips\"\n\n[capture]\ncapture_strategy = \"auto\"\ntarget = \"\"\nmode = \"flatpak\"\nfps = 60\nreplay_seconds = 25\ncontainer = \"mp4\"\ncodec = \"h264\"\nencoder = \"gpu\"\nquality = \"very_high\"\nbitrate_mode = \"cbr\"\nframe_rate_mode = \"cfr\"\nkeyframe_interval_seconds = 1.0\nrestart_replay_on_save = false\nvideo_bitrate_kbps = 20000\noutput_dir = \"~/Videos/WarThunder Clips/GSR\"\naudio_enabled = true\naudio_input = \"default_output\"\n\n[war_thunder]\nbase_url = \"http://127.0.0.1:8111\"\nplayer_name = \"\"\npoll_interval_ms = 300\nrequest_timeout_ms = 500\n\n[triggers]\ntarget_destroyed = true\nbase_destroyed = true\nplayer_destroyed = false\n\n[storage]\nmax_clips = 100\nmax_storage_gb = 20\n"
}

impl AppConfig {
    /// What to write to a new settings file at `file_path`; an error where one is
    /// there that must not be overwritten.
    pub fn write_default(file_path: &str, file_exists: bool, force: bool) -> (r: Result<
        &'static str,
        String,
    >)
        ensures
            match r {
                Ok(content) => (!file_exists || force) && content@ == default_toml(),
                Err(message) => file_exists && !force && message@ == "config already exists at "@ + file_path@
                    + "; pass --force to overwrite"@,
            },
    {
        if file_exists && !force {
            let mut message: String = "config already exists at ".to_owned();
            message.append(file_path);
            message.append("; pass --force to overwrite");
            Err(message)
        } else {
            Ok(default_config_toml())
        }
    }
}

proof fn lemma_entry_of_replaced(
    entries: Seq<(Seq<char>, ConfigView)>,
    key: Seq<char>,
    value: ConfigView,
    other: Seq<char>,
)
    ensures
        other != key ==> entry_of(replaced_entry(entries, key, value), other) == entry_of(
            entries,
            other,
        ),
        entry_of(entries, key) is Some ==> entry_of(replaced_entry(entries, key, value), key)
            == Some(value),
        entry_of(entries, key) is None ==> entry_of(replaced_entry(entries, key, value), key)
            is None,
    decreases entries.len(),
{
    if entries.len() > 0 {
        let after = replaced_entry(entries, key, value);
        if entries.last().0 == key {
            assert(after.drop_last() =~= entries.drop_last());
        } else {
            lemma_entry_of_replaced(entries.drop_last(), key, value, other);
            assert(after.drop_last() =~= replaced_entry(entries.drop_last(), key, value));
        }
    }
}

proof fn lemma_distinct_drop_last(entries: Seq<(Seq<char>, ConfigView)>)
    requires
        keys_distinct(entries),
        entries.len() > 0,
    ensures
        keys_distinct(entries.drop_last()),
        entry_of(entries.drop_last(), entries.last().0) is None,
{
    let t = entries.drop_last();
    assert forall|i: int, j: int| 0 <= i < j < t.len() implies (#[trigger] t[i]).0 != (
    #[trigger] t[j]).0 by {
        assert(entries[i].0 != entries[j].0);
    }
    assert forall|j: int| 0 <= j < t.len() implies (#[trigger] t[j]).0 != entries.last().0 by {
        assert(entries[j].0 != entries[entries.len() - 1].0);
    }
    lemma_no_position(t, entries.last().0, ConfigView::Boolean(false));
}

proof fn lemma_without_entry(entries: Seq<(Seq<char>, ConfigView)>, key: Seq<char>, other: Seq<char>)
    ensures
        other != key ==> entry_of(without_entry(entries, key), other) == entry_of(entries, other),
        keys_distinct(entries) ==> entry_of(without_entry(entries, key), key) is None,
    decreases entries.len(),
{
    if entries.len() > 0 {
        let after = without_entry(entries, key);
        if entries.last().0 == key {
            if keys_distinct(entries) {
                lemma_distinct_drop_last(entries);
            }
        } else {
            lemma_without_entry(entries.drop_last(), key, other);
            assert(after.drop_last() =~= without_entry(entries.drop_last(), key));
            if keys_distinct(entries) {
                lemma_distinct_drop_last(entries);
            }
        }
    }
}

proof fn lemma_without_entry_distinct(entries: Seq<(Seq<char>, ConfigView)>, key: Seq<char>)
    requires
        keys_distinct(entries),
    ensures
        keys_distinct(without_entry(entries, key)),
        forall|j: int|
            0 <= j < without_entry(entries, key).len() ==> exists|m: int|
                0 <= m < entries.len() && (#[trigger] without_entry(entries, key)[j]).0
                    == entries[m].0,
    decreases entries.len(),
{
    if entries.len() > 0 {
        let t = entries.drop_last();
        let after = without_entry(entries, key);
        lemma_distinct_drop_last(entries);
        if entries.last().0 == key {
            assert forall|j: int| 0 <= j < after.len() implies exists|m: int|
                0 <= m < entries.len() && (#[trigger] after[j]).0 == entries[m].0 by {
                assert(after[j].0 == entries[j].0);
            }
        } else {
            lemma_without_entry_distinct(t, key);
            let inner = without_entry(t, key);
            assert forall|i: int, j: int| 0 <= i < j < after.len() implies (
            #[trigger] after[i]).0 != (#[trigger] after[j]).0 by {
                if j == inner.len() {
                    assert(after[i] == inner[i]);
                    let m = choose|m: int| 0 <= m < t.len() && inner[i].0 == t[m].0;
                    assert(entries[m].0 != entries[entries.len() - 1].0);
                } else {
                    assert(inner[i].0 != inner[j].0);
                }
            }
            assert forall|j: int| 0 <= j < after.len() implies exists|m: int|
                0 <= m < entries.len() && (#[trigger] after[j]).0 == entries[m].0 by {
                if j == inner.len() {
                    assert(after[j].0 == entries[entries.len() - 1].0);
                } else {
                    assert(after[j] == inner[j]);
                    let m = choose|m: int| 0 <= m < t.len() && inner[j].0 == t[m].0;
                    assert(entries[m].0 == t[m].0);
                }
            }
        }
    }
}

proof fn lemma_without_entries(
    entries: Seq<(Seq<char>, ConfigView)>,
    keys: Seq<Seq<char>>,
    other: Seq<char>,
)
    requires
        keys_distinct(entries),
    ensures
        keys_distinct(without_entries(entries, keys)),
        keys.contains(other) ==> entry_of(without_entries(entries, keys), other) is None,
        !keys.contains(other) ==> entry_of(without_entries(entries, keys), other) == entry_of(
            entries,
            other,
        ),
    decreases keys.len(),
{
    if keys.len() > 0 {
        lemma_without_entries(entries, keys.drop_last(), other);
        let before = without_entries(entries, keys.drop_last());
        lemma_without_entry_distinct(before, keys.last());
        lemma_without_entry(before, keys.last(), other);
        lemma_without_entry(before, other, keys.last());
        if keys.contains(other) {
            let k = choose|k: int| 0 <= k < keys.len() && keys[k] == other;
            if k < keys.len() - 1 {
                assert(keys.drop_last()[k] == other);
                assert(keys.drop_last().contains(other));
            }
        } else {
            assert(keys[keys.len() - 1] == keys.last());
            if keys.drop_last().contains(other) {
                let k = choose|k: int| 0 <= k < keys.drop_last().len() && keys.drop_last()[k] == other;
                assert(keys[k] == other);
            }
        }
    }
}

/// The tables of the settings name no key twice, as TOML has it.
pub open spec fn well_keyed(root: Seq<(Seq<char>, ConfigView)>) -> bool {
    &&& keys_distinct(root)
    &&& entry_of(root, "clip"@) matches Some(ConfigView::Table(clip)) ==> keys_distinct(clip)
    &&& entry_of(root, "capture"@) matches Some(ConfigView::Table(capture)) ==> keys_distinct(
        capture,
    )
    &&& entry_of(root, "library"@) matches Some(ConfigView::Table(library)) ==> keys_distinct(
        library,
    )
}

/// The value under `key` in the section `name`.
pub open spec fn setting(
    root: Seq<(Seq<char>, ConfigView)>,
    name: Seq<char>,
    key: Seq<char>,
) -> Option<ConfigView> {
    match entry_of(root, name) {
        Some(ConfigView::Table(section)) => entry_of(section, key),
        _ => None,
    }
}

proof fn lemma_section_names_differ()
    ensures
        "clip"@ != "library"@,
        "clip"@ != "capture"@,
        "clip"@ != "pending_exports"@,
        "library"@ != "capture"@,
        "library"@ != "pending_exports"@,
        "capture"@ != "pending_exports"@,
{
    reveal_strlit("clip");
    reveal_strlit("library");
    reveal_strlit("capture");
    reveal_strlit("pending_exports");
    assert("clip"@.len() == 4);
    assert("library"@.len() == 7);
    assert("capture"@.len() == 7);
    assert("library"@[0] == 'l');
    assert("capture"@[0] == 'c');
    assert("pending_exports"@.len() == 15);
}

proof fn lemma_distinct_replaced(
    entries: Seq<(Seq<char>, ConfigView)>,
    key: Seq<char>,
    value: ConfigView,
)
    requires
        keys_distinct(entries),
    ensures
        keys_distinct(replaced_entry(entries, key, value)),
        replaced_entry(entries, key, value).len() == entries.len(),
        forall|j: int|
            0 <= j < entries.len() ==> (#[trigger] replaced_entry(entries, key, value)[j]).0
                == entries[j].0,
    decreases entries.len(),
{
    if entries.len() > 0 {
        let after = replaced_entry(entries, key, value);
        lemma_distinct_drop_last(entries);
        if entries.last().0 != key {
            lemma_distinct_replaced(entries.drop_last(), key, value);
        }
        assert forall|j: int| 0 <= j < entries.len() implies (#[trigger] after[j]).0
            == entries[j].0 by {
            if entries.last().0 != key && j < entries.len() - 1 {
                assert(after[j] == replaced_entry(entries.drop_last(), key, value)[j]);
            }
        }
        assert forall|i: int, j: int| 0 <= i < j < after.len() implies (#[trigger] after[i]).0 != (
        #[trigger] after[j]).0 by {
            assert(entries[i].0 != entries[j].0);
        }
    }
}

/// What a migration does to settings: sections and keys that are no longer used
/// are gone; the old output directory is the library's where the library had
/// none of its own, and a directory that the library had stays; every other
/// setting of the clip section stays.
pub proof fn lemma_migration(root: Seq<(Seq<char>, ConfigView)>, key: Seq<char>)
    requires
        well_keyed(root),
    ensures
        entry_of(migrated(root), "library"@) is Some,
        entry_of(migrated(root), "pending_exports"@) is None,
        setting(migrated(root), "capture"@, "backend"@) is None,
        obsolete_clip_keys().contains(key) ==> setting(migrated(root), "clip"@, key) is None,
        !obsolete_clip_keys().contains(key) ==> setting(migrated(root), "clip"@, key) == setting(
            root,
            "clip"@,
            key,
        ),
        setting(root, "library"@, "output_dir"@) is Some ==> setting(
            migrated(root),
            "library"@,
            "output_dir"@,
        ) == setting(root, "library"@, "output_dir"@),
        entry_of(root, "library"@) is None || (entry_of(root, "library"@) matches Some(
            ConfigView::Table(library),
        ) && entry_of(library, "output_dir"@) is None) ==> setting(
            migrated(root),
            "library"@,
            "output_dir"@,
        ) == legacy_output_dir(root),
{
    lemma_section_names_differ();
    let a = with_library(root);
    let legacy = legacy_output_dir(root);
    // the sections of `a`
    if entry_of(root, "library"@) is None {
        assert(a.drop_last() =~= root);
        assert(a.last() == ("library"@, ConfigView::Table(seq![])));
        assert(entry_of(a, "library"@) == Some(ConfigView::Table(seq![])));
        assert(entry_of(a, "clip"@) == entry_of(root, "clip"@));
        assert(entry_of(a, "capture"@) == entry_of(root, "capture"@));
        assert forall|i: int, j: int| 0 <= i < j < a.len() implies (#[trigger] a[i]).0 != (
        #[trigger] a[j]).0 by {
            if j == root.len() {
                lemma_absent(root, "library"@, i);
            } else {
                assert(root[i].0 != root[j].0);
            }
        }
    }
    assert(keys_distinct(a));
    let b = with_library_dir(a, legacy);
    if let (Some(dir), Some(ConfigView::Table(library))) = (legacy, entry_of(a, "library"@)) {
        let now = ConfigView::Table(library.push(("output_dir"@, dir)));
        lemma_entry_of_replaced(a, "library"@, now, "clip"@);
        lemma_entry_of_replaced(a, "library"@, now, "capture"@);
        lemma_distinct_replaced(a, "library"@, now);
        assert(library.push(("output_dir"@, dir)).drop_last() =~= library);
    }
    assert(keys_distinct(b));
    let c = without_entry(b, "pending_exports"@);
    lemma_without_entry(b, "pending_exports"@, "clip"@);
    lemma_without_entry(b, "pending_exports"@, "capture"@);
    lemma_without_entry(b, "pending_exports"@, "library"@);
    let d = section_without(c, "capture"@, seq!["backend"@]);
    if let Some(ConfigView::Table(capture)) = entry_of(c, "capture"@) {
        let now = ConfigView::Table(without_entries(capture, seq!["backend"@]));
        lemma_without_entries(capture, seq!["backend"@], "backend"@);
        assert(seq!["backend"@].contains("backend"@)) by {
            assert(seq!["backend"@][0] == "backend"@);
        }
        lemma_entry_of_replaced(c, "capture"@, now, "clip"@);
        lemma_entry_of_replaced(c, "capture"@, now, "library"@);
        lemma_entry_of_replaced(c, "capture"@, now, "pending_exports"@);
    }
    if let Some(ConfigView::Table(clip)) = entry_of(d, "clip"@) {
        let now = ConfigView::Table(without_entries(clip, obsolete_clip_keys()));
        lemma_without_entries(clip, obsolete_clip_keys(), key);
        lemma_entry_of_replaced(d, "clip"@, now, "capture"@);
        lemma_entry_of_replaced(d, "clip"@, now, "library"@);
        lemma_entry_of_replaced(d, "clip"@, now, "pending_exports"@);
    }
}

proof fn lemma_absent(entries: Seq<(Seq<char>, ConfigView)>, key: Seq<char>, i: int)
    requires
        entry_of(entries, key) is None,
        0 <= i < entries.len(),
    ensures
        entries[i].0 != key,
    decreases entries.len(),
{
    if i < entries.len() - 1 {
        lemma_absent(entries.drop_last(), key, i);
    }
}

proof fn lemma_replaced_by_itself(entries: Seq<(Seq<char>, ConfigView)>, key: Seq<char>)
    requires
        entry_of(entries, key) is Some,
    ensures
        replaced_entry(entries, key, entry_of(entries, key)->0) == entries,
    decreases entries.len(),
{
    if entries.last().0 == key {
        assert(entries.drop_last().push((key, entries.last().1)) =~= entries);
    } else {
        lemma_replaced_by_itself(entries.drop_last(), key);
        assert(entries.drop_last().push(entries.last()) =~= entries);
    }
}

proof fn lemma_without_absent(entries: Seq<(Seq<char>, ConfigView)>, key: Seq<char>)
    requires
        entry_of(entries, key) is None,
    ensures
        without_entry(entries, key) == entries,
    decreases entries.len(),
{
    if entries.len() > 0 {
        lemma_without_absent(entries.drop_last(), key);
        assert(entries.drop_last().push(entries.last()) =~= entries);
    }
}

proof fn lemma_without_absent_keys(entries: Seq<(Seq<char>, ConfigView)>, keys: Seq<Seq<char>>)
    requires
        forall|i: int| 0 <= i < keys.len() ==> entry_of(entries, #[trigger] keys[i]) is None,
    ensures
        without_entries(entries, keys) == entries,
    decreases keys.len(),
{
    if keys.len() > 0 {
        assert forall|i: int| 0 <= i < keys.drop_last().len() implies entry_of(
            entries,
            #[trigger] keys.drop_last()[i],
        ) is None by {
            assert(keys[i] == keys.drop_last()[i]);
        }
        lemma_without_absent_keys(entries, keys.drop_last());
        assert(entry_of(entries, keys[keys.len() - 1]) is None);
        lemma_without_absent(entries, keys.last());
    }
}

/// Settings that hold nothing of older forms, and have a library section.
pub open spec fn is_present_form(root: Seq<(Seq<char>, ConfigView)>) -> bool {
    &&& entry_of(root, "library"@) is Some
    &&& entry_of(root, "pending_exports"@) is None
    &&& setting(root, "capture"@, "backend"@) is None
    &&& forall|i: int|
        0 <= i < obsolete_clip_keys().len() ==> setting(
            root,
            "clip"@,
            #[trigger] obsolete_clip_keys()[i],
        ) is None
}

/// Settings in the present form stay as they are.
pub proof fn lemma_present_settings_stay(root: Seq<(Seq<char>, ConfigView)>)
    requires
        is_present_form(root),
    ensures
        migrated(root) == root,
{
    let obsolete = obsolete_clip_keys();
    assert(obsolete[2] == "output_dir"@);
    assert(legacy_output_dir(root) is None);
    lemma_without_absent(root, "pending_exports"@);
    if let Some(ConfigView::Table(capture)) = entry_of(root, "capture"@) {
        let backend = seq!["backend"@];
        assert forall|i: int| 0 <= i < backend.len() implies entry_of(
            capture,
            #[trigger] backend[i],
        ) is None by {}
        lemma_without_absent_keys(capture, backend);
        lemma_replaced_by_itself(root, "capture"@);
    }
    if let Some(ConfigView::Table(clip)) = entry_of(root, "clip"@) {
        assert forall|i: int| 0 <= i < obsolete.len() implies entry_of(
            clip,
            #[trigger] obsolete[i],
        ) is None by {
            assert(setting(root, "clip"@, obsolete[i]) is None);
        }
        lemma_without_absent_keys(clip, obsolete);
        lemma_replaced_by_itself(root, "clip"@);
    }
}

/// A migration leaves nothing for a second one.
pub proof fn lemma_migration_is_final(root: Seq<(Seq<char>, ConfigView)>)
    requires
        well_keyed(root),
    ensures
        is_present_form(migrated(root)),
        migrated(migrated(root)) == migrated(root),
{
    let obsolete = obsolete_clip_keys();
    lemma_migration(root, "output_dir"@);
    assert forall|i: int| 0 <= i < obsolete.len() implies setting(
        migrated(root),
        "clip"@,
        #[trigger] obsolete[i],
    ) is None by {
        lemma_migration(root, obsolete[i]);
    }
    lemma_present_settings_stay(migrated(root));
}

/// Settings that state the defaults, as a new settings file does, with a player
/// name that is blank or missing, are completed to the defaults: only the two
/// directories then lie below the home directory, and there is no player name.
/// Without a home directory nothing is completed.
pub proof fn lemma_stated_defaults_are_the_defaults(
    stated: AppConfig,
    home: Option<Seq<char>>,
    r: Result<AppConfig, HomeNotSet>,
)
    requires
        stated.war_thunder.player_name matches Some(name) ==> text::trim_of(name@).len() == 0,
        (AppConfig {
            war_thunder: WarThunderConfig { player_name: None, ..stated.war_thunder },
            ..stated
        }).is_default(),
        stated.completes(home, r),
    ensures
        match home {
            Some(dir) => r matches Ok(done) && done.is_default_in(
                path::joined_path(dir, "Videos/WarThunder Clips"@),
                path::joined_path(dir, "Videos/WarThunder Clips/GSR"@),
            ),
            None => r is Err,
        },
{
    reveal_strlit("~");
    reveal_strlit("~/");
    reveal_strlit("~/Videos/WarThunder Clips");
    reveal_strlit("~/Videos/WarThunder Clips/GSR");
    reveal_strlit("Videos/WarThunder Clips");
    reveal_strlit("Videos/WarThunder Clips/GSR");
    let library = "~/Videos/WarThunder Clips"@;
    let capture = "~/Videos/WarThunder Clips/GSR"@;
    assert(library.len() == 25);
    assert(capture.len() == 29);
    assert(library.subrange(0, 2) =~= "~/"@);
    assert(capture.subrange(0, 2) =~= "~/"@);
    assert(library.subrange(2, 25) =~= "Videos/WarThunder Clips"@);
    assert(capture.subrange(2, 29) =~= "Videos/WarThunder Clips/GSR"@);
}

/// A path below the tilde lies below the home directory, and any other path stays
/// as it is, whatever the home directory.
pub proof fn lemma_tilde_is_the_home_directory(p: Seq<char>, home: Seq<char>)
    ensures
        tilde_expanded("~"@, Some(home)) == Some(home),
        tilde_expanded("~"@, None) is None,
        p.len() > 0 && p[0] != '/' ==> ({
            let expanded = tilde_expanded("~/"@ + p, Some(home));
            &&& expanded is Some
            &&& text::has_prefix(expanded->0, home)
            &&& text::has_suffix(expanded->0, p)
            &&& expanded->0.len() <= home.len() + 1 + p.len()
        }),
        tilde_expanded("~/"@ + p, None) is None,
        p.len() == 0 || p[0] != '~' ==> tilde_expanded(p, None) == Some(p) && tilde_expanded(
            p,
            Some(home),
        ) == Some(p),
{
    reveal_strlit("~");
    reveal_strlit("~/");
    let whole = "~/"@ + p;
    assert(whole.len() >= 2);
    assert(whole.subrange(0, 2) =~= "~/"@);
    assert(whole.subrange(2, whole.len() as int) =~= p);
    if p.len() > 0 && p[0] != '/' {
        let e = tilde_expanded(whole, Some(home))->0;
        assert(e.subrange(0, home.len() as int) =~= home);
        assert(e.subrange(e.len() - p.len(), e.len() as int) =~= p);
    }
    if p.len() == 0 || p[0] != '~' {
        if text::has_prefix(p, "~/"@) {
            assert(p.subrange(0, 2)[0] == '~');
        }
    }
}

/// Settings that were loaded can be used: a constant bit rate is never zero, and a
/// player has a name that is not blank. What the file says of anything else stays.
pub proof fn lemma_loaded_settings_can_be_used(
    config: AppConfig,
    home: Option<Seq<char>>,
    done: AppConfig,
)
    requires
        config.completes(home, Ok(done)),
    ensures
        done.capture.bitrate_mode is Cbr ==> done.capture.video_bitrate_kbps > 0,
        config.capture.video_bitrate_kbps > 0 ==> done.capture.video_bitrate_kbps
            == config.capture.video_bitrate_kbps,
        config.capture.bitrate_mode is Cbr && config.capture.video_bitrate_kbps == 0
            ==> done.capture.video_bitrate_kbps == 20_000,
        done.war_thunder.player_name matches Some(name) ==> text::trim_of(name@).len() > 0,
        config.war_thunder.player_name matches Some(name) ==> (text::trim_of(name@).len() > 0
            ==> done.war_thunder.player_name == Some(name)),
        done.clip == config.clip,
        done.triggers == config.triggers,
        done.storage == config.storage,
        done.war_thunder.base_url == config.war_thunder.base_url,
        done.war_thunder.poll_interval_ms == config.war_thunder.poll_interval_ms,
        done.war_thunder.request_timeout_ms == config.war_thunder.request_timeout_ms,
        done.capture.capture_strategy == config.capture.capture_strategy,
        done.capture.target == config.capture.target,
        done.capture.gpu_screen_recorder_mode == config.capture.gpu_screen_recorder_mode,
        done.capture.fps == config.capture.fps,
        done.capture.replay_seconds == config.capture.replay_seconds,
        done.capture.container == config.capture.container,
        done.capture.codec == config.capture.codec,
        done.capture.encoder == config.capture.encoder,
        done.capture.quality == config.capture.quality,
        done.capture.bitrate_mode == config.capture.bitrate_mode,
        done.capture.frame_rate_mode == config.capture.frame_rate_mode,
        done.capture.keyframe_interval_seconds == config.capture.keyframe_interval_seconds,
        done.capture.restart_replay_on_save == config.capture.restart_replay_on_save,
        done.capture.audio_enabled == config.capture.audio_enabled,
        done.capture.audio_input == config.capture.audio_input,
{
}

/// Settings whose directories need no home directory, with a player's name that is
/// not blank and a bit rate, stay as they are.
pub proof fn lemma_complete_settings_stay(
    config: AppConfig,
    home: Option<Seq<char>>,
    r: Result<AppConfig, HomeNotSet>,
)
    requires
        config.completes(home, r),
        config.library.output_dir@.len() > 0 && config.library.output_dir@[0] == '/',
        config.capture.output_dir@.len() > 0 && config.capture.output_dir@[0] == '/',
    ensures
        r matches Ok(done) && done.library.output_dir@ == config.library.output_dir@
            && done.capture.output_dir@ == config.capture.output_dir@,
{
    lemma_tilde_is_the_home_directory(config.library.output_dir@, Seq::empty());
    lemma_tilde_is_the_home_directory(config.capture.output_dir@, Seq::empty());
    if let Some(dir) = home {
        lemma_tilde_is_the_home_directory(config.library.output_dir@, dir);
        lemma_tilde_is_the_home_directory(config.capture.output_dir@, dir);
    }
}

/// A migration removes what is named here from the clip section, and nothing else
/// but the recorder's name and the pending exports: every other section and setting
/// stays as it is.
pub proof fn lemma_migration_keeps_all_else(
    root: Seq<(Seq<char>, ConfigView)>,
    name: Seq<char>,
    key: Seq<char>,
)
    requires
        well_keyed(root),
    ensures
        name != "library"@ && name != "clip"@ && name != "capture"@ && name != "pending_exports"@
            ==> entry_of(migrated(root), name) == entry_of(root, name),
        key != "backend"@ ==> setting(migrated(root), "capture"@, key) == setting(
            root,
            "capture"@,
            key,
        ),
        key != "seconds"@ && key != "segment_seconds"@ && key != "output_dir"@ && key != "quality"@
            && key != "fps"@ && key != "video_bitrate_kbps"@ && key != "source"@ && key
            != "keep_segments"@ && key != "export_mode"@ ==> setting(migrated(root), "clip"@, key)
            == setting(root, "clip"@, key),
        key == "seconds"@ || key == "segment_seconds"@ || key == "output_dir"@ || key == "quality"@
            || key == "fps"@ || key == "video_bitrate_kbps"@ || key == "source"@ || key
            == "keep_segments"@ || key == "export_mode"@ ==> setting(
            migrated(root),
            "clip"@,
            key,
        ) is None,
        key != "output_dir"@ ==> setting(migrated(root), "library"@, key) == setting(
            root,
            "library"@,
            key,
        ),
{
    lemma_migration(root, key);
    lemma_section_names_differ();
    let obsolete = obsolete_clip_keys();
    assert(obsolete[0] == "seconds"@);
    assert(obsolete[1] == "segment_seconds"@);
    assert(obsolete[2] == "output_dir"@);
    assert(obsolete[3] == "quality"@);
    assert(obsolete[4] == "fps"@);
    assert(obsolete[5] == "video_bitrate_kbps"@);
    assert(obsolete[6] == "source"@);
    assert(obsolete[7] == "keep_segments"@);
    assert(obsolete[8] == "export_mode"@);
    let a = with_library(root);
    let legacy = legacy_output_dir(root);
    if entry_of(root, "library"@) is None {
        assert(a.drop_last() =~= root);
        assert(a.last() == ("library"@, ConfigView::Table(seq![])));
        assert(entry_of(Seq::<(Seq<char>, ConfigView)>::empty(), key) is None);
    }
    let b = with_library_dir(a, legacy);
    if let (Some(dir), Some(ConfigView::Table(library))) = (legacy, entry_of(a, "library"@)) {
        let now = ConfigView::Table(library.push(("output_dir"@, dir)));
        lemma_entry_of_replaced(a, "library"@, now, name);
        lemma_entry_of_replaced(a, "library"@, now, "capture"@);
        assert(library.push(("output_dir"@, dir)).drop_last() =~= library);
    }
    let c = without_entry(b, "pending_exports"@);
    lemma_without_entry(b, "pending_exports"@, name);
    lemma_without_entry(b, "pending_exports"@, "capture"@);
    lemma_without_entry(b, "pending_exports"@, "library"@);
    let d = section_without(c, "capture"@, seq!["backend"@]);
    if let Some(ConfigView::Table(capture)) = entry_of(c, "capture"@) {
        let now = ConfigView::Table(without_entries(capture, seq!["backend"@]));
        lemma_without_entries(capture, seq!["backend"@], key);
        if seq!["backend"@].contains(key) {
            assert(key == "backend"@);
        }
        lemma_entry_of_replaced(c, "capture"@, now, name);
        lemma_entry_of_replaced(c, "capture"@, now, "library"@);
    }
    if let Some(ConfigView::Table(clip)) = entry_of(d, "clip"@) {
        let now = ConfigView::Table(without_entries(clip, obsolete));
        lemma_entry_of_replaced(d, "clip"@, now, name);
        lemma_entry_of_replaced(d, "clip"@, now, "capture"@);
        lemma_entry_of_replaced(d, "clip"@, now, "library"@);
    }
}

}
