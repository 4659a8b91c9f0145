//! The replay buffer: the pipeline that keeps the last seconds in segments, and
//! what is saved of them.

use vstd::prelude::*;
use vstd::string::*;
use crate::capture::audio;
use crate::capture::output;
use crate::capture::output::OutputError;
use crate::capture::quality::VideoQuality;
use crate::capture::recorder;
use crate::capture::recorder::{BusMessage, PipelineSource};
use crate::capture::segments;
use crate::capture::segments::ReplaySegment;
use crate::cli::CaptureSource;
use crate::path;
use crate::text;
use crate::time::Duration;

verus! {

#[derive(Debug)]
pub struct ReplayBufferConfig {
    pub buffer_seconds: u64,
    pub segment_seconds: u64,
    pub output_dir: Option<String>,
    pub source: CaptureSource,
    pub keep_segments: bool,
    pub quality: VideoQuality,
}

#[derive(Debug)]
pub struct SavedReplay {
    pub final_video_path: Option<String>,
    pub segments_dir: Option<String>,
}

/// Why a replay is saved.
#[derive(Clone, Copy, Debug, PartialEq, Eq, Structural)]
pub enum ClipReason {
    TargetDestroyed,
    PlayerDestroyed,
    MultiKill,
    Manual,
    Unknown,
}

impl ClipReason {
    pub open spec fn slug_text(self) -> Seq<char> {
        match self {
            ClipReason::TargetDestroyed => "target-destroyed"@,
            ClipReason::PlayerDestroyed => "player-destroyed"@,
            ClipReason::MultiKill => "multi-kill"@,
            ClipReason::Manual => "manual"@,
            ClipReason::Unknown => "unknown"@,
        }
    }

    /// The reason as part of a name.
    pub fn slug(self) -> (r: &'static str)
        ensures
            r@ == self.slug_text(),
    {
        match self {
            ClipReason::TargetDestroyed => "target-destroyed",
            ClipReason::PlayerDestroyed => "player-destroyed",
            ClipReason::MultiKill => "multi-kill",
            ClipReason::Manual => "manual",
            ClipReason::Unknown => "unknown",
        }
    }
}

/// Why the buffer does not start.
#[derive(Clone, Copy, Debug, PartialEq, Eq, Structural)]
pub enum BufferError {
    NoBufferSeconds,
    NoSegmentSeconds,
    WindowNotSupported,
}

impl BufferError {
    pub open spec fn text_of(self) -> Seq<char> {
        match self {
            BufferError::NoBufferSeconds => "buffer seconds must be greater than zero"@,
            BufferError::NoSegmentSeconds => "segment seconds must be greater than zero"@,
            BufferError::WindowNotSupported =>
                "--source window is only supported through the Wayland portal for now"@,
        }
    }

    pub fn message(self) -> (r: &'static str)
        ensures
            r@ == self.text_of(),
    {
        match self {
            BufferError::NoBufferSeconds => "buffer seconds must be greater than zero",
            BufferError::NoSegmentSeconds => "segment seconds must be greater than zero",
            BufferError::WindowNotSupported =>
                "--source window is only supported through the Wayland portal for now",
        }
    }
}

/// The elements that capture the picture for the buffer; none for an X11
/// window.
pub open spec fn buffer_source(
    source: PipelineSource,
    capture_source: CaptureSource,
) -> Option<Seq<char>> {
    match source {
        PipelineSource::X11 { .. } => if capture_source is Window {
            None
        } else {
            Some("ximagesrc use-damage=0 show-pointer=true"@)
        },
        PipelineSource::PipeWirePath(path) => Some(
            recorder::pipewire_path_chain(text::replaced(path@, '"', "\\\""@)),
        ),
        PipelineSource::PipeWireTarget(target) => Some(
            recorder::pipewire_target_chain(text::replaced(target@, '"', "\\\""@)),
        ),
        PipelineSource::PipeWirePortal { fd, node_id } => Some(recorder::portal_chain(fd, node_id)),
    }
}

/// The pipeline that writes the picture into segments of a given length and
/// keeps the last ones.
pub open spec fn buffer_pipeline(
    source: Seq<char>,
    location_pattern: Seq<char>,
    segment_nanos: nat,
    keep: nat,
    quality: VideoQuality,
) -> Seq<char> {
    source + " ! videoconvert ! videorate ! "@ + quality.raw_caps() + " ! queue ! "@
        + quality.vp8enc()
        + " ! splitmuxsink async-finalize=true muxer-factory=webmmux max-size-time="@
        + text::decimal(segment_nanos) + " max-files="@ + text::decimal(keep)
        + " send-keyframe-requests=true location=\""@ + audio::quoted_in_pipeline(location_pattern)
        + "\""@
}

pub fn buffer_pipeline_description(
    source: PipelineSource,
    capture_source: CaptureSource,
    location_pattern: &str,
    segment_duration: Duration,
    keep_segments: usize,
    quality: VideoQuality,
) -> (r: Result<String, BufferError>)
    ensures
        match buffer_source(source, capture_source) {
            Some(chain) => r matches Ok(pipeline) && pipeline@ == buffer_pipeline(
                chain,
                location_pattern@,
                segment_duration.nanos as nat,
                keep_segments as nat,
                quality,
            ),
            None => r == Err::<String, BufferError>(BufferError::WindowNotSupported),
        },
{
    let mut pipeline: String = match source {
        PipelineSource::X11 { .. } => {
            if capture_source == CaptureSource::Window {
                return Err(BufferError::WindowNotSupported);
            }
            "ximagesrc use-damage=0 show-pointer=true".to_owned()
        },
        PipelineSource::PipeWirePath(path) => recorder::pipewire_path_elements(
            text::replace_char(path.as_str(), '"', "\\\"").as_str(),
        ),
        PipelineSource::PipeWireTarget(target) => recorder::pipewire_target_elements(
            text::replace_char(target.as_str(), '"', "\\\"").as_str(),
        ),
        PipelineSource::PipeWirePortal { fd, node_id } => recorder::portal_elements(fd, node_id),
    };
    pipeline.append(" ! videoconvert ! videorate ! ");
    pipeline.append(quality.raw_video_caps().as_str());
    pipeline.append(" ! queue ! ");
    pipeline.append(quality.vp8enc_settings().as_str());
    pipeline.append(
        " ! splitmuxsink async-finalize=true muxer-factory=webmmux max-size-time=",
    );
    pipeline.append(text::decimal_text(segment_duration.nanos).as_str());
    pipeline.append(" max-files=");
    pipeline.append(text::decimal_text(keep_segments as u128).as_str());
    pipeline.append(" send-keyframe-requests=true location=\"");
    pipeline.append(recorder::encode_location(location_pattern).as_str());
    pipeline.append("\"");
    Ok(pipeline)
}

/// What the buffer runs with.
#[derive(Debug)]
pub struct BufferPlan {
    pub keep_segments: usize,
    pub pipeline: String,
}

/// The settings name a length of the buffer and of its segments.
pub fn check_buffer_config(config: &ReplayBufferConfig) -> (r: Result<(), BufferError>)
    ensures
        r == (if config.buffer_seconds == 0 {
            Err(BufferError::NoBufferSeconds)
        } else if config.segment_seconds == 0 {
            Err(BufferError::NoSegmentSeconds)
        } else {
            Ok::<(), BufferError>(())
        }),
{
    if config.buffer_seconds == 0 {
        Err(BufferError::NoBufferSeconds)
    } else if config.segment_seconds == 0 {
        Err(BufferError::NoSegmentSeconds)
    } else {
        Ok(())
    }
}

/// What the buffer runs with, given where the picture comes from and the
/// directory of its segments.
pub fn start_buffer(
    config: &ReplayBufferConfig,
    source: PipelineSource,
    temp_dir: &str,
) -> (r: Result<BufferPlan, BufferError>)
    requires
        segments::kept_count(config.buffer_seconds as int, config.segment_seconds as int)
            <= usize::MAX,
    ensures
        match r {
            Ok(plan) => {
                &&& config.buffer_seconds > 0
                &&& config.segment_seconds > 0
                &&& buffer_source(source, config.source) is Some
                &&& plan.keep_segments == segments::kept_count(
                    config.buffer_seconds as int,
                    config.segment_seconds as int,
                )
                &&& plan.pipeline@ == buffer_pipeline(
                    buffer_source(source, config.source)->0,
                    path::joined_path(temp_dir@, "segment-%06d.webm"@),
                    (config.segment_seconds * 1_000_000_000) as nat,
                    plan.keep_segments as nat,
                    config.quality,
                )
            },
            Err(BufferError::NoBufferSeconds) => config.buffer_seconds == 0,
            Err(BufferError::NoSegmentSeconds) => config.buffer_seconds > 0
                && config.segment_seconds == 0,
            Err(BufferError::WindowNotSupported) => config.buffer_seconds > 0
                && config.segment_seconds > 0 && buffer_source(source, config.source) is None,
        },
{
    match check_buffer_config(config) {
        Ok(()) => {},
        Err(error) => {
            return Err(error);
        },
    }
    let keep_segments: usize = segments::segments_to_keep(
        config.buffer_seconds,
        config.segment_seconds,
    );
    match buffer_pipeline_description(
        source,
        config.source,
        segments::segment_location_pattern(temp_dir).as_str(),
        Duration::from_secs(config.segment_seconds),
        keep_segments,
        config.quality,
    ) {
        Ok(pipeline) => Ok(BufferPlan { keep_segments, pipeline }),
        Err(error) => Err(error),
    }
}

/// A segment and where it is copied to.
#[derive(Debug)]
pub struct SegmentCopy {
    pub from: String,
    pub to: String,
}

/// The segments keep their order in the clip's directory and are numbered from
/// zero.
pub open spec fn copies_of(
    segments: Seq<ReplaySegment>,
    clip_dir: Seq<char>,
    copies: Seq<SegmentCopy>,
) -> bool {
    &&& copies.len() == segments.len()
    &&& forall|i: int|
        0 <= i < copies.len() ==> (#[trigger] copies[i]).from@ == segments[i].path@
            && copies[i].to@ == path::joined_path(clip_dir, segments::segment_name(i as nat))
}

pub fn copy_segments(segments: &Vec<ReplaySegment>, clip_dir: &str) -> (r: Vec<SegmentCopy>)
    ensures
        copies_of(segments@, clip_dir@, r@),
{
    let mut copies: Vec<SegmentCopy> = Vec::new();
    let mut i: usize = 0;
    while i < segments.len()
        invariant
            i <= segments.len(),
            copies_of(segments@.subrange(0, i as int), clip_dir@, copies@),
        decreases segments.len() - i,
    {
        let to = path::join_path(clip_dir, segments::segment_file_name(i as u64).as_str());
        copies.push(SegmentCopy { from: segments[i].path.clone(), to });
        i = i + 1;
    }
    assert(segments@.subrange(0, segments@.len() as int) == segments@);
    copies
}

/// The paths that end in `.webm`.
pub open spec fn webm_paths(paths: Seq<Seq<char>>) -> Seq<Seq<char>>
    decreases paths.len(),
{
    if paths.len() == 0 {
        seq![]
    } else if path::extension_of(paths.last()) == Some("webm"@) {
        webm_paths(paths.drop_last()).push(paths.last())
    } else {
        webm_paths(paths.drop_last())
    }
}

/// The segments among the entries of a clip's directory, in order.
pub fn copied_segment_paths(entries: &Vec<String>) -> (r: Vec<String>)
    ensures
        text::texts(r@) == text::ordered_once(webm_paths(text::texts(entries@))),
{
    let ghost all = text::texts(entries@);
    let mut paths: Vec<String> = Vec::new();
    let mut i: usize = 0;
    assert(text::texts(paths@) =~= webm_paths(all.subrange(0, 0)));
    while i < entries.len()
        invariant
            i <= entries.len(),
            all == text::texts(entries@),
            text::texts(paths@) == webm_paths(all.subrange(0, i as int)),
        decreases entries.len() - i,
    {
        let ghost next = all.subrange(0, i + 1);
        assert(next.drop_last() == all.subrange(0, i as int));
        assert(next.last() == entries@[i as int]@);
        let ghost before = text::texts(paths@);
        let is_webm: bool = match path::extension(entries[i].as_str()) {
            Some(ext) => text::same(ext.as_str(), "webm"),
            None => false,
        };
        if is_webm {
            paths.push(entries[i].clone());
            assert(text::texts(paths@) =~= before.push(entries@[i as int]@));
        }
        i = i + 1;
    }
    assert(all.subrange(0, all.len() as int) == all);
    text::sort_and_dedup(&paths)
}

/// Where the video of a clip goes: beside its directory, under a name that is
/// not taken.
pub fn final_video_path(segment_dir: &str, taken: &Vec<String>) -> (r: Result<String, OutputError>)
    ensures
        output::is_unique_choice(
            path::with_extension_of(segment_dir@, "webm"@),
            text::texts(taken@),
            r,
        ),
{
    output::ensure_unique_path(path::with_extension(segment_dir, "webm"), taken)
}

/// What a saved replay consists of: the video, and the directory of its segments
/// where they are kept.
pub fn saved_replay(video: String, segment_dir: String, keep_segments: bool) -> (r: SavedReplay)
    ensures
        r.final_video_path == Some(video),
        r.segments_dir == (if keep_segments {
            Some(segment_dir)
        } else {
            None
        }),
{
    SavedReplay {
        final_video_path: Some(video),
        segments_dir: if keep_segments {
            Some(segment_dir)
        } else {
            None
        },
    }
}

/// The line that tells of a saved replay.
pub fn print_saved_replay(replay: &SavedReplay) -> (r: Option<String>)
    ensures
        text::opt_text(r) == (match (replay.final_video_path, replay.segments_dir) {
            (Some(path), _) => Some("[CLIP] saved: "@ + path@),
            (None, Some(path)) => Some("[CLIP] saved segments: "@ + path@),
            (None, None) => None,
        }),
{
    match &replay.final_video_path {
        Some(path) => Some(text::join2("[CLIP] saved: ", path.as_str())),
        None => match &replay.segments_dir {
            Some(path) => Some(text::join2("[CLIP] saved segments: ", path.as_str())),
            None => None,
        },
    }
}

/// What a message of the running pipeline means: an error or the end of the
/// stream ends the buffer, and nothing else does.
pub fn check_pipeline_bus(message: BusMessage) -> (r: Result<(), String>)
    ensures
        match message {
            BusMessage::Failure { source, error, debug_shown } => r matches Err(said) && said@
                == recorder::bus_text("error"@, source@, error@, debug_shown@),
            BusMessage::Eos => r matches Err(said) && said@
                == "replay buffer pipeline ended unexpectedly"@,
            _ => r is Ok,
        },
{
    match message {
        BusMessage::Failure { source, error, debug_shown } => Err(
            recorder::bus_failure("error", source.as_str(), error.as_str(), debug_shown.as_str()),
        ),
        BusMessage::Eos => Err("replay buffer pipeline ended unexpectedly".to_owned()),
        _ => Ok(()),
    }
}

proof fn lemma_stands_in(front: Seq<char>, part: Seq<char>, back: Seq<char>)
    ensures
        text::occurs_in(front + part + back, part),
{
    let whole = front + part + back;
    let n = front.len() as int;
    assert(whole.subrange(n, n + part.len()) =~= part);
    assert(text::matches_at(whole, part, n));
}

/// The buffer writes segments of the given length, keeps as many as it should, and
/// writes them where it should, at the frame rate that is set.
pub proof fn lemma_buffer_has_its_parts(
    source: Seq<char>,
    location_pattern: Seq<char>,
    segment_nanos: nat,
    keep: nat,
    quality: VideoQuality,
)
    ensures
        ({
            let pipeline = buffer_pipeline(source, location_pattern, segment_nanos, keep, quality);
            &&& text::has_prefix(pipeline, source)
            &&& text::occurs_in(
                pipeline,
                "video/x-raw,framerate="@ + text::decimal(quality.fps as nat) + "/1"@,
            )
            &&& text::occurs_in(pipeline, quality.vp8enc())
            &&& text::occurs_in(
                pipeline,
                "max-size-time="@ + text::decimal(segment_nanos) + " max-files="@ + text::decimal(
                    keep,
                ) + " "@,
            )
            &&& text::has_suffix(
                pipeline,
                "location=\""@ + audio::quoted_in_pipeline(location_pattern) + "\""@,
            )
        }),
{
    let pipeline = buffer_pipeline(source, location_pattern, segment_nanos, keep, quality);
    let a = " ! videoconvert ! videorate ! "@;
    let caps = quality.raw_caps();
    let b = " ! queue ! "@;
    let encoder = quality.vp8enc();
    let c = " ! splitmuxsink async-finalize=true muxer-factory=webmmux "@;
    let numbers = "max-size-time="@ + text::decimal(segment_nanos) + " max-files="@ + text::decimal(
        keep,
    ) + " "@;
    let d = "send-keyframe-requests=true "@;
    let place = "location=\""@ + audio::quoted_in_pipeline(location_pattern) + "\""@;
    reveal_strlit(" ! splitmuxsink async-finalize=true muxer-factory=webmmux ");
    reveal_strlit("max-size-time=");
    reveal_strlit(" ! splitmuxsink async-finalize=true muxer-factory=webmmux max-size-time=");
    reveal_strlit(" ");
    reveal_strlit("send-keyframe-requests=true ");
    reveal_strlit("location=\"");
    reveal_strlit(" send-keyframe-requests=true location=\"");
    assert(c + "max-size-time="@
        =~= " ! splitmuxsink async-finalize=true muxer-factory=webmmux max-size-time="@);
    assert(" "@ + d + "location=\""@ =~= " send-keyframe-requests=true location=\""@);
    let head = source + a + caps + b + encoder + c;
    let tail = d + place;
    assert(pipeline =~= head + numbers + tail);
    assert(pipeline.subrange(0, source.len() as int) =~= source);
    assert(pipeline.subrange(pipeline.len() - place.len(), pipeline.len() as int) =~= place);
    lemma_stands_in(head, numbers, tail);
    lemma_stands_in(source + a, caps, b + encoder + c + numbers + tail);
    assert(pipeline =~= source + a + caps + (b + encoder + c + numbers + tail));
    lemma_stands_in(source + a + caps + b, encoder, c + numbers + tail);
    assert(pipeline =~= source + a + caps + b + encoder + (c + numbers + tail));
}

/// A clip's copies of its segments are numbered in their order, so that they are put
/// together in it again.
pub proof fn lemma_copies_keep_the_order(
    segments: Seq<ReplaySegment>,
    clip_dir: Seq<char>,
    copies: Seq<SegmentCopy>,
    i: int,
)
    requires
        copies_of(segments, clip_dir, copies),
        0 <= i < copies.len(),
        i <= u64::MAX,
    ensures
        copies.len() == segments.len(),
        copies[i].from@ == segments[i].path@,
        segments::segment_index(copies[i].to@) == Some(i as nat),
{
    segments::lemma_segment_name_tells_its_number(clip_dir, i as u64);
}

}
