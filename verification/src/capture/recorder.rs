//! Recording for a fixed time: where the picture comes from, and the pipeline
//! that records it.

use vstd::prelude::*;
use vstd::string::*;
use crate::capture::audio;
use crate::capture::audio::AudioCaptureSource;
use crate::capture::quality::VideoQuality;
use crate::cli::CaptureSource;
use crate::text;
use crate::time::Duration;

verus! {

#[derive(Debug)]
pub struct RecordingRequest {
    pub duration: Duration,
    pub output_path: String,
    pub source: CaptureSource,
    pub quality: VideoQuality,
}

/// How the picture is got at.
#[derive(Debug)]
pub enum CaptureBackend {
    X11,
    ManualPipeWirePath(String),
    ManualPipeWireTarget(String),
    PortalPipeWire,
}

/// Where a pipeline takes the picture from.
#[derive(Debug)]
pub enum PipelineSource {
    X11 { window_id: Option<u32> },
    PipeWirePath(String),
    PipeWireTarget(String),
    PipeWirePortal { fd: i32, node_id: u32 },
}

/// Why nothing is recorded.
#[derive(Debug)]
pub enum RecordError {
    NoDuration,
    NoWindow,
    NotCreated(String),
    Empty(String),
}

impl RecordError {
    pub open spec fn text_of(self) -> Seq<char> {
        match self {
            RecordError::NoDuration => "recording duration must be greater than zero"@,
            RecordError::NoWindow =>
                "window capture requested on X11 but no X11 window id was resolved"@,
            RecordError::NotCreated(path) => "recording output was not created: "@ + path@,
            RecordError::Empty(path) => "recording output is empty: "@ + path@,
        }
    }

    pub fn message(&self) -> (r: String)
        ensures
            r@ == self.text_of(),
    {
        match self {
            RecordError::NoDuration => "recording duration must be greater than zero".to_owned(),
            RecordError::NoWindow =>
                "window capture requested on X11 but no X11 window id was resolved".to_owned(),
            RecordError::NotCreated(path) => text::join2(
                "recording output was not created: ",
                path.as_str(),
            ),
            RecordError::Empty(path) => text::join2("recording output is empty: ", path.as_str()),
        }
    }
}

/// The backend: one that the user names comes first, then X11 in an X11
/// session, else the portal. `pipewire_path` and `pipewire_target` are the
/// values of `WT_CLIPPER_PIPEWIRE_PATH` and `WT_CLIPPER_PIPEWIRE_TARGET`.
pub fn choose_backend(
    session_type: &str,
    pipewire_path: Option<&str>,
    pipewire_target: Option<&str>,
) -> (r: CaptureBackend)
    ensures
        match (pipewire_path, pipewire_target) {
            (Some(path), _) => r matches CaptureBackend::ManualPipeWirePath(p) && p@ == path@,
            (None, Some(target)) => r matches CaptureBackend::ManualPipeWireTarget(t) && t@
                == target@,
            (None, None) => if text::ascii_lowered(session_type@) == text::ascii_lowered("x11"@) {
                r is X11
            } else {
                r is PortalPipeWire
            },
        },
{
    match pipewire_path {
        Some(path) => CaptureBackend::ManualPipeWirePath(path.to_owned()),
        None => match pipewire_target {
            Some(target) => CaptureBackend::ManualPipeWireTarget(target.to_owned()),
            None => if text::eq_ignore_ascii_case(session_type, "x11") {
                CaptureBackend::X11
            } else {
                CaptureBackend::PortalPipeWire
            },
        },
    }
}

/// A path as it stands in a pipeline description.
pub fn encode_location(value: &str) -> (r: String)
    ensures
        r@ == audio::quoted_in_pipeline(value@),
{
    audio::escape_gst_string(value)
}

pub open spec fn screen_chain() -> Seq<char> {
    "ximagesrc use-damage=0 do-timestamp=true show-pointer=true"@
}

/// The elements that capture an X11 screen or window; none for a window that
/// is not known.
pub open spec fn x11_chain(source: CaptureSource, window_id: Option<u32>) -> Option<Seq<char>> {
    match source {
        CaptureSource::Screen => Some(screen_chain()),
        CaptureSource::Window => match window_id {
            Some(id) => Some(
                "ximagesrc use-damage=0 do-timestamp=true show-pointer=true xid="@ + text::decimal(
                    id as nat,
                ),
            ),
            None => None,
        },
    }
}

pub fn x11_source_chain(capture_source: CaptureSource, window_id: Option<u32>) -> (r: Result<
    String,
    RecordError,
>)
    ensures
        match x11_chain(capture_source, window_id) {
            Some(chain) => r matches Ok(c) && c@ == chain,
            None => r matches Err(RecordError::NoWindow),
        },
{
    match capture_source {
        CaptureSource::Screen => Ok(
            "ximagesrc use-damage=0 do-timestamp=true show-pointer=true".to_owned(),
        ),
        CaptureSource::Window => match window_id {
            Some(id) => Ok(
                text::join2(
                    "ximagesrc use-damage=0 do-timestamp=true show-pointer=true xid=",
                    text::decimal_text(id as u128).as_str(),
                ),
            ),
            None => Err(RecordError::NoWindow),
        },
    }
}

/// A number as text, with a minus sign in front where it is negative.
pub open spec fn signed_decimal(n: int) -> Seq<char> {
    if n < 0 {
        "-"@ + text::decimal((-n) as nat)
    } else {
        text::decimal(n as nat)
    }
}

fn signed_decimal_text(n: i32) -> (r: String)
    ensures
        r@ == signed_decimal(n as int),
{
    let wide: i64 = n as i64;
    if wide < 0 {
        text::join2("-", text::decimal_text((-wide) as u128).as_str())
    } else {
        text::decimal_text(wide as u128)
    }
}

pub open spec fn pipewire_path_chain(path: Seq<char>) -> Seq<char> {
    "pipewiresrc path=\""@ + path + "\" do-timestamp=true"@
}

pub open spec fn pipewire_target_chain(target: Seq<char>) -> Seq<char> {
    "pipewiresrc target-object=\""@ + target + "\" do-timestamp=true"@
}

pub open spec fn portal_chain(fd: i32, node_id: u32) -> Seq<char> {
    "pipewiresrc fd="@ + signed_decimal(fd as int) + " path="@ + text::decimal(node_id as nat)
        + " do-timestamp=true"@
}

pub(crate) fn pipewire_path_elements(path: &str) -> (r: String)
    ensures
        r@ == pipewire_path_chain(path@),
{
    let mut r: String = text::join2("pipewiresrc path=\"", path);
    r.append("\" do-timestamp=true");
    r
}

pub(crate) fn pipewire_target_elements(target: &str) -> (r: String)
    ensures
        r@ == pipewire_target_chain(target@),
{
    let mut r: String = text::join2("pipewiresrc target-object=\"", target);
    r.append("\" do-timestamp=true");
    r
}

pub(crate) fn portal_elements(fd: i32, node_id: u32) -> (r: String)
    ensures
        r@ == portal_chain(fd, node_id),
{
    let mut r: String = text::join2("pipewiresrc fd=", signed_decimal_text(fd).as_str());
    r.append(" path=");
    r.append(text::decimal_text(node_id as u128).as_str());
    r.append(" do-timestamp=true");
    r
}

/// The elements that capture the picture.
pub open spec fn source_chain(
    source: PipelineSource,
    capture_source: CaptureSource,
) -> Option<Seq<char>> {
    match source {
        PipelineSource::X11 { window_id } => x11_chain(capture_source, window_id),
        PipelineSource::PipeWirePath(path) => Some(
            pipewire_path_chain(audio::quoted_in_pipeline(path@)),
        ),
        PipelineSource::PipeWireTarget(target) => Some(
            pipewire_target_chain(audio::quoted_in_pipeline(target@)),
        ),
        PipelineSource::PipeWirePortal { fd, node_id } => Some(portal_chain(fd, node_id)),
    }
}

/// The pipeline that records a picture, with sound where there is some, into a
/// file.
pub open spec fn mux_pipeline(
    video_source: Seq<char>,
    raw_caps: Seq<char>,
    encoder: Seq<char>,
    location: Seq<char>,
    sound: Option<Seq<char>>,
) -> Seq<char> {
    let video = video_source
        + " ! queue max-size-buffers=4 leaky=downstream ! videoconvert ! videorate ! "@ + raw_caps
        + " ! queue max-size-buffers=8 leaky=downstream ! "@ + encoder;
    match sound {
        Some(device) => "webmmux name=mux ! filesink location=\""@ + location + "\" "@ + video
            + " ! queue ! mux. "@ + audio::pulse_chain(device) + " ! queue ! mux."@,
        None => video + " ! webmmux ! filesink location=\""@ + location + "\""@,
    }
}

pub open spec fn device_of(sound: Option<&AudioCaptureSource>) -> Option<Seq<char>> {
    match sound {
        Some(source) => Some(source.device@),
        None => None,
    }
}

fn recording_mux_pipeline(
    video_source_chain: &str,
    raw_caps: &str,
    encoder: &str,
    location: &str,
    audio_source: Option<&AudioCaptureSource>,
) -> (r: String)
    ensures
        r@ == mux_pipeline(
            video_source_chain@,
            raw_caps@,
            encoder@,
            location@,
            device_of(audio_source),
        ),
{
    let mut video: String = text::join2(
        video_source_chain,
        " ! queue max-size-buffers=4 leaky=downstream ! videoconvert ! videorate ! ",
    );
    video.append(raw_caps);
    video.append(" ! queue max-size-buffers=8 leaky=downstream ! ");
    video.append(encoder);
    match audio_source {
        Some(audio_source) => {
            let mut r: String = text::join2("webmmux name=mux ! filesink location=\"", location);
            r.append("\" ");
            r.append(video.as_str());
            r.append(" ! queue ! mux. ");
            r.append(audio_source.source_chain().as_str());
            r.append(" ! queue ! mux.");
            r
        },
        None => {
            video.append(" ! webmmux ! filesink location=\"");
            video.append(location);
            video.append("\"");
            video
        },
    }
}

/// The pipeline of a recording; it cannot be given for a window that is not
/// known, and for nothing else.
pub fn pipeline_description(
    source: PipelineSource,
    capture_source: CaptureSource,
    output_path: &str,
    quality: VideoQuality,
    audio_source: Option<&AudioCaptureSource>,
) -> (r: Result<String, RecordError>)
    ensures
        match source_chain(source, capture_source) {
            Some(chain) => r matches Ok(pipeline) && pipeline@ == mux_pipeline(
                chain,
                quality.raw_caps(),
                quality.vp8enc(),
                audio::quoted_in_pipeline(output_path@),
                device_of(audio_source),
            ),
            None => r matches Err(RecordError::NoWindow),
        },
{
    let location = encode_location(output_path);
    let raw_caps = quality.raw_video_caps();
    let encoder = quality.vp8enc_settings();
    let chain: String = match source {
        PipelineSource::X11 { window_id } => match x11_source_chain(capture_source, window_id) {
            Ok(chain) => chain,
            Err(error) => {
                return Err(error);
            },
        },
        PipelineSource::PipeWirePath(path) => pipewire_path_elements(
            encode_location(path.as_str()).as_str(),
        ),
        PipelineSource::PipeWireTarget(target) => pipewire_target_elements(
            encode_location(target.as_str()).as_str(),
        ),
        PipelineSource::PipeWirePortal { fd, node_id } => portal_elements(fd, node_id),
    };
    Ok(
        recording_mux_pipeline(
            chain.as_str(),
            raw_caps.as_str(),
            encoder.as_str(),
            location.as_str(),
            audio_source,
        ),
    )
}

/// The pipeline that a request asks for. A request without a duration is
/// refused before anything else.
pub fn record(
    request: &RecordingRequest,
    source: PipelineSource,
    audio_source: Option<&AudioCaptureSource>,
) -> (r: Result<String, RecordError>)
    ensures
        if request.duration.nanos == 0 {
            r matches Err(RecordError::NoDuration)
        } else {
            match source_chain(source, request.source) {
                Some(chain) => r matches Ok(pipeline) && pipeline@ == mux_pipeline(
                    chain,
                    request.quality.raw_caps(),
                    request.quality.vp8enc(),
                    audio::quoted_in_pipeline(request.output_path@),
                    device_of(audio_source),
                ),
                None => r matches Err(RecordError::NoWindow),
            }
        },
{
    if request.duration.nanos == 0 {
        return Err(RecordError::NoDuration);
    }
    pipeline_description(
        source,
        request.source,
        request.output_path.as_str(),
        request.quality,
        audio_source,
    )
}

/// A recording must have left a file that is not empty. `len` is the length of
/// the file, if there is one.
pub fn verify_output_file(path: &str, len: Option<u64>) -> (r: Result<(), RecordError>)
    ensures
        match len {
            None => r matches Err(RecordError::NotCreated(p)) && p@ == path@,
            Some(n) => if n == 0 {
                r matches Err(RecordError::Empty(p)) && p@ == path@
            } else {
                r is Ok
            },
        },
{
    match len {
        None => Err(RecordError::NotCreated(path.to_owned())),
        Some(n) => if n == 0 {
            Err(RecordError::Empty(path.to_owned()))
        } else {
            Ok(())
        },
    }
}

/// What a pipeline that is being finished says. `source` and `debug_shown` are
/// as they are printed.
#[derive(Debug)]
pub enum BusMessage {
    Eos,
    Failure { source: String, error: String, debug_shown: String },
    Warning { source: String, error: String, debug: Option<String>, debug_shown: String },
    Other,
}

/// What follows from it.
#[derive(Debug)]
pub enum BusStep {
    KeepWaiting,
    Finished,
    Failed(String),
}

/// A warning after which a recording cannot be finished.
pub open spec fn is_fatal(message: Seq<char>, debug: Option<Seq<char>>) -> bool {
    let said = text::ascii_lowered(message) + " "@ + text::ascii_lowered(
        match debug {
            Some(d) => d,
            None => seq![],
        },
    );
    text::occurs_in(said, "splitmuxsink"@) || text::occurs_in(said, "will not work"@)
        || text::occurs_in(said, "could not add sink"@)
}

pub fn gstreamer_warning_is_fatal(message: &str, debug: Option<&str>) -> (r: bool)
    ensures
        r == is_fatal(message@, text::opt_str(debug)),
{
    let mut said: String = text::to_ascii_lowercase(message);
    said.append(" ");
    match debug {
        Some(debug) => {
            said.append(text::to_ascii_lowercase(debug).as_str());
        },
        None => {
            assert(text::ascii_lowered(Seq::<char>::empty()) =~= Seq::<char>::empty());
            assert(said@ + Seq::<char>::empty() =~= said@);
        },
    }
    text::contains(said.as_str(), "splitmuxsink") || text::contains(said.as_str(), "will not work")
        || text::contains(said.as_str(), "could not add sink")
}

/// How a failure of a pipeline is told.
pub open spec fn bus_text(
    kind: Seq<char>,
    source: Seq<char>,
    error: Seq<char>,
    debug_shown: Seq<char>,
) -> Seq<char> {
    "GStreamer "@ + kind + " from "@ + source + ": "@ + error + " ("@ + debug_shown + ")"@
}

pub(crate) fn bus_failure(kind: &str, source: &str, error: &str, debug_shown: &str) -> (r: String)
    ensures
        r@ == bus_text(kind@, source@, error@, debug_shown@),
{
    let mut r: String = text::join2("GStreamer ", kind);
    r.append(" from ");
    r.append(source);
    r.append(": ");
    r.append(error);
    r.append(" (");
    r.append(debug_shown);
    r.append(")");
    r
}

/// One step of waiting for a pipeline to finish: it ends at the end of the
/// stream, at an error, at a fatal warning, or where no message came in time.
pub fn wait_for_eos_or_error(message: Option<BusMessage>) -> (r: BusStep)
    ensures
        match message {
            None => r matches BusStep::Failed(said) && said@
                == "timed out waiting for recording finalization"@,
            Some(BusMessage::Eos) => r is Finished,
            Some(BusMessage::Failure { source, error, debug_shown }) => r matches BusStep::Failed(
                said,
            ) && said@ == bus_text("error"@, source@, error@, debug_shown@),
            Some(BusMessage::Warning { source, error, debug, debug_shown }) => if is_fatal(
                error@,
                text::opt_text(debug),
            ) {
                r matches BusStep::Failed(said) && said@ == bus_text(
                    "warning"@,
                    source@,
                    error@,
                    debug_shown@,
                )
            } else {
                r is KeepWaiting
            },
            Some(BusMessage::Other) => r is KeepWaiting,
        },
{
    match message {
        None => BusStep::Failed("timed out waiting for recording finalization".to_owned()),
        Some(BusMessage::Eos) => BusStep::Finished,
        Some(BusMessage::Failure { source, error, debug_shown }) => BusStep::Failed(
            bus_failure("error", source.as_str(), error.as_str(), debug_shown.as_str()),
        ),
        Some(BusMessage::Warning { source, error, debug, debug_shown }) => {
            let debug_text: Option<&str> = match &debug {
                Some(d) => Some(d.as_str()),
                None => None,
            };
            if gstreamer_warning_is_fatal(error.as_str(), debug_text) {
                BusStep::Failed(
                    bus_failure("warning", source.as_str(), error.as_str(), debug_shown.as_str()),
                )
            } else {
                BusStep::KeepWaiting
            }
        },
        Some(BusMessage::Other) => BusStep::KeepWaiting,
    }
}

/// What becomes of work and of the tidying up after it: the first failure
/// counts.
pub fn work_then_close(work: Result<(), String>, closed: Result<(), String>) -> (r: Result<
    (),
    String,
>)
    ensures
        r == (if work is Err {
            work
        } else {
            closed
        }),
{
    match work {
        Err(error) => Err(error),
        Ok(()) => closed,
    }
}

/// Where a window is asked for, the whole screen is never recorded: either the
/// window is named, or nothing is recorded.
pub proof fn lemma_window_is_not_the_screen(window_id: Option<u32>)
    ensures
        match x11_chain(CaptureSource::Window, window_id) {
            Some(chain) => {
                &&& window_id is Some
                &&& text::has_suffix(chain, " xid="@ + text::decimal(window_id->0 as nat))
                &&& chain != screen_chain()
            },
            None => window_id is None,
        },
{
    if window_id is Some {
        let chain = x11_chain(CaptureSource::Window, window_id)->0;
        let named = " xid="@ + text::decimal(window_id->0 as nat);
        reveal_strlit("ximagesrc use-damage=0 do-timestamp=true show-pointer=true");
        reveal_strlit("ximagesrc use-damage=0 do-timestamp=true show-pointer=true xid=");
        reveal_strlit(" xid=");
        assert(chain =~= screen_chain() + named);
        assert(chain.subrange(chain.len() - named.len(), chain.len() as int) =~= named);
    }
}

proof fn lemma_part_occurs(front: Seq<char>, part: Seq<char>, back: Seq<char>)
    ensures
        text::occurs_in(front + part + back, part),
{
    let whole = front + part + back;
    let n = front.len() as int;
    assert(whole.subrange(n, n + part.len()) =~= part);
    assert(text::matches_at(whole, part, n));
}

proof fn lemma_encoder_has_its_rate(quality: VideoQuality)
    ensures
        text::occurs_in(
            quality.vp8enc(),
            "target-bitrate="@ + text::decimal(quality.bits_per_second() as nat),
        ),
{
    let start = "vp8enc deadline=1 end-usage=cbr "@;
    reveal_strlit("vp8enc deadline=1 end-usage=cbr ");
    reveal_strlit("target-bitrate=");
    reveal_strlit("vp8enc deadline=1 end-usage=cbr target-bitrate=");
    assert(start + "target-bitrate="@ =~= "vp8enc deadline=1 end-usage=cbr target-bitrate="@);
    let rate = "target-bitrate="@ + text::decimal(quality.bits_per_second() as nat);
    let rest = " cpu-used="@ + text::decimal(quality.encoder_cpu_used as nat)
        + " keyframe-max-dist="@ + text::decimal(quality.keyframe_distance() as nat);
    lemma_part_occurs(start, rate, rest);
    assert(quality.vp8enc() =~= start + rate + rest);
}

proof fn lemma_sink_words()
    ensures
        "webmmux name=mux ! filesink location=\""@ == "webmmux name=mux ! "@
            + "filesink location=\""@,
{
    reveal_strlit("webmmux name=mux ! filesink location=\"");
    reveal_strlit("webmmux name=mux ! ");
    reveal_strlit("filesink location=\"");
    assert("webmmux name=mux ! "@ + "filesink location=\""@
        =~= "webmmux name=mux ! filesink location=\""@);
}

proof fn lemma_plain_sink_words()
    ensures
        " ! webmmux ! filesink location=\""@ == " ! webmmux ! "@ + "filesink location=\""@,
{
    reveal_strlit("filesink location=\"");
    reveal_strlit(" ! webmmux ! ");
    reveal_strlit(" ! webmmux ! filesink location=\"");
    assert(" ! webmmux ! "@ + "filesink location=\""@ =~= " ! webmmux ! filesink location=\""@);
}

proof fn lemma_quote_and_space()
    ensures
        "\" "@ == "\""@ + " "@,
{
    reveal_strlit("\"");
    reveal_strlit("\" ");
    reveal_strlit(" ");
    assert("\""@ + " "@ =~= "\" "@);
}

proof fn lemma_words_around(
    front: Seq<char>,
    word: Seq<char>,
    location: Seq<char>,
    quote: Seq<char>,
    back: Seq<char>,
)
    ensures
        text::occurs_in((front + word) + location + (quote + back), word + location + quote),
{
    let whole = (front + word) + location + (quote + back);
    let part = word + location + quote;
    let n = front.len() as int;
    assert(whole.subrange(n, n + part.len()) =~= part);
    assert(text::matches_at(whole, part, n));
}

proof fn lemma_named_sink(location: Seq<char>)
    ensures
        text::occurs_in(
            "webmmux name=mux ! filesink location=\""@ + location + "\" "@,
            "filesink location=\""@ + location + "\""@,
        ),
{
    lemma_sink_words();
    lemma_quote_and_space();
    lemma_words_around("webmmux name=mux ! "@, "filesink location=\""@, location, "\""@, " "@);
}

proof fn lemma_plain_sink(location: Seq<char>)
    ensures
        text::occurs_in(
            " ! webmmux ! filesink location=\""@ + location + "\""@,
            "filesink location=\""@ + location + "\""@,
        ),
{
    lemma_plain_sink_words();
    let quote = "\""@;
    assert(quote + Seq::empty() =~= quote);
    lemma_words_around(
        " ! webmmux ! "@,
        "filesink location=\""@,
        location,
        quote,
        Seq::empty(),
    );
}

proof fn lemma_pulse_chain_names_its_device(device: Seq<char>)
    ensures
        text::has_prefix(
            audio::pulse_chain(device),
            "pulsesrc device=\""@ + audio::quoted_in_pipeline(device),
        ),
{
    let chain = audio::pulse_chain(device);
    let opening = "pulsesrc device=\""@ + audio::quoted_in_pipeline(device);
    assert(chain.subrange(0, opening.len() as int) =~= opening);
}

/// A recording takes its picture from its source, at its frame rate and with its
/// encoder, and puts it into its file, with the sound of the device where there is
/// one.
pub proof fn lemma_recording_has_its_parts(
    source: Seq<char>,
    quality: VideoQuality,
    location: Seq<char>,
    sound: Option<Seq<char>>,
)
    ensures
        ({
            let pipeline = mux_pipeline(
                source,
                quality.raw_caps(),
                quality.vp8enc(),
                location,
                sound,
            );
            &&& text::occurs_in(pipeline, source)
            &&& text::occurs_in(
                pipeline,
                "video/x-raw,framerate="@ + text::decimal(quality.fps as nat) + "/1"@,
            )
            &&& text::occurs_in(
                pipeline,
                "target-bitrate="@ + text::decimal(quality.bits_per_second() as nat),
            )
            &&& text::occurs_in(pipeline, "filesink location=\""@ + location + "\""@)
            &&& sound matches Some(device) ==> text::occurs_in(
                pipeline,
                "pulsesrc device=\""@ + audio::quoted_in_pipeline(device),
            )
        }),
{
    let caps = quality.raw_caps();
    let encoder = quality.vp8enc();
    let pipeline = mux_pipeline(source, caps, encoder, location, sound);
    let between = " ! queue max-size-buffers=4 leaky=downstream ! videoconvert ! videorate ! "@;
    let then = " ! queue max-size-buffers=8 leaky=downstream ! "@;
    let video = source + between + caps + then + encoder;
    let sink = "filesink location=\""@ + location + "\""@;
    let rate = "target-bitrate="@ + text::decimal(quality.bits_per_second() as nat);
    lemma_part_occurs(Seq::empty(), source, between + caps + then + encoder);
    assert(video =~= Seq::empty() + source + (between + caps + then + encoder));
    lemma_part_occurs(source + between, caps, then + encoder);
    assert(video =~= source + between + caps + (then + encoder));
    lemma_part_occurs(source + between + caps + then, encoder, Seq::empty());
    assert(video =~= source + between + caps + then + encoder + Seq::empty());
    lemma_encoder_has_its_rate(quality);
    text::lemma_occurs_within(video, encoder, rate);
    lemma_named_sink(location);
    lemma_plain_sink(location);
    match sound {
        Some(device) => {
            let front = "webmmux name=mux ! filesink location=\""@ + location + "\" "@;
            let chain = audio::pulse_chain(device);
            let opening = "pulsesrc device=\""@ + audio::quoted_in_pipeline(device);
            let back = " ! queue ! mux. "@ + chain + " ! queue ! mux."@;
            lemma_part_occurs(front, video, back);
            assert(pipeline =~= front + video + back);
            lemma_part_occurs(Seq::empty(), front, video + back);
            assert(pipeline =~= Seq::empty() + front + (video + back));
            text::lemma_occurs_within(pipeline, front, sink);
            lemma_part_occurs(front + video + " ! queue ! mux. "@, chain, " ! queue ! mux."@);
            assert(pipeline =~= front + video + " ! queue ! mux. "@ + chain + " ! queue ! mux."@);
            lemma_pulse_chain_names_its_device(device);
            assert(text::matches_at(chain, opening, 0));
            text::lemma_occurs_within(pipeline, chain, opening);
        },
        None => {
            let back = " ! webmmux ! filesink location=\""@ + location + "\""@;
            lemma_part_occurs(Seq::empty(), video, back);
            assert(pipeline =~= Seq::empty() + video + back);
            lemma_part_occurs(video, back, Seq::empty());
            assert(pipeline =~= video + back + Seq::empty());
            text::lemma_occurs_within(pipeline, back, sink);
        },
    }
    text::lemma_occurs_within(pipeline, video, source);
    text::lemma_occurs_within(pipeline, video, caps);
    text::lemma_occurs_within(pipeline, video, rate);
}

/// A source is captured by its own number or name.
pub proof fn lemma_source_is_named(
    path: Seq<char>,
    target: Seq<char>,
    fd: i32,
    node_id: u32,
    window: u32,
)
    ensures
        text::occurs_in(pipewire_path_chain(path), "path=\""@ + path + "\""@),
        text::occurs_in(pipewire_target_chain(target), "target-object=\""@ + target + "\""@),
        fd >= 0 ==> text::has_prefix(
            portal_chain(fd, node_id),
            "pipewiresrc fd="@ + text::decimal(fd as nat) + " path="@ + text::decimal(
                node_id as nat,
            ),
        ),
        x11_chain(CaptureSource::Window, Some(window)) is Some,
        text::has_suffix(
            x11_chain(CaptureSource::Window, Some(window))->0,
            " xid="@ + text::decimal(window as nat),
        ),
        x11_chain(CaptureSource::Window, None) is None,
        x11_chain(CaptureSource::Screen, Some(window)) == x11_chain(CaptureSource::Screen, None),
{
    reveal_strlit("\"");
    reveal_strlit("\" do-timestamp=true");
    reveal_strlit(" do-timestamp=true");
    reveal_strlit("pipewiresrc ");
    reveal_strlit("path=\"");
    reveal_strlit("target-object=\"");
    reveal_strlit("pipewiresrc path=\"");
    reveal_strlit("pipewiresrc target-object=\"");
    assert("\""@ + " do-timestamp=true"@ =~= "\" do-timestamp=true"@);
    assert("pipewiresrc "@ + "path=\""@ =~= "pipewiresrc path=\""@);
    assert("pipewiresrc "@ + "target-object=\""@ =~= "pipewiresrc target-object=\""@);
    lemma_part_occurs("pipewiresrc "@, "path=\""@ + path + "\""@, " do-timestamp=true"@);
    assert(pipewire_path_chain(path) =~= "pipewiresrc "@ + ("path=\""@ + path + "\""@)
        + " do-timestamp=true"@);
    lemma_part_occurs("pipewiresrc "@, "target-object=\""@ + target + "\""@, " do-timestamp=true"@);
    assert(pipewire_target_chain(target) =~= "pipewiresrc "@ + ("target-object=\""@ + target
        + "\""@) + " do-timestamp=true"@);
    if fd >= 0 {
        let start = "pipewiresrc fd="@ + text::decimal(fd as nat) + " path="@ + text::decimal(
            node_id as nat,
        );
        let chain = portal_chain(fd, node_id);
        assert(chain.subrange(0, start.len() as int) =~= start);
    }
    reveal_strlit(" xid=");
    reveal_strlit("ximagesrc use-damage=0 do-timestamp=true show-pointer=true");
    reveal_strlit("ximagesrc use-damage=0 do-timestamp=true show-pointer=true xid=");
    assert("ximagesrc use-damage=0 do-timestamp=true show-pointer=true"@ + " xid="@
        =~= "ximagesrc use-damage=0 do-timestamp=true show-pointer=true xid="@);
    let end = " xid="@ + text::decimal(window as nat);
    let chain = x11_chain(CaptureSource::Window, Some(window))->0;
    assert(chain =~= "ximagesrc use-damage=0 do-timestamp=true show-pointer=true"@ + end);
    assert(chain.subrange(chain.len() - end.len(), chain.len() as int) =~= end);
}

}
