//! Cutting a clip and encoding it anew: what is asked of FFmpeg, where the
//! result goes, and what the user is told.
//!
//! Points in a clip are numbers of seconds, which may be infinite or no numbers.

use vstd::prelude::*;
use vstd::string::*;
use crate::capture::concat::FoundFile;
use crate::capture::output;
use crate::capture::output::OutputError;
use crate::number;
use crate::number::Double;
use crate::path;
use crate::stamp;
use crate::text;

verus! {

#[derive(Clone, Copy, Debug, PartialEq, Eq, Structural)]
pub enum ClipEditorMode {
    TrimOriginal,
    YoutubeHorizontal,
    SocialVertical,
}

#[derive(Clone, Copy, Debug, PartialEq, Eq, Structural)]
pub enum SocialLayout {
    VerticalBlur,
    VerticalCrop,
}

#[derive(Clone, Copy, Debug, PartialEq, Eq, Structural)]
pub enum OutputFormat {
    Webm,
    Mp4,
}

impl OutputFormat {
    pub open spec fn extension_text(self) -> Seq<char> {
        match self {
            OutputFormat::Webm => "webm"@,
            OutputFormat::Mp4 => "mp4"@,
        }
    }

    pub fn extension(self) -> (r: &'static str)
        ensures
            r@ == self.extension_text(),
    {
        match self {
            OutputFormat::Webm => "webm",
            OutputFormat::Mp4 => "mp4",
        }
    }
}

/// What is to be made of a clip.
#[derive(Debug)]
pub struct ClipEditRequest {
    pub clip_path: String,
    pub metadata_path: Option<String>,
    pub start_seconds: Double,
    pub end_seconds: Double,
    pub mode: ClipEditorMode,
    pub output_format: OutputFormat,
    pub layout: Option<SocialLayout>,
    pub title: Option<String>,
    pub subtitle: Option<String>,
    pub watermark: bool,
    pub fps: u32,
    pub bitrate_kbps: u32,
}

/// What became of a clip.
#[derive(Debug)]
pub struct EditedClipResult {
    pub output_path: String,
    pub metadata_path: Option<String>,
    pub thumbnail_path: Option<String>,
    pub duration_seconds: Double,
    pub size_bytes: u64,
}

/// What is known of a video. The frame rate is as FFprobe writes it.
#[derive(Debug)]
pub struct ClipMediaInfo {
    pub duration_seconds: Double,
    pub width: u32,
    pub height: u32,
    pub frame_rate: Option<String>,
    pub codec: String,
    pub container: String,
    pub size_bytes: u64,
}

#[derive(Clone, Copy, Debug, PartialEq, Eq, Structural)]
pub enum EditorExportProgressStep {
    Preparing,
    Trimming,
    Encoding,
    Thumbnail,
    Metadata,
    Saving,
    Done,
    Failed,
}

#[derive(Debug)]
pub struct EditorExportProgressPayload {
    pub active: bool,
    pub step: EditorExportProgressStep,
    pub progress: u8,
    pub message: String,
    pub output_path: Option<String>,
    pub error: Option<String>,
}

/// Why a clip is not edited.
#[derive(Debug)]
pub enum EditorError {
    FfmpegMissing,
    CommandBroken(String),
    CommandNotStarted { command: String, error: String },
    ClipMissing(String),
    ClipInvalid(String),
    FormatNotSupported(String),
    NotFinite,
    NegativeStart,
    EndBeforeStart,
    EndAfterClip,
    NoVideoTrack(String),
    NoDuration(String),
    OutputNameInvalid,
    NameInvalid(String),
    NoUniqueName(String),
    OverOriginal,
    OutputExists(String),
    FileInvalid { label: String, path: String },
    RunNotStarted(String),
    RunFailed { label: String, detail: String },
    PathMissing(String),
    NoParent,
}

impl EditorError {
    pub open spec fn text_of(self) -> Seq<char> {
        match self {
            EditorError::FfmpegMissing =>
                "FFmpeg est requis pour l'editeur video. Installe-le avec sudo apt install ffmpeg."@,
            EditorError::CommandBroken(command) => command@
                + " est installe mais ne repond pas correctement."@,
            EditorError::CommandNotStarted { command, error } => "Impossible de lancer "@ + command@
                + ": "@ + error@,
            EditorError::ClipMissing(p) => "Clip introuvable: "@ + p@,
            EditorError::ClipInvalid(p) => "Clip invalide ou vide: "@ + p@,
            EditorError::FormatNotSupported(p) =>
                "Format video non pris en charge pour l'editeur: "@ + p@,
            EditorError::NotFinite => "Le debut et la fin doivent etre des nombres valides."@,
            EditorError::NegativeStart => "Le debut du trim doit etre positif."@,
            EditorError::EndBeforeStart => "La fin du trim doit etre apres le debut."@,
            EditorError::EndAfterClip => "La fin du trim depasse la duree du clip."@,
            EditorError::NoVideoTrack(p) => "Aucune piste video trouvee dans "@ + p@,
            EditorError::NoDuration(p) => "Duree du clip introuvable: "@ + p@,
            EditorError::OutputNameInvalid => "Nom de sortie invalide"@,
            EditorError::NameInvalid(p) => "Nom de sortie invalide: "@ + p@,
            EditorError::NoUniqueName(p) =>
                "Impossible de trouver un nom de fichier unique pour "@ + p@,
            EditorError::OverOriginal =>
                "L'editeur ne peut pas ecrire par-dessus le clip original."@,
            EditorError::OutputExists(p) => "Le fichier de sortie existe deja: "@ + p@,
            EditorError::FileInvalid { label, path } => label@ + ": "@ + path@,
            EditorError::RunNotStarted(label) => "Impossible de lancer "@ + label@,
            EditorError::RunFailed { label, detail } => label@ + " a echoue: "@ + detail@,
            EditorError::PathMissing(p) => "Chemin introuvable: "@ + p@,
            EditorError::NoParent => "Dossier parent introuvable."@,
        }
    }

    pub fn message(&self) -> (r: String)
        ensures
            r@ == self.text_of(),
    {
        match self {
            EditorError::FfmpegMissing =>
                "FFmpeg est requis pour l'editeur video. Installe-le avec sudo apt install ffmpeg.".to_owned(),
            EditorError::CommandBroken(command) => text::join2(
                command.as_str(),
                " est installe mais ne repond pas correctement.",
            ),
            EditorError::CommandNotStarted { command, error } => {
                let mut r: String = text::join2("Impossible de lancer ", command.as_str());
                r.append(": ");
                r.append(error.as_str());
                r
            },
            EditorError::ClipMissing(p) => text::join2("Clip introuvable: ", p.as_str()),
            EditorError::ClipInvalid(p) => text::join2("Clip invalide ou vide: ", p.as_str()),
            EditorError::FormatNotSupported(p) => text::join2(
                "Format video non pris en charge pour l'editeur: ",
                p.as_str(),
            ),
            EditorError::NotFinite =>
                "Le debut et la fin doivent etre des nombres valides.".to_owned(),
            EditorError::NegativeStart => "Le debut du trim doit etre positif.".to_owned(),
            EditorError::EndBeforeStart => "La fin du trim doit etre apres le debut.".to_owned(),
            EditorError::EndAfterClip => "La fin du trim depasse la duree du clip.".to_owned(),
            EditorError::NoVideoTrack(p) => text::join2(
                "Aucune piste video trouvee dans ",
                p.as_str(),
            ),
            EditorError::NoDuration(p) => text::join2("Duree du clip introuvable: ", p.as_str()),
            EditorError::OutputNameInvalid => "Nom de sortie invalide".to_owned(),
            EditorError::NameInvalid(p) => text::join2("Nom de sortie invalide: ", p.as_str()),
            EditorError::NoUniqueName(p) => text::join2(
                "Impossible de trouver un nom de fichier unique pour ",
                p.as_str(),
            ),
            EditorError::OverOriginal =>
                "L'editeur ne peut pas ecrire par-dessus le clip original.".to_owned(),
            EditorError::OutputExists(p) => text::join2(
                "Le fichier de sortie existe deja: ",
                p.as_str(),
            ),
            EditorError::FileInvalid { label, path } => {
                let mut r: String = text::join2(label.as_str(), ": ");
                r.append(path.as_str());
                r
            },
            EditorError::RunNotStarted(label) => text::join2(
                "Impossible de lancer ",
                label.as_str(),
            ),
            EditorError::RunFailed { label, detail } => {
                let mut r: String = text::join2(label.as_str(), " a echoue: ");
                r.append(detail.as_str());
                r
            },
            EditorError::PathMissing(p) => text::join2("Chemin introuvable: ", p.as_str()),
            EditorError::NoParent => "Dossier parent introuvable.".to_owned(),
        }
    }
}

/// The bits of 0.15, the seconds that a cut may reach past the end of a clip.
pub const TRIM_SLACK: u64 = 0x3fc3_3333_3333_3333;

/// What is wrong with a cut, if anything.
pub open spec fn trim_fault(
    start_seconds: Double,
    end_seconds: Double,
    duration_seconds: Double,
) -> Option<EditorError> {
    if !start_seconds.is_finite() || !end_seconds.is_finite() {
        Some(EditorError::NotFinite)
    } else if start_seconds.steps() < 0 {
        Some(EditorError::NegativeStart)
    } else if end_seconds.steps() <= start_seconds.steps() {
        Some(EditorError::EndBeforeStart)
    } else if duration_seconds.is_finite() && end_seconds.steps() > number::sum(
        duration_seconds,
        Double { bits: TRIM_SLACK },
    ).steps() {
        Some(EditorError::EndAfterClip)
    } else {
        None
    }
}

pub open spec fn as_fault(r: Result<(), EditorError>) -> Option<EditorError> {
    match r {
        Ok(_) => None,
        Err(error) => Some(error),
    }
}

pub fn validate_trim_request(
    start_seconds: Double,
    end_seconds: Double,
    duration_seconds: Double,
) -> (r: Result<(), EditorError>)
    ensures
        as_fault(r) == trim_fault(start_seconds, end_seconds, duration_seconds),
{
    if !start_seconds.finite() || !end_seconds.finite() {
        return Err(EditorError::NotFinite);
    }
    if start_seconds.less(Double { bits: 0 }) {
        return Err(EditorError::NegativeStart);
    }
    if !start_seconds.less(end_seconds) {
        return Err(EditorError::EndBeforeStart);
    }
    if duration_seconds.finite() {
        let latest = number::add_up(duration_seconds, Double { bits: TRIM_SLACK });
        if latest.less(end_seconds) {
            return Err(EditorError::EndAfterClip);
        }
    }
    Ok(())
}

/// The file is there and holds something.
pub open spec fn is_filled(found: Option<FoundFile>) -> bool {
    found matches Some(file) && file.is_file && file.len > 0
}

/// The file is a video that can be edited, by its extension.
pub open spec fn is_video(p: Seq<char>) -> bool {
    match path::extension_of(p) {
        Some(ext) => text::ascii_lowered(ext) == "webm"@ || text::ascii_lowered(ext) == "mp4"@,
        None => false,
    }
}

pub fn has_video_extension(p: &str) -> (r: bool)
    ensures
        r == is_video(p@),
{
    match path::extension(p) {
        Some(ext) => {
            let lowered = text::to_ascii_lowercase(ext.as_str());
            text::same(lowered.as_str(), "webm") || text::same(lowered.as_str(), "mp4")
        },
        None => false,
    }
}

/// A clip that can be edited: a file with something in it, of a known format.
pub fn validate_input_path(p: &str, found: Option<FoundFile>) -> (r: Result<(), EditorError>)
    ensures
        match found {
            None => r matches Err(EditorError::ClipMissing(q)) && q@ == p@,
            Some(_) => if !is_filled(found) {
                r matches Err(EditorError::ClipInvalid(q)) && q@ == p@
            } else if !is_video(p@) {
                r matches Err(EditorError::FormatNotSupported(q)) && q@ == p@
            } else {
                r is Ok
            },
        },
{
    match found {
        None => Err(EditorError::ClipMissing(p.to_owned())),
        Some(file) => {
            if !file.is_file || file.len == 0 {
                Err(EditorError::ClipInvalid(p.to_owned()))
            } else if !has_video_extension(p) {
                Err(EditorError::FormatNotSupported(p.to_owned()))
            } else {
                Ok(())
            }
        },
    }
}

/// A file that must be there and hold something.
pub fn validate_non_empty_file(p: &str, label: &str, found: Option<FoundFile>) -> (r: Result<
    (),
    EditorError,
>)
    ensures
        if is_filled(found) {
            r is Ok
        } else {
            r matches Err(EditorError::FileInvalid { label: l, path: q }) && l@ == label@ && q@
                == p@
        },
{
    let filled: bool = match found {
        Some(file) => file.is_file && file.len > 0,
        None => false,
    };
    if filled {
        Ok(())
    } else {
        Err(EditorError::FileInvalid { label: label.to_owned(), path: p.to_owned() })
    }
}

/// How asking a command for its version went.
#[derive(Debug)]
pub enum VersionProbe {
    Succeeded,
    Failed,
    NotFound,
    NotStarted(String),
}

pub fn ensure_command_available(command: &str, probe: VersionProbe) -> (r: Result<(), EditorError>)
    ensures
        match probe {
            VersionProbe::Succeeded => r is Ok,
            VersionProbe::Failed => r matches Err(EditorError::CommandBroken(c)) && c@ == command@,
            VersionProbe::NotFound => r matches Err(EditorError::FfmpegMissing),
            VersionProbe::NotStarted(said) => r matches Err(
                EditorError::CommandNotStarted { command: c, error: e },
            ) && c@ == command@ && e@ == said@,
        },
{
    match probe {
        VersionProbe::Succeeded => Ok(()),
        VersionProbe::Failed => Err(EditorError::CommandBroken(command.to_owned())),
        VersionProbe::NotFound => Err(EditorError::FfmpegMissing),
        VersionProbe::NotStarted(said) => Err(
            EditorError::CommandNotStarted { command: command.to_owned(), error: said },
        ),
    }
}

/// The last line that is not blank, if any.
pub open spec fn last_non_blank(lines: Seq<Seq<char>>) -> Option<Seq<char>>
    decreases lines.len(),
{
    if lines.len() == 0 {
        None
    } else if text::trim_of(lines.last()).len() > 0 {
        Some(lines.last())
    } else {
        last_non_blank(lines.drop_last())
    }
}

pub open spec fn truncated(s: Seq<char>, max: nat) -> Seq<char> {
    if s.len() > max {
        s.subrange(0, max as int)
    } else {
        s
    }
}

pub const STDERR_SHOWN: usize = 500;

/// What is told of the error output of a command.
pub open spec fn stderr_text(printed: Seq<char>) -> Seq<char> {
    let summary = match last_non_blank(text::lines_of(printed)) {
        Some(line) => line,
        None => text::trim_of(printed),
    };
    if summary.len() == 0 {
        "aucun detail fourni par FFmpeg"@
    } else {
        truncated(summary, STDERR_SHOWN as nat)
    }
}

pub fn truncate_text(input: &str, max_chars: usize) -> (r: String)
    ensures
        r@ == truncated(input@, max_chars as nat),
{
    if input.unicode_len() > max_chars {
        input.substring_char(0, max_chars).to_owned()
    } else {
        input.to_owned()
    }
}

/// The summary of an error output that has been decoded.
pub fn printed_summary(printed: &str) -> (r: String)
    ensures
        r@ == stderr_text(printed@),
{
    let lines = text::lines(printed);
    let ghost all = text::texts(lines@);
    let mut end: usize = lines.len();
    assert(all.subrange(0, all.len() as int) == all);
    while end > 0 && text::trim(lines[end - 1].as_str()).unicode_len() == 0
        invariant
            end <= lines.len(),
            all == text::texts(lines@),
            last_non_blank(all) == last_non_blank(all.subrange(0, end as int)),
        decreases end,
    {
        let ghost p = all.subrange(0, end as int);
        assert(p.last() == lines@[end - 1]@);
        assert(p.drop_last() == all.subrange(0, end - 1));
        end = end - 1;
    }
    let summary: &str = if end > 0 {
        assert(all.subrange(0, end as int).last() == lines@[end - 1]@);
        lines[end - 1].as_str()
    } else {
        text::trim(printed)
    };
    if summary.unicode_len() == 0 {
        "aucun detail fourni par FFmpeg".to_owned()
    } else {
        truncate_text(summary, STDERR_SHOWN)
    }
}

pub fn stderr_summary(stderr: &[u8]) -> (r: String)
    ensures
        r@ == stderr_text(text::text_in(stderr@)),
{
    let printed = text::from_utf8_lossy(stderr);
    printed_summary(printed.as_str())
}

/// How a run of FFmpeg ended: not at all, or with success or not and an error
/// output.
#[derive(Debug)]
pub struct FinishedRun {
    pub success: bool,
    pub stderr: Vec<u8>,
}

pub fn run_command(label: &str, run: Option<FinishedRun>) -> (r: Result<(), EditorError>)
    ensures
        match run {
            None => r matches Err(EditorError::RunNotStarted(l)) && l@ == label@,
            Some(run) => if run.success {
                r is Ok
            } else {
                r matches Err(EditorError::RunFailed { label: l, detail }) && l@ == label@
                    && detail@ == stderr_text(text::text_in(run.stderr@))
            },
        },
{
    match run {
        None => Err(EditorError::RunNotStarted(label.to_owned())),
        Some(run) => if run.success {
            Ok(())
        } else {
            Err(
                EditorError::RunFailed {
                    label: label.to_owned(),
                    detail: stderr_summary(run.stderr.as_slice()),
                },
            )
        },
    }
}

/// `value` at least `low` and at most `high`.
pub open spec fn clamped(value: u32, low: u32, high: u32) -> u32 {
    if value < low {
        low
    } else if value > high {
        high
    } else {
        value
    }
}

pub fn sanitized_fps(fps: u32) -> (r: u32)
    ensures
        r == clamped(fps, 24, 120),
{
    if fps < 24 {
        24
    } else if fps > 120 {
        120
    } else {
        fps
    }
}

pub fn sanitized_bitrate(bitrate_kbps: u32) -> (r: u32)
    ensures
        r == clamped(bitrate_kbps, 2_000, 30_000),
{
    if bitrate_kbps < 2_000 {
        2_000
    } else if bitrate_kbps > 30_000 {
        30_000
    } else {
        bitrate_kbps
    }
}

/// A point in seconds with three digits behind the decimal point.
pub open spec fn seconds_text(seconds: Double) -> Seq<char> {
    number::with_thousandths(seconds)
}

pub fn format_seconds_arg(seconds: Double) -> (r: String)
    ensures
        r@ == seconds_text(seconds),
{
    number::text_with_thousandths(seconds)
}

/// A point to the nearest second, as part of a file name.
pub open spec fn time_label(seconds: Double) -> Seq<char> {
    let total = number::whole_up_to(number::nearest_whole(seconds), u64::MAX as nat);
    let minutes_and_seconds = text::padded_decimal((total / 60) % 60, 2) + "-"@
        + text::padded_decimal(total % 60, 2);
    if total / 3600 > 0 {
        text::padded_decimal(total / 3600, 2) + "-"@ + minutes_and_seconds
    } else {
        minutes_and_seconds
    }
}

pub fn format_time_label(seconds: Double) -> (r: String)
    ensures
        r@ == time_label(seconds),
{
    let total: u64 = number::to_nearest_whole(seconds);
    let hours: u64 = total / 3600;
    let mut label: String = text::padded_decimal_text(((total / 60) % 60) as u128, 2);
    label.append("-");
    label.append(text::padded_decimal_text((total % 60) as u128, 2).as_str());
    if hours > 0 {
        let mut r: String = text::padded_decimal_text(hours as u128, 2);
        r.append("-");
        r.append(label.as_str());
        r
    } else {
        label
    }
}

/// How long a cut is: nothing where its end is not after its start, and without
/// end where one of its points is infinite.
pub open spec fn cut_length(start_seconds: Double, end_seconds: Double) -> Double {
    if !start_seconds.less_than(end_seconds) {
        Double { bits: 0 }
    } else if start_seconds.is_finite() && end_seconds.is_finite() {
        number::difference(end_seconds, start_seconds)
    } else {
        Double { bits: number::INFINITY }
    }
}

pub fn edited_duration(request: &ClipEditRequest) -> (r: Double)
    ensures
        r == cut_length(request.start_seconds, request.end_seconds),
{
    if !request.start_seconds.less(request.end_seconds) {
        Double { bits: 0 }
    } else if request.start_seconds.finite() && request.end_seconds.finite() {
        number::take_away(request.end_seconds, request.start_seconds)
    } else {
        Double { bits: number::INFINITY }
    }
}

pub open spec fn format_of(mode: ClipEditorMode, wanted: OutputFormat) -> OutputFormat {
    match mode {
        ClipEditorMode::SocialVertical | ClipEditorMode::YoutubeHorizontal => OutputFormat::Mp4,
        ClipEditorMode::TrimOriginal => wanted,
    }
}

pub fn effective_output_format(request: &ClipEditRequest) -> (r: OutputFormat)
    ensures
        r == format_of(request.mode, request.output_format),
{
    match request.mode {
        ClipEditorMode::SocialVertical | ClipEditorMode::YoutubeHorizontal => OutputFormat::Mp4,
        ClipEditorMode::TrimOriginal => request.output_format,
    }
}

/// The directory of edited clips under the directory of clips.
pub open spec fn edited_dir(base: Seq<char>, mode: ClipEditorMode) -> Seq<char> {
    path::joined_path(
        base,
        match mode {
            ClipEditorMode::SocialVertical => "Social"@,
            ClipEditorMode::TrimOriginal | ClipEditorMode::YoutubeHorizontal => "Edited"@,
        },
    )
}

pub fn output_base_dir(base: &str, mode: ClipEditorMode) -> (r: String)
    ensures
        r@ == edited_dir(base@, mode),
{
    match mode {
        ClipEditorMode::SocialVertical => path::join_path(base, "Social"),
        ClipEditorMode::TrimOriginal | ClipEditorMode::YoutubeHorizontal => path::join_path(
            base,
            "Edited",
        ),
    }
}

pub const STEM_MAX_LEN: usize = 80;

pub open spec fn is_separator(c: char) -> bool {
    c == '-' || c == '_'
}

/// What stands for a character in a file name, if anything.
pub open spec fn stem_char(c: char) -> Option<char> {
    if output::is_ascii_alphanumeric(c) {
        Some(text::ascii_lower(c))
    } else if is_separator(c) {
        Some(c)
    } else if text::is_space(c) || c == '.' || c == ':' {
        Some('-')
    } else {
        None
    }
}

/// A name grown by one character: no separator comes first or follows another.
/// A name of full length grows no more.
pub open spec fn stem_with(stem: Seq<char>, c: char) -> Seq<char> {
    match stem_char(c) {
        Some(next) => if stem.len() >= STEM_MAX_LEN || (is_separator(next) && (stem.len() == 0
            || is_separator(stem.last()))) {
            stem
        } else {
            stem.push(next)
        },
        None => stem,
    }
}

pub open spec fn stem_chars(s: Seq<char>) -> Seq<char>
    decreases s.len(),
{
    if s.len() == 0 {
        seq![]
    } else {
        stem_with(stem_chars(s.drop_last()), s.last())
    }
}

/// Without the separators at the end.
pub open spec fn without_end_separators(s: Seq<char>) -> Seq<char>
    decreases s.len(),
{
    if s.len() > 0 && is_separator(s.last()) {
        without_end_separators(s.drop_last())
    } else {
        s
    }
}

/// A text as the start of a file name.
pub open spec fn stem_of(s: Seq<char>) -> Seq<char> {
    let stem = without_end_separators(stem_chars(s));
    if stem.len() == 0 {
        "clip"@
    } else {
        stem
    }
}

fn next_stem_char(c: char) -> (r: Option<char>)
    ensures
        r == stem_char(c),
{
    if ('0' <= c && c <= '9') || ('a' <= c && c <= 'z') || ('A' <= c && c <= 'Z') {
        Some(text::lower_char(c))
    } else if c == '-' || c == '_' {
        Some(c)
    } else if text::is_whitespace(c) || c == '.' || c == ':' {
        Some('-')
    } else {
        None
    }
}

pub fn sanitize_file_stem(input: &str) -> (r: String)
    ensures
        r@ == stem_of(input@),
{
    let v = text::chars_of(input);
    let mut stem: Vec<char> = Vec::new();
    let mut i: usize = 0;
    while i < v.len()
        invariant
            i <= v.len(),
            v@ == input@,
            stem@ == stem_chars(input@.subrange(0, i as int)),
        decreases v.len() - i,
    {
        assert(input@.subrange(0, i + 1).drop_last() == input@.subrange(0, i as int));
        if let Some(next) = next_stem_char(v[i]) {
            let full: bool = stem.len() >= STEM_MAX_LEN;
            let separator: bool = next == '-' || next == '_';
            let barred: bool = separator && (stem.len() == 0 || stem[stem.len() - 1] == '-'
                || stem[stem.len() - 1] == '_');
            if !full && !barred {
                stem.push(next);
            }
        }
        i = i + 1;
    }
    assert(input@.subrange(0, input@.len() as int) == input@);
    let ghost whole = stem@;
    while stem.len() > 0 && (stem[stem.len() - 1] == '-' || stem[stem.len() - 1] == '_')
        invariant
            without_end_separators(stem@) == without_end_separators(whole),
        decreases stem.len(),
    {
        let ghost before = stem@;
        stem.pop();
        assert(stem@ == before.drop_last());
    }
    if stem.len() == 0 {
        "clip".to_owned()
    } else {
        text::text_of(stem.as_slice())
    }
}

/// A file name is made of small letters, digits and single separators, with a
/// letter or a digit at both ends, and is never empty nor longer than 80
/// characters.
pub open spec fn stem_shaped(s: Seq<char>) -> bool {
    &&& s.len() <= STEM_MAX_LEN
    &&& forall|i: int|
        0 <= i < s.len() ==> (is_separator(#[trigger] s[i]) || ('0' <= s[i] && s[i] <= '9') || ('a'
            <= s[i] && s[i] <= 'z'))
    &&& forall|i: int| 0 < i < s.len() && is_separator(s[i - 1]) ==> !is_separator(#[trigger] s[i])
    &&& s.len() > 0 ==> !is_separator(s[0])
}

proof fn lemma_stem_chars_shape(s: Seq<char>)
    ensures
        stem_shaped(stem_chars(s)),
    decreases s.len(),
{
    if s.len() > 0 {
        lemma_stem_chars_shape(s.drop_last());
    }
}

proof fn lemma_end_separators_shape(s: Seq<char>)
    requires
        stem_shaped(s),
    ensures
        stem_shaped(without_end_separators(s)),
        without_end_separators(s).len() > 0 ==> !is_separator(without_end_separators(s).last()),
    decreases s.len(),
{
    if s.len() > 0 && is_separator(s.last()) {
        let t = s.drop_last();
        assert(stem_shaped(t)) by {
            assert forall|i: int| 0 <= i < t.len() implies (is_separator(#[trigger] t[i]) || ('0'
                <= t[i] && t[i] <= '9') || ('a' <= t[i] && t[i] <= 'z')) by {
                assert(s[i] == t[i]);
            }
            assert forall|i: int| 0 < i < t.len() && is_separator(t[i - 1]) implies !is_separator(
                #[trigger] t[i],
            ) by {
                assert(s[i] == t[i]);
            }
        }
        lemma_end_separators_shape(t);
    }
}

/// Whatever a clip is called, the name made of it is a proper file name.
pub proof fn lemma_stem(s: Seq<char>)
    ensures
        stem_shaped(stem_of(s)),
        stem_of(s).len() > 0,
        !is_separator(stem_of(s).last()),
{
    lemma_stem_chars_shape(s);
    lemma_end_separators_shape(stem_chars(s));
    reveal_strlit("clip");
}

pub open spec fn mode_label(mode: ClipEditorMode) -> Seq<char> {
    match mode {
        ClipEditorMode::TrimOriginal => "trim"@,
        ClipEditorMode::YoutubeHorizontal => "youtube"@,
        ClipEditorMode::SocialVertical => "vertical"@,
    }
}

/// The name of an edited clip.
pub open spec fn edited_name(request: ClipEditRequest, input: Seq<char>) -> Seq<char> {
    let stem = match path::file_stem_of(input) {
        Some(s) => stem_of(s),
        None => "clip"@,
    };
    stem + "_"@ + mode_label(request.mode) + "_"@ + time_label(request.start_seconds) + "_"@ + time_label(
        request.end_seconds,
    ) + "."@ + format_of(request.mode, request.output_format).extension_text()
}

fn edited_file_name(request: &ClipEditRequest, input: &str) -> (r: String)
    ensures
        r@ == edited_name(*request, input@),
{
    let mut r: String = match path::file_stem(input) {
        Some(s) => sanitize_file_stem(s.as_str()),
        None => "clip".to_owned(),
    };
    r.append("_");
    r.append(
        match request.mode {
            ClipEditorMode::TrimOriginal => "trim",
            ClipEditorMode::YoutubeHorizontal => "youtube",
            ClipEditorMode::SocialVertical => "vertical",
        },
    );
    r.append("_");
    r.append(format_time_label(request.start_seconds).as_str());
    r.append("_");
    r.append(format_time_label(request.end_seconds).as_str());
    r.append(".");
    r.append(effective_output_format(request).extension());
    r
}

/// How the editor tells of a failed choice of a name.
pub open spec fn as_editor_choice(
    chosen: Result<String, OutputError>,
    r: Result<String, EditorError>,
) -> bool {
    match chosen {
        Ok(p) => r == Ok::<String, EditorError>(p),
        Err(OutputError::InvalidFileName(p)) => r == Err::<String, EditorError>(
            EditorError::NameInvalid(p),
        ),
        Err(OutputError::NoUniquePath(p)) => r == Err::<String, EditorError>(
            EditorError::NoUniqueName(p),
        ),
        Err(OutputError::HomeNotSet) => r == Err::<String, EditorError>(
            EditorError::OutputNameInvalid,
        ),
    }
}

/// Where an edited clip goes: a path in the given directory that is not taken.
pub fn resolve_output_path(
    request: &ClipEditRequest,
    input_path: &str,
    output_base_dir: &str,
    taken: &Vec<String>,
) -> (r: Result<String, EditorError>)
    ensures
        exists|chosen: Result<String, OutputError>|
            {
                &&& #[trigger] output::is_unique_choice(
                    path::joined_path(output_base_dir@, edited_name(*request, input_path@)),
                    text::texts(taken@),
                    chosen,
                )
                &&& as_editor_choice(chosen, r)
            },
        r matches Ok(p) ==> !text::texts(taken@).contains(p@),
{
    let name = edited_file_name(request, input_path);
    let wanted = path::join_path(output_base_dir, name.as_str());
    let ghost target = wanted@;
    let chosen = output::ensure_unique_path(wanted, taken);
    let ghost choice = chosen;
    assert(output::is_unique_choice(target, text::texts(taken@), choice));
    match chosen {
        Ok(p) => Ok(p),
        Err(OutputError::InvalidFileName(p)) => Err(EditorError::NameInvalid(p)),
        Err(OutputError::NoUniquePath(p)) => Err(EditorError::NoUniqueName(p)),
        Err(OutputError::HomeNotSet) => Err(EditorError::OutputNameInvalid),
    }
}

/// The path of an output whose directory has been resolved.
pub open spec fn resolved_output(
    output_path: Seq<char>,
    canonical_parent: Option<Seq<char>>,
) -> Option<Seq<char>> {
    match path::file_name_of(output_path) {
        Some(name) => Some(
            path::joined_path(
                match canonical_parent {
                    Some(dir) => dir,
                    None => match path::parent_of(output_path) {
                        Some(dir) => dir,
                        None => seq![],
                    },
                },
                name,
            ),
        ),
        None => None,
    }
}

/// An export must not go to the place of the clip itself. The canonical paths
/// are those of the clip and of the directory of the output, where they could
/// be had.
pub fn ensure_not_original(
    input_path: &str,
    output_path: &str,
    canonical_input: Option<&str>,
    canonical_parent: Option<&str>,
) -> (r: Result<(), EditorError>)
    ensures
        ({
            let input = match canonical_input {
                Some(p) => p@,
                None => input_path@,
            };
            match resolved_output(output_path@, text::opt_str(canonical_parent)) {
                None => r matches Err(EditorError::OutputNameInvalid),
                Some(out) => if path::is_same_path(input, out) {
                    r matches Err(EditorError::OverOriginal)
                } else {
                    r is Ok
                },
            }
        }),
{
    let input: &str = match canonical_input {
        Some(p) => p,
        None => input_path,
    };
    let parent: String = match canonical_parent {
        Some(dir) => dir.to_owned(),
        None => match path::parent(output_path) {
            Some(dir) => dir,
            None => String::new(),
        },
    };
    match path::file_name(output_path) {
        None => Err(EditorError::OutputNameInvalid),
        Some(name) => {
            let resolved = path::join_path(parent.as_str(), name.as_str());
            if path::same_path(input, resolved.as_str()) {
                Err(EditorError::OverOriginal)
            } else {
                Ok(())
            }
        },
    }
}

/// Where an export is written until it is complete: beside its place, hidden,
/// under a name with an identifier of its own.
pub open spec fn hidden_path(output_path: Seq<char>, id: Seq<char>) -> Seq<char> {
    let parent = match path::parent_of(output_path) {
        Some(dir) => dir,
        None => seq![],
    };
    let stem = match path::file_stem_of(output_path) {
        Some(s) => s,
        None => "clip"@,
    };
    let extension = match path::extension_of(output_path) {
        Some(e) => e,
        None => "video"@,
    };
    path::joined_path(parent, "."@ + stem + "."@ + id + ".tmp."@ + extension)
}

/// The hidden path with the given identifier.
pub fn hidden_output_path(output_path: &str, id: &str) -> (r: String)
    ensures
        r@ == hidden_path(output_path@, id@),
{
    let parent: String = match path::parent(output_path) {
        Some(dir) => dir,
        None => String::new(),
    };
    let mut name: String = ".".to_owned();
    match path::file_stem(output_path) {
        Some(s) => {
            name.append(s.as_str());
        },
        None => {
            name.append("clip");
        },
    }
    name.append(".");
    name.append(id);
    name.append(".tmp.");
    match path::extension(output_path) {
        Some(e) => {
            name.append(e.as_str());
        },
        None => {
            name.append("video");
        },
    }
    path::join_path(parent.as_str(), name.as_str())
}

/// The hidden path with a new identifier.
pub fn temporary_output_path(output_path: &str) -> (r: String)
    ensures
        exists|id: Seq<char>|
            stamp::is_uuid(id) && r@ == #[trigger] hidden_path(output_path@, id),
{
    let id = stamp::new_uuid();
    hidden_output_path(output_path, id.as_str())
}

/// A character as it stands in a text that FFmpeg draws.
pub open spec fn drawn_char(c: char) -> Seq<char> {
    if c == '\\' {
        "\\\\"@
    } else if c == ':' {
        "\\:"@
    } else if c == '\'' {
        "\\'"@
    } else if c == '%' {
        "\\%"@
    } else if c == '\n' || c == '\r' || c == '\t' {
        " "@
    } else {
        seq![c]
    }
}

pub open spec fn drawn_text(s: Seq<char>) -> Seq<char>
    decreases s.len(),
{
    if s.len() == 0 {
        seq![]
    } else {
        drawn_text(s.drop_last()) + drawn_char(s.last())
    }
}

pub fn escape_drawtext_value(input: &str) -> (r: String)
    ensures
        r@ == drawn_text(input@),
{
    let v = text::chars_of(input);
    let mut r: String = String::new();
    let mut i: usize = 0;
    while i < v.len()
        invariant
            i <= v.len(),
            v@ == input@,
            r@ == drawn_text(input@.subrange(0, i as int)),
        decreases v.len() - i,
    {
        assert(input@.subrange(0, i + 1).drop_last() == input@.subrange(0, i as int));
        let c: char = v[i];
        let ghost before = r@;
        if c == '\\' {
            r.append("\\\\");
        } else if c == ':' {
            r.append("\\:");
        } else if c == '\'' {
            r.append("\\'");
        } else if c == '%' {
            r.append("\\%");
        } else if c == '\n' || c == '\r' || c == '\t' {
            r.append(" ");
        } else {
            r.push(c);
            assert(r@ =~= before + seq![c]);
        }
        i = i + 1;
    }
    assert(input@.subrange(0, input@.len() as int) == input@);
    r
}

/// Where a font for text in a picture may lie, the program's own first.
pub fn font_paths(program_dir: &str) -> (r: Vec<String>)
    ensures
        text::texts(r@) == seq![
            path::joined_path(program_dir@, "assets/fonts/Inter-Regular.ttf"@),
            "/usr/share/fonts/truetype/dejavu/DejaVuSans.ttf"@,
            "/usr/share/fonts/truetype/liberation2/LiberationSans-Regular.ttf"@,
        ],
{
    let own = path::join_path(program_dir, "assets/fonts/Inter-Regular.ttf");
    let r = text::owned_texts(
        &[
            own.as_str(),
            "/usr/share/fonts/truetype/dejavu/DejaVuSans.ttf",
            "/usr/share/fonts/truetype/liberation2/LiberationSans-Regular.ttf",
        ],
    );
    assert(text::texts(r@) =~= seq![
        path::joined_path(program_dir@, "assets/fonts/Inter-Regular.ttf"@),
        "/usr/share/fonts/truetype/dejavu/DejaVuSans.ttf"@,
        "/usr/share/fonts/truetype/liberation2/LiberationSans-Regular.ttf"@,
    ]);
    r
}

/// A font file that may be there.
#[derive(Debug)]
pub struct FontFile {
    pub path: String,
    pub is_file: bool,
}

/// The first font that is there.
pub fn find_drawtext_font(candidates: &Vec<FontFile>) -> (r: Option<String>)
    ensures
        match r {
            Some(font) => exists|i: int|
                0 <= i < candidates@.len() && (#[trigger] candidates@[i]).is_file
                    && candidates@[i].path@ == font@ && forall|j: int|
                    0 <= j < i ==> !(#[trigger] candidates@[j]).is_file,
            None => forall|i: int|
                0 <= i < candidates@.len() ==> !(#[trigger] candidates@[i]).is_file,
        },
{
    let mut i: usize = 0;
    while i < candidates.len()
        invariant
            i <= candidates.len(),
            forall|j: int| 0 <= j < i ==> !(#[trigger] candidates@[j]).is_file,
        decreases candidates.len() - i,
    {
        if candidates[i].is_file {
            return Some(candidates[i].path.clone());
        }
        i = i + 1;
    }
    None
}

/// The filter that makes an upright picture.
pub open spec fn upright_filter(layout: Option<SocialLayout>, with_text: bool) -> Seq<char> {
    match layout {
        Some(SocialLayout::VerticalCrop) =>
            "[0:v]scale=1080:1920:force_original_aspect_ratio=increase,crop=1080:1920,format=yuv420p[v]"@,
        _ =>
            "[0:v]scale=1080:1920:force_original_aspect_ratio=increase,crop=1080:1920,boxblur=20:1[bg];[0:v]scale=1080:-2[fg];[bg][fg]overlay=(W-w)/2:"@
            + (if with_text {
            "(H-h)/2+28"@
        } else {
            "(H-h)/2"@
        }) + ",format=yuv420p[v]"@,
    }
}

pub fn social_filter(request: &ClipEditRequest, reserve_text_space: bool) -> (r: String)
    ensures
        r@ == upright_filter(request.layout, reserve_text_space),
{
    match request.layout {
        Some(SocialLayout::VerticalCrop) =>
            "[0:v]scale=1080:1920:force_original_aspect_ratio=increase,crop=1080:1920,format=yuv420p[v]".to_owned(),
        _ => {
            let mut r: String =
                "[0:v]scale=1080:1920:force_original_aspect_ratio=increase,crop=1080:1920,boxblur=20:1[bg];[0:v]scale=1080:-2[fg];[bg][fg]overlay=(W-w)/2:".to_owned();
            if reserve_text_space {
                r.append("(H-h)/2+28");
            } else {
                r.append("(H-h)/2");
            }
            r.append(",format=yuv420p[v]");
            r
        },
    }
}

/// A text that holds more than white space, trimmed.
pub open spec fn said(o: Option<String>) -> Option<Seq<char>> {
    match o {
        Some(s) => if text::trim_of(s@).len() > 0 {
            Some(text::trim_of(s@))
        } else {
            None
        },
        None => None,
    }
}

fn said_text(o: &Option<String>) -> (r: Option<&str>)
    ensures
        text::opt_str(r) == said(*o),
{
    match o {
        Some(s) => {
            let trimmed = text::trim(s.as_str());
            if trimmed.unicode_len() > 0 {
                Some(trimmed)
            } else {
                None
            }
        },
        None => None,
    }
}

pub open spec fn text_wanted(request: ClipEditRequest) -> bool {
    request.watermark || said(request.title) is Some || said(request.subtitle) is Some
}

pub fn social_text_requested(request: &ClipEditRequest) -> (r: bool)
    ensures
        r == text_wanted(*request),
{
    request.watermark || said_text(&request.title).is_some() || said_text(
        &request.subtitle,
    ).is_some()
}

/// One drawn text.
pub open spec fn drawing(font: Seq<char>, shown: Seq<char>, place: Seq<char>) -> Seq<char> {
    ",drawtext=fontfile='"@ + drawn_text(font) + "':text='"@ + shown + place
}

fn push_drawing(filter: &mut String, font: &str, shown: &str, place: &str)
    ensures
        final(filter)@ == old(filter)@ + drawing(font@, shown@, place@),
{
    let ghost before = filter@;
    filter.append(",drawtext=fontfile='");
    filter.append(escape_drawtext_value(font).as_str());
    filter.append("':text='");
    filter.append(shown);
    filter.append(place);
    assert(filter@ =~= before + drawing(font@, shown@, place@));
}

pub open spec fn title_place() -> Seq<char> {
    "':fontcolor=white:fontsize=58:x=(w-text_w)/2:y=150:box=1:boxcolor=black@0.36:boxborderw=24"@
}

pub open spec fn subtitle_place() -> Seq<char> {
    "':fontcolor=white:fontsize=34:x=(w-text_w)/2:y=1720:box=1:boxcolor=black@0.30:boxborderw=18"@
}

pub open spec fn watermark_place() -> Seq<char> {
    "':fontcolor=white@0.82:fontsize=30:x=w-text_w-44:y=h-text_h-42:box=1:boxcolor=black@0.22:boxborderw=12"@
}

pub const TITLE_SHOWN: usize = 80;

pub const SUBTITLE_SHOWN: usize = 96;

/// Without the mark `[v]` at the end, as often as it stands there.
pub open spec fn unmarked(filter: Seq<char>) -> Seq<char>
    decreases filter.len(),
{
    match text::strip_suffix_of(filter, "[v]"@) {
        Some(rest) => if rest.len() < filter.len() {
            unmarked(rest)
        } else {
            filter
        },
        None => filter,
    }
}

fn without_mark(filter: &str) -> (r: &str)
    ensures
        r@ == unmarked(filter@),
    decreases filter@.len(),
{
    match text::strip_suffix(filter, "[v]") {
        Some(rest) => if rest.unicode_len() < filter.unicode_len() {
            without_mark(rest)
        } else {
            filter
        },
        None => filter,
    }
}

/// The filter that makes an upright picture and draws the title, the subtitle
/// and the watermark that are asked for.
pub open spec fn text_filter(request: ClipEditRequest, font: Seq<char>) -> Seq<char> {
    let base = unmarked(upright_filter(request.layout, true));
    let titled = match said(request.title) {
        Some(t) => base + drawing(
            font,
            drawn_text(truncated(t, TITLE_SHOWN as nat)),
            title_place(),
        ),
        None => base,
    };
    let subtitled = match said(request.subtitle) {
        Some(t) => titled + drawing(
            font,
            drawn_text(truncated(t, SUBTITLE_SHOWN as nat)),
            subtitle_place(),
        ),
        None => titled,
    };
    let marked = if request.watermark {
        subtitled + drawing(font, "WT Clip"@, watermark_place())
    } else {
        subtitled
    };
    marked + "[v]"@
}

pub fn social_filter_with_text(request: &ClipEditRequest, font: &str) -> (r: String)
    ensures
        r@ == text_filter(*request, font@),
{
    let base = social_filter(request, true);
    let mut filter: String = without_mark(base.as_str()).to_owned();
    if let Some(title) = said_text(&request.title) {
        push_drawing(
            &mut filter,
            font,
            escape_drawtext_value(truncate_text(title, TITLE_SHOWN).as_str()).as_str(),
            "':fontcolor=white:fontsize=58:x=(w-text_w)/2:y=150:box=1:boxcolor=black@0.36:boxborderw=24",
        );
    }
    if let Some(subtitle) = said_text(&request.subtitle) {
        push_drawing(
            &mut filter,
            font,
            escape_drawtext_value(truncate_text(subtitle, SUBTITLE_SHOWN).as_str()).as_str(),
            "':fontcolor=white:fontsize=34:x=(w-text_w)/2:y=1720:box=1:boxcolor=black@0.30:boxborderw=18",
        );
    }
    if request.watermark {
        push_drawing(
            &mut filter,
            font,
            "WT Clip",
            "':fontcolor=white@0.82:fontsize=30:x=w-text_w-44:y=h-text_h-42:box=1:boxcolor=black@0.22:boxborderw=12",
        );
    }
    filter.append("[v]");
    filter
}

/// The arguments with which every run begins: quiet, and the cut of the clip.
pub open spec fn input_args(request: ClipEditRequest, input: Seq<char>) -> Seq<Seq<char>> {
    seq![
        "-y"@,
        "-hide_banner"@,
        "-loglevel"@,
        "error"@,
        "-ss"@,
        seconds_text(request.start_seconds),
        "-to"@,
        seconds_text(request.end_seconds),
        "-i"@,
        input,
    ]
}

fn cut_args(request: &ClipEditRequest, input: &str) -> (r: Vec<String>)
    ensures
        text::texts(r@) == input_args(*request, input@),
{
    let start = format_seconds_arg(request.start_seconds);
    let end = format_seconds_arg(request.end_seconds);
    let r = text::owned_texts(
        &[
            "-y",
            "-hide_banner",
            "-loglevel",
            "error",
            "-ss",
            start.as_str(),
            "-to",
            end.as_str(),
            "-i",
            input,
        ],
    );
    assert(text::texts(r@) =~= input_args(*request, input@));
    r
}

fn push_args(args: &mut Vec<String>, more: &[&str])
    ensures
        text::texts(final(args)@) == text::texts(old(args)@) + text::strs(more@),
{
    let ghost before = args@;
    let mut added = text::owned_texts(more);
    let ghost extra = added@;
    args.append(&mut added);
    assert(text::texts(args@) =~= text::texts(before) + text::texts(extra));
}

/// Cutting without encoding anew.
pub open spec fn copy_args(
    request: ClipEditRequest,
    input: Seq<char>,
    tmp: Seq<char>,
) -> Seq<Seq<char>> {
    input_args(request, input) + seq![
        "-map"@,
        "0:v:0"@,
        "-map"@,
        "0:a?"@,
        "-c"@,
        "copy"@,
        "-avoid_negative_ts"@,
        "make_zero"@,
        tmp,
    ]
}

pub fn trim_copy_args(request: &ClipEditRequest, input: &str, tmp: &str) -> (r: Vec<String>)
    ensures
        text::texts(r@) == copy_args(*request, input@, tmp@),
{
    let mut r = cut_args(request, input);
    push_args(
        &mut r,
        &[
            "-map",
            "0:v:0",
            "-map",
            "0:a?",
            "-c",
            "copy",
            "-avoid_negative_ts",
            "make_zero",
            tmp,
        ],
    );
    assert(text::texts(r@) =~= copy_args(*request, input@, tmp@));
    r
}

pub open spec fn fps_text(request: ClipEditRequest) -> Seq<char> {
    text::decimal(clamped(request.fps, 24, 120) as nat)
}

pub open spec fn bitrate_text(request: ClipEditRequest) -> Seq<char> {
    text::decimal(clamped(request.bitrate_kbps, 2_000, 30_000) as nat) + "k"@
}

/// The encoders of a format.
pub open spec fn codec_args(request: ClipEditRequest, format: OutputFormat) -> Seq<Seq<char>> {
    match format {
        OutputFormat::Mp4 => seq![
            "-c:v"@,
            "libx264"@,
            "-preset"@,
            "veryfast"@,
            "-crf"@,
            "20"@,
            "-r"@,
            fps_text(request),
            "-pix_fmt"@,
            "yuv420p"@,
            "-c:a"@,
            "aac"@,
            "-b:a"@,
            "160k"@,
            "-movflags"@,
            "+faststart"@,
        ],
        OutputFormat::Webm => seq![
            "-c:v"@,
            "libvpx-vp9"@,
            "-deadline"@,
            "realtime"@,
            "-cpu-used"@,
            "4"@,
            "-b:v"@,
            bitrate_text(request),
            "-r"@,
            fps_text(request),
            "-pix_fmt"@,
            "yuv420p"@,
            "-c:a"@,
            "libopus"@,
            "-b:a"@,
            "160k"@,
        ],
    }
}

fn fps_arg(request: &ClipEditRequest) -> (r: String)
    ensures
        r@ == fps_text(*request),
{
    text::decimal_text(sanitized_fps(request.fps) as u128)
}

fn bitrate_arg(request: &ClipEditRequest) -> (r: String)
    ensures
        r@ == bitrate_text(*request),
{
    text::join2(text::decimal_text(sanitized_bitrate(request.bitrate_kbps) as u128).as_str(), "k")
}

pub fn append_video_codec_args(
    args: &mut Vec<String>,
    request: &ClipEditRequest,
    format: OutputFormat,
)
    ensures
        text::texts(final(args)@) == text::texts(old(args)@) + codec_args(*request, format),
{
    let ghost before = text::texts(args@);
    let fps = fps_arg(request);
    let bitrate = bitrate_arg(request);
    match format {
        OutputFormat::Mp4 => {
            push_args(
                args,
                &[
                    "-c:v",
                    "libx264",
                    "-preset",
                    "veryfast",
                    "-crf",
                    "20",
                    "-r",
                    fps.as_str(),
                    "-pix_fmt",
                    "yuv420p",
                    "-c:a",
                    "aac",
                    "-b:a",
                    "160k",
                    "-movflags",
                    "+faststart",
                ],
            );
        },
        OutputFormat::Webm => {
            push_args(
                args,
                &[
                    "-c:v",
                    "libvpx-vp9",
                    "-deadline",
                    "realtime",
                    "-cpu-used",
                    "4",
                    "-b:v",
                    bitrate.as_str(),
                    "-r",
                    fps.as_str(),
                    "-pix_fmt",
                    "yuv420p",
                    "-c:a",
                    "libopus",
                    "-b:a",
                    "160k",
                ],
            );
        },
    }
    assert(text::texts(args@) =~= before + codec_args(*request, format));
}

/// Cutting and encoding anew.
pub open spec fn encode_args(
    request: ClipEditRequest,
    input: Seq<char>,
    tmp: Seq<char>,
    format: OutputFormat,
) -> Seq<Seq<char>> {
    input_args(request, input) + seq!["-map"@, "0:v:0"@, "-map"@, "0:a?"@] + codec_args(
        request,
        format,
    ) + seq![tmp]
}

pub fn horizontal_encode_args(
    request: &ClipEditRequest,
    input: &str,
    tmp: &str,
    format: OutputFormat,
) -> (r: Vec<String>)
    ensures
        text::texts(r@) == encode_args(*request, input@, tmp@, format),
{
    let mut r = cut_args(request, input);
    push_args(&mut r, &["-map", "0:v:0", "-map", "0:a?"]);
    assert(text::texts(r@) =~= input_args(*request, input@) + seq![
        "-map"@,
        "0:v:0"@,
        "-map"@,
        "0:a?"@,
    ]);
    append_video_codec_args(&mut r, request, format);
    let ghost before = text::texts(r@);
    r.push(tmp.to_owned());
    assert(text::texts(r@) =~= before + seq![tmp@]);
    r
}

/// Cutting and encoding an upright picture.
pub open spec fn social_args(
    request: ClipEditRequest,
    input: Seq<char>,
    tmp: Seq<char>,
    filter: Seq<char>,
) -> Seq<Seq<char>> {
    input_args(request, input) + seq![
        "-filter_complex"@,
        filter,
        "-map"@,
        "[v]"@,
        "-map"@,
        "0:a?"@,
        "-c:v"@,
        "libx264"@,
        "-preset"@,
        "veryfast"@,
        "-b:v"@,
        bitrate_text(request),
        "-r"@,
        fps_text(request),
        "-pix_fmt"@,
        "yuv420p"@,
        "-c:a"@,
        "aac"@,
        "-b:a"@,
        "160k"@,
        "-movflags"@,
        "+faststart"@,
        tmp,
    ]
}

pub fn social_encode_args(
    request: &ClipEditRequest,
    input: &str,
    tmp: &str,
    filter: &str,
) -> (r: Vec<String>)
    ensures
        text::texts(r@) == social_args(*request, input@, tmp@, filter@),
{
    let fps = fps_arg(request);
    let bitrate = bitrate_arg(request);
    let mut r = cut_args(request, input);
    push_args(
        &mut r,
        &[
            "-filter_complex",
            filter,
            "-map",
            "[v]",
            "-map",
            "0:a?",
            "-c:v",
            "libx264",
            "-preset",
            "veryfast",
            "-b:v",
            bitrate.as_str(),
            "-r",
            fps.as_str(),
            "-pix_fmt",
            "yuv420p",
            "-c:a",
            "aac",
            "-b:a",
            "160k",
            "-movflags",
            "+faststart",
            tmp,
        ],
    );
    assert(text::texts(r@) =~= social_args(*request, input@, tmp@, filter@));
    r
}

/// The arguments that take one picture of a video.
pub fn thumbnail_args(video: &str, thumbnail: &str) -> (r: Vec<String>)
    ensures
        text::texts(r@) == seq![
            "-y"@,
            "-hide_banner"@,
            "-loglevel"@,
            "error"@,
            "-i"@,
            video@,
            "-vframes"@,
            "1"@,
            "-s"@,
            "640x360"@,
            thumbnail@,
        ],
{
    let r = text::owned_texts(
        &[
            "-y",
            "-hide_banner",
            "-loglevel",
            "error",
            "-i",
            video,
            "-vframes",
            "1",
            "-s",
            "640x360",
            thumbnail,
        ],
    );
    assert(text::texts(r@) =~= seq![
        "-y"@,
        "-hide_banner"@,
        "-loglevel"@,
        "error"@,
        "-i"@,
        video@,
        "-vframes"@,
        "1"@,
        "-s"@,
        "640x360"@,
        thumbnail@,
    ]);
    r
}

/// What the user is told of the progress of an export.
pub open spec fn tells(
    p: EditorExportProgressPayload,
    step: EditorExportProgressStep,
    progress: u8,
    message: Seq<char>,
    active: bool,
    output_path: Option<Seq<char>>,
    error: Option<Seq<char>>,
) -> bool {
    &&& p.step == step
    &&& p.progress == progress
    &&& p.message@ == message
    &&& p.active == active
    &&& text::opt_text(p.output_path) == output_path
    &&& text::opt_text(p.error) == error
}

pub fn editor_progress(
    step: EditorExportProgressStep,
    progress: u8,
    message: &str,
    active: bool,
    output_path: Option<String>,
    error: Option<String>,
) -> (r: EditorExportProgressPayload)
    ensures
        tells(
            r,
            step,
            progress,
            message@,
            active,
            text::opt_text(output_path),
            text::opt_text(error),
        ),
{
    EditorExportProgressPayload {
        active,
        step,
        progress,
        message: message.to_owned(),
        output_path,
        error,
    }
}

/// One run of FFmpeg that may make the export.
#[derive(Debug)]
pub struct ExportAttempt {
    /// What the user is told before it, if anything.
    pub announce: Option<EditorExportProgressPayload>,
    /// What the run is called when it fails.
    pub label: String,
    pub args: Vec<String>,
}

/// What an attempt announces, how it is called, and its arguments.
pub open spec fn is_attempt(
    a: ExportAttempt,
    announced: Option<(u8, Seq<char>)>,
    label: Seq<char>,
    args: Seq<Seq<char>>,
) -> bool {
    &&& match announced {
        Some(said) => a.announce matches Some(p) && tells(
            p,
            EditorExportProgressStep::Encoding,
            said.0,
            said.1,
            true,
            None,
            None,
        ),
        None => a.announce is None,
    }
    &&& a.label@ == label
    &&& text::texts(a.args@) == args
}

fn attempt(announced: Option<(u8, &str)>, label: &str, args: Vec<String>) -> (r: ExportAttempt)
    ensures
        is_attempt(
            r,
            match announced {
                Some(said) => Some((said.0, said.1@)),
                None => None,
            },
            label@,
            text::texts(args@),
        ),
{
    let announce: Option<EditorExportProgressPayload> = match announced {
        Some(said) => Some(
            editor_progress(
                EditorExportProgressStep::Encoding,
                said.0,
                said.1,
                true,
                None,
                None,
            ),
        ),
        None => None,
    };
    ExportAttempt { announce, label: label.to_owned(), args }
}

/// The runs that may make an export, in the order in which they are tried:
/// a WebM cut is copied first and encoded anew only where that fails, and an
/// upright picture is tried with its texts first and then without them.
pub open spec fn attempts_for(
    attempts: Seq<ExportAttempt>,
    request: ClipEditRequest,
    input: Seq<char>,
    tmp: Seq<char>,
    font: Option<Seq<char>>,
) -> bool {
    match request.mode {
        ClipEditorMode::TrimOriginal => if request.output_format is Webm {
            &&& attempts.len() == 2
            &&& is_attempt(
                attempts[0],
                None,
                "Trim rapide FFmpeg"@,
                copy_args(request, input, tmp),
            )
            &&& is_attempt(
                attempts[1],
                Some((60u8, "Trim precis avec reencodage..."@)),
                "Encodage FFmpeg"@,
                encode_args(request, input, tmp, OutputFormat::Webm),
            )
        } else {
            &&& attempts.len() == 1
            &&& is_attempt(
                attempts[0],
                Some((60u8, "Encodage du clip coupe..."@)),
                "Encodage FFmpeg"@,
                encode_args(request, input, tmp, OutputFormat::Mp4),
            )
        },
        ClipEditorMode::YoutubeHorizontal => {
            &&& attempts.len() == 1
            &&& is_attempt(
                attempts[0],
                Some((60u8, "Encodage YouTube horizontal..."@)),
                "Encodage FFmpeg"@,
                encode_args(request, input, tmp, OutputFormat::Mp4),
            )
        },
        ClipEditorMode::SocialVertical => if text_wanted(request) && font is Some {
            &&& attempts.len() == 2
            &&& is_attempt(
                attempts[0],
                Some((60u8, "Encodage vertical social..."@)),
                "Encodage vertical FFmpeg"@,
                social_args(request, input, tmp, text_filter(request, font->0)),
            )
            &&& is_attempt(
                attempts[1],
                Some((65u8, "Texte indisponible, export video sans incrustation..."@)),
                "Encodage vertical FFmpeg"@,
                social_args(request, input, tmp, upright_filter(request.layout, false)),
            )
        } else {
            &&& attempts.len() == 1
            &&& is_attempt(
                attempts[0],
                Some((60u8, "Encodage vertical social..."@)),
                "Encodage vertical FFmpeg"@,
                social_args(request, input, tmp, upright_filter(request.layout, false)),
            )
        },
    }
}

/// The option `key` with `value` stands at `p` among the arguments of a run. The
/// first two arguments stand alone, then options and values take turns, and the
/// last argument names the output.
pub open spec fn has_option(args: Seq<Seq<char>>, p: int, key: Seq<char>, value: Seq<char>) -> bool {
    2 <= p < args.len() - 2 && p % 2 == 0 && args[p] == key && args[p + 1] == value
}

/// The option `key` does not stand at `from` or behind it.
pub open spec fn has_no_option(args: Seq<Seq<char>>, from: int, key: Seq<char>) -> bool {
    forall|p: int| from <= p < args.len() - 2 && p % 2 == 0 ==> #[trigger] args[p] != key
}

/// A run that reads `input` from `start` to `end` and writes `tmp`: both points
/// are told before the input, to which they then apply, and nothing behind it
/// reads more or cuts again.
pub open spec fn is_cut(
    args: Seq<Seq<char>>,
    input: Seq<char>,
    start: Seq<char>,
    end: Seq<char>,
    tmp: Seq<char>,
) -> bool {
    &&& args.len() >= 3
    &&& args.len() % 2 == 1
    &&& args.last() == tmp
    &&& args.subrange(0, 2).contains("-y"@)
    &&& exists|s: int, e: int, i: int|
        {
            &&& #[trigger] has_option(args, s, "-ss"@, start)
            &&& #[trigger] has_option(args, e, "-to"@, end)
            &&& #[trigger] has_option(args, i, "-i"@, input)
            &&& s < i
            &&& e < i
            &&& s != e
            &&& has_no_option(args, i + 2, "-ss"@)
            &&& has_no_option(args, i + 2, "-to"@)
            &&& has_no_option(args, i + 2, "-t"@)
            &&& has_no_option(args, i + 2, "-i"@)
        }
}

/// An option that neither reads nor cuts.
spec fn is_other_option(key: Seq<char>) -> bool {
    key.len() >= 2 && key.len() != 3 && (key.len() == 2 ==> key[1] != 't' && key[1] != 'i')
}

proof fn lemma_cut_begins_a_run(
    request: ClipEditRequest,
    input: Seq<char>,
    more: Seq<Seq<char>>,
    tmp: Seq<char>,
)
    requires
        more.len() % 2 == 0,
        forall|j: int|
            0 <= j < more.len() && j % 2 == 0 ==> is_other_option(#[trigger] more[j]),
    ensures
        is_cut(
            input_args(request, input) + more + seq![tmp],
            input,
            number::with_thousandths(request.start_seconds),
            number::with_thousandths(request.end_seconds),
            tmp,
        ),
{
    let args = input_args(request, input) + more + seq![tmp];
    let start = number::with_thousandths(request.start_seconds);
    let end = number::with_thousandths(request.end_seconds);
    assert(args.subrange(0, 2)[0] == "-y"@);
    assert(has_option(args, 4, "-ss"@, start));
    assert(has_option(args, 6, "-to"@, end));
    assert(has_option(args, 8, "-i"@, input));
    reveal_strlit("-ss");
    reveal_strlit("-to");
    reveal_strlit("-t");
    reveal_strlit("-i");
    assert("-t"@[1] == 't');
    assert("-i"@[1] == 'i');
    assert forall|p: int| 10 <= p < args.len() - 2 && p % 2 == 0 implies is_other_option(
        #[trigger] args[p],
    ) by {
        assert(args[p] == more[p - 10]);
    }
    assert(has_no_option(args, 10, "-ss"@));
    assert(has_no_option(args, 10, "-to"@));
    assert(has_no_option(args, 10, "-t"@));
    assert(has_no_option(args, 10, "-i"@));
}

proof fn lemma_other_options()
    ensures
        is_other_option("-map"@),
        is_other_option("-c"@),
        is_other_option("-avoid_negative_ts"@),
        is_other_option("-c:v"@),
        is_other_option("-preset"@),
        is_other_option("-crf"@),
        is_other_option("-r"@),
        is_other_option("-pix_fmt"@),
        is_other_option("-c:a"@),
        is_other_option("-b:a"@),
        is_other_option("-movflags"@),
        is_other_option("-deadline"@),
        is_other_option("-cpu-used"@),
        is_other_option("-b:v"@),
        is_other_option("-filter_complex"@),
{
    reveal_strlit("-map");
    reveal_strlit("-c");
    reveal_strlit("-avoid_negative_ts");
    reveal_strlit("-c:v");
    reveal_strlit("-preset");
    reveal_strlit("-crf");
    reveal_strlit("-r");
    reveal_strlit("-pix_fmt");
    reveal_strlit("-c:a");
    reveal_strlit("-b:a");
    reveal_strlit("-movflags");
    reveal_strlit("-deadline");
    reveal_strlit("-cpu-used");
    reveal_strlit("-b:v");
    reveal_strlit("-filter_complex");
    assert("-c"@[1] == 'c');
    assert("-r"@[1] == 'r');
}

proof fn lemma_copy_is_cut(request: ClipEditRequest, input: Seq<char>, tmp: Seq<char>)
    ensures
        is_cut(
            copy_args(request, input, tmp),
            input,
            number::with_thousandths(request.start_seconds),
            number::with_thousandths(request.end_seconds),
            tmp,
        ),
{
    lemma_other_options();
    let copied = seq![
        "-map"@,
        "0:v:0"@,
        "-map"@,
        "0:a?"@,
        "-c"@,
        "copy"@,
        "-avoid_negative_ts"@,
        "make_zero"@,
    ];
    lemma_cut_begins_a_run(request, input, copied, tmp);
    assert(copy_args(request, input, tmp) =~= input_args(request, input) + copied + seq![tmp]);
}

proof fn lemma_encoding_is_cut(
    request: ClipEditRequest,
    input: Seq<char>,
    tmp: Seq<char>,
    format: OutputFormat,
)
    ensures
        is_cut(
            encode_args(request, input, tmp, format),
            input,
            number::with_thousandths(request.start_seconds),
            number::with_thousandths(request.end_seconds),
            tmp,
        ),
{
    lemma_other_options();
    let codec = codec_args(request, format);
    let more = seq!["-map"@, "0:v:0"@, "-map"@, "0:a?"@] + codec;
    assert(codec.len() == 16);
    assert forall|j: int| 0 <= j < more.len() && j % 2 == 0 implies is_other_option(
        #[trigger] more[j],
    ) by {
        if j >= 4 {
            assert(more[j] == codec[j - 4]);
            match format {
                OutputFormat::Mp4 => {},
                OutputFormat::Webm => {},
            }
        }
    }
    lemma_cut_begins_a_run(request, input, more, tmp);
    assert(encode_args(request, input, tmp, format) =~= input_args(request, input) + more
        + seq![tmp]);
}

proof fn lemma_upright_is_cut(
    request: ClipEditRequest,
    input: Seq<char>,
    tmp: Seq<char>,
    filter: Seq<char>,
)
    ensures
        is_cut(
            social_args(request, input, tmp, filter),
            input,
            number::with_thousandths(request.start_seconds),
            number::with_thousandths(request.end_seconds),
            tmp,
        ),
{
    lemma_other_options();
    let all = social_args(request, input, tmp, filter);
    let more = all.subrange(10, all.len() - 1);
    assert(all.len() == 33);
    assert(more[0] == "-filter_complex"@);
    assert(more[2] == "-map"@);
    assert(more[4] == "-map"@);
    assert(more[6] == "-c:v"@);
    assert(more[8] == "-preset"@);
    assert(more[10] == "-b:v"@);
    assert(more[12] == "-r"@);
    assert(more[14] == "-pix_fmt"@);
    assert(more[16] == "-c:a"@);
    assert(more[18] == "-b:a"@);
    assert(more[20] == "-movflags"@);
    assert(all.last() == tmp);
    assert(all.subrange(0, 10) =~= input_args(request, input));
    lemma_cut_begins_a_run(request, input, more, tmp);
    assert(all =~= input_args(request, input) + more + seq![tmp]);
}

/// Each run of an export, whatever its mode, cuts the clip to the part that is
/// asked for, told to the thousandth of a second, and writes it to the given file.
pub proof fn lemma_every_run_cuts_the_clip(
    attempts: Seq<ExportAttempt>,
    request: ClipEditRequest,
    input: Seq<char>,
    tmp: Seq<char>,
    font: Option<Seq<char>>,
)
    requires
        attempts_for(attempts, request, input, tmp, font),
    ensures
        1 <= attempts.len() <= 2,
        forall|k: int|
            0 <= k < attempts.len() ==> is_cut(
                text::texts((#[trigger] attempts[k]).args@),
                input,
                number::with_thousandths(request.start_seconds),
                number::with_thousandths(request.end_seconds),
                tmp,
            ),
{
    lemma_copy_is_cut(request, input, tmp);
    lemma_encoding_is_cut(request, input, tmp, OutputFormat::Mp4);
    lemma_encoding_is_cut(request, input, tmp, OutputFormat::Webm);
    lemma_upright_is_cut(request, input, tmp, upright_filter(request.layout, false));
    if let Some(font) = font {
        lemma_upright_is_cut(request, input, tmp, text_filter(request, font));
    }
}

/// The option `key` with `value` stands somewhere among the arguments of a run.
pub open spec fn is_run_with(args: Seq<Seq<char>>, key: Seq<char>, value: Seq<char>) -> bool {
    exists|p: int| #[trigger] has_option(args, p, key, value)
}

/// What a run of an export encodes with.
pub open spec fn encodes_with(
    args: Seq<Seq<char>>,
    video: Seq<char>,
    sound: Seq<char>,
    fps: nat,
) -> bool {
    &&& is_run_with(args, "-c:v"@, video)
    &&& is_run_with(args, "-c:a"@, sound)
    &&& is_run_with(args, "-r"@, text::decimal(fps))
    &&& is_run_with(args, "-pix_fmt"@, "yuv420p"@)
    &&& is_run_with(args, "-b:a"@, "160k"@)
    &&& is_run_with(args, "-map"@, "0:a?"@)
}

/// `n`, or the nearest number from `low` to `high`.
pub open spec fn kept_within(n: u32, low: nat, high: nat) -> nat {
    if n < low {
        low
    } else if n > high {
        high
    } else {
        n as nat
    }
}

proof fn lemma_encoders(request: ClipEditRequest, input: Seq<char>, tmp: Seq<char>)
    ensures
        ({
            let fps = kept_within(request.fps, 24, 120);
            let kbps = kept_within(request.bitrate_kbps, 2_000, 30_000);
            let mp4 = encode_args(request, input, tmp, OutputFormat::Mp4);
            let webm = encode_args(request, input, tmp, OutputFormat::Webm);
            &&& is_run_with(copy_args(request, input, tmp), "-c"@, "copy"@)
            &&& encodes_with(mp4, "libx264"@, "aac"@, fps)
            &&& is_run_with(mp4, "-map"@, "0:v:0"@)
            &&& is_run_with(mp4, "-movflags"@, "+faststart"@)
            &&& encodes_with(webm, "libvpx-vp9"@, "libopus"@, fps)
            &&& is_run_with(webm, "-map"@, "0:v:0"@)
            &&& is_run_with(webm, "-b:v"@, text::decimal(kbps) + "k"@)
        }),
{
    let copied = copy_args(request, input, tmp);
    assert(has_option(copied, 14, "-c"@, "copy"@));
    let mp4 = encode_args(request, input, tmp, OutputFormat::Mp4);
    assert(has_option(mp4, 10, "-map"@, "0:v:0"@));
    assert(has_option(mp4, 12, "-map"@, "0:a?"@));
    assert(has_option(mp4, 14, "-c:v"@, "libx264"@));
    assert(has_option(mp4, 20, "-r"@, fps_text(request)));
    assert(has_option(mp4, 22, "-pix_fmt"@, "yuv420p"@));
    assert(has_option(mp4, 24, "-c:a"@, "aac"@));
    assert(has_option(mp4, 26, "-b:a"@, "160k"@));
    assert(has_option(mp4, 28, "-movflags"@, "+faststart"@));
    let webm = encode_args(request, input, tmp, OutputFormat::Webm);
    assert(has_option(webm, 10, "-map"@, "0:v:0"@));
    assert(has_option(webm, 12, "-map"@, "0:a?"@));
    assert(has_option(webm, 14, "-c:v"@, "libvpx-vp9"@));
    assert(has_option(webm, 20, "-b:v"@, bitrate_text(request)));
    assert(has_option(webm, 22, "-r"@, fps_text(request)));
    assert(has_option(webm, 24, "-pix_fmt"@, "yuv420p"@));
    assert(has_option(webm, 26, "-c:a"@, "libopus"@));
    assert(has_option(webm, 28, "-b:a"@, "160k"@));
}

proof fn lemma_upright_encoder(
    request: ClipEditRequest,
    input: Seq<char>,
    tmp: Seq<char>,
    filter: Seq<char>,
)
    ensures
        ({
            let args = social_args(request, input, tmp, filter);
            &&& encodes_with(args, "libx264"@, "aac"@, kept_within(request.fps, 24, 120))
            &&& is_run_with(
                args,
                "-b:v"@,
                text::decimal(kept_within(request.bitrate_kbps, 2_000, 30_000)) + "k"@,
            )
            &&& is_run_with(args, "-map"@, "[v]"@)
            &&& is_run_with(args, "-filter_complex"@, filter)
        }),
{
    let args = social_args(request, input, tmp, filter);
    assert(has_option(args, 10, "-filter_complex"@, filter));
    assert(has_option(args, 12, "-map"@, "[v]"@));
    assert(has_option(args, 14, "-map"@, "0:a?"@));
    assert(has_option(args, 16, "-c:v"@, "libx264"@));
    assert(has_option(args, 20, "-b:v"@, bitrate_text(request)));
    assert(has_option(args, 22, "-r"@, fps_text(request)));
    assert(has_option(args, 24, "-pix_fmt"@, "yuv420p"@));
    assert(has_option(args, 26, "-c:a"@, "aac"@));
    assert(has_option(args, 28, "-b:a"@, "160k"@));
}

/// An export is encoded for its format: H.264 and AAC for MP4, VP9 and Opus for
/// WebM, at the frame rate that is asked for between 24 and 120. Only a cut that
/// stays WebM is copied first. An upright picture goes through a filter.
pub proof fn lemma_runs_encode_for_the_format(
    attempts: Seq<ExportAttempt>,
    request: ClipEditRequest,
    input: Seq<char>,
    tmp: Seq<char>,
    font: Option<Seq<char>>,
)
    requires
        attempts_for(attempts, request, input, tmp, font),
    ensures
        ({
            let fps = kept_within(request.fps, 24, 120);
            let kbps = kept_within(request.bitrate_kbps, 2_000, 30_000);
            let first = text::texts(attempts[0].args@);
            let last = text::texts(attempts.last().args@);
            if request.mode is SocialVertical {
                forall|k: int|
                    0 <= k < attempts.len() ==> {
                        let args = text::texts((#[trigger] attempts[k]).args@);
                        &&& encodes_with(args, "libx264"@, "aac"@, fps)
                        &&& is_run_with(args, "-b:v"@, text::decimal(kbps) + "k"@)
                        &&& is_run_with(args, "-map"@, "[v]"@)
                        &&& exists|f: Seq<char>| #[trigger]
                            is_run_with(args, "-filter_complex"@, f)
                    }
            } else if request.mode is TrimOriginal && request.output_format is Webm {
                &&& attempts.len() == 2
                &&& is_run_with(first, "-c"@, "copy"@)
                &&& encodes_with(last, "libvpx-vp9"@, "libopus"@, fps)
                &&& is_run_with(last, "-b:v"@, text::decimal(kbps) + "k"@)
                &&& is_run_with(last, "-map"@, "0:v:0"@)
            } else {
                &&& attempts.len() == 1
                &&& encodes_with(last, "libx264"@, "aac"@, fps)
                &&& is_run_with(last, "-map"@, "0:v:0"@)
                &&& is_run_with(last, "-movflags"@, "+faststart"@)
            }
        }),
{
    lemma_encoders(request, input, tmp);
    let plain = upright_filter(request.layout, false);
    lemma_upright_encoder(request, input, tmp, plain);
    if let Some(font) = font {
        lemma_upright_encoder(request, input, tmp, text_filter(request, font));
    }
}

pub fn run_video_export(
    request: &ClipEditRequest,
    input_path: &str,
    tmp_path: &str,
    font: Option<&str>,
) -> (r: Vec<ExportAttempt>)
    ensures
        attempts_for(r@, *request, input_path@, tmp_path@, text::opt_str(font)),
        r@.len() >= 1,
{
    let mut attempts: Vec<ExportAttempt> = Vec::new();
    match request.mode {
        ClipEditorMode::TrimOriginal => match effective_output_format(request) {
            OutputFormat::Webm => {
                attempts.push(
                    attempt(
                        None,
                        "Trim rapide FFmpeg",
                        trim_copy_args(request, input_path, tmp_path),
                    ),
                );
                attempts.push(
                    attempt(
                        Some((60, "Trim precis avec reencodage...")),
                        "Encodage FFmpeg",
                        horizontal_encode_args(request, input_path, tmp_path, OutputFormat::Webm),
                    ),
                );
            },
            OutputFormat::Mp4 => {
                attempts.push(
                    attempt(
                        Some((60, "Encodage du clip coupe...")),
                        "Encodage FFmpeg",
                        horizontal_encode_args(request, input_path, tmp_path, OutputFormat::Mp4),
                    ),
                );
            },
        },
        ClipEditorMode::YoutubeHorizontal => {
            attempts.push(
                attempt(
                    Some((60, "Encodage YouTube horizontal...")),
                    "Encodage FFmpeg",
                    horizontal_encode_args(request, input_path, tmp_path, OutputFormat::Mp4),
                ),
            );
        },
        ClipEditorMode::SocialVertical => {
            let base_filter = social_filter(request, false);
            let base_args = social_encode_args(
                request,
                input_path,
                tmp_path,
                base_filter.as_str(),
            );
            let with_text: Option<&str> = if social_text_requested(request) {
                font
            } else {
                None
            };
            match with_text {
                Some(font) => {
                    let filter = social_filter_with_text(request, font);
                    attempts.push(
                        attempt(
                            Some((60, "Encodage vertical social...")),
                            "Encodage vertical FFmpeg",
                            social_encode_args(request, input_path, tmp_path, filter.as_str()),
                        ),
                    );
                    attempts.push(
                        attempt(
                            Some((65, "Texte indisponible, export video sans incrustation...")),
                            "Encodage vertical FFmpeg",
                            base_args,
                        ),
                    );
                },
                None => {
                    attempts.push(
                        attempt(
                            Some((60, "Encodage vertical social...")),
                            "Encodage vertical FFmpeg",
                            base_args,
                        ),
                    );
                },
            }
        },
    }
    attempts
}

/// What follows an attempt.
#[derive(Debug)]
pub enum ExportStep {
    /// The export is written.
    Written,
    /// What was written is removed and the attempt at this position is made.
    Retry(usize),
    /// All that was written is removed and the error is told.
    GiveUp(EditorError),
}

/// The attempt at a position has ended.
pub fn export_attempt_ended(
    attempts: &Vec<ExportAttempt>,
    position: usize,
    run: Option<FinishedRun>,
) -> (r: ExportStep)
    requires
        position < attempts@.len(),
    ensures
        if run matches Some(done) && done.success {
            r is Written
        } else if position + 1 < attempts@.len() {
            r == ExportStep::Retry((position + 1) as usize)
        } else {
            match run {
                None => r matches ExportStep::GiveUp(EditorError::RunNotStarted(l)) && l@
                    == attempts@[position as int].label@,
                Some(done) => r matches ExportStep::GiveUp(
                    EditorError::RunFailed { label, detail },
                ) && label@ == attempts@[position as int].label@ && detail@ == stderr_text(
                    text::text_in(done.stderr@),
                ),
            }
        },
{
    match run_command(attempts[position].label.as_str(), run) {
        Ok(()) => ExportStep::Written,
        Err(error) => if position < attempts.len() - 1 {
            ExportStep::Retry(position + 1)
        } else {
            ExportStep::GiveUp(error)
        },
    }
}

/// Where an export goes and what lies beside it.
#[derive(Debug)]
pub struct ExportPlan {
    pub output_dir: String,
    pub output_path: String,
    pub tmp_path: String,
    pub metadata_path: String,
    pub thumbnail_path: String,
}

/// What the file system says that an export needs to know.
#[derive(Debug)]
pub struct ExportFacts {
    /// The length of the clip.
    pub duration_seconds: Double,
    /// The directory of clips.
    pub base_dir: String,
    /// The paths that exist.
    pub taken: Vec<String>,
    /// The canonical path of the clip.
    pub canonical_input: Option<String>,
    /// The canonical path of the directory of the output.
    pub canonical_output_dir: Option<String>,
}

fn as_str(o: &Option<String>) -> (r: Option<&str>)
    ensures
        text::opt_str(r) == text::opt_text(*o),
{
    match o {
        Some(s) => Some(s.as_str()),
        None => None,
    }
}

/// The plan that belongs to an output path.
pub open spec fn is_plan(
    plan: ExportPlan,
    request: ClipEditRequest,
    facts: ExportFacts,
    id: Seq<char>,
) -> bool {
    &&& plan.output_dir@ == edited_dir(facts.base_dir@, request.mode)
    &&& output::is_unique_choice(
        path::joined_path(plan.output_dir@, edited_name(request, request.clip_path@)),
        text::texts(facts.taken@),
        Ok::<String, OutputError>(plan.output_path),
    )
    &&& plan.tmp_path@ == hidden_path(plan.output_path@, id)
    &&& plan.metadata_path@ == path::with_extension_of(plan.output_path@, "json"@)
    &&& plan.thumbnail_path@ == path::with_extension_of(plan.output_path@, "jpg"@)
}

/// The place of the clip, as far as it is known.
pub open spec fn original_place(request: ClipEditRequest, facts: ExportFacts) -> Seq<char> {
    match facts.canonical_input {
        Some(p) => p@,
        None => request.clip_path@,
    }
}

/// What planning an export gives, once the cut is right and the choice of a name
/// is made: the error of the choice, or that the output has no name or lies at
/// the place of the clip itself, or else the plan.
pub open spec fn planned(
    r: Result<ExportPlan, EditorError>,
    chosen: Result<String, OutputError>,
    request: ClipEditRequest,
    facts: ExportFacts,
    id: Seq<char>,
) -> bool {
    match chosen {
        Ok(p) => match resolved_output(p@, text::opt_text(facts.canonical_output_dir)) {
            None => r matches Err(EditorError::OutputNameInvalid),
            Some(out) => if path::is_same_path(original_place(request, facts), out) {
                r matches Err(EditorError::OverOriginal)
            } else {
                r matches Ok(plan) && plan.output_path@ == p@ && is_plan(plan, request, facts, id)
            },
        },
        Err(fault) => r matches Err(error) && as_editor_choice(
            chosen,
            Err::<String, EditorError>(error),
        ),
    }
}

/// The outcome of planning an export: the cut is checked first, then a name is
/// chosen, and then it is made sure that the clip itself is not written over.
pub open spec fn plan_outcome(
    r: Result<ExportPlan, EditorError>,
    request: ClipEditRequest,
    facts: ExportFacts,
    id: Seq<char>,
) -> bool {
    match trim_fault(request.start_seconds, request.end_seconds, facts.duration_seconds) {
        Some(fault) => r == Err::<ExportPlan, EditorError>(fault),
        None => exists|chosen: Result<String, OutputError>|
            {
                &&& #[trigger] output::is_unique_choice(
                    path::joined_path(
                        edited_dir(facts.base_dir@, request.mode),
                        edited_name(request, request.clip_path@),
                    ),
                    text::texts(facts.taken@),
                    chosen,
                )
                &&& planned(r, chosen, request, facts, id)
            },
    }
}

/// The plan of an export under the given identifier.
pub fn plan_export(request: &ClipEditRequest, facts: &ExportFacts, id: &str) -> (r: Result<
    ExportPlan,
    EditorError,
>)
    ensures
        plan_outcome(r, *request, *facts, id@),
{
    match validate_trim_request(request.start_seconds, request.end_seconds, facts.duration_seconds) {
        Ok(()) => {},
        Err(error) => {
            return Err(error);
        },
    }
    let output_dir = output_base_dir(facts.base_dir.as_str(), request.mode);
    let output_path = match resolve_output_path(
        request,
        request.clip_path.as_str(),
        output_dir.as_str(),
        &facts.taken,
    ) {
        Ok(p) => p,
        Err(error) => {
            return Err(error);
        },
    };
    match ensure_not_original(
        request.clip_path.as_str(),
        output_path.as_str(),
        as_str(&facts.canonical_input),
        as_str(&facts.canonical_output_dir),
    ) {
        Ok(()) => {},
        Err(error) => {
            return Err(error);
        },
    }
    let tmp_path = hidden_output_path(output_path.as_str(), id);
    let metadata_path = path::with_extension(output_path.as_str(), "json");
    let thumbnail_path = path::with_extension(output_path.as_str(), "jpg");
    Ok(ExportPlan { output_dir, output_path, tmp_path, metadata_path, thumbnail_path })
}

/// The plan of an export under a new identifier.
pub fn new_export_plan(request: &ClipEditRequest, facts: &ExportFacts) -> (r: Result<
    ExportPlan,
    EditorError,
>)
    ensures
        exists|id: Seq<char>|
            stamp::is_uuid(id) && #[trigger] plan_outcome(r, *request, *facts, id),
{
    let id = stamp::new_uuid();
    plan_export(request, facts, id.as_str())
}

/// An export never goes to a path that exists, so never to the clip itself
/// where the clip's path is among them.
pub proof fn lemma_export_is_new(
    plan: ExportPlan,
    request: ClipEditRequest,
    facts: ExportFacts,
    id: Seq<char>,
)
    requires
        is_plan(plan, request, facts, id),
    ensures
        !text::texts(facts.taken@).contains(plan.output_path@),
        text::texts(facts.taken@).contains(request.clip_path@) ==> plan.output_path@
            != request.clip_path@,
{
    output::lemma_choice_is_free(
        path::joined_path(plan.output_dir@, edited_name(request, request.clip_path@)),
        text::texts(facts.taken@),
        plan.output_path,
    );
}

/// The files that a failed export may have left.
pub fn cleanup_export_failure(plan: &ExportPlan) -> (r: Vec<String>)
    ensures
        text::texts(r@) == seq![plan.tmp_path@, plan.metadata_path@, plan.thumbnail_path@],
{
    let mut r: Vec<String> = Vec::new();
    r.push(plan.tmp_path.clone());
    r.push(plan.metadata_path.clone());
    r.push(plan.thumbnail_path.clone());
    assert(text::texts(r@) =~= seq![plan.tmp_path@, plan.metadata_path@, plan.thumbnail_path@]);
    r
}

/// The export takes its place, unless something lies there by now.
pub fn finish_export(plan: &ExportPlan, output_exists: bool) -> (r: Result<(), EditorError>)
    ensures
        if output_exists {
            r matches Err(EditorError::OutputExists(p)) && p@ == plan.output_path@
        } else {
            r is Ok
        },
{
    if output_exists {
        Err(EditorError::OutputExists(plan.output_path.clone()))
    } else {
        Ok(())
    }
}

/// What is told of a finished export.
pub fn edited_result(
    plan: &ExportPlan,
    request: &ClipEditRequest,
    has_thumbnail: bool,
    size_bytes: u64,
) -> (r: EditedClipResult)
    ensures
        r.output_path@ == plan.output_path@,
        text::opt_text(r.metadata_path) == Some(plan.metadata_path@),
        text::opt_text(r.thumbnail_path) == (if has_thumbnail {
            Some(plan.thumbnail_path@)
        } else {
            None
        }),
        r.duration_seconds == cut_length(request.start_seconds, request.end_seconds),
        r.size_bytes == size_bytes,
{
    EditedClipResult {
        output_path: plan.output_path.clone(),
        metadata_path: Some(plan.metadata_path.clone()),
        thumbnail_path: if has_thumbnail {
            Some(plan.thumbnail_path.clone())
        } else {
            None
        },
        duration_seconds: edited_duration(request),
        size_bytes,
    }
}

/// How far an export has come.
#[derive(Debug)]
pub enum ExportStage {
    Preparing,
    Trimming,
    Thumbnail,
    Metadata,
    Saving(String),
    Done(String),
    Failed(String),
}

/// What the user is told at each stage.
pub fn stage_progress(stage: ExportStage) -> (r: EditorExportProgressPayload)
    ensures
        match stage {
            ExportStage::Preparing => tells(
                r,
                EditorExportProgressStep::Preparing,
                0,
                "Preparation de l'export..."@,
                true,
                None,
                None,
            ),
            ExportStage::Trimming => tells(
                r,
                EditorExportProgressStep::Trimming,
                15,
                "Application du trim..."@,
                true,
                None,
                None,
            ),
            ExportStage::Thumbnail => tells(
                r,
                EditorExportProgressStep::Thumbnail,
                80,
                "Generation de la miniature..."@,
                true,
                None,
                None,
            ),
            ExportStage::Metadata => tells(
                r,
                EditorExportProgressStep::Metadata,
                90,
                "Ecriture des metadata..."@,
                true,
                None,
                None,
            ),
            ExportStage::Saving(path) => tells(
                r,
                EditorExportProgressStep::Saving,
                95,
                "Sauvegarde du clip exporte..."@,
                true,
                Some(path@),
                None,
            ),
            ExportStage::Done(path) => tells(
                r,
                EditorExportProgressStep::Done,
                100,
                "Export termine"@,
                false,
                Some(path@),
                None,
            ),
            ExportStage::Failed(error) => tells(
                r,
                EditorExportProgressStep::Failed,
                100,
                "Erreur pendant l'export"@,
                false,
                None,
                Some(error@),
            ),
        },
{
    match stage {
        ExportStage::Preparing => editor_progress(
            EditorExportProgressStep::Preparing,
            0,
            "Preparation de l'export...",
            true,
            None,
            None,
        ),
        ExportStage::Trimming => editor_progress(
            EditorExportProgressStep::Trimming,
            15,
            "Application du trim...",
            true,
            None,
            None,
        ),
        ExportStage::Thumbnail => editor_progress(
            EditorExportProgressStep::Thumbnail,
            80,
            "Generation de la miniature...",
            true,
            None,
            None,
        ),
        ExportStage::Metadata => editor_progress(
            EditorExportProgressStep::Metadata,
            90,
            "Ecriture des metadata...",
            true,
            None,
            None,
        ),
        ExportStage::Saving(path) => editor_progress(
            EditorExportProgressStep::Saving,
            95,
            "Sauvegarde du clip exporte...",
            true,
            Some(path),
            None,
        ),
        ExportStage::Done(path) => editor_progress(
            EditorExportProgressStep::Done,
            100,
            "Export termine",
            false,
            Some(path),
            None,
        ),
        ExportStage::Failed(error) => editor_progress(
            EditorExportProgressStep::Failed,
            100,
            "Erreur pendant l'export",
            false,
            None,
            Some(error),
        ),
    }
}

/// What is written down beside an edited clip.
#[derive(Debug)]
pub struct EditedClipMetadata {
    pub created_by: &'static str,
    pub kind: &'static str,
    pub source_video_path: String,
    pub output_video_path: String,
    pub mode: ClipEditorMode,
    pub layout: Option<SocialLayout>,
    pub start_seconds: Double,
    pub end_seconds: Double,
    pub duration_seconds: Double,
    pub title: Option<String>,
    pub subtitle: Option<String>,
    pub watermark: bool,
    pub fps: u32,
    pub bitrate_kbps: u32,
    pub created_at: String,
    pub reason: Option<String>,
}

/// A text, unless it is blank.
pub open spec fn not_blank(o: Option<String>) -> Option<Seq<char>> {
    match o {
        Some(s) => if text::trim_of(s@).len() > 0 {
            Some(s@)
        } else {
            None
        },
        None => None,
    }
}

fn unless_blank(o: &Option<String>) -> (r: Option<String>)
    ensures
        text::opt_text(r) == not_blank(*o),
{
    match o {
        Some(s) => if text::trim(s.as_str()).unicode_len() > 0 {
            Some(s.clone())
        } else {
            None
        },
        None => None,
    }
}

pub open spec fn describes_edit(
    m: EditedClipMetadata,
    request: ClipEditRequest,
    input: Seq<char>,
    output_path: Seq<char>,
    reason: Option<String>,
) -> bool {
    &&& m.created_by@ == "wt-clipper"@
    &&& m.kind@ == "edited_clip"@
    &&& m.source_video_path@ == input
    &&& m.output_video_path@ == output_path
    &&& m.mode == request.mode
    &&& m.layout == request.layout
    &&& m.start_seconds == request.start_seconds
    &&& m.end_seconds == request.end_seconds
    &&& m.duration_seconds == cut_length(request.start_seconds, request.end_seconds)
    &&& text::opt_text(m.title) == not_blank(request.title)
    &&& text::opt_text(m.subtitle) == not_blank(request.subtitle)
    &&& m.watermark == request.watermark
    &&& m.fps == clamped(request.fps, 24, 120)
    &&& m.bitrate_kbps == clamped(request.bitrate_kbps, 2_000, 30_000)
    &&& m.reason == reason
}

/// What is written down of an edit at the given time.
pub fn edited_metadata(
    request: &ClipEditRequest,
    input_path: &str,
    output_path: &str,
    reason: Option<String>,
    created_at: String,
) -> (r: EditedClipMetadata)
    ensures
        describes_edit(r, *request, input_path@, output_path@, reason),
        r.created_at == created_at,
{
    EditedClipMetadata {
        created_by: "wt-clipper",
        kind: "edited_clip",
        source_video_path: input_path.to_owned(),
        output_video_path: output_path.to_owned(),
        mode: request.mode,
        layout: request.layout,
        start_seconds: request.start_seconds,
        end_seconds: request.end_seconds,
        duration_seconds: edited_duration(request),
        title: unless_blank(&request.title),
        subtitle: unless_blank(&request.subtitle),
        watermark: request.watermark,
        fps: sanitized_fps(request.fps),
        bitrate_kbps: sanitized_bitrate(request.bitrate_kbps),
        created_at,
        reason,
    }
}

/// What is written down of an edit now.
pub fn write_edited_metadata(
    request: &ClipEditRequest,
    input_path: &str,
    output_path: &str,
    reason: Option<String>,
) -> (r: EditedClipMetadata)
    ensures
        describes_edit(r, *request, input_path@, output_path@, reason),
        stamp::is_utc_time(r.created_at@),
{
    edited_metadata(
        request,
        input_path,
        output_path,
        reason,
        stamp::utc_time(),
    )
}

/// Where the reason of a clip is written down.
pub fn source_metadata_path(request: &ClipEditRequest, input_path: &str) -> (r: String)
    ensures
        r@ == (match request.metadata_path {
            Some(p) => p@,
            None => path::with_extension_of(input_path@, "json"@),
        }),
{
    match &request.metadata_path {
        Some(p) => p.clone(),
        None => path::with_extension(input_path, "json"),
    }
}

/// A stream of a video file. The length is known where FFprobe gave a finite
/// number.
#[derive(Debug)]
pub struct FfprobeStream {
    pub codec_type: Option<String>,
    pub codec_name: Option<String>,
    pub width: Option<u32>,
    pub height: Option<u32>,
    pub avg_frame_rate: Option<String>,
    pub r_frame_rate: Option<String>,
    pub duration: Option<Double>,
}

/// The file around the streams.
#[derive(Debug)]
pub struct FfprobeFormat {
    pub format_name: Option<String>,
    pub duration: Option<Double>,
    pub size: Option<String>,
}

/// What FFprobe is called with to describe a video.
pub fn media_probe_args(video: &str) -> (r: Vec<String>)
    ensures
        text::texts(r@) == seq![
            "-v"@,
            "error"@,
            "-show_entries"@,
            "format=duration,size,format_name:stream=codec_type,codec_name,width,height,avg_frame_rate,r_frame_rate,duration"@,
            "-of"@,
            "json"@,
            video@,
        ],
{
    let r = text::owned_texts(
        &[
            "-v",
            "error",
            "-show_entries",
            "format=duration,size,format_name:stream=codec_type,codec_name,width,height,avg_frame_rate,r_frame_rate,duration",
            "-of",
            "json",
            video,
        ],
    );
    assert(text::texts(r@) =~= seq![
        "-v"@,
        "error"@,
        "-show_entries"@,
        "format=duration,size,format_name:stream=codec_type,codec_name,width,height,avg_frame_rate,r_frame_rate,duration"@,
        "-of"@,
        "json"@,
        video@,
    ]);
    r
}

/// A number that was read, if it is finite.
pub open spec fn finite_only(read: Option<Double>) -> Option<Double> {
    match read {
        Some(x) => if x.is_finite() {
            Some(x)
        } else {
            None
        },
        None => None,
    }
}

pub fn kept_if_finite(read: Option<Double>) -> (r: Option<Double>)
    ensures
        r == finite_only(read),
{
    match read {
        Some(x) => if x.finite() {
            Some(x)
        } else {
            None
        },
        None => None,
    }
}

pub open spec fn is_video_stream(s: FfprobeStream) -> bool {
    text::opt_text(s.codec_type) == Some("video"@)
}

/// The position of the first video stream.
pub open spec fn video_position(streams: Seq<FfprobeStream>, r: Option<int>) -> bool {
    match r {
        Some(i) => 0 <= i < streams.len() && is_video_stream(streams[i]) && forall|j: int|
            0 <= j < i ==> !is_video_stream(#[trigger] streams[j]),
        None => forall|j: int| 0 <= j < streams.len() ==> !is_video_stream(#[trigger] streams[j]),
    }
}

fn find_video(streams: &Vec<FfprobeStream>) -> (r: Option<usize>)
    ensures
        video_position(
            streams@,
            match r {
                Some(i) => Some(i as int),
                None => None,
            },
        ),
{
    let mut i: usize = 0;
    while i < streams.len()
        invariant
            i <= streams.len(),
            forall|j: int| 0 <= j < i ==> !is_video_stream(#[trigger] streams@[j]),
        decreases streams.len() - i,
    {
        let found: bool = match &streams[i].codec_type {
            Some(kind) => text::same(kind.as_str(), "video"),
            None => false,
        };
        if found {
            return Some(i);
        }
        i = i + 1;
    }
    None
}

/// What is known of a video, from its video stream and its file: the length of
/// the stream comes first, and the size that FFprobe gives before the one of
/// the file.
pub open spec fn media_of(
    info: ClipMediaInfo,
    p: Seq<char>,
    video: FfprobeStream,
    format: Option<FfprobeFormat>,
    file_len: Option<u64>,
) -> bool {
    let listed_size = match format {
        Some(f) => match f.size {
            Some(size) => text::parse_unsigned(size@, u64::MAX as nat),
            None => None,
        },
        None => None,
    };
    &&& Some(info.duration_seconds) == (match finite_only(video.duration) {
        Some(d) => Some(d),
        None => match format {
            Some(f) => finite_only(f.duration),
            None => None,
        },
    })
    &&& info.width == (match video.width {
        Some(n) => n,
        None => 0,
    })
    &&& info.height == (match video.height {
        Some(n) => n,
        None => 0,
    })
    &&& text::opt_text(info.frame_rate) == (match video.avg_frame_rate {
        Some(rate) => Some(rate@),
        None => text::opt_text(video.r_frame_rate),
    })
    &&& info.codec@ == (match video.codec_name {
        Some(name) => name@,
        None => "unknown"@,
    })
    &&& info.container@ == (match format {
        Some(FfprobeFormat { format_name: Some(name), .. }) => name@,
        _ => match path::extension_of(p) {
            Some(ext) => ext,
            None => "unknown"@,
        },
    })
    &&& info.size_bytes == (match listed_size {
        Some(n) => n as int,
        None => match file_len {
            Some(n) => n as int,
            None => 0,
        },
    })
}

pub open spec fn known_duration(video: FfprobeStream, format: Option<FfprobeFormat>) -> bool {
    finite_only(video.duration) is Some || (format matches Some(f) && finite_only(f.duration) is Some)
}

/// What is known of a video, from what FFprobe says of it.
pub fn probe_media_info(
    p: &str,
    streams: &Vec<FfprobeStream>,
    format: &Option<FfprobeFormat>,
    file_len: Option<u64>,
) -> (r: Result<ClipMediaInfo, EditorError>)
    ensures
        match r {
            Ok(info) => exists|i: int|
                {
                    &&& #[trigger] video_position(streams@, Some(i))
                    &&& known_duration(streams@[i], *format)
                    &&& media_of(info, p@, streams@[i], *format, file_len)
                },
            Err(EditorError::NoVideoTrack(q)) => q@ == p@ && video_position(streams@, None),
            Err(EditorError::NoDuration(q)) => q@ == p@ && exists|i: int|
                #[trigger] video_position(streams@, Some(i)) && !known_duration(
                    streams@[i],
                    *format,
                ),
            Err(_) => false,
        },
{
    let position: usize = match find_video(streams) {
        Some(i) => i,
        None => {
            return Err(EditorError::NoVideoTrack(p.to_owned()));
        },
    };
    assert(video_position(streams@, Some(position as int)));
    let video = &streams[position];
    let format_duration: Option<Double> = match format {
        Some(f) => kept_if_finite(f.duration),
        None => None,
    };
    let duration_seconds: Double = match kept_if_finite(video.duration) {
        Some(d) => d,
        None => match format_duration {
            Some(d) => d,
            None => {
                return Err(EditorError::NoDuration(p.to_owned()));
            },
        },
    };
    let listed_size: Option<u64> = match format {
        Some(f) => match &f.size {
            Some(size) => text::parse_u64(size.as_str()),
            None => None,
        },
        None => None,
    };
    let size_bytes: u64 = match listed_size {
        Some(n) => n,
        None => match file_len {
            Some(n) => n,
            None => 0,
        },
    };
    let from_name: String = match path::extension(p) {
        Some(ext) => ext,
        None => "unknown".to_owned(),
    };
    let container: String = match format {
        Some(f) => match &f.format_name {
            Some(name) => name.clone(),
            None => from_name,
        },
        None => from_name,
    };
    let frame_rate: Option<String> = match &video.avg_frame_rate {
        Some(rate) => Some(rate.clone()),
        None => text::clone_opt_text(&video.r_frame_rate),
    };
    let codec: String = match &video.codec_name {
        Some(name) => name.clone(),
        None => "unknown".to_owned(),
    };
    Ok(
        ClipMediaInfo {
            duration_seconds,
            width: match video.width {
                Some(n) => n,
                None => 0,
            },
            height: match video.height {
                Some(n) => n,
                None => 0,
            },
            frame_rate,
            codec,
            container,
            size_bytes,
        },
    )
}

/// The path to open, if it is there.
pub fn open_path(p: String, is_there: bool) -> (r: Result<String, EditorError>)
    ensures
        if is_there {
            r == Ok::<String, EditorError>(p)
        } else {
            r == Err::<String, EditorError>(EditorError::PathMissing(p))
        },
{
    if is_there {
        Ok(p)
    } else {
        Err(EditorError::PathMissing(p))
    }
}

/// The directory of a file.
pub fn open_parent_folder(p: &str) -> (r: Result<String, EditorError>)
    ensures
        match path::parent_of(p@) {
            Some(dir) => r matches Ok(d) && d@ == dir,
            None => r matches Err(EditorError::NoParent),
        },
{
    match path::parent(p) {
        Some(dir) => Ok(dir),
        None => Err(EditorError::NoParent),
    }
}

/// A cut is refused for what is wrong with it: points that are not finite, a start
/// before the clip, an end that is not after the start. Where the length of the
/// clip is not known, nothing else is wrong with a cut.
pub proof fn lemma_cuts_are_refused_for_a_reason(start: Double, end: Double, duration: Double)
    ensures
        !start.is_finite() || !end.is_finite() ==> trim_fault(start, end, duration) == Some(
            EditorError::NotFinite,
        ),
        start.is_finite() && end.is_finite() && start.steps() < 0 ==> trim_fault(
            start,
            end,
            duration,
        ) == Some(EditorError::NegativeStart),
        start.is_finite() && end.is_finite() && start.steps() >= 0 && end.steps() <= start.steps()
            ==> trim_fault(start, end, duration) == Some(EditorError::EndBeforeStart),
        start.is_finite() && end.is_finite() && 0 <= start.steps() < end.steps()
            && !duration.is_finite() ==> trim_fault(start, end, duration) is None,
        trim_fault(start, end, duration) is None ==> start.is_finite() && end.is_finite() && 0
            <= start.steps() < end.steps(),
{
}

/// A cut of a part is as long as the part: from its start to its end, to the
/// nearest number.
pub proof fn lemma_cut_is_as_long_as_its_part(start: Double, end: Double)
    requires
        start.is_finite(),
        end.is_finite(),
    ensures
        start.steps() < end.steps() ==> cut_length(start, end) == number::nearest(
            end.steps() - start.steps(),
        ),
        start.steps() >= end.steps() ==> cut_length(start, end).steps() == 0,
{
}

/// An edited clip is an MP4 file, unless it is a mere cut that is to be WebM. Its
/// name begins with that of the clip and tells how it was edited.
pub proof fn lemma_edited_clip_has_its_format(request: ClipEditRequest, input: Seq<char>)
    ensures
        ({
            let name = edited_name(request, input);
            let webm = request.mode is TrimOriginal && request.output_format is Webm;
            &&& webm ==> text::has_suffix(name, ".webm"@)
            &&& !webm ==> text::has_suffix(name, ".mp4"@)
            &&& path::file_stem_of(input) matches Some(stem) ==> text::has_prefix(
                name,
                stem_of(stem) + (match request.mode {
                    ClipEditorMode::TrimOriginal => "_trim_"@,
                    ClipEditorMode::YoutubeHorizontal => "_youtube_"@,
                    ClipEditorMode::SocialVertical => "_vertical_"@,
                }) + time_label(request.start_seconds) + "_"@ + time_label(request.end_seconds),
            )
        }),
{
    reveal_strlit("_");
    reveal_strlit(".");
    reveal_strlit("trim");
    reveal_strlit("_trim_");
    reveal_strlit("youtube");
    reveal_strlit("_youtube_");
    reveal_strlit("vertical");
    reveal_strlit("_vertical_");
    reveal_strlit("webm");
    reveal_strlit("mp4");
    reveal_strlit(".webm");
    reveal_strlit(".mp4");
    let name = edited_name(request, input);
    let stem = match path::file_stem_of(input) {
        Some(s) => stem_of(s),
        None => "clip"@,
    };
    let ext = format_of(request.mode, request.output_format).extension_text();
    let tail = "."@ + ext;
    let mark = "_"@ + mode_label(request.mode) + "_"@;
    let front = stem + mark + time_label(request.start_seconds) + "_"@ + time_label(
        request.end_seconds,
    );
    assert(name =~= front + tail);
    assert(name.subrange(name.len() - tail.len(), name.len() as int) =~= tail);
    assert(name.subrange(0, front.len() as int) =~= front);
    assert("."@ + "webm"@ =~= ".webm"@);
    assert("."@ + "mp4"@ =~= ".mp4"@);
    assert("_"@ + "trim"@ + "_"@ =~= "_trim_"@);
    assert("_"@ + "youtube"@ + "_"@ =~= "_youtube_"@);
    assert("_"@ + "vertical"@ + "_"@ =~= "_vertical_"@);
}

/// Edited clips go below the directory of clips, upright ones apart from the
/// others.
pub proof fn lemma_edited_clips_go_below(base: Seq<char>)
    ensures
        path::file_name_of(edited_dir(base, ClipEditorMode::SocialVertical)) == Some("Social"@),
        path::file_name_of(edited_dir(base, ClipEditorMode::TrimOriginal)) == Some("Edited"@),
        path::file_name_of(edited_dir(base, ClipEditorMode::YoutubeHorizontal)) == Some("Edited"@),
        forall|mode: ClipEditorMode| text::has_prefix(#[trigger] edited_dir(base, mode), base),
{
    reveal_strlit("Social");
    reveal_strlit("Edited");
    assert(!"Social"@.contains('/') && "Social"@.len() == 6);
    assert(!"Edited"@.contains('/') && "Edited"@.len() == 6);
    path::lemma_joined_path(base, "Social"@);
    path::lemma_joined_path(base, "Edited"@);
}

/// A name that is proper already stays as it is, but for the case of its letters.
pub proof fn lemma_proper_stem_stays(s: Seq<char>)
    requires
        0 < s.len() <= 80,
        forall|i: int|
            0 <= i < s.len() ==> ('0' <= (#[trigger] s[i]) && s[i] <= '9') || ('a' <= s[i] && s[i]
                <= 'z') || ('A' <= s[i] && s[i] <= 'Z'),
    ensures
        stem_of(s) == text::ascii_lowered(s),
{
    lemma_letters_stay(s);
    let stem = stem_chars(s);
    assert(stem.len() == s.len());
    assert(stem.last() == text::ascii_lower(s[s.len() - 1]));
    assert(!is_separator(stem.last()));
}

proof fn lemma_letters_stay(s: Seq<char>)
    requires
        s.len() <= 80,
        forall|i: int|
            0 <= i < s.len() ==> ('0' <= (#[trigger] s[i]) && s[i] <= '9') || ('a' <= s[i] && s[i]
                <= 'z') || ('A' <= s[i] && s[i] <= 'Z'),
    ensures
        stem_chars(s) == text::ascii_lowered(s),
    decreases s.len(),
{
    if s.len() > 0 {
        let t = s.drop_last();
        assert forall|i: int| 0 <= i < t.len() implies ('0' <= (#[trigger] t[i]) && t[i] <= '9')
            || ('a' <= t[i] && t[i] <= 'z') || ('A' <= t[i] && t[i] <= 'Z') by {
            assert(t[i] == s[i]);
        }
        lemma_letters_stay(t);
        assert(s[s.len() - 1] == s.last());
        assert(text::ascii_lowered(s) =~= text::ascii_lowered(t).push(text::ascii_lower(s.last())));
    } else {
        assert(text::ascii_lowered(s) =~= stem_chars(s));
    }
}

proof fn lemma_occurs_between(front: Seq<char>, part: Seq<char>, back: Seq<char>)
    ensures
        text::occurs_in(front + part + back, part),
{
    let whole = front + part + back;
    let n = front.len() as int;
    assert(whole.subrange(n, n + part.len()) =~= part);
    assert(text::matches_at(whole, part, n));
}

/// The filter of an upright picture ends in the stream that is encoded, and draws
/// the title, the subtitle and the watermark that are asked for, in the font that
/// was found.
pub proof fn lemma_texts_are_drawn(request: ClipEditRequest, font: Seq<char>)
    ensures
        ({
            let filter = text_filter(request, font);
            &&& text::has_suffix(filter, "[v]"@)
            &&& request.title matches Some(title) ==> (text::trim_of(title@).len() > 0
                ==> text::occurs_in(
                filter,
                ",drawtext=fontfile='"@ + drawn_text(font) + "':text='"@ + drawn_text(
                    truncated(text::trim_of(title@), 80),
                ),
            ))
            &&& request.subtitle matches Some(subtitle) ==> (text::trim_of(subtitle@).len() > 0
                ==> text::occurs_in(
                filter,
                ",drawtext=fontfile='"@ + drawn_text(font) + "':text='"@ + drawn_text(
                    truncated(text::trim_of(subtitle@), 96),
                ),
            ))
            &&& request.watermark ==> text::occurs_in(
                filter,
                ",drawtext=fontfile='"@ + drawn_text(font) + "':text='"@ + "WT Clip"@,
            )
        }),
{
    let filter = text_filter(request, font);
    let base = unmarked(upright_filter(request.layout, true));
    let opening = ",drawtext=fontfile='"@ + drawn_text(font) + "':text='"@;
    let t = match said(request.title) {
        Some(t) => drawing(font, drawn_text(truncated(t, 80)), title_place()),
        None => Seq::empty(),
    };
    let s = match said(request.subtitle) {
        Some(t) => drawing(font, drawn_text(truncated(t, 96)), subtitle_place()),
        None => Seq::empty(),
    };
    let w = if request.watermark {
        drawing(font, "WT Clip"@, watermark_place())
    } else {
        Seq::empty()
    };
    assert(filter =~= base + t + s + w + "[v]"@);
    assert(filter.subrange(filter.len() - "[v]"@.len(), filter.len() as int) =~= "[v]"@);
    if let Some(x) = said(request.title) {
        let part = opening + drawn_text(truncated(x, 80));
        lemma_occurs_between(base, part, title_place() + s + w + "[v]"@);
        assert(filter =~= base + part + (title_place() + s + w + "[v]"@));
    }
    if let Some(x) = said(request.subtitle) {
        let part = opening + drawn_text(truncated(x, 96));
        lemma_occurs_between(base + t, part, subtitle_place() + w + "[v]"@);
        assert(filter =~= base + t + part + (subtitle_place() + w + "[v]"@));
    }
    if request.watermark {
        let part = opening + "WT Clip"@;
        lemma_occurs_between(base + t + s, part, watermark_place() + "[v]"@);
        assert(filter =~= base + t + s + part + (watermark_place() + "[v]"@));
    }
}

/// Nothing that is drawn ends the text or is read as more than it is: of the
/// characters that mean something to the filter, each stands behind a backslash.
pub proof fn lemma_drawn_text_is_plain(s: Seq<char>)
    ensures
        forall|i: int|
            0 <= i < drawn_text(s).len() && ((#[trigger] drawn_text(s)[i]) == '\'' || drawn_text(
                s,
            )[i] == ':' || drawn_text(s)[i] == '%') ==> i > 0 && drawn_text(s)[i - 1] == '\\',
        !drawn_text(s).contains('\n'),
        (forall|i: int|
            0 <= i < s.len() ==> (#[trigger] s[i]) != '\'' && s[i] != ':' && s[i] != '%' && s[i]
                != '\\' && s[i] != '\n' && s[i] != '\r' && s[i] != '\t') ==> drawn_text(s) == s,
    decreases s.len(),
{
    reveal_strlit("\\\\");
    reveal_strlit("\\:");
    reveal_strlit("\\'");
    reveal_strlit("\\%");
    reveal_strlit(" ");
    if s.len() > 0 {
        let t = s.drop_last();
        lemma_drawn_text_is_plain(t);
        let before = drawn_text(t);
        let more = drawn_char(s.last());
        let all = drawn_text(s);
        assert(all == before + more);
        assert forall|i: int|
            0 <= i < all.len() && ((#[trigger] all[i]) == '\'' || all[i] == ':' || all[i]
                == '%') implies i > 0 && all[i - 1] == '\\' by {
            if i < before.len() {
                assert(all[i] == before[i]);
                assert(all[i - 1] == before[i - 1]);
            } else {
                assert(all[i] == more[i - before.len()]);
                assert(more.len() == 2);
                assert(i - before.len() == 1);
                assert(all[i - 1] == more[0]);
            }
        }
        assert forall|i: int| 0 <= i < all.len() implies all[i] != '\n' by {
            if i < before.len() {
                assert(all[i] == before[i]);
                assert(before.contains(before[i]));
            } else {
                assert(all[i] == more[i - before.len()]);
            }
        }
        if forall|i: int|
            0 <= i < s.len() ==> (#[trigger] s[i]) != '\'' && s[i] != ':' && s[i] != '%' && s[i]
                != '\\' && s[i] != '\n' && s[i] != '\r' && s[i] != '\t' {
            assert(s[s.len() - 1] == s.last());
            assert forall|i: int| 0 <= i < t.len() implies (#[trigger] t[i]) != '\'' && t[i] != ':'
                && t[i] != '%' && t[i] != '\\' && t[i] != '\n' && t[i] != '\r' && t[i] != '\t' by {
                assert(t[i] == s[i]);
            }
            assert(all =~= s);
        }
    }
}

/// An upright picture is 1080 by 1920, cut out of the clip, or the whole clip over
/// itself as a background, and goes to the stream that is encoded.
pub proof fn lemma_upright_picture(layout: Option<SocialLayout>, with_text: bool)
    ensures
        text::has_prefix(
            upright_filter(layout, with_text),
            "[0:v]scale=1080:1920:force_original_aspect_ratio=increase,crop=1080:1920,"@,
        ),
        text::has_suffix(upright_filter(layout, with_text), ",format=yuv420p[v]"@),
        layout != Some(SocialLayout::VerticalCrop) ==> text::occurs_in(
            upright_filter(layout, with_text),
            "[bg];[0:v]scale=1080:-2[fg];[bg][fg]overlay=(W-w)/2:(H-h)/2"@,
        ),
        layout == Some(SocialLayout::VerticalCrop) ==> upright_filter(layout, true)
            == upright_filter(layout, false),
{
    reveal_strlit("[0:v]scale=1080:1920:force_original_aspect_ratio=increase,crop=1080:1920,");
    reveal_strlit(
        "[0:v]scale=1080:1920:force_original_aspect_ratio=increase,crop=1080:1920,format=yuv420p[v]",
    );
    reveal_strlit(
        "[0:v]scale=1080:1920:force_original_aspect_ratio=increase,crop=1080:1920,boxblur=20:1[bg];[0:v]scale=1080:-2[fg];[bg][fg]overlay=(W-w)/2:",
    );
    reveal_strlit("(H-h)/2+28");
    reveal_strlit("(H-h)/2");
    reveal_strlit("+28");
    reveal_strlit(",format=yuv420p[v]");
    reveal_strlit("boxblur=20:1");
    reveal_strlit("[bg];[0:v]scale=1080:-2[fg];[bg][fg]overlay=(W-w)/2:");
    reveal_strlit("[bg];[0:v]scale=1080:-2[fg];[bg][fg]overlay=(W-w)/2:(H-h)/2");
    let start = "[0:v]scale=1080:1920:force_original_aspect_ratio=increase,crop=1080:1920,"@;
    let filter = upright_filter(layout, with_text);
    let end = ",format=yuv420p[v]"@;
    assert(filter.subrange(0, start.len() as int) =~= start);
    assert(filter.subrange(filter.len() - end.len(), filter.len() as int) =~= end);
    if layout != Some(SocialLayout::VerticalCrop) {
        let over = "[bg];[0:v]scale=1080:-2[fg];[bg][fg]overlay=(W-w)/2:"@;
        let place = over + "(H-h)/2"@;
        assert(place =~= "[bg];[0:v]scale=1080:-2[fg];[bg][fg]overlay=(W-w)/2:(H-h)/2"@);
        let more = if with_text {
            "+28"@
        } else {
            Seq::empty()
        };
        assert("(H-h)/2"@ + "+28"@ =~= "(H-h)/2+28"@);
        let front = start + "boxblur=20:1"@;
        assert(front + over
            =~= "[0:v]scale=1080:1920:force_original_aspect_ratio=increase,crop=1080:1920,boxblur=20:1[bg];[0:v]scale=1080:-2[fg];[bg][fg]overlay=(W-w)/2:"@);
        assert(filter =~= front + place + (more + end));
        lemma_occurs_between(front, place, more + end);
    }
}

/// A time in a name is told in minutes and seconds, and in hours where there are
/// any.
pub proof fn lemma_time_in_a_name(seconds: Double, hours: nat, minutes: nat, rest: nat)
    requires
        minutes < 60,
        rest < 60,
        number::nearest_whole(seconds) == hours * 3_600 + minutes * 60 + rest,
        number::nearest_whole(seconds) < u64::MAX,
    ensures
        hours == 0 ==> time_label(seconds) == text::padded_decimal(minutes, 2) + "-"@
            + text::padded_decimal(rest, 2),
        hours > 0 ==> time_label(seconds) == text::padded_decimal(hours, 2) + "-"@ + (
        text::padded_decimal(minutes, 2) + "-"@ + text::padded_decimal(rest, 2)),
{
    let total = number::nearest_whole(seconds);
    assert(total / 3_600 == hours);
    assert((total / 60) % 60 == minutes);
    assert(total % 60 == rest);
}

/// What goes with an export lies beside it: what is written down of it and its
/// picture have its name, and it is made under a hidden name in its directory.
pub proof fn lemma_export_files_lie_together(
    plan: ExportPlan,
    request: ClipEditRequest,
    facts: ExportFacts,
    id: Seq<char>,
)
    requires
        is_plan(plan, request, facts, id),
        path::file_name_of(plan.output_path@) is Some,
    ensures
        path::extension_of(plan.metadata_path@) == Some("json"@),
        path::file_stem_of(plan.metadata_path@) == path::file_stem_of(plan.output_path@),
        path::extension_of(plan.thumbnail_path@) == Some("jpg"@),
        path::file_stem_of(plan.thumbnail_path@) == path::file_stem_of(plan.output_path@),
        path::parent_of(plan.output_path@) matches Some(dir) ==> text::has_prefix(
            plan.tmp_path@,
            dir,
        ) || id.contains('/'),
{
    reveal_strlit("json");
    reveal_strlit("jpg");
    path::lemma_extension_of_with_extension(plan.output_path@, "json"@);
    path::lemma_extension_of_with_extension(plan.output_path@, "jpg"@);
    let stem = path::file_stem_of(plan.output_path@)->0;
    let extension = match path::extension_of(plan.output_path@) {
        Some(e) => e,
        None => "video"@,
    };
    reveal_strlit(".");
    let name = "."@ + stem + "."@ + id + ".tmp."@ + extension;
    assert(name[0] == '.');
    if let Some(dir) = path::parent_of(plan.output_path@) {
        let joined = path::joined_path(dir, name);
        assert(joined.subrange(0, dir.len() as int) =~= dir);
    }
}

/// Of an edited clip is written down where it comes from, what was cut, how long it
/// is, and why the clip was made.
pub proof fn lemma_edit_is_written_down(
    m: EditedClipMetadata,
    request: ClipEditRequest,
    input: Seq<char>,
    output: Seq<char>,
    reason: Option<String>,
)
    requires
        describes_edit(m, request, input, output, reason),
    ensures
        m.source_video_path@ == input,
        m.output_video_path@ == output,
        m.start_seconds == request.start_seconds,
        m.end_seconds == request.end_seconds,
        m.mode == request.mode,
        m.reason == reason,
        m.kind@ == "edited_clip"@,
{
}

/// An upright export draws its texts where any are asked for and a font was found,
/// and where that fails it is made without them. Without texts or a font it is made
/// without them at once.
pub proof fn lemma_upright_export_tries_its_texts_first(
    attempts: Seq<ExportAttempt>,
    request: ClipEditRequest,
    input: Seq<char>,
    tmp: Seq<char>,
    font: Option<Seq<char>>,
)
    requires
        attempts_for(attempts, request, input, tmp, font),
        request.mode is SocialVertical,
    ensures
        ({
            let asked = request.watermark || (request.title matches Some(t) && text::trim_of(
                t@,
            ).len() > 0) || (request.subtitle matches Some(t) && text::trim_of(t@).len() > 0);
            &&& is_run_with(
                text::texts(attempts.last().args@),
                "-filter_complex"@,
                upright_filter(request.layout, false),
            )
            &&& asked && font is Some ==> attempts.len() == 2 && is_run_with(
                text::texts(attempts[0].args@),
                "-filter_complex"@,
                text_filter(request, font->0),
            )
            &&& !asked || font is None ==> attempts.len() == 1
        }),
{
    lemma_upright_encoder(request, input, tmp, upright_filter(request.layout, false));
    if let Some(font) = font {
        lemma_upright_encoder(request, input, tmp, text_filter(request, font));
    }
}

/// What is wrong with a cut stops its export before anything is planned.
pub proof fn lemma_wrong_cut_is_not_planned(
    r: Result<ExportPlan, EditorError>,
    request: ClipEditRequest,
    facts: ExportFacts,
    id: Seq<char>,
)
    requires
        plan_outcome(r, request, facts, id),
        trim_fault(request.start_seconds, request.end_seconds, facts.duration_seconds) is Some,
    ensures
        r is Err,
        Some(r->Err_0) == trim_fault(
            request.start_seconds,
            request.end_seconds,
            facts.duration_seconds,
        ),
{
}

/// What is known of a video is what its first video stream says of it.
pub proof fn lemma_video_is_described_by_its_stream(
    info: ClipMediaInfo,
    p: Seq<char>,
    video: FfprobeStream,
    format: Option<FfprobeFormat>,
    file_len: Option<u64>,
)
    requires
        media_of(info, p, video, format, file_len),
    ensures
        video.width matches Some(n) ==> info.width == n,
        video.height matches Some(n) ==> info.height == n,
        video.codec_name matches Some(name) ==> info.codec@ == name@,
        video.duration matches Some(d) ==> (d.is_finite() ==> info.duration_seconds == d),
        video.duration is None ==> (format matches Some(f) && f.duration == Some(
            info.duration_seconds,
        )),
        info.duration_seconds.is_finite(),
        format is None ==> (file_len matches Some(n) ==> info.size_bytes == n),
{
}

/// What is told of a failed run is the last line that it wrote, if it is not longer
/// than what is shown.
pub proof fn lemma_last_line_is_told(lines: Seq<Seq<char>>, i: int)
    requires
        0 <= i < lines.len(),
        text::trim_of(lines[i]).len() > 0,
        forall|j: int| i < j < lines.len() ==> text::trim_of(#[trigger] lines[j]).len() == 0,
    ensures
        last_non_blank(lines) == Some(lines[i]),
    decreases lines.len(),
{
    if i < lines.len() - 1 {
        let t = lines.drop_last();
        assert(text::trim_of(lines[lines.len() - 1]).len() == 0);
        assert forall|j: int| i < j < t.len() implies text::trim_of(#[trigger] t[j]).len() == 0 by {
            assert(t[j] == lines[j]);
        }
        assert(t[i] == lines[i]);
        lemma_last_line_is_told(t, i);
    }
}

/// A cut that is right but for its end is refused where it ends more than 0.15
/// seconds after the clip, and accepted else.
pub proof fn lemma_cut_ends_with_the_clip(start: Double, end: Double, duration: Double)
    requires
        start.is_finite(),
        end.is_finite(),
        duration.is_finite(),
        0 <= start.steps() < end.steps(),
    ensures
        ({
            let latest = number::sum(duration, Double { bits: 0x3fc3_3333_3333_3333 });
            &&& end.steps() > latest.steps() ==> trim_fault(start, end, duration) == Some(
                EditorError::EndAfterClip,
            )
            &&& end.steps() <= latest.steps() ==> trim_fault(start, end, duration) is None
        }),
{
}

}
