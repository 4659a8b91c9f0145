//! Putting replay segments together into one video.

use vstd::prelude::*;
use vstd::string::*;
use crate::capture::audio;
use crate::capture::quality::VideoQuality;
use crate::capture::recorder;
use crate::capture::segments;
use crate::path;
use crate::text;

verus! {

/// A segment and what is known of its file, if there is one.
#[derive(Debug)]
pub struct SegmentInput {
    pub path: String,
    pub found: Option<FoundFile>,
}

#[derive(Clone, Copy, Debug, PartialEq, Eq, Structural)]
pub struct FoundFile {
    pub is_file: bool,
    pub len: u64,
}

/// Why segments are not put together.
#[derive(Debug)]
pub enum ConcatError {
    InvalidName(String),
    Missing(String),
    NoSegments,
    NotCreated(String),
    Empty(String),
}

impl ConcatError {
    pub open spec fn text_of(self) -> Seq<char> {
        match self {
            ConcatError::InvalidName(path) => "invalid replay segment name: "@ + path@,
            ConcatError::Missing(path) => "replay segment does not exist: "@ + path@,
            ConcatError::NoSegments => "no replay segments available to concatenate"@,
            ConcatError::NotCreated(path) => "final replay video was not created: "@ + path@,
            ConcatError::Empty(path) => "final replay video is empty: "@ + path@,
        }
    }

    pub fn message(&self) -> (r: String)
        ensures
            r@ == self.text_of(),
    {
        match self {
            ConcatError::InvalidName(path) => text::join2(
                "invalid replay segment name: ",
                path.as_str(),
            ),
            ConcatError::Missing(path) => text::join2(
                "replay segment does not exist: ",
                path.as_str(),
            ),
            ConcatError::NoSegments => "no replay segments available to concatenate".to_owned(),
            ConcatError::NotCreated(path) => text::join2(
                "final replay video was not created: ",
                path.as_str(),
            ),
            ConcatError::Empty(path) => text::join2("final replay video is empty: ", path.as_str()),
        }
    }
}

pub open spec fn is_segment_name(p: Seq<char>) -> bool {
    segments::segment_index(p) is Some
}

/// The segments that hold something, in the given order.
pub open spec fn filled(inputs: Seq<SegmentInput>) -> Seq<Seq<char>>
    decreases inputs.len(),
{
    if inputs.len() == 0 {
        seq![]
    } else if inputs.last().found->0.is_file && inputs.last().found->0.len > 0 {
        filled(inputs.drop_last()).push(inputs.last().path@)
    } else {
        filled(inputs.drop_last())
    }
}

/// What is left of the given segments: all names must be those of segments, and
/// all files must be there; directories and empty files are left out.
pub open spec fn is_valid_outcome(
    inputs: Seq<SegmentInput>,
    r: Result<Vec<String>, ConcatError>,
) -> bool {
    let named = forall|i: int|
        0 <= i < inputs.len() ==> is_segment_name((#[trigger] inputs[i]).path@);
    let there = forall|i: int| 0 <= i < inputs.len() ==> (#[trigger] inputs[i]).found is Some;
    match r {
        Ok(valid) => named && there && text::texts(valid@) == filled(inputs),
        Err(ConcatError::InvalidName(path)) => exists|i: int|
            0 <= i < inputs.len() && path@ == (#[trigger] inputs[i]).path@ && !is_segment_name(path@)
                && (forall|j: int|
                0 <= j < i ==> is_segment_name((#[trigger] inputs[j]).path@)),
        Err(ConcatError::Missing(path)) => named && exists|i: int|
            0 <= i < inputs.len() && path@ == (#[trigger] inputs[i]).path@ && inputs[i].found is None
                && (forall|j: int| 0 <= j < i ==> (#[trigger] inputs[j]).found is Some),
        Err(_) => false,
    }
}

pub fn valid_segments(inputs: &Vec<SegmentInput>) -> (r: Result<Vec<String>, ConcatError>)
    ensures
        is_valid_outcome(inputs@, r),
{
    let mut i: usize = 0;
    while i < inputs.len()
        invariant
            i <= inputs.len(),
            forall|j: int| 0 <= j < i ==> is_segment_name((#[trigger] inputs@[j]).path@),
        decreases inputs.len() - i,
    {
        if segments::parse_segment_index(inputs[i].path.as_str()).is_none() {
            let r: Result<Vec<String>, ConcatError> = Err(
                ConcatError::InvalidName(inputs[i].path.clone()),
            );
            assert(inputs@[i as int].path@ == r->Err_0->InvalidName_0@);
            return r;
        }
        i = i + 1;
    }
    let mut valid: Vec<String> = Vec::new();
    let mut k: usize = 0;
    assert(text::texts(valid@) =~= filled(inputs@.subrange(0, 0)));
    while k < inputs.len()
        invariant
            k <= inputs.len(),
            forall|j: int|
                0 <= j < inputs@.len() ==> is_segment_name((#[trigger] inputs@[j]).path@),
            forall|j: int| 0 <= j < k ==> (#[trigger] inputs@[j]).found is Some,
            text::texts(valid@) == filled(inputs@.subrange(0, k as int)),
        decreases inputs.len() - k,
    {
        let ghost next = inputs@.subrange(0, k + 1);
        assert(next.drop_last() == inputs@.subrange(0, k as int));
        assert(next.last() == inputs@[k as int]);
        let ghost before = text::texts(valid@);
        match &inputs[k].found {
            None => {
                let r: Result<Vec<String>, ConcatError> = Err(
                    ConcatError::Missing(inputs[k].path.clone()),
                );
                assert(inputs@[k as int].path@ == r->Err_0->Missing_0@);
                return r;
            },
            Some(file) => {
                if file.is_file && file.len > 0 {
                    valid.push(inputs[k].path.clone());
                    assert(text::texts(valid@) =~= before.push(inputs@[k as int].path@));
                }
            },
        }
        k = k + 1;
    }
    assert(inputs@.subrange(0, inputs@.len() as int) == inputs@);
    Ok(valid)
}

/// Where the video is written until it is complete: beside its place, under a
/// name that ends in `.tmp`.
pub open spec fn temp_path(output: Seq<char>) -> Seq<char> {
    path::with_extension_of(
        output,
        match path::extension_of(output) {
            Some(ext) => ext + ".tmp"@,
            None => "tmp"@,
        },
    )
}

pub fn temp_output_path(output_path: &str) -> (r: String)
    ensures
        r@ == temp_path(output_path@),
{
    let ext: String = match path::extension(output_path) {
        Some(ext) => text::join2(ext.as_str(), ".tmp"),
        None => "tmp".to_owned(),
    };
    path::with_extension(output_path, ext.as_str())
}

/// The elements that read one segment.
pub open spec fn reader(segment: Seq<char>) -> Seq<char> {
    " filesrc location=\""@ + audio::quoted_in_pipeline(segment)
        + "\" ! decodebin ! queue ! c."@
}

pub open spec fn readers(segments: Seq<Seq<char>>) -> Seq<char>
    decreases segments.len(),
{
    if segments.len() == 0 {
        seq![]
    } else {
        readers(segments.drop_last()) + reader(segments.last())
    }
}

/// The pipeline that puts the pictures of the segments together.
pub open spec fn video_pipeline(
    segments: Seq<Seq<char>>,
    output: Seq<char>,
    quality: VideoQuality,
) -> Seq<char> {
    "concat name=c ! videoconvert ! videorate ! "@ + quality.raw_caps() + " ! "@ + quality.vp8enc()
        + " ! webmmux ! filesink location=\""@ + audio::quoted_in_pipeline(output) + "\""@
        + readers(segments)
}

pub fn concat_pipeline_description(
    segments: &Vec<String>,
    output_path: &str,
    quality: VideoQuality,
) -> (r: String)
    ensures
        r@ == video_pipeline(text::texts(segments@), output_path@, quality),
{
    let mut pipeline: String = text::join2(
        "concat name=c ! videoconvert ! videorate ! ",
        quality.raw_video_caps().as_str(),
    );
    pipeline.append(" ! ");
    pipeline.append(quality.vp8enc_settings().as_str());
    pipeline.append(" ! webmmux ! filesink location=\"");
    pipeline.append(recorder::encode_location(output_path).as_str());
    pipeline.append("\"");
    let ghost head = pipeline@;
    let ghost all = text::texts(segments@);
    let mut i: usize = 0;
    assert(head + readers(all.subrange(0, 0)) =~= head);
    while i < segments.len()
        invariant
            i <= segments.len(),
            all == text::texts(segments@),
            pipeline@ == head + readers(all.subrange(0, i as int)),
        decreases segments.len() - i,
    {
        let ghost next = all.subrange(0, i + 1);
        assert(next.drop_last() == all.subrange(0, i as int));
        assert(next.last() == segments@[i as int]@);
        pipeline.append(" filesrc location=\"");
        pipeline.append(recorder::encode_location(segments[i].as_str()).as_str());
        pipeline.append("\" ! decodebin ! queue ! c.");
        assert(pipeline@ =~= head + (readers(all.subrange(0, i as int)) + reader(
            segments@[i as int]@,
        )));
        i = i + 1;
    }
    assert(all.subrange(0, all.len() as int) == all);
    pipeline
}

/// The elements that read picture and sound of the segment at a position.
pub open spec fn reader_with_audio(segment: Seq<char>, index: nat) -> Seq<char> {
    let d = "d"@ + text::decimal(index);
    " filesrc location=\""@ + audio::quoted_in_pipeline(segment) + "\" ! decodebin name="@ + d
        + " "@ + d + ". ! queue ! video/x-raw ! vc. "@ + d + ". ! queue ! audio/x-raw ! ac."@
}

pub open spec fn readers_with_audio(segments: Seq<Seq<char>>) -> Seq<char>
    decreases segments.len(),
{
    if segments.len() == 0 {
        seq![]
    } else {
        readers_with_audio(segments.drop_last()) + reader_with_audio(
            segments.last(),
            (segments.len() - 1) as nat,
        )
    }
}

/// The pipeline that puts pictures and sound of the segments together.
pub open spec fn audio_video_pipeline(
    segments: Seq<Seq<char>>,
    output: Seq<char>,
    quality: VideoQuality,
) -> Seq<char> {
    "webmmux name=mux ! filesink location=\""@ + audio::quoted_in_pipeline(output)
        + "\" concat name=vc ! videoconvert ! videorate ! "@ + quality.raw_caps() + " ! "@
        + quality.vp8enc()
        + " ! queue ! mux. concat name=ac ! audioconvert ! audioresample ! opusenc bitrate=128000 ! queue ! mux."@
        + readers_with_audio(segments)
}

pub fn concat_pipeline_description_with_audio(
    segments: &Vec<String>,
    output_path: &str,
    quality: VideoQuality,
) -> (r: String)
    ensures
        r@ == audio_video_pipeline(text::texts(segments@), output_path@, quality),
{
    let mut pipeline: String = text::join2(
        "webmmux name=mux ! filesink location=\"",
        recorder::encode_location(output_path).as_str(),
    );
    pipeline.append("\" concat name=vc ! videoconvert ! videorate ! ");
    pipeline.append(quality.raw_video_caps().as_str());
    pipeline.append(" ! ");
    pipeline.append(quality.vp8enc_settings().as_str());
    pipeline.append(
        " ! queue ! mux. concat name=ac ! audioconvert ! audioresample ! opusenc bitrate=128000 ! queue ! mux.",
    );
    let ghost head = pipeline@;
    let ghost all = text::texts(segments@);
    let mut i: usize = 0;
    assert(head + readers_with_audio(all.subrange(0, 0)) =~= head);
    while i < segments.len()
        invariant
            i <= segments.len(),
            all == text::texts(segments@),
            pipeline@ == head + readers_with_audio(all.subrange(0, i as int)),
        decreases segments.len() - i,
    {
        let ghost next = all.subrange(0, i + 1);
        assert(next.drop_last() == all.subrange(0, i as int));
        assert(next.last() == segments@[i as int]@);
        let name = text::join2("d", text::decimal_text(i as u128).as_str());
        pipeline.append(" filesrc location=\"");
        pipeline.append(recorder::encode_location(segments[i].as_str()).as_str());
        pipeline.append("\" ! decodebin name=");
        pipeline.append(name.as_str());
        pipeline.append(" ");
        pipeline.append(name.as_str());
        pipeline.append(". ! queue ! video/x-raw ! vc. ");
        pipeline.append(name.as_str());
        pipeline.append(". ! queue ! audio/x-raw ! ac.");
        assert(pipeline@ =~= head + (readers_with_audio(all.subrange(0, i as int))
            + reader_with_audio(segments@[i as int]@, i as nat)));
        i = i + 1;
    }
    assert(all.subrange(0, all.len() as int) == all);
    pipeline
}

/// How segments are put together: the pipelines to try, one after the other
/// until one succeeds, all writing to `temp_output`.
#[derive(Debug)]
pub struct ConcatPlan {
    pub inputs: Vec<String>,
    pub temp_output: String,
    pub attempts: Vec<String>,
}

/// The plan for putting segments together. Where there is sound, picture and
/// sound are tried first; the picture alone comes last in any case.
pub fn concatenate_segments_to_webm(
    inputs: &Vec<SegmentInput>,
    output_path: &str,
    quality: VideoQuality,
    has_audio: bool,
) -> (r: Result<ConcatPlan, ConcatError>)
    ensures
        match r {
            Ok(plan) => {
                let used = filled(inputs@);
                let temp = temp_path(output_path@);
                &&& (forall|i: int|
                    0 <= i < inputs@.len() ==> is_segment_name((#[trigger] inputs@[i]).path@)
                        && inputs@[i].found is Some)
                &&& used.len() > 0
                &&& text::texts(plan.inputs@) == used
                &&& plan.temp_output@ == temp
                &&& text::texts(plan.attempts@) == (if has_audio {
                    seq![
                        audio_video_pipeline(used, temp, quality),
                        video_pipeline(used, temp, quality),
                    ]
                } else {
                    seq![video_pipeline(used, temp, quality)]
                })
            },
            Err(ConcatError::NoSegments) => (forall|i: int|
                0 <= i < inputs@.len() ==> is_segment_name((#[trigger] inputs@[i]).path@)
                    && inputs@[i].found is Some) && filled(inputs@).len() == 0,
            Err(error) => is_valid_outcome(inputs@, Err::<Vec<String>, ConcatError>(error)),
        },
{
    let used = match valid_segments(inputs) {
        Ok(used) => used,
        Err(error) => {
            return Err(error);
        },
    };
    if used.len() == 0 {
        assert(text::texts(used@).len() == 0);
        return Err(ConcatError::NoSegments);
    }
    let temp_output = temp_output_path(output_path);
    let mut attempts: Vec<String> = Vec::new();
    if has_audio {
        attempts.push(
            concat_pipeline_description_with_audio(&used, temp_output.as_str(), quality),
        );
    }
    attempts.push(concat_pipeline_description(&used, temp_output.as_str(), quality));
    assert(text::texts(used@).len() > 0);
    proof {
        let tried = text::texts(attempts@);
        if has_audio {
            assert(tried =~= seq![
                audio_video_pipeline(text::texts(used@), temp_output@, quality),
                video_pipeline(text::texts(used@), temp_output@, quality),
            ]);
        } else {
            assert(tried =~= seq![
                video_pipeline(text::texts(used@), temp_output@, quality),
            ]);
        }
    }
    Ok(ConcatPlan { inputs: used, temp_output, attempts })
}

/// What follows an attempt.
#[derive(Debug)]
pub enum ConcatStep {
    /// The written file takes its place.
    Finish,
    /// What was written is removed and the attempt at this position is made.
    Retry(usize),
    /// What was written is removed and the error is told.
    GiveUp(String),
}

/// The attempt at a position of the plan has ended.
pub fn attempt_ended(plan: &ConcatPlan, position: usize, outcome: Result<(), String>) -> (r:
    ConcatStep)
    requires
        position < plan.attempts@.len(),
    ensures
        match outcome {
            Ok(_) => r is Finish,
            Err(error) => if position + 1 < plan.attempts@.len() {
                r == ConcatStep::Retry((position + 1) as usize)
            } else {
                r == ConcatStep::GiveUp(error)
            },
        },
{
    match outcome {
        Ok(()) => ConcatStep::Finish,
        Err(error) => if position < plan.attempts.len() - 1 {
            ConcatStep::Retry(position + 1)
        } else {
            ConcatStep::GiveUp(error)
        },
    }
}

/// The finished video must be a file that is not empty. `len` is its length, if
/// there is one.
pub fn verify_output_file(path: &str, len: Option<u64>) -> (r: Result<(), ConcatError>)
    ensures
        match len {
            None => r matches Err(ConcatError::NotCreated(p)) && p@ == path@,
            Some(n) => if n == 0 {
                r matches Err(ConcatError::Empty(p)) && p@ == path@
            } else {
                r is Ok
            },
        },
{
    match len {
        None => Err(ConcatError::NotCreated(path.to_owned())),
        Some(n) => if n == 0 {
            Err(ConcatError::Empty(path.to_owned()))
        } else {
            Ok(())
        },
    }
}

/// Every segment that is put together is one of the given ones, and holds
/// something: nothing is invented, and the order is kept.
pub proof fn lemma_filled_are_given(inputs: Seq<SegmentInput>, k: int)
    requires
        0 <= k < filled(inputs).len(),
    ensures
        exists|i: int|
            0 <= i < inputs.len() && (#[trigger] inputs[i]).path@ == filled(inputs)[k]
                && inputs[i].found->0.is_file && inputs[i].found->0.len > 0,
    decreases inputs.len(),
{
    let rest = inputs.drop_last();
    if k < filled(rest).len() {
        lemma_filled_are_given(rest, k);
        let i = choose|i: int|
            0 <= i < rest.len() && (#[trigger] rest[i]).path@ == filled(rest)[k]
                && rest[i].found->0.is_file && rest[i].found->0.len > 0;
        assert(inputs[i] == rest[i]);
    } else {
        assert(inputs[inputs.len() - 1] == inputs.last());
    }
}

proof fn lemma_readers(segments: Seq<Seq<char>>, more: Seq<Seq<char>>)
    ensures
        readers(segments + more) == readers(segments) + readers(more),
    decreases more.len(),
{
    if more.len() == 0 {
        assert(segments + more =~= segments);
        assert(readers(segments) + readers(more) =~= readers(segments));
    } else {
        assert((segments + more).drop_last() =~= segments + more.drop_last());
        assert((segments + more).last() == more.last());
        lemma_readers(segments, more.drop_last());
        assert(readers(segments + more) =~= readers(segments) + readers(more));
    }
}

/// Every segment is read into the video, from the first to the last, and the video
/// goes to the given file.
pub proof fn lemma_every_segment_is_read(
    front: Seq<Seq<char>>,
    segment: Seq<char>,
    back: Seq<Seq<char>>,
    output: Seq<char>,
    quality: VideoQuality,
)
    ensures
        ({
            let pipeline = video_pipeline(front + seq![segment] + back, output, quality);
            let head = video_pipeline(Seq::empty(), output, quality);
            &&& pipeline == head + readers(front) + reader(segment) + readers(back)
            &&& text::occurs_in(
                head,
                " ! filesink location=\""@ + audio::quoted_in_pipeline(output) + "\""@,
            )
            &&& text::occurs_in(
                reader(segment),
                " filesrc location=\""@ + audio::quoted_in_pipeline(segment) + "\""@,
            )
            &&& text::occurs_in(
                head,
                "video/x-raw,framerate="@ + text::decimal(quality.fps as nat) + "/1"@,
            )
        }),
{
    let all = front + seq![segment] + back;
    lemma_readers(front + seq![segment], back);
    lemma_readers(front, seq![segment]);
    assert(seq![segment].drop_last() =~= Seq::<Seq<char>>::empty());
    reveal_with_fuel(readers, 2);
    assert(readers(seq![segment]) =~= reader(segment));
    let head = video_pipeline(Seq::empty(), output, quality);
    let caps = "video/x-raw,framerate="@ + text::decimal(quality.fps as nat) + "/1"@;
    let a = "concat name=c ! videoconvert ! videorate ! "@;
    let sink = " ! filesink location=\""@ + audio::quoted_in_pipeline(output) + "\""@;
    reveal_strlit(" ! webmmux");
    reveal_strlit(" ! filesink location=\"");
    reveal_strlit(" ! webmmux ! filesink location=\"");
    assert(" ! webmmux"@ + " ! filesink location=\""@ =~= " ! webmmux ! filesink location=\""@);
    let b = a + quality.raw_caps() + " ! "@ + quality.vp8enc() + " ! webmmux"@;
    assert(head =~= b + sink);
    assert(head.subrange(b.len() as int, b.len() as int + sink.len()) =~= sink);
    assert(text::matches_at(head, sink, b.len() as int));
    assert(head.subrange(a.len() as int, a.len() as int + caps.len()) =~= caps);
    assert(text::matches_at(head, caps, a.len() as int));
    let read = " filesrc location=\""@ + audio::quoted_in_pipeline(segment) + "\""@;
    reveal_strlit("\"");
    reveal_strlit("\" ! decodebin ! queue ! c.");
    assert(reader(segment).subrange(0, read.len() as int) =~= read);
    assert(text::matches_at(reader(segment), read, 0));
    assert(video_pipeline(all, output, quality) =~= head + readers(front) + reader(segment)
        + readers(back));
}

/// Every segment that holds something is put together.
pub proof fn lemma_every_filled_segment_is_taken(inputs: Seq<SegmentInput>, i: int)
    requires
        0 <= i < inputs.len(),
        inputs[i].found matches Some(f) && f.is_file && f.len > 0,
    ensures
        filled(inputs).contains(inputs[i].path@),
    decreases inputs.len(),
{
    let rest = inputs.drop_last();
    if i < rest.len() {
        assert(rest[i] == inputs[i]);
        lemma_every_filled_segment_is_taken(rest, i);
        let k = choose|k: int| 0 <= k < filled(rest).len() && filled(rest)[k] == inputs[i].path@;
        assert(filled(inputs)[k] == inputs[i].path@);
    } else {
        assert(filled(inputs)[filled(rest).len() as int] == inputs[i].path@);
    }
}

/// Every segment is read with its sound, from the first to the last, under its own
/// number.
pub proof fn lemma_every_segment_is_read_with_sound(segments: Seq<Seq<char>>, i: int)
    requires
        0 <= i < segments.len(),
    ensures
        text::occurs_in(readers_with_audio(segments), reader_with_audio(segments[i], i as nat)),
        text::has_prefix(
            reader_with_audio(segments[i], i as nat),
            " filesrc location=\""@ + audio::quoted_in_pipeline(segments[i]),
        ),
    decreases segments.len(),
{
    let t = segments.drop_last();
    let all = readers_with_audio(segments);
    let before = readers_with_audio(t);
    let last = reader_with_audio(segments.last(), (segments.len() - 1) as nat);
    assert(all == before + last);
    if i < t.len() {
        lemma_every_segment_is_read_with_sound(t, i);
        assert(t[i] == segments[i]);
        assert(all.subrange(0, before.len() as int) =~= before);
        assert(text::matches_at(all, before, 0));
        text::lemma_occurs_within(all, before, reader_with_audio(segments[i], i as nat));
    } else {
        assert(all.subrange(before.len() as int, all.len() as int) =~= last);
        assert(text::matches_at(all, last, before.len() as int));
    }
    let read = reader_with_audio(segments[i], i as nat);
    let start = " filesrc location=\""@ + audio::quoted_in_pipeline(segments[i]);
    assert(read.subrange(0, start.len() as int) =~= start);
}

}
