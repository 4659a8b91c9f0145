//! Where the sound comes from.

use vstd::prelude::*;
use vstd::string::*;
use crate::text;

verus! {

/// A PulseAudio source to record.
#[derive(Debug)]
pub struct AudioCaptureSource {
    pub device: String,
}

/// `value` as it stands between the double quotes of a pipeline description.
pub open spec fn quoted_in_pipeline(value: Seq<char>) -> Seq<char> {
    text::replaced(text::replaced(value, '\\', "\\\\"@), '"', "\\\""@)
}

pub fn escape_gst_string(value: &str) -> (r: String)
    ensures
        r@ == quoted_in_pipeline(value@),
{
    let once = text::replace_char(value, '\\', "\\\\");
    text::replace_char(once.as_str(), '"', "\\\"")
}

pub open spec fn pulse_chain(device: Seq<char>) -> Seq<char> {
    "pulsesrc device=\""@ + quoted_in_pipeline(device)
        + "\" do-timestamp=true ! audioconvert ! audioresample ! audio/x-raw,channels=2 ! opusenc bitrate=128000"@
}

impl AudioCaptureSource {
    /// The pipeline elements that record and encode this source.
    pub fn source_chain(&self) -> (r: String)
        ensures
            r@ == pulse_chain(self.device@),
    {
        let mut r: String = "pulsesrc device=\"".to_owned();
        r.append(escape_gst_string(self.device.as_str()).as_str());
        r.append(
            "\" do-timestamp=true ! audioconvert ! audioresample ! audio/x-raw,channels=2 ! opusenc bitrate=128000",
        );
        r
    }
}

/// A value that switches an option on.
pub open spec fn switched_on(value: Seq<char>) -> bool {
    let v = text::ascii_lowered(text::trim_of(value));
    v == "1"@ || v == "true"@ || v == "yes"@ || v == "on"@
}

/// Is the option on, given the value of its environment variable?
pub fn env_flag_enabled(value: Option<&str>) -> (r: bool)
    ensures
        r == (value matches Some(v) && switched_on(v@)),
{
    match value {
        Some(value) => {
            let v = text::to_ascii_lowercase(text::trim(value));
            text::same(v.as_str(), "1") || text::same(v.as_str(), "true") || text::same(
                v.as_str(),
                "yes",
            ) || text::same(v.as_str(), "on")
        },
        None => false,
    }
}

/// The monitor of the sink that `pactl get-default-sink` printed.
pub open spec fn monitor_of(printed: Seq<char>) -> Option<Seq<char>> {
    if text::trim_of(printed).len() == 0 {
        None
    } else {
        Some(text::trim_of(printed) + ".monitor"@)
    }
}

/// The monitor of the default sink, given what `pactl get-default-sink`
/// printed where it ran without an error.
pub fn default_monitor_source(stdout: Option<&[u8]>) -> (r: Option<String>)
    ensures
        text::opt_text(r) == match stdout {
            Some(bytes) => monitor_of(text::text_in(bytes@)),
            None => None,
        },
{
    match stdout {
        Some(bytes) => {
            let printed = text::from_utf8_lossy(bytes);
            let sink = text::trim(printed.as_str());
            if sink.is_empty() {
                None
            } else {
                Some(text::join2(sink, ".monitor"))
            }
        },
        None => None,
    }
}

pub open spec fn audio_source(
    disabled: Option<Seq<char>>,
    device: Option<Seq<char>>,
    default_monitor: Option<Seq<char>>,
) -> Option<Seq<char>> {
    if disabled matches Some(v) && switched_on(v) {
        None
    } else if device matches Some(d) && text::trim_of(d).len() > 0 {
        Some(text::trim_of(device->0))
    } else {
        default_monitor
    }
}

/// The source to record: none where audio is switched off, else the device
/// named in the environment, else the monitor of the default sink.
pub fn resolve_system_audio_source(
    disabled: Option<&str>,
    device: Option<&str>,
    default_monitor: Option<String>,
) -> (r: Option<AudioCaptureSource>)
    ensures
        match r {
            Some(source) => audio_source(
                text::opt_str(disabled),
                text::opt_str(device),
                text::opt_text(default_monitor),
            ) == Some(source.device@),
            None => audio_source(
                text::opt_str(disabled),
                text::opt_str(device),
                text::opt_text(default_monitor),
            ) is None,
        },
{
    if env_flag_enabled(disabled) {
        return None;
    }
    if let Some(device) = device {
        let device = text::trim(device);
        if !device.is_empty() {
            return Some(AudioCaptureSource { device: device.to_owned() });
        }
    }
    match default_monitor {
        Some(device) => Some(AudioCaptureSource { device }),
        None => None,
    }
}

/// Where sound is switched off, none is recorded, whatever devices there are;
/// else a device that the user names comes before any other.
pub proof fn lemma_user_decides_on_sound(
    disabled: Option<Seq<char>>,
    device: Option<Seq<char>>,
    default_monitor: Option<Seq<char>>,
)
    ensures
        disabled matches Some(v) && switched_on(v) ==> audio_source(
            disabled,
            device,
            default_monitor,
        ) is None,
        !(disabled matches Some(v) && switched_on(v)) && (device matches Some(d) && text::trim_of(
            d,
        ).len() > 0) ==> audio_source(disabled, device, default_monitor) == Some(
            text::trim_of(device->0),
        ),
{
}

/// A quoted value cannot end its quotes: each quote in it stands behind a
/// backslash. A value without quotes and backslashes stays as it is.
pub proof fn lemma_quoted_value(value: Seq<char>)
    ensures
        forall|i: int|
            0 <= i < quoted_in_pipeline(value).len() && (#[trigger] quoted_in_pipeline(value)[i])
                == '"' ==> i > 0 && quoted_in_pipeline(value)[i - 1] == '\\',
        !value.contains('"') && !value.contains('\\') ==> quoted_in_pipeline(value) == value,
{
    reveal_strlit("\\\"");
    lemma_quotes_are_behind(text::replaced(value, '\\', "\\\\"@));
    if !value.contains('"') && !value.contains('\\') {
        text::lemma_replaced_stays(value, '\\', "\\\\"@);
        text::lemma_replaced_stays(value, '"', "\\\""@);
    }
}

proof fn lemma_quotes_are_behind(s: Seq<char>)
    ensures
        forall|i: int|
            0 <= i < text::replaced(s, '"', "\\\""@).len() && (#[trigger] text::replaced(
                s,
                '"',
                "\\\""@,
            )[i]) == '"' ==> i > 0 && text::replaced(s, '"', "\\\""@)[i - 1] == '\\',
    decreases s.len(),
{
    reveal_strlit("\\\"");
    if s.len() > 0 {
        lemma_quotes_are_behind(s.drop_last());
        let before = text::replaced(s.drop_last(), '"', "\\\""@);
        let all = text::replaced(s, '"', "\\\""@);
        assert forall|i: int| 0 <= i < all.len() && (#[trigger] all[i]) == '"' implies i > 0
            && all[i - 1] == '\\' by {
            if i < before.len() {
                assert(all[i] == before[i]);
                assert(all[i - 1] == before[i - 1]);
            } else if s.last() == '"' {
                assert(all[before.len() as int] == '\\');
                assert(i == before.len() + 1);
            }
        }
    }
}

}
