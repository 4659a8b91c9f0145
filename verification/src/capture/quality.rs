//! How fine the picture is: frames per second, bit rate, encoder effort.

use vstd::prelude::*;
use vstd::string::*;
use crate::text;

verus! {

#[derive(Clone, Copy, Debug, PartialEq, Eq, Structural)]
pub enum QualityPreset {
    Low,
    Medium,
    High,
}

#[derive(Clone, Copy, Debug, PartialEq, Eq, Structural)]
pub struct VideoQuality {
    pub fps: u32,
    pub video_bitrate_kbps: u32,
    pub encoder_cpu_used: u32,
}

/// Why no picture quality has the given values.
#[derive(Clone, Copy, Debug, PartialEq, Eq, Structural)]
pub enum QualityError {
    FpsZero,
    BitrateZero,
    CpuUsedTooHigh,
}

impl QualityError {
    pub fn message(self) -> (r: &'static str)
        ensures
            r@ == match self {
                QualityError::FpsZero => "fps must be greater than zero"@,
                QualityError::BitrateZero => "video bitrate must be greater than zero"@,
                QualityError::CpuUsedTooHigh => "VP8 encoder cpu-used must be between 0 and 16"@,
            },
    {
        match self {
            QualityError::FpsZero => "fps must be greater than zero",
            QualityError::BitrateZero => "video bitrate must be greater than zero",
            QualityError::CpuUsedTooHigh => "VP8 encoder cpu-used must be between 0 and 16",
        }
    }
}

impl QualityPreset {
    pub open spec fn quality(self) -> VideoQuality {
        match self {
            QualityPreset::Low => VideoQuality {
                fps: 30,
                video_bitrate_kbps: 4_000,
                encoder_cpu_used: 6,
            },
            QualityPreset::Medium => VideoQuality {
                fps: 30,
                video_bitrate_kbps: 8_000,
                encoder_cpu_used: 4,
            },
            QualityPreset::High => VideoQuality {
                fps: 60,
                video_bitrate_kbps: 12_000,
                encoder_cpu_used: 4,
            },
        }
    }

    pub fn video_quality(self) -> (r: VideoQuality)
        ensures
            r == self.quality(),
    {
        match self {
            QualityPreset::Low => VideoQuality {
                fps: 30,
                video_bitrate_kbps: 4_000,
                encoder_cpu_used: 6,
            },
            QualityPreset::Medium => VideoQuality {
                fps: 30,
                video_bitrate_kbps: 8_000,
                encoder_cpu_used: 4,
            },
            QualityPreset::High => VideoQuality {
                fps: 60,
                video_bitrate_kbps: 12_000,
                encoder_cpu_used: 4,
            },
        }
    }
}

impl Default for VideoQuality {
    fn default() -> (r: Self)
        ensures
            r == QualityPreset::High.quality(),
    {
        QualityPreset::High.video_quality()
    }
}

pub open spec fn saturated(n: int) -> int {
    if n > u32::MAX {
        u32::MAX as int
    } else {
        n
    }
}

impl VideoQuality {
    /// Frames and bits there are, and the encoder knows the effort asked for.
    pub open spec fn usable(self) -> bool {
        self.fps > 0 && self.video_bitrate_kbps > 0 && self.encoder_cpu_used <= 16
    }

    /// What `new` makes of its arguments: the first fault of them, in the
    /// order frames, bits, effort.
    pub open spec fn checked(self) -> Result<VideoQuality, QualityError> {
        if self.fps == 0 {
            Err(QualityError::FpsZero)
        } else if self.video_bitrate_kbps == 0 {
            Err(QualityError::BitrateZero)
        } else if self.encoder_cpu_used > 16 {
            Err(QualityError::CpuUsedTooHigh)
        } else {
            Ok(self)
        }
    }

    pub fn new(fps: u32, video_bitrate_kbps: u32, encoder_cpu_used: u32) -> (r: Result<
        VideoQuality,
        QualityError,
    >)
        ensures
            r == (VideoQuality { fps, video_bitrate_kbps, encoder_cpu_used }).checked(),
            r matches Ok(q) ==> q.usable(),
    {
        if fps == 0 {
            return Err(QualityError::FpsZero);
        }
        if video_bitrate_kbps == 0 {
            return Err(QualityError::BitrateZero);
        }
        if encoder_cpu_used > 16 {
            return Err(QualityError::CpuUsedTooHigh);
        }
        Ok(VideoQuality { fps, video_bitrate_kbps, encoder_cpu_used })
    }

    /// A preset with some of its values replaced.
    pub fn with_overrides(
        preset: QualityPreset,
        fps: Option<u32>,
        video_bitrate_kbps: Option<u32>,
    ) -> (r: Result<VideoQuality, QualityError>)
        ensures
            r == (VideoQuality {
                fps: match fps {
                    Some(fps) => fps,
                    None => preset.quality().fps,
                },
                video_bitrate_kbps: match video_bitrate_kbps {
                    Some(kbps) => kbps,
                    None => preset.quality().video_bitrate_kbps,
                },
                encoder_cpu_used: preset.quality().encoder_cpu_used,
            }).checked(),
    {
        let base = preset.video_quality();
        VideoQuality::new(
            fps.unwrap_or(base.fps),
            video_bitrate_kbps.unwrap_or(base.video_bitrate_kbps),
            base.encoder_cpu_used,
        )
    }

    pub open spec fn bits_per_second(self) -> int {
        saturated(self.video_bitrate_kbps * 1000)
    }

    pub fn bitrate_bps(self) -> (r: u32)
        ensures
            r == self.bits_per_second(),
    {
        match self.video_bitrate_kbps.checked_mul(1000) {
            Some(bps) => bps,
            None => u32::MAX,
        }
    }

    /// Two seconds of frames, and one frame at least.
    pub open spec fn keyframe_distance(self) -> int {
        if self.fps == 0 {
            1
        } else {
            saturated(self.fps * 2)
        }
    }

    pub fn keyframe_max_dist(self) -> (r: u32)
        ensures
            r == self.keyframe_distance(),
    {
        let frames: u32 = match self.fps.checked_mul(2) {
            Some(frames) => frames,
            None => u32::MAX,
        };
        if frames > 1 {
            frames
        } else {
            1
        }
    }

    pub open spec fn raw_caps(self) -> Seq<char> {
        "video/x-raw,framerate="@ + text::decimal(self.fps as nat) + "/1"@
    }

    pub fn raw_video_caps(self) -> (r: String)
        ensures
            r@ == self.raw_caps(),
    {
        let mut r: String = "video/x-raw,framerate=".to_owned();
        r.append(text::decimal_text(self.fps as u128).as_str());
        r.append("/1");
        r
    }

    pub open spec fn vp8enc(self) -> Seq<char> {
        "vp8enc deadline=1 end-usage=cbr target-bitrate="@ + text::decimal(
            self.bits_per_second() as nat,
        ) + " cpu-used="@ + text::decimal(self.encoder_cpu_used as nat) + " keyframe-max-dist="@
            + text::decimal(self.keyframe_distance() as nat)
    }

    pub fn vp8enc_settings(self) -> (r: String)
        ensures
            r@ == self.vp8enc(),
    {
        let mut r: String = "vp8enc deadline=1 end-usage=cbr target-bitrate=".to_owned();
        r.append(text::decimal_text(self.bitrate_bps() as u128).as_str());
        r.append(" cpu-used=");
        r.append(text::decimal_text(self.encoder_cpu_used as u128).as_str());
        r.append(" keyframe-max-dist=");
        r.append(text::decimal_text(self.keyframe_max_dist() as u128).as_str());
        r
    }

    pub open spec fn summary(self) -> Seq<char> {
        text::decimal(self.fps as nat) + " fps, "@ + text::decimal(self.video_bitrate_kbps as nat)
            + " kbps, VP8/WebM"@
    }

    pub fn log_summary(self) -> (r: String)
        ensures
            r@ == self.summary(),
    {
        let mut r: String = text::decimal_text(self.fps as u128);
        r.append(" fps, ");
        r.append(text::decimal_text(self.video_bitrate_kbps as u128).as_str());
        r.append(" kbps, VP8/WebM");
        r
    }
}

/// Every preset is usable, and so is every preset with values over it that
/// are not zero.
pub proof fn lemma_presets_are_usable(preset: QualityPreset)
    ensures
        preset.quality().usable(),
        preset.quality().checked() == Ok::<VideoQuality, QualityError>(preset.quality()),
{
}

/// The bit rate is told in bits, and a key frame comes every two seconds.
pub proof fn lemma_quality_in_numbers(q: VideoQuality)
    requires
        q.fps > 0,
    ensures
        q.video_bitrate_kbps * 1000 <= u32::MAX ==> q.bits_per_second() == q.video_bitrate_kbps
            * 1000,
        q.fps * 2 <= u32::MAX ==> q.keyframe_distance() == q.fps * 2,
        q.checked() is Ok <==> q.video_bitrate_kbps > 0 && q.encoder_cpu_used <= 16,
        q.checked() matches Ok(same) ==> same == q,
{
}

/// A better preset never has fewer frames or bits.
pub proof fn lemma_presets_are_in_order()
    ensures
        QualityPreset::Low.quality().fps <= QualityPreset::Medium.quality().fps,
        QualityPreset::Medium.quality().fps < QualityPreset::High.quality().fps,
        QualityPreset::Low.quality().video_bitrate_kbps
            < QualityPreset::Medium.quality().video_bitrate_kbps,
        QualityPreset::Medium.quality().video_bitrate_kbps
            < QualityPreset::High.quality().video_bitrate_kbps,
{
}

}
