//! Bulk media transfer: the audio modes and video formats a work
//! directory can be converted with.
use vstd::prelude::*;

use crate::generate::TransferOptions;
use crate::video::{
    ffmpeg_preset, preset_view, video_preset_avi_512x512, video_preset_mpeg1video_512x512,
    video_preset_wmv2_512x512, VideoPreset, FLITER_512X512,
};

verus! {

/// Available audio transfer modes for BMS work directories.
#[derive(Debug, Clone, Copy, PartialEq, Eq, Structural)]
pub enum AudioMode {
    /// WAV → FLAC conversion.
    WavToFlac,
    /// FLAC → OGG Q10 compression.
    FlacToOgg,
    /// WAV → OGG Q10 compression.
    WavToOgg,
    /// FLAC → WAV reverse conversion.
    FlacToWav,
}

impl AudioMode {
    /// All available modes, in the order of their numbers 0..=3.
    pub fn all() -> (r: Vec<Self>)
        ensures
            r@ == seq![AudioMode::WavToFlac, AudioMode::FlacToOgg, AudioMode::WavToOgg, AudioMode::FlacToWav],
    {
        let r = vec![Self::WavToFlac, Self::FlacToOgg, Self::WavToOgg, Self::FlacToWav];
        assert(r@ =~= seq![AudioMode::WavToFlac, AudioMode::FlacToOgg, AudioMode::WavToOgg, AudioMode::FlacToWav]);
        r
    }
}

/// The extension of the files a mode converts.
pub open spec fn spec_audio_input_ext(mode: AudioMode) -> Seq<char> {
    match mode {
        AudioMode::WavToFlac | AudioMode::WavToOgg => "wav"@,
        AudioMode::FlacToOgg | AudioMode::FlacToWav => "flac"@,
    }
}

/// Available video transfer formats for BMS work directories.
#[derive(Debug, Clone, Copy, PartialEq, Eq, Structural)]
pub enum VideoFormat {
    /// MP4 → AVI 512x512.
    Avi,
    /// MP4 → WMV2 512x512.
    Wmv2,
    /// MP4 → MPEG1VIDEO 512x512.
    Mpeg1,
}

impl VideoFormat {
    /// All available formats, in the order of their numbers 0..=2.
    pub fn all() -> (r: Vec<Self>)
        ensures
            r@ == seq![VideoFormat::Avi, VideoFormat::Wmv2, VideoFormat::Mpeg1],
    {
        let r = vec![Self::Avi, Self::Wmv2, Self::Mpeg1];
        assert(r@ =~= seq![VideoFormat::Avi, VideoFormat::Wmv2, VideoFormat::Mpeg1]);
        r
    }
}

/// The 512x512 preset of a video format.
pub open spec fn spec_format_preset(format: VideoFormat) -> (
    Seq<char>,
    Seq<char>,
    Seq<char>,
    Seq<char>,
    Seq<char>,
    Seq<char>,
) {
    match format {
        VideoFormat::Avi => ffmpeg_preset(FLITER_512X512@, "avi"@, "mpeg4"@, "-an -q:v 8"@),
        VideoFormat::Wmv2 => ffmpeg_preset(FLITER_512X512@, "wmv"@, "wmv2"@, "-an -q:v 8"@),
        VideoFormat::Mpeg1 => ffmpeg_preset(FLITER_512X512@, "mpg"@, "mpeg1video"@, "-an -b:v 1500k"@),
    }
}

/// The extensions of the files a video transfer converts.
pub open spec fn spec_video_input_exts() -> Seq<Seq<char>> {
    seq!["mp4"@, "mkv"@, "avi"@, "wmv"@, "mpg"@, "mpeg"@]
}

/// Service for bulk BMS media transfer (audio/video conversion).
pub struct TransferService {}

impl TransferService {
    /// Create a new `TransferService`.
    pub fn new() -> Self {
        TransferService {  }
    }

    /// The extensions of the audio files that `mode` converts.
    pub fn transfer_audio(&self, mode: AudioMode) -> (r: Vec<&'static str>)
        ensures
            r@.map_values(|s: &str| s@) == seq![spec_audio_input_ext(mode)],
    {
        let r = match mode {
            AudioMode::WavToFlac | AudioMode::WavToOgg => vec!["wav"],
            AudioMode::FlacToOgg | AudioMode::FlacToWav => vec!["flac"],
        };
        assert(r@.map_values(|s: &str| s@) =~= seq![spec_audio_input_ext(mode)]);
        r
    }

    /// The options of a bulk audio transfer: the source goes only when it
    /// was converted, targets are replaced, and a failing directory stops
    /// that directory's conversion.
    pub fn audio_transfer_options(&self) -> (r: TransferOptions)
        ensures
            r == (TransferOptions {
                remove_origin_on_success: true,
                remove_origin_on_failed: false,
                remove_existing_target_file: true,
                stop_on_error: true,
            }),
    {
        TransferOptions {
            remove_origin_on_success: true,
            remove_origin_on_failed: false,
            remove_existing_target_file: true,
            stop_on_error: true,
        }
    }

    /// The preset a video transfer to `format` uses, with the extensions
    /// of the video files it converts.
    pub fn transfer_video(&self, format: VideoFormat) -> (r: (VideoPreset, Vec<&'static str>))
        ensures
            preset_view(r.0) == spec_format_preset(format),
            r.1@.map_values(|s: &str| s@) == spec_video_input_exts(),
    {
        let preset = match format {
            VideoFormat::Avi => video_preset_avi_512x512(),
            VideoFormat::Wmv2 => video_preset_wmv2_512x512(),
            VideoFormat::Mpeg1 => video_preset_mpeg1video_512x512(),
        };
        let exts = vec!["mp4", "mkv", "avi", "wmv", "mpg", "mpeg"];
        assert(exts@.map_values(|s: &str| s@) =~= spec_video_input_exts());
        (preset, exts)
    }
}

} // verus!
