//! Video conversion presets: the output path and the ffmpeg command of a
//! conversion, the preferred presets for a video's shape, and the choices
//! made while converting one file.
use vstd::prelude::*;

use crate::media::{file_extension, file_stem, spec_extension, spec_file_stem};
use crate::path::{
    comp_end, lemma_comp_end_bounds, lemma_join_onto_parent, lemma_seg_start_bounds,
    path_parent_and_file_name, seg_start, spec_path_file_name, spec_path_join, spec_path_parent,
};
use crate::text::{
    lemma_rfind_char_bounds, rfind_char, spec_to_lowercase,
    str_chars, str_eq, string_from, string_from_chars, to_lowercase,
};

verus! {

/// Video conversion preset.
#[derive(Debug, Clone)]
pub struct VideoPreset {
    /// Executable name (e.g. "ffmpeg")
    pub executable: String,
    /// Input argument (e.g. "`-hide_banner` -i")
    pub input_arg: String,
    /// Filter argument (e.g. `FLITER_512X512`)
    pub filter_arg: String,
    /// Output file extension (e.g. "avi")
    pub output_file_ext: String,
    /// Output codec (e.g. "mpeg4")
    pub output_codec: String,
    /// Additional arguments (e.g. "-an -q:v 8")
    pub arg: String,
}

/// The six texts of a preset, as plain values.
pub open spec fn preset_view(p: VideoPreset) -> (
    Seq<char>,
    Seq<char>,
    Seq<char>,
    Seq<char>,
    Seq<char>,
    Seq<char>,
) {
    (p.executable@, p.input_arg@, p.filter_arg@, p.output_file_ext@, p.output_codec@, p.arg@)
}

/// The stem of the file a path names (`Path::file_stem`); empty when the
/// path names no file.
pub open spec fn spec_path_stem(path: Seq<char>) -> Seq<char> {
    match spec_path_file_name(path) {
        Some(name) => spec_file_stem(name),
        None => seq![],
    }
}

/// The output path of a conversion: the input's parent (`.` when it has
/// none) joined with the input's stem and the preset's extension.
pub open spec fn spec_output_file_path(input: Seq<char>, ext: Seq<char>) -> Seq<char> {
    let base = match spec_path_parent(input) {
        Some(p) => p,
        None => "."@,
    };
    spec_path_join(base, spec_path_stem(input) + "."@ + ext)
}

/// Converting keeps the directory and only changes the extension, and a
/// second conversion gives the same path: for an input that names a file
/// and an extension that holds no `.` and no `/`, unless the extension is
/// empty and the stem is `.` (then the new name would be `..`).
pub proof fn lemma_output_file_path_idempotent(input: Seq<char>, ext: Seq<char>)
    requires
        spec_path_file_name(input) is Some,
        forall|i: int| 0 <= i < ext.len() ==> ext[i] != '.' && ext[i] != '/',
        !(ext.len() == 0 && spec_path_stem(input) == "."@),
    ensures
        spec_path_parent(spec_output_file_path(input, ext)) == spec_path_parent(input),
        spec_path_file_name(spec_output_file_path(input, ext)) == Some(
            spec_path_stem(input) + "."@ + ext,
        ),
        spec_output_file_path(spec_output_file_path(input, ext), ext) == spec_output_file_path(
            input,
            ext,
        ),
{
    reveal_strlit(".");
    reveal_strlit("..");
    let name = spec_path_file_name(input)->0;
    let len = input.len() as int;
    lemma_comp_end_bounds(input, len);
    let e = comp_end(input, len);
    lemma_seg_start_bounds(input, e);
    let ss = seg_start(input, e);
    assert(ss < e) by {
        if ss == e {
            assert(seg_start(input, e) == seg_start(input, e - 1));
            lemma_seg_start_bounds(input, e - 1);
        }
    }
    assert(name == input.subrange(ss, e));
    assert forall|i: int| 0 <= i < name.len() implies name[i] != '/' by {
        assert(name[i] == input[ss + i]);
    }
    let stem = spec_file_stem(name);
    lemma_rfind_char_bounds(name, '.', name.len() as int);
    assert(stem.len() > 0);
    assert forall|i: int| 0 <= i < stem.len() implies stem[i] != '/' by {
        assert(stem[i] == name[i]);
    }
    assert(stem == spec_path_stem(input));
    let leaf = stem + "."@ + ext;
    assert forall|i: int| 0 <= i < leaf.len() implies leaf[i] != '/' by {
        if i < stem.len() {
            assert(leaf[i] == stem[i]);
        } else if i > stem.len() {
            assert(leaf[i] == ext[i - stem.len() - 1]);
        }
    }
    assert(leaf != ".."@) by {
        if leaf == ".."@ {
            assert(leaf.len() == 2);
            assert(stem.len() == 1);
            assert(ext.len() == 0);
            assert(stem =~= "."@) by {
                assert(stem[0] == leaf[0]);
            }
        }
    }
    assert(leaf != "."@) by {
        assert(leaf.len() >= 2);
    }
    lemma_join_onto_parent(input, leaf);
    let out = spec_output_file_path(input, ext);
    assert(out == spec_path_join(spec_path_parent(input)->0, leaf));
    assert(spec_path_stem(out) == stem) by {
        let k = stem.len() as int;
        assert(leaf[k] == '.');
        assert forall|i: int| k < i < leaf.len() implies leaf[i] != '.' by {
            assert(leaf[i] == ext[i - k - 1]);
        }
        lemma_rfind_char_bounds(leaf, '.', leaf.len() as int);
        assert(rfind_char(leaf, '.') == Some(k));
        assert(leaf != ".."@);
        assert(leaf.subrange(0, k) =~= stem);
    }
}

/// The command of a conversion, as the preset's fields format it.
pub open spec fn spec_video_process_cmd(p: VideoPreset, input: Seq<char>, output: Seq<char>) -> Seq<
    char,
> {
    let inner = if p.executable@ == "ffmpeg"@ {
        "-map_metadata 0"@
    } else {
        seq![]
    };
    p.executable@ + " "@ + p.input_arg@ + " \""@ + input + "\" "@ + p.filter_arg@ + " "@ + inner
        + " -c:v "@ + p.output_codec@ + " "@ + p.arg@ + " \""@ + output + "\""@
}

impl VideoPreset {
    /// Create a new video preset.
    pub fn new(
        executable: &str,
        input_arg: &str,
        filter_arg: &str,
        output_file_ext: &str,
        output_codec: &str,
        arg: &str,
    ) -> (r: Self)
        ensures
            preset_view(r) == (executable@, input_arg@, filter_arg@, output_file_ext@, output_codec@, arg@),
    {
        VideoPreset {
            executable: string_from(executable),
            input_arg: string_from(input_arg),
            filter_arg: string_from(filter_arg),
            output_file_ext: string_from(output_file_ext),
            output_codec: string_from(output_codec),
            arg: string_from(arg),
        }
    }

    /// Get the output file path by replacing the extension: the input's
    /// parent joined with its stem and the preset's extension, the path
    /// read as `Path` reads it.
    pub fn get_output_file_path(&self, input_file_path: &str) -> (r: String)
        ensures
            r@ == spec_output_file_path(input_file_path@, self.output_file_ext@),
    {
        let p = str_chars(input_file_path);
        let (parent, name) = path_parent_and_file_name(&p);
        let base = match parent {
            Some(b) => b,
            None => str_chars("."),
        };
        let stem = match name {
            Some(n) => file_stem(&n),
            None => Vec::new(),
        };
        let mut leaf = string_from_chars(&stem);
        leaf.append(".");
        leaf.append(self.output_file_ext.as_str());
        let mut out = string_from_chars(&base);
        if base.len() > 0 && base[base.len() - 1] != '/' {
            out.append("/");
        }
        out.append(leaf.as_str());
        out
    }

    /// A preset holding the same six texts.
    pub fn copy_texts(&self) -> (r: Self)
        ensures
            preset_view(r) == preset_view(*self),
    {
        VideoPreset {
            executable: self.executable.clone(),
            input_arg: self.input_arg.clone(),
            filter_arg: self.filter_arg.clone(),
            output_file_ext: self.output_file_ext.clone(),
            output_codec: self.output_codec.clone(),
            arg: self.arg.clone(),
        }
    }

    /// Get the ffmpeg command string.
    pub fn get_video_process_cmd(&self, input_file_path: &str, output_file_path: &str) -> (r: String)
        ensures
            r@ == spec_video_process_cmd(*self, input_file_path@, output_file_path@),
    {
        let inner_arg = if str_eq(self.executable.as_str(), "ffmpeg") {
            "-map_metadata 0"
        } else {
            ""
        };
        let mut s = self.executable.clone();
        s.append(" ");
        s.append(self.input_arg.as_str());
        s.append(" \"");
        s.append(input_file_path);
        s.append("\" ");
        s.append(self.filter_arg.as_str());
        s.append(" ");
        s.append(inner_arg);
        s.append(" -c:v ");
        s.append(self.output_codec.as_str());
        s.append(" ");
        s.append(self.arg.as_str());
        s.append(" \"");
        s.append(output_file_path);
        s.append("\"");
        proof {
            if self.executable@ != "ffmpeg"@ {
                reveal_strlit("");
            }
        }
        s
    }
}

/// Filter complex for 512x512 with boxblur overlay.
pub const FLITER_512X512: &'static str = "-filter_complex \"[0:v]scale=512:512:force_original_aspect_ratio=increase,crop=512:512:(ow-iw)/2:(oh-ih)/2,boxblur=20[v1];[0:v]scale=512:512:force_original_aspect_ratio=decrease[v2];[v1][v2]overlay=(main_w-overlay_w)/2:(main_h-overlay_h)/2[vid]\" -map [vid]";

/// Filter complex for 640x480 with boxblur overlay.
pub const FLITER_480P: &'static str = "-filter_complex \"[0:v]scale=640:480:force_original_aspect_ratio=increase,crop=640:480:(ow-iw)/2:(oh-ih)/2,boxblur=20[v1];[0:v]scale=640:480:force_original_aspect_ratio=decrease[v2];[v1][v2]overlay=(main_w-overlay_w)/2:(main_h-overlay_h)/2[vid]\" -map [vid]";

/// The texts of the preset `exec = ffmpeg`, `-hide_banner -i`, with the
/// given filter, extension, codec and arguments.
pub open spec fn ffmpeg_preset(filter: Seq<char>, ext: Seq<char>, codec: Seq<char>, arg: Seq<char>) -> (
    Seq<char>,
    Seq<char>,
    Seq<char>,
    Seq<char>,
    Seq<char>,
    Seq<char>,
) {
    ("ffmpeg"@, "-hide_banner -i"@, filter, ext, codec, arg)
}

/// Video preset for AVI encoding at 512x512.
pub fn video_preset_avi_512x512() -> (r: VideoPreset)
    ensures
        preset_view(r) == ffmpeg_preset(FLITER_512X512@, "avi"@, "mpeg4"@, "-an -q:v 8"@),
{
    VideoPreset::new("ffmpeg", "-hide_banner -i", FLITER_512X512, "avi", "mpeg4", "-an -q:v 8")
}

/// Video preset for MPEG1 encoding at 512x512.
pub fn video_preset_mpeg1video_512x512() -> (r: VideoPreset)
    ensures
        preset_view(r) == ffmpeg_preset(FLITER_512X512@, "mpg"@, "mpeg1video"@, "-an -b:v 1500k"@),
{
    VideoPreset::new(
        "ffmpeg",
        "-hide_banner -i",
        FLITER_512X512,
        "mpg",
        "mpeg1video",
        "-an -b:v 1500k",
    )
}

/// Video preset for WMV2 encoding at 512x512.
pub fn video_preset_wmv2_512x512() -> (r: VideoPreset)
    ensures
        preset_view(r) == ffmpeg_preset(FLITER_512X512@, "wmv"@, "wmv2"@, "-an -q:v 8"@),
{
    VideoPreset::new("ffmpeg", "-hide_banner -i", FLITER_512X512, "wmv", "wmv2", "-an -q:v 8")
}

/// Video preset for AVI encoding at 480p.
pub fn video_preset_avi_480p() -> (r: VideoPreset)
    ensures
        preset_view(r) == ffmpeg_preset(FLITER_480P@, "avi"@, "mpeg4"@, "-an -q:v 8"@),
{
    VideoPreset::new("ffmpeg", "-hide_banner -i", FLITER_480P, "avi", "mpeg4", "-an -q:v 8")
}

/// Video preset for WMV2 encoding at 480p.
pub fn video_preset_wmv2_480p() -> (r: VideoPreset)
    ensures
        preset_view(r) == ffmpeg_preset(FLITER_480P@, "wmv"@, "wmv2"@, "-an -q:v 8"@),
{
    VideoPreset::new("ffmpeg", "-hide_banner -i", FLITER_480P, "wmv", "wmv2", "-an -q:v 8")
}

/// Video preset for MPEG1 encoding at 480p.
pub fn video_preset_mpeg1video_480p() -> (r: VideoPreset)
    ensures
        preset_view(r) == ffmpeg_preset(FLITER_480P@, "mpg"@, "mpeg1video"@, "-an -b:v 1500k"@),
{
    VideoPreset::new(
        "ffmpeg",
        "-hide_banner -i",
        FLITER_480P,
        "mpg",
        "mpeg1video",
        "-an -b:v 1500k",
    )
}

/// A video is wide when its aspect ratio exceeds 640:480: `width * 3 >
/// height * 4`. This is the comparison of `width / height` with
/// `640.0 / 480.0` in `f64`, whose quotients of `u32` values are exact
/// enough to order alike (a zero height is wide exactly when the width is
/// not zero, as the float quotient is infinite or NaN).
pub open spec fn spec_is_wide(width: u32, height: u32) -> bool {
    (width as int) * 3 > (height as int) * 4
}

/// The preferred presets for a video: the 480p presets for a wide video,
/// else the 512x512 ones, in the order mpeg1, wmv2, avi.
pub open spec fn spec_prefered_presets(width: u32, height: u32) -> Seq<
    (Seq<char>, Seq<char>, Seq<char>, Seq<char>, Seq<char>, Seq<char>),
> {
    let f = if spec_is_wide(width, height) {
        FLITER_480P@
    } else {
        FLITER_512X512@
    };
    seq![
        ffmpeg_preset(f, "mpg"@, "mpeg1video"@, "-an -b:v 1500k"@),
        ffmpeg_preset(f, "wmv"@, "wmv2"@, "-an -q:v 8"@),
        ffmpeg_preset(f, "avi"@, "mpeg4"@, "-an -q:v 8"@),
    ]
}

/// Get the preferred video preset list based on video dimensions.
pub fn get_prefered_preset_list(width: u32, height: u32) -> (r: Vec<VideoPreset>)
    ensures
        r@.map_values(|p: VideoPreset| preset_view(p)) == spec_prefered_presets(width, height),
{
    let wide = (width as u64) * 3 > (height as u64) * 4;
    let mut r: Vec<VideoPreset> = Vec::new();
    if wide {
        r.push(video_preset_mpeg1video_480p());
        r.push(video_preset_wmv2_480p());
        r.push(video_preset_avi_480p());
    } else {
        r.push(video_preset_mpeg1video_512x512());
        r.push(video_preset_wmv2_512x512());
        r.push(video_preset_avi_512x512());
    }
    assert(r@.map_values(|p: VideoPreset| preset_view(p)) =~= spec_prefered_presets(width, height));
    r
}

/// The presets tried for one file: when preferred presets are asked for
/// and the video's size is known, its preferred presets and then `presets`;
/// otherwise `presets`.
pub fn presets_for_file(presets: &Vec<VideoPreset>, use_prefered: bool, size: Option<(u32, u32)>) -> (r: Vec<VideoPreset>)
    ensures
        r@.map_values(|p: VideoPreset| preset_view(p)) == match (use_prefered, size) {
            (true, Some((w, h))) => spec_prefered_presets(w, h) + presets@.map_values(
                |p: VideoPreset| preset_view(p),
            ),
            _ => presets@.map_values(|p: VideoPreset| preset_view(p)),
        },
{
    let mut r: Vec<VideoPreset> = if use_prefered {
        match size {
            Some((w, h)) => get_prefered_preset_list(w, h),
            None => Vec::new(),
        }
    } else {
        Vec::new()
    };
    let ghost head = r@.map_values(|p: VideoPreset| preset_view(p));
    let mut i: usize = 0;
    while i < presets.len()
        invariant
            i <= presets@.len(),
            r@.map_values(|p: VideoPreset| preset_view(p)) == head + presets@.subrange(0, i as int).map_values(
                |p: VideoPreset| preset_view(p),
            ),
        decreases presets.len() - i,
    {
        let ghost prev = r@.map_values(|p: VideoPreset| preset_view(p));
        let p = presets[i].copy_texts();
        r.push(p);
        assert(r@.map_values(|p: VideoPreset| preset_view(p)) =~= prev.push(preset_view(presets@[i as int])));
        assert(presets@.subrange(0, i + 1) =~= presets@.subrange(0, i as int).push(presets@[i as int]));
        i = i + 1;
        assert(r@.map_values(|p: VideoPreset| preset_view(p)) =~= head + presets@.subrange(0, i as int).map_values(
            |p: VideoPreset| preset_view(p),
        ));
    }
    assert(presets@.subrange(0, presets@.len() as int) =~= presets@);
    r
}

/// What a conversion does with the next preset of a file.
#[derive(PartialEq, Eq, Structural, Debug)]
pub enum PresetStep {
    /// The output would be the input itself: stop converting this file.
    Stop,
    /// The output exists and is kept: go on with the next preset.
    Skip,
    /// Run the conversion, first removing an existing output if asked.
    Run { remove_existing: bool },
}

/// The step for a preset whose output path is `output` for the input
/// `input`, given whether the output exists and whether existing outputs
/// are removed.
pub open spec fn spec_preset_step(input: Seq<char>, output: Seq<char>, output_exists: bool, remove_existing_target_file: bool) -> PresetStep {
    if input == output {
        PresetStep::Stop
    } else if output_exists {
        if remove_existing_target_file {
            PresetStep::Run { remove_existing: true }
        } else {
            PresetStep::Skip
        }
    } else {
        PresetStep::Run { remove_existing: false }
    }
}

/// The step for one preset, as `spec_preset_step` states.
pub fn preset_step(input: &str, output: &str, output_exists: bool, remove_existing_target_file: bool) -> (r: PresetStep)
    ensures
        r == spec_preset_step(input@, output@, output_exists, remove_existing_target_file),
{
    if str_eq(input, output) {
        PresetStep::Stop
    } else if output_exists {
        if remove_existing_target_file {
            PresetStep::Run { remove_existing: true }
        } else {
            PresetStep::Skip
        }
    } else {
        PresetStep::Run { remove_existing: false }
    }
}

/// What happens after running the preset at `index` of `count` on a file.
#[derive(Debug, Clone, Copy, PartialEq, Eq, Structural)]
pub enum ConversionOutcome {
    /// The conversion succeeded: stop trying presets for this file, and
    /// remove the source file when asked.
    Done { remove_origin: bool },
    /// It failed and another preset remains: remove the failed output and
    /// try the next preset.
    Retry,
    /// It failed with the last preset: remove the failed output, and the
    /// file's conversion fails.
    Failed,
}

/// The outcome of running the preset at `index` of `count` on a file, as
/// `ConversionOutcome` describes.
pub fn conversion_outcome(succeeded: bool, index: usize, count: usize, remove_origin_file: bool) -> (r: ConversionOutcome)
    ensures
        succeeded ==> r == (ConversionOutcome::Done { remove_origin: remove_origin_file }),
        !succeeded && index + 1 == count ==> r == ConversionOutcome::Failed,
        !succeeded && index + 1 != count ==> r == ConversionOutcome::Retry,
{
    if succeeded {
        ConversionOutcome::Done { remove_origin: remove_origin_file }
    } else if conversion_failed(index, count) {
        ConversionOutcome::Failed
    } else {
        ConversionOutcome::Retry
    }
}

/// Whether a failed conversion with the preset at `index` of `count` makes
/// the file's conversion fail: only the last preset's failure does.
pub fn conversion_failed(index: usize, count: usize) -> (r: bool)
    ensures
        r == (index + 1 == count),
{
    count > 0 && index == count - 1
}

/// The file is converted: its extension, lower-cased, equals one of the
/// input extensions, lower-cased.
pub open spec fn spec_is_video_input(name: Seq<char>, input_exts: Seq<Seq<char>>) -> bool {
    match spec_extension(name) {
        Some(ext) => exists|k: int|
            0 <= k < input_exts.len() && spec_to_lowercase(#[trigger] input_exts[k])
                == spec_to_lowercase(ext),
        None => false,
    }
}

/// Whether the file `name` is one a conversion with the input extensions
/// `input_exts` takes.
pub fn is_video_input(name: &str, input_exts: &[&str]) -> (r: bool)
    ensures
        r == spec_is_video_input(name@, input_exts@.map_values(|s: &str| s@)),
{
    let ghost ev = input_exts@.map_values(|s: &str| s@);
    let nc = str_chars(name);
    match file_extension(&nc) {
        Some(ext) => {
            assert(spec_extension(name@) == Some(ext@));
            let ext_s = string_from_chars(&ext);
            let lower = to_lowercase(ext_s.as_str());
            let mut k: usize = 0;
            while k < input_exts.len()
                invariant
                    k <= input_exts@.len(),
                    ev == input_exts@.map_values(|s: &str| s@),
                    lower@ == spec_to_lowercase(ext@),
                    spec_extension(name@) == Some(ext@),
                    forall|m: int| 0 <= m < k ==> spec_to_lowercase(#[trigger] ev[m]) != lower@,
                decreases input_exts.len() - k,
            {
                let e = to_lowercase(input_exts[k]);
                assert(ev[k as int] == input_exts@[k as int]@);
                if str_eq(e.as_str(), lower.as_str()) {
                    assert(spec_to_lowercase(ev[k as int]) == spec_to_lowercase(ext@));
                    return true;
                }
                k = k + 1;
            }
            false
        },
        None => false,
    }
}

} // verus!
