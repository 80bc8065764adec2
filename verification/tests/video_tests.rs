use std::path::PathBuf;

use bms_resource_toolbox::generate::PackGenerateService;
use bms_resource_toolbox::probe::{get_video_size_from_report, video_size_of_streams, ProbeStream};
use bms_resource_toolbox::transfer::{AudioMode, TransferService, VideoFormat};
use bms_resource_toolbox::video::{
    conversion_failed, conversion_outcome, get_prefered_preset_list, is_video_input, preset_step, presets_for_file,
    video_preset_avi_480p, video_preset_avi_512x512, video_preset_mpeg1video_480p,
    video_preset_mpeg1video_512x512, video_preset_wmv2_480p, video_preset_wmv2_512x512,
    ConversionOutcome, PresetStep, VideoPreset, FLITER_512X512,
};

#[test]
fn test_video_preset_cmd_matches_python() {
    let preset = video_preset_avi_512x512();
    let cmd = preset.get_video_process_cmd("/path/to/input.mp4", "/path/to/output.avi");
    assert!(cmd.contains("ffmpeg -hide_banner -i"));
    assert!(cmd.contains("input.mp4"));
    assert!(cmd.contains("output.avi"));
    assert!(cmd.contains("-c:v mpeg4"));
    assert!(cmd.contains("-an -q:v 8"));
    assert!(cmd.contains("-map_metadata 0"));
    assert!(cmd.contains("-filter_complex"));
    assert!(!cmd.contains("-vf"));
}

#[test]
fn test_video_preset_avi() {
    let preset = video_preset_avi_512x512();
    assert_eq!(preset.output_file_ext, "avi");
    assert_eq!(preset.output_codec, "mpeg4");
}

#[test]
fn test_output_file_path() {
    let preset = video_preset_avi_512x512();
    let output = preset.get_output_file_path("/some/dir/video.mp4");
    assert_eq!(PathBuf::from(output), PathBuf::from("/some/dir/video.avi"));
}

#[test]
fn test_video_preset_480p_cmd() {
    let preset = video_preset_avi_480p();
    let cmd = preset.get_video_process_cmd("/path/to/input.mp4", "/path/to/output.avi");
    assert!(cmd.contains("640:480"));
    assert!(cmd.contains("crop=640:480"));
}

#[test]
fn test_video_preset_480p_ext() {
    let avi = video_preset_avi_480p();
    assert_eq!(avi.output_file_ext, "avi");
    let wmv = video_preset_wmv2_480p();
    assert_eq!(wmv.output_file_ext, "wmv");
    let mpg = video_preset_mpeg1video_480p();
    assert_eq!(mpg.output_file_ext, "mpg");
}

#[test]
fn test_get_prefered_preset_wide() {
    let presets = get_prefered_preset_list(1920, 1080);
    assert_eq!(presets.len(), 3);
    assert!(presets[0].output_file_ext == "mpg");
}

#[test]
fn test_get_prefered_preset_square() {
    let presets = get_prefered_preset_list(800, 600);
    assert_eq!(presets.len(), 3);
    assert!(presets[0].output_file_ext == "mpg");
}

#[test]
fn test_parse_video_size_from_ffprobe_json() {
    let json = r#"{
        "streams": [
            {"codec_type": "audio"},
            {"codec_type": "video", "width": 1920, "height": 1080}
        ]
    }"#;
    assert_eq!(get_video_size_from_report(json.as_bytes()), Some((1920, 1080)));
}

#[test]
fn test_parse_video_size_no_video_stream() {
    let json = r#"{"streams": [{"codec_type": "audio"}]}"#;
    assert_eq!(get_video_size_from_report(json.as_bytes()), None);
}

#[test]
fn video_size_report_edge_cases() {
    assert_eq!(get_video_size_from_report(b"not json"), None);
    assert_eq!(get_video_size_from_report(br#"{"format": {}}"#), None);
    // a stream without codec_type before the video stream ends the search
    assert_eq!(
        get_video_size_from_report(br#"{"streams": [{}, {"codec_type": "video", "width": 1, "height": 2}]}"#),
        None
    );
    // a width that does not fit in u32
    assert_eq!(
        get_video_size_from_report(br#"{"streams": [{"codec_type": "video", "width": 4294967296, "height": 2}]}"#),
        None
    );
    assert_eq!(
        get_video_size_from_report(br#"{"streams": [{"codec_type": "video", "width": 640, "height": 480}, {"codec_type": "video", "width": 1, "height": 1}]}"#),
        Some((640, 480))
    );
}

#[test]
fn video_size_of_streams_first_video() {
    let streams = vec![
        ProbeStream { codec_type: Some("audio".to_string()), width: None, height: None },
        ProbeStream { codec_type: Some("video".to_string()), width: Some(320), height: Some(240) },
    ];
    assert_eq!(video_size_of_streams(&streams), Some((320, 240)));
    let missing_height = vec![ProbeStream {
        codec_type: Some("video".to_string()),
        width: Some(320),
        height: None,
    }];
    assert_eq!(video_size_of_streams(&missing_height), None);
}

#[test]
fn video_process_cmd_exact() {
    let preset = VideoPreset::new("ffmpeg", "-hide_banner -i", "-vf x", "avi", "mpeg4", "-an");
    assert_eq!(
        preset.get_video_process_cmd("in.mp4", "out.avi"),
        "ffmpeg -hide_banner -i \"in.mp4\" -vf x -map_metadata 0 -c:v mpeg4 -an \"out.avi\""
    );
    let other = VideoPreset::new("avconv", "-i", "", "avi", "mpeg4", "-an");
    assert_eq!(
        other.get_video_process_cmd("in.mp4", "out.avi"),
        "avconv -i \"in.mp4\"   -c:v mpeg4 -an \"out.avi\""
    );
}

#[test]
fn video_output_path_forms() {
    let preset = video_preset_wmv2_512x512();
    assert_eq!(preset.get_output_file_path("clip.mp4"), "clip.wmv");
    assert_eq!(preset.get_output_file_path("a/b.c.mp4"), "a/b.c.wmv");
}

#[test]
fn video_prefered_presets_by_aspect() {
    let wide = get_prefered_preset_list(1920, 1080);
    assert!(wide.iter().all(|p| p.filter_arg.contains("640:480")));
    let square = get_prefered_preset_list(640, 480);
    assert!(square.iter().all(|p| p.filter_arg == FLITER_512X512));
    let exts: Vec<&str> = square.iter().map(|p| p.output_file_ext.as_str()).collect();
    assert_eq!(exts, vec!["mpg", "wmv", "avi"]);
}

#[test]
fn video_presets_for_file_prepends_prefered() {
    let base = vec![video_preset_avi_512x512()];
    let r = presets_for_file(&base, true, Some((1920, 1080)));
    assert_eq!(r.len(), 4);
    assert_eq!(r[3].output_file_ext, "avi");
    assert!(r[0].filter_arg.contains("640:480"));
    assert_eq!(presets_for_file(&base, true, None).len(), 1);
    assert_eq!(presets_for_file(&base, false, Some((1, 1))).len(), 1);
}

#[test]
fn video_preset_step_cases() {
    assert!(matches!(preset_step("a.mp4", "a.mp4", true, true), PresetStep::Stop));
    assert!(matches!(preset_step("a.mp4", "a.avi", true, false), PresetStep::Skip));
    assert!(matches!(
        preset_step("a.mp4", "a.avi", true, true),
        PresetStep::Run { remove_existing: true }
    ));
    assert!(matches!(
        preset_step("a.mp4", "a.avi", false, true),
        PresetStep::Run { remove_existing: false }
    ));
    assert!(conversion_failed(2, 3));
    assert!(!conversion_failed(1, 3));
}

#[test]
fn video_input_by_extension() {
    assert!(is_video_input("clip.MP4", &["mp4"]));
    assert!(!is_video_input("clip.avi", &["mp4"]));
}

#[test]
fn transfer_modes_and_formats() {
    let service = TransferService::new();
    assert_eq!(AudioMode::all().len(), 4);
    assert_eq!(VideoFormat::all().len(), 3);
    assert_eq!(service.transfer_audio(AudioMode::WavToFlac), vec!["wav"]);
    assert_eq!(service.transfer_audio(AudioMode::FlacToOgg), vec!["flac"]);
    let (preset, exts) = service.transfer_video(VideoFormat::Wmv2);
    assert_eq!(preset.output_file_ext, "wmv");
    assert_eq!(exts, vec!["mp4", "mkv", "avi", "wmv", "mpg", "mpeg"]);
}

#[test]
fn generate_hq_to_lq_video_presets_order() {
    let service = PackGenerateService::new();
    let presets = service.hq_to_lq_video_presets();
    let exts: Vec<&str> = presets.iter().map(|p| p.output_file_ext.as_str()).collect();
    assert_eq!(exts, vec!["mpg", "wmv", "avi"]);
    assert_eq!(presets[0].arg, video_preset_mpeg1video_512x512().arg);
}

#[test]
fn transfer_audio_options_stop_on_error() {
    let options = TransferService::new().audio_transfer_options();
    assert!(options.remove_origin_on_success);
    assert!(!options.remove_origin_on_failed);
    assert!(options.remove_existing_target_file);
    assert!(options.stop_on_error);
}

fn std_output_path(input: &str, ext: &str) -> String {
    let p = std::path::Path::new(input);
    let stem = p.file_stem().unwrap_or_default().to_string_lossy().into_owned();
    p.parent()
        .unwrap_or(std::path::Path::new("."))
        .join(format!("{stem}.{ext}"))
        .to_string_lossy()
        .into_owned()
}

#[test]
fn video_output_path_follows_path_semantics() {
    let preset = video_preset_avi_512x512();
    for input in [
        "/a/", "", ".", "./", "..", "a/..", "//x//", "./a", "a/./b", "a//b/.", "/", "/.",
        "clip.mp4", "dir/.hidden", "dir/..x", "a.b.c", "./.", "x/y/z.mp4/",
    ] {
        assert_eq!(preset.get_output_file_path(input), std_output_path(input, "avi"), "input {input:?}");
    }
    assert_eq!(preset.get_output_file_path("/a/"), "/a.avi");
}

#[test]
fn video_output_path_idempotent_law() {
    let preset = video_preset_avi_512x512();
    for input in ["/a/", "x/y.mp4", "./a", "dir/..x", "//x//"] {
        let once = preset.get_output_file_path(input);
        assert_eq!(preset.get_output_file_path(&once), once);
    }
}

#[test]
fn video_conversion_outcome_cases() {
    assert_eq!(
        conversion_outcome(true, 0, 3, true),
        ConversionOutcome::Done { remove_origin: true }
    );
    assert_eq!(
        conversion_outcome(true, 2, 3, false),
        ConversionOutcome::Done { remove_origin: false }
    );
    assert_eq!(conversion_outcome(false, 0, 3, true), ConversionOutcome::Retry);
    assert_eq!(conversion_outcome(false, 2, 3, true), ConversionOutcome::Failed);
    assert_eq!(conversion_outcome(false, 0, 1, false), ConversionOutcome::Failed);
}

#[test]
fn video_output_path_idempotent_empty_extension() {
    let preset = VideoPreset::new("ffmpeg", "-i", "", "", "mpeg4", "");
    assert_eq!(preset.get_output_file_path("dir/v.mp4"), "dir/v.");
    assert_eq!(preset.get_output_file_path("dir/v."), "dir/v.");
    assert_eq!(std_output_path("dir/v.mp4", ""), "dir/v.");
    for input in ["/a/", "x/y.mp4", "./a", "v", ".hidden"] {
        let once = preset.get_output_file_path(input);
        assert_eq!(once, std_output_path(input, ""));
        assert_eq!(preset.get_output_file_path(&once), once);
    }
    // The one exception: a stem `.` with an empty extension gives `..`.
    assert_eq!(preset.get_output_file_path("dir/..x"), "dir/..");
}
