//! Generating BMS packs: the checks before a RAW → HQ pipeline, and the
//! settings each conversion of the pipelines runs with.
use vstd::prelude::*;

use crate::error::DomainError;
use crate::text::string_from;
use crate::video::{
    ffmpeg_preset, preset_view, video_preset_avi_512x512, video_preset_mpeg1video_512x512,
    video_preset_wmv2_512x512, VideoPreset, FLITER_512X512,
};

verus! {

/// The directory, below the target root, that archives are unpacked into.
pub const CACHE_DIR_NAME: &'static str = "CacheDir";

/// How a bulk audio conversion treats its files.
#[derive(Debug, Clone, Copy, PartialEq, Eq, Structural)]
pub struct TransferOptions {
    /// Remove the source file once it was converted.
    pub remove_origin_on_success: bool,
    /// Remove the source file when no preset could convert it.
    pub remove_origin_on_failed: bool,
    /// Replace an existing target file.
    pub remove_existing_target_file: bool,
    /// Stop at the first directory that fails.
    pub stop_on_error: bool,
}

/// The message of the error for a pack directory that is not a directory.
pub open spec fn spec_bad_pack_message() -> Seq<char> {
    "Pack dir is not a valid directory"@
}

/// The message of the error for a target root that exists already.
pub open spec fn spec_root_exists_message(root: Seq<char>) -> Seq<char> {
    "Directory "@ + root + " already exists"@
}

/// The message of the error for a sync directory that is not a directory.
pub open spec fn spec_bad_sync_message() -> Seq<char> {
    "Sync dir is not a valid directory"@
}

/// Service for generating BMS packs: RAW→HQ and HQ→LQ conversion pipelines.
pub struct PackGenerateService {}

impl PackGenerateService {
    /// Create a new `PackGenerateService`.
    pub fn new() -> Self {
        PackGenerateService {}
    }

    /// The check before `pack_setup_rawpack_to_hq`: the pack must be a
    /// directory, and the root (shown as `root_display`) must not exist yet.
    pub fn setup_precheck(&self, pack_is_dir: bool, root_exists: bool, root_display: &str) -> (r: Result<(), DomainError>)
        ensures
            !pack_is_dir ==> (r matches Err(DomainError::Archive(m)) && m@ == spec_bad_pack_message()),
            pack_is_dir && root_exists ==> (r matches Err(DomainError::Archive(m)) && m@
                == spec_root_exists_message(root_display@)),
            pack_is_dir && !root_exists ==> r is Ok,
    {
        if !pack_is_dir {
            return Err(DomainError::Archive(string_from("Pack dir is not a valid directory")));
        }
        if root_exists {
            let mut m = string_from("Directory ");
            m.append(root_display);
            m.append(" already exists");
            return Err(DomainError::Archive(m));
        }
        Ok(())
    }

    /// The check before `pack_update_rawpack_to_hq`: as `setup_precheck`,
    /// and then the sync directory must be a directory.
    pub fn update_precheck(&self, pack_is_dir: bool, root_exists: bool, sync_is_dir: bool, root_display: &str) -> (r: Result<(), DomainError>)
        ensures
            !pack_is_dir ==> (r matches Err(DomainError::Archive(m)) && m@ == spec_bad_pack_message()),
            pack_is_dir && root_exists ==> (r matches Err(DomainError::Archive(m)) && m@
                == spec_root_exists_message(root_display@)),
            pack_is_dir && !root_exists && !sync_is_dir ==> (r matches Err(DomainError::Archive(m))
                && m@ == spec_bad_sync_message()),
            pack_is_dir && !root_exists && sync_is_dir ==> r is Ok,
    {
        match self.setup_precheck(pack_is_dir, root_exists, root_display) {
            Err(e) => Err(e),
            Ok(()) => {
                if !sync_is_dir {
                    Err(DomainError::Archive(string_from("Sync dir is not a valid directory")))
                } else {
                    Ok(())
                }
            },
        }
    }

    /// The options of the WAV → FLAC step of the RAW → HQ pipelines: the
    /// source goes whether the conversion succeeds or not, targets are
    /// replaced, and a failing directory does not stop the run.
    pub fn flac_transfer_options(&self) -> (r: TransferOptions)
        ensures
            r == (TransferOptions {
                remove_origin_on_success: true,
                remove_origin_on_failed: true,
                remove_existing_target_file: true,
                stop_on_error: false,
            }),
    {
        TransferOptions {
            remove_origin_on_success: true,
            remove_origin_on_failed: true,
            remove_existing_target_file: true,
            stop_on_error: false,
        }
    }

    /// The options of the FLAC → OGG step of the HQ → LQ pipeline: the
    /// source goes only when it was converted.
    pub fn ogg_transfer_options(&self) -> (r: TransferOptions)
        ensures
            r == (TransferOptions {
                remove_origin_on_success: true,
                remove_origin_on_failed: false,
                remove_existing_target_file: true,
                stop_on_error: false,
            }),
    {
        TransferOptions {
            remove_origin_on_success: true,
            remove_origin_on_failed: false,
            remove_existing_target_file: true,
            stop_on_error: false,
        }
    }

    /// The video presets of the HQ → LQ pipeline, tried in this order:
    /// MPEG1, WMV2, AVI, all at 512x512.
    pub fn hq_to_lq_video_presets(&self) -> (r: Vec<VideoPreset>)
        ensures
            r@.map_values(|p: VideoPreset| preset_view(p)) == seq![
                ffmpeg_preset(FLITER_512X512@, "mpg"@, "mpeg1video"@, "-an -b:v 1500k"@),
                ffmpeg_preset(FLITER_512X512@, "wmv"@, "wmv2"@, "-an -q:v 8"@),
                ffmpeg_preset(FLITER_512X512@, "avi"@, "mpeg4"@, "-an -q:v 8"@),
            ],
    {
        let mut r: Vec<VideoPreset> = Vec::new();
        r.push(video_preset_mpeg1video_512x512());
        r.push(video_preset_wmv2_512x512());
        r.push(video_preset_avi_512x512());
        assert(r@.map_values(|p: VideoPreset| preset_view(p)) =~= seq![
            ffmpeg_preset(FLITER_512X512@, "mpg"@, "mpeg1video"@, "-an -b:v 1500k"@),
            ffmpeg_preset(FLITER_512X512@, "wmv"@, "wmv2"@, "-an -q:v 8"@),
            ffmpeg_preset(FLITER_512X512@, "avi"@, "mpeg4"@, "-an -q:v 8"@),
        ]);
        r
    }
}

} // verus!
