use bms_resource_toolbox::media::{
    cleanup_action, file_extension, file_stem, get_remove_media_rule_oraja, is_media_file_name,
    is_temp_file, removes_empty_media, with_extension, CleanupAction,
    FolderCleanupService, FolderMediaService, WorkFile,
};

fn file(name: &str, len: u64) -> WorkFile {
    WorkFile { name: name.to_string(), is_file: true, len: Some(len) }
}

fn removed(pairs: &[(String, String)]) -> Vec<&str> {
    pairs.iter().map(|p| p.1.as_str()).collect()
}

#[test]
fn media_mp4_removes_avi() {
    let service = FolderMediaService::new();
    let files = vec![file("v.mp4", 3), file("v.avi", 3)];
    let r = service.workdir_remove_unneed_media_files(&files, &get_remove_media_rule_oraja());
    assert_eq!(r, vec![("v.mp4".to_string(), "v.avi".to_string())]);
}

#[test]
fn media_flac_removes_wav_and_ogg() {
    let service = FolderMediaService::new();
    let files = vec![file("a.flac", 4), file("a.wav", 3), file("a.ogg", 3)];
    let r = service.workdir_remove_unneed_media_files(&files, &get_remove_media_rule_oraja());
    assert_eq!(removed(&r), vec!["a.ogg", "a.wav"]);
}

#[test]
fn media_mp4_removes_wmv() {
    let service = FolderMediaService::new();
    let files = vec![file("v.mp4", 3), file("v.wmv", 3)];
    let r = service.workdir_remove_unneed_media_files(&files, &get_remove_media_rule_oraja());
    assert_eq!(removed(&r), vec!["v.wmv"]);
}

#[test]
fn media_no_duplicate_no_removal() {
    let service = FolderMediaService::new();
    let files = vec![file("a.flac", 4)];
    assert!(service.workdir_remove_unneed_media_files(&files, &get_remove_media_rule_oraja()).is_empty());
}

#[test]
fn media_empty_preferred_file_removes_nothing() {
    let service = FolderMediaService::new();
    let files = vec![file("v.mp4", 0), file("v.avi", 3)];
    assert!(service.workdir_remove_unneed_media_files(&files, &get_remove_media_rule_oraja()).is_empty());
}

#[test]
fn media_each_file_removed_once() {
    let service = FolderMediaService::new();
    let files = vec![file("v.mp4", 3), file("v.avi", 3), file("v.wmv", 3)];
    let r = service.workdir_remove_unneed_media_files(&files, &get_remove_media_rule_oraja());
    let mut targets = removed(&r);
    let n = targets.len();
    targets.sort();
    targets.dedup();
    assert_eq!(targets.len(), n);
    assert_eq!(targets, vec!["v.avi", "v.wmv"]);
}

#[test]
fn media_multiple_mp4_hint() {
    let service = FolderMediaService::new();
    assert!(service.has_multiple_mp4(&["a.mp4".to_string(), "b.mp4".to_string()]));
    assert!(!service.has_multiple_mp4(&["a.mp4".to_string(), "b.avi".to_string()]));
}

#[test]
fn media_names_and_temp_files() {
    assert!(is_media_file_name("a.ogg"));
    assert!(!is_media_file_name("a.OGG"));
    assert!(!is_media_file_name("a.txt"));
    assert!(is_temp_file("Thumbs.db"));
    assert!(is_temp_file("._song.wav"));
    assert!(is_temp_file(".trash-1000"));
    assert!(!is_temp_file("song.wav"));
}

#[test]
fn media_cleanup_actions() {
    assert_eq!(cleanup_action("desktop.ini", true, false), CleanupAction::RemoveTemp);
    assert_eq!(cleanup_action("empty.wav", true, false), CleanupAction::CheckEmptyMedia);
    assert_eq!(cleanup_action("sub", false, true), CleanupAction::Descend);
    assert_eq!(cleanup_action("readme.txt", true, false), CleanupAction::Keep);
    assert!(removes_empty_media(&CleanupAction::CheckEmptyMedia, 0));
    assert!(!removes_empty_media(&CleanupAction::CheckEmptyMedia, 4));
    assert!(!removes_empty_media(&CleanupAction::Keep, 0));
}

#[test]
fn media_path_parts() {
    let n: Vec<char> = "song.tar.gz".chars().collect();
    assert_eq!(file_stem(&n).into_iter().collect::<String>(), "song.tar");
    assert_eq!(file_extension(&n).unwrap().into_iter().collect::<String>(), "gz");
    let hidden: Vec<char> = ".hidden".chars().collect();
    assert!(file_extension(&hidden).is_none());
    let ext: Vec<char> = "ogg".chars().collect();
    assert_eq!(with_extension(&n, &ext).into_iter().collect::<String>(), "song.tar.ogg");
}

#[test]
fn cleanup_copy_numbered_workdir_names() {
    let service = FolderCleanupService::new();
    let src = vec!["1. Song A [Artist]".to_string(), "2. Song B [Artist]".to_string()];
    let dst = vec!["1".to_string(), "2".to_string()];
    assert_eq!(
        service.copy_numbered_workdir_names(&src, &dst),
        vec![
            ("1".to_string(), "1. Song A [Artist]".to_string()),
            ("2".to_string(), "2. Song B [Artist]".to_string()),
        ]
    );
}

#[test]
fn cleanup_copy_numbered_skips_non_numeric_dst() {
    let service = FolderCleanupService::new();
    let src = vec!["1. Title".to_string()];
    let dst = vec!["MySong".to_string(), "1. Title".to_string()];
    assert!(service.copy_numbered_workdir_names(&src, &dst).is_empty());
}
