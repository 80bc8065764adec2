use std::path::PathBuf;

use bms_resource_toolbox::port::{DirEntry, FileMetadata};
use bms_resource_toolbox::unzip::{
    cache_flatten_step, cache_flatten_succeeded, is_chart_name, is_id_target_dir,
    is_num_set_file_name, is_numbering_candidate, FlattenStep, PackFile, UnzipService,
};

fn entry(name: &str, is_dir: bool) -> DirEntry {
    DirEntry { path: PathBuf::from("/p").join(name), name: name.to_string(), is_dir, is_file: !is_dir }
}

fn meta(len: u64) -> Option<FileMetadata> {
    Some(FileMetadata::new(len))
}

#[test]
fn unzip_set_file_num_basic() {
    let service = UnzipService::new();
    let files = vec![PackFile { name: "song.bms".to_string(), has_part_file: false, metadata: meta(12) }];
    let candidates = service.numbering_candidates(&files);
    assert_eq!(candidates, vec!["song.bms"]);
    assert_eq!(
        service.set_file_num_target(&candidates, 0, 42),
        Some(("song.bms".to_string(), "42 song.bms".to_string()))
    );
}

#[test]
fn unzip_set_file_num_skips_already_numbered() {
    let service = UnzipService::new();
    let files = vec![PackFile { name: "10 song.bms".to_string(), has_part_file: false, metadata: meta(12) }];
    assert!(service.numbering_candidates(&files).is_empty());
}

#[test]
fn unzip_set_file_num_skips_empty_files() {
    let service = UnzipService::new();
    let files = vec![
        PackFile { name: "song.bms".to_string(), has_part_file: false, metadata: meta(0) },
        PackFile { name: "other.bms".to_string(), has_part_file: false, metadata: None },
    ];
    assert!(service.numbering_candidates(&files).is_empty());
}

#[test]
fn unzip_numbering_candidate_rules() {
    assert!(is_numbering_candidate("Pack.zip", false, Some(1)));
    assert!(!is_numbering_candidate("Pack.zip", true, Some(1)));
    assert!(!is_numbering_candidate("Pack.ZIP", false, Some(1)));
    assert!(!is_numbering_candidate("notes.txt", false, Some(1)));
    assert!(is_numbering_candidate("zip", false, Some(1)));
    assert!(is_numbering_candidate("12a pack.7z", false, Some(1)));
}

#[test]
fn unzip_set_file_num_index_out_of_range() {
    let service = UnzipService::new();
    let c = vec!["a.zip".to_string()];
    assert_eq!(service.set_file_num_target(&c, 1, 3), None);
    assert_eq!(
        service.set_file_num_target(&c, 0, -3),
        Some(("a.zip".to_string(), "-3 a.zip".to_string()))
    );
}

#[test]
fn unzip_numbered_file_is_final_law() {
    let service = UnzipService::new();
    let (_, numbered) = service.set_file_num_target(&["pack.rar".to_string()], 0, 7).unwrap();
    assert!(!is_numbering_candidate(&numbered, false, Some(10)));
    assert!(is_num_set_file_name(&numbered));
    assert_eq!(service.numeric_id(&numbered), Some("7".to_string()));
}

#[test]
fn unzip_num_set_file_names() {
    assert!(is_num_set_file_name("123 Pack.zip"));
    assert!(is_num_set_file_name("１２ Pack.zip"));
    assert!(is_num_set_file_name("42"));
    assert!(!is_num_set_file_name(" 42 x"));
    assert!(!is_num_set_file_name("A1 Pack.zip"));
}

#[test]
fn unzip_numeric_id_first_word() {
    let service = UnzipService::new();
    assert_eq!(service.numeric_id("  12\tPack.zip"), Some("12".to_string()));
    assert_eq!(service.numeric_id("   "), None);
}

#[test]
fn unzip_find_id_target_dir() {
    let service = UnzipService::new();
    let entries = vec![
        entry("120", true),
        entry("12.zip", false),
        entry("12. Song [A]", true),
        entry("12 Other", true),
    ];
    assert_eq!(service.find_id_target_dir(&entries, "12"), Some(2));
    assert_eq!(service.find_id_target_dir(&entries, "7"), None);
    assert!(is_id_target_dir("12", "12"));
    assert!(is_id_target_dir("12 x", "12"));
    assert!(!is_id_target_dir("123", "12"));
}

#[test]
fn unzip_archive_names_and_dirs() {
    let service = UnzipService::new();
    let entries = vec![
        entry("TestPack.zip", false),
        entry("b.7z", false),
        entry("c.rar", false),
        entry("d.ZIP", false),
        entry("dir.zip", true),
        entry("notes.txt", false),
    ];
    assert_eq!(service.archive_names(&entries), vec!["TestPack.zip", "b.7z", "c.rar"]);
    assert_eq!(service.archive_dir_name("TestPack.zip"), "TestPack");
    assert_eq!(service.archive_dir_name("Pack...zip"), "Pack");
    assert_eq!(service.archive_dir_name("noext"), "noext");
}

#[test]
fn unzip_cache_flatten_steps() {
    assert_eq!(cache_flatten_step(0, 3, false), FlattenStep::Done);
    assert_eq!(cache_flatten_step(1, 10, false), FlattenStep::Done);
    assert_eq!(cache_flatten_step(1, 9, true), FlattenStep::MoveInner);
    assert_eq!(cache_flatten_step(2, 0, true), FlattenStep::Done);
    assert_eq!(cache_flatten_step(2, 0, false), FlattenStep::Fail);
    assert!(cache_flatten_succeeded(false, 0, 1));
    assert!(!cache_flatten_succeeded(false, 0, 0));
    assert!(!cache_flatten_succeeded(true, 3, 3));
}

#[test]
fn unzip_chart_names_by_lower_case() {
    assert!(is_chart_name("SONG.BMS", &[".bms", ".bme"]));
    assert!(!is_chart_name("song.wav", &[".bms"]));
}

#[test]
fn unzip_chart_exts_find_charts() {
    let exts = bms_resource_toolbox::unzip::chart_file_exts();
    assert!(is_chart_name("a.BMSON", &exts));
    assert!(is_chart_name("a.pms", &exts));
    assert!(!is_chart_name("a.ogg", &exts));
}
