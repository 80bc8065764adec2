use std::path::PathBuf;

use bms_resource_toolbox::port::DirEntry;
use bms_resource_toolbox::rename::{
    undo_set_name_target, wants_bms_name, FolderRenameService, NoChartStep, SetNameStep,
    WorkDirInfo,
};

fn dir(name: &str) -> DirEntry {
    DirEntry { path: PathBuf::from("/root").join(name), name: name.to_string(), is_dir: true, is_file: false }
}

fn info(name: &str, title: &str, artist: &str) -> WorkDirInfo {
    WorkDirInfo { name: name.to_string(), info: Some((title.to_string(), artist.to_string())) }
}

#[test]
fn rename_append_name_by_bms_numbers_only() {
    let service = FolderRenameService::new();
    let dirs = vec![info("123", "TestSong", "TestArtist")];
    assert_eq!(
        service.append_name_by_bms(&dirs),
        vec![("123".to_string(), "123. TestSong [TestArtist]".to_string())]
    );
}

#[test]
fn rename_append_name_by_bms_skips_named() {
    let service = FolderRenameService::new();
    let dirs = vec![info("MySong", "TestSong", "")];
    assert!(service.append_name_by_bms(&dirs).is_empty());
}

#[test]
fn rename_append_name_fullwidth_digits_and_empty_info() {
    let service = FolderRenameService::new();
    let dirs = vec![
        info("１２", "T:1", "A/B"),
        info("7", "", ""),
        WorkDirInfo { name: "8".to_string(), info: None },
    ];
    assert_eq!(
        service.append_name_by_bms(&dirs),
        vec![("１２".to_string(), "１２. T：1 [A／B]".to_string())]
    );
}

#[test]
fn rename_folder_by_bms_trims_and_refuses() {
    let service = FolderRenameService::new();
    assert_eq!(service.rename_folder_by_bms("12", "T", "A"), Some("12. T [A]".to_string()));
    assert_eq!(service.rename_folder_by_bms(" 12 ", "T", "A"), None);
    assert_eq!(service.rename_folder_by_bms("  ", "T", "A"), Some(". T [A]".to_string()));
    assert_eq!(service.rename_folder_by_bms("", "T", "A"), Some(". T [A]".to_string()));
    assert_eq!(service.rename_folder_by_bms("x1", "T", "A"), None);
    assert_eq!(service.rename_folder_by_bms("1", "", ""), None);
    assert!(wants_bms_name("０１"));
    assert!(!wants_bms_name("   "));
    assert!(!wants_bms_name("1a"));
}

#[test]
fn rename_append_name_is_final() {
    let service = FolderRenameService::new();
    let once = service.rename_folder_by_bms("5", "Song", "Artist").unwrap();
    assert!(!wants_bms_name(&once));
}

#[test]
fn rename_append_artist_name() {
    let service = FolderRenameService::new();
    let dirs = vec![info("MySong", "Song", "ArtistName")];
    let r = service.append_artist_name_by_bms(&dirs);
    assert_eq!(r, vec![("MySong".to_string(), "MySong [ArtistName]".to_string())]);
    assert!(r[0].1.contains("[ArtistName]"));
}

#[test]
fn rename_append_artist_name_skips_already_set() {
    let service = FolderRenameService::new();
    let dirs = vec![
        info("MySong [Artist]", "Song", "Artist"),
        WorkDirInfo { name: "NoCharts".to_string(), info: None },
    ];
    assert!(service.append_artist_name_by_bms(&dirs).is_empty());
}

#[test]
fn rename_append_artist_once_law() {
    let service = FolderRenameService::new();
    let once = service.artist_appended_name("Work", "A").unwrap();
    assert_eq!(once, "Work [A]");
    assert_eq!(service.artist_appended_name(&once, "B"), None);
}

#[test]
fn rename_set_name_target_basic() {
    let service = FolderRenameService::new();
    assert_eq!(service.set_name_target("NiceSong", "NiceArtist"), Some("NiceSong [NiceArtist]".to_string()));
    assert_eq!(service.set_name_target("", ""), None);
    assert_eq!(service.set_name_target("", "A"), Some(" [A]".to_string()));
}

#[test]
fn rename_set_name_steps() {
    let service = FolderRenameService::new();
    assert_eq!(service.set_name_step("Song [Artist]", "Song [Artist]", true), SetNameStep::Unchanged);
    assert_eq!(service.set_name_step("123", "Song [Artist]", false), SetNameStep::Rename);
    assert_eq!(service.set_name_step("src", "Song [Artist]", true), SetNameStep::Merge);
    assert_eq!(service.no_chart_step(0, false), NoChartStep::RemoveEmpty);
    assert_eq!(service.no_chart_step(1, true), NoChartStep::MoveOut);
    assert_eq!(service.no_chart_step(1, false), NoChartStep::GiveUp);
    assert_eq!(service.no_chart_step(3, true), NoChartStep::GiveUp);
}

#[test]
fn rename_undo_set_name() {
    let service = FolderRenameService::new();
    let entries = vec![dir("NiceSong [NiceArtist]")];
    assert_eq!(
        service.undo_set_name(&entries),
        vec![("NiceSong [NiceArtist]".to_string(), "NiceSong".to_string())]
    );
}

#[test]
fn rename_undo_set_name_skip_conflict() {
    let service = FolderRenameService::new();
    let entries = vec![dir("NiceSong [Artist]"), dir("NiceSong")];
    assert!(service.undo_set_name(&entries).is_empty());
}

#[test]
fn rename_undo_never_collides() {
    let service = FolderRenameService::new();
    let mut file_entry = dir("Readme file.txt");
    file_entry.is_dir = false;
    file_entry.is_file = true;
    let entries = vec![dir("A [x]"), dir("A [y]"), dir("B"), file_entry, dir("C d")];
    assert_eq!(
        service.undo_set_name(&entries),
        vec![("A [x]".to_string(), "A".to_string()), ("C d".to_string(), "C".to_string())]
    );
}

#[test]
fn rename_undo_reverts_set_name_law() {
    let service = FolderRenameService::new();
    let named = service.set_name_target("Title:1", "Artist").unwrap();
    assert_eq!(undo_set_name_target(&named), Some("Title：1".to_string()));
    assert_eq!(undo_set_name_target("Title：1"), None);
}

#[test]
fn rename_undo_skips_leading_space() {
    let service = FolderRenameService::new();
    let entries = vec![dir(" x"), dir("A B")];
    assert_eq!(service.undo_set_name(&entries), vec![("A B".to_string(), "A".to_string())]);
    assert_eq!(undo_set_name_target(" x"), None);
}
