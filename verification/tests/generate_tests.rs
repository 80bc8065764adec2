use bms_resource_toolbox::cli::Commands;
use bms_resource_toolbox::error::DomainError;
use bms_resource_toolbox::generate::{PackGenerateService, TransferOptions, CACHE_DIR_NAME};

fn message(r: Result<(), DomainError>) -> String {
    match r {
        Err(DomainError::Archive(m)) => m,
        _ => panic!("expected an archive error"),
    }
}

#[test]
fn generate_setup_precheck() {
    let service = PackGenerateService::new();
    assert_eq!(message(service.setup_precheck(false, false, "/r")), "Pack dir is not a valid directory");
    assert_eq!(message(service.setup_precheck(true, true, "/r")), "Directory /r already exists");
    assert!(service.setup_precheck(true, false, "/r").is_ok());
}

#[test]
fn generate_update_precheck() {
    let service = PackGenerateService::new();
    assert_eq!(message(service.update_precheck(false, true, false, "/r")), "Pack dir is not a valid directory");
    assert_eq!(message(service.update_precheck(true, true, false, "/r")), "Directory /r already exists");
    assert_eq!(message(service.update_precheck(true, false, false, "/r")), "Sync dir is not a valid directory");
    assert!(service.update_precheck(true, false, true, "/r").is_ok());
}

#[test]
fn generate_transfer_options() {
    let service = PackGenerateService::new();
    assert_eq!(
        service.flac_transfer_options(),
        TransferOptions {
            remove_origin_on_success: true,
            remove_origin_on_failed: true,
            remove_existing_target_file: true,
            stop_on_error: false,
        }
    );
    let ogg = service.ogg_transfer_options();
    assert!(ogg.remove_origin_on_success && !ogg.remove_origin_on_failed);
    assert_eq!(CACHE_DIR_NAME, "CacheDir");
}

#[test]
fn cli_confirmation_commands() {
    assert!(Commands::UndoSplitPack { path: "p".to_string() }.needs_confirmation());
    assert!(Commands::MoveWorksWithSameName { from: "a".to_string(), to: "b".to_string() }
        .needs_confirmation());
    assert!(Commands::MoveWorksWithSameNameToSiblings { path: "p".to_string() }.needs_confirmation());
    assert!(!Commands::SplitFoldersWithFirstChar { path: "p".to_string() }.needs_confirmation());
    assert!(!Commands::JumpToWorkInfo { event: 20, work_id: vec![1] }.needs_confirmation());
}
