use bms_resource_toolbox::event::{
    check_num_folder, create_num_folders, id_conflicts, jump_to_work_info, work_table_row,
    BMSEvent,
};

#[test]
fn jump_test_bmsevent_work_info_url() {
    let url = BMSEvent::BOFTT.work_info_url(123);
    assert!(url.contains("event=146"));
    assert!(url.contains("num=123"));

    let url = BMSEvent::LetsBMSEdit3.work_info_url(42);
    assert!(url.contains("letsbmsedit3/42"));
}

#[test]
fn jump_test_bmsevent_list_url() {
    assert!(BMSEvent::BOFTT.list_url().contains("event=146"));
    assert!(BMSEvent::BOF21.list_url().contains("event=149"));
    assert!(BMSEvent::LetsBMSEdit3.list_url().contains("letsbmsedit3"));
}

#[test]
fn jump_test_bmsevent_from_i32() {
    assert_eq!(BMSEvent::from_i32(20), BMSEvent::BOFTT);
    assert_eq!(BMSEvent::from_i32(21), BMSEvent::BOF21);
    assert_eq!(BMSEvent::from_i32(103), BMSEvent::LetsBMSEdit3);
    assert_eq!(BMSEvent::from_i32(999), BMSEvent::BOFTT);
}

#[test]
fn event_work_info_url_exact() {
    assert_eq!(
        BMSEvent::BOFTT.work_info_url(123),
        "https://manbow.nothing.sh/event/event.cgi?action=More_def&num=123&event=146"
    );
    assert_eq!(
        BMSEvent::BOF21.work_info_url(-5),
        "https://manbow.nothing.sh/event/event.cgi?action=More_def&num=-5&event=149"
    );
    assert_eq!(
        BMSEvent::LetsBMSEdit3.work_info_url(0),
        "https://venue.bmssearch.net/letsbmsedit3/0"
    );
}

#[test]
fn event_value_roundtrip_concrete() {
    for e in [BMSEvent::BOFTT, BMSEvent::BOF21, BMSEvent::LetsBMSEdit3] {
        assert_eq!(BMSEvent::from_value(e.value()), e);
    }
    assert_eq!(BMSEvent::BOFTT.value(), 20);
    assert_eq!(BMSEvent::BOF21.value(), 21);
    assert_eq!(BMSEvent::LetsBMSEdit3.value(), 103);
}

#[test]
fn event_jump_urls_list_page_when_no_ids() {
    let urls = jump_to_work_info(BMSEvent::BOF21, &[]);
    assert_eq!(urls, vec![BMSEvent::BOF21.list_url().to_string()]);
}

#[test]
fn event_jump_urls_one_page_per_work() {
    let urls = jump_to_work_info(BMSEvent::BOFTT, &[3, 7]);
    assert_eq!(
        urls,
        vec![BMSEvent::BOFTT.work_info_url(3), BMSEvent::BOFTT.work_info_url(7)]
    );
}

#[test]
fn event_check_num_folder_names() {
    assert_eq!(check_num_folder(3), vec!["1", "2", "3"]);
    assert!(check_num_folder(0).is_empty());
    assert!(check_num_folder(-4).is_empty());
}

#[test]
fn event_create_num_folders_all_missing() {
    let names = create_num_folders(&[], 5);
    assert_eq!(names, vec!["1", "2", "3", "4", "5"]);
}

#[test]
fn event_create_num_folders_skips_conflicts() {
    let existing = vec!["1. Title".to_string(), "2".to_string(), "3 x".to_string(), "40".to_string()];
    let names = create_num_folders(&existing, 5);
    assert_eq!(names, vec!["4", "5"]);
}

#[test]
fn event_id_conflicts_forms() {
    assert!(id_conflicts("7", "7"));
    assert!(id_conflicts("7. Song", "7"));
    assert!(id_conflicts("7 Song", "7"));
    assert!(!id_conflicts("70", "7"));
    assert!(!id_conflicts("Song 7", "7"));
}

#[test]
fn event_work_table_row_values() {
    assert_eq!(work_table_row("1. Song"), Some(0));
    assert_eq!(work_table_row("12"), Some(11));
    assert_eq!(work_table_row("0. Zero"), None);
    assert_eq!(work_table_row("abc"), None);
    assert_eq!(work_table_row(". x"), None);
    assert_eq!(work_table_row("99999999999. big"), None);
}
