use bms_resource_toolbox::fs_name::get_valid_fs_name;

#[test]
fn test_get_valid_fs_name() {
    assert_eq!(get_valid_fs_name("Artist - Title"), "Artist - Title");
    assert_eq!(get_valid_fs_name("Artist: Title"), "Artist： Title");
    assert_eq!(get_valid_fs_name("Test/File"), "Test／File");
    assert_eq!(get_valid_fs_name("Test\\File"), "Test＼File");
    assert_eq!(get_valid_fs_name("Test*File"), "Test＊File");
    assert_eq!(get_valid_fs_name("Test?File"), "Test？File");
    assert_eq!(get_valid_fs_name("Test!File"), "Test！File");
    assert_eq!(get_valid_fs_name("Test\"File"), "Test＂File");
    assert_eq!(get_valid_fs_name("Test<File"), "Test＜File");
    assert_eq!(get_valid_fs_name("Test>File"), "Test＞File");
    assert_eq!(get_valid_fs_name("Test|File"), "Test｜File");
}

#[test]
fn test_get_valid_fs_name_all_replacements() {
    assert_eq!(get_valid_fs_name("A:B"), "A：B");
    assert_eq!(get_valid_fs_name("A\\B"), "A＼B");
    assert_eq!(get_valid_fs_name("A/B"), "A／B");
    assert_eq!(get_valid_fs_name("A*B"), "A＊B");
    assert_eq!(get_valid_fs_name("A?B"), "A？B");
    assert_eq!(get_valid_fs_name("A!B"), "A！B");
    assert_eq!(get_valid_fs_name("A\"B"), "A＂B");
    assert_eq!(get_valid_fs_name("A<B"), "A＜B");
    assert_eq!(get_valid_fs_name("A>B"), "A＞B");
    assert_eq!(get_valid_fs_name("A|B"), "A｜B");
}

#[test]
fn test_get_valid_fs_name_empty() {
    assert_eq!(get_valid_fs_name(""), "");
}

#[test]
fn test_get_valid_fs_name_cjk_unchanged() {
    assert_eq!(get_valid_fs_name("日本語"), "日本語");
    assert_eq!(get_valid_fs_name("中文測試"), "中文測試");
}

#[test]
fn fs_name_sanitising_is_idempotent() {
    let once = get_valid_fs_name("a:b/c?d|e");
    assert_eq!(get_valid_fs_name(&once), once);
    assert_eq!(once.chars().count(), "a:b/c?d|e".chars().count());
}
