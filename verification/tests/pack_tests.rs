use bms_resource_toolbox::error::DomainError;
use bms_resource_toolbox::pack::{
    _check_range, find_first_char_rule, first_char_group, group_dir_name, PackMergeService,
    PackMoveService, PackSplitService, WorkMovePlan,
};

#[test]
fn test_find_first_char_rule_digit() {
    assert_eq!(find_first_char_rule("1stSong"), "0-9");
}

#[test]
fn test_find_first_char_rule_abcd() {
    assert_eq!(find_first_char_rule("AlphaSong"), "ABCD");
    assert_eq!(find_first_char_rule("beta"), "ABCD");
}

#[test]
fn test_find_first_char_rule_efghijk() {
    assert_eq!(find_first_char_rule("Eagle"), "EFGHIJK");
    assert_eq!(find_first_char_rule("kite"), "EFGHIJK");
}

#[test]
fn test_find_first_char_rule_lmnopq() {
    assert_eq!(find_first_char_rule("Lion"), "LMNOPQ");
}

#[test]
fn test_find_first_char_rule_rst() {
    assert_eq!(find_first_char_rule("Rock"), "RST");
}

#[test]
fn test_find_first_char_rule_uvwxyz() {
    assert_eq!(find_first_char_rule("Zoo"), "UVWXYZ");
}

#[test]
fn test_find_first_char_rule_empty() {
    assert_eq!(find_first_char_rule(""), "未分类");
}

#[test]
fn test_find_first_char_rule_other() {
    assert_eq!(find_first_char_rule("+test"), "+");
}

#[test]
fn pack_first_char_rule_scripts() {
    assert_eq!(find_first_char_rule("あいうえお"), "平假名");
    assert_eq!(find_first_char_rule("カタカナ"), "片假名");
    assert_eq!(find_first_char_rule("漢字"), "汉字");
    assert_eq!(find_first_char_rule("한국"), "+");
}

#[test]
fn pack_first_char_group_flags() {
    assert_eq!(first_char_group('z', false, false, false), "UVWXYZ");
    assert_eq!(first_char_group('5', true, true, true), "0-9");
    assert_eq!(first_char_group('x', true, false, false), "UVWXYZ");
    assert_eq!(first_char_group('ぁ', true, false, false), "平假名");
    assert_eq!(first_char_group('ァ', false, true, false), "片假名");
    assert_eq!(first_char_group('中', false, false, true), "汉字");
    assert_eq!(first_char_group('#', false, false, false), "+");
}

#[test]
fn pack_check_range_upper_cases() {
    assert!(_check_range("beta", 'A', 'D'));
    assert!(!_check_range("eagle", 'A', 'D'));
    assert!(!_check_range("", 'A', 'Z'));
}

#[test]
fn pack_split_plan_groups() {
    let service = PackSplitService::new();
    let names = vec!["AlphaSong".to_string(), "BetaSong".to_string(), "9th".to_string()];
    let groups = service.split_folders_with_first_char("split_char", &names).unwrap();
    assert_eq!(
        groups,
        vec!["split_char [ABCD]", "split_char [ABCD]", "split_char [0-9]"]
    );
}

#[test]
fn pack_split_skips_split_pack() {
    let service = PackSplitService::new();
    let names = vec!["AlphaSong".to_string()];
    assert!(service.split_folders_with_first_char("pack [ABCD]", &names).is_none());
}

#[test]
fn pack_undo_split_finds_groups() {
    let service = PackSplitService::new();
    let parent = vec![
        "undo_split".to_string(),
        "undo_split [ABCD]".to_string(),
        "other [ABCD]".to_string(),
        "undo_split [0-9".to_string(),
        "undo_split [汉字]".to_string(),
    ];
    assert_eq!(
        service.undo_split_pack("undo_split", &parent),
        vec!["undo_split [ABCD]", "undo_split [汉字]"]
    );
}

#[test]
fn pack_split_then_undo_law() {
    let service = PackSplitService::new();
    let group = group_dir_name("pack", &find_first_char_rule("Eagle"));
    assert_eq!(group, "pack [EFGHIJK]");
    let found = service.undo_split_pack("pack", &[group.clone()]);
    assert_eq!(found, vec![group]);
}

#[test]
fn pack_merge_split_folders_pairs() {
    let service = PackMergeService::new();
    let names = vec!["Song [Artist]".to_string(), "Song".to_string()];
    let pairs = service.merge_split_folders(&names).unwrap();
    assert_eq!(pairs, vec![("Song".to_string(), "Song [Artist]".to_string())]);
}

#[test]
fn pack_merge_split_folders_needs_base() {
    let service = PackMergeService::new();
    let names = vec!["Song [Artist]".to_string(), "Other".to_string()];
    assert!(service.merge_split_folders(&names).unwrap().is_empty());
}

#[test]
fn pack_merge_split_folders_too_many_splits() {
    let service = PackMergeService::new();
    let names = vec![
        "Song".to_string(),
        "Song [A]".to_string(),
        "Song [B]".to_string(),
        "Song [C]".to_string(),
    ];
    assert!(service.merge_split_folders(&names).unwrap().is_empty());
}

#[test]
fn pack_merge_of_split_group_law() {
    let service = PackMergeService::new();
    let group = group_dir_name("pack", "ABCD");
    let names = vec!["pack".to_string(), group.clone()];
    let pairs = service.merge_split_folders(&names).unwrap();
    assert_eq!(pairs, vec![("pack".to_string(), group)]);
}

#[test]
fn pack_move_works_in_pack_plans() {
    let service = PackMoveService::new();
    match service.move_works_in_pack(vec!["Song1".to_string()]) {
        WorkMovePlan::Works(w) => assert_eq!(w, vec!["Song1"]),
        WorkMovePlan::WholeDir => panic!("expected works"),
    }
    assert!(matches!(service.move_works_in_pack(Vec::new()), WorkMovePlan::WholeDir));
}

#[test]
fn pack_move_works_with_same_name_pairs() {
    let service = PackMoveService::new();
    let from = vec!["Song1".to_string(), "Song2".to_string()];
    let to = vec!["Other".to_string(), "Song1 [Artist]".to_string()];
    assert_eq!(
        service
            .move_works_with_same_name(true, true, "/from", "/to", &from, &to)
            .unwrap(),
        vec![("Song1".to_string(), "Song1 [Artist]".to_string())]
    );
}

#[test]
fn pack_move_works_with_same_name_needs_dirs() {
    let service = PackMoveService::new();
    let from = vec!["Song1".to_string()];
    let to = vec!["Song1 [Artist]".to_string()];
    match service.move_works_with_same_name(false, true, "/from", "/to", &from, &to) {
        Err(DomainError::Archive(m)) => assert_eq!(m, "源路径不存在或不是目录: /from"),
        other => panic!("unexpected: {:?}", other),
    }
    match service.move_works_with_same_name(false, false, "/from", "/to", &from, &to) {
        Err(DomainError::Archive(m)) => assert_eq!(m, "源路径不存在或不是目录: /from"),
        other => panic!("unexpected: {:?}", other),
    }
    match service.move_works_with_same_name(true, false, "/from", "/to", &from, &to) {
        Err(DomainError::Archive(m)) => assert_eq!(m, "目标路径不存在或不是目录: /to"),
        other => panic!("unexpected: {:?}", other),
    }
}

#[test]
fn pack_move_works_to_siblings() {
    let service = PackMoveService::new();
    let from = vec!["Song1".to_string()];
    let siblings = vec![
        ("SourcePack".to_string(), vec!["Song1".to_string()]),
        ("SiblingPack".to_string(), vec!["Song1 [Artist]".to_string()]),
    ];
    assert_eq!(
        service.move_works_with_same_name_to_siblings("SourcePack", &from, &siblings),
        vec![(
            "SiblingPack".to_string(),
            "Song1".to_string(),
            "Song1 [Artist]".to_string()
        )]
    );
}

#[test]
fn pack_merge_split_folders_duplicate_source_errors() {
    let service = PackMergeService::new();
    let names = vec!["Song".to_string(), "Song [A]".to_string(), "Song [A]".to_string()];
    assert!(matches!(service.merge_split_folders(&names), Err(DomainError::Archive(_))));
}

#[test]
fn pack_move_out_works_plan() {
    let service = PackMoveService::new();
    let subdirs = vec![
        ("SubPack".to_string(), vec!["Work1".to_string(), "Work2".to_string()]),
        ("Empty".to_string(), Vec::new()),
        ("Other".to_string(), vec!["Work3".to_string()]),
    ];
    assert_eq!(
        service.move_out_works(&subdirs),
        vec![
            ("SubPack".to_string(), "Work1".to_string()),
            ("SubPack".to_string(), "Work2".to_string()),
            ("Other".to_string(), "Work3".to_string()),
        ]
    );
}

#[test]
fn pack_same_name_precheck_errors() {
    let service = PackMoveService::new();
    match service.same_name_precheck(false, true, "/a", "/b") {
        Err(DomainError::Archive(m)) => assert_eq!(m, "源路径不存在或不是目录: /a"),
        _ => panic!("expected the source error"),
    }
    match service.same_name_precheck(true, false, "/a", "/b") {
        Err(DomainError::Archive(m)) => assert_eq!(m, "目标路径不存在或不是目录: /b"),
        _ => panic!("expected the target error"),
    }
    assert!(service.same_name_precheck(true, true, "/a", "/b").is_ok());
}

#[test]
fn pack_split_then_undo_restores_entries() {
    let service = PackSplitService::new();
    let entries = vec![
        "Alpha".to_string(),
        "Beta".to_string(),
        "9th".to_string(),
        "Zulu".to_string(),
    ];
    let groups = service.split_folders_with_first_char("pack", &entries).unwrap();
    let mut beside = vec!["pack".to_string(), "other".to_string()];
    for g in &groups {
        if !beside.contains(g) {
            beside.push(g.clone());
        }
    }
    let visited = service.undo_split_pack("pack", &beside);
    let mut visited_sorted = visited.clone();
    visited_sorted.sort();
    let mut groups_sorted = groups.clone();
    groups_sorted.sort();
    groups_sorted.dedup();
    assert_eq!(visited_sorted, groups_sorted);
    let mut back: Vec<String> = Vec::new();
    for v in &visited {
        for (k, g) in groups.iter().enumerate() {
            if g == v {
                back.push(entries[k].clone());
            }
        }
    }
    back.sort();
    let mut expected = entries.clone();
    expected.sort();
    assert_eq!(back, expected);
}
