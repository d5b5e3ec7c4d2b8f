use config_backup::archive::{build_archive, ArchiveItem, BackupError};
use config_backup::filter::{is_excluded_dir_name, is_excluded_file_name, should_descend};
use config_backup::namer::{
    archive_file_name, archive_name, current_timestamp, timestamp_from_parts, Timestamp,
};
use config_backup::retention::{select_deletions, sort_names_desc};
use config_backup::settings::default_target_folder;
use config_backup::snapshot::{count_unreadable_items, plan_entries, FsEntry};
use config_backup::text::{contains_sub, str_lt};
use config_backup::{unload, ConfigBackup, Settings};

fn ts(year: u16, month: u8, day: u8, hour: u8, minute: u8) -> Timestamp {
    Timestamp { year, month, day, hour, minute }
}

#[test]
fn contains_sub_finds_needles() {
    assert!(contains_sub("common", "common"));
    assert!(contains_sub("xcommonz", "common"));
    assert!(contains_sub("a.dll", ".dll"));
    assert!(contains_sub("a.dll.bak", ".dll"));
    assert!(contains_sub("anything", ""));
    assert!(!contains_sub("", "common"));
    assert!(!contains_sub("commn", "common"));
    assert!(!contains_sub("dll.", ".dll"));
}

#[test]
fn descent_filter_prunes_common_dirs_only() {
    assert!(!should_descend(true, "common"));
    assert!(!should_descend(true, "my-common-stuff"));
    assert!(should_descend(true, "Common"));
    assert!(should_descend(true, "addons"));
    assert!(should_descend(false, "common"));
    assert!(is_excluded_dir_name("commons"));
    assert!(!is_excluded_dir_name("comm"));
}

#[test]
fn file_filter_excludes_dll_names() {
    assert!(is_excluded_file_name("arcdps.dll"));
    assert!(is_excluded_file_name("x.dll.old"));
    assert!(!is_excluded_file_name("settings.toml"));
    assert!(!is_excluded_file_name("dll"));
}

#[test]
fn archive_names_are_zero_padded() {
    let name = archive_name(&ts(2024, 1, 9, 0, 5));
    assert_eq!(name.as_str(), "backup-2024-01-09-00-05");
    let file = archive_file_name(&ts(2024, 12, 31, 23, 59));
    assert_eq!(file.as_str(), "backup-2024-12-31-23-59.zip");
    let early = archive_file_name(&ts(7, 1, 1, 0, 0));
    assert_eq!(early.as_str(), "backup-0007-01-01-00-00.zip");
}

#[test]
fn same_minute_means_same_name() {
    // Two runs within one clock minute derive the same file name, so the
    // second archive overwrites the first instead of accumulating.
    let a = archive_file_name(&ts(2024, 6, 5, 12, 30));
    let b = archive_file_name(&ts(2024, 6, 5, 12, 30));
    assert_eq!(a.as_str(), b.as_str());
    let next_minute = archive_file_name(&ts(2024, 6, 5, 12, 31));
    assert_ne!(a.as_str(), next_minute.as_str());
}

#[test]
fn names_order_as_timestamps() {
    let older = archive_file_name(&ts(2024, 1, 9, 23, 59));
    let newer = archive_file_name(&ts(2024, 1, 10, 0, 0));
    assert!(str_lt(older.as_str(), newer.as_str()));
    assert!(!str_lt(newer.as_str(), older.as_str()));
    // a proper prefix sorts first, nothing sorts before itself
    assert!(str_lt("abc", "abcd"));
    assert!(!str_lt("abcd", "abc"));
    assert!(!str_lt("abc", "abc"));
}

#[test]
fn timestamps_come_only_from_calendar_fields() {
    let t = timestamp_from_parts(2024, 6, 5, 12, 30).expect("fields in range");
    assert_eq!(t, ts(2024, 6, 5, 12, 30));
    assert!(timestamp_from_parts(0, 1, 1, 0, 0).is_some());
    assert!(timestamp_from_parts(9999, 12, 31, 23, 59).is_some());
    assert!(timestamp_from_parts(-1, 6, 5, 12, 30).is_none());
    assert!(timestamp_from_parts(10000, 6, 5, 12, 30).is_none());
    assert!(timestamp_from_parts(2024, 0, 5, 12, 30).is_none());
    assert!(timestamp_from_parts(2024, 13, 5, 12, 30).is_none());
    assert!(timestamp_from_parts(2024, 6, 0, 12, 30).is_none());
    assert!(timestamp_from_parts(2024, 6, 32, 12, 30).is_none());
    assert!(timestamp_from_parts(2024, 6, 5, 24, 30).is_none());
    assert!(timestamp_from_parts(2024, 6, 5, 12, 60).is_none());
}

#[test]
fn unreadable_walk_items_are_counted() {
    let items = vec![
        entry("a", "a", true),
        None,
        entry("a/b.txt", "b.txt", false),
        None,
        None,
    ];
    assert_eq!(count_unreadable_items(&items), 3);
    assert_eq!(count_unreadable_items(&vec![]), 0);
}

#[test]
fn current_timestamp_is_well_formed() {
    let t = current_timestamp().expect("the clock's year fits four digits");
    assert!(t.year <= 9999);
    assert!((1..=12).contains(&t.month));
    assert!((1..=31).contains(&t.day));
    assert!(t.hour <= 23);
    assert!(t.minute <= 59);
}

fn entry(rel_path: &str, name: &str, is_dir: bool) -> Option<FsEntry> {
    Some(FsEntry { rel_path: rel_path.to_string(), name: name.to_string(), is_dir })
}

#[test]
fn plan_keeps_exactly_the_included_entries() {
    let items = vec![
        entry("", "root", true),
        entry("addons", "addons", true),
        entry("addons/arcdps.dll", "arcdps.dll", false),
        entry("addons/settings.toml", "settings.toml", false),
        entry("addons/common", "common", true),
        entry("notes.txt", "notes.txt", false),
        None,
    ];
    let plan = plan_entries(&items);
    let got: Vec<(String, bool)> =
        plan.iter().map(|e| (e.rel_path.clone(), e.is_dir)).collect();
    assert_eq!(
        got,
        vec![
            ("addons".to_string(), true),
            ("addons/settings.toml".to_string(), false),
            ("notes.txt".to_string(), false),
        ]
    );
}

#[test]
fn plan_skips_root_unreadable_and_dll() {
    let items = vec![
        entry("", "source", true),
        None,
        entry("a.dll", "a.dll", false),
    ];
    let plan = plan_entries(&items);
    assert!(plan.is_empty());
}

#[test]
fn plan_excludes_common_dir_but_not_common_file() {
    let items = vec![
        entry("common", "common", true),
        entry("common.txt", "common.txt", false),
    ];
    let plan = plan_entries(&items);
    assert_eq!(plan.len(), 1);
    assert_eq!(plan[0].rel_path.as_str(), "common.txt");
    assert!(!plan[0].is_dir);
}

#[test]
fn sort_names_desc_is_newest_first() {
    let names: Vec<String> = vec![
        "backup-2024-01-02-00-00.zip".to_string(),
        "backup-2023-12-31-23-59.zip".to_string(),
        "backup-2024-01-10-00-00.zip".to_string(),
        "backup-2024-01-02-00-00.zip".to_string(),
    ];
    let sorted = sort_names_desc(&names);
    let got: Vec<&str> = sorted.iter().map(|s| s.as_str()).collect();
    assert_eq!(
        got,
        vec![
            "backup-2024-01-10-00-00.zip",
            "backup-2024-01-02-00-00.zip",
            "backup-2024-01-02-00-00.zip",
            "backup-2023-12-31-23-59.zip",
        ]
    );
}

fn ten_archives() -> Vec<String> {
    (1..=10).map(|d| format!("backup-2024-01-{d:02}-00-00")).collect()
}

#[test]
fn retention_keeps_the_three_newest() {
    let mut names = ten_archives();
    // listing order must not matter
    names.reverse();
    names.swap(0, 4);
    let deleted = select_deletions(&names, 3);
    let mut got: Vec<&str> = deleted.iter().map(|s| s.as_str()).collect();
    got.sort();
    let expected: Vec<String> =
        (1..=7).map(|d| format!("backup-2024-01-{d:02}-00-00")).collect();
    assert_eq!(got, expected.iter().map(|s| s.as_str()).collect::<Vec<_>>());
    for kept in ["backup-2024-01-08-00-00", "backup-2024-01-09-00-00", "backup-2024-01-10-00-00"] {
        assert!(!deleted.iter().any(|s| s.as_str() == kept));
    }
}

#[test]
fn retention_keep_zero_deletes_everything() {
    let names = ten_archives();
    let mut deleted: Vec<String> = select_deletions(&names, 0);
    deleted.sort();
    assert_eq!(deleted, ten_archives());
}

#[test]
fn retention_keeping_enough_deletes_nothing() {
    let names = ten_archives();
    assert!(select_deletions(&names, 10).is_empty());
    assert!(select_deletions(&names, 11).is_empty());
}

#[test]
fn archive_round_trips_contents_and_empty_dirs() {
    let items = vec![
        ArchiveItem { path: "addons".to_string(), content: None },
        ArchiveItem {
            path: "addons/settings.toml".to_string(),
            content: Some(b"keep = 5\n".to_vec()),
        },
        ArchiveItem { path: "addons/empty".to_string(), content: None },
        ArchiveItem {
            path: "blob.bin".to_string(),
            content: Some(vec![0u8, 155, 255, 7, 0, 42]),
        },
    ];
    let bytes = build_archive(&items).expect("in-memory build succeeds");
    let mut zip = zip::ZipArchive::new(std::io::Cursor::new(bytes)).expect("a valid container");
    let mut names: Vec<String> = (0..zip.len())
        .map(|i| zip.by_index(i).unwrap().name().to_string())
        .collect();
    names.sort();
    assert_eq!(names, vec!["addons/", "addons/empty/", "addons/settings.toml", "blob.bin"]);
    {
        let mut f = zip.by_name("addons/settings.toml").unwrap();
        let mut content = Vec::new();
        std::io::Read::read_to_end(&mut f, &mut content).unwrap();
        assert_eq!(content, b"keep = 5\n".to_vec());
    }
    {
        let mut f = zip.by_name("blob.bin").unwrap();
        let mut content = Vec::new();
        std::io::Read::read_to_end(&mut f, &mut content).unwrap();
        assert_eq!(content, vec![0u8, 155, 255, 7, 0, 42]);
    }
    let dir = zip.by_name("addons/empty/").unwrap();
    assert!(dir.is_dir());
}

#[test]
fn archive_bytes_depend_on_entries_alone() {
    let items = vec![ArchiveItem {
        path: "a.txt".to_string(),
        content: Some(b"same".to_vec()),
    }];
    let first = build_archive(&items).unwrap();
    let second = build_archive(&items).unwrap();
    assert_eq!(first, second);
    let other = build_archive(&vec![ArchiveItem {
        path: "a.txt".to_string(),
        content: Some(b"diff".to_vec()),
    }])
    .unwrap();
    assert_ne!(first, other);
}

#[test]
fn duplicate_paths_abort_the_build() {
    let items = vec![
        ArchiveItem { path: "twice.txt".to_string(), content: Some(b"a".to_vec()) },
        ArchiveItem { path: "twice.txt".to_string(), content: Some(b"b".to_vec()) },
    ];
    assert_eq!(build_archive(&items), Err(BackupError::ArchiveWriteFailure));
}

#[test]
fn settings_defaults_match_the_documented_values() {
    let s = Settings::default();
    assert!(!s.backup_on_launch);
    assert!(!s.delete_old_on_launch);
    assert_eq!(s.backups_to_keep, 5);
    assert!(s.target_folder.ends_with("nexus-configs"));
}

#[test]
fn default_target_folder_joins_documents() {
    assert_eq!(
        default_target_folder(Some("/home/user/Documents".to_string())).as_str(),
        "/home/user/Documents/nexus-configs"
    );
    assert_eq!(default_target_folder(None).as_str(), "nexus-configs");
}

#[test]
fn engine_starts_empty_and_unload_returns_settings() {
    let c = ConfigBackup::new();
    assert!(c.backup_folder.is_none());
    assert!(c.settings.is_none());
    let s = Settings {
        target_folder: "/tmp/backups".to_string(),
        backup_on_launch: true,
        delete_old_on_launch: false,
        backups_to_keep: 2,
    };
    let c = ConfigBackup { backup_folder: Some("/tmp/backups".to_string()), settings: Some(s) };
    let persisted = unload(c).expect("settings handed back");
    assert_eq!(persisted.target_folder.as_str(), "/tmp/backups");
    assert!(persisted.backup_on_launch);
    assert_eq!(persisted.backups_to_keep, 2);
}
