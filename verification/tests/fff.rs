use helix_term::fff::cache::{FffWorkspaceCache, WORKSPACE_CACHE_CAPACITY};
use helix_term::fff::hash::{
    hash_to_hex, hex_to_hash, legacy_project_key, legacy_query_key, query_history_id,
    query_match_id, stable_hash_parts, stable_path_hash, HashError,
};
use helix_term::fff::search::{
    found_files, grep_matches, index_is_usable, is_blank, list_files, poll_initial_results,
    relative_path, responsive_search_threads_for, IndexedFile, IndexedLine, ScanPoll,
};
use helix_term::fff::store::{
    entry_counts, frecency_entry, frecency_record, frecency_record_with, history_row, import_marker,
    legacy_frecency_entries, legacy_history_rows, load_all, query_history_kind, query_match_row,
    should_import, LegacyHistoryEntry, QueryHistoryKind, StoreError,
};
use helix_term::fff::{
    file_explorer_picker_config, same_file_index_config, scan_options, FileExplorerConfig,
    FilePickerConfig,
};

fn picker() -> FilePickerConfig {
    FilePickerConfig {
        hidden: true,
        follow_symlinks: true,
        deduplicate_links: true,
        parents: true,
        ignore: true,
        git_ignore: true,
        git_global: true,
        git_exclude: true,
        max_depth: None,
        hide_preview: false,
    }
}

fn explorer() -> FileExplorerConfig {
    FileExplorerConfig {
        hidden: false,
        follow_symlinks: false,
        parents: false,
        ignore: false,
        git_ignore: false,
        git_global: false,
        git_exclude: false,
    }
}

#[test]
fn responsive_search_threads_reserve_capacity_without_disabling_parallelism() {
    assert_eq!(responsive_search_threads_for(1), 1);
    assert_eq!(responsive_search_threads_for(2), 1);
    assert_eq!(responsive_search_threads_for(4), 3);
    assert_eq!(responsive_search_threads_for(8), 6);
    assert_eq!(responsive_search_threads_for(16), 12);
}

#[test]
fn stable_path_hash_is_deterministic() {
    let path = "workspace/src";
    assert_eq!(stable_path_hash(path), stable_path_hash(path));
    assert_ne!(stable_path_hash(path), stable_path_hash("workspace"));
}

#[test]
fn scan_options_preserve_picker_config() {
    let config = FilePickerConfig { ignore: false, git_ignore: false, max_depth: Some(2), ..picker() };
    let scan = scan_options(&config, "/home/me/.config/helix/ignore", ".helix/ignore");

    assert!(!scan.ignore);
    assert!(!scan.git_ignore);
    assert_eq!(scan.max_depth, Some(2));
    assert_eq!(scan.custom_ignore_files.len(), 2);
}

#[test]
fn explorer_picker_config_preserves_explorer_scan_semantics() {
    let config = FileExplorerConfig {
        hidden: false,
        follow_symlinks: false,
        parents: true,
        ignore: false,
        git_ignore: false,
        git_global: false,
        git_exclude: false,
    };
    let picker_config = file_explorer_picker_config(&config);
    let scan = scan_options(&picker_config, "ignore", ".helix/ignore");

    assert_eq!(scan.hidden, config.hidden);
    assert_eq!(scan.follow_links, config.follow_symlinks);
    assert_eq!(scan.parents, config.parents);
    assert_eq!(scan.ignore, config.ignore);
    assert_eq!(scan.git_ignore, config.git_ignore);
    assert_eq!(scan.git_global, config.git_global);
    assert_eq!(scan.git_exclude, config.git_exclude);
    assert_eq!(scan.max_depth, None);
}

/// The components of a path.
fn root(text: &str) -> Vec<String> {
    std::path::Path::new(text)
        .components()
        .map(|part| part.as_os_str().to_str().unwrap().to_string())
        .collect()
}

#[test]
fn workspace_cache_keeps_picker_and_explorer_indexes_separate_and_reusable() {
    let picker_config = picker();
    let explorer_config = file_explorer_picker_config(&explorer());
    assert!(!same_file_index_config(&picker_config, &explorer_config));

    let mut cache = FffWorkspaceCache::new();
    let (picker_slot, picker_cached) = cache.slot_for(&root("workspace"), &picker_config, 1, &vec![]);
    let (explorer_slot, explorer_cached) =
        cache.slot_for(&root("workspace"), &explorer_config, 2, &vec![]);
    let (picker_again, picker_again_cached) =
        cache.slot_for(&root("workspace"), &picker_config, 3, &vec![]);

    assert!(!picker_cached);
    assert!(!explorer_cached);
    assert!(picker_again_cached);
    assert_eq!(picker_slot, picker_again);
    assert_ne!(picker_slot, explorer_slot);
    assert_eq!(cache.slots.len(), 2);
}

#[test]
fn workspace_cache_bounds_live_indexes_and_evicts_least_recently_used() {
    let config = picker();
    let mut cache = FffWorkspaceCache::new();
    cache.slot_for(&root("workspace-0"), &config, 0, &vec![]);

    for index in 1..=WORKSPACE_CACHE_CAPACITY {
        cache.slot_for(&root(&format!("workspace-{}", index)), &config, index as u64, &vec![]);
    }

    assert_eq!(cache.slots.len(), WORKSPACE_CACHE_CAPACITY);
    assert!(cache.slots.iter().all(|slot| slot.root != root("workspace-0")));
}

#[test]
fn workspace_cache_keeps_what_is_in_use() {
    let config = picker();
    let mut cache = FffWorkspaceCache::new();
    let in_use: Vec<u64> = vec![0];
    for index in 0..=WORKSPACE_CACHE_CAPACITY {
        cache.slot_for(&root(&format!("workspace-{}", index)), &config, index as u64, &in_use);
    }
    assert_eq!(cache.slots.len(), WORKSPACE_CACHE_CAPACITY);
    assert!(cache.slots.iter().any(|slot| slot.root == root("workspace-0")));
    assert_eq!(cache.ready(&root("workspace-0"), &config), None);
    cache.slots.iter_mut().for_each(|slot| slot.workspace = Some(9));
    assert_eq!(cache.ready(&root("workspace-0"), &config), Some(9));
}

#[test]
fn hashes_of_parts_follow_the_published_constants() {
    // Every part is ended by one more byte.
    let mut expected: u64 = 0xcbf29ce484222325;
    for byte in [b'a', b'b', 0xff, b'c', 0xff] {
        expected ^= byte as u64;
        expected = expected.wrapping_mul(0x00000100000001b3);
    }
    assert_eq!(stable_hash_parts(&vec!["ab", "c"]), expected);
    assert_ne!(stable_hash_parts(&vec!["a", "bc"]), expected);
    assert_eq!(query_match_id("w", "q").len(), query_match_id("w", "other").len());
    assert_ne!(query_match_id("w", "q"), query_match_id("w", "r"));
    assert_ne!(query_history_id("w", "file", "q", 1), query_history_id("w", "file", "q", 2));
}

#[test]
fn legacy_keys_are_hashes_of_their_texts() {
    let key = legacy_project_key("");
    assert_eq!(
        hash_to_hex(&key),
        "af1349b9f5f9a1a6a0404dea36dcc9499bcb25c9adc112b7cc9a93cae41f3262"
    );
    assert_eq!(key, *blake3::hash(b"").as_bytes());
    let mut both = blake3::Hasher::new();
    both.update(b"project");
    both.update(b"::");
    both.update(b"query");
    assert_eq!(legacy_query_key("project", "query"), *both.finalize().as_bytes());
}

#[test]
fn written_hashes_are_read_back() {
    let hash: [u8; 32] = *blake3::hash(b"some file").as_bytes();
    assert_eq!(hex_to_hash(&hash_to_hex(&hash)), Ok(hash));
    assert_eq!(hex_to_hash("abc"), Err(HashError::InvalidLength(3)));
    let mut written = hash_to_hex(&hash);
    written.replace_range(4..6, "zz");
    assert!(matches!(hex_to_hash(&written), Err(HashError::InvalidByte(_))));
}

#[test]
fn frecency_entries_are_read_back() {
    let hash: [u8; 32] = *blake3::hash(b"some file").as_bytes();
    let entry = frecency_entry("w", &hash, &vec![3, 5, 8]).unwrap();
    assert_eq!(entry.timestamps_json, "[3,5,8]");
    assert_eq!(entry.first_accessed_at, 3);
    assert_eq!(entry.last_accessed_at, 8);
    assert_eq!(entry.access_count, 3);
    let record = frecency_record(&entry).unwrap();
    assert_eq!(record.path_hash, hash);
    assert_eq!(record.accesses, vec![3, 5, 8]);

    let mut broken = frecency_entry("w", &hash, &vec![]).unwrap();
    assert_eq!(broken.timestamps_json, "[]");
    broken.timestamps_json = "nonsense".to_string();
    assert!(matches!(frecency_record(&broken), Err(StoreError::Timestamps)));
    broken.path_hash = "00".to_string();
    assert!(matches!(
        frecency_record(&broken),
        Err(StoreError::Hash(HashError::InvalidLength(2)))
    ));
    assert!(matches!(
        frecency_record_with(&hash_to_hex(&hash), None),
        Err(StoreError::Timestamps)
    ));
}

#[test]
fn the_first_unreadable_entry_is_told() {
    let hash: [u8; 32] = *blake3::hash(b"some file").as_bytes();
    let entries = || {
        vec![
            frecency_entry("w", &hash, &vec![3, 5]).unwrap(),
            frecency_entry("w", &hash, &vec![7]).unwrap(),
        ]
    };
    let records = load_all(&entries()).unwrap();
    assert_eq!(records.len(), 2);
    assert_eq!(records[0].accesses, vec![3, 5]);
    assert_eq!(records[1].accesses, vec![7]);
    let mut broken = entries();
    broken[1].timestamps_json = "[7".to_string();
    assert!(matches!(load_all(&broken), Err(StoreError::Timestamps)));
    broken[0].path_hash = "0".to_string();
    assert!(matches!(
        load_all(&broken),
        Err(StoreError::Hash(HashError::InvalidLength(1)))
    ));
}

#[test]
fn queries_are_counted_by_kind() {
    assert_eq!(query_history_kind(QueryHistoryKind::File), "file");
    assert_eq!(query_history_kind(QueryHistoryKind::Grep), "grep");
    let rows = vec![
        query_match_row("w", "q", "{}", 1),
        history_row("w", "file", "q", 2),
        history_row("w", "grep", "q", 3),
        history_row("w", "grep", "r", 4),
    ];
    assert_eq!(rows[0].id, query_match_id("w", "q"));
    assert_eq!(rows[1].id, query_history_id("w", "file", "q", 2));
    let counts = entry_counts(&rows);
    assert_eq!(counts.query_file_entries, 1);
    assert_eq!(counts.query_history_entries, 1);
    assert_eq!(counts.grep_query_history_entries, 2);
}

#[test]
fn legacy_caches_are_imported_once() {
    assert!(should_import(true, false, false));
    assert!(should_import(false, true, false));
    assert!(!should_import(false, false, false));
    assert!(!should_import(true, true, true));
    assert!(!import_marker().is_empty());
    let hash: Vec<u8> = blake3::hash(b"some file").as_bytes().to_vec();
    let entries =
        legacy_frecency_entries(&vec![(hash, vec![4, 9]), (vec![1, 2], vec![7])], "w").unwrap();
    assert_eq!(entries.len(), 1);
    assert_eq!(entries[0].timestamps_json, "[4,9]");
    let history = vec![LegacyHistoryEntry {
        query: "q".to_string(),
        timestamp: 6,
        opened: Some(("a.rs".to_string(), 7)),
    }];
    let rows = legacy_history_rows("w", QueryHistoryKind::File, &history);
    assert_eq!(rows.len(), 2);
    assert_eq!(rows[0].opened_path, "fff:history:file");
    assert_eq!((rows[1].opened_path.as_str(), rows[1].ts), ("a.rs", 7));
    let searches = legacy_history_rows("w", QueryHistoryKind::Grep, &history);
    assert_eq!(searches.len(), 1);
    assert_eq!(searches[0].opened_path, "fff:history:grep");
    assert!(rows.iter().all(|row| row.workspace == "w" && row.query == "q"));
}

fn indexed(path: &str, deleted: bool) -> IndexedFile {
    IndexedFile { path: path.to_string(), deleted }
}

#[test]
fn empty_searches_list_the_files_of_the_index() {
    assert!(is_blank(" \t"));
    assert!(!is_blank(" a"));
    let files = vec![indexed("a", false), indexed("b", true), indexed("c", false)];
    let paths = |found: Vec<helix_term::fff::search::FileMatch>| {
        found.into_iter().map(|m| m.path).collect::<Vec<_>>()
    };
    assert_eq!(paths(list_files(&files, "", None)), vec!["a", "c"]);
    assert_eq!(paths(list_files(&files, "", Some(2))), vec!["a"]);
    let many: Vec<IndexedFile> = (0..1200).map(|i| indexed(&format!("f{}", i), false)).collect();
    assert_eq!(list_files(&many, "", None).len(), 1000);
}

fn path(text: &str) -> Vec<String> {
    text.split('/').map(|part| part.to_string()).collect()
}

#[test]
fn found_lines_are_counted_from_zero() {
    assert_eq!(relative_path(&path("w/x"), &path("w/x/src/a.rs")), Some("src/a.rs".to_string()));
    assert_eq!(relative_path(&path("w/x"), &path("w/y/a.rs")), None);
    let lines = vec![
        IndexedLine { path: "a".to_string(), line_number: 1 },
        IndexedLine { path: "b".to_string(), line_number: 0 },
    ];
    let found = grep_matches(&lines, None).unwrap();
    assert_eq!((found[0].path.as_str(), found[0].line_num), ("a", 0));
    assert_eq!((found[1].path.as_str(), found[1].line_num), ("b", 0));
    assert_eq!(
        grep_matches(&lines, Some("unclosed group".to_string())).unwrap_err(),
        "failed to compile regex: unclosed group"
    );
}

#[test]
fn first_results_are_waited_for() {
    assert!(matches!(poll_initial_results(0, true, false), ScanPoll::Ready));
    assert!(matches!(poll_initial_results(0, false, false), ScanPoll::Wait));
    assert!(matches!(poll_initial_results(5000, false, false), ScanPoll::GiveUp));
}

#[test]
fn found_files_keep_their_order() {
    let found = found_files(&vec!["b".to_string(), "a".to_string()], "q");
    assert_eq!(found.len(), 2);
    assert_eq!(found[0].path, "b");
    assert_eq!(found[1].path, "a");
    assert_eq!(found[1].query, "q");
}

#[test]
fn searches_need_an_index() {
    assert_eq!(index_is_usable(false, false, true), Ok(()));
    assert_eq!(index_is_usable(true, true, true), Ok(()));
    assert_eq!(
        index_is_usable(true, false, false),
        Err("FFF scan is not ready".to_string())
    );
    assert_eq!(
        index_is_usable(false, true, false),
        Err("FFF picker is not initialized".to_string())
    );
}

#[test]
fn white_space_is_blank() {
    let white = [
        '\u{9}', '\u{a}', '\u{b}', '\u{c}', '\u{d}', ' ', '\u{85}', '\u{a0}', '\u{1680}', '\u{2000}',
        '\u{2001}', '\u{2002}', '\u{2003}', '\u{2004}', '\u{2005}', '\u{2006}', '\u{2007}', '\u{2008}',
        '\u{2009}', '\u{200a}', '\u{2028}', '\u{2029}', '\u{202f}', '\u{205f}', '\u{3000}',
    ];
    for c in '\u{0}'..=char::MAX {
        assert_eq!(is_blank(&c.to_string()), white.contains(&c), "{:?}", c);
    }
    assert!(is_blank(""));
    assert!(is_blank("\t \n"));
    assert!(!is_blank("\t a"));
}

#[test]
fn indexes_are_ready_once_they_are_made() {
    let mut cache = FffWorkspaceCache::new();
    let (slot, known) = cache.slot_for(&root("/w"), &picker(), 1, &Vec::new());
    assert_eq!((slot, known), (1, false));
    assert_eq!(cache.ready(&root("/w"), &picker()), None);
    cache.made(slot, 9);
    assert_eq!(cache.ready(&root("/w"), &picker()), Some(9));
    cache.made(slot, 10);
    assert_eq!(cache.ready(&root("/w"), &picker()), Some(9));
    assert_eq!(cache.ready(&root("/v"), &picker()), None);
}

#[test]
fn workspaces_share_a_slot_however_their_paths_are_written() {
    let mut cache = FffWorkspaceCache::new();
    let (slot, _) = cache.slot_for(&root("/home//w"), &picker(), 1, &Vec::new());
    assert_eq!(cache.slot_for(&root("/home/w"), &picker(), 2, &Vec::new()), (slot, true));
    assert_eq!(cache.slot_for(&root("/home/./w/"), &picker(), 3, &Vec::new()), (slot, true));
    assert_eq!(cache.slot_for(&root("home/w"), &picker(), 4, &Vec::new()), (4, false));
}
