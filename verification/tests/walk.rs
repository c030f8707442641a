use findexec::entry::{DirItem, FileEntry, FileKind};
use findexec::owners::OwnerGroup;
use findexec::report::report;
use findexec::userdb::UserTable;
use findexec::walker::{decide, Verdict, WalkConfig, Walker};

const ELF: [u8; 4] = [0x7F, 0x45, 0x4C, 0x46];

fn base_name(path: &str) -> String {
    match path.rfind('/') {
        Some(at) => path[at + 1..].to_string(),
        None => path.to_string(),
    }
}

fn file(path: &str, uid: u32, size: u64, head: &[u8]) -> DirItem {
    DirItem {
        name: Some(base_name(path)),
        path: path.to_string(),
        kind: FileKind::Regular,
        uid,
        size,
        head: head.to_vec(),
    }
}

fn dir(path: &str, uid: u32) -> DirItem {
    DirItem {
        name: Some(base_name(path)),
        path: path.to_string(),
        kind: FileKind::Directory,
        uid,
        size: 4096,
        head: Vec::new(),
    }
}

fn link(path: &str, uid: u32, head: &[u8]) -> DirItem {
    DirItem {
        name: Some(base_name(path)),
        path: path.to_string(),
        kind: FileKind::Symlink,
        uid,
        size: 8,
        head: head.to_vec(),
    }
}

fn plain(recursive: bool) -> WalkConfig {
    WalkConfig::new(recursive, None, None)
}

/// Runs a walk over a tree given as a list of directories with their entries.
/// A directory that the list does not hold cannot be read.
fn walk(root: &str, config: WalkConfig, tree: &[(&str, Vec<DirItem>)]) -> Vec<FileEntry> {
    let mut walker = Walker::new(root.to_string(), config);
    let mut rounds = 0;
    loop {
        let (next, rest) = walker.next_dir();
        walker = rest;
        let path = match next {
            Some(path) => path,
            None => break,
        };
        rounds += 1;
        assert!(rounds < 1000);
        if let Some((_, items)) = tree.iter().find(|(name, _)| *name == path) {
            walker = walker.visit(items);
        }
    }
    assert!(walker.is_done());
    walker.into_matches()
}

fn paths(entries: &[FileEntry]) -> Vec<&str> {
    entries.iter().map(|entry| entry.path.as_str()).collect()
}

fn alice() -> UserTable {
    let mut table = UserTable::new();
    table.insert(1000, "alice".to_string());
    table
}

fn all_files(groups: &[OwnerGroup]) -> Vec<&str> {
    groups.iter().flat_map(|group| group.files.iter().map(|path| path.as_str())).collect()
}

#[test]
fn symlink_is_skipped_even_with_elf_contents() {
    assert_eq!(decide(&plain(true), &link("/r/l", 1, &ELF)), Verdict::Skip);
}

#[test]
fn entry_whose_name_contains_the_text_is_skipped() {
    let config = WalkConfig::new(true, Some("test".to_string()), None);
    assert_eq!(decide(&config, &file("/r/test_bin", 1, 1, &ELF)), Verdict::Skip);
    assert_eq!(decide(&config, &dir("/r/my_tests", 1)), Verdict::Skip);
    assert_eq!(decide(&config, &file("/r/bin", 1, 1, &ELF)), Verdict::Keep);
}

#[test]
fn name_filter_looks_at_the_base_name_only() {
    let config = WalkConfig::new(true, Some("test".to_string()), None);
    assert_eq!(decide(&config, &file("/test/bin", 1, 1, &ELF)), Verdict::Keep);
}

#[test]
fn entry_without_unicode_name_is_not_excluded_by_name() {
    let config = WalkConfig::new(true, Some("a".to_string()), None);
    let mut item = file("/r/a", 1, 1, &ELF);
    item.name = None;
    assert_eq!(decide(&config, &item), Verdict::Keep);
}

#[test]
fn entry_of_the_excluded_owner_is_skipped() {
    let config = WalkConfig::new(true, None, Some(7));
    assert_eq!(decide(&config, &file("/r/a", 7, 1, &ELF)), Verdict::Skip);
    assert_eq!(decide(&config, &dir("/r/d", 7)), Verdict::Skip);
    assert_eq!(decide(&config, &file("/r/a", 8, 1, &ELF)), Verdict::Keep);
    assert_eq!(decide(&config, &dir("/r/d", 8)), Verdict::Enter);
}

#[test]
fn directory_is_entered_only_in_recursive_mode() {
    assert_eq!(decide(&plain(true), &dir("/r/d", 1)), Verdict::Enter);
    assert_eq!(decide(&plain(false), &dir("/r/d", 1)), Verdict::Pass);
}

#[test]
fn regular_file_is_kept_only_with_elf_signature() {
    assert_eq!(decide(&plain(false), &file("/r/a", 1, 1, &ELF)), Verdict::Keep);
    assert_eq!(decide(&plain(false), &file("/r/a", 1, 1, b"text")), Verdict::Pass);
    assert_eq!(decide(&plain(false), &file("/r/a", 1, 1, &[0x7F, 0x45, 0x4C])), Verdict::Pass);
    assert_eq!(decide(&plain(false), &file("/r/a", 1, 1, &[])), Verdict::Pass);
}

#[test]
fn other_kinds_are_passed_over() {
    let mut item = file("/r/dev", 1, 0, &ELF);
    item.kind = FileKind::Other;
    assert_eq!(decide(&plain(true), &item), Verdict::Pass);
}

#[test]
fn directory_with_elf_head_is_not_kept() {
    let mut item = dir("/r/d", 1);
    item.head = ELF.to_vec();
    assert_eq!(decide(&plain(false), &item), Verdict::Pass);
    assert_eq!(decide(&plain(true), &item), Verdict::Enter);
}

#[test]
fn record_of_an_item_copies_path_owner_and_size() {
    let entry = FileEntry::of_item(&file("/r/a.out", 1000, 42, &ELF));
    assert_eq!(
        entry,
        FileEntry { path: "/r/a.out".to_string(), uid: 1000, size: 42, is_dir: false }
    );
    assert!(FileEntry::of_item(&dir("/r/d", 3)).is_dir);
}

#[test]
fn new_walk_hands_out_the_root_first() {
    let walker = Walker::new("/root".to_string(), plain(true));
    assert!(!walker.is_done());
    assert!(walker.matches().is_empty());
    let (next, walker) = walker.next_dir();
    assert_eq!(next, Some("/root".to_string()));
    assert!(walker.is_done());
    let (next, walker) = walker.next_dir();
    assert_eq!(next, None);
    assert!(walker.is_done());
    assert!(walker.into_matches().is_empty());
}

#[test]
fn visit_queues_directories_and_keeps_matches_in_order() {
    let walker = Walker::new("/r".to_string(), plain(true));
    let (_, walker) = walker.next_dir();
    let items = vec![
        dir("/r/d1", 1),
        file("/r/f1", 1, 10, &ELF),
        file("/r/notes", 1, 10, b"hello"),
        dir("/r/d2", 1),
        file("/r/f2", 2, 20, &ELF),
    ];
    let walker = walker.visit(&items);
    assert_eq!(paths(walker.matches()), vec!["/r/f1", "/r/f2"]);
    let (next, walker) = walker.next_dir();
    assert_eq!(next, Some("/r/d1".to_string()));
    let (next, walker) = walker.next_dir();
    assert_eq!(next, Some("/r/d2".to_string()));
    let (next, _) = walker.next_dir();
    assert_eq!(next, None);
}

#[test]
fn visit_of_no_entries_changes_nothing() {
    let walker = Walker::new("/r".to_string(), plain(true));
    let walker = walker.visit(&Vec::new());
    assert!(walker.matches().is_empty());
    let (next, walker) = walker.next_dir();
    assert_eq!(next, Some("/r".to_string()));
    assert!(walker.is_done());
}

#[test]
fn walk_is_breadth_first() {
    let tree = vec![
        ("/r", vec![dir("/r/d1", 1), file("/r/f1", 1, 1, &ELF), dir("/r/d2", 1)]),
        ("/r/d1", vec![file("/r/d1/f2", 1, 1, &ELF), dir("/r/d1/d11", 1)]),
        ("/r/d2", vec![file("/r/d2/f3", 1, 1, &ELF)]),
        ("/r/d1/d11", vec![file("/r/d1/d11/f4", 1, 1, &ELF)]),
    ];
    let found = walk("/r", plain(true), &tree);
    assert_eq!(paths(&found), vec!["/r/f1", "/r/d1/f2", "/r/d2/f3", "/r/d1/d11/f4"]);
}

#[test]
fn unreadable_directory_is_passed_over() {
    let tree = vec![
        ("/r", vec![dir("/r/locked", 0), dir("/r/open", 1)]),
        ("/r/open", vec![file("/r/open/a", 1, 1, &ELF)]),
    ];
    let found = walk("/r", plain(true), &tree);
    assert_eq!(paths(&found), vec!["/r/open/a"]);
}

#[test]
fn unreadable_root_gives_no_match() {
    let found = walk("/nowhere", plain(true), &[]);
    assert!(found.is_empty());
}

#[test]
fn excluded_directory_is_not_entered() {
    let tree = vec![
        ("/r", vec![dir("/r/tests", 1), dir("/r/src", 1)]),
        ("/r/tests", vec![file("/r/tests/a", 1, 1, &ELF)]),
        ("/r/src", vec![file("/r/src/b", 1, 1, &ELF)]),
    ];
    let config = WalkConfig::new(true, Some("test".to_string()), None);
    let found = walk("/r", config, &tree);
    assert_eq!(paths(&found), vec!["/r/src/b"]);
}

#[test]
fn excluded_owner_is_neither_matched_nor_entered() {
    let tree = vec![
        ("/r", vec![dir("/r/theirs", 7), dir("/r/ours", 1), file("/r/x", 7, 1, &ELF)]),
        ("/r/theirs", vec![file("/r/theirs/a", 1, 1, &ELF)]),
        ("/r/ours", vec![file("/r/ours/b", 1, 1, &ELF), file("/r/ours/c", 7, 1, &ELF)]),
    ];
    let config = WalkConfig::new(true, None, Some(7));
    let found = walk("/r", config, &tree);
    assert_eq!(paths(&found), vec!["/r/ours/b"]);
}

#[test]
fn symlinked_directory_is_not_followed() {
    let mut linked = dir("/r/l", 1);
    linked.kind = FileKind::Symlink;
    let tree = vec![
        ("/r", vec![linked, link("/r/exe", 1, &ELF)]),
        ("/r/l", vec![file("/r/l/a", 1, 1, &ELF)]),
    ];
    let found = walk("/r", plain(true), &tree);
    assert!(found.is_empty());
}

#[test]
fn matches_are_regular_files_that_pass_the_filters() {
    let tree = vec![
        (
            "/r",
            vec![
                dir("/r/d", 1),
                link("/r/l", 1, &ELF),
                file("/r/keep", 1, 5, &ELF),
                file("/r/skip_me", 1, 5, &ELF),
                file("/r/theirs", 9, 5, &ELF),
                file("/r/text", 1, 5, b"text"),
            ],
        ),
        ("/r/d", vec![file("/r/d/keep2", 2, 6, &ELF), file("/r/d/skip_too", 2, 6, &ELF)]),
    ];
    let config = WalkConfig::new(true, Some("skip".to_string()), Some(9));
    let found = walk("/r", config, &tree);
    assert_eq!(
        found,
        vec![
            FileEntry { path: "/r/keep".to_string(), uid: 1, size: 5, is_dir: false },
            FileEntry { path: "/r/d/keep2".to_string(), uid: 2, size: 6, is_dir: false },
        ]
    );
}

#[test]
fn one_elf_and_one_text_file_of_one_owner_make_one_group() {
    let tree = vec![(
        "/root",
        vec![file("/root/a.out", 1000, 120, &ELF), file("/root/readme.txt", 1000, 30, b"read")],
    )];
    let found = walk("/root", plain(false), &tree);
    let groups = report(&found, &alice());
    assert_eq!(groups.len(), 1);
    assert_eq!(groups[0].uid, 1000);
    assert_eq!(groups[0].amount, 1);
    assert_eq!(groups[0].files, vec!["/root/a.out".to_string()]);
    assert_eq!(groups[0].username, Some("alice".to_string()));
    assert_eq!(groups[0].size, 120);
}

#[test]
fn excluded_name_is_absent_from_all_groups() {
    let tree = vec![(
        "/root",
        vec![file("/root/test_bin", 1000, 1, &ELF), file("/root/tool", 1000, 1, &ELF)],
    )];
    let config = WalkConfig::new(false, Some("test".to_string()), None);
    let found = walk("/root", config, &tree);
    let groups = report(&found, &alice());
    assert_eq!(all_files(&groups), vec!["/root/tool"]);
    assert!(!all_files(&groups).contains(&"/root/test_bin"));
}

#[test]
fn non_recursive_walk_stays_out_of_subdirectories() {
    let tree = vec![
        ("/root", vec![dir("/root/sub", 1000), file("/root/top", 1000, 1, &ELF)]),
        ("/root/sub", vec![file("/root/sub/a", 1000, 1, &ELF), file("/root/sub/b", 1000, 1, &ELF)]),
    ];
    let found = walk("/root", plain(false), &tree);
    assert_eq!(paths(&found), vec!["/root/top"]);
    let groups = report(&found, &alice());
    assert_eq!(all_files(&groups), vec!["/root/top"]);
}

#[test]
fn config_without_owner_name_excludes_no_owner() {
    let config = WalkConfig::resolve(true, Some("x".to_string()), None);
    assert_eq!(
        config,
        WalkConfig { recursive: true, exclude: Some("x".to_string()), exclude_uid: None }
    );
}

#[test]
fn config_with_owner_name_keeps_the_other_filters() {
    let config = WalkConfig::resolve(false, None, Some("root".to_string()));
    assert!(!config.recursive);
    assert_eq!(config.exclude, None);
    if let Some(uid) = config.exclude_uid {
        let item = file("/r/a", uid, 1, &ELF);
        assert_eq!(decide(&config, &item), Verdict::Skip);
    }
}

#[test]
fn config_with_a_name_that_holds_a_nul_excludes_no_owner() {
    let config = WalkConfig::resolve(false, None, Some("no\0body".to_string()));
    assert_eq!(config.exclude_uid, None);
}
