use findexec::entry::FileEntry;
use findexec::owners::{distinct_owners, group_by_owner, group_for, has_id, OwnerGroup};
use findexec::ranking::sort_by_amount;
use findexec::report::{drop_unresolved, get_owners, owner_size, report, sizes_in_range};
use findexec::userdb::{ask_names, resolve_names, table_from, UserTable};

fn entry(path: &str, uid: u32, size: u64) -> FileEntry {
    FileEntry { path: path.to_string(), uid, size, is_dir: false }
}

fn group(uid: u32, name: Option<&str>, files: &[&str], size: u64) -> OwnerGroup {
    OwnerGroup {
        uid,
        username: name.map(|n| n.to_string()),
        files: files.iter().map(|f| f.to_string()).collect(),
        amount: files.len(),
        size,
    }
}

fn table(rows: &[(u32, &str)]) -> UserTable {
    let mut table = UserTable::new();
    for (uid, name) in rows {
        table.insert(*uid, name.to_string());
    }
    table
}

fn sample() -> Vec<FileEntry> {
    vec![
        entry("/a", 1, 10),
        entry("/b", 2, 20),
        entry("/c", 1, 30),
        entry("/d", 3, 40),
        entry("/e", 2, 50),
        entry("/f", 2, 60),
    ]
}

#[test]
fn table_knows_what_was_inserted() {
    let t = table(&[(0, "root"), (1000, "alice")]);
    assert_eq!(t.lookup(0), Some("root".to_string()));
    assert_eq!(t.lookup(1000), Some("alice".to_string()));
    assert_eq!(t.lookup(1), None);
    assert_eq!(UserTable::new().lookup(0), None);
}

#[test]
fn table_keeps_the_later_name_of_an_id() {
    let t = table(&[(5, "old"), (6, "other"), (5, "new")]);
    assert_eq!(t.lookup(5), Some("new".to_string()));
    assert_eq!(t.lookup(6), Some("other".to_string()));
}

#[test]
fn has_id_finds_members_only() {
    assert!(has_id(&vec![3, 1, 2], 1));
    assert!(has_id(&vec![3, 1, 2], 2));
    assert!(!has_id(&vec![3, 1, 2], 4));
    assert!(!has_id(&Vec::new(), 0));
}

#[test]
fn distinct_owners_come_in_order_of_first_file() {
    assert_eq!(distinct_owners(&sample()), vec![1, 2, 3]);
    let entries = vec![entry("/x", 9, 1), entry("/y", 4, 1), entry("/z", 9, 1)];
    assert_eq!(distinct_owners(&entries), vec![9, 4]);
    assert_eq!(distinct_owners(&Vec::new()), Vec::<u32>::new());
}

#[test]
fn group_for_gathers_files_count_and_size() {
    let g = group_for(&sample(), 2, Some("bob".to_string()));
    assert_eq!(g, group(2, Some("bob"), &["/b", "/e", "/f"], 130));
    let g = group_for(&sample(), 1, None);
    assert_eq!(g, group(1, None, &["/a", "/c"], 40));
}

#[test]
fn group_for_a_stranger_is_empty() {
    let g = group_for(&sample(), 77, None);
    assert_eq!(g, group(77, None, &[], 0));
}

#[test]
fn group_by_owner_makes_one_group_for_each_owner() {
    let groups = group_by_owner(&sample(), &table(&[(1, "ann"), (2, "bob")]));
    assert_eq!(
        groups,
        vec![
            group(1, Some("ann"), &["/a", "/c"], 40),
            group(2, Some("bob"), &["/b", "/e", "/f"], 130),
            group(3, None, &["/d"], 40),
        ]
    );
}

#[test]
fn every_entry_belongs_to_exactly_one_group() {
    let entries = sample();
    let groups = group_by_owner(&entries, &UserTable::new());
    for e in &entries {
        let holders = groups.iter().filter(|g| g.files.contains(&e.path)).count();
        assert_eq!(holders, 1);
    }
    let total: usize = groups.iter().map(|g| g.amount).sum();
    assert_eq!(total, entries.len());
}

#[test]
fn drop_unresolved_leaves_out_nameless_groups() {
    let groups = vec![
        group(1, None, &["/a"], 1),
        group(2, Some("bob"), &["/b"], 2),
        group(3, None, &["/c"], 3),
        group(4, Some("dan"), &["/d"], 4),
    ];
    assert_eq!(
        drop_unresolved(groups),
        vec![group(2, Some("bob"), &["/b"], 2), group(4, Some("dan"), &["/d"], 4)]
    );
    assert_eq!(drop_unresolved(Vec::new()), Vec::new());
}

#[test]
fn sort_by_amount_puts_the_largest_first() {
    let groups = vec![
        group(1, Some("a"), &["/1"], 0),
        group(2, Some("b"), &["/1", "/2", "/3"], 0),
        group(3, Some("c"), &["/1", "/2"], 0),
    ];
    let ranked = sort_by_amount(groups);
    let uids: Vec<u32> = ranked.iter().map(|g| g.uid).collect();
    assert_eq!(uids, vec![2, 3, 1]);
}

#[test]
fn sort_by_amount_keeps_the_order_of_equal_groups() {
    let groups = vec![
        group(1, Some("a"), &["/1"], 0),
        group(2, Some("b"), &["/1", "/2"], 0),
        group(3, Some("c"), &["/1"], 0),
        group(4, Some("d"), &["/1", "/2"], 0),
        group(5, Some("e"), &["/1"], 0),
    ];
    let ranked = sort_by_amount(groups);
    let uids: Vec<u32> = ranked.iter().map(|g| g.uid).collect();
    assert_eq!(uids, vec![2, 4, 1, 3, 5]);
}

#[test]
fn sort_by_amount_goes_by_the_amount_field() {
    let mut big = group(1, Some("a"), &["/1"], 0);
    big.amount = 9;
    let ranked = sort_by_amount(vec![group(2, Some("b"), &["/1", "/2"], 0), big]);
    assert_eq!(ranked[0].uid, 1);
    assert_eq!(sort_by_amount(Vec::new()), Vec::new());
}

#[test]
fn report_groups_names_and_ranks() {
    let out = report(&sample(), &table(&[(1, "ann"), (2, "bob"), (3, "cyd")]));
    assert_eq!(
        out,
        vec![
            group(2, Some("bob"), &["/b", "/e", "/f"], 130),
            group(1, Some("ann"), &["/a", "/c"], 40),
            group(3, Some("cyd"), &["/d"], 40),
        ]
    );
}

#[test]
fn report_leaves_out_owners_without_a_name() {
    let entries = sample();
    let out = report(&entries, &table(&[(1, "ann"), (3, "cyd")]));
    assert_eq!(
        out,
        vec![group(1, Some("ann"), &["/a", "/c"], 40), group(3, Some("cyd"), &["/d"], 40)]
    );
    assert!(out.iter().all(|g| g.username.is_some()));
    let total: usize = out.iter().map(|g| g.amount).sum();
    assert!(total < entries.len());
    assert_eq!(total, 3);
}

#[test]
fn report_amounts_sum_to_the_number_of_files_when_all_owners_have_names() {
    let entries = sample();
    let out = report(&entries, &table(&[(1, "ann"), (2, "bob"), (3, "cyd")]));
    let total: usize = out.iter().map(|g| g.amount).sum();
    assert_eq!(total, entries.len());
    for g in &out {
        assert_eq!(g.amount, g.files.len());
    }
}

#[test]
fn report_is_in_descending_order_of_amount() {
    let mut entries = sample();
    entries.push(entry("/g", 3, 1));
    entries.push(entry("/h", 4, 1));
    entries.push(entry("/i", 3, 1));
    entries.push(entry("/j", 3, 1));
    let out = report(&entries, &table(&[(1, "a"), (2, "b"), (3, "c"), (4, "d")]));
    let amounts: Vec<usize> = out.iter().map(|g| g.amount).collect();
    assert_eq!(amounts, vec![4, 3, 2, 1]);
    let uids: Vec<u32> = out.iter().map(|g| g.uid).collect();
    assert_eq!(uids, vec![3, 2, 1, 4]);
}

#[test]
fn report_is_the_same_for_the_same_input() {
    let names = table(&[(1, "ann"), (2, "bob"), (3, "cyd")]);
    assert_eq!(report(&sample(), &names), report(&sample(), &names));
}

#[test]
fn report_on_nothing_is_empty() {
    assert_eq!(report(&Vec::new(), &table(&[(1, "ann")])), Vec::new());
    assert_eq!(report(&sample(), &UserTable::new()), Vec::new());
}

#[test]
fn owner_size_sums_or_reports_overflow() {
    let entries = vec![entry("/a", 1, u64::MAX - 1), entry("/b", 2, 5), entry("/c", 1, 1)];
    assert_eq!(owner_size(&entries, 1), Some(u64::MAX));
    assert_eq!(owner_size(&entries, 2), Some(5));
    assert_eq!(owner_size(&entries, 3), Some(0));
    let entries = vec![entry("/a", 1, u64::MAX), entry("/b", 2, 5), entry("/c", 1, 1)];
    assert_eq!(owner_size(&entries, 1), None);
    assert_eq!(owner_size(&entries, 2), Some(5));
}

#[test]
fn sizes_in_range_looks_at_each_owner_apart() {
    assert!(sizes_in_range(&sample()));
    assert!(sizes_in_range(&Vec::new()));
    assert!(sizes_in_range(&vec![entry("/a", 1, u64::MAX), entry("/b", 2, u64::MAX)]));
    assert!(!sizes_in_range(&vec![entry("/a", 1, u64::MAX), entry("/b", 2, 1), entry("/c", 1, 1)]));
}

#[test]
fn group_size_may_reach_the_largest_value() {
    let entries = vec![entry("/a", 1, u64::MAX - 1), entry("/c", 1, 1)];
    let out = report(&entries, &table(&[(1, "ann")]));
    assert_eq!(out[0].size, u64::MAX);
}

#[test]
fn table_from_records_each_name_that_was_given() {
    let answers = vec![
        (0, Some("root".to_string())),
        (7, None),
        (1000, Some("alice".to_string())),
    ];
    let t = table_from(&answers);
    assert_eq!(t.lookup(0), Some("root".to_string()));
    assert_eq!(t.lookup(7), None);
    assert_eq!(t.lookup(1000), Some("alice".to_string()));
    assert_eq!(t.lookup(1), None);
}

#[test]
fn table_from_keeps_the_later_name_and_ignores_a_later_silence() {
    let answers = vec![
        (5, Some("old".to_string())),
        (5, Some("new".to_string())),
        (6, Some("kept".to_string())),
        (6, None),
    ];
    let t = table_from(&answers);
    assert_eq!(t.lookup(5), Some("new".to_string()));
    assert_eq!(t.lookup(6), Some("kept".to_string()));
}

#[test]
fn table_from_no_answers_knows_no_user() {
    assert_eq!(table_from(&Vec::new()).lookup(0), None);
    assert_eq!(table_from(&vec![(3, None)]).lookup(3), None);
}

#[test]
fn ask_names_answers_each_id_in_order() {
    let ids = vec![0, 4_000_000_123, 0];
    let answers = ask_names(&ids);
    let asked: Vec<u32> = answers.iter().map(|answer| answer.0).collect();
    assert_eq!(asked, ids);
    assert_eq!(answers[0].1, answers[2].1);
    assert_eq!(ask_names(&Vec::new()), Vec::new());
}

#[test]
fn resolve_names_is_the_table_of_the_answers() {
    let ids = vec![0, 4_000_000_123];
    let answers = ask_names(&ids);
    let t = resolve_names(&ids);
    for (uid, name) in answers {
        assert_eq!(t.lookup(uid), name);
    }
}

#[test]
fn resolve_names_knows_only_the_ids_asked_for() {
    let t = resolve_names(&vec![0]);
    assert_eq!(t.lookup(4_000_000_123), None);
    let t = resolve_names(&Vec::new());
    assert_eq!(t.lookup(0), None);
}

#[test]
fn get_owners_reports_on_owners_that_the_system_knows() {
    let entries = vec![entry("/bin/a", 0, 10), entry("/bin/b", 0, 20)];
    let out = get_owners(&entries);
    assert!(out.len() <= 1);
    for g in &out {
        assert_eq!(g.uid, 0);
        assert!(g.username.is_some());
        assert_eq!(g.files, vec!["/bin/a".to_string(), "/bin/b".to_string()]);
        assert_eq!(g.amount, 2);
        assert_eq!(g.size, 30);
    }
}

#[test]
fn get_owners_agrees_with_the_report_on_the_resolved_names() {
    let entries = vec![entry("/a", 0, 1), entry("/b", 4_000_000_123, 2), entry("/c", 0, 3)];
    let names = resolve_names(&distinct_owners(&entries));
    assert_eq!(get_owners(&entries), report(&entries, &names));
    let total: usize = get_owners(&entries).iter().map(|g| g.amount).sum();
    assert!(total <= entries.len());
}
