use tavern_vault::backup::{
    backup_file_name, list_database_backups, max_backups, sanitize_reason,
    select_rotation_victims,
};

fn names(list: &[&str]) -> Vec<String> {
    list.iter().map(|s| s.to_string()).collect()
}

#[test]
fn sanitize_drops_nonconforming_characters() {
    assert_eq!(sanitize_reason("before upgrade!"), "beforeupgrade");
    assert_eq!(sanitize_reason("weekly-2024_05"), "weekly-2024_05");
    assert_eq!(sanitize_reason("a/b\\c:d*e"), "abcde");
    assert_eq!(sanitize_reason(""), "");
    assert_eq!(sanitize_reason("déjà vu"), "déjàvu");
}

#[test]
fn sanitize_truncates_to_fifty() {
    let long: String = "x".repeat(60);
    assert_eq!(sanitize_reason(&long), "x".repeat(50));
    // Truncation counts kept characters, not raw ones.
    let spaced = "a ".repeat(60);
    assert_eq!(sanitize_reason(&spaced), "a".repeat(50));
}

#[test]
fn backup_name_is_timestamp_reason_db() {
    assert_eq!(
        backup_file_name("20240511_093000", "before upgrade"),
        "20240511_093000_beforeupgrade.db"
    );
    assert_eq!(backup_file_name("20240511_093000", ""), "20240511_093000_.db");
}

#[test]
fn list_on_empty_directory_is_empty() {
    let listed = list_database_backups("/data/backups", &names(&[]));
    assert!(listed.is_empty());
}

#[test]
fn list_parses_and_sorts_newest_first() {
    let listed = list_database_backups(
        "/data/backups",
        &names(&[
            "20240101_010101_first.db",
            "20240301_030303_third.db",
            "20240201_020202_second-try.db",
        ]),
    );
    assert_eq!(listed.len(), 3);
    assert_eq!(listed[0].created_at, "20240301_030303");
    assert_eq!(listed[0].reason, "third");
    assert_eq!(listed[0].path, "/data/backups/20240301_030303_third.db");
    assert_eq!(listed[1].created_at, "20240201_020202");
    assert_eq!(listed[1].reason, "second-try");
    assert_eq!(listed[2].created_at, "20240101_010101");
    assert_eq!(listed[2].reason, "first");
}

#[test]
fn list_hides_malformed_names_and_foreign_files() {
    let listed = list_database_backups(
        "/b",
        &names(&[
            "20240101_010101_kept.db",
            "nounderscores.db",
            "one_underscore.db",
            "20240101_010101_note.txt",
            "20240201_020202_.db",
            "20240301_030303_extra_underscores_kept.db",
        ]),
    );
    assert_eq!(listed.len(), 3);
    assert_eq!(listed[0].created_at, "20240301_030303");
    assert_eq!(listed[0].reason, "extra_underscores_kept");
    assert_eq!(listed[1].created_at, "20240201_020202");
    assert_eq!(listed[1].reason, "");
    assert_eq!(listed[2].reason, "kept");
}

#[test]
fn rotation_keeps_up_to_the_limit() {
    let mut entries: Vec<String> = Vec::new();
    for day in 1..=20 {
        entries.push(format!("202401{:02}_120000_daily.db", day));
    }
    assert!(select_rotation_victims(&entries).is_empty());
    assert_eq!(max_backups(), 20);
}

#[test]
fn twenty_five_sequential_backups_leave_the_twenty_newest() {
    let mut entries: Vec<String> = Vec::new();
    for day in 1..=25 {
        // Sequential timestamps, presented out of order.
        entries.insert(entries.len() / 2, format!("202401{:02}_120000_daily.db", day));
    }
    let victims = select_rotation_victims(&entries);
    assert_eq!(victims.len(), 5);
    for (i, v) in victims.iter().enumerate() {
        assert_eq!(v, &format!("202401{:02}_120000_daily.db", i + 1));
    }
    let remaining: Vec<String> = entries
        .iter()
        .filter(|e| !victims.contains(e))
        .cloned()
        .collect();
    assert_eq!(remaining.len(), 20);
    for day in 6..=25 {
        assert!(remaining.contains(&format!("202401{:02}_120000_daily.db", day)));
    }
}

#[test]
fn rotation_counts_malformed_db_files_but_not_foreign_ones() {
    let mut entries: Vec<String> = Vec::new();
    entries.push("aaa_unparsed.db".to_string());
    for day in 1..=20 {
        entries.push(format!("202401{:02}_120000_daily.db", day));
    }
    entries.push("notes.txt".to_string());
    let victims = select_rotation_victims(&entries);
    // 21 `.db` entries: the lexicographically smallest goes, even though
    // the listing would never show it.
    assert_eq!(victims, vec!["20240101_120000_daily.db".to_string()]);
}
