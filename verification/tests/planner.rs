use zfs_to_glacier::clock::{expired, Timestamp};
use zfs_to_glacier::compute_backups::{
    decide, get_estimated_size, get_pending_actions, get_pending_actions_at,
    try_get_pending_actions, BackupKind, Decision, FilterExistingFiles, S3Backup,
};
use zfs_to_glacier::config::{ZfsBackupConfig, ZfsBackupConfigEntry};
use zfs_to_glacier::s3_utils::{S3Key, StorageClass, Tag};
use zfs_to_glacier::zfs_utils::{LocalZfsState, ZfsSnapshot};

const DAY: i64 = 86400;

fn noon() -> Timestamp {
    Timestamp { secs: 19000 * DAY + DAY / 2, nanos: 0 }
}

fn days_ago(days: i64) -> i64 {
    19000 * DAY - days * DAY
}

fn snapshot(name: &str, days: i64) -> ZfsSnapshot {
    ZfsSnapshot { name: name.to_string(), creation: days_ago(days) }
}

fn backup(name: &str, bucket: &str, days: i64, parent: Option<String>) -> S3Backup {
    S3Backup {
        snapshot: snapshot(name, days),
        parent,
        storage_class: StorageClass::DeepArchive,
        bucket: bucket.to_string(),
    }
}

fn create_standard_config(bucket: &str) -> ZfsBackupConfig {
    ZfsBackupConfig {
        pool_regex: "backup_pool.*".to_string(),
        incremental: ZfsBackupConfigEntry {
            snapshot_regex: "daily.*".to_string(),
            storage_class: StorageClass::DeepArchive,
            expire_in_days: 40,
        },
        full: ZfsBackupConfigEntry {
            snapshot_regex: "(yearly|monthly).*".to_string(),
            storage_class: StorageClass::DeepArchive,
            expire_in_days: 200,
        },
        bucket: bucket.to_string(),
    }
}

fn initial_state() -> LocalZfsState {
    let mut state = LocalZfsState::new();
    state.insert("backup_pool".to_string(), Vec::new());
    state.insert(
        "backup_pool/backup".to_string(),
        vec![
            snapshot("backup_pool/backup@1_yearly", 20),
            snapshot("backup_pool/backup@2_monthly", 19),
            snapshot("backup_pool/backup@3_ignored", 18),
            snapshot("backup_pool/backup@4_daily", 17),
        ],
    );
    state
}

#[test]
fn basic_actions() {
    let bucket = "test-bucket";
    let config = create_standard_config(bucket);
    let actions = get_pending_actions_at(&initial_state(), &config, noon());
    assert_eq!(
        &actions,
        &vec![
            backup("backup_pool/backup@1_yearly", bucket, 20, None),
            backup("backup_pool/backup@2_monthly", bucket, 19, None),
            backup(
                "backup_pool/backup@4_daily",
                bucket,
                17,
                Some("backup_pool/backup@2_monthly".to_string())
            ),
        ]
    );
    assert_eq!(actions.len(), 3);
    assert_eq!(actions[0].key(), "full/backup_pool/backup_AT_1_yearly");
    assert_eq!(actions[1].key(), "full/backup_pool/backup_AT_2_monthly");
    assert_eq!(actions[2].key(), "incremental/backup_pool/backup_AT_4_daily");
    assert_eq!(actions[0].backup_cmd(false), "zfs send -Pw backup_pool/backup@1_yearly");
    assert_eq!(
        actions[2].backup_cmd(false),
        "zfs send -Pw -i backup_pool/backup@2_monthly backup_pool/backup@4_daily"
    );

    let mut state = LocalZfsState::new();
    state.insert("backup_pool".to_string(), Vec::new());
    state.insert(
        "backup_pool/backup".to_string(),
        vec![
            snapshot("backup_pool/backup@1_yearly", 20),
            snapshot("backup_pool/backup@2_monthly", 19),
            snapshot("backup_pool/backup@3_ignored", 18),
            snapshot("backup_pool/backup@4_daily", 17),
            snapshot("backup_pool/backup@5_daily", 16),
        ],
    );
    let remote_state: Vec<S3Key> = actions
        .iter()
        .map(|action| S3Key { key: action.key(), etag: "e".to_string() })
        .collect();
    let total_local_actions = get_pending_actions_at(&state, &config, noon());
    assert_eq!(total_local_actions.len(), 4);
    let local_actions = total_local_actions.filter_existing_backups(&remote_state);
    assert_eq!(local_actions.len(), 1);
    assert_eq!(
        local_actions[0],
        backup(
            "backup_pool/backup@5_daily",
            bucket,
            16,
            Some("backup_pool/backup@4_daily".to_string())
        )
    );
    assert_eq!(local_actions[0].key(), "incremental/backup_pool/backup_AT_5_daily");
    assert_eq!(
        local_actions[0].backup_cmd(false),
        "zfs send -Pw -i backup_pool/backup@4_daily backup_pool/backup@5_daily"
    );
}

#[test]
fn ignore_expired() {
    let bucket = "test-bucket";
    let config = create_standard_config(bucket);
    let mut state = LocalZfsState::new();
    state.insert("backup_pool".to_string(), Vec::new());
    state.insert(
        "backup_pool/backup".to_string(),
        vec![
            snapshot("backup_pool/backup@1_yearly", 365),
            snapshot("backup_pool/backup@2_yearly", 1),
        ],
    );
    let actions = get_pending_actions_at(&state, &config, noon());
    assert_eq!(&actions, &vec![backup("backup_pool/backup@2_yearly", bucket, 1, None)]);
}

#[test]
fn retention_has_one_day_of_grace() {
    let now = Timestamp { secs: 1000 * DAY, nanos: 0 };
    assert!(!expired(1000 * DAY - 201 * DAY, 200, now));
    assert!(expired(1000 * DAY - 201 * DAY - 1, 200, now));
    assert!(expired(1000 * DAY - 201 * DAY, 200, Timestamp { secs: 1000 * DAY, nanos: 1 }));
    assert!(!expired(1000 * DAY - 200 * DAY, 200, now));
    assert!(!expired(1000 * DAY + 5, 0, now));
    assert!(!expired(i64::MIN, i64::MAX, Timestamp { secs: i64::MAX, nanos: 999_999_999 }));
    assert!(expired(i64::MIN, 0, Timestamp { secs: i64::MAX, nanos: 0 }));
}

#[test]
fn incremental_without_parent_is_skipped_and_is_no_parent() {
    let config = create_standard_config("b");
    let mut state = LocalZfsState::new();
    state.insert(
        "backup_pool/a".to_string(),
        vec![
            snapshot("backup_pool/a@1_daily", 5),
            snapshot("backup_pool/a@2_daily", 4),
            snapshot("backup_pool/a@3_monthly", 3),
            snapshot("backup_pool/a@4_daily", 2),
        ],
    );
    let actions = get_pending_actions_at(&state, &config, noon());
    assert_eq!(
        actions,
        vec![
            backup("backup_pool/a@3_monthly", "b", 3, None),
            backup("backup_pool/a@4_daily", "b", 2, Some("backup_pool/a@3_monthly".to_string())),
        ]
    );
}

#[test]
fn expired_incremental_is_still_a_parent() {
    let config = create_standard_config("b");
    let mut state = LocalZfsState::new();
    state.insert(
        "backup_pool/a".to_string(),
        vec![
            snapshot("backup_pool/a@1_monthly", 100),
            snapshot("backup_pool/a@2_daily", 90),
            snapshot("backup_pool/a@3_daily", 2),
        ],
    );
    let actions = get_pending_actions_at(&state, &config, noon());
    assert_eq!(
        actions,
        vec![
            backup("backup_pool/a@1_monthly", "b", 100, None),
            backup("backup_pool/a@3_daily", "b", 2, Some("backup_pool/a@2_daily".to_string())),
        ]
    );
}

#[test]
fn parent_is_the_nearest_snapshot_that_a_pattern_matches() {
    let config = create_standard_config("b");
    let mut state = LocalZfsState::new();
    state.insert(
        "backup_pool/a".to_string(),
        vec![
            snapshot("backup_pool/a@1_yearly", 300),
            snapshot("backup_pool/a@2_daily", 90),
            snapshot("backup_pool/a@3_ignored", 5),
            snapshot("backup_pool/a@4_hourly", 4),
            snapshot("backup_pool/a@5_daily", 3),
            snapshot("backup_pool/a@6_monthly", 2),
            snapshot("backup_pool/a@7_ignored", 2),
            snapshot("backup_pool/a@8_daily", 1),
        ],
    );
    let actions = get_pending_actions_at(&state, &config, noon());
    assert_eq!(
        actions,
        vec![
            backup("backup_pool/a@5_daily", "b", 3, Some("backup_pool/a@2_daily".to_string())),
            backup("backup_pool/a@6_monthly", "b", 2, None),
            backup("backup_pool/a@8_daily", "b", 1, Some("backup_pool/a@6_monthly".to_string())),
        ]
    );
}

#[test]
fn pool_order_keeps_the_order_within_each_pool() {
    let config = create_standard_config("b");
    let first = vec![
        snapshot("backup_pool/a@1_monthly", 4),
        snapshot("backup_pool/a@2_daily", 3),
        snapshot("backup_pool/a@3_daily", 2),
    ];
    let second = vec![snapshot("backup_pool/b@1_yearly", 3), snapshot("backup_pool/b@2_daily", 1)];
    let mut one = LocalZfsState::new();
    one.insert("backup_pool/a".to_string(), first.clone());
    one.insert("backup_pool/b".to_string(), second.clone());
    let mut other = LocalZfsState::new();
    other.insert("backup_pool/b".to_string(), second.clone());
    other.insert("backup_pool/a".to_string(), first.clone());
    let plan_one = get_pending_actions_at(&one, &config, noon());
    let plan_other = get_pending_actions_at(&other, &config, noon());
    for pool in [&first, &second] {
        let within_one: Vec<&S3Backup> =
            plan_one.iter().filter(|action| pool.contains(&action.snapshot)).collect();
        let within_other: Vec<&S3Backup> =
            plan_other.iter().filter(|action| pool.contains(&action.snapshot)).collect();
        assert_eq!(within_one, within_other);
        assert_eq!(within_one.len(), pool.len());
    }
    let mut alone = LocalZfsState::new();
    alone.insert("backup_pool/a".to_string(), first.clone());
    assert_eq!(plan_one[..3].to_vec(), get_pending_actions_at(&alone, &config, noon()));
}

#[test]
fn decisions_follow_the_patterns_the_parent_and_the_age() {
    let passed_over = Decision { backup: None, becomes_parent: false };
    let parent_only = Decision { backup: None, becomes_parent: true };
    let increment = Decision { backup: Some(BackupKind::Incremental), becomes_parent: true };
    let full = Decision { backup: Some(BackupKind::Full), becomes_parent: true };
    // an increment needs a parent, and is no parent without one
    assert_eq!(decide(true, false, false, false, false), passed_over);
    assert_eq!(decide(true, false, true, false, false), increment);
    // too old for an increment, it is still the next parent
    assert_eq!(decide(true, false, true, true, false), parent_only);
    assert_eq!(decide(true, false, false, true, false), passed_over);
    // the pattern for increments is asked first
    assert_eq!(decide(true, true, true, false, true), increment);
    assert_eq!(decide(true, true, false, false, false), passed_over);
    // a full backup needs no parent
    assert_eq!(decide(false, true, false, false, false), full);
    assert_eq!(decide(false, true, true, true, false), full);
    assert_eq!(decide(false, true, false, false, true), parent_only);
    // neither pattern
    assert_eq!(decide(false, false, true, false, false), passed_over);
    assert_eq!(decide(false, false, false, true, true), passed_over);
}

#[test]
fn each_planned_snapshot_has_one_backup_in_the_plan() {
    let config = create_standard_config("b");
    let mut state = initial_state();
    state.insert(
        "backup_pool/other".to_string(),
        vec![snapshot("backup_pool/other@1_monthly", 3), snapshot("backup_pool/other@2_daily", 2)],
    );
    let actions = get_pending_actions_at(&state, &config, noon());
    for name in [
        "backup_pool/backup@1_yearly",
        "backup_pool/backup@2_monthly",
        "backup_pool/backup@4_daily",
        "backup_pool/other@1_monthly",
        "backup_pool/other@2_daily",
    ] {
        assert_eq!(actions.iter().filter(|action| action.snapshot.name == name).count(), 1);
    }
    assert_eq!(
        actions.iter().filter(|action| action.snapshot.name == "backup_pool/backup@3_ignored").count(),
        0
    );
    assert_eq!(actions.len(), 5);
}

#[test]
fn snapshot_matching_both_patterns_is_incremental() {
    let config = create_standard_config("b");
    let mut state = LocalZfsState::new();
    state.insert(
        "backup_pool/a".to_string(),
        vec![snapshot("backup_pool/a@1_daily_monthly", 3), snapshot("backup_pool/a@2_monthly", 2)],
    );
    let actions = get_pending_actions_at(&state, &config, noon());
    assert_eq!(actions, vec![backup("backup_pool/a@2_monthly", "b", 2, None)]);
}

#[test]
fn pools_outside_the_pattern_are_left_out() {
    let config = create_standard_config("b");
    let mut state = LocalZfsState::new();
    state.insert("rpool/home".to_string(), vec![snapshot("rpool/home@1_monthly", 2)]);
    state.insert("backup_pool/a".to_string(), vec![snapshot("backup_pool/a@1_monthly", 2)]);
    let actions = get_pending_actions_at(&state, &config, noon());
    assert_eq!(actions, vec![backup("backup_pool/a@1_monthly", "b", 2, None)]);
}

#[test]
fn storage_class_follows_the_kind() {
    let mut config = create_standard_config("b");
    config.full.storage_class = StorageClass::Glacier;
    config.incremental.storage_class = StorageClass::StandardInfrequentAccess;
    let mut state = LocalZfsState::new();
    state.insert(
        "backup_pool/a".to_string(),
        vec![snapshot("backup_pool/a@1_monthly", 3), snapshot("backup_pool/a@2_daily", 2)],
    );
    let actions = get_pending_actions_at(&state, &config, noon());
    assert_eq!(actions[0].storage_class, StorageClass::Glacier);
    assert_eq!(actions[1].storage_class, StorageClass::StandardInfrequentAccess);
}

#[test]
fn pool_order_changes_only_the_order_of_the_plan() {
    let config = create_standard_config("b");
    let first = vec![snapshot("backup_pool/a@1_monthly", 3), snapshot("backup_pool/a@2_daily", 2)];
    let second = vec![snapshot("backup_pool/b@1_yearly", 3)];
    let mut one = LocalZfsState::new();
    one.insert("backup_pool/a".to_string(), first.clone());
    one.insert("backup_pool/b".to_string(), second.clone());
    let mut other = LocalZfsState::new();
    other.insert("backup_pool/b".to_string(), second);
    other.insert("backup_pool/a".to_string(), first);
    let plan_one = get_pending_actions_at(&one, &config, noon());
    let plan_other = get_pending_actions_at(&other, &config, noon());
    assert_eq!(plan_one.len(), 3);
    assert_eq!(plan_other.len(), 3);
    assert_eq!(plan_one[0], plan_other[1]);
    assert_eq!(plan_one[1], plan_other[2]);
    assert_eq!(plan_one[2], plan_other[0]);
}

#[test]
fn key_begins_with_full_only_without_parent() {
    let full = backup("p@s", "b", 1, None);
    let incremental = backup("p@s", "b", 1, Some("p@r".to_string()));
    assert!(full.key().starts_with("full/"));
    assert!(!incremental.key().starts_with("full/"));
    assert_eq!(incremental.key(), "incremental/p_AT_s");
    assert_eq!(backup("a@b@c", "b", 1, None).key(), "full/a_AT_b_AT_c");
}

#[test]
fn filter_looks_at_keys_only() {
    let plan = vec![
        backup("p@1", "b", 3, None),
        backup("p@2", "b", 2, Some("p@1".to_string())),
        backup("p@3", "b", 1, Some("p@2".to_string())),
    ];
    let remote = vec![
        S3Key { key: "incremental/p_AT_2".to_string(), etag: "x".to_string() },
        S3Key { key: "full/p_AT_3".to_string(), etag: "y".to_string() },
    ];
    let kept = plan.clone().filter_existing_backups(&remote);
    assert_eq!(kept, vec![plan[0].clone(), plan[2].clone()]);
    for action in &kept {
        assert!(remote.iter().all(|object| object.key != action.key()));
    }
    assert_eq!(plan.clone().filter_existing_backups(&Vec::new()), plan);
}

#[test]
fn dry_run_command_and_estimated_size() {
    let full = backup("p@s", "b", 1, None);
    let incremental = backup("p@s", "b", 1, Some("p@r".to_string()));
    assert_eq!(full.backup_cmd(true), "zfs send -Pwvn p@s");
    assert_eq!(incremental.backup_cmd(true), "zfs send -Pwvn -i p@r p@s");
    assert_eq!(get_estimated_size("full\tp@s\t1234\nsize\t5678\n"), Some(5678));
    assert_eq!(get_estimated_size("42"), Some(42));
    assert_eq!(get_estimated_size("size\t"), None);
    assert_eq!(get_estimated_size("size\tabc"), None);
    assert_eq!(get_estimated_size(""), None);
}

#[test]
fn backup_describes_itself() {
    assert_eq!(backup("p@s", "b", 1, None).to_string(), "S3Backup full/p_AT_s, incremental false");
    assert_eq!(
        backup("p@s", "b", 1, Some("p@r".to_string())).to_string(),
        "S3Backup incremental/p_AT_s, incremental true"
    );
    assert_eq!(snapshot("p@s", 1).to_string(), "ZfsSnapshot p@s");
}

#[test]
fn tags_name_command_parent_and_date() {
    let tag = |key: &str, value: &str| Tag { key: key.to_string(), value: value.to_string() };
    assert_eq!(
        backup("p@s", "b", 1, None).tags("2021-03-01T00:00:00+00:00".to_string()),
        vec![
            tag("backup_cmd", "zfs send -Pw p@s"),
            tag("parent", "full"),
            tag("creation_date", "2021-03-01T00:00:00+00:00"),
        ]
    );
    assert_eq!(
        backup("p@s", "b", 1, Some("p@r".to_string())).tags("d".to_string())[1],
        tag("parent", "p@r")
    );
}

#[test]
fn planning_reads_the_clock() {
    let today = chrono::Local::now().timestamp();
    let config = create_standard_config("b");
    let mut state = LocalZfsState::new();
    state.insert(
        "backup_pool/a".to_string(),
        vec![
            ZfsSnapshot { name: "backup_pool/a@1_yearly".to_string(), creation: today - 365 * DAY },
            ZfsSnapshot { name: "backup_pool/a@2_yearly".to_string(), creation: today - DAY },
        ],
    );
    let actions = get_pending_actions(&state, &config);
    assert_eq!(actions.len(), 1);
    assert_eq!(actions[0].snapshot.name, "backup_pool/a@2_yearly");
    assert_eq!(try_get_pending_actions(&state, &config), Some(actions));
}

#[test]
fn planning_refuses_a_pattern_that_is_none() {
    let mut config = create_standard_config("b");
    config.full.snapshot_regex = "(yearly".to_string();
    assert!(!config.is_valid());
    assert_eq!(try_get_pending_actions(&initial_state(), &config), None);
    assert!(create_standard_config("b").is_valid());
}
