use zfs_to_glacier::config::{ZfsBackupConfig, ZfsBackupConfigEntry};
use zfs_to_glacier::pattern::{is_match, is_valid, try_match};
use zfs_to_glacier::s3_utils::StorageClass;

#[test]
fn patterns_are_regular_expressions() {
    assert!(is_valid("rpool/.*"));
    assert!(is_valid(""));
    assert!(!is_valid("foo(bar"));
    assert!(!is_valid("[a-"));
}

#[test]
fn a_pattern_matches_anywhere_in_the_text() {
    assert!(is_match("daily", "pool@2021_daily_1"));
    assert!(!is_match("daily", "pool@2021_monthly"));
    assert!(is_match("^pool@\\d+$", "pool@2021"));
    assert!(!is_match("^pool@\\d+$", "pool@2021x"));
    assert!(is_match("(yearly|monthly).*", "x@1_monthly"));
    assert!(!is_match("daily", "daily pattern, text without it".split(',').last().unwrap()));
}

#[test]
fn try_match_tells_a_bad_pattern_apart() {
    assert_eq!(try_match("a+", "caab"), Some(true));
    assert_eq!(try_match("a+", "cb"), Some(false));
    assert_eq!(try_match("a(", "a("), None);
}

#[test]
fn policy_matches_pools_and_snapshots() {
    let config = ZfsBackupConfig {
        pool_regex: "rpool/.*".to_string(),
        incremental: ZfsBackupConfigEntry {
            snapshot_regex: "daily".to_string(),
            storage_class: StorageClass::StandardInfrequentAccess,
            expire_in_days: 40,
        },
        full: ZfsBackupConfigEntry {
            snapshot_regex: "monthly".to_string(),
            storage_class: StorageClass::DeepArchive,
            expire_in_days: 200,
        },
        bucket: "zfs-rpool".to_string(),
    };
    assert!(config.is_valid());
    assert!(config.matches_pool("rpool/home"));
    assert!(!config.matches_pool("tank"));
    assert!(config.incremental.matches_snapshot("rpool/home@1_daily"));
    assert!(!config.incremental.matches_snapshot("rpool/home@1_monthly"));
    assert!(config.full.matches_snapshot("rpool/home@1_monthly"));
}
