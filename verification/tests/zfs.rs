use zfs_to_glacier::zfs_utils::{
    get_local_zfs_state, parse_snapshot, parse_snapshots, select_snapshots, LocalZfsState,
    ZfsPool, ZfsSnapshot,
};

fn snapshot(name: &str, creation: i64) -> ZfsSnapshot {
    ZfsSnapshot { name: name.to_string(), creation }
}

fn lines(text: &[&str]) -> Vec<String> {
    text.iter().map(|line| line.to_string()).collect()
}

#[test]
fn snapshot_line_holds_name_and_creation() {
    assert_eq!(parse_snapshot("rpool/home@1\t1616161616"), Some(snapshot("rpool/home@1", 1616161616)));
    assert_eq!(parse_snapshot("a@b\t-5\tmore"), Some(snapshot("a@b", -5)));
    assert_eq!(parse_snapshot("\t0"), Some(snapshot("", 0)));
    assert_eq!(parse_snapshot("rpool/home@1"), None);
    assert_eq!(parse_snapshot("rpool/home@1\t"), None);
    assert_eq!(parse_snapshot("rpool/home@1\t12x"), None);
    assert_eq!(parse_snapshot("rpool/home@1 1616161616"), None);
    assert_eq!(parse_snapshot(""), None);
}

#[test]
fn listing_is_read_line_by_line() {
    assert_eq!(
        parse_snapshots(&lines(&["a@1\t10", "b@1\t20"])),
        Some(vec![snapshot("a@1", 10), snapshot("b@1", 20)])
    );
    assert_eq!(parse_snapshots(&lines(&[])), Some(vec![]));
    assert_eq!(parse_snapshots(&lines(&["a@1\t10", "broken"])), None);
}

#[test]
fn snapshots_belong_to_the_pool_before_the_at() {
    let all = vec![
        snapshot("rpool@1", 1),
        snapshot("rpool/home@1", 2),
        snapshot("rpool@2", 3),
        snapshot("rpool2@1", 4),
    ];
    assert_eq!(select_snapshots(&all, "rpool"), vec![snapshot("rpool@1", 1), snapshot("rpool@2", 3)]);
    assert_eq!(select_snapshots(&all, "rpool/home"), vec![snapshot("rpool/home@1", 2)]);
    assert_eq!(select_snapshots(&all, "rpool/ho"), vec![]);
    assert_eq!(select_snapshots(&all, ""), vec![]);
}

#[test]
fn inventory_groups_snapshots_by_pool() {
    let state = get_local_zfs_state(
        lines(&["backup_pool", "backup_pool/backup", "backup_pool"]),
        &lines(&[
            "backup_pool/backup@1_yearly\t100",
            "backup_pool@1_yearly\t150",
            "backup_pool/backup@2_monthly\t200",
        ]),
    )
    .unwrap();
    assert_eq!(
        state.pools(),
        &vec![
            ZfsPool {
                name: "backup_pool".to_string(),
                snapshots: vec![snapshot("backup_pool@1_yearly", 150)],
            },
            ZfsPool {
                name: "backup_pool/backup".to_string(),
                snapshots: vec![
                    snapshot("backup_pool/backup@1_yearly", 100),
                    snapshot("backup_pool/backup@2_monthly", 200),
                ],
            },
        ]
    );
}

#[test]
fn inventory_needs_every_line_to_be_a_snapshot() {
    assert!(get_local_zfs_state(lines(&["p"]), &lines(&["p@1\tyesterday"])).is_none());
    assert_eq!(get_local_zfs_state(lines(&[]), &lines(&[])), Some(LocalZfsState::new()));
}

#[test]
fn insert_replaces_a_pool_of_the_same_name() {
    let mut state = LocalZfsState::new();
    state.insert("a".to_string(), vec![snapshot("a@1", 1)]);
    state.insert("b".to_string(), vec![]);
    state.insert("a".to_string(), vec![snapshot("a@2", 2)]);
    assert_eq!(
        state.pools(),
        &vec![
            ZfsPool { name: "a".to_string(), snapshots: vec![snapshot("a@2", 2)] },
            ZfsPool { name: "b".to_string(), snapshots: vec![] },
        ]
    );
}
