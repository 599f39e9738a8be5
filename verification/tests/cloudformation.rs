use zfs_to_glacier::cloudformation::{
    create_for_bucket, generate_cloudformation, has_fitting_names, try_create_for_bucket,
    try_generate_cloudformation,
};
use zfs_to_glacier::config::{ZfsBackupConfig, ZfsBackupConfigEntry, ZfsBaseConfig};
use zfs_to_glacier::s3_utils::StorageClass;

fn policy(bucket: &str, full_days: i64, incremental_days: i64) -> ZfsBackupConfig {
    ZfsBackupConfig {
        pool_regex: "rpool/.*".to_string(),
        incremental: ZfsBackupConfigEntry {
            snapshot_regex: "daily".to_string(),
            storage_class: StorageClass::StandardInfrequentAccess,
            expire_in_days: incremental_days,
        },
        full: ZfsBackupConfigEntry {
            snapshot_regex: "monthly".to_string(),
            storage_class: StorageClass::DeepArchive,
            expire_in_days: full_days,
        },
        bucket: bucket.to_string(),
    }
}

const RESOURCE: &str = "  ZfsRpool:
    Type: 'AWS::S3::Bucket'
    Properties:
      BucketName: 'zfs-rpool'
      AccessControl: Private
      PublicAccessBlockConfiguration:
        BlockPublicAcls: true
        BlockPublicPolicy: true
        IgnorePublicAcls: true
        RestrictPublicBuckets: true
      LifecycleConfiguration:
        Rules:
          - Id: DeleteFull
            Prefix: 'full/'
            Status: Enabled
            ExpirationInDays: 200
          - Id: DeleteIncremental
            Prefix: 'incremental/'
            Status: Enabled
            ExpirationInDays: 40
          - Id: AbortIncompleteMultipartUpload
            Status: Enabled
            AbortIncompleteMultipartUpload:
              DaysAfterInitiation: 7
";

#[test]
fn bucket_resource_is_named_in_title_case() {
    assert_eq!(create_for_bucket(&policy("zfs-rpool", 200, 40)), RESOURCE);
    let other = create_for_bucket(&policy("my-backup-bucket", -1, 0));
    assert!(other.starts_with("  MyBackupBucket:\n"));
    assert!(other.contains("BucketName: 'my-backup-bucket'"));
    assert!(other.contains("ExpirationInDays: -1\n"));
    assert!(other.contains("ExpirationInDays: 0\n"));
}

#[test]
fn template_lists_buckets_and_grants() {
    let config = ZfsBaseConfig { configs: vec![policy("zfs-rpool", 200, 40)] };
    let template = generate_cloudformation(&config);
    let head = "AWSTemplateFormatVersion: '2010-09-09'\nDescription: ZFS backup config\nResources:\n";
    assert!(template.starts_with(head));
    assert_eq!(&template[head.len()..head.len() + RESOURCE.len()], RESOURCE);
    assert!(template[head.len() + RESOURCE.len()..].starts_with("  CustomUser:\n"));
    assert!(template.ends_with(
        "                Resource:
                  - !Join ['', ['arn:aws:s3:::', 'zfs-rpool' ]]
                  - !Join ['', ['arn:aws:s3:::', 'zfs-rpool/*' ]]
"
    ));
}

#[test]
fn template_of_no_bucket_has_head_and_user() {
    let template = generate_cloudformation(&ZfsBaseConfig { configs: vec![] });
    assert!(template.starts_with("AWSTemplateFormatVersion: '2010-09-09'\n"));
    assert!(template.contains("Resources:\n  CustomUser:\n"));
    assert!(template.ends_with("                Resource:\n"));
}

#[test]
fn template_takes_buckets_in_order() {
    let config =
        ZfsBaseConfig { configs: vec![policy("first-one", 1, 2), policy("second", 3, 4)] };
    let template = generate_cloudformation(&config);
    let first = template.find("  FirstOne:").unwrap();
    let second = template.find("  Second:").unwrap();
    assert!(first < second);
    assert!(template.ends_with(
        "                  - !Join ['', ['arn:aws:s3:::', 'first-one' ]]
                  - !Join ['', ['arn:aws:s3:::', 'first-one/*' ]]
                  - !Join ['', ['arn:aws:s3:::', 'second' ]]
                  - !Join ['', ['arn:aws:s3:::', 'second/*' ]]
"
    ));
}

#[test]
fn bucket_names_have_a_longest_length() {
    let longest = "b".repeat(63);
    let too_long = "b".repeat(64);
    assert_eq!(
        try_create_for_bucket(&policy(&longest, 200, 40)),
        Some(create_for_bucket(&policy(&longest, 200, 40)))
    );
    assert_eq!(try_create_for_bucket(&policy("zfs-rpool", 200, 40)), Some(RESOURCE.to_string()));
    assert_eq!(try_create_for_bucket(&policy(&too_long, 200, 40)), None);
    assert_eq!(try_create_for_bucket(&policy(&"(".repeat(100000), 200, 40)), None);
}

#[test]
fn template_needs_fitting_names() {
    let fitting = ZfsBaseConfig { configs: vec![policy("first-one", 1, 2), policy("second", 3, 4)] };
    assert!(has_fitting_names(&fitting));
    assert_eq!(try_generate_cloudformation(&fitting), Some(generate_cloudformation(&fitting)));
    let unfit =
        ZfsBaseConfig { configs: vec![policy("first-one", 1, 2), policy(&"x".repeat(64), 3, 4)] };
    assert!(!has_fitting_names(&unfit));
    assert_eq!(try_generate_cloudformation(&unfit), None);
    assert!(has_fitting_names(&ZfsBaseConfig { configs: vec![] }));
}

#[test]
fn name_length_counts_characters() {
    let name = "\u{e9}".repeat(63);
    assert!(try_create_for_bucket(&policy(&name, 1, 2)).is_some());
}
