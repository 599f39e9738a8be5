use zfs_to_glacier::remote_catalog::{get_all_files, ListPage, ListRequest};
use zfs_to_glacier::s3_utils::S3Key;

fn object(key: &str, etag: &str) -> S3Key {
    S3Key { key: key.to_string(), etag: etag.to_string() }
}

#[test]
fn listing_follows_truncated_pages() {
    let (mut listing, first) = get_all_files("bucket");
    assert_eq!(first, ListRequest { bucket: "bucket".to_string(), continuation_token: None });
    let next = listing.on_page(ListPage {
        contents: Some(vec![object("full/a", "1"), object("full/b", "2")]),
        next_continuation_token: Some("marker-1".to_string()),
        is_truncated: Some(true),
    });
    assert_eq!(
        next,
        Some(ListRequest {
            bucket: "bucket".to_string(),
            continuation_token: Some("marker-1".to_string())
        })
    );
    let next = listing.on_page(ListPage {
        contents: Some(vec![object("full/b", "2"), object("incremental/c", "3")]),
        next_continuation_token: None,
        is_truncated: Some(false),
    });
    assert_eq!(next, None);
    assert_eq!(
        listing.into_files(),
        vec![object("full/a", "1"), object("full/b", "2"), object("incremental/c", "3")]
    );
}

#[test]
fn listing_ends_where_the_store_does_not_say() {
    let (mut listing, _) = get_all_files("bucket");
    let next = listing.on_page(ListPage {
        contents: None,
        next_continuation_token: Some("marker".to_string()),
        is_truncated: None,
    });
    assert_eq!(next, None);
    assert_eq!(listing.into_files(), vec![]);
}

#[test]
fn listing_hands_on_a_missing_marker() {
    let (mut listing, _) = get_all_files("b");
    let next = listing.on_page(ListPage {
        contents: Some(vec![]),
        next_continuation_token: None,
        is_truncated: Some(true),
    });
    assert_eq!(next, Some(ListRequest { bucket: "b".to_string(), continuation_token: None }));
}

#[test]
fn objects_differ_by_key_or_tag() {
    let (mut listing, _) = get_all_files("b");
    listing.on_page(ListPage {
        contents: Some(vec![object("k", "1"), object("k", "2"), object("k", "1"), object("j", "1")]),
        next_continuation_token: None,
        is_truncated: None,
    });
    assert_eq!(listing.into_files(), vec![object("k", "1"), object("k", "2"), object("j", "1")]);
}
