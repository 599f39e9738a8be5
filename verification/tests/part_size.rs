use zfs_to_glacier::part_size::select_buffer_size;

#[test]
fn zero_estimate_gives_eight_mib() {
    assert_eq!(select_buffer_size(0), 8 * 1024 * 1024);
}
