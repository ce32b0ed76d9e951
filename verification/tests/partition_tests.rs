use archivur::partition::{
    partition, PartitionError, StoreLimits, DEFAULT_PART_SIZE, S3_MAX_PART_COUNT,
    S3_MAX_PART_SIZE, S3_MIN_PART_SIZE,
};

fn small_limits() -> StoreLimits {
    StoreLimits::new(4, 16, 3).unwrap()
}

fn sizes(archive: &[u8], limits: &StoreLimits, target: u64) -> Vec<usize> {
    partition(archive, limits, target).unwrap().iter().map(|p| p.bytes.len()).collect()
}

#[test]
fn partition_cuts_into_equal_parts_and_remainder() {
    let archive: Vec<u8> = (0u8..10).collect();
    let parts = partition(&archive, &small_limits(), 4).unwrap();
    assert_eq!(parts.len(), 3);
    assert_eq!(parts[0].part_number, 1);
    assert_eq!(parts[0].bytes, vec![0, 1, 2, 3]);
    assert_eq!(parts[1].part_number, 2);
    assert_eq!(parts[1].bytes, vec![4, 5, 6, 7]);
    assert_eq!(parts[2].part_number, 3);
    assert_eq!(parts[2].bytes, vec![8, 9]);
}

#[test]
fn partition_of_exact_multiple_has_no_short_part() {
    let archive: Vec<u8> = (0u8..12).collect();
    assert_eq!(sizes(&archive, &small_limits(), 4), vec![4, 4, 4]);
    assert_eq!(sizes(&archive, &small_limits(), 6), vec![6, 6]);
    assert_eq!(sizes(&archive, &small_limits(), 12), vec![12]);
}

#[test]
fn partition_of_short_archive_is_one_short_part() {
    let archive: Vec<u8> = vec![7, 8, 9];
    let parts = partition(&archive, &small_limits(), 5).unwrap();
    assert_eq!(parts.len(), 1);
    assert_eq!(parts[0].part_number, 1);
    assert_eq!(parts[0].bytes, vec![7, 8, 9]);
}

#[test]
fn partition_of_empty_archive_has_no_part() {
    let archive: Vec<u8> = Vec::new();
    assert!(partition(&archive, &small_limits(), 4).unwrap().is_empty());
}

#[test]
fn partition_grows_the_part_size_to_keep_the_count() {
    // 13 bytes in parts of 4 would be 4 parts; 3 are allowed, so parts of 5.
    let archive: Vec<u8> = (0u8..13).collect();
    let parts = partition(&archive, &small_limits(), 4).unwrap();
    assert_eq!(parts.len(), 3);
    assert_eq!(parts[0].bytes, vec![0, 1, 2, 3, 4]);
    assert_eq!(parts[1].bytes, vec![5, 6, 7, 8, 9]);
    assert_eq!(parts[2].bytes, vec![10, 11, 12]);
    assert_eq!(parts[2].part_number, 3);
}

#[test]
fn partition_joined_is_the_archive() {
    let archive: Vec<u8> = (0u8..=200).collect();
    let limits = StoreLimits::new(1, 1000, 7).unwrap();
    for target in 1u64..60 {
        let parts = partition(&archive, &limits, target).unwrap();
        assert!(parts.len() <= 7);
        let joined: Vec<u8> = parts.iter().flat_map(|p| p.bytes.iter().copied()).collect();
        assert_eq!(joined, archive);
        for (i, p) in parts.iter().enumerate() {
            assert_eq!(p.part_number as usize, i + 1);
            if i + 1 < parts.len() {
                assert_eq!(p.bytes.len(), parts[0].bytes.len());
            } else {
                assert!(!p.bytes.is_empty() && p.bytes.len() <= parts[0].bytes.len());
            }
        }
    }
}

#[test]
fn partition_is_deterministic() {
    let archive: Vec<u8> = (0u8..100).collect();
    let limits = StoreLimits::new(1, 1000, 7).unwrap();
    let first = partition(&archive, &limits, 9).unwrap();
    let second = partition(&archive, &limits, 9).unwrap();
    assert_eq!(first.len(), second.len());
    for (a, b) in first.iter().zip(second.iter()) {
        assert_eq!(a.part_number, b.part_number);
        assert_eq!(a.bytes, b.bytes);
    }
}

#[test]
fn partition_rejects_small_target() {
    let archive: Vec<u8> = vec![1, 2, 3];
    assert_eq!(
        partition(&archive, &small_limits(), 3).unwrap_err(),
        PartitionError::PartSizeTooSmall
    );
}

#[test]
fn partition_rejects_large_target() {
    let archive: Vec<u8> = vec![1, 2, 3];
    assert_eq!(
        partition(&archive, &small_limits(), 17).unwrap_err(),
        PartitionError::PartSizeTooLarge
    );
}

#[test]
fn partition_rejects_archive_beyond_the_store() {
    // At most 3 parts of at most 16 bytes: 48 bytes fit, 49 do not.
    let fits: Vec<u8> = vec![0; 48];
    assert_eq!(sizes(&fits, &small_limits(), 4), vec![16, 16, 16]);
    let too_large: Vec<u8> = vec![0; 49];
    assert_eq!(
        partition(&too_large, &small_limits(), 4).unwrap_err(),
        PartitionError::ArchiveTooLarge
    );
}

#[test]
fn limits_refuse_nonsense() {
    assert!(StoreLimits::new(0, 16, 3).is_none());
    assert!(StoreLimits::new(17, 16, 3).is_none());
    assert!(StoreLimits::new(4, 16, 0).is_none());
    assert!(StoreLimits::new(16, 16, 1).is_some());
    assert!(!StoreLimits { min_part_size: 0, max_part_size: 1, max_part_count: 1 }.is_wf());
    assert!(StoreLimits::s3().is_wf());
}

#[test]
fn s3_limits_are_those_of_the_store() {
    let limits = StoreLimits::s3();
    assert_eq!(limits.min_part_size, 5 * 1024 * 1024);
    assert_eq!(limits.max_part_size, 5 * 1024 * 1024 * 1024);
    assert_eq!(limits.max_part_count, 10_000);
    assert_eq!(S3_MIN_PART_SIZE, 5_242_880);
    assert_eq!(S3_MAX_PART_SIZE, 5_368_709_120);
    assert_eq!(S3_MAX_PART_COUNT, 10_000);
    assert_eq!(DEFAULT_PART_SIZE, 6_000_000);
    assert!(limits.check_part_size(DEFAULT_PART_SIZE).is_ok());
}

#[test]
fn check_part_size_names_the_bound_that_is_broken() {
    let limits = StoreLimits::s3();
    assert_eq!(limits.check_part_size(5_242_879), Err(PartitionError::PartSizeTooSmall));
    assert_eq!(limits.check_part_size(5_242_880), Ok(()));
    assert_eq!(limits.check_part_size(5_368_709_120), Ok(()));
    assert_eq!(limits.check_part_size(5_368_709_121), Err(PartitionError::PartSizeTooLarge));
}

#[test]
fn effective_part_size_is_the_target_while_the_count_allows() {
    let limits = StoreLimits::s3();
    assert_eq!(limits.effective_part_size(0, 6_000_000), Ok(6_000_000));
    assert_eq!(limits.effective_part_size(1, 6_000_000), Ok(6_000_000));
    // 10,000 parts of 6,000,000 bytes
    assert_eq!(limits.effective_part_size(60_000_000_000, 6_000_000), Ok(6_000_000));
}

#[test]
fn effective_part_size_grows_when_the_count_would_be_exceeded() {
    let limits = StoreLimits::s3();
    // one byte more needs 10,001 parts of 6,000,000 bytes
    assert_eq!(limits.effective_part_size(60_000_000_001, 6_000_000), Ok(6_000_001));
    assert_eq!(limits.effective_part_size(100_000_000_000, 6_000_000), Ok(10_000_000));
    // the largest object that 10,000 parts of 5 GiB hold
    assert_eq!(
        limits.effective_part_size(53_687_091_200_000, 6_000_000),
        Ok(5_368_709_120)
    );
    assert_eq!(
        limits.effective_part_size(53_687_091_200_001, 6_000_000),
        Err(PartitionError::ArchiveTooLarge)
    );
    assert_eq!(
        limits.effective_part_size(u64::MAX, 6_000_000),
        Err(PartitionError::ArchiveTooLarge)
    );
}

#[test]
fn effective_part_size_refuses_a_bad_target_first() {
    let limits = StoreLimits::s3();
    assert_eq!(limits.effective_part_size(u64::MAX, 1), Err(PartitionError::PartSizeTooSmall));
    assert_eq!(
        limits.effective_part_size(10, u64::MAX),
        Err(PartitionError::PartSizeTooLarge)
    );
}
