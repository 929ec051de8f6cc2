use xla_pjrt::memory::MemoryReport;
use xla_pjrt::MemoryStats;

#[test]
fn a_statistic_without_its_flag_is_missing_rather_than_zero() {
    let stats = MemoryReport::zeroed().stats();
    assert_eq!(stats, MemoryStats::default());
    assert_eq!(stats.bytes_in_use, 0);
    assert_eq!(stats.peak_bytes_in_use, None);
}

#[test]
fn each_statistic_lands_in_its_own_field() {
    let report = MemoryReport {
        bytes_in_use: 1,
        peak_bytes_in_use: 2,
        peak_bytes_in_use_is_set: true,
        largest_alloc_size: 3,
        largest_alloc_size_is_set: true,
        bytes_limit: 4,
        bytes_limit_is_set: true,
        largest_free_block_bytes: 5,
        largest_free_block_bytes_is_set: true,
        pool_bytes: 6,
        pool_bytes_is_set: true,
        peak_pool_bytes: 7,
        peak_pool_bytes_is_set: true,
    };
    assert_eq!(
        report.stats(),
        MemoryStats {
            bytes_in_use: 1,
            peak_bytes_in_use: Some(2),
            largest_alloc_size: Some(3),
            bytes_limit: Some(4),
            largest_free_block_bytes: Some(5),
            pool_bytes: Some(6),
            peak_pool_bytes: Some(7),
        }
    );
    let without = MemoryReport { bytes_limit_is_set: false, ..report };
    assert_eq!(without.stats().bytes_limit, None);
    assert_eq!(without.stats().pool_bytes, Some(6));
}

#[test]
fn a_statistic_that_is_zero_and_set_is_there() {
    let report = MemoryReport { pool_bytes_is_set: true, ..MemoryReport::zeroed() };
    assert_eq!(report.stats().pool_bytes, Some(0));
}

#[test]
fn a_pool_that_covers_its_peak_is_read_so() {
    let report = MemoryReport {
        peak_bytes_in_use: 48,
        peak_bytes_in_use_is_set: true,
        peak_pool_bytes: 64,
        peak_pool_bytes_is_set: true,
        ..MemoryReport::zeroed()
    };
    let stats = report.stats();
    assert_eq!((stats.peak_bytes_in_use, stats.peak_pool_bytes), (Some(48), Some(64)));
    assert!(stats.peak_pool_bytes >= stats.peak_bytes_in_use);
}
