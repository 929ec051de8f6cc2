//! The statistics that a device's allocator keeps.

use vstd::prelude::*;

verus! {

/// What a client's device allocator holds and has held.
///
/// Only `bytes_in_use` is required of a plugin; each of the rest arrives with
/// a flag beside it, so an allocator that does not keep one leaves it `None`
/// rather than reporting zero.
///
/// The pair worth reading together is `peak_bytes_in_use` against
/// `peak_pool_bytes`: the first is the live bytes at the high-water mark, the
/// second what the allocator held from the driver to place them in. Their
/// difference is what an arena costs above its data.
#[derive(Clone, Copy, Debug, Default, PartialEq, Eq)]
pub struct MemoryStats {
    pub bytes_in_use: i64,
    pub peak_bytes_in_use: Option<i64>,
    pub largest_alloc_size: Option<i64>,
    pub bytes_limit: Option<i64>,
    pub largest_free_block_bytes: Option<i64>,
    pub pool_bytes: Option<i64>,
    pub peak_pool_bytes: Option<i64>,
}

/// The statistics as the plugin reports them, each with its flag.
#[derive(Clone, Copy, Debug, PartialEq, Eq)]
pub struct MemoryReport {
    pub bytes_in_use: i64,
    pub peak_bytes_in_use: i64,
    pub peak_bytes_in_use_is_set: bool,
    pub largest_alloc_size: i64,
    pub largest_alloc_size_is_set: bool,
    pub bytes_limit: i64,
    pub bytes_limit_is_set: bool,
    pub largest_free_block_bytes: i64,
    pub largest_free_block_bytes_is_set: bool,
    pub pool_bytes: i64,
    pub pool_bytes_is_set: bool,
    pub peak_pool_bytes: i64,
    pub peak_pool_bytes_is_set: bool,
}

/// A statistic that is there only if its flag is set.
pub open spec fn if_set(value: i64, is_set: bool) -> Option<i64> {
    if is_set {
        Some(value)
    } else {
        None
    }
}

impl MemoryReport {
    /// The report in which nothing was filled.
    pub open spec fn all_zero() -> MemoryReport {
        MemoryReport {
            bytes_in_use: 0,
            peak_bytes_in_use: 0,
            peak_bytes_in_use_is_set: false,
            largest_alloc_size: 0,
            largest_alloc_size_is_set: false,
            bytes_limit: 0,
            bytes_limit_is_set: false,
            largest_free_block_bytes: 0,
            largest_free_block_bytes_is_set: false,
            pool_bytes: 0,
            pool_bytes_is_set: false,
            peak_pool_bytes: 0,
            peak_pool_bytes_is_set: false,
        }
    }

    /// The report in which nothing was filled.
    pub fn zeroed() -> (report: MemoryReport)
        ensures
            report == MemoryReport::all_zero(),
            report.bytes_in_use == 0,
            report.peak_bytes_in_use == 0 && !report.peak_bytes_in_use_is_set,
            report.largest_alloc_size == 0 && !report.largest_alloc_size_is_set,
            report.bytes_limit == 0 && !report.bytes_limit_is_set,
            report.largest_free_block_bytes == 0 && !report.largest_free_block_bytes_is_set,
            report.pool_bytes == 0 && !report.pool_bytes_is_set,
            report.peak_pool_bytes == 0 && !report.peak_pool_bytes_is_set,
    {
        MemoryReport {
            bytes_in_use: 0,
            peak_bytes_in_use: 0,
            peak_bytes_in_use_is_set: false,
            largest_alloc_size: 0,
            largest_alloc_size_is_set: false,
            bytes_limit: 0,
            bytes_limit_is_set: false,
            largest_free_block_bytes: 0,
            largest_free_block_bytes_is_set: false,
            pool_bytes: 0,
            pool_bytes_is_set: false,
            peak_pool_bytes: 0,
            peak_pool_bytes_is_set: false,
        }
    }

    /// What the report says: each statistic whose flag is set.
    pub open spec fn said(self) -> MemoryStats {
        MemoryStats {
            bytes_in_use: self.bytes_in_use,
            peak_bytes_in_use: if_set(self.peak_bytes_in_use, self.peak_bytes_in_use_is_set),
            largest_alloc_size: if_set(self.largest_alloc_size, self.largest_alloc_size_is_set),
            bytes_limit: if_set(self.bytes_limit, self.bytes_limit_is_set),
            largest_free_block_bytes: if_set(
                self.largest_free_block_bytes,
                self.largest_free_block_bytes_is_set,
            ),
            pool_bytes: if_set(self.pool_bytes, self.pool_bytes_is_set),
            peak_pool_bytes: if_set(self.peak_pool_bytes, self.peak_pool_bytes_is_set),
        }
    }

    /// The statistics have each value that was reported with its flag set, in
    /// the field of the same name, and none that was not.
    pub open spec fn told_by(self, stats: MemoryStats) -> bool {
        &&& stats.bytes_in_use == self.bytes_in_use
        &&& stats.peak_bytes_in_use is Some <==> self.peak_bytes_in_use_is_set
        &&& stats.peak_bytes_in_use matches Some(value) ==> value == self.peak_bytes_in_use
        &&& stats.largest_alloc_size is Some <==> self.largest_alloc_size_is_set
        &&& stats.largest_alloc_size matches Some(value) ==> value == self.largest_alloc_size
        &&& stats.bytes_limit is Some <==> self.bytes_limit_is_set
        &&& stats.bytes_limit matches Some(value) ==> value == self.bytes_limit
        &&& stats.largest_free_block_bytes is Some <==> self.largest_free_block_bytes_is_set
        &&& stats.largest_free_block_bytes matches Some(value) ==> value
            == self.largest_free_block_bytes
        &&& stats.pool_bytes is Some <==> self.pool_bytes_is_set
        &&& stats.pool_bytes matches Some(value) ==> value == self.pool_bytes
        &&& stats.peak_pool_bytes is Some <==> self.peak_pool_bytes_is_set
        &&& stats.peak_pool_bytes matches Some(value) ==> value == self.peak_pool_bytes
    }

    /// Reads the report.
    pub fn stats(&self) -> (stats: MemoryStats)
        ensures
            stats == self.said(),
            self.told_by(stats),
    {
        MemoryStats {
            bytes_in_use: self.bytes_in_use,
            peak_bytes_in_use: set(self.peak_bytes_in_use, self.peak_bytes_in_use_is_set),
            largest_alloc_size: set(self.largest_alloc_size, self.largest_alloc_size_is_set),
            bytes_limit: set(self.bytes_limit, self.bytes_limit_is_set),
            largest_free_block_bytes: set(
                self.largest_free_block_bytes,
                self.largest_free_block_bytes_is_set,
            ),
            pool_bytes: set(self.pool_bytes, self.pool_bytes_is_set),
            peak_pool_bytes: set(self.peak_pool_bytes, self.peak_pool_bytes_is_set),
        }
    }
}

/// Each statistic that is read is there exactly if its own flag is set, and
/// then is the value that was reported under its own name, whatever the others
/// are.
pub proof fn law_each_statistic_is_as_reported(report: MemoryReport)
    ensures
        report.said().bytes_in_use == report.bytes_in_use,
        report.said().peak_bytes_in_use is Some <==> report.peak_bytes_in_use_is_set,
        report.said().peak_bytes_in_use matches Some(value) ==> value
            == report.peak_bytes_in_use,
        report.said().largest_alloc_size is Some <==> report.largest_alloc_size_is_set,
        report.said().largest_alloc_size matches Some(value) ==> value
            == report.largest_alloc_size,
        report.said().bytes_limit is Some <==> report.bytes_limit_is_set,
        report.said().bytes_limit matches Some(value) ==> value == report.bytes_limit,
        report.said().largest_free_block_bytes is Some
            <==> report.largest_free_block_bytes_is_set,
        report.said().largest_free_block_bytes matches Some(value) ==> value
            == report.largest_free_block_bytes,
        report.said().pool_bytes is Some <==> report.pool_bytes_is_set,
        report.said().pool_bytes matches Some(value) ==> value == report.pool_bytes,
        report.said().peak_pool_bytes is Some <==> report.peak_pool_bytes_is_set,
        report.said().peak_pool_bytes matches Some(value) ==> value == report.peak_pool_bytes,
        report.told_by(report.said()),
{
}

/// A reading tells the report: two reports that are read alike agree on every
/// flag and on every value whose flag is set.
pub proof fn law_statistics_tell_the_report(one: MemoryReport, two: MemoryReport)
    requires
        one.said() == two.said(),
    ensures
        one.bytes_in_use == two.bytes_in_use,
        one.peak_bytes_in_use_is_set == two.peak_bytes_in_use_is_set,
        one.peak_bytes_in_use_is_set ==> one.peak_bytes_in_use == two.peak_bytes_in_use,
        one.largest_alloc_size_is_set == two.largest_alloc_size_is_set,
        one.largest_alloc_size_is_set ==> one.largest_alloc_size == two.largest_alloc_size,
        one.bytes_limit_is_set == two.bytes_limit_is_set,
        one.bytes_limit_is_set ==> one.bytes_limit == two.bytes_limit,
        one.largest_free_block_bytes_is_set == two.largest_free_block_bytes_is_set,
        one.largest_free_block_bytes_is_set ==> one.largest_free_block_bytes
            == two.largest_free_block_bytes,
        one.pool_bytes_is_set == two.pool_bytes_is_set,
        one.pool_bytes_is_set ==> one.pool_bytes == two.pool_bytes,
        one.peak_pool_bytes_is_set == two.peak_pool_bytes_is_set,
        one.peak_pool_bytes_is_set ==> one.peak_pool_bytes == two.peak_pool_bytes,
{
    law_each_statistic_is_as_reported(one);
    law_each_statistic_is_as_reported(two);
}

/// The two peaks are read each as it was reported, so where the plugin reports
/// a pool that covers what was in it, so do the statistics.
pub proof fn law_peaks_are_as_reported(report: MemoryReport)
    ensures
        report.said().peak_bytes_in_use is Some <==> report.peak_bytes_in_use_is_set,
        report.said().peak_pool_bytes is Some <==> report.peak_pool_bytes_is_set,
        report.said().peak_bytes_in_use matches Some(peak) ==> peak == report.peak_bytes_in_use,
        report.said().peak_pool_bytes matches Some(pool) ==> pool == report.peak_pool_bytes,
        report.peak_bytes_in_use_is_set && report.peak_pool_bytes_is_set
            && report.peak_bytes_in_use <= report.peak_pool_bytes
            ==> report.said().peak_bytes_in_use->0 <= report.said().peak_pool_bytes->0,
{
}

/// The value, if its flag is set.
fn set(value: i64, is_set: bool) -> (statistic: Option<i64>)
    ensures
        statistic == if_set(value, is_set),
{
    if is_set {
        Some(value)
    } else {
        None
    }
}

impl DeepView for MemoryStats {
    type V = MemoryStats;

    open spec fn deep_view(&self) -> MemoryStats {
        *self
    }
}

} // verus!
