//! Hardware inventory record and the concurrency estimate derived from
//! it. The inventory itself is collected by the caller at startup; the
//! estimate is computed here.

use vstd::prelude::*;

verus! {

/// Hardware information collected once at startup.
#[derive(Debug, Clone)]
pub struct HardwareInfo {
    pub cpu_cores: u32,
    pub total_memory_mb: u64,
    pub os_info: String,
    pub fd_limit: u64,
    pub estimated_max_concurrency: u64,
}

/// The concurrency estimate: the least of the file-descriptor headroom,
/// the memory allowance and the CPU allowance.
pub open spec fn spec_estimated_max_concurrency(
    fd_limit: u64,
    total_memory_mb: u64,
    cpu_cores: u32,
) -> u64 {
    let by_fd = if fd_limit >= 100 {
        (fd_limit - 100) as u64
    } else {
        0u64
    };
    let by_ram = if total_memory_mb * 40 > u64::MAX {
        u64::MAX
    } else {
        (total_memory_mb * 40) as u64
    };
    let by_cpu = (cpu_cores * 2000) as u64;
    let m = if by_ram <= by_cpu {
        by_ram
    } else {
        by_cpu
    };
    if by_fd <= m {
        by_fd
    } else {
        m
    }
}

/// Estimates how many concurrent connections the node can carry:
/// `min(fd_limit - 100, total_memory_mb * 40, cpu_cores * 2000)`, each
/// term saturating.
pub fn estimate_max_concurrency(fd_limit: u64, total_memory_mb: u64, cpu_cores: u32) -> (r: u64)
    ensures
        r == spec_estimated_max_concurrency(fd_limit, total_memory_mb, cpu_cores),
{
    let by_fd = fd_limit.saturating_sub(100);
    let by_ram = match total_memory_mb.checked_mul(40) {
        Some(v) => v,
        None => u64::MAX,
    };
    let by_cpu = (cpu_cores as u64) * 2000;
    let m = if by_ram <= by_cpu {
        by_ram
    } else {
        by_cpu
    };
    if by_fd <= m {
        by_fd
    } else {
        m
    }
}

impl HardwareInfo {
    /// Builds the record from the collected values, deriving the
    /// concurrency estimate.
    pub fn new(cpu_cores: u32, total_memory_mb: u64, os_info: String, fd_limit: u64) -> (r:
        HardwareInfo)
        ensures
            r.cpu_cores == cpu_cores,
            r.total_memory_mb == total_memory_mb,
            r.os_info@ == os_info@,
            r.fd_limit == fd_limit,
            r.estimated_max_concurrency == spec_estimated_max_concurrency(
                fd_limit,
                total_memory_mb,
                cpu_cores,
            ),
    {
        let estimated_max_concurrency = estimate_max_concurrency(
            fd_limit,
            total_memory_mb,
            cpu_cores,
        );
        HardwareInfo { cpu_cores, total_memory_mb, os_info, fd_limit, estimated_max_concurrency }
    }
}

} // verus!
