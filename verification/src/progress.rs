//! Restore-progress accounting: flattening per-package install and volume
//! counters into one overall recovery status.

use vstd::prelude::*;

verus! {

/// Per-package installation counters.
pub struct InstallProgress {
    /// The package archive's size, when known.
    pub size: Option<u64>,
    pub downloaded: u64,
    pub validated: u64,
    pub unpacked: u64,
}

/// The overall recovery status reported to clients.
pub struct RecoveryStatus {
    pub total_bytes: u64,
    pub bytes_transferred: u64,
    pub complete: bool,
}

/// Restore progress: per-package install counters and source and target
/// volume sizes, keyed by package id.
pub struct ProgressInfo {
    pub package_installs: Vec<(String, InstallProgress)>,
    pub src_volume_size: Vec<(String, u64)>,
    pub target_volume_size: Vec<(String, u64)>,
}

/// Addition saturating at the largest reportable byte count.
pub open spec fn sat_add(a: int, b: int) -> int {
    if a + b > 0xFFFF_FFFF_FFFF_FFFF {
        0xFFFF_FFFF_FFFF_FFFF
    } else {
        a + b
    }
}

/// The expected total over the first `n` package installs: each archive is
/// budgeted at its size scaled by eleven fifths, for download, validation
/// overhead and unpacking.
pub open spec fn install_total_upto(s: Seq<(String, InstallProgress)>, n: int) -> int
    decreases n,
    when 0 <= n <= s.len()
{
    if n <= 0 {
        0
    } else {
        sat_add(
            install_total_upto(s, n - 1),
            ((match s[n - 1].1.size {
                Some(sz) => sz,
                None => 0,
            }) * 11) / 5,
        )
    }
}

/// The bytes transferred over the first `n` package installs: bytes
/// downloaded, a fifth of the bytes validated, and bytes unpacked.
pub open spec fn install_done_upto(s: Seq<(String, InstallProgress)>, n: int) -> int
    decreases n,
    when 0 <= n <= s.len()
{
    if n <= 0 {
        0
    } else {
        sat_add(
            install_done_upto(s, n - 1),
            s[n - 1].1.downloaded + s[n - 1].1.validated / 5 + s[n - 1].1.unpacked,
        )
    }
}

/// The sum of the first `n` recorded volume sizes.
pub open spec fn sizes_upto(s: Seq<(String, u64)>, n: int) -> int
    decreases n,
    when 0 <= n <= s.len()
{
    if n <= 0 {
        0
    } else {
        sat_add(sizes_upto(s, n - 1), s[n - 1].1 as int)
    }
}

impl ProgressInfo {
    /// Flattens the per-package counters into one recovery status: the
    /// expected total is the scaled archive sizes plus the source volume
    /// sizes, the transferred count is capped by the total, and the
    /// recovery is not reported complete.
    #[verifier::loop_isolation(false)]
    pub fn flatten(&self) -> (r: RecoveryStatus)
        ensures
            r.total_bytes as int == sat_add(
                install_total_upto(self.package_installs@, self.package_installs@.len() as int),
                sizes_upto(self.src_volume_size@, self.src_volume_size@.len() as int),
            ),
            r.bytes_transferred as int == if sat_add(
                install_done_upto(self.package_installs@, self.package_installs@.len() as int),
                sizes_upto(self.target_volume_size@, self.target_volume_size@.len() as int),
            ) > r.total_bytes as int {
                r.total_bytes as int
            } else {
                sat_add(
                    install_done_upto(self.package_installs@, self.package_installs@.len() as int),
                    sizes_upto(self.target_volume_size@, self.target_volume_size@.len() as int),
                )
            },
            !r.complete,
    {
        let cap: u128 = 0xFFFF_FFFF_FFFF_FFFFu128;
        let mut total_bytes: u128 = 0;
        let mut bytes_transferred: u128 = 0;
        let mut i: usize = 0;
        while i < self.package_installs.len()
            invariant
                0 <= i <= self.package_installs@.len(),
                total_bytes <= cap,
                bytes_transferred <= cap,
                total_bytes as int == install_total_upto(self.package_installs@, i as int),
                bytes_transferred as int == install_done_upto(self.package_installs@, i as int),
            decreases self.package_installs@.len() - i,
        {
            let p = &self.package_installs[i].1;
            let sz: u64 = match p.size {
                Some(s) => s,
                None => 0,
            };
            let term: u128 = (sz as u128) * 11 / 5;
            total_bytes = total_bytes + term;
            if total_bytes > cap {
                total_bytes = cap;
            }
            let done: u128 = (p.downloaded as u128) + ((p.validated / 5) as u128) + (
            p.unpacked as u128);
            bytes_transferred = bytes_transferred + done;
            if bytes_transferred > cap {
                bytes_transferred = cap;
            }
            i = i + 1;
        }
        let mut j: usize = 0;
        while j < self.src_volume_size.len()
            invariant
                0 <= j <= self.src_volume_size@.len(),
                total_bytes <= cap,
                total_bytes as int == sat_add(
                    install_total_upto(self.package_installs@, self.package_installs@.len() as int),
                    sizes_upto(self.src_volume_size@, j as int),
                ),
            decreases self.src_volume_size@.len() - j,
        {
            total_bytes = total_bytes + (self.src_volume_size[j].1 as u128);
            if total_bytes > cap {
                total_bytes = cap;
            }
            j = j + 1;
        }
        let mut l: usize = 0;
        while l < self.target_volume_size.len()
            invariant
                0 <= l <= self.target_volume_size@.len(),
                bytes_transferred <= cap,
                bytes_transferred as int == sat_add(
                    install_done_upto(self.package_installs@, self.package_installs@.len() as int),
                    sizes_upto(self.target_volume_size@, l as int),
                ),
            decreases self.target_volume_size@.len() - l,
        {
            bytes_transferred = bytes_transferred + (self.target_volume_size[l].1 as u128);
            if bytes_transferred > cap {
                bytes_transferred = cap;
            }
            l = l + 1;
        }
        if bytes_transferred > total_bytes {
            bytes_transferred = total_bytes;
        }
        RecoveryStatus {
            total_bytes: total_bytes as u64,
            bytes_transferred: bytes_transferred as u64,
            complete: false,
        }
    }
}

} // verus!
