//! Behavior of the progress accounting, mount bookkeeping, and the health
//! check merge.

use appmgr::progress::{ProgressInfo, InstallProgress};
use appmgr::mount::{MountGuard, tmp_mountpoint_name, TMP_MOUNTPOINT};
use appmgr::deps::DependencyError;
use appmgr::store::{HealthCheckResult, HealthCheckResultVariant};

fn s(x: &str) -> String {
    String::from(x)
}

#[test]
fn flatten_reports_scaled_totals_and_caps_transferred() {
    let info = ProgressInfo {
        package_installs: vec![(
            s("a"),
            InstallProgress { size: Some(10), downloaded: 4, validated: 25, unpacked: 3 },
        )],
        src_volume_size: vec![(s("a"), 100)],
        target_volume_size: vec![(s("a"), 40)],
    };
    let r = info.flatten();
    // total: 10 * 11 / 5 = 22, plus the source volume.
    assert_eq!(r.total_bytes, 122);
    // transferred: 4 + 25 / 5 + 3 = 12, plus the target volume.
    assert_eq!(r.bytes_transferred, 52);
    assert!(!r.complete);
}

#[test]
fn flatten_never_reports_more_transferred_than_total() {
    let info = ProgressInfo {
        package_installs: vec![(
            s("a"),
            InstallProgress { size: Some(0), downloaded: 500, validated: 0, unpacked: 0 },
        )],
        src_volume_size: vec![],
        target_volume_size: vec![],
    };
    let r = info.flatten();
    assert_eq!(r.total_bytes, 0);
    assert_eq!(r.bytes_transferred, 0);
}

#[test]
fn tmp_mountpoint_is_base32_of_source_hash() {
    let name = tmp_mountpoint_name(&b"hello".to_vec());
    assert_eq!(name, format!("{}/NBSWY3DP", TMP_MOUNTPOINT));
}

#[test]
fn mount_guard_owes_one_unmount() {
    let guard = MountGuard::mount(s("/mnt/x"));
    assert!(guard.mounted);
    assert_eq!(guard.unmount(), Some(s("/mnt/x")));
    let released = MountGuard { mountpoint: s("/mnt/x"), mounted: false };
    assert_eq!(released.unmount(), None);
}

#[test]
fn health_check_failures_union_keeps_first_position_last_value() {
    let t = |n: &str| HealthCheckResult {
        time: s(n),
        result: HealthCheckResultVariant::Failure(s(n)),
    };
    let left = DependencyError::HealthChecksFailed {
        failures: vec![(s("rpc"), t("t0")), (s("sync"), t("t1"))],
    };
    let right = DependencyError::HealthChecksFailed {
        failures: vec![(s("sync"), t("t2")), (s("disk"), t("t3"))],
    };
    match left.merge_with(right) {
        DependencyError::HealthChecksFailed { failures } => {
            let keys: Vec<&String> = failures.iter().map(|(k, _)| k).collect();
            let rpc = s("rpc");
            let sync = s("sync");
            let disk = s("disk");
            assert_eq!(keys, vec![&rpc, &sync, &disk]);
            match &failures[1].1.result {
                HealthCheckResultVariant::Failure(m) => assert_eq!(m, &s("t2")),
                _ => panic!("the right side's value should win a repeated key"),
            }
        }
        _ => panic!("two health failures merge into one"),
    }
}
