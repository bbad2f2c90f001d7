//! Behavior of the propagation engine: cascades, breakages, dry runs, the
//! dependency checker and its error merge order.

use appmgr::value::{Value, Config};
use appmgr::schema::{ConfigSpec, ValueSpec, NumRange};
use appmgr::pointer::{PackagePointerSpec, PackagePointerSpecVariant, ValueSpecPointer};
use appmgr::store::{PackageStore, InstalledPackageDataEntry, Manifest, ConfigAction, Status,
    MainStatus, CurrentDependencyInfo, HealthCheckResult, HealthCheckResultVariant};
use appmgr::deps::{Dependencies, DepInfo, DependencyConfig, DependencyError};
use appmgr::version::Version;
use appmgr::error::ErrorKind;
use appmgr::engine::{set_impl, set_dry, get, update_current_dependents};

fn s(x: &str) -> String {
    String::from(x)
}

fn cfg(entries: Vec<(&str, Value)>) -> Config {
    let mut c = Config::new();
    for (k, v) in entries {
        c.insert(s(k), v);
    }
    c
}

fn num_field(name: &str, min: Option<i64>, max: Option<i64>) -> (String, ValueSpec) {
    (s(name), ValueSpec::Number { range: NumRange { min, max }, nullable: false })
}

fn running() -> Status {
    Status { configured: true, main: MainStatus::Running { health: vec![] }, dependency_errors: vec![] }
}

fn plain_entry(spec: ConfigSpec, current: Option<Config>) -> InstalledPackageDataEntry {
    InstalledPackageDataEntry {
        manifest: Manifest {
            version: Version::new(1, 2, 3, 0),
            dependencies: Dependencies(vec![]),
            config: Some(ConfigAction { spec, current }),
        },
        status: running(),
        current_dependencies: vec![],
        current_dependents: vec![],
        system_pointers: vec![],
        tor_address: None,
        lan_address: None,
        apply_depends_on: vec![],
        apply_signal: None,
    }
}

fn ptr_into_a() -> PackagePointerSpecVariant {
    PackagePointerSpecVariant::Config { selector: vec![s("x")], multi: false }
}

/// Two packages: `b` holds a config-selector pointer into `a.x`.
/// `b_check`, when given, is the check schema `b` declares against `a`.
/// `b_extra` adds a field to `b`'s own schema and stored configuration.
fn two_package_store(b_check: Option<ConfigSpec>, b_lim: Option<i64>) -> PackageStore {
    let spec_a = ConfigSpec { fields: vec![num_field("x", None, None), num_field("y", None, None)] };
    let mut a = plain_entry(
        spec_a,
        Some(cfg(vec![("x", Value::Number(1)), ("y", Value::Number(0))])),
    );
    a.current_dependents = vec![(
        s("b"),
        CurrentDependencyInfo { pointers: vec![ptr_into_a()], health_checks: vec![] },
    )];

    let mut b_fields = vec![(
        s("ptr"),
        ValueSpec::Pointer {
            ptr: ValueSpecPointer::Package(PackagePointerSpec {
                package_id: s("a"),
                target: ptr_into_a(),
            }),
        },
    )];
    let mut b_cfg = vec![("ptr", Value::Number(1))];
    if b_lim.is_some() {
        b_fields.push(num_field("lim", Some(0), Some(5)));
    }
    let lim_storage;
    if let Some(lim) = b_lim {
        lim_storage = lim;
        b_cfg.push(("lim", Value::Number(lim_storage)));
    }
    let spec_b = ConfigSpec { fields: b_fields };
    let mut b = plain_entry(spec_b, Some(cfg(b_cfg)));
    b.manifest.dependencies = Dependencies(vec![(
        s("a"),
        DepInfo {
            version: s("^1.0.0"),
            optional: None,
            recommended: false,
            description: None,
            critical: false,
            config: b_check.map(|check| DependencyConfig { check, auto_configure: Config::new() }),
        },
    )]);
    b.current_dependencies = vec![(
        s("a"),
        CurrentDependencyInfo { pointers: vec![ptr_into_a()], health_checks: vec![] },
    )];

    PackageStore { packages: vec![(s("a"), a), (s("b"), b)] }
}

fn config_of(store: &PackageStore, id: &str) -> Config {
    let res = get(store, &s(id)).ok().expect("package should be readable");
    res.config.expect("package should hold a configuration").deep_clone()
}

fn number_of(c: &Config, k: &str) -> i64 {
    match c.get(&s(k)) {
        Some(Value::Number(n)) => *n,
        _ => panic!("expected a number under {}", k),
    }
}

#[test]
fn live_set_updates_target_and_recomputes_dependent() {
    // b holds a pointer into a.x; setting a.x live recomputes b with the
    // new projected value and records no breakage.
    let mut store = two_package_store(None, None);
    let system = Config::new();
    let out = set_impl(
        &mut store,
        &system,
        &s("a"),
        Some(cfg(vec![("x", Value::Number(2)), ("y", Value::Number(0))])),
        1000,
        7,
    )
    .ok()
    .expect("live set should succeed");
    assert!(out.breakages.is_empty());
    assert_eq!(out.cascades, vec![(s("a"), s("b"))]);
    assert_eq!(out.changed, vec![s("b")]);
    assert_eq!(number_of(&out.applied, "x"), 2);
    assert_eq!(number_of(&config_of(&store, "a"), "x"), 2);
    assert_eq!(number_of(&config_of(&store, "b"), "ptr"), 2);
}

#[test]
fn unprojected_field_change_triggers_no_cascade() {
    // a.y is projected by nobody: changing it alone recomputes no dependent.
    let mut store = two_package_store(None, None);
    let system = Config::new();
    let out = set_impl(
        &mut store,
        &system,
        &s("a"),
        Some(cfg(vec![("x", Value::Number(1)), ("y", Value::Number(9))])),
        1000,
        7,
    )
    .ok()
    .expect("live set should succeed");
    assert!(out.cascades.is_empty());
    assert!(out.breakages.is_empty());
}

#[test]
fn multiple_pointers_into_same_field_cascade_once() {
    // b holds two pointers into a.x; the recompute of b still happens once.
    let mut store = two_package_store(None, None);
    store.packages[0].1.current_dependents[0].1.pointers = vec![ptr_into_a(), ptr_into_a()];
    let system = Config::new();
    let out = set_impl(
        &mut store,
        &system,
        &s("a"),
        Some(cfg(vec![("x", Value::Number(2)), ("y", Value::Number(0))])),
        1000,
        7,
    )
    .ok()
    .expect("live set should succeed");
    assert_eq!(out.cascades, vec![(s("a"), s("b"))]);
}

#[test]
fn schema_violation_on_target_is_fatal_and_changes_nothing() {
    // a's schema admits only 0..=5 for x here.
    let spec_a = ConfigSpec { fields: vec![num_field("x", Some(0), Some(5))] };
    let a = plain_entry(spec_a, Some(cfg(vec![("x", Value::Number(1))])));
    let mut store = PackageStore { packages: vec![(s("a"), a)] };
    let system = Config::new();
    let err = set_impl(
        &mut store,
        &system,
        &s("a"),
        Some(cfg(vec![("x", Value::Number(10))])),
        1000,
        7,
    )
    .err()
    .expect("an illegal configuration must be rejected");
    assert_eq!(err.kind, ErrorKind::ConfigRulesViolation);
    assert_eq!(number_of(&config_of(&store, "a"), "x"), 1);
}

#[test]
fn missing_package_is_not_found() {
    let mut store = PackageStore::new();
    let system = Config::new();
    let err = set_impl(&mut store, &system, &s("ghost"), None, 1000, 7).err().unwrap();
    assert_eq!(err.kind, ErrorKind::NotFound);
    let err2 = get(&store, &s("ghost")).err().unwrap();
    assert_eq!(err2.kind, ErrorKind::NotFound);
}

#[test]
fn rejecting_check_records_breakage_but_change_persists() {
    // b's custom check against a rejects x=2; the live run keeps a.x=2,
    // records exactly one breakage for b, and b's own status reflects the
    // broken dependency.
    let check = ConfigSpec { fields: vec![num_field("x", Some(0), Some(1)), num_field("y", None, None)] };
    let mut store = two_package_store(Some(check), None);
    let system = Config::new();
    let out = set_impl(
        &mut store,
        &system,
        &s("a"),
        Some(cfg(vec![("x", Value::Number(2)), ("y", Value::Number(0))])),
        1000,
        7,
    )
    .ok()
    .expect("live set should succeed despite the dependent's rejection");
    assert_eq!(number_of(&config_of(&store, "a"), "x"), 2);
    assert_eq!(out.breakages.len(), 1);
    assert_eq!(out.breakages[0].0, s("b"));
    assert_eq!(out.breakages[0].1.dependency, s("a"));
    assert!(matches!(out.breakages[0].1.error, DependencyError::ConfigUnsatisfied { .. }));
    let b_entry = store.get(&s("b")).unwrap();
    assert_eq!(b_entry.status.dependency_errors.len(), 1);
    assert_eq!(b_entry.status.dependency_errors[0].0, s("a"));
}

#[test]
fn doubly_rejected_dependent_appears_once() {
    // b is rejected by the direct check and its own recompute also fails
    // validation: one breakage entry, not two.
    let check = ConfigSpec { fields: vec![num_field("x", Some(0), Some(1)), num_field("y", None, None)] };
    let mut store = two_package_store(Some(check), Some(9));
    let system = Config::new();
    let out = set_impl(
        &mut store,
        &system,
        &s("a"),
        Some(cfg(vec![("x", Value::Number(2)), ("y", Value::Number(0))])),
        1000,
        7,
    )
    .ok()
    .expect("live set should succeed");
    let b_keys: Vec<&String> = out.breakages.iter().map(|(k, _)| k).collect();
    let expected_b = s("b");
    assert_eq!(b_keys, vec![&expected_b]);
}

#[test]
fn dry_run_commits_nothing_and_matches_live_breakages() {
    // Two identical stores; the dry run's scratch image is discarded while
    // the live run commits, and both report the same breakage set.
    let mk_check = || ConfigSpec {
        fields: vec![num_field("x", Some(0), Some(1)), num_field("y", None, None)],
    };
    let store_for_dry = two_package_store(Some(mk_check()), None);
    let mut store_for_live = two_package_store(Some(mk_check()), None);
    let system = Config::new();
    let new_cfg = || cfg(vec![("x", Value::Number(2)), ("y", Value::Number(0))]);

    let dry = set_dry(store_for_dry, &system, &s("a"), Some(new_cfg()), 1000, 7)
        .ok()
        .expect("dry run should succeed");
    let live = set_impl(&mut store_for_live, &system, &s("a"), Some(new_cfg()), 1000, 7)
        .ok()
        .expect("live run should succeed");

    assert_eq!(dry.breakages.len(), live.breakages.len());
    for i in 0..dry.breakages.len() {
        assert_eq!(dry.breakages[i].0, live.breakages[i].0);
        assert_eq!(dry.breakages[i].1.dependency, live.breakages[i].1.dependency);
        match (&dry.breakages[i].1.error, &live.breakages[i].1.error) {
            (
                DependencyError::ConfigUnsatisfied { error: m1 },
                DependencyError::ConfigUnsatisfied { error: m2 },
            ) => assert_eq!(m1, m2),
            _ => panic!("breakage kinds should agree"),
        }
    }
    // The dry run reports the would-be changes of both packages.
    let patched: Vec<&String> = dry.patch.iter().map(|p| &p.id).collect();
    let expected_a = s("a");
    let expected_b = s("b");
    assert_eq!(patched, vec![&expected_a, &expected_b]);
}

#[test]
fn merge_order_of_dependency_errors() {
    let a = DependencyError::ConfigUnsatisfied { error: s("a") };
    let b = DependencyError::ConfigUnsatisfied { error: s("b") };
    match a.merge_with(b) {
        DependencyError::ConfigUnsatisfied { error } => assert_eq!(error, s("a\nb")),
        _ => panic!("merged configuration complaints should concatenate"),
    }
    let merged = DependencyError::NotInstalled.merge_with(DependencyError::NotRunning);
    assert!(matches!(merged, DependencyError::NotInstalled));
    let merged2 = DependencyError::ConfigUnsatisfied { error: s("x") }
        .merge_with(DependencyError::NotInstalled);
    assert!(matches!(merged2, DependencyError::NotInstalled));
    let merged3 = DependencyError::NotRunning.merge_with(DependencyError::ConfigUnsatisfied {
        error: s("y"),
    });
    assert!(matches!(merged3, DependencyError::ConfigUnsatisfied { .. }));
}

#[test]
fn failed_dry_run_surfaces_error_and_empty_diff() {
    // Rejecting the target's own configuration happens before anything is
    // written, so the failed preview carries the error and an empty diff.
    let store = two_package_store(None, None);
    let system = Config::new();
    let bad = cfg(vec![("x", Value::Str(s("not a number"))), ("y", Value::Number(0))]);
    let failure = set_dry(store, &system, &s("a"), Some(bad), 1000, 7)
        .err()
        .expect("an illegal configuration must fail the preview");
    assert_eq!(failure.error.kind, ErrorKind::ConfigRulesViolation);
    assert!(failure.patch.is_empty());
}

#[test]
fn dependency_error_messages() {
    assert_eq!(DependencyError::NotInstalled.message(), s("Not Installed"));
    assert_eq!(DependencyError::NotRunning.message(), s("Not Running"));
    assert_eq!(
        DependencyError::ConfigUnsatisfied { error: s("pruning must be manual") }.message(),
        s("Configuration Requirements Not Satisfied: pruning must be manual")
    );
    assert_eq!(
        DependencyError::IncorrectVersion {
            expected: s("=2.0.0"),
            received: Version::new(1, 2, 3, 0),
        }
        .message(),
        s("Incorrect Version: Expected =2.0.0, Received 1.2.3")
    );
}

#[test]
fn range_text_safety_check() {
    assert!(appmgr::version::range_text_is_safe("^1.0.0"));
    assert!(appmgr::version::range_text_is_safe("*"));
    assert!(!appmgr::version::range_text_is_safe("^18446744073709551615"));
}

fn dep_on_a(range: &str) -> DepInfo {
    DepInfo {
        version: s(range),
        optional: None,
        recommended: false,
        description: None,
        critical: false,
        config: None,
    }
}

#[test]
fn satisfied_judges_in_strict_order() {
    let spec_a = ConfigSpec { fields: vec![num_field("x", None, None)] };
    let a = plain_entry(spec_a, Some(cfg(vec![("x", Value::Number(1))])));
    let store = PackageStore { packages: vec![(s("a"), a)] };

    assert!(dep_on_a("^1.0.0").satisfied(&store, &s("a"), None).is_ok());
    assert!(matches!(
        dep_on_a("^1.0.0").satisfied(&store, &s("ghost"), None),
        Err(DependencyError::NotInstalled)
    ));
    match dep_on_a("=2.0.0").satisfied(&store, &s("a"), None) {
        Err(DependencyError::IncorrectVersion { expected, received }) => {
            assert_eq!(expected, s("=2.0.0"));
            assert_eq!(received, Version::new(1, 2, 3, 0));
        }
        _ => panic!("a version out of range must be reported"),
    }
}

#[test]
fn satisfied_reports_stopped_and_failing_health() {
    let spec_a = ConfigSpec { fields: vec![num_field("x", None, None)] };
    let mut a = plain_entry(spec_a, Some(cfg(vec![("x", Value::Number(1))])));
    a.status.main = MainStatus::Stopped;
    let mut store = PackageStore { packages: vec![(s("a"), a)] };
    assert!(matches!(
        dep_on_a("*").satisfied(&store, &s("a"), None),
        Err(DependencyError::NotRunning)
    ));

    store.packages[0].1.status.main = MainStatus::Running {
        health: vec![
            (
                s("rpc"),
                HealthCheckResult { time: s("t0"), result: HealthCheckResultVariant::Success },
            ),
            (
                s("sync"),
                HealthCheckResult {
                    time: s("t1"),
                    result: HealthCheckResultVariant::Failure(s("behind")),
                },
            ),
        ],
    };
    match dep_on_a("*").satisfied(&store, &s("a"), None) {
        Err(DependencyError::HealthChecksFailed { failures }) => {
            assert_eq!(failures.len(), 1);
            assert_eq!(failures[0].0, s("sync"));
        }
        _ => panic!("a failing health check must be reported"),
    }
}

#[test]
fn satisfied_applies_custom_check_to_supplied_config() {
    let spec_a = ConfigSpec { fields: vec![num_field("x", None, None)] };
    let a = plain_entry(spec_a, Some(cfg(vec![("x", Value::Number(4))])));
    let store = PackageStore { packages: vec![(s("a"), a)] };
    let mut dep = dep_on_a("*");
    dep.config = Some(DependencyConfig {
        check: ConfigSpec { fields: vec![num_field("x", Some(0), Some(3))] },
        auto_configure: cfg(vec![("x", Value::Number(3))]),
    });
    assert!(matches!(
        dep.satisfied(&store, &s("a"), None),
        Err(DependencyError::ConfigUnsatisfied { .. })
    ));
    let override_cfg = cfg(vec![("x", Value::Number(2))]);
    assert!(dep.satisfied(&store, &s("a"), Some(&override_cfg)).is_ok());

    // Auto-configure writes the template over the old configuration.
    let fixed = dep.config.as_ref().unwrap().auto_configure(&cfg(vec![("x", Value::Number(9))]));
    match fixed.get(&s("x")) {
        Some(Value::Number(n)) => assert_eq!(*n, 3),
        _ => panic!("auto-configure should have overwritten x"),
    }
}

#[test]
fn update_current_dependents_writes_backreferences() {
    let spec_a = ConfigSpec { fields: vec![num_field("x", None, None)] };
    let a = plain_entry(spec_a, Some(cfg(vec![("x", Value::Number(1))])));
    let mut store = PackageStore { packages: vec![(s("a"), a)] };
    let deps = vec![(
        s("a"),
        CurrentDependencyInfo { pointers: vec![ptr_into_a()], health_checks: vec![s("rpc")] },
    )];
    update_current_dependents(&mut store, &s("b"), &deps);
    let a_entry = store.get(&s("a")).unwrap();
    assert_eq!(a_entry.current_dependents.len(), 1);
    assert_eq!(a_entry.current_dependents[0].0, s("b"));
    assert_eq!(a_entry.current_dependents[0].1.health_checks, vec![s("rpc")]);
}

#[test]
fn mutual_dependents_reconverge_without_extra_work() {
    // a and b each watch the other's seed field; a's recompute leaves b's
    // projection of a unchanged after one step, so the diamond-shaped walk
    // reconverges: one cascade into b and nothing further.
    let mk = |other: &str| {
        let spec = ConfigSpec {
            fields: vec![
                num_field("seed", None, None),
                (
                    s("ptr"),
                    ValueSpec::Pointer {
                        ptr: ValueSpecPointer::Package(PackagePointerSpec {
                            package_id: s(other),
                            target: PackagePointerSpecVariant::Config {
                                selector: vec![s("seed")],
                                multi: false,
                            },
                        }),
                    },
                ),
            ],
        };
        plain_entry(
            spec,
            Some(cfg(vec![("seed", Value::Number(0)), ("ptr", Value::Number(0))])),
        )
    };
    let mut a = mk("b");
    let mut b = mk("a");
    let watcher = |who: &str| {
        (
            s(who),
            CurrentDependencyInfo {
                pointers: vec![PackagePointerSpecVariant::Config {
                    selector: vec![s("seed")],
                    multi: false,
                }],
                health_checks: vec![],
            },
        )
    };
    a.current_dependents = vec![watcher("b")];
    b.current_dependents = vec![watcher("a")];
    let mut store = PackageStore { packages: vec![(s("a"), a), (s("b"), b)] };
    let system = Config::new();
    let out = set_impl(
        &mut store,
        &system,
        &s("a"),
        Some(cfg(vec![("seed", Value::Number(1)), ("ptr", Value::Number(0))])),
        1000,
        7,
    )
    .ok()
    .expect("the cycle should reconverge");
    assert_eq!(out.cascades, vec![(s("a"), s("b"))]);
    assert!(out.breakages.is_empty());
}
