//! The in-memory model of the transactional package store: every installed
//! package's manifest, configuration action, status and dependency
//! bookkeeping, keyed by package id in insertion order.

use vstd::prelude::*;
use crate::value::{Config, ceq, lookup, has_key, unique_keys, assoc_get, str_eq};
use crate::schema::ConfigSpec;
use crate::pointer::{PackagePointerSpecVariant, SystemPointerSpec, target_eq};
use crate::version::Version;
use crate::deps::{Dependencies, DependencyError};

verus! {

/// One health check's latest outcome.
pub enum HealthCheckResultVariant {
    Success,
    Starting,
    Disabled,
    Failure(String),
}

/// One health check's outcome with the time it was taken.
pub struct HealthCheckResult {
    pub time: String,
    pub result: HealthCheckResultVariant,
}

impl HealthCheckResult {
    /// A structural copy of the outcome.
    pub fn deep_clone(&self) -> (r: HealthCheckResult)
        ensures
            crate::deps::hcr_eq(r, *self),
    {
        HealthCheckResult {
            time: self.time.clone(),
            result: match &self.result {
                HealthCheckResultVariant::Success => HealthCheckResultVariant::Success,
                HealthCheckResultVariant::Starting => HealthCheckResultVariant::Starting,
                HealthCheckResultVariant::Disabled => HealthCheckResultVariant::Disabled,
                HealthCheckResultVariant::Failure(m) => HealthCheckResultVariant::Failure(
                    m.clone(),
                ),
            },
        }
    }
}

/// A package's live process state.
pub enum MainStatus {
    Stopped,
    Starting,
    Running { health: Vec<(String, HealthCheckResult)> },
    BackingUp { started: bool, health: Vec<(String, HealthCheckResult)> },
}

/// A package's recorded status: whether it has been configured, its live
/// state, and the dependency errors recorded against it.
pub struct Status {
    pub configured: bool,
    pub main: MainStatus,
    pub dependency_errors: Vec<(String, DependencyError)>,
}

/// Runtime-computed bookkeeping for one (dependent, dependency) pair: the
/// pointer targets the dependent holds into the dependency, and the health
/// checks its apply action reported caring about.
pub struct CurrentDependencyInfo {
    pub pointers: Vec<PackagePointerSpecVariant>,
    pub health_checks: Vec<String>,
}

impl CurrentDependencyInfo {
    /// Empty bookkeeping: no pointers, no health checks.
    pub fn empty() -> (r: CurrentDependencyInfo)
        ensures
            r.pointers@.len() == 0,
            r.health_checks@.len() == 0,
    {
        CurrentDependencyInfo { pointers: Vec::new(), health_checks: Vec::new() }
    }

    /// A structural copy of the bookkeeping.
    #[verifier::loop_isolation(false)]
    pub fn deep_clone(&self) -> (r: CurrentDependencyInfo)
        ensures
            cdi_eq(r, *self),
    {
        let mut ptrs: Vec<PackagePointerSpecVariant> = Vec::new();
        let mut i: usize = 0;
        while i < self.pointers.len()
            invariant
                0 <= i <= self.pointers@.len(),
                ptrs@.len() == i,
                forall|j: int| 0 <= j < i ==> target_eq(#[trigger] ptrs@[j], self.pointers@[j]),
            decreases self.pointers@.len() - i,
        {
            ptrs.push(self.pointers[i].deep_clone());
            i = i + 1;
        }
        let mut hcs: Vec<String> = Vec::new();
        let mut j: usize = 0;
        while j < self.health_checks.len()
            invariant
                0 <= j <= self.health_checks@.len(),
                hcs@.len() == j,
                forall|l: int| 0 <= l < j ==> (#[trigger] hcs@[l])@ == self.health_checks@[l]@,
            decreases self.health_checks@.len() - j,
        {
            hcs.push(self.health_checks[j].clone());
            j = j + 1;
        }
        CurrentDependencyInfo { pointers: ptrs, health_checks: hcs }
    }
}

/// View-based equality of dependency bookkeeping.
pub open spec fn cdi_eq(a: CurrentDependencyInfo, b: CurrentDependencyInfo) -> bool {
    &&& a.pointers@.len() == b.pointers@.len()
    &&& forall|i: int| 0 <= i < a.pointers@.len() ==> target_eq(#[trigger] a.pointers@[i], b.pointers@[i])
    &&& a.health_checks@.len() == b.health_checks@.len()
    &&& forall|i: int| 0 <= i < a.health_checks@.len() ==> (#[trigger] a.health_checks@[i])@
        == b.health_checks@[i]@
}

/// What the configuration read action reports: the package's current
/// configuration, if any, and its schema.
pub struct ConfigRes<'a> {
    pub config: Option<&'a Config>,
    pub spec: &'a ConfigSpec,
}

/// The model of a package's configuration action: the schema it reports and
/// the configuration it currently stores.
pub struct ConfigAction {
    pub spec: ConfigSpec,
    pub current: Option<Config>,
}

impl ConfigAction {
    /// The read path of the action: current configuration and schema.
    pub fn get(&self) -> (r: ConfigRes<'_>)
        ensures
            match r.config {
                Some(c) => self.current == Some(*c),
                None => self.current is None,
            },
            *r.spec == self.spec,
    {
        match &self.current {
            Some(c) => ConfigRes { config: Some(c), spec: &self.spec },
            None => ConfigRes { config: None, spec: &self.spec },
        }
    }
}

/// A package's manifest: version, declared dependencies, and its
/// configuration action when it has one.
pub struct Manifest {
    pub version: Version,
    pub dependencies: Dependencies,
    pub config: Option<ConfigAction>,
}

/// One installed package's record.
pub struct InstalledPackageDataEntry {
    pub manifest: Manifest,
    pub status: Status,
    /// This package's outbound bookkeeping, keyed by dependency id.
    pub current_dependencies: Vec<(String, CurrentDependencyInfo)>,
    /// Back-references: who depends on this package, keyed by dependent id.
    pub current_dependents: Vec<(String, CurrentDependencyInfo)>,
    /// Host-level pointers this package's configuration holds.
    pub system_pointers: Vec<SystemPointerSpec>,
    /// The package's onion address, when one is assigned.
    pub tor_address: Option<String>,
    /// The package's LAN address, when one is assigned.
    pub lan_address: Option<String>,
    /// What the package's apply action reports depending on: dependency id
    /// to health check ids.
    pub apply_depends_on: Vec<(String, Vec<String>)>,
    /// The signal the apply action asks to deliver on success.
    pub apply_signal: Option<String>,
}

/// Structural sanity of one entry: every association it holds is keyed
/// uniquely, and its stored configuration is well-formed.
pub open spec fn entry_wf(e: InstalledPackageDataEntry) -> bool {
    &&& unique_keys(e.current_dependencies@)
    &&& unique_keys(e.current_dependents@)
    &&& unique_keys(e.status.dependency_errors@)
    &&& unique_keys(e.apply_depends_on@)
    &&& unique_keys(e.manifest.dependencies.0@)
}

/// View-based equality of health maps.
pub open spec fn health_eq(a: Seq<(String, HealthCheckResult)>, b: Seq<(String, HealthCheckResult)>) -> bool {
    &&& a.len() == b.len()
    &&& forall|i: int|
        0 <= i < a.len() ==> (#[trigger] a[i]).0@ == b[i].0@ && crate::deps::hcr_eq(a[i].1, b[i].1)
}

/// View-based equality of live process states.
pub open spec fn main_status_eq(a: MainStatus, b: MainStatus) -> bool {
    match a {
        MainStatus::Stopped => b is Stopped,
        MainStatus::Starting => b is Starting,
        MainStatus::Running { health: h1 } => b matches MainStatus::Running { health: h2 }
            && health_eq(h2@, h1@),
        MainStatus::BackingUp { started: s1, health: h1 } => b matches MainStatus::BackingUp {
            started: s2,
            health: h2,
        } && s1 == s2 && health_eq(h2@, h1@),
    }
}

/// View-based equality of recorded statuses.
pub open spec fn status_eq(a: Status, b: Status) -> bool {
    &&& a.configured == b.configured
    &&& main_status_eq(a.main, b.main)
    &&& a.dependency_errors@.len() == b.dependency_errors@.len()
    &&& forall|i: int|
        0 <= i < a.dependency_errors@.len() ==> (#[trigger] a.dependency_errors@[i]).0@
            == b.dependency_errors@[i].0@ && crate::deps::de_eq(
            a.dependency_errors@[i].1,
            b.dependency_errors@[i].1,
        )
}

/// View-based equality of manifests.
pub open spec fn manifest_eq(a: Manifest, b: Manifest) -> bool {
    &&& a.version == b.version
    &&& a.dependencies.0@.len() == b.dependencies.0@.len()
    &&& forall|i: int|
        0 <= i < a.dependencies.0@.len() ==> (#[trigger] a.dependencies.0@[i]).0@
            == b.dependencies.0@[i].0@ && crate::deps::depinfo_eq(
            b.dependencies.0@[i].1,
            a.dependencies.0@[i].1,
        )
    &&& (match (a.config, b.config) {
        (Some(x), Some(y)) => crate::schema::cs_eq(y.spec, x.spec) && (match (x.current, y.current) {
            (Some(c), Some(d)) => ceq(d, c),
            (None, None) => true,
            _ => false,
        }),
        (None, None) => true,
        _ => false,
    })
}

/// View-based equality of dependency bookkeeping maps.
pub open spec fn cdi_map_eq(a: Seq<(String, CurrentDependencyInfo)>, b: Seq<(String, CurrentDependencyInfo)>) -> bool {
    &&& a.len() == b.len()
    &&& forall|i: int|
        0 <= i < a.len() ==> (#[trigger] a[i]).0@ == b[i].0@ && cdi_eq(a[i].1, b[i].1)
}

/// View-based equality of whole package records.
pub open spec fn entry_eq(e0: InstalledPackageDataEntry, e1: InstalledPackageDataEntry) -> bool {
    &&& manifest_eq(e0.manifest, e1.manifest)
    &&& status_eq(e0.status, e1.status)
    &&& cdi_map_eq(e1.current_dependencies@, e0.current_dependencies@)
    &&& cdi_map_eq(e1.current_dependents@, e0.current_dependents@)
    &&& e0.system_pointers@.len() == e1.system_pointers@.len()
    &&& forall|i: int|
        0 <= i < e0.system_pointers@.len() ==> (#[trigger] e0.system_pointers@[i]).key@
            == e1.system_pointers@[i].key@
    &&& (match (e0.tor_address, e1.tor_address) {
        (Some(x), Some(y)) => x@ == y@,
        (None, None) => true,
        _ => false,
    })
    &&& (match (e0.lan_address, e1.lan_address) {
        (Some(x), Some(y)) => x@ == y@,
        (None, None) => true,
        _ => false,
    })
    &&& e0.apply_depends_on@.len() == e1.apply_depends_on@.len()
    &&& forall|i: int|
        0 <= i < e0.apply_depends_on@.len() ==> {
            &&& (#[trigger] e0.apply_depends_on@[i]).0@ == e1.apply_depends_on@[i].0@
            &&& e0.apply_depends_on@[i].1@.len() == e1.apply_depends_on@[i].1@.len()
            &&& forall|j: int|
                0 <= j < e0.apply_depends_on@[i].1@.len() ==> (
                #[trigger] e0.apply_depends_on@[i].1@[j])@ == e1.apply_depends_on@[i].1@[j]@
        }
    &&& (match (e0.apply_signal, e1.apply_signal) {
        (Some(x), Some(y)) => x@ == y@,
        (None, None) => true,
        _ => false,
    })
}

/// View-based equality of whole stores: the same packages, each record
/// field-for-field deep-equal.
pub open spec fn store_equiv(a: PackageStore, b: PackageStore) -> bool {
    &&& a.packages@.len() == b.packages@.len()
    &&& forall|i: int|
        0 <= i < a.packages@.len() ==> (#[trigger] a.packages@[i]).0@ == b.packages@[i].0@
            && entry_eq(a.packages@[i].1, b.packages@[i].1)
}

/// The two entries agree on everything but the record of current
/// dependents.
pub open spec fn same_but_dependents(e0: InstalledPackageDataEntry, e1: InstalledPackageDataEntry) -> bool {
    &&& e1.manifest == e0.manifest
    &&& e1.status == e0.status
    &&& e1.current_dependencies == e0.current_dependencies
    &&& e1.system_pointers == e0.system_pointers
    &&& e1.tor_address == e0.tor_address
    &&& e1.lan_address == e0.lan_address
    &&& e1.apply_depends_on == e0.apply_depends_on
    &&& e1.apply_signal == e0.apply_signal
}

/// The two entries agree on everything but the recorded dependency errors.
pub open spec fn same_but_dependency_errors(
    e0: InstalledPackageDataEntry,
    e1: InstalledPackageDataEntry,
) -> bool {
    &&& e1.manifest == e0.manifest
    &&& e1.status.configured == e0.status.configured
    &&& e1.status.main == e0.status.main
    &&& e1.current_dependencies == e0.current_dependencies
    &&& e1.current_dependents == e0.current_dependents
    &&& e1.system_pointers == e0.system_pointers
    &&& e1.tor_address == e0.tor_address
    &&& e1.lan_address == e0.lan_address
    &&& e1.apply_depends_on == e0.apply_depends_on
    &&& e1.apply_signal == e0.apply_signal
}

/// Copies a health map.
#[verifier::loop_isolation(false)]
fn clone_health(h: &Vec<(String, HealthCheckResult)>) -> (r: Vec<(String, HealthCheckResult)>)
    ensures
        health_eq(r@, h@),
{
    let mut out: Vec<(String, HealthCheckResult)> = Vec::new();
    let mut i: usize = 0;
    while i < h.len()
        invariant
            0 <= i <= h@.len(),
            out@.len() == i,
            forall|j: int|
                0 <= j < i ==> (#[trigger] out@[j]).0@ == h@[j].0@ && crate::deps::hcr_eq(
                    out@[j].1,
                    h@[j].1,
                ),
        decreases h@.len() - i,
    {
        out.push((h[i].0.clone(), h[i].1.deep_clone()));
        i = i + 1;
    }
    proof {
        assert forall|j: int|
            0 <= j < out@.len() implies (#[trigger] out@[j]).0@ == h@[j].0@ && crate::deps::hcr_eq(
            out@[j].1,
            h@[j].1,
        ) by {}
        assert forall|j: int|
            0 <= j < h@.len() implies (#[trigger] h@[j]).0@ == out@[j].0@ && crate::deps::hcr_eq(
            h@[j].1,
            out@[j].1,
        ) by {
            assert(out@[j].0@ == h@[j].0@);
        }
    }
    out
}

/// Copies a dependency bookkeeping map.
#[verifier::loop_isolation(false)]
fn clone_cdi_vec(m: &Vec<(String, CurrentDependencyInfo)>) -> (r: Vec<(String, CurrentDependencyInfo)>)
    ensures
        cdi_map_eq(r@, m@),
{
    let mut out: Vec<(String, CurrentDependencyInfo)> = Vec::new();
    let mut i: usize = 0;
    while i < m.len()
        invariant
            0 <= i <= m@.len(),
            out@.len() == i,
            forall|j: int|
                0 <= j < i ==> (#[trigger] out@[j]).0@ == m@[j].0@ && cdi_eq(out@[j].1, m@[j].1),
        decreases m@.len() - i,
    {
        out.push((m[i].0.clone(), m[i].1.deep_clone()));
        i = i + 1;
    }
    out
}

impl InstalledPackageDataEntry {
    /// A structural copy of the whole record.
    #[verifier::loop_isolation(false)]
    pub fn deep_clone(&self) -> (r: InstalledPackageDataEntry)
        ensures
            entry_eq(*self, r),
            entry_wf(*self) ==> entry_wf(r),
    {
        let main = match &self.status.main {
            MainStatus::Stopped => MainStatus::Stopped,
            MainStatus::Starting => MainStatus::Starting,
            MainStatus::Running { health } => MainStatus::Running { health: clone_health(health) },
            MainStatus::BackingUp { started, health } => MainStatus::BackingUp {
                started: *started,
                health: clone_health(health),
            },
        };
        let mut errors: Vec<(String, DependencyError)> = Vec::new();
        let mut i: usize = 0;
        while i < self.status.dependency_errors.len()
            invariant
                0 <= i <= self.status.dependency_errors@.len(),
                errors@.len() == i,
                forall|j: int|
                    0 <= j < i ==> (#[trigger] errors@[j]).0@ == self.status.dependency_errors@[
                        j
                    ].0@ && crate::deps::de_eq(
                        self.status.dependency_errors@[j].1,
                        errors@[j].1,
                    ),
            decreases self.status.dependency_errors@.len() - i,
        {
            errors.push((
                self.status.dependency_errors[i].0.clone(),
                self.status.dependency_errors[i].1.deep_clone(),
            ));
            i = i + 1;
        }
        let mut declared: Vec<(String, crate::deps::DepInfo)> = Vec::new();
        let mut d: usize = 0;
        while d < self.manifest.dependencies.0.len()
            invariant
                0 <= d <= self.manifest.dependencies.0@.len(),
                declared@.len() == d,
                forall|j: int|
                    0 <= j < d ==> (#[trigger] declared@[j]).0@ == self.manifest.dependencies.0@[
                        j
                    ].0@ && crate::deps::depinfo_eq(
                        declared@[j].1,
                        self.manifest.dependencies.0@[j].1,
                    ),
            decreases self.manifest.dependencies.0@.len() - d,
        {
            declared.push((
                self.manifest.dependencies.0[d].0.clone(),
                self.manifest.dependencies.0[d].1.deep_clone(),
            ));
            d = d + 1;
        }
        let mut sys: Vec<SystemPointerSpec> = Vec::new();
        let mut p: usize = 0;
        while p < self.system_pointers.len()
            invariant
                0 <= p <= self.system_pointers@.len(),
                sys@.len() == p,
                forall|j: int|
                    0 <= j < p ==> (#[trigger] sys@[j]).key@ == self.system_pointers@[j].key@,
            decreases self.system_pointers@.len() - p,
        {
            sys.push(self.system_pointers[p].deep_clone());
            p = p + 1;
        }
        let mut reports: Vec<(String, Vec<String>)> = Vec::new();
        let mut a: usize = 0;
        while a < self.apply_depends_on.len()
            invariant
                0 <= a <= self.apply_depends_on@.len(),
                reports@.len() == a,
                forall|j: int|
                    0 <= j < a ==> {
                        &&& (#[trigger] reports@[j]).0@ == self.apply_depends_on@[j].0@
                        &&& reports@[j].1@.len() == self.apply_depends_on@[j].1@.len()
                        &&& forall|l: int|
                            0 <= l < reports@[j].1@.len() ==> (#[trigger] reports@[j].1@[l])@
                                == self.apply_depends_on@[j].1@[l]@
                    },
            decreases self.apply_depends_on@.len() - a,
        {
            let mut hcs: Vec<String> = Vec::new();
            let mut l: usize = 0;
            while l < self.apply_depends_on[a].1.len()
                invariant
                    0 <= a < self.apply_depends_on@.len(),
                    0 <= l <= self.apply_depends_on@[a as int].1@.len(),
                    hcs@.len() == l,
                    forall|m: int|
                        0 <= m < l ==> (#[trigger] hcs@[m])@ == self.apply_depends_on@[
                            a as int
                        ].1@[m]@,
                decreases self.apply_depends_on@[a as int].1@.len() - l,
            {
                hcs.push(self.apply_depends_on[a].1[l].clone());
                l = l + 1;
            }
            reports.push((self.apply_depends_on[a].0.clone(), hcs));
            a = a + 1;
        }
        let r = InstalledPackageDataEntry {
            manifest: Manifest {
                version: self.manifest.version,
                dependencies: Dependencies(declared),
                config: match &self.manifest.config {
                    Some(ca) => Some(
                        ConfigAction {
                            spec: ca.spec.deep_clone(),
                            current: match &ca.current {
                                Some(c) => Some(c.deep_clone()),
                                None => None,
                            },
                        },
                    ),
                    None => None,
                },
            },
            status: Status { configured: self.status.configured, main, dependency_errors: errors },
            current_dependencies: clone_cdi_vec(&self.current_dependencies),
            current_dependents: clone_cdi_vec(&self.current_dependents),
            system_pointers: sys,
            tor_address: match &self.tor_address {
                Some(x) => Some(x.clone()),
                None => None,
            },
            lan_address: match &self.lan_address {
                Some(x) => Some(x.clone()),
                None => None,
            },
            apply_depends_on: reports,
            apply_signal: match &self.apply_signal {
                Some(x) => Some(x.clone()),
                None => None,
            },
        };
        proof {
            if entry_wf(*self) {
                assert forall|x: int, y: int|
                    0 <= x < y < r.current_dependencies@.len() implies r.current_dependencies@[
                    x
                ].0@ != r.current_dependencies@[y].0@ by {
                    assert(r.current_dependencies@[x].0@ == self.current_dependencies@[x].0@);
                    assert(r.current_dependencies@[y].0@ == self.current_dependencies@[y].0@);
                }
                assert forall|x: int, y: int|
                    0 <= x < y < r.current_dependents@.len() implies r.current_dependents@[x].0@
                    != r.current_dependents@[y].0@ by {
                    assert(r.current_dependents@[x].0@ == self.current_dependents@[x].0@);
                    assert(r.current_dependents@[y].0@ == self.current_dependents@[y].0@);
                }
                assert forall|x: int, y: int|
                    0 <= x < y < r.status.dependency_errors@.len() implies r.status.dependency_errors@[
                    x
                ].0@ != r.status.dependency_errors@[y].0@ by {
                    assert(r.status.dependency_errors@[x].0@ == self.status.dependency_errors@[
                        x
                    ].0@);
                    assert(r.status.dependency_errors@[y].0@ == self.status.dependency_errors@[
                        y
                    ].0@);
                }
                assert forall|x: int, y: int|
                    0 <= x < y < r.apply_depends_on@.len() implies r.apply_depends_on@[x].0@
                    != r.apply_depends_on@[y].0@ by {
                    assert(r.apply_depends_on@[x].0@ == self.apply_depends_on@[x].0@);
                    assert(r.apply_depends_on@[y].0@ == self.apply_depends_on@[y].0@);
                }
                assert forall|x: int, y: int|
                    0 <= x < y < r.manifest.dependencies.0@.len() implies r.manifest.dependencies.0@[
                    x
                ].0@ != r.manifest.dependencies.0@[y].0@ by {
                    assert(r.manifest.dependencies.0@[x].0@ == self.manifest.dependencies.0@[
                        x
                    ].0@);
                    assert(r.manifest.dependencies.0@[y].0@ == self.manifest.dependencies.0@[
                        y
                    ].0@);
                }
            }
        }
        r
    }
}

/// The package store: every installed package's record, in insertion order.
pub struct PackageStore {
    pub packages: Vec<(String, InstalledPackageDataEntry)>,
}

/// Structural sanity of the store: unique package ids, sane entries.
pub open spec fn store_wf(s: PackageStore) -> bool {
    &&& unique_keys(s.packages@)
    &&& forall|i: int| 0 <= i < s.packages@.len() ==> entry_wf((#[trigger] s.packages@[i]).1)
}

/// Every package keeps its configuration action and that action's schema
/// between two stores (the stored configuration value may change).
pub open spec fn actions_preserved(a: PackageStore, b: PackageStore) -> bool {
    &&& a.packages@.len() == b.packages@.len()
    &&& forall|j: int|
        0 <= j < a.packages@.len() ==> match ((#[trigger] a.packages@[j]).1.manifest.config,
        b.packages@[j].1.manifest.config) {
            (Some(ca0), Some(ca1)) => ca1.spec == ca0.spec,
            (None, None) => true,
            _ => false,
        }
}

/// The two entries hold the same configuration state: the same presence of
/// a configuration action, the same schema, and deep-equal stored
/// configurations.
pub open spec fn same_stored_config(
    e0: InstalledPackageDataEntry,
    e1: InstalledPackageDataEntry,
) -> bool {
    match (e0.manifest.config, e1.manifest.config) {
        (Some(a), Some(b)) => b.spec == a.spec && (match (a.current, b.current) {
            (Some(x), Some(y)) => ceq(y, x),
            (None, None) => true,
            _ => false,
        }),
        (None, None) => true,
        _ => false,
    }
}

/// Every package keeps its declared dependencies between two stores.
pub open spec fn declared_deps_preserved(a: PackageStore, b: PackageStore) -> bool {
    &&& a.packages@.len() == b.packages@.len()
    &&& forall|j: int|
        0 <= j < a.packages@.len() ==> (#[trigger] b.packages@[j]).1.manifest.dependencies
            == a.packages@[j].1.manifest.dependencies
}

/// The set of package ids is unchanged between two stores.
pub open spec fn same_packages(a: PackageStore, b: PackageStore) -> bool {
    &&& a.packages@.len() == b.packages@.len()
    &&& forall|i: int| 0 <= i < a.packages@.len() ==> (#[trigger] a.packages@[i]).0@
        == b.packages@[i].0@
}

impl PackageStore {
    /// An empty store.
    pub fn new() -> (r: PackageStore)
        ensures
            r.packages@.len() == 0,
            store_wf(r),
    {
        PackageStore { packages: Vec::new() }
    }

    /// The entry of an installed package, if any.
    pub fn get(&self, id: &String) -> (r: Option<&InstalledPackageDataEntry>)
        ensures
            match r {
                Some(e) => lookup(self.packages@, id@) == Some(*e),
                None => lookup(self.packages@, id@) is None,
            },
    {
        assoc_get(&self.packages, id)
    }

    /// Installs or replaces a package record; order of other entries is
    /// kept.
    pub fn put(&mut self, id: String, entry: InstalledPackageDataEntry)
        requires
            unique_keys(old(self).packages@),
        ensures
            unique_keys(final(self).packages@),
            lookup(final(self).packages@, id@) == Some(entry),
            forall|other: Seq<char>|
                other != id@ ==> #[trigger] lookup(final(self).packages@, other) == lookup(
                    old(self).packages@,
                    other,
                ),
            final(self).packages@.len() <= old(self).packages@.len() + 1,
            forall|j: int|
                0 <= j < final(self).packages@.len() ==> (#[trigger] final(self).packages@[j]).1
                    == entry || exists|l: int|
                    0 <= l < old(self).packages@.len() && final(self).packages@[j].1
                        == #[trigger] old(self).packages@[l].1,
    {
        crate::value::assoc_insert(&mut self.packages, id, entry);
    }

    /// Takes the first entry stored under `id` out of the store, with its
    /// position, leaving the rest in order.
    #[verifier::loop_isolation(false)]
    pub fn take(&mut self, id: &String) -> (r: Option<(usize, String, InstalledPackageDataEntry)>)
        ensures
            match r {
                Some((idx, key, entry)) => {
                    &&& 0 <= idx < old(self).packages@.len()
                    &&& old(self).packages@[idx as int].0 == key
                    &&& old(self).packages@[idx as int].1 == entry
                    &&& key@ == id@
                    &&& forall|j: int| 0 <= j < idx ==> (#[trigger] old(self).packages@[j]).0@ != id@
                    &&& lookup(old(self).packages@, id@) == Some(entry)
                    &&& final(self).packages@ == old(self).packages@.remove(idx as int)
                },
                None => {
                    &&& lookup(old(self).packages@, id@) is None
                    &&& final(self).packages@ == old(self).packages@
                },
            },
    {
        let ghost pre = self.packages@;
        proof {
            assert(pre.skip(0) =~= pre);
        }
        let mut i: usize = 0;
        while i < self.packages.len()
            invariant
                0 <= i <= pre.len(),
                self.packages@ == pre,
                forall|j: int| 0 <= j < i ==> (#[trigger] pre[j]).0@ != id@,
                lookup(pre, id@) == lookup(pre.skip(i as int), id@),
            decreases pre.len() - i,
        {
            proof {
                assert(pre.skip(i as int).drop_first() =~= pre.skip(i + 1));
            }
            if str_eq(&self.packages[i].0, id) {
                proof {
                    assert(pre.skip(i as int)[0] == pre[i as int]);
                }
                let (key, entry) = self.packages.remove(i);
                return Some((i, key, entry));
            }
            i = i + 1;
        }
        proof {
            assert(pre.skip(pre.len() as int) =~= Seq::<(String, InstalledPackageDataEntry)>::empty());
        }
        None
    }

    /// Puts an entry back at the position it was taken from.
    pub fn restore_at(&mut self, idx: usize, key: String, entry: InstalledPackageDataEntry)
        requires
            idx <= old(self).packages@.len(),
        ensures
            final(self).packages@ == old(self).packages@.insert(idx as int, (key, entry)),
    {
        self.packages.insert(idx, (key, entry));
    }
}

/// Taking an entry out and restoring a replacement with the same key at the
/// same position updates that key and leaves every other key's lookup
/// unchanged.
pub proof fn lemma_take_restore<V>(
    pre: Seq<(String, V)>,
    idx: int,
    key: Seq<char>,
    v: V,
    post: Seq<(String, V)>,
)
    requires
        0 <= idx < pre.len(),
        pre[idx].0@ == key,
        forall|j: int| 0 <= j < idx ==> (#[trigger] pre[j]).0@ != key,
        post.len() == pre.len(),
        forall|j: int| 0 <= j < pre.len() && j != idx ==> post[j] == pre[j],
        post[idx].0@ == key,
        post[idx].1 == v,
    ensures
        lookup(post, key) == Some(v),
        forall|other: Seq<char>| other != key ==> #[trigger] lookup(post, other) == lookup(
            pre,
            other,
        ),
        unique_keys(pre) ==> unique_keys(post),
{
    crate::value::lemma_lookup_update(pre, idx, post, key, v);
}

} // verus!
