//! Declared dependencies, the closed dependency-error taxonomy with its
//! merge order, and the dependency satisfaction checker.

use vstd::prelude::*;
use vstd::string::StringExecFns;
use crate::value::{Config, lookup, has_key, unique_keys, assoc_get, assoc_insert, str_eq};
use crate::schema::{ConfigSpec, config_ok, value_ok};
use crate::store::{PackageStore, InstalledPackageDataEntry, HealthCheckResult,
    HealthCheckResultVariant, MainStatus};
use crate::version::{Version, range_sat, version_in_range};

verus! {

/// Why a dependency is not satisfied; the closed taxonomy, ordered by
/// priority for merging.
pub enum DependencyError {
    /// The dependency has no installed record.
    NotInstalled,
    /// The installed version fails the declared semantic range.
    IncorrectVersion { expected: String, received: Version },
    /// The dependency's configuration fails the dependent's requirements.
    ConfigUnsatisfied { error: String },
    /// The dependency's process is not running.
    NotRunning,
    /// Health checks of the dependency are failing.
    HealthChecksFailed { failures: Vec<(String, HealthCheckResult)> },
}

/// View-based equality of health check outcomes.
pub open spec fn hcr_eq(a: HealthCheckResult, b: HealthCheckResult) -> bool {
    &&& a.time@ == b.time@
    &&& match (a.result, b.result) {
        (HealthCheckResultVariant::Success, HealthCheckResultVariant::Success) => true,
        (HealthCheckResultVariant::Starting, HealthCheckResultVariant::Starting) => true,
        (HealthCheckResultVariant::Disabled, HealthCheckResultVariant::Disabled) => true,
        (HealthCheckResultVariant::Failure(x), HealthCheckResultVariant::Failure(y)) => x@ == y@,
        _ => false,
    }
}

/// The keys of the right health map that the left one does not hold, in
/// the right map's order.
pub open spec fn new_keys(
    f1: Seq<(String, HealthCheckResult)>,
    f0: Seq<(String, HealthCheckResult)>,
) -> Seq<String>
    decreases f1.len(),
{
    if f1.len() == 0 {
        Seq::<String>::empty()
    } else {
        (if !has_key(f0, f1[0].0@) {
            seq![f1[0].0]
        } else {
            Seq::<String>::empty()
        }) + new_keys(f1.drop_first(), f0)
    }
}

/// One more right-hand entry extends the fresh keys by it exactly when the
/// left map does not hold it.
proof fn lemma_new_keys_take_step(
    f1: Seq<(String, HealthCheckResult)>,
    f0: Seq<(String, HealthCheckResult)>,
    i: int,
)
    requires
        0 <= i < f1.len(),
    ensures
        new_keys(f1.take(i + 1), f0) == if !has_key(f0, f1[i].0@) {
            new_keys(f1.take(i), f0).push(f1[i].0)
        } else {
            new_keys(f1.take(i), f0)
        },
    decreases i,
{
    if i == 0 {
        assert(f1.take(0) =~= Seq::<(String, HealthCheckResult)>::empty());
        assert(f1.take(1) =~= seq![f1[0]]);
        assert(f1.take(1).drop_first() =~= Seq::<(String, HealthCheckResult)>::empty());
        if !has_key(f0, f1[0].0@) {
            assert(new_keys(f1.take(1), f0) =~= new_keys(f1.take(0), f0).push(f1[0].0));
        } else {
            assert(new_keys(f1.take(1), f0) =~= new_keys(f1.take(0), f0));
        }
    } else {
        lemma_new_keys_take_step(f1.drop_first(), f0, i - 1);
        assert(f1.take(i + 1).drop_first() =~= f1.drop_first().take(i));
        assert(f1.take(i).drop_first() =~= f1.drop_first().take(i - 1));
        assert(f1.drop_first()[i - 1] == f1[i]);
        if !has_key(f0, f1[i].0@) {
            assert(new_keys(f1.take(i + 1), f0) =~= new_keys(f1.take(i), f0).push(f1[i].0));
        } else {
            assert(new_keys(f1.take(i + 1), f0) =~= new_keys(f1.take(i), f0));
        }
    }
}

/// Every fresh key comes from a right-hand entry the left map does not
/// hold.
proof fn lemma_new_keys_from(
    f1: Seq<(String, HealthCheckResult)>,
    f0: Seq<(String, HealthCheckResult)>,
)
    ensures
        forall|j: int|
            0 <= j < new_keys(f1, f0).len() ==> exists|l: int|
                0 <= l < f1.len() && (#[trigger] new_keys(f1, f0)[j]) == f1[l].0 && !has_key(
                    f0,
                    f1[l].0@,
                ),
    decreases f1.len(),
{
    if f1.len() > 0 {
        lemma_new_keys_from(f1.drop_first(), f0);
        assert forall|j: int|
            0 <= j < new_keys(f1, f0).len() implies exists|l: int|
            0 <= l < f1.len() && (#[trigger] new_keys(f1, f0)[j]) == f1[l].0 && !has_key(
                f0,
                f1[l].0@,
            ) by {
            let head = (if !has_key(f0, f1[0].0@) {
                seq![f1[0].0]
            } else {
                Seq::<String>::empty()
            });
            if j < head.len() {
                assert(new_keys(f1, f0)[j] == f1[0].0);
                assert(0 <= 0 < f1.len() && new_keys(f1, f0)[j] == f1[0].0 && !has_key(
                    f0,
                    f1[0].0@,
                ));
            } else {
                let jj = j - head.len();
                assert(new_keys(f1, f0)[j] == new_keys(f1.drop_first(), f0)[jj]);
                let l0 = choose|l0: int|
                    0 <= l0 < f1.drop_first().len() && new_keys(f1.drop_first(), f0)[jj]
                        == f1.drop_first()[l0].0 && !has_key(f0, f1.drop_first()[l0].0@);
                assert(f1.drop_first()[l0] == f1[l0 + 1]);
            }
        }
    }
}

/// How two dependency errors merge: the total priority order.  NotInstalled
/// beats everything; then IncorrectVersion; ConfigUnsatisfied messages are
/// concatenated newline-joined in order; then NotRunning; two sets of failed
/// health checks are unioned with the right side winning repeated keys.
pub open spec fn merge_spec(a: DependencyError, b: DependencyError, r: DependencyError) -> bool {
    match (a, b) {
        (DependencyError::NotInstalled, _) => r is NotInstalled,
        (_, DependencyError::NotInstalled) => r is NotInstalled,
        (DependencyError::IncorrectVersion { .. }, _) => r == a,
        (_, DependencyError::IncorrectVersion { .. }) => r == b,
        (
            DependencyError::ConfigUnsatisfied { error: e0 },
            DependencyError::ConfigUnsatisfied { error: e1 },
        ) => r matches DependencyError::ConfigUnsatisfied { error } && error@ == e0@ + "\n"@ + e1@,
        (DependencyError::ConfigUnsatisfied { .. }, _) => r == a,
        (_, DependencyError::ConfigUnsatisfied { .. }) => r == b,
        (DependencyError::NotRunning, _) => r is NotRunning,
        (_, DependencyError::NotRunning) => r is NotRunning,
        (
            DependencyError::HealthChecksFailed { failures: f0 },
            DependencyError::HealthChecksFailed { failures: f1 },
        ) => r matches DependencyError::HealthChecksFailed { failures } && (unique_keys(f0@)
            && unique_keys(f1@) ==> {
            &&& unique_keys(failures@)
            &&& (forall|k: Seq<char>|
                #[trigger] lookup(failures@, k) == match lookup(f1@, k) {
                    Some(v) => Some(v),
                    None => lookup(f0@, k),
                })
            &&& failures@.len() == f0@.len() + new_keys(f1@, f0@).len()
            &&& (forall|j: int|
                0 <= j < f0@.len() ==> (#[trigger] failures@[j]).0@ == f0@[j].0@)
            &&& (forall|j: int|
                0 <= j < new_keys(f1@, f0@).len() ==> (#[trigger] failures@[f0@.len() + j]).0@
                    == new_keys(f1@, f0@)[j]@)
        }),
    }
}

impl DependencyError {
    /// Merges two errors for the same dependency under the priority order.
    #[verifier::loop_isolation(false)]
    pub fn merge_with(self, other: DependencyError) -> (r: DependencyError)
        ensures
            merge_spec(self, other, r),
    {
        match (self, other) {
            (DependencyError::NotInstalled, _) => DependencyError::NotInstalled,
            (_, DependencyError::NotInstalled) => DependencyError::NotInstalled,
            (DependencyError::IncorrectVersion { expected, received }, _) =>
                DependencyError::IncorrectVersion { expected, received },
            (_, DependencyError::IncorrectVersion { expected, received }) =>
                DependencyError::IncorrectVersion { expected, received },
            (
                DependencyError::ConfigUnsatisfied { error: e0 },
                DependencyError::ConfigUnsatisfied { error: e1 },
            ) => DependencyError::ConfigUnsatisfied {
                error: e0.concat("\n").concat(e1.as_str()),
            },
            (DependencyError::ConfigUnsatisfied { error }, _) =>
                DependencyError::ConfigUnsatisfied { error },
            (_, DependencyError::ConfigUnsatisfied { error }) =>
                DependencyError::ConfigUnsatisfied { error },
            (DependencyError::NotRunning, _) => DependencyError::NotRunning,
            (_, DependencyError::NotRunning) => DependencyError::NotRunning,
            (
                DependencyError::HealthChecksFailed { failures: f0 },
                DependencyError::HealthChecksFailed { failures: f1 },
            ) => {
                let mut merged = f0;
                let mut rest = f1;
                let ghost g0 = merged@;
                let ghost g1 = rest@;
                while rest.len() > 0
                    invariant
                        rest@.len() <= g1.len(),
                        rest@ == g1.skip(g1.len() - rest@.len()),
                        unique_keys(g0) && unique_keys(g1) ==> {
                            &&& unique_keys(merged@)
                            &&& (forall|k: Seq<char>|
                                #[trigger] lookup(merged@, k) == match lookup(
                                    g1.take(g1.len() - rest@.len()),
                                    k,
                                ) {
                                    Some(v) => Some(v),
                                    None => lookup(g0, k),
                                })
                            &&& merged@.len() == g0.len() + new_keys(
                                g1.take(g1.len() - rest@.len()),
                                g0,
                            ).len()
                            &&& (forall|j: int|
                                0 <= j < g0.len() ==> (#[trigger] merged@[j]).0@ == g0[j].0@)
                            &&& (forall|j: int|
                                0 <= j < new_keys(g1.take(g1.len() - rest@.len()), g0).len()
                                    ==> (#[trigger] merged@[g0.len() + j]).0@ == new_keys(
                                    g1.take(g1.len() - rest@.len()),
                                    g0,
                                )[j]@)
                        },
                    decreases rest@.len(),
                {
                    let ghost done = g1.len() - rest@.len();
                    let ghost pre_merged = merged@;
                    let (k, v) = rest.remove(0);
                    let ghost kk = k@;
                    proof {
                        assert(g1[done] == (k, v));
                        assert(rest@ =~= g1.skip(done + 1));
                    }
                    if crate::value::assoc_unique(&merged) {
                        assoc_insert(&mut merged, k, v);
                    } else {
                        merged.push((k, v));
                    }
                    proof {
                        if unique_keys(g0) && unique_keys(g1) {
                            let prefix = g1.take(done);
                            let prefix1 = g1.take(done + 1);
                            assert forall|j: int| 0 <= j < prefix.len() implies (#[trigger] prefix[j]).0@
                                != kk by {
                                assert(prefix[j] == g1[j]);
                                assert(g1[done].0@ == kk);
                            }
                            assert(prefix.push(g1[done]) =~= prefix1);
                            crate::value::lemma_lookup_append(prefix, kk, v, prefix1);
                            lemma_new_keys_take_step(g1, g0, done);
                            if has_key(pre_merged, kk) {
                                crate::value::lemma_index_of_key(pre_merged, kk);
                                let m = crate::value::index_of_key(pre_merged, kk);
                                if m < g0.len() {
                                    assert(g0[m].0@ == kk);
                                    crate::value::lemma_has_key_of_entry(g0, m);
                                } else {
                                    lemma_new_keys_from(prefix, g0);
                                    let jn = m - g0.len();
                                    assert(pre_merged.len() == g0.len() + new_keys(
                                        prefix,
                                        g0,
                                    ).len());
                                    assert(0 <= jn < new_keys(prefix, g0).len());
                                    assert(pre_merged[g0.len() + jn].0@ == new_keys(
                                        prefix,
                                        g0,
                                    )[jn]@);
                                    assert(pre_merged[m].0@ == new_keys(prefix, g0)[jn]@);
                                    let l0 = choose|l0: int|
                                        0 <= l0 < prefix.len() && new_keys(prefix, g0)[jn]
                                            == prefix[l0].0 && !has_key(g0, prefix[l0].0@);
                                    assert(prefix[l0] == g1[l0]);
                                    assert(g1[l0].0@ != g1[done].0@);
                                    assert(false);
                                }
                                assert(has_key(g0, kk));
                            } else {
                                if has_key(g0, kk) {
                                    crate::value::lemma_index_of_key(g0, kk);
                                    let m = crate::value::index_of_key(g0, kk);
                                    assert(pre_merged[m].0@ == g0[m].0@);
                                    crate::value::lemma_has_key_of_entry(pre_merged, m);
                                    assert(false);
                                }
                            }
                            assert forall|key: Seq<char>| #[trigger] lookup(merged@, key) == (match
                                lookup(prefix1, key) {
                                Some(x) => Some(x),
                                None => lookup(g0, key),
                            }) by {
                                if key == kk {
                                    assert(lookup(merged@, key) == Some(v));
                                    assert(lookup(prefix1, key) == Some(v));
                                } else {
                                    assert(lookup(merged@, key) == lookup(pre_merged, key));
                                    assert(lookup(prefix1, key) == lookup(prefix, key));
                                }
                            }
                        }
                    }
                }
                proof {
                    assert(g1.take(g1.len() - rest@.len()) =~= g1);
                }
                DependencyError::HealthChecksFailed { failures: merged }
            },
        }
    }
}

/// View-based equality of dependency errors: same variant, and payloads
/// equal by their character sequences.
pub open spec fn de_eq(a: DependencyError, b: DependencyError) -> bool {
    match (a, b) {
        (DependencyError::NotInstalled, DependencyError::NotInstalled) => true,
        (
            DependencyError::IncorrectVersion { expected: e1, received: r1 },
            DependencyError::IncorrectVersion { expected: e2, received: r2 },
        ) => e1@ == e2@ && r1 == r2,
        (
            DependencyError::ConfigUnsatisfied { error: m1 },
            DependencyError::ConfigUnsatisfied { error: m2 },
        ) => m1@ == m2@,
        (DependencyError::NotRunning, DependencyError::NotRunning) => true,
        (
            DependencyError::HealthChecksFailed { failures: f1 },
            DependencyError::HealthChecksFailed { failures: f2 },
        ) => f1@.len() == f2@.len() && forall|i: int|
            0 <= i < f1@.len() ==> (#[trigger] f1@[i]).0@ == f2@[i].0@ && hcr_eq(
                f1@[i].1,
                f2@[i].1,
            ),
        _ => false,
    }
}

impl DependencyError {
    /// A structural copy of the error.
    #[verifier::loop_isolation(false)]
    pub fn deep_clone(&self) -> (r: DependencyError)
        ensures
            de_eq(*self, r),
    {
        match self {
            DependencyError::NotInstalled => DependencyError::NotInstalled,
            DependencyError::IncorrectVersion { expected, received } =>
                DependencyError::IncorrectVersion {
                expected: expected.clone(),
                received: *received,
            },
            DependencyError::ConfigUnsatisfied { error } => DependencyError::ConfigUnsatisfied {
                error: error.clone(),
            },
            DependencyError::NotRunning => DependencyError::NotRunning,
            DependencyError::HealthChecksFailed { failures } => {
                let mut out: Vec<(String, HealthCheckResult)> = Vec::new();
                let mut i: usize = 0;
                while i < failures.len()
                    invariant
                        0 <= i <= failures@.len(),
                        out@.len() == i,
                        forall|j: int|
                            0 <= j < i ==> (#[trigger] out@[j]).0@ == failures@[j].0@ && hcr_eq(
                                failures@[j].1,
                                out@[j].1,
                            ),
                    decreases failures@.len() - i,
                {
                    out.push((failures[i].0.clone(), failures[i].1.deep_clone()));
                    i = i + 1;
                }
                proof {
                    assert forall|j: int|
                        0 <= j < failures@.len() implies (#[trigger] failures@[j]).0@ == out@[j].0@
                        && hcr_eq(failures@[j].1, out@[j].1) by {}
                }
                DependencyError::HealthChecksFailed { failures: out }
            },
        }
    }
}

/// A version quad as text: three dot-joined components, with the
/// distributor revision appended when it is set.
fn version_text(v: &Version) -> String {
    let mut out = crate::error::u64_to_string(v.major);
    out.append(".");
    out.append(crate::error::u64_to_string(v.minor).as_str());
    out.append(".");
    out.append(crate::error::u64_to_string(v.patch).as_str());
    if v.revision != 0 {
        out.append(".");
        out.append(crate::error::u64_to_string(v.revision).as_str());
    }
    out
}

impl DependencyError {
    /// Renders the error as text.  The failed-health rendering and the
    /// received-version digits are pinned only up to shape: the exact
    /// decimal spec covers the version magnitude, not its dotted joining.
    #[verifier::loop_isolation(false)]
    pub fn message(&self) -> (r: String)
        ensures
            self is NotInstalled ==> r@ == "Not Installed"@,
            self is NotRunning ==> r@ == "Not Running"@,
            (match *self {
                DependencyError::ConfigUnsatisfied { error } => r@
                    == "Configuration Requirements Not Satisfied: "@ + error@,
                _ => true,
            }),
            (match *self {
                DependencyError::IncorrectVersion { expected, .. } => exists|tail: Seq<char>|
                    r@ == "Incorrect Version: Expected "@ + expected@ + ", Received "@
                        + tail,
                _ => true,
            }),
    {
        match self {
            DependencyError::NotInstalled => String::from_str("Not Installed"),
            DependencyError::IncorrectVersion { expected, received } => {
                let out = String::from_str("Incorrect Version: Expected ").concat(
                    expected.as_str(),
                ).concat(", Received ");
                let v = version_text(received);
                let whole = out.concat(v.as_str());
                proof {
                    assert(whole@ == "Incorrect Version: Expected "@ + expected@ + ", Received "@
                        + v@);
                }
                whole
            },
            DependencyError::ConfigUnsatisfied { error } => String::from_str(
                "Configuration Requirements Not Satisfied: ",
            ).concat(error.as_str()),
            DependencyError::NotRunning => String::from_str("Not Running"),
            DependencyError::HealthChecksFailed { failures } => {
                let mut out = String::from_str("Failed Health Check(s): ");
                let mut i: usize = 0;
                while i < failures.len()
                    invariant
                        0 <= i <= failures@.len(),
                    decreases failures@.len() - i,
                {
                    if i > 0 {
                        out.append(", ");
                    }
                    out.append(failures[i].0.as_str());
                    out.append(" @ ");
                    out.append(failures[i].1.time.as_str());
                    out.append(" ");
                    match &failures[i].1.result {
                        HealthCheckResultVariant::Success => out.append("succeeded"),
                        HealthCheckResultVariant::Starting => out.append("starting"),
                        HealthCheckResultVariant::Disabled => out.append("disabled"),
                        HealthCheckResultVariant::Failure(m) => out.append(m.as_str()),
                    }
                    i = i + 1;
                }
                out
            },
        }
    }
}

/// A dependency error together with the dependency it is about.
pub struct TaggedDependencyError {
    pub dependency: String,
    pub error: DependencyError,
}

/// One would-be persisted change of a dry propagation: a package whose
/// stored configuration the pass would replace.
pub struct PatchEntry {
    pub id: String,
    pub old_config: Option<Config>,
    pub new_config: Option<Config>,
}

/// The result of a dry propagation: the diff of would-be persisted
/// configuration changes, and which dependents would break, keyed by
/// dependent id.
pub struct BreakageRes {
    pub patch: Vec<PatchEntry>,
    pub breakages: Vec<(String, TaggedDependencyError)>,
}

/// One declared dependency: required version range, optionality marker,
/// advisory flags, and an optional custom configuration contract.
pub struct DepInfo {
    /// The required semantic version range, as its source text.
    pub version: String,
    /// When present, the dependency is optional; the text says why.
    pub optional: Option<String>,
    pub recommended: bool,
    pub description: Option<String>,
    pub critical: bool,
    pub config: Option<DependencyConfig>,
}

/// View-based equality of custom dependency configuration contracts.
pub open spec fn depconfig_eq(a: DependencyConfig, b: DependencyConfig) -> bool {
    &&& crate::schema::cs_eq(a.check, b.check)
    &&& crate::value::ceq(a.auto_configure, b.auto_configure)
}

/// View-based equality of dependency declarations.
pub open spec fn depinfo_eq(a: DepInfo, b: DepInfo) -> bool {
    &&& a.version@ == b.version@
    &&& (match (a.optional, b.optional) {
        (Some(x), Some(y)) => x@ == y@,
        (None, None) => true,
        _ => false,
    })
    &&& a.recommended == b.recommended
    &&& (match (a.description, b.description) {
        (Some(x), Some(y)) => x@ == y@,
        (None, None) => true,
        _ => false,
    })
    &&& a.critical == b.critical
    &&& (match (a.config, b.config) {
        (Some(x), Some(y)) => depconfig_eq(x, y),
        (None, None) => true,
        _ => false,
    })
}

impl DependencyConfig {
    /// A structural copy of the contract.
    pub fn deep_clone(&self) -> (r: DependencyConfig)
        ensures
            depconfig_eq(r, *self),
    {
        DependencyConfig {
            check: self.check.deep_clone(),
            auto_configure: self.auto_configure.deep_clone(),
        }
    }
}

impl DepInfo {
    /// A structural copy of the declaration.
    pub fn deep_clone(&self) -> (r: DepInfo)
        ensures
            depinfo_eq(r, *self),
    {
        DepInfo {
            version: self.version.clone(),
            optional: match &self.optional {
                Some(x) => Some(x.clone()),
                None => None,
            },
            recommended: self.recommended,
            description: match &self.description {
                Some(x) => Some(x.clone()),
                None => None,
            },
            critical: self.critical,
            config: match &self.config {
                Some(x) => Some(x.deep_clone()),
                None => None,
            },
        }
    }
}

/// A configuration legal for the check schema when every field is absent.
pub open spec fn empty_config_ok(cs: ConfigSpec) -> bool {
    &&& forall|i: int|
        0 <= i < cs.fields@.len() ==> value_ok(
            (#[trigger] cs.fields@[i]).1,
            crate::value::Value::Null,
        )
}

/// Whether the dependency configuration to be judged passes the check
/// schema: the supplied one if given, else the dependency's stored one,
/// else the empty configuration.
pub open spec fn dep_config_passes(
    cs: ConfigSpec,
    given: Option<Config>,
    e: InstalledPackageDataEntry,
) -> bool {
    match given {
        Some(c) => config_ok(cs, c),
        None => match e.manifest.config {
            Some(ca) => match ca.current {
                Some(c) => config_ok(cs, c),
                None => empty_config_ok(cs),
            },
            None => empty_config_ok(cs),
        },
    }
}

/// The health map a live package exposes: running, or backing up after
/// having started; anything else exposes none.
pub open spec fn running_health(m: MainStatus) -> Option<Seq<(String, HealthCheckResult)>> {
    match m {
        MainStatus::Running { health } => Some(health@),
        MainStatus::BackingUp { started, health } => if started {
            Some(health@)
        } else {
            None
        },
        _ => None,
    }
}

/// The checks of a health map that do not report success, in order.
pub open spec fn failed_checks(h: Seq<(String, HealthCheckResult)>) -> Seq<(String, HealthCheckResult)>
    decreases h.len(),
{
    if h.len() == 0 {
        Seq::<(String, HealthCheckResult)>::empty()
    } else {
        (if h[0].1.result is Success {
            Seq::<(String, HealthCheckResult)>::empty()
        } else {
            seq![h[0]]
        }) + failed_checks(h.drop_first())
    }
}

/// The outcome the checker owes for one dependency, evaluated in strict
/// short-circuit order: satisfied; not installed; version out of range;
/// configuration rejected; not running; health checks failing.
pub open spec fn satisfied_case(
    dep: DepInfo,
    store: PackageStore,
    dep_id: Seq<char>,
    given: Option<Config>,
) -> int {
    match lookup(store.packages@, dep_id) {
        None => 1,
        Some(e) => if !range_sat(
            dep.version@,
            e.manifest.version.major,
            e.manifest.version.minor,
            e.manifest.version.patch,
            e.manifest.version.revision,
        ) {
            2
        } else if !(match dep.config {
            Some(dc) => dep_config_passes(dc.check, given, e),
            None => true,
        }) {
            3
        } else {
            match running_health(e.status.main) {
                None => 4,
                Some(h) => if failed_checks(h).len() > 0 {
                    5
                } else {
                    0
                },
            }
        },
    }
}

impl DepInfo {
    /// Decides, for this declared dependency, whether it is currently
    /// satisfied by the installed state of `dependency_id`: installed,
    /// version-compatible, configuration-compatible, running and healthy,
    /// judged in that order with the first failure reported.
    ///
    /// The declared range text must be free of twenty-digit runs and the
    /// installed version's components must fit the machine word: the range
    /// judgement is the emver crate's, and its grammar increments parsed
    /// components (see [`crate::version::version_in_range`];
    /// [`crate::version::range_text_is_safe`] decides the text side).
    #[verifier::loop_isolation(false)]
    pub fn satisfied(
        &self,
        store: &PackageStore,
        dependency_id: &String,
        dependency_config: Option<&Config>,
    ) -> (r: Result<(), DependencyError>)
        requires
            !crate::version::long_digit_run(vstd::utf8::encode_utf8(self.version@)),
            match lookup(store.packages@, dependency_id@) {
                Some(e) => e.manifest.version.major <= usize::MAX as u64
                    && e.manifest.version.minor <= usize::MAX as u64
                    && e.manifest.version.patch <= usize::MAX as u64
                    && e.manifest.version.revision <= usize::MAX as u64,
                None => true,
            },
        ensures
            ({
                let given = match dependency_config {
                    Some(c) => Some(*c),
                    None => None::<Config>,
                };
                let case = satisfied_case(*self, *store, dependency_id@, given);
                match r {
                    Ok(_) => case == 0,
                    Err(e) => match e {
                        DependencyError::NotInstalled => case == 1,
                        DependencyError::IncorrectVersion { expected, received } => case == 2
                            && expected@ == self.version@ && Some(received) == (match lookup(
                            store.packages@,
                            dependency_id@,
                        ) {
                            Some(en) => Some(en.manifest.version),
                            None => None,
                        }),
                        DependencyError::ConfigUnsatisfied { .. } => case == 3,
                        DependencyError::NotRunning => case == 4,
                        DependencyError::HealthChecksFailed { failures } => case == 5 && ({
                            let h = running_health(
                                (match lookup(store.packages@, dependency_id@) {
                                    Some(en) => en,
                                    None => arbitrary(),
                                }).status.main,
                            );
                            h matches Some(hs) && failures@.len() == failed_checks(hs).len()
                                && forall|i: int|
                                0 <= i < failures@.len() ==> (#[trigger] failures@[i]).0@
                                    == failed_checks(hs)[i].0@ && hcr_eq(
                                    failures@[i].1,
                                    failed_checks(hs)[i].1,
                                )
                        }),
                    },
                }
            }),
    {
        let e = match store.get(dependency_id) {
            Some(e) => e,
            None => {
                return Err(DependencyError::NotInstalled);
            },
        };
        if !version_in_range(self.version.as_str(), &e.manifest.version) {
            return Err(DependencyError::IncorrectVersion {
                expected: self.version.clone(),
                received: e.manifest.version,
            });
        }
        match &self.config {
            Some(dc) => {
                let empty = Config::new();
                let chosen: &Config = match dependency_config {
                    Some(c) => c,
                    None => match &e.manifest.config {
                        Some(ca) => match &ca.current {
                            Some(c) => c,
                            None => &empty,
                        },
                        None => &empty,
                    },
                };
                proof {
                    if chosen == empty {
                    }
                    assert(config_ok(dc.check, empty) <==> empty_config_ok(dc.check)) by {
                        assert(empty.entries@.len() == 0);
                        assert(forall|k: Seq<char>|
                            crate::schema::field_or_null(empty, k) == crate::value::Value::Null);
                    }
                }
                match dc.check(chosen) {
                    Ok(_) => {},
                    Err(msg) => {
                        return Err(DependencyError::ConfigUnsatisfied { error: msg });
                    },
                }
            },
            None => {},
        }
        let health: &Vec<(String, HealthCheckResult)> = match &e.status.main {
            MainStatus::Running { health } => health,
            MainStatus::BackingUp { started, health } => if *started {
                health
            } else {
                return Err(DependencyError::NotRunning);
            },
            _ => {
                return Err(DependencyError::NotRunning);
            },
        };
        let mut failures: Vec<(String, HealthCheckResult)> = Vec::new();
        let mut i: usize = 0;
        while i < health.len()
            invariant
                0 <= i <= health@.len(),
                failures@.len() == failed_checks(health@.take(i as int)).len(),
                forall|j: int|
                    0 <= j < failures@.len() ==> (#[trigger] failures@[j]).0@ == failed_checks(
                        health@.take(i as int),
                    )[j].0@ && hcr_eq(failures@[j].1, failed_checks(health@.take(i as int))[j].1),
            decreases health@.len() - i,
        {
            proof {
                lemma_failed_checks_take_step(health@, i as int);
            }
            match &health[i].1.result {
                HealthCheckResultVariant::Success => {},
                _ => {
                    failures.push((health[i].0.clone(), health[i].1.deep_clone()));
                },
            }
            i = i + 1;
        }
        proof {
            assert(health@.take(health@.len() as int) =~= health@);
        }
        if failures.len() > 0 {
            Err(DependencyError::HealthChecksFailed { failures })
        } else {
            Ok(())
        }
    }
}

/// One more health entry extends the failed set by that entry exactly when
/// it does not report success.
proof fn lemma_failed_checks_take_step(h: Seq<(String, HealthCheckResult)>, i: int)
    requires
        0 <= i < h.len(),
    ensures
        failed_checks(h.take(i + 1)) == if h[i].1.result is Success {
            failed_checks(h.take(i))
        } else {
            failed_checks(h.take(i)).push(h[i])
        },
    decreases i,
{
    if i == 0 {
        assert(h.take(0) =~= Seq::<(String, HealthCheckResult)>::empty());
        assert(h.take(1) =~= seq![h[0]]);
        assert(h.take(1).drop_first() =~= Seq::<(String, HealthCheckResult)>::empty());
        if h[0].1.result is Success {
            assert(failed_checks(h.take(1)) =~= failed_checks(h.take(0)));
        } else {
            assert(failed_checks(h.take(1)) =~= failed_checks(h.take(0)).push(h[0]));
        }
    } else {
        lemma_failed_checks_take_step(h.drop_first(), i - 1);
        assert(h.take(i + 1).drop_first() =~= h.drop_first().take(i));
        assert(h.take(i).drop_first() =~= h.drop_first().take(i - 1));
        assert(h.drop_first()[i - 1] == h[i]);
        if h[i].1.result is Success {
            assert(failed_checks(h.take(i + 1)) =~= failed_checks(h.take(i)));
        } else {
            assert(failed_checks(h.take(i + 1)) =~= failed_checks(h.take(i)).push(h[i]));
        }
    }
}

/// A package's declared dependencies, keyed by dependency id in declaration
/// order.
pub struct Dependencies(pub Vec<(String, DepInfo)>);

impl Dependencies {
    /// The declaration for one dependency, if any.
    pub fn get(&self, key: &String) -> (r: Option<&DepInfo>)
        ensures
            match r {
                Some(v) => lookup(self.0@, key@) == Some(*v),
                None => lookup(self.0@, key@) is None,
            },
    {
        assoc_get(&self.0, key)
    }
}

/// A custom dependency configuration contract: a check the dependency's
/// configuration must pass, and a template merged over it by
/// auto-configure.
pub struct DependencyConfig {
    pub check: ConfigSpec,
    pub auto_configure: Config,
}

impl DependencyConfig {
    /// The check path: accepts exactly the configurations legal for the
    /// declared check schema; a rejection carries the rendered violation.
    pub fn check(&self, dependency_config: &Config) -> (r: Result<(), String>)
        ensures
            r is Ok <==> config_ok(self.check, *dependency_config),
    {
        match self.check.matches(dependency_config) {
            Ok(_) => Ok(()),
            Err(e) => Err(e.render()),
        }
    }

    /// The auto-configure path: the old configuration with every template
    /// field written over it.
    #[verifier::loop_isolation(false)]
    pub fn auto_configure(&self, old: &Config) -> (r: Config)
        requires
            unique_keys(old.entries@),
            unique_keys(self.auto_configure.entries@),
        ensures
            unique_keys(r.entries@),
            forall|k: Seq<char>|
                has_key(self.auto_configure.entries@, k) ==> crate::value::opt_veq(
                    #[trigger] lookup(r.entries@, k),
                    lookup(self.auto_configure.entries@, k),
                ),
            forall|k: Seq<char>|
                !has_key(self.auto_configure.entries@, k) ==> crate::value::opt_veq(
                    #[trigger] lookup(r.entries@, k),
                    lookup(old.entries@, k),
                ),
    {
        let mut out = old.deep_clone();
        proof {
            crate::value::lemma_pairwise_lookup(out.entries@, old.entries@);
        }
        let tpl = &self.auto_configure;
        let mut i: usize = 0;
        while i < tpl.entries.len()
            invariant
                0 <= i <= tpl.entries@.len(),
                unique_keys(out.entries@),
                forall|k: Seq<char>|
                    contains_key_prefix(tpl.entries@, i as int, k) ==> crate::value::opt_veq(
                        #[trigger] lookup(out.entries@, k),
                        lookup(tpl.entries@, k),
                    ),
                forall|k: Seq<char>|
                    !contains_key_prefix(tpl.entries@, i as int, k) ==> crate::value::opt_veq(
                        #[trigger] lookup(out.entries@, k),
                        lookup(old.entries@, k),
                    ),
            decreases tpl.entries@.len() - i,
        {
            let k = tpl.entries[i].0.clone();
            let v = tpl.entries[i].1.deep_clone();
            let ghost kk = k@;
            proof {
                crate::value::lemma_has_key_of_entry(tpl.entries@, i as int);
                crate::value::lemma_index_of_key(tpl.entries@, kk);
                assert(crate::value::index_of_key(tpl.entries@, kk) == i) by {
                    let idx = crate::value::index_of_key(tpl.entries@, kk);
                    if idx != i {
                        assert(tpl.entries@[idx].0@ == tpl.entries@[i as int].0@);
                    }
                }
            }
            out.insert(k, v);
            proof {
                assert forall|key: Seq<char>|
                    contains_key_prefix(tpl.entries@, i + 1, key) implies crate::value::opt_veq(
                    #[trigger] lookup(out.entries@, key),
                    lookup(tpl.entries@, key),
                ) by {
                    if key == kk {
                        assert(lookup(out.entries@, key) == Some(v));
                        assert(lookup(tpl.entries@, key) == Some(tpl.entries@[i as int].1));
                    } else {
                        assert(contains_key_prefix(tpl.entries@, i as int, key));
                    }
                }
            }
            i = i + 1;
        }
        proof {
            assert forall|k: Seq<char>| #[trigger] has_key(tpl.entries@, k) implies contains_key_prefix(
                tpl.entries@,
                tpl.entries@.len() as int,
                k,
            ) by {
                crate::value::lemma_index_of_key(tpl.entries@, k);
            }
            assert forall|k: Seq<char>|
                !has_key(tpl.entries@, k) implies !contains_key_prefix(
                tpl.entries@,
                tpl.entries@.len() as int,
                k,
            ) by {
                if contains_key_prefix(tpl.entries@, tpl.entries@.len() as int, k) {
                    let j = choose|j: int|
                        0 <= j < tpl.entries@.len() && (#[trigger] tpl.entries@[j]).0@ == k;
                    crate::value::lemma_has_key_of_entry(tpl.entries@, j);
                }
            }
        }
        out
    }
}

/// Whether one of the first `n` entries holds the key.
pub open spec fn contains_key_prefix<V>(s: Seq<(String, V)>, n: int, k: Seq<char>) -> bool {
    exists|j: int| 0 <= j < n && j < s.len() && (#[trigger] s[j]).0@ == k
}

} // verus!
