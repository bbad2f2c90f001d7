//! The configuration propagation engine: resolves, validates, persists and
//! cascades a configuration change across the dependency graph, recording
//! non-fatal breakages of dependents without aborting the pass.

use vstd::prelude::*;
use vstd::string::StringExecFns;
use crate::value::{Value, Config, veq, ceq, lookup, has_key, unique_keys, assoc_insert, str_eq,
    lemma_veq_sym, lemma_veq_trans};
use crate::schema::{ConfigSpec, config_ok};
use crate::pointer::{PackagePointerSpecVariant, ValueSpecPointer, spec_select, select};
use crate::store::{PackageStore, InstalledPackageDataEntry, CurrentDependencyInfo, ConfigAction,
    ConfigRes, store_wf, same_packages, actions_preserved, declared_deps_preserved, entry_wf,
    cdi_eq};
use crate::deps::{DependencyError, TaggedDependencyError, BreakageRes, PatchEntry};
use crate::error::{Error, ErrorKind};
use crate::rng::Rng;

verus! {

/// Whether one projection descriptor selects differently from the old and
/// the new configuration: only configuration projections can change.
pub open spec fn target_changed(t: PackagePointerSpecVariant, prev: Value, next: Value) -> bool {
    match t {
        PackagePointerSpecVariant::Config { selector, multi } => !veq(
            spec_select(selector@, 0, prev),
            spec_select(selector@, 0, next),
        ),
        _ => false,
    }
}

/// Whether a dependent's bookkeeping holds any configuration projection
/// that selects differently before and after the change.
pub open spec fn projection_changed(info: CurrentDependencyInfo, prev: Value, next: Value) -> bool {
    exists|p: int|
        0 <= p < info.pointers@.len() && target_changed(#[trigger] info.pointers@[p], prev, next)
}

/// The dependents a pass cascades into, in stored order: every dependent
/// other than the package itself whose projection of this package's
/// configuration changed, once each.
pub open spec fn cascade_targets(
    deps: Seq<(String, CurrentDependencyInfo)>,
    self_id: Seq<char>,
    prev: Value,
    next: Value,
) -> Seq<String>
    decreases deps.len(),
{
    if deps.len() == 0 {
        Seq::<String>::empty()
    } else {
        (if deps[0].0@ != self_id && projection_changed(deps[0].1, prev, next) {
            seq![deps[0].0]
        } else {
            Seq::<String>::empty()
        }) + cascade_targets(deps.drop_first(), self_id, prev, next)
    }
}

/// Changing a configuration that no dependent projects through triggers no
/// cascade at all.
pub proof fn lemma_no_change_no_cascade(
    deps: Seq<(String, CurrentDependencyInfo)>,
    self_id: Seq<char>,
    prev: Value,
    next: Value,
)
    requires
        forall|i: int|
            0 <= i < deps.len() ==> !((#[trigger] deps[i]).0@ != self_id && projection_changed(
                deps[i].1,
                prev,
                next,
            )),
    ensures
        cascade_targets(deps, self_id, prev, next).len() == 0,
    decreases deps.len(),
{
    if deps.len() > 0 {
        assert forall|i: int|
            0 <= i < deps.drop_first().len() implies !((#[trigger] deps.drop_first()[i]).0@
            != self_id && projection_changed(deps.drop_first()[i].1, prev, next)) by {
            assert(deps.drop_first()[i] == deps[i + 1]);
        }
        lemma_no_change_no_cascade(deps.drop_first(), self_id, prev, next);
    }
}

/// Changing a configuration that exactly one dependent projects through
/// triggers exactly one cascade, into that dependent, however many pointers
/// it holds into the changed field.
pub proof fn lemma_single_change_single_cascade(
    deps: Seq<(String, CurrentDependencyInfo)>,
    self_id: Seq<char>,
    prev: Value,
    next: Value,
    w: int,
)
    requires
        0 <= w < deps.len(),
        deps[w].0@ != self_id,
        projection_changed(deps[w].1, prev, next),
        forall|i: int|
            0 <= i < deps.len() && i != w ==> !((#[trigger] deps[i]).0@ != self_id
                && projection_changed(deps[i].1, prev, next)),
    ensures
        cascade_targets(deps, self_id, prev, next) == seq![deps[w].0],
    decreases deps.len(),
{
    if w == 0 {
        assert forall|i: int|
            0 <= i < deps.drop_first().len() implies !((#[trigger] deps.drop_first()[i]).0@
            != self_id && projection_changed(deps.drop_first()[i].1, prev, next)) by {
            assert(deps.drop_first()[i] == deps[i + 1]);
        }
        lemma_no_change_no_cascade(deps.drop_first(), self_id, prev, next);
        assert(cascade_targets(deps.drop_first(), self_id, prev, next) =~= Seq::<String>::empty());
        assert(cascade_targets(deps, self_id, prev, next) =~= seq![deps[0].0]);
    } else {
        assert(deps.drop_first()[w - 1] == deps[w]);
        assert forall|i: int|
            0 <= i < deps.drop_first().len() && i != w - 1 implies !((#[trigger] deps.drop_first()[i]).0@
            != self_id && projection_changed(deps.drop_first()[i].1, prev, next)) by {
            assert(deps.drop_first()[i] == deps[i + 1]);
        }
        lemma_single_change_single_cascade(deps.drop_first(), self_id, prev, next, w - 1);
        assert(cascade_targets(deps, self_id, prev, next) =~= seq![deps[w].0]);
    }
}

/// One more dependent extends the cascade set by it exactly when its
/// projection changed and it is not the package itself.
proof fn lemma_cascade_take_step(
    deps: Seq<(String, CurrentDependencyInfo)>,
    self_id: Seq<char>,
    prev: Value,
    next: Value,
    i: int,
)
    requires
        0 <= i < deps.len(),
    ensures
        cascade_targets(deps.take(i + 1), self_id, prev, next) == if deps[i].0@ != self_id
            && projection_changed(deps[i].1, prev, next) {
            cascade_targets(deps.take(i), self_id, prev, next).push(deps[i].0)
        } else {
            cascade_targets(deps.take(i), self_id, prev, next)
        },
    decreases i,
{
    if i == 0 {
        assert(deps.take(0) =~= Seq::<(String, CurrentDependencyInfo)>::empty());
        assert(deps.take(1) =~= seq![deps[0]]);
        assert(deps.take(1).drop_first() =~= Seq::<(String, CurrentDependencyInfo)>::empty());
        if deps[0].0@ != self_id && projection_changed(deps[0].1, prev, next) {
            assert(cascade_targets(deps.take(1), self_id, prev, next) =~= cascade_targets(
                deps.take(0),
                self_id,
                prev,
                next,
            ).push(deps[0].0));
        } else {
            assert(cascade_targets(deps.take(1), self_id, prev, next) =~= cascade_targets(
                deps.take(0),
                self_id,
                prev,
                next,
            ));
        }
    } else {
        lemma_cascade_take_step(deps.drop_first(), self_id, prev, next, i - 1);
        assert(deps.take(i + 1).drop_first() =~= deps.drop_first().take(i));
        assert(deps.take(i).drop_first() =~= deps.drop_first().take(i - 1));
        assert(deps.drop_first()[i - 1] == deps[i]);
        if deps[i].0@ != self_id && projection_changed(deps[i].1, prev, next) {
            assert(cascade_targets(deps.take(i + 1), self_id, prev, next) =~= cascade_targets(
                deps.take(i),
                self_id,
                prev,
                next,
            ).push(deps[i].0));
        } else {
            assert(cascade_targets(deps.take(i + 1), self_id, prev, next) =~= cascade_targets(
                deps.take(i),
                self_id,
                prev,
                next,
            ));
        }
    }
}

/// Rebuilds a package's outbound bookkeeping from scratch: a fresh map
/// seeded with every required declared dependency, every package pointer
/// appended to its target's entry, every apply-reported dependency merged;
/// system pointers are collected apart.  The keys of the result are exactly
/// the required declared dependencies, the packages some pointer targets,
/// and the reported dependencies.
#[verifier::loop_isolation(false)]
fn rebuild_bookkeeping(
    declared: &Vec<(String, crate::deps::DepInfo)>,
    ptrs: &Vec<ValueSpecPointer>,
    reports: &Vec<(String, Vec<String>)>,
) -> (r: (Vec<crate::pointer::SystemPointerSpec>, Vec<(String, CurrentDependencyInfo)>))
    ensures
        unique_keys(r.1@),
        forall|k: Seq<char>|
            #[trigger] has_key(r.1@, k) <==> ((exists|j: int|
                0 <= j < declared@.len() && ((#[trigger] declared@[j]).0@ == k && declared@[
                    j
                ].1.optional is None)) || pointer_target(ptrs@, k) || (exists|j: int|
                0 <= j < reports@.len() && (#[trigger] reports@[j]).0@ == k)),
{
    let mut new_sp: Vec<crate::pointer::SystemPointerSpec> = Vec::new();
    let mut cur_deps: Vec<(String, CurrentDependencyInfo)> = Vec::new();
    let mut d: usize = 0;
    while d < declared.len()
        invariant
            0 <= d <= declared@.len(),
            unique_keys(cur_deps@),
            forall|k: Seq<char>|
                #[trigger] has_key(cur_deps@, k) <==> exists|j: int|
                    0 <= j < d && ((#[trigger] declared@[j]).0@ == k && declared@[
                        j
                    ].1.optional is None),
        decreases declared@.len() - d,
    {
        let ghost pre_cd = cur_deps@;
        let ghost dd = d as int;
        if declared[d].1.optional.is_none() {
            let ghost key_d = declared@[dd].0@;
            assoc_insert(&mut cur_deps, declared[d].0.clone(), CurrentDependencyInfo::empty());
            proof {
                assert forall|k: Seq<char>|
                    #[trigger] has_key(cur_deps@, k) <==> exists|j: int|
                    0 <= j < dd + 1 && ((#[trigger] declared@[j]).0@ == k && declared@[
                        j
                    ].1.optional is None) by {
                    if has_key(cur_deps@, k) {
                        if k == key_d {
                            assert(0 <= dd < dd + 1 && declared@[dd].0@ == k && declared@[
                                dd
                            ].1.optional is None);
                        } else {
                            assert(lookup(cur_deps@, k) == lookup(pre_cd, k));
                            assert(has_key(pre_cd, k));
                        }
                    }
                    if exists|j: int|
                        0 <= j < dd + 1 && ((#[trigger] declared@[j]).0@ == k && declared@[
                            j
                        ].1.optional is None) {
                        let j = choose|j: int|
                            0 <= j < dd + 1 && ((#[trigger] declared@[j]).0@ == k && declared@[
                                j
                            ].1.optional is None);
                        if j < dd {
                            assert(has_key(pre_cd, k));
                            if k != key_d {
                                assert(lookup(cur_deps@, k) == lookup(pre_cd, k));
                            }
                        }
                        assert(has_key(cur_deps@, k));
                    }
                }
            }
        } else {
            proof {
                assert forall|k: Seq<char>|
                    #[trigger] has_key(cur_deps@, k) <==> exists|j: int|
                    0 <= j < dd + 1 && ((#[trigger] declared@[j]).0@ == k && declared@[
                        j
                    ].1.optional is None) by {
                    if exists|j: int|
                        0 <= j < dd + 1 && ((#[trigger] declared@[j]).0@ == k && declared@[
                            j
                        ].1.optional is None) {
                        let j = choose|j: int|
                            0 <= j < dd + 1 && ((#[trigger] declared@[j]).0@ == k && declared@[
                                j
                            ].1.optional is None);
                        assert(j < dd);
                    }
                }
            }
        }
        d = d + 1;
    }
    let mut pi: usize = 0;
    while pi < ptrs.len()
        invariant
            0 <= pi <= ptrs@.len(),
            unique_keys(cur_deps@),
            forall|k: Seq<char>|
                #[trigger] has_key(cur_deps@, k) <==> ((exists|j: int|
                    0 <= j < declared@.len() && ((#[trigger] declared@[j]).0@ == k && declared@[
                        j
                    ].1.optional is None)) || pointer_target(ptrs@.take(pi as int), k)),
        decreases ptrs@.len() - pi,
    {
        proof {
            lemma_pointer_target_take_step(ptrs@, pi as int);
        }
        match &ptrs[pi] {
            ValueSpecPointer::Package(p) => {
                add_pointer(&mut cur_deps, &p.package_id, p.target.deep_clone());
            },
            ValueSpecPointer::System(sp) => {
                new_sp.push(sp.deep_clone());
            },
        }
        pi = pi + 1;
    }
    proof {
        assert(ptrs@.take(ptrs@.len() as int) =~= ptrs@);
    }
    let mut a: usize = 0;
    while a < reports.len()
        invariant
            0 <= a <= reports@.len(),
            unique_keys(cur_deps@),
            forall|k: Seq<char>|
                #[trigger] has_key(cur_deps@, k) <==> ((exists|j: int|
                    0 <= j < declared@.len() && ((#[trigger] declared@[j]).0@ == k && declared@[
                        j
                    ].1.optional is None)) || pointer_target(ptrs@, k) || (exists|j: int|
                    0 <= j < a && (#[trigger] reports@[j]).0@ == k)),
        decreases reports@.len() - a,
    {
        let ghost pre_cd = cur_deps@;
        let ghost aa = a as int;
        add_health_checks(&mut cur_deps, &reports[a].0, &reports[a].1);
        proof {
            assert forall|k: Seq<char>|
                #[trigger] has_key(cur_deps@, k) <==> ((exists|j: int|
                0 <= j < declared@.len() && ((#[trigger] declared@[j]).0@ == k && declared@[
                    j
                ].1.optional is None)) || pointer_target(ptrs@, k) || (exists|j: int|
                0 <= j < aa + 1 && (#[trigger] reports@[j]).0@ == k)) by {
                if has_key(cur_deps@, k) {
                    if k == reports@[aa].0@ {
                        assert(0 <= aa < aa + 1 && reports@[aa].0@ == k);
                    } else {
                        assert(has_key(pre_cd, k));
                        if exists|j: int| 0 <= j < aa && (#[trigger] reports@[j]).0@ == k {
                            let j = choose|j: int|
                                0 <= j < aa && (#[trigger] reports@[j]).0@ == k;
                            assert(0 <= j < aa + 1 && reports@[j].0@ == k);
                        }
                    }
                }
                if exists|j: int| 0 <= j < aa + 1 && (#[trigger] reports@[j]).0@ == k {
                    let j = choose|j: int| 0 <= j < aa + 1 && (#[trigger] reports@[j]).0@ == k;
                    if j < aa {
                        assert(has_key(pre_cd, k));
                    } else {
                        assert(k == reports@[aa].0@);
                    }
                    assert(has_key(cur_deps@, k));
                }
            }
        }
        a = a + 1;
    }
    (new_sp, cur_deps)
}

/// Preservation of configuration actions composes.
proof fn lemma_actions_preserved_trans(a: PackageStore, b: PackageStore, c: PackageStore)
    requires
        actions_preserved(a, b),
        actions_preserved(b, c),
    ensures
        actions_preserved(a, c),
{
    assert forall|j: int|
        0 <= j < a.packages@.len() implies match ((#[trigger] a.packages@[j]).1.manifest.config,
        c.packages@[j].1.manifest.config) {
            (Some(ca0), Some(ca1)) => ca1.spec == ca0.spec,
            (None, None) => true,
            _ => false,
        } by {
        assert(match (a.packages@[j].1.manifest.config, b.packages@[j].1.manifest.config) {
            (Some(ca0), Some(ca1)) => ca1.spec == ca0.spec,
            (None, None) => true,
            _ => false,
        });
        assert(match (b.packages@[j].1.manifest.config, c.packages@[j].1.manifest.config) {
            (Some(ca0), Some(ca1)) => ca1.spec == ca0.spec,
            (None, None) => true,
            _ => false,
        });
    }
}

/// Stores with pointwise equal manifests preserve configuration actions.
proof fn lemma_actions_from_manifests(a: PackageStore, b: PackageStore)
    requires
        a.packages@.len() == b.packages@.len(),
        forall|j: int|
            0 <= j < a.packages@.len() ==> (#[trigger] b.packages@[j]).1.manifest
                == a.packages@[j].1.manifest,
    ensures
        actions_preserved(a, b),
{
}

/// Whether a configuration is the pointer resolution of some configuration
/// that validates against the schema, under some pass context: the shape in
/// which a persisted configuration supersedes its predecessor.
pub open spec fn resolved_from_valid(spec: ConfigSpec, c: Config, system: Config) -> bool {
    exists|pre_cfg: Config, ov: Seq<(String, Config)>, st: PackageStore|
        config_ok(spec, pre_cfg) && #[trigger] crate::schema::resolved_entries(
            spec,
            pre_cfg,
            c,
            ov,
            st,
            system,
        )
}

/// Whether the record declares `k` as a required (non-optional)
/// dependency.
pub open spec fn required_dep(e0: InstalledPackageDataEntry, k: Seq<char>) -> bool {
    exists|j: int|
        0 <= j < e0.manifest.dependencies.0@.len() && (#[trigger] e0.manifest.dependencies.0@[
            j
        ]).0@ == k && e0.manifest.dependencies.0@[j].1.optional is None
}

/// Whether some collected pointer targets the package `k`.
pub open spec fn pointer_target(ptrs: Seq<ValueSpecPointer>, k: Seq<char>) -> bool {
    exists|j: int|
        0 <= j < ptrs.len() && ((#[trigger] ptrs[j]) matches ValueSpecPointer::Package(p)
            && p.package_id@ == k)
}

/// Elementwise-corresponding pointer collections target the same
/// packages.
proof fn lemma_pointer_target_match(a: Seq<ValueSpecPointer>, b: Seq<ValueSpecPointer>)
    requires
        a.len() == b.len(),
        forall|i: int| 0 <= i < a.len() ==> crate::pointer::pointer_eq(#[trigger] a[i], b[i]),
    ensures
        forall|k: Seq<char>| #[trigger] pointer_target(a, k) <==> pointer_target(b, k),
{
    assert forall|k: Seq<char>| #[trigger] pointer_target(a, k) <==> pointer_target(b, k) by {
        if pointer_target(a, k) {
            let j = choose|j: int|
                0 <= j < a.len() && ((#[trigger] a[j]) matches ValueSpecPointer::Package(p)
                    && p.package_id@ == k);
            assert(crate::pointer::pointer_eq(a[j], b[j]));
            assert(b[j] matches ValueSpecPointer::Package(q) && q.package_id@ == k);
        }
        if pointer_target(b, k) {
            let j = choose|j: int|
                0 <= j < b.len() && ((#[trigger] b[j]) matches ValueSpecPointer::Package(p)
                    && p.package_id@ == k);
            assert(crate::pointer::pointer_eq(a[j], b[j]));
            assert(a[j] matches ValueSpecPointer::Package(q) && q.package_id@ == k);
        }
    }
}

/// Whether the record's apply action reports depending on `k`.
pub open spec fn reported_dep(e0: InstalledPackageDataEntry, k: Seq<char>) -> bool {
    exists|j: int|
        0 <= j < e0.apply_depends_on@.len() && (#[trigger] e0.apply_depends_on@[j]).0@ == k
}

/// One more collected pointer extends the targeted set by its package
/// exactly when it is a package pointer.
proof fn lemma_pointer_target_take_step(ptrs: Seq<ValueSpecPointer>, i: int)
    requires
        0 <= i < ptrs.len(),
    ensures
        forall|k: Seq<char>|
            #[trigger] pointer_target(ptrs.take(i + 1), k) <==> (pointer_target(ptrs.take(i), k)
                || (ptrs[i] matches ValueSpecPointer::Package(p) && p.package_id@ == k)),
{
    assert forall|k: Seq<char>|
        #[trigger] pointer_target(ptrs.take(i + 1), k) <==> (pointer_target(ptrs.take(i), k) || (
        ptrs[i] matches ValueSpecPointer::Package(p) && p.package_id@ == k)) by {
        if pointer_target(ptrs.take(i + 1), k) {
            let j = choose|j: int|
                0 <= j < ptrs.take(i + 1).len() && ((#[trigger] ptrs.take(i + 1)[j])
                    matches ValueSpecPointer::Package(p) && p.package_id@ == k);
            assert(ptrs.take(i + 1)[j] == ptrs[j]);
            if j < i {
                assert(ptrs.take(i)[j] == ptrs[j]);
                assert(pointer_target(ptrs.take(i), k));
            }
        }
        if pointer_target(ptrs.take(i), k) {
            let j = choose|j: int|
                0 <= j < ptrs.take(i).len() && ((#[trigger] ptrs.take(i)[j])
                    matches ValueSpecPointer::Package(p) && p.package_id@ == k);
            assert(ptrs.take(i + 1)[j] == ptrs.take(i)[j]);
            assert(pointer_target(ptrs.take(i + 1), k));
        }
        if ptrs[i] matches ValueSpecPointer::Package(p) && p.package_id@ == k {
            assert(ptrs.take(i + 1)[i] == ptrs[i]);
            assert(pointer_target(ptrs.take(i + 1), k));
        }
    }
}

/// What one pass over one package reports: the dependents it cascaded into
/// directly, and the resolved configuration it applied.
pub struct ConfigurePass {
    pub changed: Vec<String>,
    pub resolved: Config,
}

/// What a live configuration change reports: the breakages recorded across
/// the whole cascade, the signals to deliver, every cascade edge taken, the
/// dependents the top-level pass recomputed directly, and the resolved
/// configuration it applied.
pub struct SetOutcome {
    pub breakages: Vec<(String, TaggedDependencyError)>,
    pub signals: Vec<(String, String)>,
    pub cascades: Vec<(String, String)>,
    pub changed: Vec<String>,
    pub applied: Config,
}

/// Copies a dependency bookkeeping map.
#[verifier::loop_isolation(false)]
fn clone_cdi_map(m: &Vec<(String, CurrentDependencyInfo)>) -> (r: Vec<(String, CurrentDependencyInfo)>)
    ensures
        r@.len() == m@.len(),
        forall|i: int|
            0 <= i < m@.len() ==> (#[trigger] r@[i]).0@ == m@[i].0@ && cdi_eq(r@[i].1, m@[i].1),
        unique_keys(m@) ==> unique_keys(r@),
        forall|k: Seq<char>| #[trigger] has_key(r@, k) <==> has_key(m@, k),
{
    let mut out: Vec<(String, CurrentDependencyInfo)> = Vec::new();
    let mut i: usize = 0;
    while i < m.len()
        invariant
            0 <= i <= m@.len(),
            out@.len() == i,
            forall|j: int|
                0 <= j < i ==> (#[trigger] out@[j]).0@ == m@[j].0@ && cdi_eq(out@[j].1, m@[j].1),
        decreases m@.len() - i,
    {
        out.push((m[i].0.clone(), m[i].1.deep_clone()));
        i = i + 1;
    }
    proof {
        if unique_keys(m@) {
            assert forall|x: int, y: int| 0 <= x < y < out@.len() implies out@[x].0@ != out@[y].0@ by {
                assert(out@[x].0@ == m@[x].0@);
                assert(out@[y].0@ == m@[y].0@);
            }
        }
        assert forall|k: Seq<char>| #[trigger] has_key(out@, k) <==> has_key(m@, k) by {
            if has_key(out@, k) {
                crate::value::lemma_index_of_key(out@, k);
                let w = crate::value::index_of_key(out@, k);
                assert(m@[w].0@ == k);
                crate::value::lemma_has_key_of_entry(m@, w);
            }
            if has_key(m@, k) {
                crate::value::lemma_index_of_key(m@, k);
                let w = crate::value::index_of_key(m@, k);
                assert(out@[w].0@ == k);
                crate::value::lemma_has_key_of_entry(out@, w);
            }
        }
    }
    out
}

/// Appends one pointer target to a dependency's bookkeeping, creating the
/// entry when the dependency was not yet tracked.
#[verifier::loop_isolation(false)]
fn add_pointer(
    m: &mut Vec<(String, CurrentDependencyInfo)>,
    pid: &String,
    target: PackagePointerSpecVariant,
)
    requires
        unique_keys(old(m)@),
    ensures
        unique_keys(final(m)@),
        forall|k: Seq<char>|
            #[trigger] has_key(final(m)@, k) <==> (has_key(old(m)@, k) || k == pid@),
{
    let ghost pre = m@;
    let mut i: usize = 0;
    while i < m.len()
        invariant
            0 <= i <= m@.len(),
            m@ == pre,
            forall|j: int| 0 <= j < i ==> (#[trigger] pre[j]).0@ != pid@,
        decreases m@.len() - i,
    {
        if str_eq(&m[i].0, pid) {
            let mut info = m[i].1.deep_clone();
            info.pointers.push(target);
            m.set(i, (m[i].0.clone(), info));
            proof {
                assert forall|x: int, y: int| 0 <= x < y < m@.len() implies m@[x].0@ != m@[y].0@ by {
                    if x != i {
                        assert(m@[x] == pre[x]);
                    }
                    if y != i {
                        assert(m@[y] == pre[y]);
                    }
                }
                assert forall|j: int| 0 <= j < m@.len() implies (#[trigger] m@[j]).0@
                    == pre[j].0@ by {
                    if j != i {
                        assert(m@[j] == pre[j]);
                    }
                }
                crate::value::lemma_has_key_of_entry(pre, i as int);
                assert forall|k: Seq<char>|
                    #[trigger] has_key(m@, k) <==> (has_key(pre, k) || k == pid@) by {
                    if has_key(m@, k) {
                        crate::value::lemma_index_of_key(m@, k);
                        let w = crate::value::index_of_key(m@, k);
                        assert(pre[w].0@ == k);
                        crate::value::lemma_has_key_of_entry(pre, w);
                    }
                    if has_key(pre, k) {
                        crate::value::lemma_index_of_key(pre, k);
                        let w = crate::value::index_of_key(pre, k);
                        assert(m@[w].0@ == k);
                        crate::value::lemma_has_key_of_entry(m@, w);
                    }
                }
            }
            return;
        }
        i = i + 1;
    }
    let mut pointers: Vec<PackagePointerSpecVariant> = Vec::new();
    pointers.push(target);
    assoc_insert(m, pid.clone(), CurrentDependencyInfo { pointers, health_checks: Vec::new() });
}

/// Merges the health check ids an apply action reported for one dependency
/// into the bookkeeping, creating the entry when the dependency was not yet
/// tracked.
#[verifier::loop_isolation(false)]
fn add_health_checks(m: &mut Vec<(String, CurrentDependencyInfo)>, pid: &String, hcs: &Vec<String>)
    requires
        unique_keys(old(m)@),
    ensures
        unique_keys(final(m)@),
        forall|k: Seq<char>|
            #[trigger] has_key(final(m)@, k) <==> (has_key(old(m)@, k) || k == pid@),
{
    let ghost pre = m@;
    let mut i: usize = 0;
    while i < m.len()
        invariant
            0 <= i <= m@.len(),
            m@ == pre,
            forall|j: int| 0 <= j < i ==> (#[trigger] pre[j]).0@ != pid@,
        decreases m@.len() - i,
    {
        if str_eq(&m[i].0, pid) {
            let mut info = m[i].1.deep_clone();
            let mut h: usize = 0;
            while h < hcs.len()
                invariant
                    0 <= h <= hcs@.len(),
                decreases hcs@.len() - h,
            {
                info.health_checks.push(hcs[h].clone());
                h = h + 1;
            }
            m.set(i, (m[i].0.clone(), info));
            proof {
                assert forall|x: int, y: int| 0 <= x < y < m@.len() implies m@[x].0@ != m@[y].0@ by {
                    if x != i {
                        assert(m@[x] == pre[x]);
                    }
                    if y != i {
                        assert(m@[y] == pre[y]);
                    }
                }
                assert forall|j: int| 0 <= j < m@.len() implies (#[trigger] m@[j]).0@
                    == pre[j].0@ by {
                    if j != i {
                        assert(m@[j] == pre[j]);
                    }
                }
                crate::value::lemma_has_key_of_entry(pre, i as int);
                assert forall|k: Seq<char>|
                    #[trigger] has_key(m@, k) <==> (has_key(pre, k) || k == pid@) by {
                    if has_key(m@, k) {
                        crate::value::lemma_index_of_key(m@, k);
                        let w = crate::value::index_of_key(m@, k);
                        assert(pre[w].0@ == k);
                        crate::value::lemma_has_key_of_entry(pre, w);
                    }
                    if has_key(pre, k) {
                        crate::value::lemma_index_of_key(pre, k);
                        let w = crate::value::index_of_key(pre, k);
                        assert(m@[w].0@ == k);
                        crate::value::lemma_has_key_of_entry(m@, w);
                    }
                }
            }
            return;
        }
        i = i + 1;
    }
    let mut health_checks: Vec<String> = Vec::new();
    let mut h: usize = 0;
    while h < hcs.len()
        invariant
            0 <= h <= hcs@.len(),
        decreases hcs@.len() - h,
    {
        health_checks.push(hcs[h].clone());
        h = h + 1;
    }
    assoc_insert(m, pid.clone(), CurrentDependencyInfo { pointers: Vec::new(), health_checks });
}

/// Writes this package's bookkeeping as a back-reference into each
/// referenced dependency's record of current dependents: for every listed,
/// installed dependency, its record of dependents maps `dependent_id` to
/// the listed bookkeeping; a dependency that is not installed is skipped
/// silently; nothing else changes.
#[verifier::loop_isolation(false)]
pub fn update_current_dependents(
    store: &mut PackageStore,
    dependent_id: &String,
    current_dependencies: &Vec<(String, CurrentDependencyInfo)>,
)
    requires
        store_wf(*old(store)),
        unique_keys(current_dependencies@),
    ensures
        store_wf(*final(store)),
        same_packages(*final(store), *old(store)),
        forall|j: int|
            0 <= j < old(store).packages@.len() ==> crate::store::same_but_dependents(
                (#[trigger] old(store).packages@[j]).1,
                final(store).packages@[j].1,
            ),
        forall|j: int|
            0 <= j < old(store).packages@.len() ==> {
                let key = (#[trigger] old(store).packages@[j]).0@;
                let e0 = old(store).packages@[j].1;
                let e1 = final(store).packages@[j].1;
                if has_key(current_dependencies@, key) {
                    &&& (match lookup(current_dependencies@, key) {
                        Some(info) => lookup(e1.current_dependents@, dependent_id@) matches Some(x)
                            && cdi_eq(x, info),
                        None => false,
                    })
                    &&& forall|other: Seq<char>|
                        other != dependent_id@ ==> #[trigger] lookup(e1.current_dependents@, other)
                            == lookup(e0.current_dependents@, other)
                } else {
                    e1.current_dependents == e0.current_dependents
                }
            },
{
    let ghost cd = current_dependencies@;
    let ghost orig = old(store).packages@;
    let mut i: usize = 0;
    while i < current_dependencies.len()
        invariant
            0 <= i <= cd.len(),
            store_wf(*store),
            store.packages@.len() == orig.len(),
            forall|j: int|
                0 <= j < orig.len() ==> (#[trigger] store.packages@[j]).0@ == orig[j].0@,
            forall|j: int|
                0 <= j < orig.len() ==> crate::store::same_but_dependents(
                    (#[trigger] orig[j]).1,
                    store.packages@[j].1,
                ),
            forall|j: int|
                0 <= j < orig.len() ==> {
                    let key = (#[trigger] orig[j]).0@;
                    let e0 = orig[j].1;
                    let e1 = store.packages@[j].1;
                    if crate::deps::contains_key_prefix(cd, i as int, key) {
                        &&& (match lookup(cd, key) {
                            Some(info) => lookup(e1.current_dependents@, dependent_id@)
                                matches Some(x) && cdi_eq(x, info),
                            None => false,
                        })
                        &&& forall|other: Seq<char>|
                            other != dependent_id@ ==> #[trigger] lookup(
                                e1.current_dependents@,
                                other,
                            ) == lookup(e0.current_dependents@, other)
                    } else {
                        e1.current_dependents == e0.current_dependents
                    }
                },
        decreases cd.len() - i,
    {
        let ghost pre = store.packages@;
        let ghost dk = cd[i as int].0@;
        proof {
            crate::value::lemma_has_key_of_entry(cd, i as int);
            crate::value::lemma_index_of_key(cd, dk);
            assert(crate::value::index_of_key(cd, dk) == i) by {
                let idx0 = crate::value::index_of_key(cd, dk);
                if idx0 != i {
                    assert(cd[idx0].0@ == cd[i as int].0@);
                }
            }
        }
        match store.take(&current_dependencies[i].0) {
            Some((idx, key, mut entry)) => {
                let ghost e_old = entry;
                assoc_insert(
                    &mut entry.current_dependents,
                    dependent_id.clone(),
                    current_dependencies[i].1.deep_clone(),
                );
                let ghost e_new = entry;
                store.restore_at(idx, key, entry);
                proof {
                    assert(store.packages@.len() == pre.len());
                    assert forall|j: int|
                        0 <= j < store.packages@.len() && j != idx implies (
                    #[trigger] store.packages@[j]) == pre[j] by {}
                    assert(store.packages@[idx as int].1 == e_new);
                    assert forall|x: int, y: int|
                        0 <= x < y < store.packages@.len() implies store.packages@[x].0@
                        != store.packages@[y].0@ by {
                        assert(store.packages@[x].0@ == pre[x].0@);
                        assert(store.packages@[y].0@ == pre[y].0@);
                    }
                    assert forall|j: int|
                        0 <= j < store.packages@.len() implies entry_wf(
                        (#[trigger] store.packages@[j]).1,
                    ) by {
                        if j != idx {
                            assert(store.packages@[j] == pre[j]);
                        }
                    }
                    assert forall|j: int|
                        0 <= j < orig.len() && j != idx implies (#[trigger] orig[j]).0@ != dk by {
                        assert(pre[idx as int].0@ == dk);
                        assert(orig[j].0@ == pre[j].0@);
                        assert(orig[idx as int].0@ == pre[idx as int].0@);
                    }
                }
            },
            None => {
                proof {
                    assert forall|j: int| 0 <= j < orig.len() implies (#[trigger] orig[j]).0@
                        != dk by {
                        if orig[j].0@ == dk {
                            crate::value::lemma_has_key_of_entry(store.packages@, j);
                        }
                    }
                }
            },
        }
        i = i + 1;
    }
    proof {
        assert forall|j: int|
            0 <= j < orig.len() && has_key(cd, (#[trigger] orig[j]).0@) implies
            crate::deps::contains_key_prefix(cd, cd.len() as int, orig[j].0@) by {
            crate::value::lemma_index_of_key(cd, orig[j].0@);
        }
        assert forall|j: int|
            0 <= j < orig.len() && !has_key(cd, (#[trigger] orig[j]).0@) implies
            !crate::deps::contains_key_prefix(cd, cd.len() as int, orig[j].0@) by {
            if crate::deps::contains_key_prefix(cd, cd.len() as int, orig[j].0@) {
                let l = choose|l: int|
                    0 <= l < cd.len() && (#[trigger] cd[l]).0@ == orig[j].0@;
                crate::value::lemma_has_key_of_entry(cd, l);
            }
        }
    }
}

/// Records a breakage: the dependent maps to the culprit dependency and the
/// error in the pass's accumulator, and — when the dependent is installed —
/// its own status records the error against the culprit; nothing else
/// changes.  A later judgement for the same dependent replaces the earlier
/// one.
#[verifier::loop_isolation(false)]
pub fn handle_broken_dependents(
    store: &mut PackageStore,
    dependent_id: &String,
    culprit_id: &String,
    error: DependencyError,
    breakages: &mut Vec<(String, TaggedDependencyError)>,
)
    requires
        store_wf(*old(store)),
        unique_keys(old(breakages)@),
    ensures
        store_wf(*final(store)),
        same_packages(*final(store), *old(store)),
        unique_keys(final(breakages)@),
        lookup(final(breakages)@, dependent_id@) matches Some(t) && t.dependency@ == culprit_id@
            && crate::deps::de_eq(error, t.error),
        forall|k: Seq<char>|
            k != dependent_id@ ==> #[trigger] lookup(final(breakages)@, k) == lookup(
                old(breakages)@,
                k,
            ),
        forall|k: Seq<char>| has_key(old(breakages)@, k) ==> has_key(final(breakages)@, k),
        forall|j: int|
            0 <= j < old(store).packages@.len() ==> crate::store::same_but_dependency_errors(
                (#[trigger] old(store).packages@[j]).1,
                final(store).packages@[j].1,
            ),
        forall|j: int|
            0 <= j < old(store).packages@.len() ==> {
                let key = (#[trigger] old(store).packages@[j]).0@;
                let e0 = old(store).packages@[j].1;
                let e1 = final(store).packages@[j].1;
                if key == dependent_id@ {
                    &&& (lookup(e1.status.dependency_errors@, culprit_id@) matches Some(x)
                        && crate::deps::de_eq(error, x))
                    &&& forall|other: Seq<char>|
                        other != culprit_id@ ==> #[trigger] lookup(
                            e1.status.dependency_errors@,
                            other,
                        ) == lookup(e0.status.dependency_errors@, other)
                } else {
                    e1.status.dependency_errors == e0.status.dependency_errors
                }
            },
{
    let ghost pre = store.packages@;
    match store.take(dependent_id) {
        Some((idx, key, mut entry)) => {
            assoc_insert(&mut entry.status.dependency_errors, culprit_id.clone(), error.deep_clone());
            store.restore_at(idx, key, entry);
            proof {
                assert(store.packages@.len() == pre.len());
                assert forall|j: int|
                    0 <= j < store.packages@.len() && j != idx implies (
                #[trigger] store.packages@[j]) == pre[j] by {}
                assert forall|x: int, y: int|
                    0 <= x < y < store.packages@.len() implies store.packages@[x].0@
                    != store.packages@[y].0@ by {
                    assert(store.packages@[x].0@ == pre[x].0@);
                    assert(store.packages@[y].0@ == pre[y].0@);
                }
                assert forall|j: int|
                    0 <= j < store.packages@.len() implies entry_wf(
                    (#[trigger] store.packages@[j]).1,
                ) by {
                    if j != idx {
                        assert(store.packages@[j] == pre[j]);
                    }
                }
                assert forall|j: int|
                    0 <= j < pre.len() && j != idx implies (#[trigger] pre[j]).0@
                    != dependent_id@ by {
                    assert(pre[idx as int].0@ == dependent_id@);
                }
            }
        },
        None => {
            proof {
                assert forall|j: int| 0 <= j < pre.len() implies (#[trigger] pre[j]).0@
                    != dependent_id@ by {
                    if pre[j].0@ == dependent_id@ {
                        crate::value::lemma_has_key_of_entry(pre, j);
                    }
                }
            }
        },
    }
    assoc_insert(
        breakages,
        dependent_id.clone(),
        TaggedDependencyError { dependency: culprit_id.clone(), error },
    );
}

/// A dependent rejected more than once in one pass — by the direct check
/// and again by the cascading recompute — still appears once in the
/// breakage accumulator: the accumulator keys dependents uniquely, so two
/// records for one dependent are the same record.
pub proof fn lemma_breakage_recorded_once(
    b: Seq<(String, TaggedDependencyError)>,
    i: int,
    j: int,
)
    requires
        unique_keys(b),
        0 <= i < b.len(),
        0 <= j < b.len(),
        b[i].0@ == b[j].0@,
    ensures
        i == j,
{
}

/// One step of the recursive propagation: resolves, validates and applies a
/// configuration for one package, rebuilds its pointer bookkeeping, then
/// walks its recorded dependents in stored order, checking each declared
/// configuration contract against the new configuration and recursing into
/// every dependent whose projection of this package actually changed, once
/// per dependent.  A schema violation discovered while reconfiguring a
/// dependent is recorded as a breakage; any other failure unwinds the whole
/// cascade.  Recursion depth is bounded by `fuel`.
#[verifier::loop_isolation(false)]
#[verifier::rlimit(60)]
pub fn configure(
    store: &mut PackageStore,
    system: &Config,
    id: &String,
    config: Option<Config>,
    budget: u64,
    rng: &mut Rng,
    fuel: u64,
    overrides: &mut Vec<(String, Config)>,
    breakages: &mut Vec<(String, TaggedDependencyError)>,
    signals: &mut Vec<(String, String)>,
    log: &mut Vec<(String, String)>,
) -> (r: Result<ConfigurePass, Error>)
    requires
        store_wf(*old(store)),
        unique_keys(old(overrides)@),
        unique_keys(old(breakages)@),
    ensures
        store_wf(*final(store)),
        same_packages(*final(store), *old(store)),
        unique_keys(final(overrides)@),
        unique_keys(final(breakages)@),
        forall|k: Seq<char>| has_key(old(breakages)@, k) ==> has_key(final(breakages)@, k),
        forall|k: Seq<char>| has_key(old(overrides)@, k) ==> has_key(final(overrides)@, k),
        actions_preserved(*old(store), *final(store)),
        declared_deps_preserved(*old(store), *final(store)),
        lookup(old(store).packages@, id@) is None ==> (r matches Err(e) && e.kind
            == ErrorKind::NotFound && final(store).packages@ == old(store).packages@
            && final(overrides)@ == old(overrides)@ && final(breakages)@ == old(breakages)@
            && final(signals)@ == old(signals)@ && final(log)@ == old(log)@),
        (match lookup(old(store).packages@, id@) {
            Some(e0) => match e0.manifest.config {
                Some(ca) => match config {
                    Some(c) => !config_ok(ca.spec, c) ==> (r matches Err(er) && er.kind
                        == ErrorKind::ConfigRulesViolation && final(store).packages@ == old(store).packages@),
                    None => true,
                },
                None => r matches Err(er) && er.kind == ErrorKind::NotFound && final(store).packages@ == old(store).packages@
                    && final(overrides)@ == old(overrides)@ && final(breakages)@ == old(breakages)@
                    && final(signals)@ == old(signals)@ && final(log)@ == old(log)@,
            },
            None => true,
        }),
        (r matches Err(er) && er.kind == ErrorKind::ConfigRulesViolation) ==> (final(store).packages@
            == old(store).packages@ && final(overrides)@ == old(overrides)@ && final(breakages)@
            == old(breakages)@ && final(signals)@ == old(signals)@ && final(log)@ == old(log)@),
        (match lookup(old(store).packages@, id@) {
            Some(e0) => match e0.manifest.config {
                Some(ca) => match config {
                    Some(c) => (config_ok(ca.spec, c) && crate::schema::cfg_pointer_free(ca.spec)
                        && e0.current_dependents@.len() == 0) ==> r is Ok,
                    None => true,
                },
                None => true,
            },
            None => true,
        }),
        (match r {
            Ok(pass) => match lookup(old(store).packages@, id@) {
                Some(e0) => {
                    let prev = (match e0.manifest.config {
                        Some(ca) => match ca.current {
                            Some(c) => Value::Obj(c),
                            None => Value::Null,
                        },
                        None => Value::Null,
                    });
                    let next = Value::Obj(pass.resolved);
                    let targets = cascade_targets(e0.current_dependents@, id@, prev, next);
                    &&& pass.changed@.len() == targets.len()
                    &&& forall|i: int|
                        0 <= i < targets.len() ==> (#[trigger] pass.changed@[i])@ == targets[i]@
                    &&& has_key(final(overrides)@, id@)
                    &&& (match lookup(final(store).packages@, id@) {
                        Some(e) => e.manifest.config matches Some(ca) && (ca.current matches Some(c)
                            && ceq(c, pass.resolved)) && resolved_from_valid(
                            ca.spec,
                            pass.resolved,
                            *system,
                        ) && (forall|k: Seq<char>|
                            #[trigger] has_key(e.current_dependencies@, k) <==> (required_dep(
                                e0,
                                k,
                            ) || pointer_target(
                                crate::schema::config_pointers(
                                    ca.spec,
                                    pass.resolved,
                                    ca.spec.fields@.len() as int,
                                ),
                                k,
                            ) || reported_dep(e0, k))),
                        None => false,
                    })
                    &&& (forall|i: int|
                        0 <= i < e0.current_dependents@.len() ==> {
                            let d = (#[trigger] e0.current_dependents@[i]).0;
                            (d@ != id@ && (match lookup(old(store).packages@, d@) {
                                Some(dent) => match lookup(
                                    dent.manifest.dependencies.0@,
                                    id@,
                                ) {
                                    Some(dinfo) => match dinfo.config {
                                        Some(dc) => !config_ok(dc.check, pass.resolved),
                                        None => false,
                                    },
                                    None => false,
                                },
                                None => false,
                            })) ==> has_key(final(breakages)@, d@)
                        })
                },
                None => false,
            },
            Err(_) => true,
        }),
    decreases fuel,
{
    let ghost pre = store.packages@;
    // Step 1: load the package's installed record; missing record is fatal.
    let (idx, key, entry) = match store.take(id) {
        Some(t) => t,
        None => {
            return Err(
                Error::new(String::from_str("package is not installed"), ErrorKind::NotFound),
            );
        },
    };
    let ghost entry0 = entry;
    let InstalledPackageDataEntry {
        manifest,
        status,
        current_dependencies: old_cd,
        current_dependents: snapshot,
        system_pointers: old_sp,
        tor_address,
        lan_address,
        apply_depends_on,
        apply_signal,
    } = entry;
    let crate::store::Manifest { version, dependencies, config: action_opt } = manifest;
    // Steps 2 and 3: the package must have a configuration action; read the
    // current configuration and schema through it.
    let action = match action_opt {
        Some(ca) => ca,
        None => {
            let back = InstalledPackageDataEntry {
                manifest: crate::store::Manifest { version, dependencies, config: None },
                status,
                current_dependencies: old_cd,
                current_dependents: snapshot,
                system_pointers: old_sp,
                tor_address,
                lan_address,
                apply_depends_on,
                apply_signal,
            };
            proof {
                assert(back == entry0);
            }
            store.restore_at(idx, key, back);
            proof {
                assert(store.packages@ =~= pre);
            }
            return Err(
                Error::new(String::from_str("package has no configuration"), ErrorKind::NotFound),
            );
        },
    };
    let ConfigAction { spec: cspec, current: old_cfg } = action;
    // Step 4: the configuration to apply: the explicit argument, else the
    // currently stored one, else a freshly generated default.
    let ghost explicit_cfg = config;
    let mut cfg: Config = match config {
        Some(c) => c,
        None => match &old_cfg {
            Some(c) => c.deep_clone(),
            None => match cspec.gen(rng, budget) {
                Ok(c) => c,
                Err(_) => {
                    let back = InstalledPackageDataEntry {
                        manifest: crate::store::Manifest {
                            version,
                            dependencies,
                            config: Some(ConfigAction { spec: cspec, current: old_cfg }),
                        },
                        status,
                        current_dependencies: old_cd,
                        current_dependents: snapshot,
                        system_pointers: old_sp,
                        tor_address,
                        lan_address,
                        apply_depends_on,
                        apply_signal,
                    };
                    proof {
                        assert(back == entry0);
                    }
                    store.restore_at(idx, key, back);
                    proof {
                        assert(store.packages@ =~= pre);
                    }
                    return Err(
                        Error::new(
                            String::from_str("default generation timed out"),
                            ErrorKind::Timeout,
                        ),
                    );
                },
            },
        },
    };
    // Step 5: validate against the schema; a mismatch is a configuration
    // rules violation.
    match cspec.matches(&cfg) {
        Ok(_) => {},
        Err(e) => {
            let back = InstalledPackageDataEntry {
                manifest: crate::store::Manifest {
                    version,
                    dependencies,
                    config: Some(ConfigAction { spec: cspec, current: old_cfg }),
                },
                status,
                current_dependencies: old_cd,
                current_dependents: snapshot,
                system_pointers: old_sp,
                tor_address,
                lan_address,
                apply_depends_on,
                apply_signal,
            };
            proof {
                assert(back == entry0);
            }
            store.restore_at(idx, key, back);
            proof {
                assert(store.packages@ =~= pre);
            }
            return Err(Error::new(e.render(), ErrorKind::ConfigRulesViolation));
        },
    }
    let ghost validated = cfg;
    proof {
        assert(config_ok(cspec, validated));
        match explicit_cfg {
            Some(c) => {
                assert(config_ok(cspec, c));
            },
            None => {},
        }
    }
    // Step 6: dereference the pointers in the new configuration, preferring
    // values computed earlier in this pass.
    let ghost ov0 = overrides@;
    let ghost st0 = *store;
    match cspec.update(store, system, overrides, &mut cfg) {
        Ok(_) => {
            proof {
                assert(crate::schema::resolved_entries(cspec, validated, cfg, ov0, st0, *system));
            }
        },
        Err(e) => {
            let back = InstalledPackageDataEntry {
                manifest: crate::store::Manifest {
                    version,
                    dependencies,
                    config: Some(ConfigAction { spec: cspec, current: old_cfg }),
                },
                status,
                current_dependencies: old_cd,
                current_dependents: snapshot,
                system_pointers: old_sp,
                tor_address,
                lan_address,
                apply_depends_on,
                apply_signal,
            };
            proof {
                assert(back == entry0);
            }
            store.restore_at(idx, key, back);
            proof {
                assert(store.packages@ =~= pre);
            }
            return Err(Error::new(e.render(), ErrorKind::ConfigGen));
        },
    }
    // Step 7: rebuild this package's outbound bookkeeping: a fresh
    // dependency map seeded with every required declared dependency, then
    // every extracted pointer appended to its target's entry.
    let ptrs = cspec.pointers(&cfg);
    let (new_sp, cur_deps) = rebuild_bookkeeping(&dependencies.0, &ptrs, &apply_depends_on);
    proof {
        assert forall|k: Seq<char>|
            #[trigger] has_key(cur_deps@, k) <==> (required_dep(entry0, k) || pointer_target(
            ptrs@,
            k,
        ) || reported_dep(entry0, k)) by {}
    }
    // Step 8: apply the configuration: persist the resolved value as
    // current, with the bookkeeping the apply action's report was merged
    // into.
    let sig: Option<String> = match &apply_signal {
        Some(sg) => Some(sg.clone()),
        None => None,
    };
    let entry2 = InstalledPackageDataEntry {
        manifest: crate::store::Manifest {
            version,
            dependencies,
            config: Some(ConfigAction { spec: cspec, current: Some(cfg.deep_clone()) }),
        },
        status,
        current_dependencies: clone_cdi_map(&cur_deps),
        current_dependents: clone_cdi_map(&snapshot),
        system_pointers: new_sp,
        tor_address,
        lan_address,
        apply_depends_on,
        apply_signal,
    };
    let ghost mid = store.packages@;
    store.restore_at(idx, key, entry2);
    proof {
        assert(mid == pre.remove(idx as int));
        assert(store.packages@.len() == pre.len());
        assert forall|j: int|
            0 <= j < store.packages@.len() implies (#[trigger] store.packages@[j]).0@
            == pre[j].0@ by {
            if j < idx {
                assert(store.packages@[j] == mid[j]);
                assert(mid[j] == pre[j]);
            } else if j > idx {
                assert(store.packages@[j] == mid[j - 1]);
                assert(mid[j - 1] == pre[j]);
            }
        }
        assert forall|x: int, y: int|
            0 <= x < y < store.packages@.len() implies store.packages@[x].0@
            != store.packages@[y].0@ by {
            assert(store.packages@[x].0@ == pre[x].0@);
            assert(store.packages@[y].0@ == pre[y].0@);
        }
        assert(entry_wf(entry0));
        assert(unique_keys(snapshot@));
        assert(entry_wf(entry2));
        assert forall|j: int|
            0 <= j < store.packages@.len() implies entry_wf((#[trigger] store.packages@[j]).1) by {
            if j != idx {
                if j < idx {
                    assert(store.packages@[j] == pre[j]);
                } else {
                    assert(store.packages@[j] == pre[j]);
                }
            }
        }
        assert(store_wf(*store));
        assert(same_packages(*store, *old(store)));
        assert forall|j: int|
            0 <= j < store.packages@.len() implies match ((#[trigger] pre[j]).1.manifest.config,
            store.packages@[j].1.manifest.config) {
                (Some(ca0), Some(ca1)) => ca1.spec == ca0.spec,
                (None, None) => true,
                _ => false,
            } by {
            if j != idx {
                assert(store.packages@[j] == pre[j]);
            } else {
                assert(pre[idx as int].1 == entry0);
                assert(store.packages@[idx as int].1 == entry2);
            }
        }
        assert(actions_preserved(*old(store), *store));
        assert forall|j: int|
            0 <= j < store.packages@.len() implies (#[trigger] store.packages@[j]).1.manifest.dependencies
            == old(store).packages@[j].1.manifest.dependencies by {
            if j != idx {
                assert(store.packages@[j] == pre[j]);
            } else {
                assert(pre[idx as int].1 == entry0);
                assert(store.packages@[idx as int].1 == entry2);
            }
        }
        assert(declared_deps_preserved(*old(store), *store));
    }
    // Step 9: propagate the dependency map as back-references into each
    // referenced dependency's record of current dependents.
    let ghost pre_ucd = *store;
    update_current_dependents(store, id, &cur_deps);
    proof {
        assert forall|j: int|
            0 <= j < pre_ucd.packages@.len() implies (#[trigger] store.packages@[j]).1.manifest
            == pre_ucd.packages@[j].1.manifest by {
            assert(crate::store::same_but_dependents(
                pre_ucd.packages@[j].1,
                store.packages@[j].1,
            ));
        }
        lemma_actions_from_manifests(pre_ucd, *store);
        lemma_actions_preserved_trans(*old(store), pre_ucd, *store);
        assert(declared_deps_preserved(*old(store), *store));
    }
    // Step 10: cache the resolved configuration for dependents resolved
    // later in this pass.
    assoc_insert(overrides, id.clone(), cfg.deep_clone());
    // Step 11: walk the recorded dependents in stored order.
    let prev_val: Value = match old_cfg {
        Some(c) => Value::Obj(c),
        None => Value::Null,
    };
    let ghost judged = cfg;
    let next_val: Value = Value::Obj(cfg);
    let empty_cfg = Config::new();
    let next_cfg_ref: &Config = match &next_val {
        Value::Obj(c) => c,
        _ => &empty_cfg,
    };
    proof {
        assert(*next_cfg_ref == judged);
    }
    let mut changed_list: Vec<String> = Vec::new();
    let ghost snap = snapshot@;
    let mut i: usize = 0;
    while i < snapshot.len()
        invariant
            0 <= i <= snap.len(),
            snapshot@ == snap,
            store_wf(*store),
            same_packages(*store, *old(store)),
            actions_preserved(*old(store), *store),
            declared_deps_preserved(*old(store), *store),
            unique_keys(overrides@),
            unique_keys(breakages@),
            has_key(overrides@, id@),
            forall|i2: int|
                0 <= i2 < i ==> {
                    let d = (#[trigger] snap[i2]).0;
                    (d@ != id@ && (match lookup(old(store).packages@, d@) {
                        Some(dent) => match lookup(dent.manifest.dependencies.0@, id@) {
                            Some(dinfo) => match dinfo.config {
                                Some(dc) => !config_ok(dc.check, judged),
                                None => false,
                            },
                            None => false,
                        },
                        None => false,
                    })) ==> has_key(breakages@, d@)
                },
            forall|k: Seq<char>| has_key(old(breakages)@, k) ==> has_key(breakages@, k),
            forall|k: Seq<char>| has_key(old(overrides)@, k) ==> has_key(overrides@, k),
            changed_list@.len() == cascade_targets(snap.take(i as int), id@, prev_val, next_val).len(),
            forall|j: int|
                0 <= j < changed_list@.len() ==> (#[trigger] changed_list@[j])@ == cascade_targets(
                    snap.take(i as int),
                    id@,
                    prev_val,
                    next_val,
                )[j]@,
        decreases snap.len() - i,
    {
        let dep_id: &String = &snapshot[i].0;
        proof {
            lemma_cascade_take_step(snap, id@, prev_val, next_val, i as int);
        }
        if !str_eq(dep_id, id) {
            // Step 11a: when the dependent declares a configuration
            // contract against this package, judge the new configuration by
            // it and record a rejection as a breakage.
            let mut check_failed: Option<String> = None;
            match store.get(dep_id) {
                Some(dent) => {
                    proof {
                        crate::value::lemma_index_of_key(store.packages@, dep_id@);
                        let w = crate::value::index_of_key(store.packages@, dep_id@);
                        assert(*dent == store.packages@[w].1);
                        assert(old(store).packages@[w].0@ == dep_id@);
                        crate::value::lemma_has_key_of_entry(old(store).packages@, w);
                        crate::value::lemma_index_of_key(old(store).packages@, dep_id@);
                        let w0 = crate::value::index_of_key(old(store).packages@, dep_id@);
                        assert(w0 == w) by {
                            if w0 != w {
                                assert(old(store).packages@[w0].0@ == old(store).packages@[w].0@);
                            }
                        }
                        assert(lookup(old(store).packages@, dep_id@) == Some(
                            old(store).packages@[w].1,
                        ));
                        assert(dent.manifest.dependencies == old(store).packages@[
                            w
                        ].1.manifest.dependencies);
                    }
                    match dent.manifest.dependencies.get(id) {
                        Some(dinfo) => match &dinfo.config {
                            Some(dc) => match dc.check(next_cfg_ref) {
                                Ok(_) => {},
                                Err(msg) => {
                                    check_failed = Some(msg);
                                },
                            },
                            None => {},
                        },
                        None => {},
                    }
                },
                None => {
                    proof {
                        if lookup(old(store).packages@, dep_id@) is Some {
                            crate::value::lemma_index_of_key(old(store).packages@, dep_id@);
                            let w0 = crate::value::index_of_key(old(store).packages@, dep_id@);
                            assert(store.packages@[w0].0@ == dep_id@);
                            crate::value::lemma_has_key_of_entry(store.packages@, w0);
                        }
                    }
                },
            }
            match check_failed {
                Some(msg) => {
                    let ghost pre_hb = *store;
                    handle_broken_dependents(
                        store,
                        dep_id,
                        id,
                        DependencyError::ConfigUnsatisfied { error: msg },
                        breakages,
                    );
                    proof {
                        assert forall|j: int|
                            0 <= j < pre_hb.packages@.len() implies (
                        #[trigger] store.packages@[j]).1.manifest
                            == pre_hb.packages@[j].1.manifest by {
                            assert(crate::store::same_but_dependency_errors(
                                pre_hb.packages@[j].1,
                                store.packages@[j].1,
                            ));
                        }
                        lemma_actions_from_manifests(pre_hb, *store);
                        lemma_actions_preserved_trans(*old(store), pre_hb, *store);
                        assert forall|j: int|
                            0 <= j < store.packages@.len() implies (
                        #[trigger] store.packages@[j]).1.manifest.dependencies == old(
                            store,
                        ).packages@[j].1.manifest.dependencies by {
                            assert(store.packages@[j].1.manifest == pre_hb.packages@[j].1.manifest);
                        }
                        assert(declared_deps_preserved(*old(store), *store));
                    }
                },
                None => {},
            }
            // Step 11b: recurse exactly when some configuration projection
            // the dependent holds into this package changed.
            let ptrs_ref = &snapshot[i].1.pointers;
            let mut changed = false;
            let mut p: usize = 0;
            while p < ptrs_ref.len()
                invariant
                    0 <= p <= ptrs_ref@.len(),
                    changed == exists|q: int|
                        0 <= q < p && target_changed(#[trigger] ptrs_ref@[q], prev_val, next_val),
                decreases ptrs_ref@.len() - p,
            {
                match &ptrs_ref[p] {
                    PackagePointerSpecVariant::Config { selector, multi } => {
                        let av = select(selector, 0, &prev_val);
                        let bv = select(selector, 0, &next_val);
                        let ne = !av.deep_eq(&bv);
                        proof {
                            let aspec = spec_select(selector@, 0, prev_val);
                            let bspec = spec_select(selector@, 0, next_val);
                            if veq(av, bv) {
                                lemma_veq_sym(av, aspec);
                                lemma_veq_trans(aspec, av, bv);
                                lemma_veq_trans(aspec, bv, bspec);
                            } else {
                                if veq(aspec, bspec) {
                                    lemma_veq_trans(av, aspec, bspec);
                                    lemma_veq_sym(bv, bspec);
                                    lemma_veq_trans(av, bspec, bv);
                                }
                            }
                            assert(ne == target_changed(ptrs_ref@[p as int], prev_val, next_val));
                        }
                        if ne {
                            changed = true;
                        }
                    },
                    _ => {},
                }
                p = p + 1;
            }
            proof {
                assert(changed == projection_changed(snap[i as int].1, prev_val, next_val));
            }
            if changed {
                changed_list.push(dep_id.clone());
                log.push((id.clone(), dep_id.clone()));
                if fuel == 0 {
                    return Err(
                        Error::new(
                            String::from_str("cascade depth limit reached"),
                            ErrorKind::Timeout,
                        ),
                    );
                }
                let ghost pre_rec = *store;
                match configure(
                    store,
                    system,
                    dep_id,
                    None,
                    budget,
                    rng,
                    fuel - 1,
                    overrides,
                    breakages,
                    signals,
                    log,
                ) {
                    Ok(_) => {
                        proof {
                            lemma_actions_preserved_trans(*old(store), pre_rec, *store);
                            assert forall|j: int|
                                0 <= j < store.packages@.len() implies (
                            #[trigger] store.packages@[j]).1.manifest.dependencies == old(
                                store,
                            ).packages@[j].1.manifest.dependencies by {
                                assert(store.packages@[j].1.manifest.dependencies
                                    == pre_rec.packages@[j].1.manifest.dependencies);
                            }
                            assert(declared_deps_preserved(*old(store), *store));
                        }
                    },
                    Err(e) => {
                        proof {
                            lemma_actions_preserved_trans(*old(store), pre_rec, *store);
                            assert forall|j: int|
                                0 <= j < store.packages@.len() implies (
                            #[trigger] store.packages@[j]).1.manifest.dependencies == old(
                                store,
                            ).packages@[j].1.manifest.dependencies by {
                                assert(store.packages@[j].1.manifest.dependencies
                                    == pre_rec.packages@[j].1.manifest.dependencies);
                            }
                            assert(declared_deps_preserved(*old(store), *store));
                        }
                        if e.kind == ErrorKind::ConfigRulesViolation {
                            let ghost pre_hb2 = *store;
                            handle_broken_dependents(
                                store,
                                dep_id,
                                id,
                                DependencyError::ConfigUnsatisfied { error: e.message },
                                breakages,
                            );
                            proof {
                                assert forall|j: int|
                                    0 <= j < pre_hb2.packages@.len() implies (
                                #[trigger] store.packages@[j]).1.manifest
                                    == pre_hb2.packages@[j].1.manifest by {
                                    assert(crate::store::same_but_dependency_errors(
                                        pre_hb2.packages@[j].1,
                                        store.packages@[j].1,
                                    ));
                                }
                                lemma_actions_from_manifests(pre_hb2, *store);
                                lemma_actions_preserved_trans(*old(store), pre_hb2, *store);
                                assert forall|j: int|
                                    0 <= j < store.packages@.len() implies (
                                #[trigger] store.packages@[j]).1.manifest.dependencies == old(
                                    store,
                                ).packages@[j].1.manifest.dependencies by {
                                    assert(store.packages@[j].1.manifest == pre_hb2.packages@[
                                        j
                                    ].1.manifest);
                                }
                                assert(declared_deps_preserved(*old(store), *store));
                            }
                        } else {
                            return Err(e);
                        }
                    },
                }
            }
        }
        i = i + 1;
    }
    proof {
        assert(snap.take(snap.len() as int) =~= snap);
    }
    // Step 12: the signal the apply action asked for is delivered once the
    // pass has succeeded.
    match sig {
        Some(sg) => {
            signals.push((id.clone(), sg));
        },
        None => {},
    }
    let resolved: Config = match next_val {
        Value::Obj(c) => c,
        _ => Config::new(),
    };
    proof {
        assert(resolved == judged);
    }
    // Re-assert the resolved configuration as this package's current one at
    // the pass's boundary: whatever a nested step wrote for this package is
    // superseded by this pass's own result.
    proof {
        crate::value::lemma_index_of_key(old(store).packages@, id@);
        let w = crate::value::index_of_key(old(store).packages@, id@);
        assert(store.packages@[w].0@ == id@);
        crate::value::lemma_has_key_of_entry(store.packages@, w);
    }
    let ghost pre3 = store.packages@;
    match store.take(id) {
        Some((idx3, key3, mut entry3)) => {
            proof {
                assert(entry3.manifest.config is Some) by {
                    crate::value::lemma_index_of_key(old(store).packages@, id@);
                    let w = crate::value::index_of_key(old(store).packages@, id@);
                    assert(idx3 as int == w) by {
                        if idx3 as int != w {
                            assert(pre3[idx3 as int].0@ == pre3[w].0@);
                        }
                    }
                    assert(old(store).packages@[w].1 == entry0);
                }
            }
            let spec_back = match entry3.manifest.config {
                Some(ca) => ca.spec,
                None => ConfigSpec { fields: Vec::new() },
            };
            let ghost entry3_pre = entry3;
            entry3.manifest.config = Some(
                ConfigAction { spec: spec_back, current: Some(resolved.deep_clone()) },
            );
            entry3.current_dependencies = clone_cdi_map(&cur_deps);
            store.restore_at(idx3, key3, entry3);
            proof {
                assert(store.packages@.len() == pre3.len());
                assert forall|j: int|
                    0 <= j < store.packages@.len() && j != idx3 implies (
                #[trigger] store.packages@[j]) == pre3[j] by {}
                assert forall|x: int, y: int|
                    0 <= x < y < store.packages@.len() implies store.packages@[x].0@
                    != store.packages@[y].0@ by {
                    assert(store.packages@[x].0@ == pre3[x].0@);
                    assert(store.packages@[y].0@ == pre3[y].0@);
                }
                assert forall|j: int|
                    0 <= j < store.packages@.len() implies entry_wf(
                    (#[trigger] store.packages@[j]).1,
                ) by {
                    if j != idx3 {
                        assert(store.packages@[j] == pre3[j]);
                    }
                }
                let w = crate::value::index_of_key(old(store).packages@, id@);
                assert(idx3 as int == w);
                assert(old(store).packages@[w].1 == entry0);
                assert(match (old(store).packages@[w].1.manifest.config,
                    entry3_pre.manifest.config) {
                    (Some(ca0), Some(ca1)) => ca1.spec == ca0.spec,
                    (None, None) => true,
                    _ => false,
                });
                assert(spec_back == cspec);
                assert forall|j: int|
                    0 <= j < store.packages@.len() implies match ((
                #[trigger] old(store).packages@[j]).1.manifest.config,
                    store.packages@[j].1.manifest.config) {
                    (Some(ca0), Some(ca1)) => ca1.spec == ca0.spec,
                    (None, None) => true,
                    _ => false,
                } by {
                    if j != idx3 {
                        assert(store.packages@[j] == pre3[j]);
                    }
                }
                assert(actions_preserved(*old(store), *store));
                assert forall|j: int|
                    0 <= j < store.packages@.len() implies (
                #[trigger] store.packages@[j]).1.manifest.dependencies == old(
                    store,
                ).packages@[j].1.manifest.dependencies by {
                    if j != idx3 {
                        assert(store.packages@[j] == pre3[j]);
                    } else {
                        assert(store.packages@[idx3 as int].1.manifest.dependencies
                            == entry3_pre.manifest.dependencies);
                    }
                }
                assert(declared_deps_preserved(*old(store), *store));
                crate::store::lemma_take_restore(
                    pre3,
                    idx3 as int,
                    id@,
                    store.packages@[idx3 as int].1,
                    store.packages@,
                );
                assert(crate::schema::resolved_entries(
                    cspec,
                    validated,
                    resolved,
                    ov0,
                    st0,
                    *system,
                ));
                assert(resolved_from_valid(cspec, resolved, *system));
                lemma_pointer_target_match(
                    ptrs@,
                    crate::schema::config_pointers(cspec, judged, cspec.fields@.len() as int),
                );
                assert forall|k: Seq<char>|
                    #[trigger] has_key(store.packages@[idx3 as int].1.current_dependencies@, k)
                    <==> (required_dep(entry0, k) || pointer_target(
                    crate::schema::config_pointers(cspec, judged, cspec.fields@.len() as int),
                    k,
                ) || reported_dep(entry0, k)) by {
                    assert(has_key(store.packages@[idx3 as int].1.current_dependencies@, k)
                        <==> has_key(cur_deps@, k));
                }
            }
        },
        None => {},
    }
    Ok(ConfigurePass { changed: changed_list, resolved })
}

/// Reads a package's current configuration and schema through its
/// configuration action; a package that is not installed or has no
/// configuration action is not found.
pub fn get<'a>(store: &'a PackageStore, id: &String) -> (r: Result<ConfigRes<'a>, Error>)
    ensures
        match lookup(store.packages@, id@) {
            None => r matches Err(e) && e.kind == ErrorKind::NotFound,
            Some(en) => match en.manifest.config {
                None => r matches Err(e) && e.kind == ErrorKind::NotFound,
                Some(ca) => r matches Ok(res) && *res.spec == ca.spec && (match res.config {
                    Some(c) => ca.current == Some(*c),
                    None => ca.current is None,
                }),
            },
        },
{
    match store.get(id) {
        Some(entry) => match &entry.manifest.config {
            Some(ca) => Ok(ca.get()),
            None => Err(
                Error::new(String::from_str("package has no configuration"), ErrorKind::NotFound),
            ),
        },
        None => Err(
            Error::new(String::from_str("package is not installed"), ErrorKind::NotFound),
        ),
    }
}

/// Applies a configuration change live: one propagation pass over the whole
/// dependency graph, after which the package is marked configured.  The
/// whole pass behaves as one transaction: on any fatal error every package
/// record — configuration, bookkeeping, back-references and recorded
/// errors — is put back exactly as it was, field for field; when the
/// directly targeted package's explicit configuration violates its own
/// schema, nothing was ever written.
#[verifier::loop_isolation(false)]
pub fn set_impl(
    store: &mut PackageStore,
    system: &Config,
    id: &String,
    config: Option<Config>,
    budget: u64,
    seed: u64,
) -> (r: Result<SetOutcome, Error>)
    requires
        store_wf(*old(store)),
    ensures
        store_wf(*final(store)),
        same_packages(*final(store), *old(store)),
        r is Ok ==> actions_preserved(*old(store), *final(store)),
        r is Err ==> crate::store::store_equiv(*old(store), *final(store)),
        lookup(old(store).packages@, id@) is None ==> (r matches Err(e) && e.kind
            == ErrorKind::NotFound),
        (match lookup(old(store).packages@, id@) {
            Some(e0) => match e0.manifest.config {
                Some(ca) => match config {
                    Some(c) => !config_ok(ca.spec, c) ==> (r matches Err(er) && er.kind
                        == ErrorKind::ConfigRulesViolation),
                    None => true,
                },
                None => r matches Err(er) && er.kind == ErrorKind::NotFound,
            },
            None => true,
        }),
        (match lookup(old(store).packages@, id@) {
            Some(e0) => match e0.manifest.config {
                Some(ca) => match config {
                    Some(c) => (config_ok(ca.spec, c) && crate::schema::cfg_pointer_free(ca.spec)
                        && e0.current_dependents@.len() == 0) ==> r is Ok,
                    None => true,
                },
                None => true,
            },
            None => true,
        }),
        (match r {
            Ok(o) => {
                &&& unique_keys(o.breakages@)
                &&& (match lookup(old(store).packages@, id@) {
                    Some(e0) => {
                        let prev = (match e0.manifest.config {
                            Some(ca) => match ca.current {
                                Some(c) => Value::Obj(c),
                                None => Value::Null,
                            },
                            None => Value::Null,
                        });
                        let targets = cascade_targets(
                            e0.current_dependents@,
                            id@,
                            prev,
                            Value::Obj(o.applied),
                        );
                        &&& o.changed@.len() == targets.len()
                        &&& forall|i: int|
                            0 <= i < targets.len() ==> (#[trigger] o.changed@[i])@ == targets[i]@
                        &&& (forall|i: int|
                            0 <= i < e0.current_dependents@.len() ==> {
                                let d = (#[trigger] e0.current_dependents@[i]).0;
                                (d@ != id@ && (match lookup(old(store).packages@, d@) {
                                    Some(dent) => match lookup(
                                        dent.manifest.dependencies.0@,
                                        id@,
                                    ) {
                                        Some(dinfo) => match dinfo.config {
                                            Some(dc) => !config_ok(dc.check, o.applied),
                                            None => false,
                                        },
                                        None => false,
                                    },
                                    None => false,
                                })) ==> has_key(o.breakages@, d@)
                            })
                    },
                    None => false,
                })
                &&& (match lookup(final(store).packages@, id@) {
                    Some(en) => en.status.configured && (en.manifest.config matches Some(ca) && (
                    ca.current matches Some(c) && ceq(c, o.applied)) && resolved_from_valid(
                        ca.spec,
                        o.applied,
                        *system,
                    )),
                    None => false,
                })
            },
            Err(_) => true,
        }),
{
    let ghost orig = old(store).packages@;
    // Snapshot every record, so a failed pass can put the whole store back.
    let mut saved: Vec<(String, InstalledPackageDataEntry)> = Vec::new();
    let mut si: usize = 0;
    while si < store.packages.len()
        invariant
            0 <= si <= orig.len(),
            store.packages@ == orig,
            saved@.len() == si,
            forall|j: int| 0 <= j < si ==> (#[trigger] saved@[j]).0@ == orig[j].0@,
            forall|j: int|
                0 <= j < si ==> crate::store::entry_eq(orig[j].1, (#[trigger] saved@[j]).1),
            forall|j: int| 0 <= j < si ==> entry_wf((#[trigger] saved@[j]).1),
        decreases orig.len() - si,
    {
        saved.push((store.packages[si].0.clone(), store.packages[si].1.deep_clone()));
        si = si + 1;
    }
    let mut rng = Rng::seeded(seed);
    let mut overrides: Vec<(String, Config)> = Vec::new();
    let mut breakages: Vec<(String, TaggedDependencyError)> = Vec::new();
    let mut signals: Vec<(String, String)> = Vec::new();
    let mut log: Vec<(String, String)> = Vec::new();
    let fuel_base = store.packages.len() as u64;
    let fuel = if fuel_base < 0xFFFF_FFFF_FFFF_FFFF {
        fuel_base + 1
    } else {
        fuel_base
    };
    let pass = match configure(
        store,
        system,
        id,
        config,
        budget,
        &mut rng,
        fuel,
        &mut overrides,
        &mut breakages,
        &mut signals,
        &mut log,
    ) {
        Ok(pass) => pass,
        Err(e) => {
            // Discard the pass: every record reverts to the snapshot copy.
            let mut rest = saved;
            while rest.len() > 0
                invariant
                    rest@.len() <= orig.len(),
                    store_wf(*store),
                    store.packages@.len() == orig.len(),
                    forall|j: int|
                        0 <= j < orig.len() ==> (#[trigger] store.packages@[j]).0@ == orig[j].0@,
                    forall|j: int|
                        0 <= j < rest@.len() ==> (#[trigger] rest@[j]).0@ == orig[
                            orig.len() - rest@.len() + j
                        ].0@,
                    forall|j: int|
                        0 <= j < rest@.len() ==> crate::store::entry_eq(
                            orig[orig.len() - rest@.len() + j].1,
                            (#[trigger] rest@[j]).1,
                        ),
                    forall|j: int| 0 <= j < rest@.len() ==> entry_wf((#[trigger] rest@[j]).1),
                    forall|j: int|
                        0 <= j < orig.len() - rest@.len() ==> crate::store::entry_eq(
                            (#[trigger] orig[j]).1,
                            store.packages@[j].1,
                        ),
                decreases rest@.len(),
            {
                let ghost done = orig.len() - rest@.len();
                let ghost rest0 = rest@;
                let (pid, entry_copy) = rest.remove(0);
                proof {
                    assert(pid@ == orig[done].0@);
                    crate::value::lemma_has_key_of_entry(store.packages@, done);
                }
                let ghost prer = store.packages@;
                match store.take(&pid) {
                    Some((idxr, key_live, entry_live)) => {
                        proof {
                            assert(idxr as int == done) by {
                                if idxr as int != done {
                                    assert(prer[idxr as int].0@ == prer[done].0@);
                                }
                            }
                        }
                        store.restore_at(idxr, pid, entry_copy);
                        proof {
                            assert(store.packages@.len() == prer.len());
                            assert forall|j: int|
                                0 <= j < store.packages@.len() && j != idxr implies (
                            #[trigger] store.packages@[j]) == prer[j] by {}
                            assert forall|x: int, y: int|
                                0 <= x < y < store.packages@.len() implies store.packages@[x].0@
                                != store.packages@[y].0@ by {
                                assert(store.packages@[x].0@ == prer[x].0@);
                                assert(store.packages@[y].0@ == prer[y].0@);
                            }
                            assert forall|j: int|
                                0 <= j < store.packages@.len() implies entry_wf(
                                (#[trigger] store.packages@[j]).1,
                            ) by {
                                if j != idxr {
                                    assert(store.packages@[j] == prer[j]);
                                }
                            }
                            assert(crate::store::entry_eq(orig[done].1, store.packages@[done].1));
                        }
                    },
                    None => {},
                }
                proof {
                    assert forall|j: int|
                        0 <= j < rest@.len() implies (#[trigger] rest@[j]).0@ == orig[
                            orig.len() - rest@.len() + j
                        ].0@ by {
                        assert(rest@[j] == rest0[j + 1]);
                    }
                    assert forall|j: int|
                        0 <= j < rest@.len() implies crate::store::entry_eq(
                        orig[orig.len() - rest@.len() + j].1,
                        (#[trigger] rest@[j]).1,
                    ) by {
                        assert(rest@[j] == rest0[j + 1]);
                    }
                }
            }
            return Err(e);
        },
    };
    proof {
        crate::value::lemma_index_of_key(old(store).packages@, id@);
        let w = crate::value::index_of_key(old(store).packages@, id@);
        assert(store.packages@[w].0@ == id@);
        crate::value::lemma_has_key_of_entry(store.packages@, w);
    }
    let ghost pre2 = store.packages@;
    match store.take(id) {
        Some((idx, key, mut entry)) => {
            entry.status.configured = true;
            store.restore_at(idx, key, entry);
            proof {
                assert(store.packages@.len() == pre2.len());
                assert forall|j: int|
                    0 <= j < store.packages@.len() && j != idx implies (
                #[trigger] store.packages@[j]) == pre2[j] by {}
                assert forall|x: int, y: int|
                    0 <= x < y < store.packages@.len() implies store.packages@[x].0@
                    != store.packages@[y].0@ by {
                    assert(store.packages@[x].0@ == pre2[x].0@);
                    assert(store.packages@[y].0@ == pre2[y].0@);
                }
                assert forall|j: int|
                    0 <= j < store.packages@.len() implies entry_wf(
                    (#[trigger] store.packages@[j]).1,
                ) by {
                    if j != idx {
                        assert(store.packages@[j] == pre2[j]);
                    }
                }
                assert forall|j: int|
                    0 <= j < store.packages@.len() implies match ((
                #[trigger] old(store).packages@[j]).1.manifest.config,
                    store.packages@[j].1.manifest.config) {
                    (Some(ca0), Some(ca1)) => ca1.spec == ca0.spec,
                    (None, None) => true,
                    _ => false,
                } by {
                    if j != idx {
                        assert(store.packages@[j] == pre2[j]);
                    } else {
                        assert(store.packages@[idx as int].1.manifest
                            == pre2[idx as int].1.manifest);
                    }
                }
                crate::store::lemma_take_restore(
                    pre2,
                    idx as int,
                    id@,
                    store.packages@[idx as int].1,
                    store.packages@,
                );
                assert(lookup(pre2, id@) == Some(pre2[idx as int].1));
            }
        },
        None => {},
    }
    Ok(SetOutcome {
        breakages,
        signals,
        cascades: log,
        changed: pass.changed,
        applied: pass.resolved,
    })
}

/// A failed dry run: the fatal error together with the diff of would-be
/// stored-configuration changes accumulated up to the failure.
pub struct DryRunError {
    pub error: Error,
    pub patch: Vec<PatchEntry>,
}

/// Soundness of a reported diff against the committed store: every entry
/// names an installed package, carries that package's committed
/// configuration as the old value, and reports a genuine change.
pub open spec fn patch_sound(patch: Seq<PatchEntry>, store: PackageStore) -> bool {
    forall|i: int|
        0 <= i < patch.len() ==> {
            &&& has_key(store.packages@, (#[trigger] patch[i]).id@)
            &&& (match lookup(store.packages@, patch[i].id@) {
                Some(e) => match (e.manifest.config, patch[i].old_config) {
                    (Some(ca), Some(c)) => ca.current matches Some(x) && ceq(c, x),
                    (Some(ca), None) => ca.current is None,
                    (None, None) => true,
                    _ => false,
                },
                None => false,
            })
            &&& (match (patch[i].old_config, patch[i].new_config) {
                (Some(a), Some(bc)) => !ceq(a, bc),
                (None, None) => false,
                _ => true,
            })
        }
}

/// Previews a configuration change: the same propagation pass runs against
/// a scratch image of the store, which is discarded, so nothing is ever
/// committed.  On success the result reports the would-be
/// stored-configuration changes and the breakage set the identical live
/// run would record from the same starting state; a pass that fails still
/// surfaces the diff accumulated up to the failure, beside the error.
#[verifier::loop_isolation(false)]
pub fn set_dry(
    store: PackageStore,
    system: &Config,
    id: &String,
    config: Option<Config>,
    budget: u64,
    seed: u64,
) -> (r: Result<BreakageRes, DryRunError>)
    requires
        store_wf(store),
    ensures
        lookup(store.packages@, id@) is None ==> (r matches Err(de) && de.error.kind
            == ErrorKind::NotFound && de.patch@.len() == 0),
        (match lookup(store.packages@, id@) {
            Some(e0) => match e0.manifest.config {
                Some(ca) => match config {
                    Some(c) => !config_ok(ca.spec, c) ==> (r matches Err(de) && de.error.kind
                        == ErrorKind::ConfigRulesViolation && de.patch@.len() == 0),
                    None => true,
                },
                None => r matches Err(de) && de.error.kind == ErrorKind::NotFound
                    && de.patch@.len() == 0,
            },
            None => true,
        }),
        (match lookup(store.packages@, id@) {
            Some(e0) => match e0.manifest.config {
                Some(ca) => match config {
                    Some(c) => (config_ok(ca.spec, c) && crate::schema::cfg_pointer_free(ca.spec)
                        && e0.current_dependents@.len() == 0) ==> r is Ok,
                    None => true,
                },
                None => true,
            },
            None => true,
        }),
        (match r {
            Ok(b) => unique_keys(b.breakages@) && patch_sound(b.patch@, store),
            Err(de) => patch_sound(de.patch@, store),
        }),
{
    let ghost orig = store.packages@;
    let mut snap_cfg: Vec<(String, Option<Config>)> = Vec::new();
    let mut i: usize = 0;
    while i < store.packages.len()
        invariant
            0 <= i <= orig.len(),
            store.packages@ == orig,
            snap_cfg@.len() == i,
            forall|j: int| 0 <= j < i ==> (#[trigger] snap_cfg@[j]).0@ == orig[j].0@,
            forall|j: int|
                0 <= j < i ==> match ((#[trigger] orig[j]).1.manifest.config, snap_cfg@[j].1) {
                    (Some(ca), Some(c)) => ca.current matches Some(x) && ceq(c, x),
                    (Some(ca), None) => ca.current is None,
                    (None, None) => true,
                    _ => false,
                },
        decreases orig.len() - i,
    {
        let oldc: Option<Config> = match &store.packages[i].1.manifest.config {
            Some(ca) => match &ca.current {
                Some(c) => Some(c.deep_clone()),
                None => None,
            },
            None => None,
        };
        snap_cfg.push((store.packages[i].0.clone(), oldc));
        i = i + 1;
    }
    let mut scratch = store;
    let mut rng = Rng::seeded(seed);
    let mut overrides: Vec<(String, Config)> = Vec::new();
    let mut breakages: Vec<(String, TaggedDependencyError)> = Vec::new();
    let mut signals: Vec<(String, String)> = Vec::new();
    let mut log: Vec<(String, String)> = Vec::new();
    let fuel_base = scratch.packages.len() as u64;
    let fuel = if fuel_base < 0xFFFF_FFFF_FFFF_FFFF {
        fuel_base + 1
    } else {
        fuel_base
    };
    let res = configure(
        &mut scratch,
        system,
        id,
        config,
        budget,
        &mut rng,
        fuel,
        &mut overrides,
        &mut breakages,
        &mut signals,
        &mut log,
    );
    let ghost post_cfg_view = scratch.packages@;
    let mut patch: Vec<PatchEntry> = Vec::new();
    let mut rest = snap_cfg;
    while rest.len() > 0
        invariant
            rest@.len() <= orig.len(),
            scratch.packages@.len() == orig.len(),
            forall|j: int|
                0 <= j < orig.len() ==> (#[trigger] scratch.packages@[j]).0@ == orig[j].0@,
            store_wf(scratch),
            scratch.packages@ == post_cfg_view,
            post_cfg_view == orig ==> patch@.len() == 0,
            forall|j: int|
                0 <= j < rest@.len() ==> (#[trigger] rest@[j]).0@ == orig[
                    orig.len() - rest@.len() + j
                ].0@,
            forall|j: int|
                0 <= j < rest@.len() ==> match ((#[trigger] orig[
                    orig.len() - rest@.len() + j
                ]).1.manifest.config, rest@[j].1) {
                    (Some(ca), Some(c)) => ca.current matches Some(x) && ceq(c, x),
                    (Some(ca), None) => ca.current is None,
                    (None, None) => true,
                    _ => false,
                },
            forall|i2: int|
                0 <= i2 < patch@.len() ==> {
                    &&& has_key(orig, (#[trigger] patch@[i2]).id@)
                    &&& (match lookup(orig, patch@[i2].id@) {
                        Some(e) => match (e.manifest.config, patch@[i2].old_config) {
                            (Some(ca), Some(c)) => ca.current matches Some(x) && ceq(c, x),
                            (Some(ca), None) => ca.current is None,
                            (None, None) => true,
                            _ => false,
                        },
                        None => false,
                    })
                    &&& (match (patch@[i2].old_config, patch@[i2].new_config) {
                        (Some(a), Some(bc)) => !ceq(a, bc),
                        (None, None) => false,
                        _ => true,
                    })
                },
        decreases rest@.len(),
    {
        let ghost done = orig.len() - rest@.len();
        let ghost rest0 = rest@;
        let (pid, oldc) = rest.remove(0);
        proof {
            assert(pid@ == orig[done].0@);
            crate::value::lemma_has_key_of_entry(orig, done);
            crate::value::lemma_index_of_key(orig, pid@);
            assert(crate::value::index_of_key(orig, pid@) == done) by {
                let ix = crate::value::index_of_key(orig, pid@);
                if ix != done {
                    assert(orig[ix].0@ == orig[done].0@);
                }
            }
            assert(lookup(orig, pid@) == Some(orig[done].1));
        }
        let newc: Option<Config> = match scratch.get(&pid) {
            Some(en) => {
                proof {
                    crate::value::lemma_index_of_key(scratch.packages@, pid@);
                    assert(crate::value::index_of_key(scratch.packages@, pid@) == done) by {
                        let ix = crate::value::index_of_key(scratch.packages@, pid@);
                        if ix != done {
                            assert(scratch.packages@[ix].0@ == scratch.packages@[done].0@);
                        }
                    }
                    assert(*en == scratch.packages@[done].1);
                }
                match &en.manifest.config {
                    Some(ca) => match &ca.current {
                        Some(c) => Some(c.deep_clone()),
                        None => None,
                    },
                    None => None,
                }
            },
            None => None,
        };
        let differs: bool = match (&oldc, &newc) {
            (Some(a), Some(b)) => !a.deep_eq(b),
            (None, None) => false,
            _ => true,
        };
        proof {
            if post_cfg_view == orig && differs {
                assert(scratch.packages@[done].1 == orig[done].1);
                if oldc is Some {
                    match orig[done].1.manifest.config {
                        Some(ca0) => {
                            if ca0.current is Some {
                                assert(crate::value::ceq(oldc.unwrap(), ca0.current.unwrap()));
                                if newc is Some {
                                    crate::value::lemma_ceq_sym(
                                        newc.unwrap(),
                                        ca0.current.unwrap(),
                                    );
                                    crate::value::lemma_ceq_trans(
                                        oldc.unwrap(),
                                        ca0.current.unwrap(),
                                        newc.unwrap(),
                                    );
                                }
                            }
                        },
                        None => {},
                    }
                }
                assert(false);
            }
        }
        if differs {
            patch.push(PatchEntry { id: pid, old_config: oldc, new_config: newc });
        }
        proof {
            assert forall|j: int|
                0 <= j < rest@.len() implies (#[trigger] rest@[j]).0@ == orig[
                    orig.len() - rest@.len() + j
                ].0@ by {
                assert(rest@[j] == rest0[j + 1]);
            }
        }
    }
    match res {
        Ok(_) => Ok(BreakageRes { patch, breakages }),
        Err(e) => Err(DryRunError { error: e, patch }),
    }
}

} // verus!} // verus!
