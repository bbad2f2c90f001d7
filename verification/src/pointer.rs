//! Pointer descriptors: a configuration field whose stored value is a
//! reference, resolved by projecting another package's configuration or a
//! host-level value.

use vstd::prelude::*;
use crate::value::{Value, Config, veq, str_eq};

verus! {

/// What a pointer into another package projects.
pub enum PackagePointerSpecVariant {
    /// A projection of the target package's configuration through a selector
    /// path.  The `multi` flag is carried with the declaration, but this
    /// model projects single and multi selectors alike: a plain field walk.
    Config { selector: Vec<String>, multi: bool },
    /// The target package's onion address.
    TorAddress,
    /// The target package's LAN address.
    LanAddress,
}

/// A pointer into another package.
pub struct PackagePointerSpec {
    pub package_id: String,
    pub target: PackagePointerSpecVariant,
}

/// A pointer to a host-level value.
pub struct SystemPointerSpec {
    pub key: String,
}

/// A resolved pointer descriptor.
pub enum ValueSpecPointer {
    Package(PackagePointerSpec),
    System(SystemPointerSpec),
}

/// View-based equality of projection descriptors.
pub open spec fn target_eq(a: PackagePointerSpecVariant, b: PackagePointerSpecVariant) -> bool {
    match (a, b) {
        (
            PackagePointerSpecVariant::Config { selector: s1, multi: m1 },
            PackagePointerSpecVariant::Config { selector: s2, multi: m2 },
        ) => m1 == m2 && s1@.len() == s2@.len() && forall|i: int|
            0 <= i < s1@.len() ==> (#[trigger] s1@[i])@ == s2@[i]@,
        (PackagePointerSpecVariant::TorAddress, PackagePointerSpecVariant::TorAddress) => true,
        (PackagePointerSpecVariant::LanAddress, PackagePointerSpecVariant::LanAddress) => true,
        _ => false,
    }
}

/// View-based equality of pointer descriptors.
pub open spec fn pointer_eq(a: ValueSpecPointer, b: ValueSpecPointer) -> bool {
    match (a, b) {
        (ValueSpecPointer::Package(p1), ValueSpecPointer::Package(p2)) => p1.package_id@
            == p2.package_id@ && target_eq(p1.target, p2.target),
        (ValueSpecPointer::System(s1), ValueSpecPointer::System(s2)) => s1.key@ == s2.key@,
        _ => false,
    }
}

impl PackagePointerSpecVariant {
    /// A structural copy of the projection descriptor.
    #[verifier::loop_isolation(false)]
    pub fn deep_clone(&self) -> (r: PackagePointerSpecVariant)
        ensures
            target_eq(r, *self),
    {
        match self {
            PackagePointerSpecVariant::Config { selector, multi } => {
                let mut out: Vec<String> = Vec::new();
                let mut i: usize = 0;
                while i < selector.len()
                    invariant
                        0 <= i <= selector@.len(),
                        out@.len() == i,
                        forall|j: int| 0 <= j < i ==> (#[trigger] out@[j])@ == selector@[j]@,
                    decreases selector@.len() - i,
                {
                    out.push(selector[i].clone());
                    i = i + 1;
                }
                PackagePointerSpecVariant::Config { selector: out, multi: *multi }
            },
            PackagePointerSpecVariant::TorAddress => PackagePointerSpecVariant::TorAddress,
            PackagePointerSpecVariant::LanAddress => PackagePointerSpecVariant::LanAddress,
        }
    }
}

impl PackagePointerSpec {
    /// A structural copy of the pointer.
    pub fn deep_clone(&self) -> (r: PackagePointerSpec)
        ensures
            r.package_id@ == self.package_id@,
            target_eq(r.target, self.target),
    {
        PackagePointerSpec { package_id: self.package_id.clone(), target: self.target.deep_clone() }
    }
}

impl SystemPointerSpec {
    /// A structural copy of the pointer.
    pub fn deep_clone(&self) -> (r: SystemPointerSpec)
        ensures
            r.key@ == self.key@,
    {
        SystemPointerSpec { key: self.key.clone() }
    }
}

impl ValueSpecPointer {
    /// A structural copy of the descriptor.
    pub fn deep_clone(&self) -> (r: ValueSpecPointer)
        ensures
            pointer_eq(r, *self),
    {
        match self {
            ValueSpecPointer::Package(p) => ValueSpecPointer::Package(p.deep_clone()),
            ValueSpecPointer::System(s) => ValueSpecPointer::System(s.deep_clone()),
        }
    }
}

/// The value selected from `v` by walking the field path `path` from
/// position `from` on.  Walking stops with `Null` when a step is missing or
/// the value stepped into is not an object.
pub open spec fn spec_select(path: Seq<String>, from: int, v: Value) -> Value
    decreases path.len() - from,
    when 0 <= from <= path.len()
{
    if from == path.len() {
        v
    } else {
        match v {
            Value::Obj(c) => match crate::value::lookup(c.entries@, path[from]@) {
                Some(inner) => spec_select(path, from + 1, inner),
                None => Value::Null,
            },
            _ => Value::Null,
        }
    }
}

/// Selects the projection of `v` under the field path `selector` from
/// position `from` on: the executable counterpart of [`spec_select`],
/// returning a structural copy of the selected value.
#[verifier::loop_isolation(false)]
pub fn select(selector: &Vec<String>, from: usize, v: &Value) -> (r: Value)
    requires
        from <= selector@.len(),
    ensures
        veq(r, spec_select(selector@, from as int, *v)),
{
    let mut cur: &Value = v;
    let mut i: usize = from;
    while i < selector.len()
        invariant
            from <= i <= selector@.len(),
            spec_select(selector@, from as int, *v) == spec_select(selector@, i as int, *cur),
        decreases selector@.len() - i,
    {
        match cur {
            Value::Obj(c) => {
                match c.get(&selector[i]) {
                    Some(inner) => {
                        cur = inner;
                        i = i + 1;
                    },
                    None => {
                        return Value::Null;
                    },
                }
            },
            _ => {
                return Value::Null;
            },
        }
    }
    cur.deep_clone()
}

/// Selects a projection rooted at a configuration object.
pub fn select_in_config(selector: &Vec<String>, c: &Config) -> (r: Value)
    ensures
        veq(r, spec_select(selector@, 0, Value::Obj(*c))),
{
    if selector.len() == 0 {
        let copy = c.deep_clone();
        Value::Obj(copy)
    } else {
        match c.get(&selector[0]) {
            Some(v) => select(selector, 1, v),
            None => Value::Null,
        }
    }
}

} // verus!
