//! The dynamically typed configuration value tree: one package's
//! configuration is an ordered mapping from field name to structured value
//! (object / list / string / number / bool / null).

use vstd::prelude::*;

verus! {

/// One structured configuration value.
pub enum Value {
    Null,
    Bool(bool),
    Number(i64),
    Str(String),
    List(Vec<Value>),
    Obj(Config),
}

/// An ordered mapping from field name to [`Value`], preserving insertion
/// order.  Well-formed configurations never hold a key twice.
pub struct Config {
    pub entries: Vec<(String, Value)>,
}

/// Reports the type of a configuration value by name.
pub trait TypeOf {
    fn type_of(&self) -> &'static str;
}

impl TypeOf for Value {
    fn type_of(&self) -> (r: &'static str)
        ensures
            r@ == spec_type_of(*self)@,
    {
        match self {
            Value::List(_) => "list",
            Value::Bool(_) => "boolean",
            Value::Null => "null",
            Value::Number(_) => "number",
            Value::Obj(_) => "object",
            Value::Str(_) => "string",
        }
    }
}

/// The name that [`TypeOf::type_of`] reports for each value shape.
pub open spec fn spec_type_of(v: Value) -> &'static str {
    match v {
        Value::List(_) => "list",
        Value::Bool(_) => "boolean",
        Value::Null => "null",
        Value::Number(_) => "number",
        Value::Obj(_) => "object",
        Value::Str(_) => "string",
    }
}

/// Looks a key up in an association sequence; first match wins.
pub open spec fn lookup<V>(s: Seq<(String, V)>, k: Seq<char>) -> Option<V>
    decreases s.len(),
{
    if s.len() == 0 {
        None
    } else if s[0].0@ == k {
        Some(s[0].1)
    } else {
        lookup(s.drop_first(), k)
    }
}

/// Whether an association sequence holds a key.
pub open spec fn has_key<V>(s: Seq<(String, V)>, k: Seq<char>) -> bool {
    lookup(s, k) is Some
}

/// The position of the first entry holding `k`; meaningful only when the
/// key is present.
pub open spec fn index_of_key<V>(s: Seq<(String, V)>, k: Seq<char>) -> int
    decreases s.len(),
{
    if s.len() == 0 {
        0
    } else if s[0].0@ == k {
        0
    } else {
        1 + index_of_key(s.drop_first(), k)
    }
}

/// When the key is present, its first position carries it, the lookup
/// returns that entry's value, and no earlier entry carries it.
pub proof fn lemma_index_of_key<V>(s: Seq<(String, V)>, k: Seq<char>)
    requires
        has_key(s, k),
    ensures
        0 <= index_of_key(s, k) < s.len(),
        s[index_of_key(s, k)].0@ == k,
        lookup(s, k) == Some(s[index_of_key(s, k)].1),
        forall|j: int| 0 <= j < index_of_key(s, k) ==> (#[trigger] s[j]).0@ != k,
    decreases s.len(),
{
    if s.len() == 0 {
    } else if s[0].0@ == k {
    } else {
        lemma_index_of_key(s.drop_first(), k);
        assert forall|j: int| 0 <= j < index_of_key(s, k) implies (#[trigger] s[j]).0@ != k by {
            if j > 0 {
                assert(s.drop_first()[j - 1] == s[j]);
            }
        }
        assert(s[index_of_key(s, k)] == s.drop_first()[index_of_key(s.drop_first(), k)]);
    }
}

/// Whether no key occurs twice in an association sequence.
pub open spec fn unique_keys<V>(s: Seq<(String, V)>) -> bool {
    forall|i: int, j: int| 0 <= i < j < s.len() ==> s[i].0@ != s[j].0@
}

/// A key no entry holds is not found by a lookup.
pub proof fn lemma_lookup_absent<V>(s: Seq<(String, V)>, k: Seq<char>)
    requires
        forall|j: int| 0 <= j < s.len() ==> (#[trigger] s[j]).0@ != k,
    ensures
        lookup(s, k) is None,
    decreases s.len(),
{
    if s.len() > 0 {
        assert forall|j: int| 0 <= j < s.drop_first().len() implies (#[trigger] s.drop_first()[j]).0@
            != k by {
            assert(s.drop_first()[j] == s[j + 1]);
        }
        lemma_lookup_absent(s.drop_first(), k);
    }
}

/// Every entry's key is found by a lookup.
pub proof fn lemma_has_key_of_entry<V>(s: Seq<(String, V)>, l: int)
    requires
        0 <= l < s.len(),
    ensures
        has_key(s, s[l].0@),
    decreases s.len(),
{
    if s[0].0@ == s[l].0@ {
    } else {
        lemma_has_key_of_entry(s.drop_first(), l - 1);
        assert(s.drop_first()[l - 1] == s[l]);
    }
}

/// Decides [`unique_keys`] for an association vector.
#[verifier::loop_isolation(false)]
pub fn assoc_unique<V>(entries: &Vec<(String, V)>) -> (r: bool)
    ensures
        r == unique_keys(entries@),
{
    let mut a: usize = 0;
    while a < entries.len()
        invariant
            0 <= a <= entries@.len(),
            forall|x: int, y: int|
                0 <= x < y < entries@.len() && x < a ==> (#[trigger] entries@[x]).0@ != (
                #[trigger] entries@[y]).0@,
        decreases entries@.len() - a,
    {
        let mut b: usize = a + 1;
        while b < entries.len()
            invariant
                a < b <= entries@.len(),
                forall|y: int|
                    a < y < b ==> (#[trigger] entries@[y]).0@ != entries@[a as int].0@,
            decreases entries@.len() - b,
        {
            if str_eq(&entries[a].0, &entries[b].0) {
                return false;
            }
            b = b + 1;
        }
        a = a + 1;
    }
    true
}

/// Deep, view-based equality of configuration values: strings are compared
/// by their character sequences, lists and objects element by element.
pub open spec fn veq(a: Value, b: Value) -> bool
    decreases a,
{
    match (a, b) {
        (Value::Null, Value::Null) => true,
        (Value::Bool(x), Value::Bool(y)) => x == y,
        (Value::Number(x), Value::Number(y)) => x == y,
        (Value::Str(x), Value::Str(y)) => x@ == y@,
        (Value::List(x), Value::List(y)) => {
            &&& x@.len() == y@.len()
            &&& forall|i: int| 0 <= i < x@.len() ==> veq(#[trigger] x@[i], y@[i])
        },
        (Value::Obj(x), Value::Obj(y)) => ceq(x, y),
        _ => false,
    }
}

/// Deep equality of configurations: same length, and pairwise equal keys and
/// values in the same order.
pub open spec fn ceq(a: Config, b: Config) -> bool
    decreases a,
{
    &&& a.entries@.len() == b.entries@.len()
    &&& forall|i: int|
        0 <= i < a.entries@.len() ==> {
            &&& (#[trigger] a.entries@[i]).0@ == b.entries@[i].0@
            &&& veq(a.entries@[i].1, b.entries@[i].1)
        }
}

/// Deep equality of optional values: both absent, or both present and
/// deep-equal.
pub open spec fn opt_veq(a: Option<Value>, b: Option<Value>) -> bool {
    match (a, b) {
        (None, None) => true,
        (Some(x), Some(y)) => veq(x, y),
        _ => false,
    }
}

/// Association sequences with pairwise equal keys and deep-equal values
/// agree on every lookup, up to deep equality.
pub proof fn lemma_pairwise_lookup(sa: Seq<(String, Value)>, sb: Seq<(String, Value)>)
    requires
        sa.len() == sb.len(),
        forall|i: int|
            0 <= i < sa.len() ==> (#[trigger] sa[i]).0@ == sb[i].0@ && veq(sa[i].1, sb[i].1),
    ensures
        forall|k: Seq<char>| #[trigger] opt_veq(lookup(sa, k), lookup(sb, k)),
    decreases sa.len(),
{
    if sa.len() == 0 {
    } else {
        assert forall|i: int|
            0 <= i < sa.drop_first().len() implies (#[trigger] sa.drop_first()[i]).0@
            == sb.drop_first()[i].0@ && veq(sa.drop_first()[i].1, sb.drop_first()[i].1) by {
            assert(sa.drop_first()[i] == sa[i + 1]);
            assert(sb.drop_first()[i] == sb[i + 1]);
        }
        lemma_pairwise_lookup(sa.drop_first(), sb.drop_first());
        assert forall|k: Seq<char>| #[trigger] opt_veq(lookup(sa, k), lookup(sb, k)) by {
            if sa[0].0@ == k {
            } else {
                assert(opt_veq(lookup(sa.drop_first(), k), lookup(sb.drop_first(), k)));
            }
        }
    }
}

/// Structural well-formedness of a value: every object inside it has unique
/// keys.
pub open spec fn value_wf(v: Value) -> bool
    decreases v,
{
    match v {
        Value::List(items) => forall|i: int| 0 <= i < items@.len() ==> value_wf(#[trigger] items@[i]),
        Value::Obj(c) => config_wf(c),
        _ => true,
    }
}

/// Well-formedness of a configuration: unique keys, and every value
/// well-formed.
pub open spec fn config_wf(c: Config) -> bool
    decreases c,
{
    &&& unique_keys(c.entries@)
    &&& forall|i: int| 0 <= i < c.entries@.len() ==> value_wf((#[trigger] c.entries@[i]).1)
}

/// Deep equality of values is symmetric.
pub proof fn lemma_veq_sym(a: Value, b: Value)
    requires
        veq(a, b),
    ensures
        veq(b, a),
    decreases a,
{
    match a {
        Value::List(x) => match b {
            Value::List(y) => {
                assert forall|i: int| 0 <= i < y@.len() implies veq(#[trigger] y@[i], x@[i]) by {
                    lemma_veq_sym(x@[i], y@[i]);
                }
            },
            _ => {},
        },
        Value::Obj(x) => match b {
            Value::Obj(y) => {
                lemma_ceq_sym(x, y);
            },
            _ => {},
        },
        _ => {},
    }
}

/// Deep equality of configurations is symmetric.
pub proof fn lemma_ceq_sym(x: Config, y: Config)
    requires
        ceq(x, y),
    ensures
        ceq(y, x),
    decreases x,
{
    assert forall|i: int|
        0 <= i < y.entries@.len() implies (#[trigger] y.entries@[i]).0@ == x.entries@[i].0@ && veq(
        y.entries@[i].1,
        x.entries@[i].1,
    ) by {
        lemma_veq_sym(x.entries@[i].1, y.entries@[i].1);
    }
}

/// Deep equality of values is transitive.
pub proof fn lemma_veq_trans(a: Value, b: Value, c: Value)
    requires
        veq(a, b),
        veq(b, c),
    ensures
        veq(a, c),
    decreases a,
{
    match a {
        Value::List(x) => match b {
            Value::List(y) => match c {
                Value::List(z) => {
                    assert forall|i: int| 0 <= i < x@.len() implies veq(#[trigger] x@[i], z@[i]) by {
                        lemma_veq_trans(x@[i], y@[i], z@[i]);
                    }
                },
                _ => {},
            },
            _ => {},
        },
        Value::Obj(x) => match b {
            Value::Obj(y) => match c {
                Value::Obj(z) => {
                    lemma_ceq_trans(x, y, z);
                },
                _ => {},
            },
            _ => {},
        },
        _ => {},
    }
}

/// Deep equality of configurations is transitive.
pub proof fn lemma_ceq_trans(x: Config, y: Config, z: Config)
    requires
        ceq(x, y),
        ceq(y, z),
    ensures
        ceq(x, z),
    decreases x,
{
    assert forall|i: int|
        0 <= i < x.entries@.len() implies (#[trigger] x.entries@[i]).0@ == z.entries@[i].0@ && veq(
        x.entries@[i].1,
        z.entries@[i].1,
    ) by {
        lemma_veq_trans(x.entries@[i].1, y.entries@[i].1, z.entries@[i].1);
    }
}

/// Compares two strings by value.
pub fn str_eq(a: &String, b: &String) -> (r: bool)
    ensures
        r == (a@ == b@),
{
    *a == *b
}

/// Looks a key up in an association vector: the executable counterpart of
/// [`lookup`].
#[verifier::loop_isolation(false)]
pub fn assoc_get<'a, V>(entries: &'a Vec<(String, V)>, k: &String) -> (r: Option<&'a V>)
    ensures
        match r {
            Some(v) => lookup(entries@, k@) == Some(*v),
            None => lookup(entries@, k@) is None,
        },
{
    proof {
        assert(entries@.skip(0) =~= entries@);
    }
    let mut i: usize = 0;
    while i < entries.len()
        invariant
            0 <= i <= entries@.len(),
            lookup(entries@, k@) == lookup(entries@.skip(i as int), k@),
        decreases entries@.len() - i,
    {
        proof {
            assert(entries@.skip(i as int).drop_first() =~= entries@.skip(i + 1));
        }
        if str_eq(&entries[i].0, k) {
            assert(entries@.skip(i as int)[0] == entries@[i as int]);
            return Some(&entries[i].1);
        }
        i = i + 1;
    }
    None
}

/// Whether an association vector holds a key.
pub fn assoc_contains<V>(entries: &Vec<(String, V)>, k: &String) -> (r: bool)
    ensures
        r == has_key(entries@, k@),
{
    assoc_get(entries, k).is_some()
}

/// Stores `v` under `k` in an association vector: replaces the value in
/// place if the key is present, appends the pair otherwise.
#[verifier::loop_isolation(false)]
pub fn assoc_insert<V>(entries: &mut Vec<(String, V)>, k: String, v: V)
    requires
        unique_keys(old(entries)@),
    ensures
        unique_keys(final(entries)@),
        lookup(final(entries)@, k@) == Some(v),
        forall|other: Seq<char>|
            other != k@ ==> #[trigger] lookup(final(entries)@, other) == lookup(
                old(entries)@,
                other,
            ),
        final(entries)@.len() <= old(entries)@.len() + 1,
        forall|j: int|
            0 <= j < final(entries)@.len() ==> (#[trigger] final(entries)@[j]).1 == v
                || exists|l: int|
                0 <= l < old(entries)@.len() && final(entries)@[j].1 == #[trigger] old(
                    entries,
                )@[l].1,
        has_key(old(entries)@, k@) ==> final(entries)@.len() == old(entries)@.len() && forall|
            j: int,
        | 0 <= j < final(entries)@.len() ==> (#[trigger] final(entries)@[j]).0@ == old(
            entries,
        )@[j].0@,
        !has_key(old(entries)@, k@) ==> final(entries)@.len() == old(entries)@.len() + 1 && (forall|
            j: int,
        | 0 <= j < old(entries)@.len() ==> #[trigger] final(entries)@[j] == old(entries)@[j])
            && final(entries)@.last().0@ == k@ && final(entries)@.last().1 == v,
{
    let ghost pre = entries@;
    let mut i: usize = 0;
    while i < entries.len()
        invariant
            0 <= i <= entries@.len(),
            entries@ == pre,
            forall|j: int| 0 <= j < i ==> (#[trigger] pre[j]).0@ != k@,
        decreases entries@.len() - i,
    {
        if str_eq(&entries[i].0, &k) {
            let ghost kk = k@;
            entries.set(i, (k, v));
            proof {
                let post = entries@;
                lemma_lookup_update(pre, i as int, post, kk, v);
                lemma_has_key_of_entry(pre, i as int);
                assert(unique_keys(entries@));
                assert forall|other: Seq<char>|
                    other != kk implies #[trigger] lookup(entries@, other) == lookup(
                    pre,
                    other,
                ) by {
                    assert(lookup(post, other) == lookup(pre, other));
                }
                assert forall|j: int|
                    0 <= j < post.len() implies (#[trigger] post[j]).1 == v || exists|l: int|
                    0 <= l < pre.len() && post[j].1 == #[trigger] pre[l].1 by {
                    if j != i {
                        assert(post[j].1 == pre[j].1);
                    }
                }
                assert forall|j: int|
                    0 <= j < post.len() implies (#[trigger] post[j]).0@ == pre[j].0@ by {
                    if j != i {
                        assert(post[j] == pre[j]);
                    }
                }
            }
            return;
        }
        i = i + 1;
    }
    let ghost kk = k@;
    proof {
        lemma_lookup_absent(pre, kk);
    }
    entries.push((k, v));
    proof {
        let post = entries@;
        lemma_lookup_append(pre, kk, v, post);
        assert(unique_keys(entries@));
        assert forall|other: Seq<char>|
            other != kk implies #[trigger] lookup(entries@, other) == lookup(
            pre,
            other,
        ) by {
            assert(lookup(post, other) == lookup(pre, other));
        }
        assert forall|j: int|
            0 <= j < post.len() implies (#[trigger] post[j]).1 == v || exists|l: int|
            0 <= l < pre.len() && post[j].1 == #[trigger] pre[l].1 by {
            if j < pre.len() {
                assert(post[j].1 == pre[j].1);
            }
        }
    }
}

impl Value {
    /// A structural copy of the value.
    #[verifier::loop_isolation(false)]
    pub fn deep_clone(&self) -> (r: Value)
        ensures
            veq(r, *self),
        decreases self,
    {
        match self {
            Value::Null => Value::Null,
            Value::Bool(b) => Value::Bool(*b),
            Value::Number(n) => Value::Number(*n),
            Value::Str(s) => Value::Str(s.clone()),
            Value::List(items) => {
                let mut out: Vec<Value> = Vec::new();
                let mut i: usize = 0;
                while i < items.len()
                    invariant
                        0 <= i <= items@.len(),
                        out@.len() == i,
                        forall|j: int| 0 <= j < i ==> veq(#[trigger] out@[j], items@[j]),
                    decreases items@.len() - i,
                {
                    proof {
                        assert(decreases_to!(*self => *items));
                        assert(decreases_to!(*items => items@[i as int]));
                    }
                    out.push(items[i].deep_clone());
                    i = i + 1;
                }
                Value::List(out)
            },
            Value::Obj(c) => Value::Obj(c.deep_clone()),
        }
    }

    /// Structural equality test, deciding [`veq`].
    #[verifier::loop_isolation(false)]
    pub fn deep_eq(&self, other: &Value) -> (r: bool)
        ensures
            r == veq(*self, *other),
        decreases self,
    {
        match self {
            Value::Null => matches!(other, Value::Null),
            Value::Bool(x) => match other {
                Value::Bool(y) => *x == *y,
                _ => false,
            },
            Value::Number(x) => match other {
                Value::Number(y) => *x == *y,
                _ => false,
            },
            Value::Str(x) => match other {
                Value::Str(y) => str_eq(x, y),
                _ => false,
            },
            Value::List(x) => match other {
                Value::List(y) => {
                    if x.len() != y.len() {
                        return false;
                    }
                    let mut i: usize = 0;
                    while i < x.len()
                        invariant
                            0 <= i <= x@.len(),
                            x@.len() == y@.len(),
                            forall|j: int| 0 <= j < i ==> veq(#[trigger] x@[j], y@[j]),
                        decreases x@.len() - i,
                    {
                        proof {
                            assert(decreases_to!(*self => *x));
                            assert(decreases_to!(*x => x@[i as int]));
                        }
                        if !x[i].deep_eq(&y[i]) {
                            return false;
                        }
                        i = i + 1;
                    }
                    true
                },
                _ => false,
            },
            Value::Obj(x) => match other {
                Value::Obj(y) => x.deep_eq(y),
                _ => false,
            },
        }
    }
}

impl Config {
    /// The empty configuration.
    pub fn new() -> (r: Config)
        ensures
            r.entries@.len() == 0,
            config_wf(r),
    {
        Config { entries: Vec::new() }
    }

    /// The value stored under `k`, if any.
    #[verifier::loop_isolation(false)]
    pub fn get(&self, k: &String) -> (r: Option<&Value>)
        ensures
            match r {
                Some(v) => lookup(self.entries@, k@) == Some(*v),
                None => lookup(self.entries@, k@) is None,
            },
    {
        proof {
            assert(self.entries@.skip(0) =~= self.entries@);
        }
        let mut i: usize = 0;
        while i < self.entries.len()
            invariant
                0 <= i <= self.entries@.len(),
                lookup(self.entries@, k@) == lookup(self.entries@.skip(i as int), k@),
            decreases self.entries@.len() - i,
        {
            proof {
                assert(self.entries@.skip(i as int).drop_first() =~= self.entries@.skip(i + 1));
            }
            if str_eq(&self.entries[i].0, k) {
                assert(self.entries@.skip(i as int)[0] == self.entries@[i as int]);
                return Some(&self.entries[i].1);
            }
            i = i + 1;
        }
        None
    }

    /// Whether the configuration holds `k`.
    pub fn contains_key(&self, k: &String) -> (r: bool)
        ensures
            r == has_key(self.entries@, k@),
    {
        self.get(k).is_some()
    }

    /// Stores `v` under `k`: replaces the value in place if the key is
    /// present, appends the pair otherwise.
    #[verifier::loop_isolation(false)]
    pub fn insert(&mut self, k: String, v: Value)
        requires
            unique_keys(old(self).entries@),
        ensures
            unique_keys(final(self).entries@),
            lookup(final(self).entries@, k@) == Some(v),
            forall|other: Seq<char>|
                other != k@ ==> #[trigger] lookup(final(self).entries@, other) == lookup(
                    old(self).entries@,
                    other,
                ),
            final(self).entries@.len() <= old(self).entries@.len() + 1,
            value_wf(v) && config_wf(*old(self)) ==> config_wf(*final(self)),
    {
        let ghost pre = self.entries@;
        let mut i: usize = 0;
        while i < self.entries.len()
            invariant
                0 <= i <= self.entries@.len(),
                self.entries@ == pre,
                forall|j: int| 0 <= j < i ==> (#[trigger] pre[j]).0@ != k@,
            decreases self.entries@.len() - i,
        {
            if str_eq(&self.entries[i].0, &k) {
                let ghost kk = k@;
                self.entries.set(i, (k, v));
                proof {
                    let post = self.entries@;
                    lemma_lookup_update(pre, i as int, post, kk, v);
                    assert(unique_keys(self.entries@));
                    assert forall|other: Seq<char>|
                        other != kk implies #[trigger] lookup(self.entries@, other) == lookup(
                        pre,
                        other,
                    ) by {
                        assert(lookup(post, other) == lookup(pre, other));
                    }
                }
                return;
            }
            i = i + 1;
        }
        let ghost kk = k@;
        self.entries.push((k, v));
        proof {
            let post = self.entries@;
            lemma_lookup_append(pre, kk, v, post);
            assert(unique_keys(self.entries@));
            assert forall|other: Seq<char>|
                other != kk implies #[trigger] lookup(self.entries@, other) == lookup(
                pre,
                other,
            ) by {
                assert(lookup(post, other) == lookup(pre, other));
            }
        }
    }

    /// The number of fields.
    pub fn len(&self) -> (r: usize)
        ensures
            r == self.entries@.len(),
    {
        self.entries.len()
    }

    /// A structural copy of the configuration.
    #[verifier::loop_isolation(false)]
    pub fn deep_clone(&self) -> (r: Config)
        ensures
            ceq(r, *self),
        decreases self,
    {
        let mut out: Vec<(String, Value)> = Vec::new();
        let mut i: usize = 0;
        while i < self.entries.len()
            invariant
                0 <= i <= self.entries@.len(),
                out@.len() == i,
                forall|j: int|
                    0 <= j < i ==> (#[trigger] out@[j]).0@ == self.entries@[j].0@ && veq(
                        out@[j].1,
                        self.entries@[j].1,
                    ),
            decreases self.entries@.len() - i,
        {
            let k = self.entries[i].0.clone();
            let v = self.entries[i].1.deep_clone();
            out.push((k, v));
            i = i + 1;
        }
        Config { entries: out }
    }

    /// Structural equality test, deciding [`ceq`].
    #[verifier::loop_isolation(false)]
    pub fn deep_eq(&self, other: &Config) -> (r: bool)
        ensures
            r == ceq(*self, *other),
        decreases self,
    {
        if self.entries.len() != other.entries.len() {
            return false;
        }
        let mut i: usize = 0;
        while i < self.entries.len()
            invariant
                0 <= i <= self.entries@.len(),
                self.entries@.len() == other.entries@.len(),
                forall|j: int|
                    0 <= j < i ==> (#[trigger] self.entries@[j]).0@ == other.entries@[j].0@ && veq(
                        self.entries@[j].1,
                        other.entries@[j].1,
                    ),
            decreases self.entries@.len() - i,
        {
            if !str_eq(&self.entries[i].0, &other.entries[i].0) {
                return false;
            }
            if !self.entries[i].1.deep_eq(&other.entries[i].1) {
                return false;
            }
            i = i + 1;
        }
        true
    }
}

/// Replacing the entry at a position whose key is `k`, in a prefix free of
/// `k`, makes `k` map to the new value and leaves every other key unchanged.
pub proof fn lemma_lookup_update<V>(pre: Seq<(String, V)>, i: int, post: Seq<(String, V)>, k: Seq<char>, v: V)
    requires
        0 <= i < pre.len(),
        post.len() == pre.len(),
        forall|j: int| 0 <= j < pre.len() && j != i ==> post[j] == pre[j],
        pre[i].0@ == k,
        post[i].0@ == k,
        post[i].1 == v,
        forall|j: int| 0 <= j < i ==> (#[trigger] pre[j]).0@ != k,
    ensures
        lookup(post, k) == Some(v),
        forall|other: Seq<char>| other != k ==> #[trigger] lookup(post, other) == lookup(pre, other),
        unique_keys(pre) ==> unique_keys(post),
    decreases pre.len(),
{
    if i == 0 {
        assert(lookup(post, k) == Some(post[0].1));
        assert forall|other: Seq<char>| other != k implies #[trigger] lookup(post, other) == lookup(
            pre,
            other,
        ) by {
            assert(post.drop_first() =~= pre.drop_first());
        }
    } else {
        assert(pre.drop_first()[i - 1] == pre[i]);
        assert forall|j: int| 0 <= j < pre.drop_first().len() && j != i - 1 implies pre.drop_first()[j]
            == post.drop_first()[j] by {
            assert(pre.drop_first()[j] == pre[j + 1]);
            assert(post.drop_first()[j] == post[j + 1]);
        }
        assert forall|j: int| 0 <= j < i - 1 implies (#[trigger] pre.drop_first()[j]).0@ != k by {
            assert(pre.drop_first()[j] == pre[j + 1]);
        }
        lemma_lookup_update(pre.drop_first(), i - 1, post.drop_first(), k, v);
        assert(post[0] == pre[0]);
        assert(pre[0].0@ != k);
        assert(lookup(post, k) == lookup(post.drop_first(), k));
        assert forall|other: Seq<char>| other != k implies #[trigger] lookup(post, other) == lookup(
            pre,
            other,
        ) by {
            if post[0].0@ == other {
            } else {
                assert(lookup(post, other) == lookup(post.drop_first(), other));
                assert(lookup(pre, other) == lookup(pre.drop_first(), other));
            }
        }
    }
    if unique_keys(pre) {
        assert forall|x: int, y: int| 0 <= x < y < post.len() implies post[x].0@ != post[y].0@ by {
            assert(post[x].0@ == pre[x].0@);
            assert(post[y].0@ == pre[y].0@);
        }
    }
}

/// Appending a fresh key maps it to the new value and leaves every other key
/// unchanged.
pub proof fn lemma_lookup_append<V>(pre: Seq<(String, V)>, k: Seq<char>, v: V, post: Seq<(String, V)>)
    requires
        forall|j: int| 0 <= j < pre.len() ==> (#[trigger] pre[j]).0@ != k,
        post.len() == pre.len() + 1,
        forall|j: int| 0 <= j < pre.len() ==> post[j] == pre[j],
        post[pre.len() as int].0@ == k,
        post[pre.len() as int].1 == v,
    ensures
        lookup(post, k) == Some(v),
        forall|other: Seq<char>| other != k ==> #[trigger] lookup(post, other) == lookup(pre, other),
        unique_keys(pre) ==> unique_keys(post),
    decreases pre.len(),
{
    if pre.len() == 0 {
        assert forall|other: Seq<char>| other != k implies #[trigger] lookup(post, other) == lookup(
            pre,
            other,
        ) by {
            assert(post[0].0@ == k);
            assert(post.drop_first() =~= Seq::<(String, V)>::empty());
            assert(lookup(post.drop_first(), other) == None::<V>);
        }
    } else {
        assert forall|j: int| 0 <= j < pre.drop_first().len() implies post.drop_first()[j]
            == pre.drop_first()[j] by {
            assert(pre.drop_first()[j] == pre[j + 1]);
            assert(post.drop_first()[j] == post[j + 1]);
        }
        assert forall|j: int| 0 <= j < pre.drop_first().len() implies (#[trigger] pre.drop_first()[j]).0@
            != k by {
            assert(pre.drop_first()[j] == pre[j + 1]);
        }
        assert(post.drop_first()[pre.len() - 1] == post[pre.len() as int]);
        lemma_lookup_append(pre.drop_first(), k, v, post.drop_first());
        assert(post[0] == pre[0]);
        assert(pre[0].0@ != k);
        assert(lookup(post, k) == lookup(post.drop_first(), k));
        assert forall|other: Seq<char>| other != k implies #[trigger] lookup(post, other) == lookup(
            pre,
            other,
        ) by {
            if post[0].0@ == other {
            } else {
                assert(lookup(post, other) == lookup(post.drop_first(), other));
                assert(lookup(pre, other) == lookup(pre.drop_first(), other));
            }
        }
    }
    if unique_keys(pre) {
        assert forall|x: int, y: int| 0 <= x < y < post.len() implies post[x].0@ != post[y].0@ by {
            if y < pre.len() {
                assert(post[x] == pre[x] && post[y] == pre[y]);
            } else {
                assert(post[x] == pre[x]);
                assert(post[y].0@ == k);
            }
        }
    }
}

} // verus!
