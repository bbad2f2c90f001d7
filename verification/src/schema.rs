//! The configuration schema language: a recursive tree describing legal
//! configuration shapes, with validation, default generation, pointer
//! enumeration and pointer resolution.

use vstd::prelude::*;
use crate::pointer::ValueSpecPointer;
use crate::value::{Value, Config, veq, lookup, has_key, index_of_key, lemma_index_of_key, str_eq,
    assoc_get, assoc_contains, TypeOf, unique_keys};
use crate::error::{MatchError, NoMatchWithPath, TimeoutError, u64_to_string};
use crate::rng::Rng;

verus! {

/// An inclusive range constraint on a number; an absent bound is open.
pub struct NumRange {
    pub min: Option<i64>,
    pub max: Option<i64>,
}

/// A bound on a list's length; an absent upper bound is open.
pub struct LenRange {
    pub min: u64,
    pub max: Option<u64>,
}

/// Whether `n` lies within the range.
pub open spec fn in_num_range(r: NumRange, n: i64) -> bool {
    &&& match r.min {
        Some(m) => m <= n,
        None => true,
    }
    &&& match r.max {
        Some(m) => n <= m,
        None => true,
    }
}

/// Whether a length lies within the bound.
pub open spec fn in_len_range(r: LenRange, n: int) -> bool {
    &&& r.min <= n
    &&& match r.max {
        Some(m) => n <= m,
        None => true,
    }
}

impl NumRange {
    /// Decides [`in_num_range`].
    pub fn contains(&self, n: i64) -> (r: bool)
        ensures
            r == in_num_range(*self, n),
    {
        let lo = match self.min {
            Some(m) => m <= n,
            None => true,
        };
        let hi = match self.max {
            Some(m) => n <= m,
            None => true,
        };
        lo && hi
    }
}

impl LenRange {
    /// Decides [`in_len_range`].
    pub fn contains(&self, n: u64) -> (r: bool)
        ensures
            r == in_len_range(*self, n as int),
    {
        let lo = self.min <= n;
        let hi = match self.max {
            Some(m) => n <= m,
            None => true,
        };
        lo && hi
    }
}

/// What the regex crate decides for a pattern over a string; a function of
/// the two character sequences alone.
pub uninterp spec fn str_matches(pattern: Seq<char>, s: Seq<char>) -> bool;

/// Relies on regex::Regex::is_match, over a pattern compiled with
/// regex::Regex::new: whether the pattern has a match inside the string.  A
/// pattern the crate cannot compile matches nothing.
#[verifier::external_body]
pub fn pattern_matches(pattern: &str, s: &str) -> (r: bool)
    ensures
        r == str_matches(pattern@, s@),
{
    match regex::Regex::new(pattern) {
        Ok(re) => re.is_match(s),
        Err(_) => false,
    }
}

/// One node of the schema tree describing legal shapes of one value.
pub enum ValueSpec {
    /// A boolean field.
    Bool { nullable: bool },
    /// A number within an inclusive range.
    Number { range: NumRange, nullable: bool },
    /// A string, constrained by a pattern when one is declared.
    Str { pattern: Option<String>, nullable: bool },
    /// One string out of an enumerated set.
    Enum { values: Vec<String> },
    /// A list of values of one shape, length-bounded, optionally with no
    /// repeated element.
    List { inner: Box<ValueSpec>, len: LenRange, unique: bool },
    /// An object with declared fields.
    Obj { spec: ConfigSpec, nullable: bool },
    /// A tagged union: the tag field selects one variant's field set.
    Union { tag: String, variants: Vec<(String, ConfigSpec)> },
    /// A field whose stored value is replaced by a projection at resolution
    /// time; any stored value is accepted by validation.
    Pointer { ptr: ValueSpecPointer },
}

/// A schema: the declared fields of one package's configuration.
pub struct ConfigSpec {
    pub fields: Vec<(String, ValueSpec)>,
}

/// Whether a character sequence occurs among the strings.
pub open spec fn contains_string(vals: Seq<String>, s: Seq<char>) -> bool {
    exists|i: int| 0 <= i < vals.len() && (#[trigger] vals[i])@ == s
}

/// The value a configuration stores under a key, with `Null` standing in
/// for an absent field.
pub open spec fn field_or_null(c: Config, k: Seq<char>) -> Value {
    match lookup(c.entries@, k) {
        Some(v) => v,
        None => Value::Null,
    }
}

/// Whether a value is legal for a schema node.
pub open spec fn value_ok(s: ValueSpec, v: Value) -> bool
    decreases s,
{
    match s {
        ValueSpec::Bool { nullable } => v is Bool || (nullable && v is Null),
        ValueSpec::Number { range, nullable } => match v {
            Value::Number(n) => in_num_range(range, n),
            Value::Null => nullable,
            _ => false,
        },
        ValueSpec::Str { pattern, nullable } => match v {
            Value::Str(st) => match pattern {
                Some(p) => str_matches(p@, st@),
                None => true,
            },
            Value::Null => nullable,
            _ => false,
        },
        ValueSpec::Enum { values } => match v {
            Value::Str(st) => contains_string(values@, st@),
            _ => false,
        },
        ValueSpec::List { inner, len, unique } => match v {
            Value::List(items) => {
                &&& in_len_range(len, items@.len() as int)
                &&& forall|i: int| 0 <= i < items@.len() ==> value_ok(*inner, #[trigger] items@[i])
                &&& (unique ==> forall|i: int, j: int|
                    0 <= i < j < items@.len() ==> !veq(items@[i], items@[j]))
            },
            _ => false,
        },
        ValueSpec::Obj { spec, nullable } => match v {
            Value::Obj(c) => config_ok(spec, c),
            Value::Null => nullable,
            _ => false,
        },
        ValueSpec::Union { tag, variants } => match v {
            Value::Obj(c) => match lookup(c.entries@, tag@) {
                Some(Value::Str(tv)) => if has_key(variants@, tv@) && 0 <= index_of_key(
                variants@,
                tv@,
            ) < variants@.len() {
                union_variant_ok(tag@, variants@, variants@[index_of_key(variants@, tv@)].1, tv@, c)
            } else {
                false
            },
                _ => false,
            },
            _ => false,
        },
        ValueSpec::Pointer { .. } => true,
    }
}

/// Whether an object is legal for the chosen union variant: the variant's
/// property names collide neither with the tag field name nor with another
/// variant's tag value, every declared field is legal, and every stored key
/// is the tag or declared.
pub open spec fn union_variant_ok(
    tag: Seq<char>,
    variants: Seq<(String, ConfigSpec)>,
    cs: ConfigSpec,
    tv: Seq<char>,
    c: Config,
) -> bool
    decreases cs,
{
    &&& forall|i: int|
        0 <= i < cs.fields@.len() ==> {
            &&& (#[trigger] cs.fields@[i]).0@ != tag
            &&& !(exists|j: int|
                0 <= j < variants.len() && (#[trigger] variants[j]).0@ == cs.fields@[i].0@
                    && variants[j].0@ != tv)
            &&& value_ok(cs.fields@[i].1, field_or_null(c, cs.fields@[i].0@))
        }
    &&& forall|l: int|
        0 <= l < c.entries@.len() ==> (#[trigger] c.entries@[l]).0@ == tag || has_key(
            cs.fields@,
            c.entries@[l].0@,
        )
}

/// Whether a configuration is legal for a schema: every declared field's
/// value (absent standing for null) is legal, and no undeclared key is
/// stored.
pub open spec fn config_ok(cs: ConfigSpec, c: Config) -> bool
    decreases cs,
{
    &&& forall|i: int|
        0 <= i < cs.fields@.len() ==> value_ok(
            (#[trigger] cs.fields@[i]).1,
            field_or_null(c, cs.fields@[i].0@),
        )
    &&& forall|l: int|
        0 <= l < c.entries@.len() ==> has_key(cs.fields@, (#[trigger] c.entries@[l]).0@)
}

/// Checks one value against one schema node, deciding [`value_ok`]; a
/// violation is reported with its path built leaf to root.
#[verifier::loop_isolation(false)]
fn check_value(s: &ValueSpec, v: &Value) -> (r: Result<(), NoMatchWithPath>)
    ensures
        r is Ok <==> value_ok(*s, *v),
    decreases s,
{
    match s {
        ValueSpec::Bool { nullable } => match v {
            Value::Bool(_) => Ok(()),
            Value::Null => if *nullable {
                Ok(())
            } else {
                Err(NoMatchWithPath::new(MatchError::NotNullable))
            },
            _ => Err(NoMatchWithPath::new(MatchError::InvalidType("boolean", v.type_of()))),
        },
        ValueSpec::Number { range, nullable } => match v {
            Value::Number(n) => if range.contains(*n) {
                Ok(())
            } else {
                Err(NoMatchWithPath::new(MatchError::OutOfRange(NumRange { min: range.min, max: range.max }, *n)))
            },
            Value::Null => if *nullable {
                Ok(())
            } else {
                Err(NoMatchWithPath::new(MatchError::NotNullable))
            },
            _ => Err(NoMatchWithPath::new(MatchError::InvalidType("number", v.type_of()))),
        },
        ValueSpec::Str { pattern, nullable } => match v {
            Value::Str(st) => match pattern {
                Some(p) => if pattern_matches(p.as_str(), st.as_str()) {
                    Ok(())
                } else {
                    Err(NoMatchWithPath::new(MatchError::Pattern(st.clone(), p.clone())))
                },
                None => Ok(()),
            },
            Value::Null => if *nullable {
                Ok(())
            } else {
                Err(NoMatchWithPath::new(MatchError::NotNullable))
            },
            _ => Err(NoMatchWithPath::new(MatchError::InvalidType("string", v.type_of()))),
        },
        ValueSpec::Enum { values } => match v {
            Value::Str(st) => {
                let mut i: usize = 0;
                while i < values.len()
                    invariant
                        0 <= i <= values@.len(),
                        forall|j: int| 0 <= j < i ==> (#[trigger] values@[j])@ != st@,
                    decreases values@.len() - i,
                {
                    if str_eq(&values[i], st) {
                        return Ok(());
                    }
                    i = i + 1;
                }
                Err(NoMatchWithPath::new(MatchError::Enum(st.clone(), clone_strings(values))))
            },
            _ => Err(NoMatchWithPath::new(MatchError::InvalidType("string", v.type_of()))),
        },
        ValueSpec::List { inner, len, unique } => match v {
            Value::List(items) => {
                let n = items.len();
                if !len.contains(n as u64) {
                    return Err(NoMatchWithPath::new(MatchError::LengthMismatch(
                        LenRange { min: len.min, max: len.max },
                        n as u64,
                    )));
                }
                let mut i: usize = 0;
                while i < items.len()
                    invariant
                        0 <= i <= items@.len(),
                        forall|j: int| 0 <= j < i ==> value_ok(**inner, #[trigger] items@[j]),
                    decreases items@.len() - i,
                {
                    proof {
                        assert(decreases_to!(*s => **inner));
                    }
                    match check_value(&**inner, &items[i]) {
                        Ok(_) => {},
                        Err(e) => {
                            return Err(e.prepend(u64_to_string(i as u64)));
                        },
                    }
                    i = i + 1;
                }
                if *unique {
                    let mut a: usize = 0;
                    while a < items.len()
                        invariant
                            0 <= a <= items@.len(),
                            forall|x: int, y: int|
                                0 <= x < y < items@.len() && x < a ==> !veq(items@[x], items@[y]),
                        decreases items@.len() - a,
                    {
                        let mut b: usize = a + 1;
                        while b < items.len()
                            invariant
                                a < b <= items@.len(),
                                forall|y: int| a < y < b ==> !veq(items@[a as int], #[trigger] items@[y]),
                            decreases items@.len() - b,
                        {
                            if items[a].deep_eq(&items[b]) {
                                return Err(NoMatchWithPath::new(MatchError::ListUniquenessViolation));
                            }
                            b = b + 1;
                        }
                        a = a + 1;
                    }
                }
                Ok(())
            },
            _ => Err(NoMatchWithPath::new(MatchError::InvalidType("list", v.type_of()))),
        },
        ValueSpec::Obj { spec, nullable } => match v {
            Value::Obj(c) => {
                proof {
                    assert(decreases_to!(*s => *spec));
                }
                check_config(spec, c)
            },
            Value::Null => if *nullable {
                Ok(())
            } else {
                Err(NoMatchWithPath::new(MatchError::NotNullable))
            },
            _ => Err(NoMatchWithPath::new(MatchError::InvalidType("object", v.type_of()))),
        },
        ValueSpec::Union { tag, variants } => match v {
            Value::Obj(c) => {
                let tv: &String = match c.get(tag) {
                    Some(Value::Str(t)) => t,
                    _ => {
                        return Err(NoMatchWithPath::new(MatchError::MissingTag(tag.clone())));
                    },
                };
                let cs: &ConfigSpec = match assoc_get(variants, tv) {
                    Some(cs) => cs,
                    None => {
                        return Err(NoMatchWithPath::new(MatchError::Union(
                            tv.clone(),
                            clone_keys(variants),
                        )));
                    },
                };
                proof {
                    lemma_index_of_key(variants@, tv@);
                    assert(decreases_to!(*s => *variants));
                    assert(decreases_to!(*variants => variants@[index_of_key(variants@, tv@)]));
                    assert(*cs == variants@[index_of_key(variants@, tv@)].1);
                }
                check_union_obj(tag, variants, cs, tv, c)
            },
            _ => Err(NoMatchWithPath::new(MatchError::InvalidType("object", v.type_of()))),
        },
        ValueSpec::Pointer { .. } => Ok(()),
    }
}

/// Structural copies of a list of strings.
#[verifier::loop_isolation(false)]
fn clone_strings(vals: &Vec<String>) -> (r: Vec<String>)
    ensures
        r@.len() == vals@.len(),
        forall|i: int| 0 <= i < vals@.len() ==> (#[trigger] r@[i])@ == vals@[i]@,
{
    let mut out: Vec<String> = Vec::new();
    let mut i: usize = 0;
    while i < vals.len()
        invariant
            0 <= i <= vals@.len(),
            out@.len() == i,
            forall|j: int| 0 <= j < i ==> (#[trigger] out@[j])@ == vals@[j]@,
        decreases vals@.len() - i,
    {
        out.push(vals[i].clone());
        i = i + 1;
    }
    out
}

/// The keys of an association vector, copied.
#[verifier::loop_isolation(false)]
fn clone_keys<V>(entries: &Vec<(String, V)>) -> (r: Vec<String>)
    ensures
        r@.len() == entries@.len(),
{
    let mut out: Vec<String> = Vec::new();
    let mut i: usize = 0;
    while i < entries.len()
        invariant
            0 <= i <= entries@.len(),
            out@.len() == i,
        decreases entries@.len() - i,
    {
        out.push(entries[i].0.clone());
        i = i + 1;
    }
    out
}

/// Checks an object against the chosen union variant, deciding
/// [`union_variant_ok`].
#[verifier::loop_isolation(false)]
fn check_union_obj(
    tag: &String,
    variants: &Vec<(String, ConfigSpec)>,
    cs: &ConfigSpec,
    tv: &String,
    c: &Config,
) -> (r: Result<(), NoMatchWithPath>)
    ensures
        r is Ok <==> union_variant_ok(tag@, variants@, *cs, tv@, *c),
    decreases cs,
{
    let nullv = Value::Null;
    let mut i: usize = 0;
    while i < cs.fields.len()
        invariant
            0 <= i <= cs.fields@.len(),
            forall|j: int|
                0 <= j < i ==> {
                    &&& (#[trigger] cs.fields@[j]).0@ != tag@
                    &&& !(exists|l: int|
                        0 <= l < variants@.len() && (#[trigger] variants@[l]).0@
                            == cs.fields@[j].0@ && variants@[l].0@ != tv@)
                    &&& value_ok(cs.fields@[j].1, field_or_null(*c, cs.fields@[j].0@))
                },
        decreases cs.fields@.len() - i,
    {
        let name: &String = &cs.fields[i].0;
        if str_eq(name, tag) {
            return Err(NoMatchWithPath::new(MatchError::PropertyMatchesUnionTag(
                name.clone(),
                tv.clone(),
            )));
        }
        let mut l: usize = 0;
        while l < variants.len()
            invariant
                0 <= l <= variants@.len(),
                forall|m: int|
                    0 <= m < l ==> !((#[trigger] variants@[m]).0@ == name@ && variants@[m].0@
                        != tv@),
            decreases variants@.len() - l,
        {
            if !str_eq(&variants[l].0, tv) && str_eq(&variants[l].0, name) {
                return Err(NoMatchWithPath::new(MatchError::PropertyNameMatchesMapTag(
                    name.clone(),
                )));
            }
            l = l + 1;
        }
        proof {
            assert(decreases_to!(*cs => cs.fields@[i as int]));
        }
        let field_value: &Value = match c.get(name) {
            Some(v) => v,
            None => &nullv,
        };
        match check_value(&cs.fields[i].1, field_value) {
            Ok(_) => {},
            Err(e) => {
                return Err(e.prepend(name.clone()));
            },
        }
        i = i + 1;
    }
    let mut l: usize = 0;
    while l < c.entries.len()
        invariant
            0 <= l <= c.entries@.len(),
            forall|m: int|
                0 <= m < l ==> (#[trigger] c.entries@[m]).0@ == tag@ || has_key(
                    cs.fields@,
                    c.entries@[m].0@,
                ),
        decreases c.entries@.len() - l,
    {
        if !str_eq(&c.entries[l].0, tag) && !assoc_contains(&cs.fields, &c.entries[l].0) {
            return Err(NoMatchWithPath::new(MatchError::InvalidKey(c.entries[l].0.clone())));
        }
        l = l + 1;
    }
    Ok(())
}

/// Checks a whole configuration against a schema, deciding [`config_ok`].
#[verifier::loop_isolation(false)]
fn check_config(cs: &ConfigSpec, c: &Config) -> (r: Result<(), NoMatchWithPath>)
    ensures
        r is Ok <==> config_ok(*cs, *c),
    decreases cs,
{
    let nullv = Value::Null;
    let mut i: usize = 0;
    while i < cs.fields.len()
        invariant
            0 <= i <= cs.fields@.len(),
            forall|j: int|
                0 <= j < i ==> value_ok(
                    (#[trigger] cs.fields@[j]).1,
                    field_or_null(*c, cs.fields@[j].0@),
                ),
        decreases cs.fields@.len() - i,
    {
        proof {
            assert(decreases_to!(*cs => cs.fields@[i as int]));
        }
        let name: &String = &cs.fields[i].0;
        let field_value: &Value = match c.get(name) {
            Some(v) => v,
            None => &nullv,
        };
        match check_value(&cs.fields[i].1, field_value) {
            Ok(_) => {},
            Err(e) => {
                return Err(e.prepend(name.clone()));
            },
        }
        i = i + 1;
    }
    let mut l: usize = 0;
    while l < c.entries.len()
        invariant
            0 <= l <= c.entries@.len(),
            forall|m: int|
                0 <= m < l ==> has_key(cs.fields@, (#[trigger] c.entries@[m]).0@),
        decreases c.entries@.len() - l,
    {
        if !assoc_contains(&cs.fields, &c.entries[l].0) {
            return Err(NoMatchWithPath::new(MatchError::InvalidKey(c.entries[l].0.clone())));
        }
        l = l + 1;
    }
    Ok(())
}

/// One lower-case letter as text, for randomized string search.
fn letter_str(d: u64) -> &'static str
    requires
        d < 26,
{
    match d {
        0 => "a",
        1 => "b",
        2 => "c",
        3 => "d",
        4 => "e",
        5 => "f",
        6 => "g",
        7 => "h",
        8 => "i",
        9 => "j",
        10 => "k",
        11 => "l",
        12 => "m",
        13 => "n",
        14 => "o",
        15 => "p",
        16 => "q",
        17 => "r",
        18 => "s",
        19 => "t",
        20 => "u",
        21 => "v",
        22 => "w",
        23 => "x",
        24 => "y",
        _ => "z",
    }
}

/// One pseudo-random short lower-case string, a candidate for a
/// pattern-constrained field.
#[verifier::loop_isolation(false)]
fn random_string(rng: &mut Rng) -> String {
    let mut out = String::new();
    let n = rng.next_u64() % 8;
    let mut i: u64 = 0;
    while i <= n
        invariant
            i <= n + 1,
        decreases n + 1 - i,
    {
        out.append(letter_str(rng.next_u64() % 26));
        i = i + 1;
    }
    out
}

/// A pseudo-random number within the range, when the range is satisfiable.
fn gen_number(range: &NumRange, rng: &mut Rng) -> (r: Result<i64, TimeoutError>)
    ensures
        r is Ok ==> in_num_range(*range, r.unwrap()),
        (match (range.min, range.max) {
            (Some(lo), Some(hi)) => lo <= hi,
            _ => true,
        }) ==> r is Ok,
{
    let draw = rng.next_u64();
    match (range.min, range.max) {
        (None, None) => Ok(#[verifier::truncate] (draw as i64)),
        (Some(lo), None) => {
            let k = (draw % 1024) as i64;
            if lo > i64::MAX - k {
                Ok(lo)
            } else {
                Ok(lo + k)
            }
        },
        (None, Some(hi)) => {
            let k = (draw % 1024) as i64;
            if hi < i64::MIN + k {
                Ok(hi)
            } else {
                Ok(hi - k)
            }
        },
        (Some(lo), Some(hi)) => {
            if lo > hi {
                return Err(TimeoutError);
            }
            let span: i128 = hi as i128 - lo as i128 + 1;
            let rem: i128 = (draw as i128) % span;
            let val: i128 = lo as i128 + rem;
            Ok(val as i64)
        },
    }
}

/// Produces a structurally valid value for one schema node: an enumerated
/// pick, a ranged number, a pattern-constrained string found by randomized
/// search, a length-bounded list.  Search is bounded by `budget` attempts;
/// an exhausted budget, or a node no search can satisfy, is a timeout.
#[verifier::loop_isolation(false)]
fn gen_value(s: &ValueSpec, rng: &mut Rng, budget: &mut u64) -> (r: Result<Value, TimeoutError>)
    ensures
        r is Ok ==> value_ok(*s, r.unwrap()),
        *final(budget) <= *old(budget),
        generable(*s) ==> r is Ok,
    decreases s,
{
    let ghost b0 = *budget;
    match s {
        ValueSpec::Bool { .. } => Ok(Value::Bool(rng.next_u64() % 2 == 1)),
        ValueSpec::Number { range, .. } => match gen_number(range, rng) {
            Ok(n) => Ok(Value::Number(n)),
            Err(e) => Err(e),
        },
        ValueSpec::Str { pattern, .. } => match pattern {
            Some(p) => {
                loop
                    invariant
                        *budget <= b0,
                    decreases *budget,
                {
                    if *budget == 0 {
                        return Err(TimeoutError);
                    }
                    *budget = *budget - 1;
                    let cand = random_string(rng);
                    if pattern_matches(p.as_str(), cand.as_str()) {
                        return Ok(Value::Str(cand));
                    }
                }
            },
            None => Ok(Value::Str(String::new())),
        },
        ValueSpec::Enum { values } => {
            if values.len() == 0 {
                return Err(TimeoutError);
            }
            let idx = (rng.next_u64() % (values.len() as u64)) as usize;
            let picked = values[idx].clone();
            proof {
                assert(contains_string(values@, picked@)) by {
                    assert((values@[idx as int])@ == picked@);
                }
            }
            Ok(Value::Str(picked))
        },
        ValueSpec::List { inner, len, unique } => {
            match len.max {
                Some(m) => if m < len.min {
                    return Err(TimeoutError);
                },
                None => {},
            }
            let target: u64 = len.min;
            let mut items: Vec<Value> = Vec::new();
            while (items.len() as u64) < target
                invariant
                    *budget <= b0,
                    items@.len() <= target,
                    forall|j: int| 0 <= j < items@.len() ==> value_ok(**inner, #[trigger] items@[j]),
                    *unique ==> forall|x: int, y: int|
                        0 <= x < y < items@.len() ==> !veq(items@[x], items@[y]),
                decreases target - items@.len(), *budget,
            {
                proof {
                    assert(decreases_to!(*s => **inner));
                }
                let cand = match gen_value(&**inner, rng, budget) {
                    Ok(v) => v,
                    Err(e) => {
                        return Err(e);
                    },
                };
                if *unique {
                    let mut dup: bool = false;
                    let mut j: usize = 0;
                    while j < items.len()
                        invariant
                            0 <= j <= items@.len(),
                            dup ==> exists|l: int| 0 <= l < items@.len() && veq(#[trigger] items@[l], cand),
                            !dup ==> forall|l: int| 0 <= l < j ==> !veq(#[trigger] items@[l], cand),
                        decreases items@.len() - j,
                    {
                        if items[j].deep_eq(&cand) {
                            dup = true;
                        }
                        j = j + 1;
                    }
                    if dup {
                        if *budget == 0 {
                            return Err(TimeoutError);
                        }
                        *budget = *budget - 1;
                    } else {
                        items.push(cand);
                    }
                } else {
                    items.push(cand);
                }
            }
            Ok(Value::List(items))
        },
        ValueSpec::Obj { spec, .. } => {
            proof {
                assert(decreases_to!(*s => *spec));
            }
            match gen_config(spec, rng, budget) {
                Ok(c) => Ok(Value::Obj(c)),
                Err(e) => Err(e),
            }
        },
        ValueSpec::Union { tag, variants } => {
            if variants.len() == 0 {
                return Err(TimeoutError);
            }
            let idx = (rng.next_u64() % (variants.len() as u64)) as usize;
            let tv: &String = &variants[idx].0;
            let cs: &ConfigSpec = match assoc_get(variants, tv) {
                Some(cs) => cs,
                None => {
                    proof {
                        crate::value::lemma_has_key_of_entry(variants@, idx as int);
                    }
                    return Err(TimeoutError);
                },
            };
            proof {
                lemma_index_of_key(variants@, tv@);
                assert(decreases_to!(*s => *variants));
                assert(decreases_to!(*variants => variants@[index_of_key(variants@, tv@)]));
                assert(*cs == variants@[index_of_key(variants@, tv@)].1);
            }
            gen_union_obj(tag, variants, cs, tv, rng, budget)
        },
        ValueSpec::Pointer { .. } => Ok(Value::Null),
    }
}

/// Produces an object for the chosen union variant: the tag field set to
/// the variant's name and every declared field generated; a variant whose
/// declarations collide with the tag scheme cannot be satisfied.
#[verifier::loop_isolation(false)]
fn gen_union_obj(
    tag: &String,
    variants: &Vec<(String, ConfigSpec)>,
    cs: &ConfigSpec,
    tv: &String,
    rng: &mut Rng,
    budget: &mut u64,
) -> (r: Result<Value, TimeoutError>)
    ensures
        *final(budget) <= *old(budget),
        cfg_generable(*cs) && authoring_ok(tag@, variants@, *cs, tv@) ==> r is Ok,
        r is Ok ==> match r.unwrap() {
            Value::Obj(c) => union_variant_ok(tag@, variants@, *cs, tv@, c) && (lookup(
                c.entries@,
                tag@,
            ) matches Some(Value::Str(t)) && t@ == tv@),
            _ => false,
        },
    decreases cs,
{
    let ghost b0 = *budget;
    if !crate::value::assoc_unique(&cs.fields) {
        return Err(TimeoutError);
    }
    let mut i: usize = 0;
    while i < cs.fields.len()
        invariant
            0 <= i <= cs.fields@.len(),
            forall|j: int|
                0 <= j < i ==> {
                    &&& (#[trigger] cs.fields@[j]).0@ != tag@
                    &&& !(exists|l: int|
                        0 <= l < variants@.len() && (#[trigger] variants@[l]).0@
                            == cs.fields@[j].0@ && variants@[l].0@ != tv@)
                },
        decreases cs.fields@.len() - i,
    {
        let name: &String = &cs.fields[i].0;
        if str_eq(name, tag) {
            return Err(TimeoutError);
        }
        let mut l: usize = 0;
        while l < variants.len()
            invariant
                0 <= l <= variants@.len(),
                forall|m: int|
                    0 <= m < l ==> !((#[trigger] variants@[m]).0@ == name@ && variants@[m].0@
                        != tv@),
            decreases variants@.len() - l,
        {
            if !str_eq(&variants[l].0, tv) && str_eq(&variants[l].0, name) {
                return Err(TimeoutError);
            }
            l = l + 1;
        }
        i = i + 1;
    }
    let mut c = Config::new();
    c.insert(tag.clone(), Value::Str(tv.clone()));
    let mut f: usize = 0;
    while f < cs.fields.len()
        invariant
            *budget <= b0,
            0 <= f <= cs.fields@.len(),
            unique_keys(c.entries@),
            lookup(c.entries@, tag@) matches Some(v) && (v matches Value::Str(t) && t@ == tv@),
            forall|j: int|
                0 <= j < f ==> value_ok(
                    (#[trigger] cs.fields@[j]).1,
                    field_or_null(c, cs.fields@[j].0@),
                ),
            forall|k: Seq<char>|
                #[trigger] lookup(c.entries@, k) is Some ==> k == tag@ || has_key(cs.fields@, k),
        decreases cs.fields@.len() - f,
    {
        proof {
            assert(decreases_to!(*cs => cs.fields@[f as int]));
        }
        let v = match gen_value(&cs.fields[f].1, rng, budget) {
            Ok(v) => v,
            Err(e) => {
                return Err(e);
            },
        };
        proof {
            crate::value::lemma_has_key_of_entry(cs.fields@, f as int);
        }
        c.insert(cs.fields[f].0.clone(), v);
        f = f + 1;
    }
    proof {
        assert forall|l: int| 0 <= l < c.entries@.len() implies (#[trigger] c.entries@[l]).0@
            == tag@ || has_key(cs.fields@, c.entries@[l].0@) by {
            crate::value::lemma_has_key_of_entry(c.entries@, l);
        }
    }
    Ok(Value::Obj(c))
}

/// Produces a structurally valid configuration for a whole schema: every
/// declared field generated in declaration order.
#[verifier::loop_isolation(false)]
fn gen_config(cs: &ConfigSpec, rng: &mut Rng, budget: &mut u64) -> (r: Result<Config, TimeoutError>)
    ensures
        r is Ok ==> config_ok(*cs, r.unwrap()),
        *final(budget) <= *old(budget),
        cfg_generable(*cs) ==> r is Ok,
    decreases cs,
{
    let ghost b0 = *budget;
    if !crate::value::assoc_unique(&cs.fields) {
        return Err(TimeoutError);
    }
    let mut c = Config::new();
    let mut f: usize = 0;
    while f < cs.fields.len()
        invariant
            *budget <= b0,
            0 <= f <= cs.fields@.len(),
            unique_keys(c.entries@),
            forall|j: int|
                0 <= j < f ==> value_ok(
                    (#[trigger] cs.fields@[j]).1,
                    field_or_null(c, cs.fields@[j].0@),
                ),
            forall|k: Seq<char>|
                #[trigger] lookup(c.entries@, k) is Some ==> has_key(cs.fields@, k),
        decreases cs.fields@.len() - f,
    {
        proof {
            assert(decreases_to!(*cs => cs.fields@[f as int]));
        }
        let v = match gen_value(&cs.fields[f].1, rng, budget) {
            Ok(v) => v,
            Err(e) => {
                return Err(e);
            },
        };
        proof {
            crate::value::lemma_has_key_of_entry(cs.fields@, f as int);
        }
        c.insert(cs.fields[f].0.clone(), v);
        f = f + 1;
    }
    proof {
        assert forall|l: int| 0 <= l < c.entries@.len() implies has_key(
            cs.fields@,
            (#[trigger] c.entries@[l]).0@,
        ) by {
            crate::value::lemma_has_key_of_entry(c.entries@, l);
        }
    }
    Ok(c)
}

/// What a pointer dereferences to under the current pass: values already
/// computed this pass (`overrides`) are preferred over committed state; a
/// configuration projection of an uninstalled, un-overridden package cannot
/// be dereferenced.
pub open spec fn spec_deref(
    ptr: ValueSpecPointer,
    overrides: Seq<(String, Config)>,
    store: crate::store::PackageStore,
    system: Config,
) -> Option<Value> {
    match ptr {
        ValueSpecPointer::Package(p) => match p.target {
            crate::pointer::PackagePointerSpecVariant::Config { selector, multi } => match lookup(
                overrides,
                p.package_id@,
            ) {
                Some(oc) => Some(crate::pointer::spec_select(selector@, 0, Value::Obj(oc))),
                None => match lookup(store.packages@, p.package_id@) {
                    None => None,
                    Some(e) => match e.manifest.config {
                        Some(ca) => match ca.current {
                            Some(c) => Some(
                                crate::pointer::spec_select(selector@, 0, Value::Obj(c)),
                            ),
                            None => Some(Value::Null),
                        },
                        None => Some(Value::Null),
                    },
                },
            },
            crate::pointer::PackagePointerSpecVariant::TorAddress => match lookup(
                store.packages@,
                p.package_id@,
            ) {
                None => None,
                Some(e) => Some(
                    match e.tor_address {
                        Some(s) => Value::Str(s),
                        None => Value::Null,
                    },
                ),
            },
            crate::pointer::PackagePointerSpecVariant::LanAddress => match lookup(
                store.packages@,
                p.package_id@,
            ) {
                None => None,
                Some(e) => Some(
                    match e.lan_address {
                        Some(s) => Value::Str(s),
                        None => Value::Null,
                    },
                ),
            },
        },
        ValueSpecPointer::System(sp) => Some(field_or_null(system, sp.key@)),
    }
}

/// How a resolved value relates to the stored one: pointer fields carry
/// their dereferenced value, containers are resolved field by field in
/// place, and everything else is unchanged up to deep equality.
pub open spec fn resolved_value(
    s: ValueSpec,
    ov: Value,
    nv: Value,
    overrides: Seq<(String, Config)>,
    store: crate::store::PackageStore,
    system: Config,
) -> bool
    decreases s,
{
    match s {
        ValueSpec::Pointer { ptr } => match spec_deref(ptr, overrides, store, system) {
            Some(d) => veq(nv, d),
            None => false,
        },
        ValueSpec::List { inner, .. } => match (ov, nv) {
            (Value::List(a), Value::List(b)) => {
                &&& a@.len() == b@.len()
                &&& forall|i: int|
                    0 <= i < a@.len() ==> resolved_value(
                        *inner,
                        #[trigger] a@[i],
                        b@[i],
                        overrides,
                        store,
                        system,
                    )
            },
            _ => veq(nv, ov),
        },
        ValueSpec::Obj { spec, .. } => match (ov, nv) {
            (Value::Obj(a), Value::Obj(b)) => resolved_entries(
                spec,
                a,
                b,
                overrides,
                store,
                system,
            ),
            _ => veq(nv, ov),
        },
        ValueSpec::Union { tag, variants } => match (ov, nv) {
            (Value::Obj(a), Value::Obj(b)) => {
                &&& a.entries@.len() == b.entries@.len()
                &&& forall|i: int|
                    0 <= i < a.entries@.len() ==> {
                        &&& (#[trigger] b.entries@[i]).0@ == a.entries@[i].0@
                        &&& (if a.entries@[i].0@ != tag@ && (match lookup(a.entries@, tag@) {
                            Some(Value::Str(tv)) => has_key(variants@, tv@) && 0 <= index_of_key(
                                variants@,
                                tv@,
                            ) < variants@.len() && has_key(
                                variants@[index_of_key(variants@, tv@)].1.fields@,
                                a.entries@[i].0@,
                            ) && 0 <= index_of_key(
                                variants@[index_of_key(variants@, tv@)].1.fields@,
                                a.entries@[i].0@,
                            ) < variants@[index_of_key(variants@, tv@)].1.fields@.len(),
                            _ => false,
                        }) {
                            resolved_value(
                                (match lookup(a.entries@, tag@) {
                                    Some(Value::Str(tv)) => variants@[index_of_key(
                                        variants@,
                                        tv@,
                                    )].1.fields@[index_of_key(
                                        variants@[index_of_key(variants@, tv@)].1.fields@,
                                        a.entries@[i].0@,
                                    )].1,
                                    _ => arbitrary(),
                                }),
                                a.entries@[i].1,
                                b.entries@[i].1,
                                overrides,
                                store,
                                system,
                            )
                        } else {
                            veq(b.entries@[i].1, a.entries@[i].1)
                        })
                    }
            },
            _ => veq(nv, ov),
        },
        _ => veq(nv, ov),
    }
}

/// How a resolved object's entries relate to the stored ones: keys and
/// order are kept; a field the schema declares is resolved under its node,
/// an undeclared field is unchanged.
pub open spec fn resolved_entries(
    cs: ConfigSpec,
    a: Config,
    b: Config,
    overrides: Seq<(String, Config)>,
    store: crate::store::PackageStore,
    system: Config,
) -> bool
    decreases cs,
{
    &&& a.entries@.len() == b.entries@.len()
    &&& forall|i: int|
        0 <= i < a.entries@.len() ==> {
            &&& (#[trigger] b.entries@[i]).0@ == a.entries@[i].0@
            &&& (if has_key(cs.fields@, a.entries@[i].0@) && 0 <= index_of_key(
                cs.fields@,
                a.entries@[i].0@,
            ) < cs.fields@.len() {
                resolved_value(
                    cs.fields@[index_of_key(cs.fields@, a.entries@[i].0@)].1,
                    a.entries@[i].1,
                    b.entries@[i].1,
                    overrides,
                    store,
                    system,
                )
            } else {
                veq(b.entries@[i].1, a.entries@[i].1)
            })
        }
}

/// Dereferences one pointer against the pass's overrides, the committed
/// store and the host values, deciding [`spec_deref`] up to deep equality.
pub fn deref_pointer(
    ptr: &ValueSpecPointer,
    overrides: &Vec<(String, Config)>,
    store: &crate::store::PackageStore,
    system: &Config,
) -> (r: Option<Value>)
    ensures
        match spec_deref(*ptr, overrides@, *store, *system) {
            Some(d) => r matches Some(x) && veq(x, d),
            None => r is None,
        },
{
    match ptr {
        ValueSpecPointer::Package(p) => match &p.target {
            crate::pointer::PackagePointerSpecVariant::Config { selector, multi } => {
                match assoc_get(overrides, &p.package_id) {
                    Some(oc) => Some(crate::pointer::select_in_config(selector, oc)),
                    None => match store.get(&p.package_id) {
                        None => None,
                        Some(e) => match &e.manifest.config {
                            Some(ca) => match &ca.current {
                                Some(c) => Some(crate::pointer::select_in_config(selector, c)),
                                None => Some(Value::Null),
                            },
                            None => Some(Value::Null),
                        },
                    },
                }
            },
            crate::pointer::PackagePointerSpecVariant::TorAddress => match store.get(
                &p.package_id,
            ) {
                None => None,
                Some(e) => match &e.tor_address {
                    Some(s) => Some(Value::Str(s.clone())),
                    None => Some(Value::Null),
                },
            },
            crate::pointer::PackagePointerSpecVariant::LanAddress => match store.get(
                &p.package_id,
            ) {
                None => None,
                Some(e) => match &e.lan_address {
                    Some(s) => Some(Value::Str(s.clone())),
                    None => Some(Value::Null),
                },
            },
        },
        ValueSpecPointer::System(sp) => match system.get(&sp.key) {
            Some(v) => Some(v.deep_clone()),
            None => Some(Value::Null),
        },
    }
}

/// The pointer descriptors present in a value under its schema node, in
/// schema-walk order.
pub open spec fn value_pointers(s: ValueSpec, v: Value) -> Seq<ValueSpecPointer>
    decreases s, 0nat,
{
    match s {
        ValueSpec::Pointer { ptr } => seq![ptr],
        ValueSpec::List { inner, .. } => match v {
            Value::List(items) => list_pointers(*inner, items@, items@.len() as int),
            _ => Seq::<ValueSpecPointer>::empty(),
        },
        ValueSpec::Obj { spec, .. } => match v {
            Value::Obj(c) => config_pointers(spec, c, spec.fields@.len() as int),
            _ => Seq::<ValueSpecPointer>::empty(),
        },
        ValueSpec::Union { tag, variants } => match v {
            Value::Obj(c) => match lookup(c.entries@, tag@) {
                Some(Value::Str(tv)) => if has_key(variants@, tv@) && 0 <= index_of_key(
                    variants@,
                    tv@,
                ) < variants@.len() {
                    config_pointers(
                        variants@[index_of_key(variants@, tv@)].1,
                        c,
                        variants@[index_of_key(variants@, tv@)].1.fields@.len() as int,
                    )
                } else {
                    Seq::<ValueSpecPointer>::empty()
                },
                _ => Seq::<ValueSpecPointer>::empty(),
            },
            _ => Seq::<ValueSpecPointer>::empty(),
        },
        _ => Seq::<ValueSpecPointer>::empty(),
    }
}

/// The pointers of the first `n` items of a list.
pub open spec fn list_pointers(inner: ValueSpec, items: Seq<Value>, n: int) -> Seq<ValueSpecPointer>
    decreases inner, n + 1,
    when n <= items.len()
{
    if n <= 0 {
        Seq::<ValueSpecPointer>::empty()
    } else {
        list_pointers(inner, items, n - 1) + value_pointers(inner, items[n - 1])
    }
}

/// The pointers of the first `n` declared fields of an object.
pub open spec fn config_pointers(cs: ConfigSpec, c: Config, n: int) -> Seq<ValueSpecPointer>
    decreases cs, n + 1,
    when n <= cs.fields@.len()
{
    if n <= 0 {
        Seq::<ValueSpecPointer>::empty()
    } else {
        config_pointers(cs, c, n - 1) + value_pointers(
            cs.fields@[n - 1].1,
            field_or_null(c, cs.fields@[n - 1].0@),
        )
    }
}

/// Elementwise correspondence of collected descriptors with a
/// specification sequence.
pub open spec fn pointers_match(out: Seq<ValueSpecPointer>, spec_seq: Seq<ValueSpecPointer>) -> bool {
    &&& out.len() == spec_seq.len()
    &&& forall|i: int|
        0 <= i < out.len() ==> crate::pointer::pointer_eq(#[trigger] out[i], spec_seq[i])
}

/// Collects the pointer descriptors of one value under its schema node,
/// appending to `out`.
#[verifier::loop_isolation(false)]
fn collect_value_pointers(s: &ValueSpec, v: &Value, out: &mut Vec<ValueSpecPointer>)
    ensures
        final(out)@.len() >= old(out)@.len(),
        forall|i: int| 0 <= i < old(out)@.len() ==> #[trigger] final(out)@[i] == old(out)@[i],
        pointers_match(
            final(out)@.skip(old(out)@.len() as int),
            value_pointers(*s, *v),
        ),
    decreases s,
{
    let ghost base = out@;
    match s {
        ValueSpec::Pointer { ptr } => {
            out.push(ptr.deep_clone());
            proof {
                assert(out@.skip(base.len() as int) =~= seq![out@[base.len() as int]]);
            }
        },
        ValueSpec::List { inner, .. } => match v {
            Value::List(items) => {
                let mut i: usize = 0;
                while i < items.len()
                    invariant
                        0 <= i <= items@.len(),
                        out@.len() >= base.len(),
                        forall|j: int| 0 <= j < base.len() ==> #[trigger] out@[j] == base[j],
                        pointers_match(
                            out@.skip(base.len() as int),
                            list_pointers(**inner, items@, i as int),
                        ),
                    decreases items@.len() - i,
                {
                    proof {
                        assert(decreases_to!(*s => **inner));
                    }
                    let ghost mid = out@;
                    collect_value_pointers(&**inner, &items[i], out);
                    proof {
                        assert(out@.skip(base.len() as int) =~= mid.skip(base.len() as int)
                            + out@.skip(mid.len() as int));
                    }
                    i = i + 1;
                }
                proof {
                    assert(out@.skip(base.len() as int) =~= out@.skip(base.len() as int));
                }
            },
            _ => {
                proof {
                    assert(out@.skip(base.len() as int) =~= Seq::<ValueSpecPointer>::empty());
                }
            },
        },
        ValueSpec::Obj { spec, .. } => match v {
            Value::Obj(c) => {
                proof {
                    assert(decreases_to!(*s => *spec));
                }
                collect_config_pointers(spec, c, out);
            },
            _ => {
                proof {
                    assert(out@.skip(base.len() as int) =~= Seq::<ValueSpecPointer>::empty());
                }
            },
        },
        ValueSpec::Union { tag, variants } => match v {
            Value::Obj(c) => {
                let chosen: Option<&ConfigSpec> = match c.get(tag) {
                    Some(Value::Str(tv)) => assoc_get(variants, tv),
                    _ => None,
                };
                match chosen {
                    Some(cs) => {
                        proof {
                            let tvv = (match lookup(c.entries@, tag@) {
                                Some(Value::Str(tv)) => tv@,
                                _ => arbitrary(),
                            });
                            lemma_index_of_key(variants@, tvv);
                            assert(decreases_to!(*s => *variants));
                            assert(decreases_to!(*variants => variants@[index_of_key(
                                variants@, tvv)]));
                            assert(*cs == variants@[index_of_key(variants@, tvv)].1);
                        }
                        collect_config_pointers(cs, c, out);
                    },
                    None => {
                        proof {
                            assert(out@.skip(base.len() as int) =~= Seq::<
                                ValueSpecPointer,
                            >::empty());
                        }
                    },
                }
            },
            _ => {
                proof {
                    assert(out@.skip(base.len() as int) =~= Seq::<ValueSpecPointer>::empty());
                }
            },
        },
        _ => {
            proof {
                assert(out@.skip(base.len() as int) =~= Seq::<ValueSpecPointer>::empty());
            }
        },
    }
}

/// Collects the pointer descriptors of every declared field of an object,
/// appending to `out`.
#[verifier::loop_isolation(false)]
fn collect_config_pointers(cs: &ConfigSpec, c: &Config, out: &mut Vec<ValueSpecPointer>)
    ensures
        final(out)@.len() >= old(out)@.len(),
        forall|i: int| 0 <= i < old(out)@.len() ==> #[trigger] final(out)@[i] == old(out)@[i],
        pointers_match(
            final(out)@.skip(old(out)@.len() as int),
            config_pointers(*cs, *c, cs.fields@.len() as int),
        ),
    decreases cs,
{
    let ghost base = out@;
    let nullv = Value::Null;
    let mut i: usize = 0;
    while i < cs.fields.len()
        invariant
            0 <= i <= cs.fields@.len(),
            out@.len() >= base.len(),
            forall|j: int| 0 <= j < base.len() ==> #[trigger] out@[j] == base[j],
            pointers_match(out@.skip(base.len() as int), config_pointers(*cs, *c, i as int)),
        decreases cs.fields@.len() - i,
    {
        proof {
            assert(decreases_to!(*cs => cs.fields@[i as int]));
        }
        let fv: &Value = match c.get(&cs.fields[i].0) {
            Some(v) => v,
            None => &nullv,
        };
        let ghost mid = out@;
        collect_value_pointers(&cs.fields[i].1, fv, out);
        proof {
            assert(out@.skip(base.len() as int) =~= mid.skip(base.len() as int) + out@.skip(
                mid.len() as int,
            ));
        }
        i = i + 1;
    }
}

/// View-based equality of schema nodes: same shape, constraints equal by
/// their character sequences.
pub open spec fn vs_eq(a: ValueSpec, b: ValueSpec) -> bool
    decreases a,
{
    match a {
        ValueSpec::Bool { nullable: n1 } => b matches ValueSpec::Bool { nullable: n2 } && n1 == n2,
        ValueSpec::Number { range: r1, nullable: n1 } => b matches ValueSpec::Number {
            range: r2,
            nullable: n2,
        } && r1 == r2 && n1 == n2,
        ValueSpec::Str { pattern: p1, nullable: n1 } => b matches ValueSpec::Str {
            pattern: p2,
            nullable: n2,
        } && n1 == n2 && (match (p1, p2) {
            (Some(x), Some(y)) => x@ == y@,
            (None, None) => true,
            _ => false,
        }),
        ValueSpec::Enum { values: v1 } => b matches ValueSpec::Enum { values: v2 } && v1@.len()
            == v2@.len() && forall|i: int| 0 <= i < v1@.len() ==> (#[trigger] v1@[i])@ == v2@[i]@,
        ValueSpec::List { inner: i1, len: l1, unique: u1 } => b matches ValueSpec::List {
            inner: i2,
            len: l2,
            unique: u2,
        } && vs_eq(*i1, *i2) && l1 == l2 && u1 == u2,
        ValueSpec::Obj { spec: s1, nullable: n1 } => b matches ValueSpec::Obj {
            spec: s2,
            nullable: n2,
        } && cs_eq(s1, s2) && n1 == n2,
        ValueSpec::Union { tag: t1, variants: v1 } => b matches ValueSpec::Union {
            tag: t2,
            variants: v2,
        } && t1@ == t2@ && v1@.len() == v2@.len() && forall|i: int|
            0 <= i < v1@.len() ==> (#[trigger] v1@[i]).0@ == v2@[i].0@ && cs_eq(
                v1@[i].1,
                v2@[i].1,
            ),
        ValueSpec::Pointer { ptr: p1 } => b matches ValueSpec::Pointer { ptr: p2 }
            && crate::pointer::pointer_eq(p1, p2),
    }
}

/// View-based equality of whole schemas.
pub open spec fn cs_eq(a: ConfigSpec, b: ConfigSpec) -> bool
    decreases a,
{
    &&& a.fields@.len() == b.fields@.len()
    &&& forall|i: int|
        0 <= i < a.fields@.len() ==> (#[trigger] a.fields@[i]).0@ == b.fields@[i].0@ && vs_eq(
            a.fields@[i].1,
            b.fields@[i].1,
        )
}

impl ValueSpec {
    /// A structural copy of the schema node.
    #[verifier::loop_isolation(false)]
    pub fn deep_clone(&self) -> (r: ValueSpec)
        ensures
            vs_eq(r, *self),
        decreases self,
    {
        match self {
            ValueSpec::Bool { nullable } => ValueSpec::Bool { nullable: *nullable },
            ValueSpec::Number { range, nullable } => ValueSpec::Number {
                range: NumRange { min: range.min, max: range.max },
                nullable: *nullable,
            },
            ValueSpec::Str { pattern, nullable } => ValueSpec::Str {
                pattern: match pattern {
                    Some(p) => Some(p.clone()),
                    None => None,
                },
                nullable: *nullable,
            },
            ValueSpec::Enum { values } => ValueSpec::Enum { values: clone_strings(values) },
            ValueSpec::List { inner, len, unique } => {
                proof {
                    assert(decreases_to!(*self => **inner));
                }
                ValueSpec::List {
                    inner: Box::new((&**inner).deep_clone()),
                    len: LenRange { min: len.min, max: len.max },
                    unique: *unique,
                }
            },
            ValueSpec::Obj { spec, nullable } => {
                proof {
                    assert(decreases_to!(*self => *spec));
                }
                ValueSpec::Obj { spec: spec.deep_clone(), nullable: *nullable }
            },
            ValueSpec::Union { tag, variants } => {
                let mut out: Vec<(String, ConfigSpec)> = Vec::new();
                let mut i: usize = 0;
                while i < variants.len()
                    invariant
                        0 <= i <= variants@.len(),
                        out@.len() == i,
                        forall|j: int|
                            0 <= j < i ==> (#[trigger] out@[j]).0@ == variants@[j].0@ && cs_eq(
                                out@[j].1,
                                variants@[j].1,
                            ),
                    decreases variants@.len() - i,
                {
                    proof {
                        assert(decreases_to!(*self => *variants));
                        assert(decreases_to!(*variants => variants@[i as int]));
                    }
                    out.push((variants[i].0.clone(), variants[i].1.deep_clone()));
                    i = i + 1;
                }
                ValueSpec::Union { tag: tag.clone(), variants: out }
            },
            ValueSpec::Pointer { ptr } => ValueSpec::Pointer { ptr: ptr.deep_clone() },
        }
    }
}

impl ConfigSpec {
    /// A structural copy of the schema.
    #[verifier::loop_isolation(false)]
    pub fn deep_clone(&self) -> (r: ConfigSpec)
        ensures
            cs_eq(r, *self),
        decreases self,
    {
        let mut out: Vec<(String, ValueSpec)> = Vec::new();
        let mut i: usize = 0;
        while i < self.fields.len()
            invariant
                0 <= i <= self.fields@.len(),
                out@.len() == i,
                forall|j: int|
                    0 <= j < i ==> (#[trigger] out@[j]).0@ == self.fields@[j].0@ && vs_eq(
                        out@[j].1,
                        self.fields@[j].1,
                    ),
            decreases self.fields@.len() - i,
        {
            proof {
                assert(decreases_to!(*self => self.fields@[i as int]));
            }
            out.push((self.fields[i].0.clone(), self.fields[i].1.deep_clone()));
            i = i + 1;
        }
        ConfigSpec { fields: out }
    }
}

/// Whether a schema node declares no pointer field anywhere below it:
/// resolution of a value under such a node cannot fail.
pub open spec fn pointer_free(s: ValueSpec) -> bool
    decreases s,
{
    match s {
        ValueSpec::Pointer { .. } => false,
        ValueSpec::List { inner, .. } => pointer_free(*inner),
        ValueSpec::Obj { spec, .. } => cfg_pointer_free(spec),
        ValueSpec::Union { variants, .. } => forall|j: int|
            0 <= j < variants@.len() ==> cfg_pointer_free((#[trigger] variants@[j]).1),
        _ => true,
    }
}

/// Whether a whole schema declares no pointer field.
pub open spec fn cfg_pointer_free(cs: ConfigSpec) -> bool
    decreases cs,
{
    forall|i: int| 0 <= i < cs.fields@.len() ==> pointer_free((#[trigger] cs.fields@[i]).1)
}

/// Whether a variant's declared field names avoid the union's tag scheme:
/// no field named like the tag, none named like another variant.
pub open spec fn authoring_ok(
    tag: Seq<char>,
    variants: Seq<(String, ConfigSpec)>,
    cs: ConfigSpec,
    tv: Seq<char>,
) -> bool {
    forall|i: int|
        0 <= i < cs.fields@.len() ==> {
            &&& (#[trigger] cs.fields@[i]).0@ != tag
            &&& !(exists|l: int|
                0 <= l < variants.len() && (#[trigger] variants[l]).0@ == cs.fields@[i].0@
                    && variants[l].0@ != tv)
        }
}

/// Whether generation is owed to succeed for a schema node without any
/// search: no pattern constraint, no empty enumeration or union, feasible
/// number and length ranges, no forced uniqueness, and union variants free
/// of authoring collisions.
pub open spec fn generable(s: ValueSpec) -> bool
    decreases s,
{
    match s {
        ValueSpec::Bool { .. } => true,
        ValueSpec::Number { range, .. } => match (range.min, range.max) {
            (Some(lo), Some(hi)) => lo <= hi,
            _ => true,
        },
        ValueSpec::Str { pattern, .. } => pattern is None,
        ValueSpec::Enum { values } => values@.len() > 0,
        ValueSpec::List { inner, len, unique } => {
            &&& generable(*inner)
            &&& (match len.max {
                Some(m) => len.min <= m,
                None => true,
            })
            &&& (!unique || len.min == 0)
        },
        ValueSpec::Obj { spec, .. } => cfg_generable(spec),
        ValueSpec::Union { tag, variants } => {
            &&& variants@.len() > 0
            &&& forall|j: int|
                0 <= j < variants@.len() ==> cfg_generable((#[trigger] variants@[j]).1)
            &&& forall|j: int|
                0 <= j < variants@.len() ==> authoring_ok(
                    tag@,
                    variants@,
                    (#[trigger] variants@[j]).1,
                    variants@[j].0@,
                )
        },
        ValueSpec::Pointer { .. } => true,
    }
}

/// Whether generation is owed to succeed for a whole schema.
pub open spec fn cfg_generable(cs: ConfigSpec) -> bool
    decreases cs,
{
    &&& unique_keys(cs.fields@)
    &&& forall|i: int| 0 <= i < cs.fields@.len() ==> generable((#[trigger] cs.fields@[i]).1)
}

/// Resolves one value under its schema node: pointer fields are replaced by
/// their dereferenced value, containers are resolved in place, everything
/// else is copied unchanged.
#[verifier::loop_isolation(false)]
fn resolve_value(
    s: &ValueSpec,
    v: &Value,
    overrides: &Vec<(String, Config)>,
    store: &crate::store::PackageStore,
    system: &Config,
) -> (r: Result<Value, NoMatchWithPath>)
    ensures
        r matches Ok(nv) ==> resolved_value(*s, *v, nv, overrides@, *store, *system),
        pointer_free(*s) ==> r is Ok,
    decreases s,
{
    match s {
        ValueSpec::Pointer { ptr } => match deref_pointer(ptr, overrides, store, system) {
            Some(d) => Ok(d),
            None => Err(NoMatchWithPath::new(MatchError::InvalidPointer(ptr.deep_clone()))),
        },
        ValueSpec::List { inner, .. } => match v {
            Value::List(items) => {
                let mut out: Vec<Value> = Vec::new();
                let mut i: usize = 0;
                while i < items.len()
                    invariant
                        0 <= i <= items@.len(),
                        out@.len() == i,
                        forall|j: int|
                            0 <= j < i ==> resolved_value(
                                **inner,
                                #[trigger] items@[j],
                                out@[j],
                                overrides@,
                                *store,
                                *system,
                            ),
                    decreases items@.len() - i,
                {
                    proof {
                        assert(decreases_to!(*s => **inner));
                    }
                    match resolve_value(&**inner, &items[i], overrides, store, system) {
                        Ok(nv) => {
                            out.push(nv);
                        },
                        Err(e) => {
                            return Err(e.prepend(u64_to_string(i as u64)));
                        },
                    }
                    i = i + 1;
                }
                Ok(Value::List(out))
            },
            _ => Ok(v.deep_clone()),
        },
        ValueSpec::Obj { spec, .. } => match v {
            Value::Obj(c) => {
                proof {
                    assert(decreases_to!(*s => *spec));
                }
                match resolve_entries_exec(spec, c, overrides, store, system) {
                    Ok(nc) => Ok(Value::Obj(nc)),
                    Err(e) => Err(e),
                }
            },
            _ => Ok(v.deep_clone()),
        },
        ValueSpec::Union { tag, variants } => match v {
            Value::Obj(c) => {
                let chosen: Option<&ConfigSpec> = match c.get(tag) {
                    Some(Value::Str(tv)) => assoc_get(variants, tv),
                    _ => None,
                };
                let mut out: Vec<(String, Value)> = Vec::new();
                let mut i: usize = 0;
                while i < c.entries.len()
                    invariant
                        0 <= i <= c.entries@.len(),
                        out@.len() == i,
                        forall|j: int|
                            0 <= j < i ==> {
                                &&& (#[trigger] out@[j]).0@ == c.entries@[j].0@
                                &&& (if c.entries@[j].0@ != tag@ && (match lookup(
                                    c.entries@,
                                    tag@,
                                ) {
                                    Some(Value::Str(tv)) => has_key(variants@, tv@) && 0
                                        <= index_of_key(variants@, tv@) < variants@.len()
                                        && has_key(
                                        variants@[index_of_key(variants@, tv@)].1.fields@,
                                        c.entries@[j].0@,
                                    ) && 0 <= index_of_key(
                                        variants@[index_of_key(variants@, tv@)].1.fields@,
                                        c.entries@[j].0@,
                                    ) < variants@[index_of_key(variants@, tv@)].1.fields@.len(),
                                    _ => false,
                                }) {
                                    resolved_value(
                                        (match lookup(c.entries@, tag@) {
                                            Some(Value::Str(tv)) => variants@[index_of_key(
                                                variants@,
                                                tv@,
                                            )].1.fields@[index_of_key(
                                                variants@[index_of_key(variants@, tv@)].1.fields@,
                                                c.entries@[j].0@,
                                            )].1,
                                            _ => arbitrary(),
                                        }),
                                        c.entries@[j].1,
                                        out@[j].1,
                                        overrides@,
                                        *store,
                                        *system,
                                    )
                                } else {
                                    veq(out@[j].1, c.entries@[j].1)
                                })
                            },
                    decreases c.entries@.len() - i,
                {
                    let k = c.entries[i].0.clone();
                    let ghost kk = c.entries@[i as int].0@;
                    let mut handled = false;
                    if !str_eq(&c.entries[i].0, tag) {
                        match chosen {
                            Some(cs) => {
                                proof {
                                    lemma_index_of_key(variants@, (match lookup(c.entries@, tag@) {
                                        Some(Value::Str(tv)) => tv@,
                                        _ => arbitrary(),
                                    }));
                                }
                                match assoc_get(&cs.fields, &c.entries[i].0) {
                                    Some(fs) => {
                                        proof {
                                            lemma_index_of_key(cs.fields@, kk);
                                            let tvv = (match lookup(c.entries@, tag@) {
                                                Some(Value::Str(tv)) => tv@,
                                                _ => arbitrary(),
                                            });
                                            assert(decreases_to!(*s => *variants));
                                            assert(decreases_to!(*variants => variants@[
                                                index_of_key(variants@, tvv)]));
                                            assert(*cs == variants@[index_of_key(variants@, tvv)].1);
                                            assert(decreases_to!(*cs => cs.fields@[index_of_key(
                                                cs.fields@, kk)]));
                                            assert(*fs == cs.fields@[index_of_key(cs.fields@, kk)].1);
                                            if pointer_free(*s) {
                                                assert(cfg_pointer_free(*cs));
                                                assert(pointer_free(*fs));
                                            }
                                        }
                                        match resolve_value(fs, &c.entries[i].1, overrides, store, system) {
                                            Ok(nv) => {
                                                out.push((k, nv));
                                                handled = true;
                                            },
                                            Err(e) => {
                                                return Err(e.prepend(c.entries[i].0.clone()));
                                            },
                                        }
                                    },
                                    None => {},
                                }
                            },
                            None => {},
                        }
                    }
                    if !handled {
                        out.push((c.entries[i].0.clone(), c.entries[i].1.deep_clone()));
                    }
                    i = i + 1;
                }
                Ok(Value::Obj(Config { entries: out }))
            },
            _ => Ok(v.deep_clone()),
        },
        _ => Ok(v.deep_clone()),
    }
}

/// Resolves every entry of an object in place under its schema.
#[verifier::loop_isolation(false)]
fn resolve_entries_exec(
    cs: &ConfigSpec,
    c: &Config,
    overrides: &Vec<(String, Config)>,
    store: &crate::store::PackageStore,
    system: &Config,
) -> (r: Result<Config, NoMatchWithPath>)
    ensures
        r matches Ok(nc) ==> resolved_entries(*cs, *c, nc, overrides@, *store, *system),
        cfg_pointer_free(*cs) ==> r is Ok,
    decreases cs,
{
    let mut out: Vec<(String, Value)> = Vec::new();
    let mut i: usize = 0;
    while i < c.entries.len()
        invariant
            0 <= i <= c.entries@.len(),
            out@.len() == i,
            forall|j: int|
                0 <= j < i ==> {
                    &&& (#[trigger] out@[j]).0@ == c.entries@[j].0@
                    &&& (if has_key(cs.fields@, c.entries@[j].0@) && 0 <= index_of_key(
                        cs.fields@,
                        c.entries@[j].0@,
                    ) < cs.fields@.len() {
                        resolved_value(
                            cs.fields@[index_of_key(cs.fields@, c.entries@[j].0@)].1,
                            c.entries@[j].1,
                            out@[j].1,
                            overrides@,
                            *store,
                            *system,
                        )
                    } else {
                        veq(out@[j].1, c.entries@[j].1)
                    })
                },
        decreases c.entries@.len() - i,
    {
        let k = c.entries[i].0.clone();
        let ghost kk = c.entries@[i as int].0@;
        match assoc_get(&cs.fields, &c.entries[i].0) {
            Some(fs) => {
                proof {
                    lemma_index_of_key(cs.fields@, kk);
                    assert(decreases_to!(*cs => cs.fields@[index_of_key(cs.fields@, kk)]));
                    assert(*fs == cs.fields@[index_of_key(cs.fields@, kk)].1);
                }
                match resolve_value(fs, &c.entries[i].1, overrides, store, system) {
                    Ok(nv) => {
                        out.push((k, nv));
                    },
                    Err(e) => {
                        return Err(e.prepend(c.entries[i].0.clone()));
                    },
                }
            },
            None => {
                out.push((k, c.entries[i].1.deep_clone()));
            },
        }
        i = i + 1;
    }
    Ok(Config { entries: out })
}

impl ConfigSpec {
    /// The recursive structural type and constraint check: succeeds exactly
    /// when the configuration is legal for this schema.
    pub fn matches(&self, cfg: &Config) -> (r: Result<(), NoMatchWithPath>)
        ensures
            r is Ok <==> config_ok(*self, *cfg),
    {
        check_config(self, cfg)
    }

    /// Generates a structurally valid default configuration; randomized
    /// search is bounded by `budget` attempts.  Whatever it returns
    /// validates against this schema.
    pub fn gen(&self, rng: &mut Rng, budget: u64) -> (r: Result<Config, TimeoutError>)
        ensures
            r is Ok ==> config_ok(*self, r.unwrap()),
            cfg_generable(*self) ==> r is Ok,
    {
        let mut b = budget;
        gen_config(self, rng, &mut b)
    }

    /// Walks schema and configuration in lock step and collects every
    /// pointer field's resolved descriptor, in schema-walk order.
    pub fn pointers(&self, cfg: &Config) -> (r: Vec<ValueSpecPointer>)
        ensures
            pointers_match(r@, config_pointers(*self, *cfg, self.fields@.len() as int)),
    {
        let mut out: Vec<ValueSpecPointer> = Vec::new();
        collect_config_pointers(self, cfg, &mut out);
        proof {
            assert(out@.skip(0) =~= out@);
        }
        out
    }

    /// Replaces every pointer field's stored value with its current target
    /// value, preferring values already computed earlier in the same pass
    /// over committed state.  A pointer whose target package is neither
    /// overridden nor installed cannot be dereferenced and fails the whole
    /// resolution, leaving the configuration untouched.
    pub fn update(
        &self,
        store: &crate::store::PackageStore,
        system: &Config,
        overrides: &Vec<(String, Config)>,
        cfg: &mut Config,
    ) -> (r: Result<(), NoMatchWithPath>)
        ensures
            r is Ok ==> resolved_entries(*self, *old(cfg), *final(cfg), overrides@, *store, *system),
            r is Ok && unique_keys(old(cfg).entries@) ==> unique_keys(final(cfg).entries@),
            r is Err ==> *final(cfg) == *old(cfg),
            cfg_pointer_free(*self) ==> r is Ok,
    {
        match resolve_entries_exec(self, cfg, overrides, store, system) {
            Ok(nc) => {
                proof {
                    if unique_keys(cfg.entries@) {
                        assert forall|x: int, y: int|
                            0 <= x < y < nc.entries@.len() implies nc.entries@[x].0@
                            != nc.entries@[y].0@ by {
                            assert(nc.entries@[x].0@ == cfg.entries@[x].0@);
                            assert(nc.entries@[y].0@ == cfg.entries@[y].0@);
                        }
                    }
                }
                *cfg = nc;
                Ok(())
            },
            Err(e) => Err(e),
        }
    }
}

} // verus!
