//! The closed error taxonomy: schema-violation reasons carried with the
//! field path at which they occurred, and the engine's fatal error kinds.

use vstd::prelude::*;
use vstd::string::StringExecFns;
use crate::schema::{NumRange, LenRange};
use crate::pointer::ValueSpecPointer;

verus! {

/// The classification of a fatal engine error.
#[derive(Clone, Copy, Debug, PartialEq, Eq, Structural)]
pub enum ErrorKind {
    /// The targeted package has no installed record or no configuration.
    NotFound,
    /// Default-value generation failed.
    ConfigGen,
    /// Schema validation or a custom dependency check rejected a
    /// configuration.
    ConfigRulesViolation,
    /// A bounded search exceeded its bound.
    Timeout,
    /// An auto-configure action failed.
    AutoConfigure,
}

/// A fatal engine error: a classification together with a rendered message.
pub struct Error {
    pub kind: ErrorKind,
    pub message: String,
}

impl Error {
    /// Builds an error from a message and a classification.
    pub fn new(message: String, kind: ErrorKind) -> (r: Error)
        ensures
            r.kind == kind,
            r.message@ == message@,
    {
        Error { kind, message }
    }
}

/// Bounded default-value generation exceeded its bound.
#[derive(Clone, Copy, Debug, PartialEq, Eq, Structural)]
pub struct TimeoutError;

/// One schema-violation reason.
pub enum MatchError {
    /// A string does not match the declared pattern: holds the string and
    /// the pattern.
    Pattern(String, String),
    /// A string is not among the enumerated values.
    Enum(String, Vec<String>),
    /// Null was given for a field that is not nullable.
    NotNullable,
    /// A list's length lies outside the declared bounds.
    LengthMismatch(LenRange, u64),
    /// A value of the wrong shape: holds the expected and the actual type
    /// name.
    InvalidType(&'static str, &'static str),
    /// A number lies outside the declared range.
    OutOfRange(NumRange, i64),
    /// A union value's tag is not among the declared variants.
    Union(String, Vec<String>),
    /// A union value does not hold its tag field as a string.
    MissingTag(String),
    /// A variant's property name equals the union's tag field name: holds
    /// the property and the variant name.
    PropertyMatchesUnionTag(String, String),
    /// A variant's property name equals another variant's tag value.
    PropertyNameMatchesMapTag(String),
    /// A pointer field could not be dereferenced.
    InvalidPointer(ValueSpecPointer),
    /// An object holds a key the schema does not declare.
    InvalidKey(String),
    /// A list declared unique holds a repeated value.
    ListUniquenessViolation,
}

/// The comma-joined rendering of a list of names.
pub open spec fn spec_joined_list(vals: Seq<String>) -> Seq<char>
    decreases vals.len(),
{
    if vals.len() == 0 {
        Seq::<char>::empty()
    } else if vals.len() == 1 {
        vals[0]@
    } else {
        spec_joined_list(vals.drop_last()) + ", "@ + vals.last()@
    }
}

/// Joins a list of names with commas.
#[verifier::loop_isolation(false)]
fn join_list(vals: &Vec<String>) -> (r: String)
    ensures
        r@ == spec_joined_list(vals@),
{
    let mut out = String::new();
    let mut i: usize = 0;
    while i < vals.len()
        invariant
            0 <= i <= vals@.len(),
            out@ == spec_joined_list(vals@.take(i as int)),
        decreases vals@.len() - i,
    {
        if i > 0 {
            out.append(", ");
        }
        out.append(vals[i].as_str());
        proof {
            assert(vals@.take(i + 1).drop_last() =~= vals@.take(i as int));
            assert(vals@.take(i + 1).last() == vals@[i as int]);
            if i == 0 {
                assert(out@ =~= spec_joined_list(vals@.take(1)));
            } else {
                assert(out@ =~= spec_joined_list(vals@.take(i + 1)));
            }
        }
        i = i + 1;
    }
    proof {
        assert(vals@.take(vals@.len() as int) =~= vals@);
    }
    out
}

/// The message text of a schema-violation reason.
pub open spec fn spec_match_error_message(e: MatchError) -> Seq<char> {
    match e {
        MatchError::Pattern(s, p) => "String "@ + s@ + " Does Not Match Pattern "@ + p@,
        MatchError::Enum(s, values) => "String "@ + s@ + " Is Not In Enum ["@ + spec_joined_list(
            values@,
        ) + "]"@,
        MatchError::NotNullable => "Field Is Not Nullable"@,
        MatchError::LengthMismatch(_, n) => "Length Mismatch: actual "@ + u64_dec(n as int),
        MatchError::InvalidType(exp, act) => "Invalid Type: expected "@ + exp@ + ", actual: "@
            + act@,
        MatchError::OutOfRange(_, n) => "Number Out Of Range: actual "@ + i64_dec(n as int),
        MatchError::Union(s, variants) => "Variant "@ + s@ + " Is Not In Union ["@
            + spec_joined_list(variants@) + "]"@,
        MatchError::MissingTag(t) => "Variant Is Missing Tag "@ + t@,
        MatchError::PropertyMatchesUnionTag(p, v) => "Property "@ + p@ + " Of Variant "@ + v@
            + " Conflicts With Union Tag"@,
        MatchError::PropertyNameMatchesMapTag(p) => "Name of Property "@ + p@
            + " Conflicts With Map Tag Name"@,
        MatchError::InvalidPointer(_) => "Pointer Is Invalid"@,
        MatchError::InvalidKey(k) => "Object Key Is Invalid: "@ + k@,
        MatchError::ListUniquenessViolation => "Value In List Is Not Unique"@,
    }
}

impl MatchError {
    /// Renders the reason as text.
    pub fn message(&self) -> (r: String)
        ensures
            r@ == spec_match_error_message(*self),
    {
        match self {
            MatchError::Pattern(s, p) => String::from_str("String ").concat(s.as_str()).concat(
                " Does Not Match Pattern ",
            ).concat(p.as_str()),
            MatchError::Enum(s, values) => String::from_str("String ").concat(s.as_str()).concat(
                " Is Not In Enum [",
            ).concat(join_list(values).as_str()).concat("]"),
            MatchError::NotNullable => String::from_str("Field Is Not Nullable"),
            MatchError::LengthMismatch(_, n) => String::from_str("Length Mismatch: actual ").concat(
                u64_to_string(*n).as_str(),
            ),
            MatchError::InvalidType(exp, act) => String::from_str("Invalid Type: expected ").concat(
                exp,
            ).concat(", actual: ").concat(act),
            MatchError::OutOfRange(_, n) => String::from_str("Number Out Of Range: actual ").concat(
                i64_to_string(*n).as_str(),
            ),
            MatchError::Union(s, variants) => String::from_str("Variant ").concat(s.as_str())
                .concat(" Is Not In Union [").concat(join_list(variants).as_str()).concat("]"),
            MatchError::MissingTag(t) => String::from_str("Variant Is Missing Tag ").concat(
                t.as_str(),
            ),
            MatchError::PropertyMatchesUnionTag(p, v) => String::from_str("Property ").concat(
                p.as_str(),
            ).concat(" Of Variant ").concat(v.as_str()).concat(" Conflicts With Union Tag"),
            MatchError::PropertyNameMatchesMapTag(p) => String::from_str("Name of Property ")
                .concat(p.as_str()).concat(" Conflicts With Map Tag Name"),
            MatchError::InvalidPointer(_) => String::from_str("Pointer Is Invalid"),
            MatchError::InvalidKey(k) => String::from_str("Object Key Is Invalid: ").concat(
                k.as_str(),
            ),
            MatchError::ListUniquenessViolation => String::from_str("Value In List Is Not Unique"),
        }
    }
}

/// A schema violation together with the field path at which it occurred,
/// built leaf to root.
pub struct NoMatchWithPath {
    pub path: Vec<String>,
    pub error: MatchError,
}

/// The dot-joined field path displayed root to leaf: the stored path holds
/// the leaf first, so display peels from the end.
pub open spec fn spec_joined_path(path: Seq<String>) -> Seq<char>
    decreases path.len(),
{
    if path.len() == 0 {
        Seq::<char>::empty()
    } else if path.len() == 1 {
        path[0]@
    } else {
        path.last()@ + "."@ + spec_joined_path(path.drop_last())
    }
}

/// The rendered form of a pathed violation.
pub open spec fn spec_no_match_message(e: NoMatchWithPath) -> Seq<char> {
    spec_joined_path(e.path@) + ": "@ + spec_match_error_message(e.error)
}

/// Peeling the first (leaf) element off a non-singleton path moves it, with
/// its separator, to the end of the display.
proof fn lemma_joined_path_unfold_first(path: Seq<String>)
    requires
        path.len() >= 2,
    ensures
        spec_joined_path(path) == spec_joined_path(path.drop_first()) + "."@ + path[0]@,
    decreases path.len(),
{
    if path.len() == 2 {
        assert(path.drop_last() =~= seq![path[0]]);
        assert(path.drop_first() =~= seq![path[1]]);
        assert(spec_joined_path(path.drop_last()) == path[0]@);
        assert(spec_joined_path(path.drop_first()) == path[1]@);
    } else {
        lemma_joined_path_unfold_first(path.drop_last());
        assert(path.drop_last().drop_first() =~= path.drop_first().drop_last());
        assert(path.drop_first().last() == path.last());
        assert(spec_joined_path(path.drop_first()) == path.last()@ + "."@ + spec_joined_path(
            path.drop_first().drop_last(),
        ));
        assert(spec_joined_path(path) == path.last()@ + "."@ + spec_joined_path(path.drop_last()));
        assert(spec_joined_path(path.drop_last()) == spec_joined_path(path.drop_last().drop_first())
            + "."@ + path[0]@);
    }
}

impl NoMatchWithPath {
    /// A violation with an empty path.
    pub fn new(error: MatchError) -> (r: NoMatchWithPath)
        ensures
            r.path@.len() == 0,
            r.error == error,
    {
        NoMatchWithPath { path: Vec::new(), error }
    }

    /// Records one more path segment, leaf to root.
    pub fn prepend(self, seg: String) -> (r: NoMatchWithPath)
        ensures
            r.path@ == self.path@.push(seg),
            r.error == self.error,
    {
        let mut s = self;
        s.path.push(seg);
        s
    }

    /// Renders the violation with its dot-joined path, root to leaf.
    #[verifier::loop_isolation(false)]
    pub fn render(&self) -> (r: String)
        ensures
            r@ == spec_no_match_message(*self),
    {
        let mut out = String::new();
        let ghost whole = self.path@;
        let mut i: usize = self.path.len();
        while i > 0
            invariant
                0 <= i <= whole.len(),
                i == whole.len() ==> out@ == Seq::<char>::empty(),
                i < whole.len() ==> out@ == spec_joined_path(whole.skip(i as int)) + (if i > 0 {
                    "."@
                } else {
                    Seq::<char>::empty()
                }),
            decreases i,
        {
            i = i - 1;
            out.append(self.path[i].as_str());
            proof {
                if i + 1 == whole.len() {
                    assert(whole.skip(i as int) =~= seq![whole[i as int]]);
                    assert(spec_joined_path(whole.skip(i as int)) == whole[i as int]@);
                } else {
                    lemma_joined_path_unfold_first(whole.skip(i as int));
                    assert(whole.skip(i as int).drop_first() =~= whole.skip(i + 1));
                    assert(whole.skip(i as int)[0] == whole[i as int]);
                }
            }
            if i > 0 {
                out.append(".");
            }
        }
        proof {
            if whole.len() > 0 {
                assert(whole.skip(0) =~= whole);
            }
        }
        out.append(": ");
        out.concat(self.error.message().as_str())
    }
}

/// The character of one decimal digit.
pub open spec fn dec_digit(d: int) -> char {
    if d == 0 {
        '0'
    } else if d == 1 {
        '1'
    } else if d == 2 {
        '2'
    } else if d == 3 {
        '3'
    } else if d == 4 {
        '4'
    } else if d == 5 {
        '5'
    } else if d == 6 {
        '6'
    } else if d == 7 {
        '7'
    } else if d == 8 {
        '8'
    } else {
        '9'
    }
}

/// The decimal rendering of a number.
pub open spec fn u64_dec(n: int) -> Seq<char>
    decreases n,
    when n >= 0
{
    if n < 10 {
        seq![dec_digit(n)]
    } else {
        u64_dec(n / 10) + seq![dec_digit(n % 10)]
    }
}

/// The decimal rendering of a signed number: a minus sign before the
/// magnitude when it is negative.
pub open spec fn i64_dec(n: int) -> Seq<char> {
    if n < 0 {
        seq!['-'] + u64_dec(-n)
    } else {
        u64_dec(n)
    }
}

/// The concatenation of collected digit texts, newest first.
spec fn concat_rev(ds: Seq<&'static str>) -> Seq<char>
    decreases ds.len(),
{
    if ds.len() == 0 {
        Seq::<char>::empty()
    } else {
        ds.last()@ + concat_rev(ds.drop_last())
    }
}

/// One decimal digit as text.
fn digit_str(d: u64) -> (r: &'static str)
    requires
        d < 10,
    ensures
        r@ =~= seq![dec_digit(d as int)],
{
    proof {
        reveal_strlit("0");
        reveal_strlit("1");
        reveal_strlit("2");
        reveal_strlit("3");
        reveal_strlit("4");
        reveal_strlit("5");
        reveal_strlit("6");
        reveal_strlit("7");
        reveal_strlit("8");
        reveal_strlit("9");
    }
    match d {
        0 => "0",
        1 => "1",
        2 => "2",
        3 => "3",
        4 => "4",
        5 => "5",
        6 => "6",
        7 => "7",
        8 => "8",
        _ => "9",
    }
}

/// Renders a number in decimal.
#[verifier::loop_isolation(false)]
pub fn u64_to_string(n: u64) -> (r: String)
    ensures
        r@ == u64_dec(n as int),
{
    proof {
        reveal_strlit("0");
    }
    if n == 0 {
        let zero = String::from_str("0");
        proof {
            assert(zero@ =~= u64_dec(0));
        }
        return zero;
    }
    let mut digits: Vec<&'static str> = Vec::new();
    let mut m: u64 = n;
    while m > 0
        invariant
            m > 0 ==> u64_dec(n as int) == u64_dec(m as int) + concat_rev(digits@),
            m == 0 ==> u64_dec(n as int) == concat_rev(digits@),
        decreases m,
    {
        let ghost pre = digits@;
        digits.push(digit_str(m % 10));
        proof {
            assert(digits@.last()@ =~= seq![dec_digit((m % 10) as int)]);
            assert(digits@.drop_last() =~= pre);
            assert(concat_rev(digits@) =~= seq![dec_digit((m % 10) as int)] + concat_rev(pre));
            if m < 10 {
                assert(u64_dec(m as int) =~= seq![dec_digit((m % 10) as int)]);
                assert(u64_dec(n as int) =~= concat_rev(digits@));
            } else {
                assert(u64_dec(m as int) =~= u64_dec(m as int / 10) + seq![
                    dec_digit((m % 10) as int),
                ]);
                assert(u64_dec(n as int) =~= u64_dec((m / 10) as int) + concat_rev(digits@));
            }
        }
        m = m / 10;
    }
    let mut out = String::new();
    let mut rest = digits;
    while rest.len() > 0
        invariant
            u64_dec(n as int) == out@ + concat_rev(rest@),
        decreases rest@.len(),
    {
        let ghost rest0 = rest@;
        let d = match rest.pop() {
            Some(d) => d,
            None => "",
        };
        proof {
            assert(rest@ =~= rest0.drop_last());
            assert(concat_rev(rest0) =~= d@ + concat_rev(rest@));
        }
        out.append(d);
        proof {
            assert(u64_dec(n as int) =~= out@ + concat_rev(rest@));
        }
    }
    proof {
        assert(concat_rev(rest@) =~= Seq::<char>::empty());
        assert(u64_dec(n as int) =~= out@);
    }
    out
}

/// Renders a signed number in decimal.
pub fn i64_to_string(n: i64) -> (r: String)
    ensures
        r@ == i64_dec(n as int),
{
    if n >= 0 {
        u64_to_string(#[verifier::truncate] (n as u64))
    } else {
        let magnitude: u64 = #[verifier::truncate] ((-(n as i128)) as u64);
        let mut out = String::from_str("-");
        proof {
            reveal_strlit("-");
            assert(out@ =~= seq!['-']);
        }
        out.append(u64_to_string(magnitude).as_str());
        proof {
            assert(out@ =~= seq!['-'] + u64_dec(magnitude as int));
        }
        out
    }
}

/// A failure of schema validation or of default-value generation.
pub enum ConfigurationError {
    /// Bounded generation exceeded its bound.
    TimeoutError(TimeoutError),
    /// The configuration does not match the schema.
    NoMatch(NoMatchWithPath),
    /// A fatal error of the surrounding system.
    SystemError(Error),
}

impl ConfigurationError {
    /// Classifies the failure as a fatal engine error: a timeout keeps its
    /// own kind, a schema mismatch is a generation failure, and a system
    /// error passes through.
    pub fn into_error(self) -> (r: Error)
        ensures
            match self {
                ConfigurationError::TimeoutError(_) => r.kind == ErrorKind::Timeout && r.message@
                    == "Timeout Error"@,
                ConfigurationError::NoMatch(e) => r.kind == ErrorKind::ConfigGen && r.message@
                    == spec_no_match_message(e),
                ConfigurationError::SystemError(e) => r.kind == e.kind && r.message@ == e.message@,
            },
    {
        match self {
            ConfigurationError::TimeoutError(_) => Error {
                kind: ErrorKind::Timeout,
                message: String::from_str("Timeout Error"),
            },
            ConfigurationError::NoMatch(e) => Error {
                kind: ErrorKind::ConfigGen,
                message: e.render(),
            },
            ConfigurationError::SystemError(e) => e,
        }
    }
}

} // verus!
