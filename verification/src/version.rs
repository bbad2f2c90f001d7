//! Package versions and semantic-version ranges.  A version is a quad of
//! numbers; range satisfaction is the emver crate's judgement over the
//! range's source text.

use vstd::prelude::*;
use vstd::string::StringSliceAdditionalSpecFns;

verus! {

/// An installed package's version: major, minor, patch and distributor
/// revision.
#[derive(Clone, Copy, Debug, PartialEq, Eq, Structural)]
pub struct Version {
    pub major: u64,
    pub minor: u64,
    pub patch: u64,
    pub revision: u64,
}

impl Version {
    /// A version from its four components.
    pub fn new(major: u64, minor: u64, patch: u64, revision: u64) -> (r: Version)
        ensures
            r == (Version { major, minor, patch, revision }),
    {
        Version { major, minor, patch, revision }
    }
}

/// Whether a byte is an ASCII decimal digit.
pub open spec fn digit_byte(b: u8) -> bool {
    48 <= b <= 57
}

/// Whether every byte in `[lo, hi)` is a decimal digit.
pub open spec fn all_digits(bytes: Seq<u8>, lo: int, hi: int) -> bool {
    forall|k: int| lo <= k < hi ==> digit_byte(#[trigger] bytes[k])
}

/// Whether the text holds twenty or more consecutive decimal digits.  Such
/// a run can parse to a number at the machine's limit, and the range
/// parser's own arithmetic on a parsed component then leaves the machine
/// word; texts without such a run keep every component strictly below the
/// limit.
pub open spec fn long_digit_run(bytes: Seq<u8>) -> bool {
    exists|i: int| 0 <= i && i + 20 <= bytes.len() && #[trigger] all_digits(bytes, i, i + 20)
}

/// Decides [`long_digit_run`] over a range's source text, so a caller
/// holding an arbitrary string can test it before asking for a judgement.
#[verifier::loop_isolation(false)]
pub fn range_text_is_safe(range: &str) -> (r: bool)
    ensures
        r == !long_digit_run(range.spec_bytes()),
{
    let b = range.as_bytes();
    let mut run: usize = 0;
    let mut i: usize = 0;
    while i < b.len()
        invariant
            0 <= i <= b@.len(),
            run <= i,
            run < 20,
            all_digits(b@, i - run, i as int),
            run < i ==> !digit_byte(b@[i - run - 1]),
            forall|w: int| 0 <= w && w + 20 <= i ==> !(#[trigger] all_digits(b@, w, w + 20)),
        decreases b@.len() - i,
    {
        if b[i] >= 48 && b[i] <= 57 {
            run = run + 1;
            if run >= 20 {
                proof {
                    let w0 = i + 1 - 20;
                    assert(all_digits(b@, w0, w0 + 20));
                    assert(long_digit_run(b@));
                }
                return false;
            }
            proof {
                assert(all_digits(b@, i + 1 - run, i + 1));
                assert forall|w: int| 0 <= w && w + 20 <= i + 1 implies !(#[trigger] all_digits(
                    b@,
                    w,
                    w + 20,
                )) by {
                    if w + 20 == i + 1 {
                        assert(!digit_byte(b@[i - run]));
                        assert(i - run >= w);
                    }
                }
            }
        } else {
            proof {
                assert(!digit_byte(b@[i as int]));
                assert forall|w: int| 0 <= w && w + 20 <= i + 1 implies !(#[trigger] all_digits(
                    b@,
                    w,
                    w + 20,
                )) by {
                    if w + 20 == i + 1 {
                        assert(!digit_byte(b@[i as int]));
                    }
                }
            }
            run = 0;
        }
        i = i + 1;
    }
    true
}

/// What the emver crate decides for a version quad against a range's source
/// text; a function of the text and the quad alone.  Text that does not
/// parse as a range satisfies nothing.
pub uninterp spec fn range_sat(range: Seq<char>, major: u64, minor: u64, patch: u64, revision: u64) -> bool;

/// Relies on emver::Version::satisfies, over a range parsed from its source
/// text with emver::VersionRange's FromStr and a version built with
/// emver::Version::new: whether the version lies in the range.
///
/// The caret, tilde and wildcard forms of the range grammar increment a
/// parsed component, so a component at the machine's limit would leave the
/// machine word inside the crate: texts holding twenty or more consecutive
/// digits are excluded ([`range_text_is_safe`] decides this for an
/// arbitrary string); the nineteen-digit allowance is calibrated to a
/// 64-bit machine word.  The quad is handed to the crate as machine words,
/// so each component must fit one — on a host with a narrower word that
/// bound, not the digit-run bound, is the binding one, and the judgement is
/// a function of text and quad only among hosts of one word width.
#[verifier::external_body]
pub fn version_in_range(range: &str, v: &Version) -> (r: bool)
    requires
        !long_digit_run(range.spec_bytes()),
        v.major <= usize::MAX as u64,
        v.minor <= usize::MAX as u64,
        v.patch <= usize::MAX as u64,
        v.revision <= usize::MAX as u64,
    ensures
        r == range_sat(range@, v.major, v.minor, v.patch, v.revision),
{
    match range.parse::<emver::VersionRange>() {
        Ok(vr) => emver::Version::new(
            v.major as usize,
            v.minor as usize,
            v.patch as usize,
            v.revision as usize,
        ).satisfies(&vr),
        Err(_) => false,
    }
}

} // verus!
