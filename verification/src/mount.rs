//! Mount bookkeeping: the guard state that decides when an unmount is owed,
//! and the naming of temporary mountpoints.

use vstd::prelude::*;
use vstd::string::StringExecFns;

verus! {

/// Where temporary mounts live.
pub const TMP_MOUNTPOINT: &'static str = "/media/embassy-os/tmp";

/// What the base32 crate produces for a byte sequence under the unpadded
/// upper-case alphabet; a function of the bytes alone.
pub uninterp spec fn b32_of(data: Seq<u8>) -> Seq<char>;

/// Relies on base32::encode with the unpadded RFC 4648 alphabet: the
/// encoding of the bytes; an empty input encodes to the empty string.
#[verifier::external_body]
fn base32_encode(data: &Vec<u8>) -> (r: String)
    ensures
        r@ == b32_of(data@),
        data@.len() == 0 ==> r@.len() == 0,
{
    base32::encode(base32::Alphabet::Rfc4648 { padding: false }, data.as_slice())
}

/// The path a temporary mount for a filesystem source is placed at: the
/// temporary mount directory joined with the base32 form of the source's
/// identifying hash.
pub fn tmp_mountpoint_name(source_hash: &Vec<u8>) -> (r: String)
    ensures
        r@ == TMP_MOUNTPOINT@ + "/"@ + b32_of(source_hash@),
{
    let mut out = String::from_str(TMP_MOUNTPOINT);
    out.append("/");
    out.concat(base32_encode(source_hash).as_str())
}

/// The bookkeeping of one mounted filesystem: where it is mounted and
/// whether it still owes an unmount.  The filesystem work itself is the
/// caller's: a guard is created once the mount succeeded, and releasing it
/// says whether, and where, an unmount must now be performed.
pub struct MountGuard {
    pub mountpoint: String,
    pub mounted: bool,
}

impl MountGuard {
    /// Records a successful mount at `mountpoint`.
    pub fn mount(mountpoint: String) -> (r: MountGuard)
        ensures
            r.mountpoint@ == mountpoint@,
            r.mounted,
    {
        MountGuard { mountpoint, mounted: true }
    }

    /// Releases the guard: an unmount of the returned path is owed exactly
    /// when the guard was still mounted; releasing twice owes nothing more.
    pub fn unmount(self) -> (r: Option<String>)
        ensures
            self.mounted ==> (r matches Some(p) && p@ == self.mountpoint@),
            !self.mounted ==> r is None,
    {
        if self.mounted {
            Some(self.mountpoint)
        } else {
            None
        }
    }
}

} // verus!
