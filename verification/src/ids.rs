//! Fresh identifiers for playlists and output files.

use vstd::prelude::*;
use vstd::string::StringExecFns;

verus! {

/// Relies on `uuid::Uuid::new_v4` and its hyphenated display form. The value
/// is drawn from the system's randomness, so nothing is promised of it.
#[verifier::external_body]
pub(crate) fn new_uuid_string() -> String {
    uuid::Uuid::new_v4().to_string()
}

/// A fresh output file name: a random identifier with an `.mp4` suffix.
pub fn new_mp4_file_name() -> (r: String)
    ensures
        r@.len() >= 4,
        r@.skip(r@.len() - 4) == ".mp4"@,
{
    let base = new_uuid_string();
    let r = base.concat(".mp4");
    proof {
        reveal_strlit(".mp4");
        assert(r@.skip(r@.len() - 4) =~= ".mp4"@);
    }
    r
}

} // verus!
