//! Save-file schema versioning. Reading and writing the file itself happens
//! outside the library.

use vstd::prelude::*;

verus! {

/// Schema version of save files. Files of any other version are rejected.
pub const SAVE_VERSION: u32 = 1;

/// A save file of the wrong schema version.
#[derive(Clone, Copy, Debug, PartialEq, Eq, Structural)]
pub struct VersionMismatch {
    pub found: u32,
    pub expected: u32,
}

/// Accepts exactly `SAVE_VERSION`.
pub fn check_version(found: u32) -> (r: Result<(), VersionMismatch>)
    ensures
        r is Ok <==> found == SAVE_VERSION,
        r matches Err(e) ==> e == (VersionMismatch { found, expected: SAVE_VERSION }),
{
    if found != SAVE_VERSION {
        return Err(VersionMismatch { found, expected: SAVE_VERSION });
    }
    Ok(())
}

} // verus!
