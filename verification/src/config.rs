//! Where the base directory lives: a fixed subfolder beside the running
//! executable, resolved once at process start and read-only afterwards.

use vstd::prelude::*;

verus! {

/// The name of the subfolder, beside the running executable, that holds
/// the launchable entries. At startup the application resolves the
/// executable's own directory, appends this name, and creates the folder
/// if it does not exist yet; a failure there aborts startup.
pub fn startapp_dir_name() -> (r: &'static str)
    ensures
        r@ == "startapp"@,
{
    "startapp"
}

} // verus!
