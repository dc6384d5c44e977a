//! epkg, the package manager: offline first, hash addressed.
use vstd::prelude::*;

verus! {

/// Package manager commands.
pub enum Command {
    Install(String),
    Remove(String),
    List,
    Verify,
    Build(String),
}

/// Install `package`.  Fetching, signature checks and staging are not
/// implemented yet.
pub fn cmd_install(_package: &str) {
}

/// Remove `package`.  Unlinking is not implemented yet.
pub fn cmd_remove(_package: &str) {
}

/// List the active packages.  Not implemented yet.
pub fn cmd_list() {
}

/// Verify the installed packages.  Not implemented yet.
pub fn cmd_verify() {
}

/// Build a package from `manifest`.  Not implemented yet.
pub fn cmd_build(_manifest: &str) {
}

} // verus!
