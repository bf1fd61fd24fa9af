//! Locations of the persisted state.

use vstd::prelude::*;

verus! {

/// Well-known locations of the registry file.
pub struct Dirs;

impl Dirs {
    /// The configuration directory. The caller creates it when absent.
    pub fn _config_dir() -> (r: &'static str)
        ensures
            r@ == "/etc/nbot"@,
    {
        "/etc/nbot"
    }

    /// Path of the registry file inside the configuration directory.
    pub fn config_file() -> (r: String)
        ensures
            r@ == "/etc/nbot"@ + "/config.json"@,
    {
        let mut r = String::from_str("/etc/nbot");
        r.append("/config.json");
        r
    }
}

} // verus!
