//! Process-wide configuration: built once at startup and passed by
//! reference into every connection task.

use vstd::prelude::*;
use vstd::string::StringExecFns;

verus! {

/// The read-only configuration a connection task works under.
#[derive(Debug, Clone)]
pub struct Config {
    /// The address the listener binds.
    pub address: String,
    /// The directory static files are served from.
    pub static_dir: String,
}

impl Default for Config {
    /// The default configuration: a local listener and a `./static` root.
    fn default() -> (c: Self)
        ensures
            c.address@ == "127.0.0.1:8080"@,
            c.static_dir@ == "./static"@,
    {
        Config {
            address: String::from_str("127.0.0.1:8080"),
            static_dir: String::from_str("./static"),
        }
    }
}

} // verus!
