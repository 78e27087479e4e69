//! hedwig: the relay that makes a Windows gpg-agent reachable over `ssh -R`.
//!
//! The library holds the logic of the relay: the parsers of the agent's
//! socket file and of the command line, the autostart command line, the
//! admission of peers, the order of the relay's handshake and the checks of
//! `status`. The program around it performs the I/O.

pub mod autostart;
pub mod cli;
pub mod decimal;
pub mod gpgconf;
pub mod peer;
pub mod registry;
pub mod relay;
pub mod socketfile;
pub mod serve;
pub mod status;

use vstd::prelude::*;

verus! {

/// The version of this crate, as its `Cargo.toml` states it.
pub const PACKAGE_VERSION: &'static str = "0.1.0";

/// The crate version, carrying the git description of the build when there
/// was a checkout to read one from: `describe` is that description, which
/// the program reads when it is built (`HEDWIG_GIT_DESCRIBE`).
pub fn version(describe: Option<&str>) -> (r: String)
    ensures
        r@ == match describe {
            Some(d) => PACKAGE_VERSION@ + " ("@ + d@ + ")"@,
            None => PACKAGE_VERSION@,
        },
{
    match describe {
        Some(d) => {
            let mut v = String::from_str(PACKAGE_VERSION);
            v.append(" (");
            v.append(d);
            v.append(")");
            v
        },
        None => String::from_str(PACKAGE_VERSION),
    }
}

} // verus!
