//! The command surface: which query to run and against which endpoint.
//! Argument parsing and dispatch are external collaborators; these types
//! carry their result.

use vstd::prelude::*;

verus! {

/// The two queries the tool offers.
#[derive(Clone, Copy, Debug, PartialEq, Eq, Structural)]
pub enum Commands {
    /// Scan for mints, derive each mint's metadata address, fetch those, and
    /// report the pairs whose metadata records decode.
    GetTokensWithMetadataAccount,
    /// Scan for mints and report those that use one or more extensions.
    GetTokensWithExtensions,
}

/// A parsed invocation: the endpoint to query and the command to run.
pub struct Cli {
    pub rpc_url: String,
    pub command: Commands,
}

impl Cli {
    pub fn new(rpc_url: String, command: Commands) -> (r: Cli)
        ensures
            r.rpc_url@ == rpc_url@,
            r.command == command,
    {
        Cli { rpc_url, command }
    }
}

} // verus!
