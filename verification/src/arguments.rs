//! What the process is started with.

use vstd::prelude::*;

verus! {

/// The start-up choices of a process.
#[derive(Debug)]
pub struct Arguments {
    /// Run as the server of a new game.
    pub host: bool,
    /// Run as a client that joins a server.
    pub join: bool,
    /// The path of the configuration file.
    pub config: String,
}

} // verus!
