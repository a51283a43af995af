//! The server's configuration, as `config/server.toml` holds it.

use vstd::prelude::*;

verus! {

/// The whole configuration file.
pub struct Config {
    pub server: ServerStuff,
    pub routing: RoutingStuff,
}

/// The `[server]` section: where to listen, and the largest request body
/// accepted, in megabytes.
pub struct ServerStuff {
    pub address: String,
    pub port: u16,
    pub max_payload_size: usize,
}

/// The `[routing]` section: the patterns of the routes whose scripts take
/// path parameters.
pub struct RoutingStuff {
    pub allow_path_params: Vec<String>,
}

/// The number of bytes in a megabyte.
pub const BYTES_PER_MEGABYTE: usize = 1048576;

impl ServerStuff {
    /// The largest request body accepted, in bytes.
    pub fn payload_limit(&self) -> (bytes: usize)
        requires
            self.max_payload_size * BYTES_PER_MEGABYTE <= usize::MAX,
        ensures
            bytes == self.max_payload_size * BYTES_PER_MEGABYTE,
    {
        self.max_payload_size * BYTES_PER_MEGABYTE
    }
}

} // verus!
