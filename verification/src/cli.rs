//! The command-line options the server is started with, as plain data. The
//! argument parsing itself lives outside the engine.

use vstd::prelude::*;

verus! {

/// Options shared by every command.
pub struct SharedOptions {
    /// A static JSON data file to read instead of polling the feed.
    pub static_data: Option<String>,
    /// Where to fetch the feed from.
    pub api_url: String,
    /// Where to fetch the stop-location datasets from.
    pub parquet_root: String,
    /// The database to connect to; in-memory when absent.
    pub db_url: Option<String>,
    /// The requestor identity sent to the feed, to fetch only changes.
    pub requestor_id: Option<String>,
    /// Threads to configure the database with.
    pub threads: u8,
    /// Memory to grant the database, in whole gigabytes.
    pub memory_gb: u8,
}

/// The commands the program offers.
pub enum Commands {
    /// Run the long-lived server that continually imports data.
    Serve {
        shared_options: SharedOptions,
        /// The port to serve on.
        port: u16,
        /// Refetch every this many seconds; never refetch when absent.
        fetch_interval_seconds: Option<u16>,
        /// Where the static assets are served from.
        assets_path: String,
    },
}

/// The parsed command line.
pub struct Forsinka {
    pub command: Commands,
}

} // verus!
