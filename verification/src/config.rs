//! The settings the honeypot runs with, and its command line.

use vstd::prelude::*;

verus! {

/// The settings file: where to report, where to listen, where to forward to,
/// and where the database lives.
#[derive(Clone, Debug)]
pub struct Config {
    pub webhook_url: String,
    pub summary_webhook_url: String,
    pub summary_message_id: Option<u64>,
    /// The ids of the summary messages, message `i` holding summary part `i`.
    pub summary_message_ids: Vec<u64>,
    pub bind: String,
    pub server: String,
    pub database: String,
    pub ipinfo_token: String,
}

/// The command line: the path of the settings file.
#[derive(Clone, Debug)]
pub struct Cli {
    pub config: String,
}

impl Cli {
    /// A command line naming the settings file `config`.
    pub fn new(config: String) -> (r: Cli)
        ensures
            r.config == config,
    {
        Cli { config }
    }
}

} // verus!
