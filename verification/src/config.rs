//! The settings that the service is started with.

use vstd::prelude::*;

verus! {

/// How much the service logs, from the least to the most.
#[derive(Clone, Copy, Debug, PartialEq, Eq, Structural)]
pub enum Level {
    Error,
    Warn,
    Info,
    Debug,
    Trace,
}

/// The settings of the service. They are read once, at the start, and handed
/// by reference to whoever needs them.
#[derive(Clone, Debug)]
pub struct Config {
    /// Where the search engine listens.
    pub elastic_url: String,
    /// How much is logged.
    pub log_level: Level,
    /// The indices that are searched.
    pub index_pattern: String,
}

impl Default for Config {
    /// A search engine on this machine, the indices of filebeat, and logging
    /// at `Info`.
    fn default() -> (config: Self)
        ensures
            config.elastic_url@ == "http://localhost:9200"@,
            config.log_level == Level::Info,
            config.index_pattern@ == "filebeat-*"@,
    {
        Config {
            elastic_url: "http://localhost:9200".to_owned(),
            log_level: Level::Info,
            index_pattern: "filebeat-*".to_owned(),
        }
    }
}

} // verus!
