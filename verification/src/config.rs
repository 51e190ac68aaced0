//! The roster of scripts and what is recorded of each.

use vstd::prelude::*;
use crate::not_nan::{NotNan, ONE_BITS};
use crate::thompson::ThompsonInfo;

verus! {

/// One script of the roster: an arm of the bandit.
#[derive(Debug)]
pub struct Script {
    /// The name by which the script is told apart.
    pub name: String,
    /// The command line that runs it.
    pub command: String,
    /// The outcomes counted so far.
    pub results: ThompsonInfo,
    /// How often it has run.
    pub runcount: u64,
    /// The mean runtime of those runs in milliseconds; none before the first.
    pub avgruntime_ms: Option<NotNan>,
    /// The weight that the user gives it.
    pub bias: NotNan,
    /// The bound on its interesting outcomes that makes it eligible, if any.
    pub limit: Option<u64>,
}

/// The roster.
#[derive(Debug)]
pub struct Config {
    pub scripts: Vec<Script>,
}

/// What one run of a script brought.
#[derive(Debug)]
pub struct ScriptResult {
    pub interesting: u64,
    pub uninteresting: u64,
    pub runtime_ms: u128,
}

impl Script {
    /// A script that has not run yet, with bias 1.0 and no limit.
    pub fn new(name: String, command: String) -> (r: Script)
        ensures
            r.name == name,
            r.command == command,
            r.results == (ThompsonInfo { interesting: 0, uninteresting: 0 }),
            r.runcount == 0,
            r.avgruntime_ms is None,
            r.bias.bits() == ONE_BITS,
            r.limit is None,
    {
        Script {
            name,
            command,
            results: ThompsonInfo { interesting: 0, uninteresting: 0 },
            runcount: 0,
            avgruntime_ms: None,
            bias: NotNan::one(),
            limit: None,
        }
    }
}

} // verus!
