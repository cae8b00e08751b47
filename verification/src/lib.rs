//! Medusa fires a burst of concurrent HTTP GET requests at one URL and
//! summarises the round-trip times.
//!
//! This crate is the verified core: the run configuration and its
//! validation, the admission gate that bounds how many requests are in
//! flight, the per-worker life cycle, and the statistics over the outcomes.
//! Threads, sockets, clocks and printing are left to the caller.

use crate::config::{checked, Config, ConfigView};
use crate::dispatch::{Dispatcher, RunState};
use crate::number::{decimal_text, to_decimal};
use vstd::prelude::*;
use vstd::string::*;

pub mod admission;
pub mod config;
pub mod dispatch;
pub mod number;
pub mod request;
pub mod sorting;
pub mod stats;

verus! {

/// Starts a run: checks the configuration and, if a run can start from it,
/// sets up the dispatcher with its gate and its workers. The caller then
/// starts one thread per worker, lets each drive its worker through the
/// dispatcher, and collects the outcomes when all have finished.
pub fn run(config: Config) -> (started: Result<Dispatcher, String>)
    ensures
        started is Ok <==> config.is_valid(),
        started matches Ok(dispatcher) ==> dispatcher.wf() && dispatcher.config() == config
            && dispatcher@ == RunState::started(
            config.max_concurrent_requests,
            config.num_threads as nat,
        ),
        started matches Err(complaint) ==> checked(config@) == Err::<ConfigView, Seq<char>>(
            complaint@,
        ),
{
    match config.validate() {
        Ok(config) => Ok(Dispatcher::new(config)),
        Err(complaint) => Err(complaint),
    }
}

/// The line that announces a run: the target, the number of requests, and
/// the cap on requests in flight where one is set.
pub open spec fn banner_text(config: ConfigView) -> Seq<char> {
    let opening = "Load testing '"@ + config.url + "' with "@ + decimal_text(
        config.num_threads as nat,
    ) + " concurrent requests"@;
    match config.max_concurrent_requests {
        Some(limit) => opening + " (maximum of "@ + decimal_text(limit as nat)
            + " concurrently)"@,
        None => opening,
    }
}

/// Writes the line that announces a run, for the caller to show before the
/// first request is made.
pub fn banner(config: &Config) -> (line: String)
    ensures
        line@ == banner_text(config@),
{
    let threads = to_decimal(config.num_threads as u128);
    let opening = String::from_str("Load testing '").concat(config.url.as_str()).concat(
        "' with ",
    ).concat(threads.as_str()).concat(" concurrent requests");
    match config.max_concurrent_requests {
        Some(limit) => {
            let cap = to_decimal(limit as u128);
            opening.concat(" (maximum of ").concat(cap.as_str()).concat(" concurrently)")
        },
        None => opening,
    }
}

} // verus!
