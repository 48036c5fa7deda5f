//! Fixed settings: the watched document, the polling period and the agent's
//! working directory.
use vstd::prelude::*;

verus! {

/// The id of the Google Doc whose tabs are watched.
pub const DOC_ID: &'static str = "1RIr-n3WgdfOYiXgd7J8hk3NcPuIIZhNosTxYcKnEqwI";

/// Seconds between two polls of the document.
pub const POLL_INTERVAL_SECS: u64 = 5;

/// The directory the agent runs in.
pub const WORKSPACE: &'static str = "/Users/ze/geminihackathon";

} // verus!
