//! Points in time, as the task list stores and orders them.
use vstd::prelude::*;

verus! {

/// A point in time: whole seconds since the Unix epoch (UTC) and the
/// nanoseconds past that second (above 999,999,999 only within a leap second).
#[derive(Clone, Copy, Debug, PartialEq, Eq, Structural)]
pub struct Timestamp {
    pub secs: i64,
    pub nanos: u32,
}

impl Timestamp {
    /// The current time: calls `chrono::Local::now()` and takes its seconds
    /// and sub-second nanoseconds since the Unix epoch. Nothing is claimed of
    /// the result, which depends on the machine's clock alone.
    #[verifier::external_body]
    pub fn now() -> (t: Timestamp) {
        let now = chrono::Local::now();
        Timestamp { secs: now.timestamp(), nanos: now.timestamp_subsec_nanos() }
    }
}

} // verus!
