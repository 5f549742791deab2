//! The persisted log entry.

use vstd::prelude::*;

verus! {

/// One completed focus session, as it is appended to the log: the title of
/// the window that was focused, the local calendar time at which the session
/// ended, and how many whole seconds it was open.
///
/// Both text fields are held as their UTF-8 bytes; the codec and the tracker
/// state their contracts over these byte sequences.
pub struct LogRecord {
    /// Title of the window the session was spent on.
    pub window_title: Vec<u8>,
    /// Local calendar time at which the session ended, rendered as
    /// `YYYY-MM-DD HH:MM:SS`.
    pub end_timestamp: Vec<u8>,
    /// Whole seconds the session was open, by a monotonic clock.
    pub duration_secs: u64,
}

} // verus!
