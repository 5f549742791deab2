//! Focused-window screen-time tracking.
//!
//! The library holds the verified core of a small monitoring utility: a
//! fixed-interval sampling loop watches the focused window's title, and each
//! time the title changes it closes the previous focus session and renders it
//! as one comma-separated line (title, end timestamp, whole seconds held).
//! Probing the windowing system, sleeping between ticks and appending to the
//! log file are left to the surrounding binary; everything that decides or
//! computes lives here, with contracts.

pub mod codec;
pub mod numeral;
pub mod probe;
pub mod record;
pub mod tracker;

pub use codec::{parse_record, serialize_record};
pub use probe::{select_title, title_or_unknown, unknown_title};
pub use numeral::{parse_u64, u64_to_bytes};
pub use record::LogRecord;
pub use tracker::{tick, tick_with_clock, LoopState, TickOutcome};
