//! A personal-accountability activity log.
//!
//! The library models an append-only, newline-delimited JSON log of daily
//! activity surveys.  Goals (an activity with an optional target minute
//! range) are loaded from a JSON goals file; a survey merges each goal with
//! an observed number of minutes; one day's full survey is encoded as a
//! single JSON line and appended to the log.  Reading the log parses each
//! line independently, so one malformed line never hides its neighbours.
//!
//! Everything textual — the decimal numerals, the `yyyy-mm-dd` dates, the
//! JSON lines themselves — is produced and consumed by verified code with
//! exact contracts; `laws` states and proves the format's guarantees
//! (round-trip, append-only line structure).  File and terminal handling
//! lives outside the library and passes plain values in and out.

pub mod codec;
pub mod date;
pub mod laws;
pub mod records;
pub mod text;

pub use codec::{
    encode_log_line, parse_activity_goals, parse_activity_log, parse_date, parse_line,
    parse_minutes, ParseError,
};
pub use date::Date;
pub use records::{
    survey, ActivitiesRecord, ActivityGoal, ActivityGoals, ActivityRecord, Timestamp,
};
