//! A small in-process scheduler for recurring jobs.
//!
//! Jobs are described by an [`Interval`] (a recurrence unit such as "every
//! three hours" or "every Tuesday"), optionally refined by a time of day or
//! by a chain of finer offsets, and tracked by a [`JobSchedule`] that owns
//! the run-count policy and the next-run bookkeeping.

mod instant;
mod intervals;
mod job_schedule;
mod job_wrapper;
pub mod laws;
mod run_config;
mod timeparse;
mod timeprovider;

pub use instant::{Instant, TimeOfDay, EPOCH_DAY, MAX_DAY, NANOS_PER_SEC, SECS_PER_DAY};
pub use intervals::{Interval, TimeUnits};
pub use job_schedule::{JobSchedule, RepeatConfig, RunCount};
pub use job_wrapper::JobWrapper;
pub use run_config::{Adjustment, RunConfig};
pub use timeparse::{parse_time, TimeParseError};
pub use timeprovider::ChronoTimeProvider;
