//! Medication schedule tracking: frequency and time-of-day parsing, a
//! medication store with archive support, lifecycle operations on it, and the
//! decision logic of a once-a-minute reminder daemon.

pub mod daemon;
pub mod database;
pub mod dates;
pub mod history;
pub mod interval;
pub mod laws;
pub mod text;
pub mod time;
