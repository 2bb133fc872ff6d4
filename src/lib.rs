//! A time-indexed robot trajectory store with interpolated lookup.
//!
//! Every physical quantity is carried in fixed point: one unit is a
//! millionth of the SI unit (micrometers, microradians, microseconds, ...).
pub mod units;
pub mod pose;
pub mod record;
pub mod path;
