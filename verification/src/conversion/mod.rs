//! Conversion between application buffers and SQL values.

pub mod calendar;
pub mod chars;
pub mod column_value;
pub mod dae;
pub mod datetime;
pub mod error;
pub mod numeric;
pub mod param_buffer;
pub mod param_convert;
pub mod param_error;
pub mod transcode;
pub mod unicode;
