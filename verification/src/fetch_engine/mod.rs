//! Delivery of fetched values.

pub mod plp_stream;
