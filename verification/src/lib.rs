//! The verified core of an ODBC driver for SQL Server: handle identities and
//! their admission, descriptors, statement state, parameter conversion and
//! streamed text delivery.

pub mod byte_cursor;
pub mod conversion;
pub mod diag;
pub mod fetch_engine;
pub mod fuzz_support;
pub mod handles;
pub mod odbc_types;
