//! Device-monitoring engine for metered network printers: numeric-path
//! identifiers and tagged protocol values, network-range enumeration,
//! printer classification, counter resolution with explicit fallback rules,
//! and vendor profiling. Every function in this crate carries a verified
//! contract; the asynchronous transport and file persistence live in the
//! surrounding application.
pub mod counters;
pub mod discovery;
pub mod error;
pub mod model;
pub mod ricoh;
pub mod snmp;
pub mod text;
pub mod usage;
