//! Resident memory by application: the processes of a Linux machine are
//! grouped under the application that they belong to, and the groups are
//! ranked by the memory that they hold.
//!
//! The caller reads the process table; this crate decides what the readings
//! mean. `procfs` and `sample` turn them into samples, `identity` and `java`
//! give every sample its key, `aggregate` and `scan` count the samples by
//! key, `report` and `share` lay the counts out as rows, and `render`
//! writes the rows as text.

pub mod aggregate;
pub mod decimal;
pub mod identity;
pub mod java;
pub mod options;
pub mod order;
pub mod path;
pub mod procfs;
pub mod render;
pub mod report;
pub mod sample;
pub mod scan;
pub mod share;
pub mod text;
