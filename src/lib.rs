//! Network throughput measurements: the record log format, the loader that
//! tolerates damaged lines, the summary of a series of measurements, and the
//! sequencing of the three probes of one measurement run.

mod text;

pub mod aggregate;
pub mod clock;
pub mod data;
pub mod decimal;
pub mod engine;
pub mod fields;
pub mod record;
pub mod store;
