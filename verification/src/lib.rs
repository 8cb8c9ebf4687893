//! Gait-cycle analysis over motion-capture recordings.
//!
//! A recording is a wide table of sampled signals: a `time` column, one
//! column per (variable, anatomical position) pair, and two integer
//! foot-contact columns. The library turns such a table into gait-cycle
//! statistics: detected support intervals, gait cycles, per-cycle quantile
//! summaries, a centred selection window, and a per-recording export row.
//!
//! Times and signal samples are held as fixed-point *ticks*: one unit of the
//! source data equals [`ticks::TICK_SCALE`] ticks, so a sample is an `i64`
//! and every transformation is exact integer arithmetic. Callers parse
//! decimal text into ticks with [`ticks::parse_decimal`] and render ticks
//! back with [`ticks::format_tick`].

pub mod aggregate;
pub mod args;
pub mod batch;
pub mod config;
pub mod edges;
pub mod errors;
pub mod export;
pub mod gait;
pub mod header;
pub mod paths;
pub mod pipeline;
pub mod quantile;
pub mod selection;
pub mod selector;
pub mod strutil;
pub mod table;
pub mod support;
pub mod ticks;
