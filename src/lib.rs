//! Turns a stream of decoded marine-instrument sentences into complete fixes,
//! bins them by time and composes the vertical marks of a graph.

pub mod bins;
pub mod mode;
pub mod record;
pub mod render;

pub use bins::{bin_extents, Extents, WindowSummary};
pub use mode::{calculate_bin_values, fold_direction};
pub use record::{process, process_nmea, process_utc_time, process_utc_timestamp, Data, DataPoint, Sentence};
pub use render::{compose, direction_to_row, speed_to_row, Channel, Picture, Segment};
