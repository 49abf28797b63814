//! Extraction of timing records from proxy-server log lines, and fixed-window
//! averaging of the resulting series.

pub mod duration;
pub mod extractor;
pub mod order;
pub mod report;
pub mod text;
pub mod timestamp;
pub mod tokens;
pub mod window;
