//! Verified core of a fitness-activity archive reader: header
//! normalization, typed record decoding (dates, integers, fixed-point
//! decimals, activity types), archive loading from CSV text, and the
//! trend reporting that projects decoded records into formatted rows.
pub mod archive;
pub mod cli;
pub mod dates;
pub mod digits;
pub mod headers;
pub mod localtime;
pub mod numbers;
pub mod records;
pub mod render;
pub mod trend;
pub mod text;
