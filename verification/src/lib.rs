//! Status-line logic: usage-cache file format, ISO-8601 reset times,
//! progress bars with a pace marker, and the assembly of the status line.
pub mod bar;
pub mod cache;
pub mod calendar;
pub mod clock;
pub mod decimal;
pub mod fetch;
pub mod status;
pub mod text;
