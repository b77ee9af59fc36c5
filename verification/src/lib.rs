pub mod analyzer;
pub mod datetime;
pub mod decimal;
pub mod error;
pub mod log_entry;
pub mod log_level;
pub mod parser;
pub mod statistics;
pub mod tally;
pub mod text;
