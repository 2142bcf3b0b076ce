//! Triage support for unsent letters: weekly cadence intake, monthly record
//! registration and the text the `letter` command line prints.

pub mod text;
pub mod json_scan;
pub mod process_output;
pub mod cadence_intake;
pub mod cadence_record;
pub mod cli;

