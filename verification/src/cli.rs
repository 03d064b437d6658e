//! Command-line niceties whose decisions are worth checking: the progress
//! display's timing.

pub mod progress;

pub use progress::ProgressDisplay;
