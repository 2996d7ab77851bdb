//! Live process triage: risk scoring, process-tree layout, VirusTotal
//! bookkeeping and the state of the interactive dashboard.

pub mod text;
pub mod cache;
pub mod types;
pub mod risk;
pub mod tree;
pub mod ranking;
pub mod live;
pub mod virustotal;
pub mod tui;
pub mod report;
pub mod dashboard;
pub mod cli;
