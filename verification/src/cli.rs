//! What the command line asks for: which mode runs, in which output format,
//! which files a directory scan takes, and in which order its reports come.

use vstd::prelude::*;
use crate::ranking::{sort_by_rank, sort_by_risk};
use crate::types::AnalysisReport;

verus! {

/// What a run of the program does.
#[derive(PartialEq, Eq, Structural, Clone, Copy, Debug)]
pub enum RunMode {
    /// The interactive dashboard.
    Dashboard,
    /// Live scans repeated at the refresh interval, printed as JSON or CSV.
    Stream,
    /// One live scan.
    Snapshot,
    /// Static analysis of the given file or directory.
    StaticScan,
    /// Nothing to do: no path and no live mode.
    NoTarget,
}

/// The mode of a run: the dashboard wins, then watching (which shows the
/// dashboard unless JSON or CSV output was asked for), then a single live
/// scan, then static analysis of the path.
pub open spec fn run_mode_spec(tui: bool, watch: bool, live: bool, json: bool, csv: bool, has_path: bool) -> RunMode {
    if tui {
        RunMode::Dashboard
    } else if watch {
        if !json && !csv {
            RunMode::Dashboard
        } else {
            RunMode::Stream
        }
    } else if live {
        RunMode::Snapshot
    } else if has_path {
        RunMode::StaticScan
    } else {
        RunMode::NoTarget
    }
}

/// Chooses the mode of a run from its flags.
pub fn run_mode(tui: bool, watch: bool, live: bool, json: bool, csv: bool, has_path: bool) -> (m: RunMode)
    ensures
        m == run_mode_spec(tui, watch, live, json, csv, has_path),
{
    if tui {
        RunMode::Dashboard
    } else if watch {
        if !json && !csv {
            RunMode::Dashboard
        } else {
            RunMode::Stream
        }
    } else if live {
        RunMode::Snapshot
    } else if has_path {
        RunMode::StaticScan
    } else {
        RunMode::NoTarget
    }
}

/// How results are written.
#[derive(PartialEq, Eq, Structural, Clone, Copy, Debug)]
pub enum OutputFormat {
    Json,
    Csv,
    Text,
}

/// The output format: JSON wins over CSV, and text is the default.
pub fn output_format(json: bool, csv: bool) -> (f: OutputFormat)
    ensures
        f == (if json {
            OutputFormat::Json
        } else if csv {
            OutputFormat::Csv
        } else {
            OutputFormat::Text
        }),
{
    if json {
        OutputFormat::Json
    } else if csv {
        OutputFormat::Csv
    } else {
        OutputFormat::Text
    }
}

/// The smallest file a directory scan analyses, in bytes.
pub const SCAN_MIN_BYTES: u64 = 64;

/// The largest file a directory scan analyses, in bytes.
pub const SCAN_MAX_BYTES: u64 = 80_000_000;

/// Whether a directory scan analyses a file of `len` bytes.
pub fn scan_accepts_size(len: u64) -> (r: bool)
    ensures
        r == (SCAN_MIN_BYTES <= len <= SCAN_MAX_BYTES),
{
    !(len < SCAN_MIN_BYTES || len > SCAN_MAX_BYTES)
}

/// The reports of a directory scan, highest risk score first; reports with
/// equal scores keep the order in which the files were found.
pub fn order_static_reports(reports: Vec<AnalysisReport>) -> (r: Vec<AnalysisReport>)
    ensures
        r@ == sort_by_rank(reports@),
{
    sort_by_risk(reports)
}

} // verus!
