//! Progress monitoring for a fleet of simulation nodes: parsing of progress
//! records, per-node progress tracking, time-to-completion estimates and their
//! median smoothing across polling cycles, and the per-cycle merge of each
//! node's probe outcome.

pub mod error;
pub mod eta;
pub mod monitor;
pub mod probe;
pub mod report;
pub mod store;
pub mod text;
pub mod types;

pub use error::MonitorError;
pub use eta::{calculate_median_eta, format_duration, parse_eta_to_minutes, EtaEstimate};
pub use monitor::{monitor_cycle, MonitorState, TaskOutcome};
pub use probe::{command_output, current_process, parse_csv_count, process_instance};
pub use types::{InstanceInfo, InstanceResults, ProbeReport, TimeStep};
