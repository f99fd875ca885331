use vstd::prelude::*;

use crate::config::RunnerConfig;
use crate::util::dup_opt_string;
use crate::util::opt_str_view;

verus! {

/// A point-in-time report on the runner service.
#[derive(Debug, PartialEq, Eq)]
pub struct RunnerStatus {
    pub running: bool,
    pub pid: Option<u32>,
    pub runner_id: Option<String>,
    pub orchestrator_connected: bool,
    pub current_job: Option<String>,
    pub jobs_completed: u32,
    pub jobs_failed: u32,
    pub uptime_seconds: u64,
}

/// The mathematical abstraction of a `RunnerStatus`.
#[verifier::ext_equal]
pub ghost struct StatusModel {
    pub running: bool,
    pub pid: Option<u32>,
    pub runner_id: Option<Seq<char>>,
    pub orchestrator_connected: bool,
    pub current_job: Option<Seq<char>>,
    pub jobs_completed: u32,
    pub jobs_failed: u32,
    pub uptime_seconds: u64,
}

impl View for RunnerStatus {
    type V = StatusModel;

    open spec fn view(&self) -> StatusModel {
        StatusModel {
            running: self.running,
            pid: self.pid,
            runner_id: opt_str_view(self.runner_id),
            orchestrator_connected: self.orchestrator_connected,
            current_job: opt_str_view(self.current_job),
            jobs_completed: self.jobs_completed,
            jobs_failed: self.jobs_failed,
            uptime_seconds: self.uptime_seconds,
        }
    }
}

/// One line of runner service output.
#[derive(Debug, PartialEq, Eq)]
pub struct LogEntry {
    pub timestamp: String,
    pub level: String,
    pub message: String,
    pub node_id: Option<String>,
    pub run_id: Option<String>,
}

/// The mathematical abstraction of a `LogEntry`.
#[verifier::ext_equal]
pub ghost struct LogEntryModel {
    pub timestamp: Seq<char>,
    pub level: Seq<char>,
    pub message: Seq<char>,
    pub node_id: Option<Seq<char>>,
    pub run_id: Option<Seq<char>>,
}

impl View for LogEntry {
    type V = LogEntryModel;

    open spec fn view(&self) -> LogEntryModel {
        LogEntryModel {
            timestamp: self.timestamp@,
            level: self.level@,
            message: self.message@,
            node_id: opt_str_view(self.node_id),
            run_id: opt_str_view(self.run_id),
        }
    }
}

/// Assemble a status report from the configuration and the process
/// probes (run state, pid, counters and uptime, read by the caller).
/// The runner counts as connected when both an orchestrator endpoint and
/// an API key are configured.
pub fn get_status(
    config: &RunnerConfig,
    running: bool,
    pid: Option<u32>,
    jobs_completed: u32,
    jobs_failed: u32,
    uptime_seconds: u64,
) -> (r: RunnerStatus)
    ensures
        r@ == (StatusModel {
            running,
            pid,
            runner_id: config@.runner_id,
            orchestrator_connected: config@.orchestrator_url is Some && config@.api_key is Some,
            current_job: None,
            jobs_completed,
            jobs_failed,
            uptime_seconds,
        }),
{
    let orchestrator_connected = config.orchestrator_url.is_some() && config.api_key.is_some();
    RunnerStatus {
        running,
        pid,
        runner_id: dup_opt_string(&config.runner_id),
        orchestrator_connected,
        current_job: None,
        jobs_completed,
        jobs_failed,
        uptime_seconds,
    }
}

} // verus!
