use vstd::prelude::*;

use crate::numfmt::dec_u64;
use crate::numfmt::spec_dec;
use crate::platform::host_name;
use crate::platform::project_config_dir;
use crate::platform::project_data_dir;
use crate::util::opt_str_view;
use crate::util::strs_view;
use vstd::string::StringExecFns;

verus! {

/// The pairwise views of a sequence of string pairs.
pub open spec fn pairs_view(v: Seq<(String, String)>) -> Seq<(Seq<char>, Seq<char>)> {
    Seq::new(v.len(), |i: int| (v[i].0@, v[i].1@))
}

/// Configuration of the runner agent: where it reports, how it
/// identifies itself, and how it schedules its work.
#[derive(Debug, PartialEq, Eq)]
pub struct RunnerConfig {
    pub orchestrator_url: Option<String>,
    pub api_key: Option<String>,
    pub runner_id: Option<String>,
    pub runner_name: String,
    pub labels: Vec<(String, String)>,
    pub capabilities: Vec<String>,
    pub poll_interval: u32,
    pub heartbeat_interval: u32,
    pub job_timeout: u32,
    pub work_dir: String,
    pub auto_start_service: bool,
    pub start_minimized: bool,
}

/// The mathematical abstraction of a `RunnerConfig`.
#[verifier::ext_equal]
pub ghost struct ConfigModel {
    pub orchestrator_url: Option<Seq<char>>,
    pub api_key: Option<Seq<char>>,
    pub runner_id: Option<Seq<char>>,
    pub runner_name: Seq<char>,
    pub labels: Seq<(Seq<char>, Seq<char>)>,
    pub capabilities: Seq<Seq<char>>,
    pub poll_interval: u32,
    pub heartbeat_interval: u32,
    pub job_timeout: u32,
    pub work_dir: Seq<char>,
    pub auto_start_service: bool,
    pub start_minimized: bool,
}

impl View for RunnerConfig {
    type V = ConfigModel;

    open spec fn view(&self) -> ConfigModel {
        ConfigModel {
            orchestrator_url: opt_str_view(self.orchestrator_url),
            api_key: opt_str_view(self.api_key),
            runner_id: opt_str_view(self.runner_id),
            runner_name: self.runner_name@,
            labels: pairs_view(self.labels@),
            capabilities: strs_view(self.capabilities@),
            poll_interval: self.poll_interval,
            heartbeat_interval: self.heartbeat_interval,
            job_timeout: self.job_timeout,
            work_dir: self.work_dir@,
            auto_start_service: self.auto_start_service,
            start_minimized: self.start_minimized,
        }
    }
}

impl Default for RunnerConfig {
    /// The out-of-the-box configuration.  The runner name and working
    /// directory come from platform probes (host name and the
    /// platform-specific data directory) and cannot be pinned down;
    /// everything else is fixed.
    fn default() -> (r: RunnerConfig)
        ensures
            r@.orchestrator_url is None,
            r@.api_key is None,
            r@.runner_id is None,
            r@.labels == Seq::<(Seq<char>, Seq<char>)>::empty(),
            r@.capabilities == seq!["web"@, "desktop"@, "office"@],
            r@.poll_interval == 5,
            r@.heartbeat_interval == 30,
            r@.job_timeout == 3600,
            r@.auto_start_service,
            !r@.start_minimized,
    {
        let runner_name = match host_name() {
            Some(h) => h,
            None => String::from_str("runner"),
        };
        let work_dir = match project_data_dir("com", "khipus", "skuldbot-runner") {
            Some(d) => d,
            None => String::from_str("."),
        };
        let mut capabilities: Vec<String> = Vec::new();
        capabilities.push(String::from_str("web"));
        capabilities.push(String::from_str("desktop"));
        capabilities.push(String::from_str("office"));
        let r = RunnerConfig {
            orchestrator_url: None,
            api_key: None,
            runner_id: None,
            runner_name,
            labels: Vec::new(),
            capabilities,
            poll_interval: 5,
            heartbeat_interval: 30,
            job_timeout: 3600,
            work_dir,
            auto_start_service: true,
            start_minimized: false,
        };
        proof {
            assert(r@.capabilities =~= seq!["web"@, "desktop"@, "office"@]);
            assert(r@.labels =~= Seq::<(Seq<char>, Seq<char>)>::empty());
        }
        r
    }
}

/// The environment handed to the runner service process: the configured
/// orchestrator endpoint and credentials (where present), then the
/// runner's name, intervals, timeout and working directory.
pub open spec fn spec_runner_env(c: ConfigModel) -> Seq<(Seq<char>, Seq<char>)> {
    (match c.orchestrator_url {
        Some(u) => seq![("SKULDBOT_ORCHESTRATOR_URL"@, u)],
        None => Seq::<(Seq<char>, Seq<char>)>::empty(),
    }) + (match c.api_key {
        Some(k) => seq![("SKULDBOT_API_KEY"@, k)],
        None => Seq::<(Seq<char>, Seq<char>)>::empty(),
    }) + seq![
        ("SKULDBOT_RUNNER_NAME"@, c.runner_name),
        ("SKULDBOT_POLL_INTERVAL"@, spec_dec(c.poll_interval as nat)),
        ("SKULDBOT_HEARTBEAT_INTERVAL"@, spec_dec(c.heartbeat_interval as nat)),
        ("SKULDBOT_JOB_TIMEOUT"@, spec_dec(c.job_timeout as nat)),
        ("SKULDBOT_WORK_DIR"@, c.work_dir),
    ]
}

/// Compute the environment variables for starting the runner service.
/// The caller applies them to the spawned process.
pub fn runner_env(config: &RunnerConfig) -> (r: Vec<(String, String)>)
    ensures
        pairs_view(r@) == spec_runner_env(config@),
{
    let mut out: Vec<(String, String)> = Vec::new();
    match &config.orchestrator_url {
        Some(u) => {
            out.push((String::from_str("SKULDBOT_ORCHESTRATOR_URL"), u.clone()));
        },
        None => {},
    }
    match &config.api_key {
        Some(k) => {
            out.push((String::from_str("SKULDBOT_API_KEY"), k.clone()));
        },
        None => {},
    }
    out.push((String::from_str("SKULDBOT_RUNNER_NAME"), config.runner_name.clone()));
    out.push((String::from_str("SKULDBOT_POLL_INTERVAL"), dec_u64(config.poll_interval as u64)));
    out.push((
        String::from_str("SKULDBOT_HEARTBEAT_INTERVAL"),
        dec_u64(config.heartbeat_interval as u64),
    ));
    out.push((String::from_str("SKULDBOT_JOB_TIMEOUT"), dec_u64(config.job_timeout as u64)));
    out.push((String::from_str("SKULDBOT_WORK_DIR"), config.work_dir.clone()));
    proof {
        assert(pairs_view(out@) =~= spec_runner_env(config@));
    }
    out
}

/// The configuration file path inside a configuration directory.
pub fn config_file_in(dir: &str) -> (r: String)
    ensures
        r@ == dir@ + "/config.json"@,
{
    let mut s = String::from_str(dir);
    s.append("/config.json");
    s
}

/// The runner's configuration file path: the platform configuration
/// directory (or the current directory where none is known) joined with
/// the configuration file name.
pub fn get_config_path() -> (r: String)
    ensures
        exists|dir: Seq<char>| r@ == dir + "/config.json"@,
{
    let dir = match project_config_dir("com", "khipus", "skuldbot-runner") {
        Some(d) => d,
        None => String::from_str("."),
    };
    let r = config_file_in(dir.as_str());
    proof {
        assert(r@ == dir@ + "/config.json"@);
    }
    r
}

} // verus!
