use skuldbot::config::get_config_path;
use skuldbot::config::runner_env;
use skuldbot::config::RunnerConfig;
use skuldbot::errors::DebugError;
use skuldbot::graph::EdgeDef;
use skuldbot::graph::FlowGraph;
use skuldbot::graph::FlowNode;
use skuldbot::license::protection_validate_binary_license;
use skuldbot::license::validate_license;
use skuldbot::license::validate_license_at;
use skuldbot::license::License;
use skuldbot::license::LicenseType;
use skuldbot::numfmt::dec_u64;
use skuldbot::numfmt::hex16_u64;
use skuldbot::protect::machine_fingerprint;
use skuldbot::protect::run_protection_checks;
use skuldbot::protect::status_reports_tracer;
use skuldbot::protect::SecureStorage;
use skuldbot::runner_info::get_status;
use skuldbot::secrets::SecretsIndex;
use skuldbot::studio::add_recent_project;
use skuldbot::studio::bot_directory;
use skuldbot::studio::extract_json_array;
use skuldbot::studio::remove_recent_project;
use skuldbot::studio::sort_versions_desc;
use skuldbot::studio::RecentProject;
use skuldbot::studio::VersionInfo;
use skuldbot::util::str_eq;
use skuldbot::value::Value;
use skuldbot::vars::VarMap;

fn sample_license() -> License {
    License {
        license_key: "STUDIO-1234".to_string(),
        license_type: LicenseType::Professional,
        organization: "Acme".to_string(),
        max_runners: 12,
        expires_at: Some(2_000_000),
        features: vec!["flowEditor".to_string(), "localExecution".to_string()],
        signature: String::new(),
    }
}

#[test]
fn signed_license_is_valid_until_expiry() {
    let mut license = sample_license();
    let payload = license.payload();
    license.signature = license.compute_signature(&payload);
    assert!(license.verify_signature());
    assert!(license.is_valid_at(1_999_999));
    assert!(license.is_valid_at(2_000_000));
    assert!(!license.is_valid_at(2_000_001));
}

#[test]
fn tampered_license_is_rejected() {
    let mut license = sample_license();
    let payload = license.payload();
    license.signature = license.compute_signature(&payload);
    license.organization = "Mallory".to_string();
    assert!(!license.verify_signature());
    assert!(!license.is_valid_at(0));
}

#[test]
fn license_payload_is_colon_separated() {
    let license = sample_license();
    assert_eq!(
        license.payload(),
        "STUDIO-1234:Acme:12:2000000:flowEditor,localExecution"
    );
}

#[test]
fn signature_is_sixteen_hex_digits() {
    let license = sample_license();
    let sig = license.compute_signature("payload");
    assert_eq!(sig.len(), 16);
    assert!(sig.chars().all(|c| c.is_ascii_hexdigit()));
    assert_eq!(sig, license.compute_signature("payload"));
}

#[test]
fn has_feature_finds_exact_names() {
    let license = sample_license();
    assert!(license.has_feature("flowEditor"));
    assert!(!license.has_feature("aiPlanner"));
}

#[test]
fn validate_license_classifies_prefixes() {
    let r = validate_license_at("studio-abc", "2031-01-01T00:00:00+00:00".to_string());
    assert!(r.valid);
    assert_eq!(r.module, "studio");
    assert!(r.features.contains(&"flowEditor".to_string()));
    assert_eq!(r.expires_at, "2031-01-01T00:00:00+00:00");
    assert_eq!(r.error, None);

    let r = validate_license_at("SKULDAI-xyz", String::new());
    assert_eq!(r.module, "skuldai");

    let r = validate_license_at("nonsense", "ignored".to_string());
    assert!(!r.valid);
    assert_eq!(r.module, "");
    assert!(r.features.is_empty());
    assert_eq!(r.expires_at, "");
    assert_eq!(r.error, Some("Invalid license key format".to_string()));
}

#[test]
fn validate_license_stamps_an_expiry() {
    let r = validate_license("DEMO-2024");
    assert!(r.valid);
    assert_eq!(r.module, "studio");
    assert!(!r.expires_at.is_empty());
    assert!(!validate_license("bogus").valid);
}

#[test]
fn binary_trial_license_lasts_thirty_days() {
    let license = protection_validate_binary_license("KEY-1".to_string(), 1_000).unwrap();
    assert_eq!(license.license_type, LicenseType::Trial);
    assert_eq!(license.organization, "Trial User");
    assert_eq!(license.max_runners, 1);
    assert_eq!(license.expires_at, Some(1_000 + 30 * 24 * 60 * 60));
    assert_eq!(license.features, vec!["basic".to_string()]);
}

#[test]
fn storage_round_trips_data() {
    let storage = SecureStorage::new("machine-1");
    let data = b"top secret".to_vec();
    let encrypted = storage.encrypt(&data);
    assert_ne!(encrypted, data);
    assert_eq!(storage.decrypt(&encrypted), data);
}

#[test]
fn storage_key_depends_on_machine() {
    let a = SecureStorage::new("machine-1");
    let b = SecureStorage::new("machine-2");
    let data = b"payload".to_vec();
    assert_ne!(a.encrypt(&data), b.encrypt(&data));
    assert_eq!(a.encrypt(&data), SecureStorage::new("machine-1").encrypt(&data));
}

#[test]
fn protection_checks_report_first_failure() {
    assert_eq!(
        run_protection_checks(true, Ok(true)),
        Err("Debugger detected".to_string())
    );
    assert_eq!(
        run_protection_checks(false, Ok(false)),
        Err("Binary integrity check failed".to_string())
    );
    assert_eq!(
        run_protection_checks(false, Err("probe lost".to_string())),
        Err("probe lost".to_string())
    );
    assert_eq!(run_protection_checks(false, Ok(true)), Ok(()));
}

#[test]
fn tracer_detection_reads_status_lines() {
    let clean = "Name:\tapp\nState:\tS (sleeping)\nTracerPid:\t0\nUid:\t1000\n";
    assert!(!status_reports_tracer(clean));
    let traced = "Name:\tapp\nTracerPid:\t4242\nUid:\t1000\n";
    assert!(status_reports_tracer(traced));
    // the field name only counts at the start of a line
    assert!(!status_reports_tracer("NotTheTracerPid: 7\n"));
    assert!(!status_reports_tracer(""));
    assert!(status_reports_tracer("TracerPid: 007"));
}

#[test]
fn fingerprint_is_stable_hex() {
    let f1 = machine_fingerprint("machine-1", "host-a");
    let f2 = machine_fingerprint("machine-1", "host-a");
    assert_eq!(f1, f2);
    assert_eq!(f1.len(), 16);
    assert!(f1.chars().all(|c| c.is_ascii_hexdigit()));
    assert_ne!(f1, machine_fingerprint("machine-1", "host-b"));
}

#[test]
fn numbers_format_exactly() {
    assert_eq!(dec_u64(0), "0");
    assert_eq!(dec_u64(42), "42");
    assert_eq!(dec_u64(9_876_543_210), "9876543210");
    assert_eq!(hex16_u64(0), "0000000000000000");
    assert_eq!(hex16_u64(0x1234_ABCD_EF00_5678), "1234abcdef005678");
    assert_eq!(hex16_u64(u64::MAX), "ffffffffffffffff");
}

#[test]
fn default_config_has_documented_values() {
    let config = RunnerConfig::default();
    assert_eq!(config.orchestrator_url, None);
    assert_eq!(config.api_key, None);
    assert_eq!(config.runner_id, None);
    assert!(config.labels.is_empty());
    assert_eq!(
        config.capabilities,
        vec!["web".to_string(), "desktop".to_string(), "office".to_string()]
    );
    assert_eq!(config.poll_interval, 5);
    assert_eq!(config.heartbeat_interval, 30);
    assert_eq!(config.job_timeout, 3600);
    assert!(config.auto_start_service);
    assert!(!config.start_minimized);
}

#[test]
fn runner_env_lists_configured_values() {
    let mut config = RunnerConfig::default();
    config.orchestrator_url = Some("https://orch.example".to_string());
    config.runner_name = "runner-7".to_string();
    config.work_dir = "/work".to_string();
    let env = runner_env(&config);
    assert_eq!(
        env[0],
        (
            "SKULDBOT_ORCHESTRATOR_URL".to_string(),
            "https://orch.example".to_string()
        )
    );
    assert!(env.contains(&("SKULDBOT_RUNNER_NAME".to_string(), "runner-7".to_string())));
    assert!(env.contains(&("SKULDBOT_POLL_INTERVAL".to_string(), "5".to_string())));
    assert!(env.contains(&("SKULDBOT_WORK_DIR".to_string(), "/work".to_string())));
    // no API key configured, so none is exported
    assert!(env.iter().all(|(k, _)| k != "SKULDBOT_API_KEY"));
}

#[test]
fn config_path_ends_with_file_name() {
    assert!(get_config_path().ends_with("/config.json"));
}

#[test]
fn runner_status_reports_connection() {
    let mut config = RunnerConfig::default();
    let status = get_status(&config, false, None, 3, 1, 60);
    assert!(!status.orchestrator_connected);
    assert_eq!(status.jobs_completed, 3);
    assert_eq!(status.jobs_failed, 1);
    assert_eq!(status.uptime_seconds, 60);
    config.orchestrator_url = Some("https://orch.example".to_string());
    config.api_key = Some("runner-key".to_string());
    let status = get_status(&config, true, Some(42), 0, 0, 0);
    assert!(status.orchestrator_connected);
    assert_eq!(status.pid, Some(42));
}

#[test]
fn secrets_index_tracks_metadata() {
    let mut index = SecretsIndex::new();
    assert!(!index.has_secret("db"));
    index.set_secret(
        "db".to_string(),
        Some("database password".to_string()),
        "t1".to_string(),
    );
    assert!(index.has_secret("db"));
    let listed = index.list_secrets();
    assert_eq!(listed.len(), 1);
    assert_eq!(listed[0].name, "db");
    assert_eq!(listed[0].created_at, "t1");
    assert_eq!(listed[0].updated_at, "t1");

    // updating keeps the creation time and the old description
    index.set_secret("db".to_string(), None, "t2".to_string());
    let listed = index.list_secrets();
    assert_eq!(listed[0].created_at, "t1");
    assert_eq!(listed[0].updated_at, "t2");
    assert_eq!(listed[0].description, Some("database password".to_string()));

    index.delete_secret("db");
    assert!(!index.has_secret("db"));
    assert_eq!(index.list_secrets().len(), 0);
}

#[test]
fn var_map_overwrites_in_place() {
    let mut vars = VarMap::new();
    vars.set("a".to_string(), Value::Int(1));
    vars.set("b".to_string(), Value::Bool(true));
    vars.set("a".to_string(), Value::Int(2));
    assert_eq!(vars.len(), 2);
    assert_eq!(vars.get("a"), Some(&Value::Int(2)));
    assert_eq!(vars.get("b"), Some(&Value::Bool(true)));
    assert_eq!(vars.get("c"), None);
    assert_eq!(vars.entries[0].0, "a");
}

#[test]
fn value_duplicate_is_deep() {
    let v = Value::Obj(vec![
        ("list".to_string(), Value::List(vec![Value::Int(1), Value::Null])),
        ("s".to_string(), Value::Str("x".to_string())),
    ]);
    assert_eq!(v.duplicate(), v);
}

#[test]
fn graph_lookup_errors_name_the_node() {
    let graph = FlowGraph {
        nodes: vec![FlowNode {
            id: "A".to_string(),
            node_type: "task".to_string(),
            label: "A".to_string(),
            config: Value::Null,
            output_edges: vec![EdgeDef {
                outcome: "success".to_string(),
                target: None,
            }],
        }],
    };
    assert!(graph.resolve("A").is_ok());
    assert_eq!(
        graph.resolve("Z").unwrap_err(),
        DebugError::UnknownNode("Z".to_string())
    );
    assert_eq!(graph.next_node("A", "success").unwrap(), None);
    assert_eq!(graph.next_node("A", "other").unwrap(), None);
}

#[test]
fn string_equality_is_exact() {
    assert!(str_eq("abc", "abc"));
    assert!(!str_eq("abc", "abd"));
    assert!(!str_eq("abc", "ab"));
    assert!(str_eq("", ""));
}

#[test]
fn recent_projects_rotate_and_dedup() {
    let mut recent: Vec<RecentProject> = Vec::new();
    for i in 0..12 {
        recent = add_recent_project(
            &recent,
            &format!("/p{}", i),
            &format!("p{}", i),
            format!("t{}", i),
        );
    }
    assert_eq!(recent.len(), 10);
    assert_eq!(recent[0].path, "/p11");
    // re-opening an old project moves it to the front without duplication
    recent = add_recent_project(&recent, "/p5", "p5", "t99".to_string());
    assert_eq!(recent[0].path, "/p5");
    assert_eq!(recent[0].last_opened, "t99");
    assert_eq!(recent.iter().filter(|r| r.path == "/p5").count(), 1);
    let removed = remove_recent_project(&recent, "/p5");
    assert!(removed.iter().all(|r| r.path != "/p5"));
    assert_eq!(removed.len(), recent.len() - 1);
}

#[test]
fn json_array_extraction_matches_brackets() {
    assert_eq!(
        extract_json_array("Here is the plan: [1, 2, 3] Enjoy!"),
        "[1, 2, 3]"
    );
    assert_eq!(extract_json_array("no array here"), "no array here");
    assert_eq!(extract_json_array("[\"a\"]"), "[\"a\"]");
}

#[test]
fn version_listing_sorts_newest_first() {
    let entry = |id: &str, ts: &str| VersionInfo {
        id: id.to_string(),
        timestamp: ts.to_string(),
        description: None,
    };
    let versions = vec![
        entry("v1", "2024-01-02T10:00:00"),
        entry("v2", "2024-03-01T09:30:00"),
        entry("v3", "2023-12-31T23:59:59"),
        entry("v4", "2024-03-01T09:30:00"),
    ];
    let sorted = sort_versions_desc(versions);
    let stamps: Vec<&str> = sorted.iter().map(|v| v.timestamp.as_str()).collect();
    assert_eq!(
        stamps,
        vec![
            "2024-03-01T09:30:00",
            "2024-03-01T09:30:00",
            "2024-01-02T10:00:00",
            "2023-12-31T23:59:59",
        ]
    );
    let mut ids: Vec<&str> = sorted.iter().map(|v| v.id.as_str()).collect();
    ids.sort();
    assert_eq!(ids, vec!["v1", "v2", "v3", "v4"]);
}

#[test]
fn bot_directory_is_slugged() {
    assert_eq!(bot_directory("My First Bot"), "bots/my-first-bot");
}
