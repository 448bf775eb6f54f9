use sbatchman::appcfg::{SbatchmanConfig, get_cluster_name};
use sbatchman::dispatch::plan_launches;
use sbatchman::errors::JobError;
use sbatchman::jobs::{LocalScheduler, PbsScheduler, SlurmScheduler, VirtualScheduler};
use sbatchman::script::{Config, find_config_by_name};
use sbatchman::status::{Status, classify_exit};

#[test]
fn test_get_number_of_enqueued_jobs_always_zero() {
    let scheduler = LocalScheduler::new(".".to_string());
    let result = scheduler.get_number_of_enqueued_jobs().unwrap();
    assert_eq!(result, 0);
}

#[test]
fn test_stub_schedulers_report_empty_queues() {
    assert_eq!(SlurmScheduler.get_number_of_enqueued_jobs().unwrap(), 0);
    assert_eq!(PbsScheduler.get_number_of_enqueued_jobs().unwrap(), 0);
    assert_eq!(VirtualScheduler.get_number_of_enqueued_jobs().unwrap(), 0);
}

#[test]
fn test_classify_exit_success() {
    assert_eq!(classify_exit(Some(0), false), Status::Completed);
    assert_eq!(classify_exit(Some(0), true), Status::Completed);
}

#[test]
fn test_classify_exit_failure_code() {
    // a command ending with exit code 7 fails, and 7 is not a timeout
    assert_eq!(classify_exit(Some(7), false), Status::Failed);
    assert_eq!(classify_exit(Some(7), true), Status::Failed);
    assert_eq!(classify_exit(Some(1), false), Status::Failed);
}

#[test]
fn test_classify_exit_timeout_sentinel() {
    // the wrapper's sentinel counts as a timeout only under a wrapper
    assert_eq!(classify_exit(Some(124), true), Status::Timeout);
    assert_eq!(classify_exit(Some(124), false), Status::Failed);
}

#[test]
fn test_classify_exit_missing_code() {
    assert_eq!(classify_exit(None, false), Status::FailedSubmission);
    assert_eq!(classify_exit(None, true), Status::FailedSubmission);
}

#[test]
fn test_status_names() {
    assert_eq!(Status::Created.as_str(), "Created");
    assert_eq!(Status::Running.as_str(), "Running");
    assert_eq!(Status::Completed.as_str(), "Completed");
    assert_eq!(Status::Failed.as_str(), "Failed");
    assert_eq!(Status::Timeout.as_str(), "Timeout");
    assert_eq!(Status::FailedSubmission.as_str(), "FailedSubmission");
    assert_eq!(Status::VirtualQueue.as_str(), "VirtualQueue");
    assert_eq!(Status::Queued.as_str(), "Queued");
}

#[test]
fn test_status_terminality() {
    assert!(Status::Completed.is_finished());
    assert!(Status::Failed.is_finished());
    assert!(Status::Timeout.is_finished());
    assert!(Status::FailedSubmission.is_finished());
    assert!(!Status::Created.is_finished());
    assert!(!Status::Running.is_finished());
    assert!(!Status::Queued.is_finished());
    assert!(!Status::VirtualQueue.is_finished());
}

#[test]
fn test_plan_launches_with_cap() {
    // room for three more: five jobs split into three now, two deferred
    assert_eq!(plan_launches(5, Some(10), 7), 3);
    // cap already reached: everything is deferred
    assert_eq!(plan_launches(5, Some(10), 10), 0);
    // queue over the cap: saturating room, nothing launches
    assert_eq!(plan_launches(5, Some(10), 12), 0);
    // plenty of room: the whole batch launches
    assert_eq!(plan_launches(5, Some(10), 0), 5);
}

#[test]
fn test_plan_launches_without_cap() {
    assert_eq!(plan_launches(5, None, 7), 5);
    assert_eq!(plan_launches(0, None, 0), 0);
}

#[test]
fn test_cluster_name_layering() {
    let global = SbatchmanConfig { cluster_name: Some("global_cluster".to_string()) };
    let local = SbatchmanConfig { cluster_name: Some("local_cluster".to_string()) };
    let neither = SbatchmanConfig { cluster_name: None };

    // the local layer overrides the global one
    assert_eq!(get_cluster_name(&global, &local), Some("local_cluster".to_string()));
    assert_eq!(get_cluster_name(&global, &neither), Some("global_cluster".to_string()));
    assert_eq!(get_cluster_name(&neither, &neither), None);
}

#[test]
fn test_set_cluster_name_roundtrip() {
    let mut cfg = SbatchmanConfig { cluster_name: None };
    cfg.set_cluster_name("test_cluster");
    assert_eq!(cfg.cluster_name, Some("test_cluster".to_string()));
}

#[test]
fn test_find_config_by_name() {
    let configs = vec![
        Config {
            id: 1,
            config_name: "cpu".to_string(),
            cluster_id: 1,
            flags: Vec::new(),
            env: Vec::new(),
        },
        Config {
            id: 2,
            config_name: "gpu".to_string(),
            cluster_id: 1,
            flags: Vec::new(),
            env: Vec::new(),
        },
    ];
    let found = find_config_by_name(&configs, &"gpu".to_string()).unwrap();
    assert_eq!(found.id, 2);

    match find_config_by_name(&configs, &"tpu".to_string()) {
        Err(JobError::ConfigNotFound(name)) => {
            assert_eq!(name, "tpu");
            assert_eq!(
                JobError::ConfigNotFound(name).message(),
                "Config 'tpu' not found for cluster"
            );
        }
        other => panic!("expected a missing-config error, got {:?}", other),
    }
}
