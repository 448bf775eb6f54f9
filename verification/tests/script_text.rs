use sbatchman::jobs::{Job, JobLog, LocalScheduler, serialize_log_entry, log_entry_line};
use sbatchman::script::{Cluster, ClusterConfig, Config, JsonVal, Scheduler, escape_for_printf};
use sbatchman::status::Status;

fn create_test_job(id: i64, directory: &str) -> Job {
    Job {
        id,
        job_name: format!("test_job_{}", id),
        config_id: 1,
        submit_time: Some(1000),
        directory: directory.to_string(),
        command: "echo 'Hello World'".to_string(),
        status: Status::Queued,
        job_id: None,
        end_time: None,
        preprocess: None,
        postprocess: None,
        archived: None,
        variables: Vec::new(),
    }
}

fn create_test_config(id: i64) -> Config {
    Config {
        id,
        config_name: "test_config".to_string(),
        cluster_id: 1,
        flags: Vec::new(),
        env: Vec::new(),
    }
}

fn create_test_cluster(id: i64) -> Cluster {
    Cluster {
        id,
        cluster_name: "test_cluster".to_string(),
        scheduler: Scheduler::Local,
        max_jobs: Some(10),
    }
}

#[test]
fn test_add_environment_variables_empty() {
    let mut script = String::new();
    let cluster = create_test_cluster(1);
    let config = create_test_config(1);
    let cluster_config = ClusterConfig::new(&cluster, &config);

    cluster_config.add_environment_variables(&mut script);
    assert!(script.is_empty());
}

#[test]
fn test_add_environment_variables_single() {
    let mut script = String::new();
    let cluster = create_test_cluster(1);
    let mut config = create_test_config(1);
    config.env = vec![("VAR1".to_string(), JsonVal::S("value1".to_string()))];
    let cluster_config = ClusterConfig::new(&cluster, &config);

    cluster_config.add_environment_variables(&mut script);
    assert!(script.contains("export VAR1=\"value1\""));
}

#[test]
fn test_add_environment_variables_multiple() {
    let mut script = String::new();
    let cluster = create_test_cluster(1);
    let mut config = create_test_config(1);
    config.env = vec![
        ("PATH".to_string(), JsonVal::S("/usr/bin:/bin".to_string())),
        ("PYTHONPATH".to_string(), JsonVal::S("/opt/python".to_string())),
        ("CUDA_VISIBLE_DEVICES".to_string(), JsonVal::S("0,1".to_string())),
    ];
    let cluster_config = ClusterConfig::new(&cluster, &config);

    cluster_config.add_environment_variables(&mut script);
    assert!(script.contains("export PATH=\"/usr/bin:/bin\""));
    assert!(script.contains("export PYTHONPATH=\"/opt/python\""));
    assert!(script.contains("export CUDA_VISIBLE_DEVICES=\"0,1\""));
}

#[test]
fn test_add_environment_variables_non_string_values_included() {
    let mut script = String::new();
    let cluster = create_test_cluster(1);
    let mut config = create_test_config(1);
    config.env = vec![
        ("STRING_VAR".to_string(), JsonVal::S("value".to_string())),
        ("NUMBER_VAR".to_string(), JsonVal::I(42)),
        ("BOOL_VAR".to_string(), JsonVal::B(true)),
    ];
    let cluster_config = ClusterConfig::new(&cluster, &config);

    cluster_config.add_environment_variables(&mut script);

    assert!(script.contains("export STRING_VAR=\"value\""));
    assert!(script.contains("export NUMBER_VAR=42"));
    assert!(script.contains("export BOOL_VAR=true"));
}

#[test]
fn test_add_job_commands_only_main() {
    let mut script = String::new();
    let job = create_test_job(1, "/tmp/jobs/1");

    job.add_job_commands(&mut script, None);

    assert!(script.contains("# Main command"));
    assert!(script.contains("echo 'Hello World'"));
    assert!(!script.contains("# Preprocessing"));
    assert!(!script.contains("# Postprocessing"));
}

#[test]
fn test_add_job_commands_with_preprocessing() {
    let mut script = String::new();
    let mut job = create_test_job(1, "/tmp/jobs/1");
    job.preprocess = Some("echo 'Starting preprocessing'".to_string());

    job.add_job_commands(&mut script, None);

    assert!(script.contains("# Preprocessing"));
    assert!(script.contains("echo 'Starting preprocessing'"));
    assert!(script.contains("# Main command"));
}

#[test]
fn test_add_job_commands_with_postprocessing() {
    let mut script = String::new();
    let mut job = create_test_job(1, "/tmp/jobs/1");
    job.postprocess = Some("echo 'Cleanup complete'".to_string());

    job.add_job_commands(&mut script, None);

    assert!(script.contains("# Main command"));
    assert!(script.contains("# Postprocessing"));
    assert!(script.contains("echo 'Cleanup complete'"));
}

#[test]
fn test_add_job_commands_full_pipeline() {
    let mut script = String::new();
    let mut job = create_test_job(1, "/tmp/jobs/1");
    job.preprocess = Some("echo 'Pre'".to_string());
    job.postprocess = Some("echo 'Post'".to_string());

    job.add_job_commands(&mut script, None);

    let pre_pos = script.find("echo 'Pre'").unwrap();
    let main_pos = script.find("echo 'Hello World'").unwrap();
    let post_pos = script.find("echo 'Post'").unwrap();

    assert!(pre_pos < main_pos);
    assert!(main_pos < post_pos);
}

#[test]
fn test_add_job_commands_empty_strings_ignored() {
    let mut script = String::new();
    let mut job = create_test_job(1, "/tmp/jobs/1");
    job.preprocess = Some("".to_string());
    job.postprocess = Some("".to_string());

    job.add_job_commands(&mut script, None);

    assert!(!script.contains("# Preprocessing"));
    assert!(!script.contains("# Postprocessing"));
    assert!(script.contains("# Main command"));
}

#[test]
fn test_add_job_commands_timeout_wrapper() {
    let mut script = String::new();
    let mut job = create_test_job(1, "/tmp/jobs/1");
    job.command = "sleep 10".to_string();

    job.add_job_commands(&mut script, Some(61));

    assert!(script.contains("timeout 61s sleep 10"));
    assert!(script.contains("SBM_EXIT_CODE=$?"));
}

#[test]
fn test_create_job_script_basic() {
    let job_dir = "/tmp/jobs/job1";
    let job = create_test_job(1, job_dir);
    let config = create_test_config(1);
    let cluster = create_test_cluster(1);

    let scheduler = LocalScheduler::new("/tmp/jobs/work_dir".to_string());
    let script = scheduler
        .create_job_script(&job, &ClusterConfig::new(&cluster, &config))
        .unwrap();

    assert!(script.starts_with("#!/bin/bash"));
    assert!(script.contains("# --- Metadata ---"));
    assert!(script.contains("# Set Working Directory\ncd \""));
    assert!(script.contains("/work_dir\""));
    assert!(script.contains("echo 'Hello World'"));
    assert!(script.contains("SBM_EXIT_CODE=$?"));
}

#[test]
fn test_create_job_script_with_environment() {
    let job_dir = "/tmp/jobs/job2";
    let job = create_test_job(2, job_dir);
    let mut config = create_test_config(1);
    config.env = vec![("TEST_VAR".to_string(), JsonVal::S("test_value".to_string()))];
    let cluster = create_test_cluster(1);

    let scheduler = LocalScheduler::new("/tmp/jobs".to_string());
    let script = scheduler
        .create_job_script(&job, &ClusterConfig::new(&cluster, &config))
        .unwrap();

    assert!(script.contains("export TEST_VAR=\"test_value\""));
}

#[test]
fn test_create_job_script_logs_lifecycle() {
    let job = create_test_job(3, "/tmp/jobs/job3");
    let mut config = create_test_config(1);
    config.flags = vec![("time".to_string(), JsonVal::S("00:00:01".to_string()))];
    let cluster = create_test_cluster(1);

    let scheduler = LocalScheduler::new("/tmp/jobs".to_string());
    let script = scheduler
        .create_job_script(&job, &ClusterConfig::new(&cluster, &config))
        .unwrap();

    // the script logs the Running transition and the captured exit code
    assert!(script.contains("\"Running\""));
    assert!(script.contains("SBM_EXIT_CODE"));
    assert!(script.contains(">> /tmp/jobs/job3/log.jsonb"));
    // the configured limit wraps the main command
    assert!(script.contains("timeout 1s echo 'Hello World'"));
    assert!(script.ends_with("exit \"${SBM_EXIT_CODE}\""));
}

#[test]
fn test_serialize_log_entry_status_update() {
    let line = serialize_log_entry(&JobLog::StatusUpdate(Status::Completed), &None);
    assert_eq!(
        line,
        "{\"data\":\"Completed\",\"timestamp\":\"__TIMESTAMP__\",\"type\":\"StatusUpdate\"}"
    );
}

#[test]
fn test_serialize_log_entry_bash_variable() {
    let line = serialize_log_entry(&JobLog::BashVariable("SBM_EXIT_CODE".to_string()), &None);
    assert_eq!(
        line,
        "{\"data\":{\"SBM_EXIT_CODE\":\"${SBM_EXIT_CODE}\"},\"timestamp\":\"__TIMESTAMP__\",\"type\":\"BashVariable\"}"
    );
}

#[test]
fn test_log_entry_line_variable() {
    let line = log_entry_line(
        &JobLog::Variable("PID".to_string(), "4242".to_string()),
        &None,
        "2025-10-28 09:40:12.366",
    );
    assert_eq!(
        line,
        "{\"data\":[\"PID\",\"4242\"],\"timestamp\":\"2025-10-28 09:40:12.366\",\"type\":\"Variable\"}"
    );
    // one line per entry: the rendered entry holds no newline
    assert!(!line.contains('\n'));
}

#[test]
fn test_log_entry_line_escapes_text() {
    let line = log_entry_line(
        &JobLog::Variable("MSG".to_string(), "a\"b\\c\nd".to_string()),
        &None,
        "2025-10-28 09:40:12.366",
    );
    assert!(line.contains("a\\\"b\\\\c\\nd"));
    assert!(!line.contains('\n'));
}

#[test]
fn test_escape_for_printf_quotes_and_expansions() {
    assert_eq!(escape_for_printf("plain"), "plain");
    assert_eq!(escape_for_printf("it's"), "it'\\''s");
    assert_eq!(escape_for_printf("a\\b"), "a\\\\b");
    assert_eq!(escape_for_printf("x${VAR}y"), "x'\"${VAR}\"'y");
    assert_eq!(escape_for_printf("$(date (now))"), "'\"$(date (now))\"'");
    assert_eq!(escape_for_printf("price $5"), "price $5");
    // an unterminated reference runs to the end of the text
    assert_eq!(escape_for_printf("${open"), "'\"${open");
}

#[test]
fn test_job_file_paths() {
    let job = create_test_job(1, "/tmp/jobs/abc");
    assert_eq!(job.get_log_path(), "/tmp/jobs/abc/log.jsonb");
    assert_eq!(job.get_script_path(), "/tmp/jobs/abc/job.sh");
    assert_eq!(job.get_stdout_path(), "/tmp/jobs/abc/stdout.log");
    assert_eq!(job.get_stderr_path(), "/tmp/jobs/abc/stderr.log");
}

#[test]
fn test_metadata_entry_round_trips_binding() {
    let mut job = create_test_job(99, "/tmp/jobs/r");
    job.variables = vec![
        ("experiment".to_string(), "test".to_string()),
        ("seed".to_string(), "42".to_string()),
    ];
    let line = serialize_log_entry(&JobLog::Metadata(job), &None);
    assert!(line.contains("\"variables\":{\"experiment\":\"test\",\"seed\":\"42\"}"));
    assert!(line.contains("\"command\":\"echo 'Hello World'\""));
    assert!(line.contains("\"type\":\"Metadata\""));
}
