use sbatchman::jobs::Job;
use sbatchman::pyexpr::PythonEvaluator;
use sbatchman::script::{Cluster, ClusterConfig, Config, Scheduler};
use sbatchman::vars::{CompleteVar, Scalar, Variable};

fn expr_variable(name: &str, contents: CompleteVar) -> Variable {
    Variable { name: name.to_string(), contents }
}

fn expr_cluster_config() -> (Cluster, Config) {
    (
        Cluster {
            id: 1,
            cluster_name: "test_cluster".to_string(),
            scheduler: Scheduler::Local,
            max_jobs: Some(10),
        },
        Config {
            id: 1,
            config_name: "test_config".to_string(),
            cluster_id: 1,
            flags: Vec::new(),
            env: Vec::new(),
        },
    )
}

#[test]
fn test_evaluate_without_expressions_is_identity() {
    let text = "nothing to do here ${UNTOUCHED}".to_string();
    assert_eq!(PythonEvaluator::evaluate(&text, &None), text);
}

#[test]
fn test_python_evaluation_simple() {
    let (cl, cf) = expr_cluster_config();
    let cluster = ClusterConfig::new(&cl, &cf);
    let variables = vec![
        expr_variable("FROM", CompleteVar::Scalar(Scalar::Int(0))),
        expr_variable("TO", CompleteVar::Scalar(Scalar::Int(3))),
    ];

    let jobs = Job::generate_from(
        &cluster,
        &variables,
        "@py [str(v) for v in range(${FROM}, ${TO})]".to_string(),
        None,
        None,
        None,
    );

    assert_eq!(jobs.len(), 1);
    assert_eq!(jobs[0].command, "['0', '1', '2']");
}

#[test]
fn test_python_with_header() {
    let (cl, cf) = expr_cluster_config();
    let cluster = ClusterConfig::new(&cl, &cf);
    let variables = vec![expr_variable("VAL", CompleteVar::Scalar(Scalar::Int(5)))];

    let header = "def double(x): return x * 2".to_string();

    let jobs = Job::generate_from(
        &cluster,
        &variables,
        "@py double(${VAL})".to_string(),
        None,
        None,
        Some(header),
    );

    assert_eq!(jobs.len(), 1);
    assert_eq!(jobs[0].command, "10");
}

#[test]
fn test_multiple_python_expressions() {
    let (cl, cf) = expr_cluster_config();
    let cluster = ClusterConfig::new(&cl, &cf);
    let variables = vec![expr_variable("N", CompleteVar::Scalar(Scalar::Int(3)))];

    let jobs = Job::generate_from(
        &cluster,
        &variables,
        "@py ${N} * 2 @py ${N} + 1".to_string(),
        None,
        None,
        None,
    );

    assert_eq!(jobs.len(), 1);
    assert_eq!(jobs[0].command, "6 4");
}

#[test]
fn test_failed_expression_leaves_span_unchanged() {
    let text = "@py this is not valid python (".to_string();
    assert_eq!(PythonEvaluator::evaluate(&text, &None), text);
}
