use sbatchman::cart::{CartesianGenerator, VariableResolver};
use sbatchman::graph::DependencyGraph;
use sbatchman::jobs::Job;
use sbatchman::refs::get_variables_dependency;
use sbatchman::script::{Cluster, ClusterConfig, Config, Scheduler};
use sbatchman::vars::{BasicVar, ClusterMap, CompleteVar, Scalar, Variable, scalar_to_string};

fn test_variable(name: &str, contents: CompleteVar) -> Variable {
    Variable { name: name.to_string(), contents }
}

fn create_test_config(id: i64) -> Config {
    Config {
        id,
        config_name: "test_config".to_string(),
        cluster_id: 1,
        flags: Vec::new(),
        env: Vec::new(),
    }
}

fn create_test_cluster(id: i64) -> Cluster {
    Cluster {
        id,
        cluster_name: "test_cluster".to_string(),
        scheduler: Scheduler::Local,
        max_jobs: Some(10),
    }
}

fn generate(
    cluster: &ClusterConfig,
    variables: &Vec<Variable>,
    command: &str,
    preprocess: Option<&str>,
    postprocess: Option<&str>,
    header: Option<&str>,
) -> Vec<Job> {
    Job::generate_from(
        cluster,
        variables,
        command.to_string(),
        preprocess.map(|s| s.to_string()),
        postprocess.map(|s| s.to_string()),
        header.map(|s| s.to_string()),
    )
}

#[test]
fn test_get_variables_dependency_simple() {
    let s = String::from("Hello ${NAME}");
    let deps = get_variables_dependency(&s);
    assert_eq!(deps, Some(vec!["NAME".to_string()]));
}

#[test]
fn test_get_variables_dependency_multiple() {
    let s = String::from("${VAR1} and ${VAR2} and ${VAR3}");
    let deps = get_variables_dependency(&s);
    assert_eq!(
        deps,
        Some(vec!["VAR1".to_string(), "VAR2".to_string(), "VAR3".to_string()])
    );
}

#[test]
fn test_get_variables_dependency_none() {
    let s = String::from("No variables here");
    let deps = get_variables_dependency(&s);
    assert_eq!(deps, None);
}

#[test]
fn test_get_variables_dependency_empty_braces() {
    let s = String::from("Empty ${}");
    let deps = get_variables_dependency(&s);
    assert_eq!(deps, None);
}

#[test]
fn test_get_variables_dependency_nested() {
    let s = String::from("${MAP}[${KEY}]");
    let deps = get_variables_dependency(&s);
    assert_eq!(deps, Some(vec!["MAP".to_string(), "KEY".to_string()]));
}

#[test]
fn test_scalar_to_string() {
    assert_eq!(
        scalar_to_string(&Scalar::Str("test".to_string())),
        Some("test".to_string())
    );
    assert_eq!(scalar_to_string(&Scalar::Int(42)), Some("42".to_string()));
    assert_eq!(
        scalar_to_string(&Scalar::Float(format!("{}", 3.14))),
        Some("3.14".to_string())
    );
    assert_eq!(scalar_to_string(&Scalar::Bool(true)), Some("true".to_string()));
    assert_eq!(
        scalar_to_string(&Scalar::File("file.txt".to_string())),
        Some("file.txt".to_string())
    );
}

#[test]
fn test_simple_variable_substitution() {
    let cl = create_test_cluster(1);
    let cf = create_test_config(1);
    let cluster = ClusterConfig::new(&cl, &cf);
    let variables = vec![test_variable(
        "NAME",
        CompleteVar::Scalar(Scalar::Str("World".to_string())),
    )];

    let jobs = generate(&cluster, &variables, "Hello ${NAME}", None, None, None);

    assert_eq!(jobs.len(), 1);
    assert_eq!(jobs[0].command, "Hello World");
}

#[test]
fn test_multiple_scalar_variables() {
    let cl = create_test_cluster(1);
    let cf = create_test_config(1);
    let cluster = ClusterConfig::new(&cl, &cf);
    let variables = vec![
        test_variable("GREETING", CompleteVar::Scalar(Scalar::Str("Hello".to_string()))),
        test_variable("NAME", CompleteVar::Scalar(Scalar::Str("World".to_string()))),
    ];

    let jobs = generate(&cluster, &variables, "${GREETING} ${NAME}", None, None, None);

    assert_eq!(jobs.len(), 1);
    assert_eq!(jobs[0].command, "Hello World");
}

#[test]
fn test_list_variable_cartesian_product() {
    let cl = create_test_cluster(1);
    let cf = create_test_config(1);
    let cluster = ClusterConfig::new(&cl, &cf);
    let variables = vec![test_variable(
        "NUM",
        CompleteVar::List(vec![Scalar::Int(1), Scalar::Int(2), Scalar::Int(3)]),
    )];

    let jobs = generate(&cluster, &variables, "Value: ${NUM}", None, None, None);

    assert_eq!(jobs.len(), 3);
    assert_eq!(jobs[0].command, "Value: 1");
    assert_eq!(jobs[1].command, "Value: 2");
    assert_eq!(jobs[2].command, "Value: 3");
}

#[test]
fn test_multiple_list_variables_cartesian_product() {
    let cl = create_test_cluster(1);
    let cf = create_test_config(1);
    let cluster = ClusterConfig::new(&cl, &cf);
    let variables = vec![
        test_variable(
            "X",
            CompleteVar::List(vec![
                Scalar::Str("a".to_string()),
                Scalar::Str("b".to_string()),
            ]),
        ),
        test_variable("Y", CompleteVar::List(vec![Scalar::Int(1), Scalar::Int(2)])),
    ];

    let jobs = generate(&cluster, &variables, "${X}-${Y}", None, None, None);

    assert_eq!(jobs.len(), 4);
    let commands: Vec<_> = jobs.iter().map(|j| j.command.as_str()).collect();
    assert!(commands.contains(&"a-1"));
    assert!(commands.contains(&"a-2"));
    assert!(commands.contains(&"b-1"));
    assert!(commands.contains(&"b-2"));
}

#[test]
fn test_cluster_map_resolution() {
    let mut cl = create_test_cluster(1);
    cl.cluster_name = "cluster_a".to_string();
    let cf = create_test_config(1);
    let cluster = ClusterConfig::new(&cl, &cf);

    let per_cluster = vec![
        (
            "cluster_a".to_string(),
            BasicVar::Scalar(Scalar::Str("value_a".to_string())),
        ),
        (
            "cluster_b".to_string(),
            BasicVar::Scalar(Scalar::Str("value_b".to_string())),
        ),
    ];

    let variables = vec![test_variable(
        "CONFIG",
        CompleteVar::ClusterMap(ClusterMap {
            default: Some(BasicVar::Scalar(Scalar::Str("default".to_string()))),
            per_cluster,
        }),
    )];

    let jobs = generate(&cluster, &variables, "Config: ${CONFIG}", None, None, None);

    assert_eq!(jobs.len(), 1);
    assert_eq!(jobs[0].command, "Config: value_a");
}

#[test]
fn test_cluster_map_default_value() {
    let mut cl = create_test_cluster(1);
    cl.cluster_name = "cluster_c".to_string();
    let cf = create_test_config(1);
    let cluster = ClusterConfig::new(&cl, &cf);

    let per_cluster = vec![(
        "cluster_a".to_string(),
        BasicVar::Scalar(Scalar::Str("value_a".to_string())),
    )];

    let variables = vec![test_variable(
        "CONFIG",
        CompleteVar::ClusterMap(ClusterMap {
            default: Some(BasicVar::Scalar(Scalar::Str("default".to_string()))),
            per_cluster,
        }),
    )];

    let jobs = generate(&cluster, &variables, "Config: ${CONFIG}", None, None, None);

    assert_eq!(jobs.len(), 1);
    assert_eq!(jobs[0].command, "Config: default");
}

#[test]
fn test_cluster_map_with_list() {
    let mut cl = create_test_cluster(1);
    cl.cluster_name = "cluster_a".to_string();
    let cf = create_test_config(1);
    let cluster = ClusterConfig::new(&cl, &cf);

    let per_cluster = vec![(
        "cluster_a".to_string(),
        BasicVar::List(vec![Scalar::Int(1), Scalar::Int(2)]),
    )];

    let variables = vec![test_variable(
        "VALUES",
        CompleteVar::ClusterMap(ClusterMap { default: None, per_cluster }),
    )];

    let jobs = generate(&cluster, &variables, "Value: ${VALUES}", None, None, None);

    assert_eq!(jobs.len(), 2);
    assert_eq!(jobs[0].command, "Value: 1");
    assert_eq!(jobs[1].command, "Value: 2");
}

#[test]
fn test_standard_map_substitution() {
    let cl = create_test_cluster(1);
    let cf = create_test_config(1);
    let cluster = ClusterConfig::new(&cl, &cf);

    let map = vec![
        (
            "key1".to_string(),
            BasicVar::Scalar(Scalar::Str("value1".to_string())),
        ),
        (
            "key2".to_string(),
            BasicVar::Scalar(Scalar::Str("value2".to_string())),
        ),
    ];

    let variables = vec![
        test_variable("MAP", CompleteVar::StandardMap(map)),
        test_variable("KEY", CompleteVar::Scalar(Scalar::Str("key1".to_string()))),
    ];

    let jobs = generate(&cluster, &variables, "${MAP}[${KEY}]", None, None, None);

    assert_eq!(jobs.len(), 1);
    assert_eq!(jobs[0].command, "value1");
}

#[test]
fn test_standard_map_literal_key() {
    let cl = create_test_cluster(1);
    let cf = create_test_config(1);
    let cluster = ClusterConfig::new(&cl, &cf);

    let map = vec![(
        "literal".to_string(),
        BasicVar::Scalar(Scalar::Str("result".to_string())),
    )];

    let variables = vec![test_variable("MAP", CompleteVar::StandardMap(map))];

    let jobs = generate(&cluster, &variables, "${MAP}[literal]", None, None, None);

    assert_eq!(jobs.len(), 1);
    assert_eq!(jobs[0].command, "result");
}

#[test]
fn test_preprocess_and_postprocess() {
    let cl = create_test_cluster(1);
    let cf = create_test_config(1);
    let cluster = ClusterConfig::new(&cl, &cf);
    let variables = vec![test_variable(
        "NAME",
        CompleteVar::Scalar(Scalar::Str("test".to_string())),
    )];

    let jobs = generate(
        &cluster,
        &variables,
        "main ${NAME}",
        Some("pre ${NAME}"),
        Some("post ${NAME}"),
        None,
    );

    assert_eq!(jobs.len(), 1);
    assert_eq!(jobs[0].command, "main test");
    assert_eq!(jobs[0].preprocess, Some("pre test".to_string()));
    assert_eq!(jobs[0].postprocess, Some("post test".to_string()));
}

#[test]
fn test_mixed_literal_and_variable() {
    let cl = create_test_cluster(1);
    let cf = create_test_config(1);
    let cluster = ClusterConfig::new(&cl, &cf);
    let variables = vec![test_variable(
        "CMD",
        CompleteVar::Scalar(Scalar::Str("run".to_string())),
    )];

    let jobs = generate(&cluster, &variables, "./exec_${CMD}", None, None, None);

    assert_eq!(jobs.len(), 1);
    assert_eq!(jobs[0].command, "./exec_run");
}

#[test]
fn test_dependency_graph_simple() {
    let cl = create_test_cluster(1);
    let cf = create_test_config(1);
    let cluster = ClusterConfig::new(&cl, &cf);
    let variables = vec![
        test_variable("BASE", CompleteVar::Scalar(Scalar::Str("hello".to_string()))),
        test_variable(
            "DERIVED",
            CompleteVar::Scalar(Scalar::Str("${BASE}_world".to_string())),
        ),
    ];

    let jobs = generate(&cluster, &variables, "${DERIVED}", None, None, None);

    assert_eq!(jobs.len(), 1);
    assert_eq!(jobs[0].command, "hello_world");
}

#[test]
fn test_empty_variables() {
    let cl = create_test_cluster(1);
    let cf = create_test_config(1);
    let cluster = ClusterConfig::new(&cl, &cf);
    let variables = vec![];

    let jobs = generate(&cluster, &variables, "static command", None, None, None);

    assert_eq!(jobs.len(), 1);
    assert_eq!(jobs[0].command, "static command");
}

#[test]
fn test_variable_storage_in_job() {
    let cl = create_test_cluster(1);
    let cf = create_test_config(1);
    let cluster = ClusterConfig::new(&cl, &cf);
    let variables = vec![
        test_variable("VAR1", CompleteVar::Scalar(Scalar::Str("value1".to_string()))),
        test_variable("VAR2", CompleteVar::Scalar(Scalar::Int(42))),
    ];

    let jobs = generate(&cluster, &variables, "${VAR1} ${VAR2}", None, None, None);

    assert_eq!(jobs.len(), 1);
    let lookup = |name: &str| -> Option<String> {
        jobs[0]
            .variables
            .iter()
            .find(|(k, _)| k == name)
            .map(|(_, v)| v.clone())
    };
    assert_eq!(lookup("VAR1"), Some("value1".to_string()));
    assert_eq!(lookup("VAR2"), Some("42".to_string()));
}

#[test]
fn test_cartesian_product_with_three_lists() {
    let cl = create_test_cluster(1);
    let cf = create_test_config(1);
    let cluster = ClusterConfig::new(&cl, &cf);
    let variables = vec![
        test_variable(
            "A",
            CompleteVar::List(vec![
                Scalar::Str("a1".to_string()),
                Scalar::Str("a2".to_string()),
            ]),
        ),
        test_variable(
            "B",
            CompleteVar::List(vec![
                Scalar::Str("b1".to_string()),
                Scalar::Str("b2".to_string()),
            ]),
        ),
        test_variable(
            "C",
            CompleteVar::List(vec![
                Scalar::Str("c1".to_string()),
                Scalar::Str("c2".to_string()),
            ]),
        ),
    ];

    let jobs = generate(&cluster, &variables, "${A}-${B}-${C}", None, None, None);

    assert_eq!(jobs.len(), 8);
}

#[test]
fn test_bool_scalar_type() {
    let cl = create_test_cluster(1);
    let cf = create_test_config(1);
    let cluster = ClusterConfig::new(&cl, &cf);
    let variables = vec![test_variable("FLAG", CompleteVar::Scalar(Scalar::Bool(true)))];

    let jobs = generate(&cluster, &variables, "flag=${FLAG}", None, None, None);

    assert_eq!(jobs.len(), 1);
    assert_eq!(jobs[0].command, "flag=true");
}

#[test]
fn test_float_scalar_type() {
    let cl = create_test_cluster(1);
    let cf = create_test_config(1);
    let cluster = ClusterConfig::new(&cl, &cf);
    let variables = vec![test_variable(
        "PI",
        CompleteVar::Scalar(Scalar::Float(format!("{}", 3.14159))),
    )];

    let jobs = generate(&cluster, &variables, "pi=${PI}", None, None, None);

    assert_eq!(jobs.len(), 1);
    assert_eq!(jobs[0].command, "pi=3.14159");
}

#[test]
fn test_file_and_directory_types() {
    let cl = create_test_cluster(1);
    let cf = create_test_config(1);
    let cluster = ClusterConfig::new(&cl, &cf);
    let variables = vec![
        test_variable("FILE", CompleteVar::Scalar(Scalar::File("input.txt".to_string()))),
        test_variable(
            "DIR",
            CompleteVar::Scalar(Scalar::Directory("/data".to_string())),
        ),
    ];

    let jobs = generate(
        &cluster,
        &variables,
        "process ${FILE} in ${DIR}",
        None,
        None,
        None,
    );

    assert_eq!(jobs.len(), 1);
    assert_eq!(jobs[0].command, "process input.txt in /data");
}

#[test]
fn test_cluster_map_get_direct() {
    let cm = ClusterMap {
        default: Some(BasicVar::Scalar(Scalar::Str("default".to_string()))),
        per_cluster: vec![(
            "clusterA".to_string(),
            BasicVar::Scalar(Scalar::Str("value_a".to_string())),
        )],
    };
    match cm.get(&"clusterA".to_string()) {
        Some(BasicVar::Scalar(Scalar::Str(s))) => assert_eq!(s, "value_a"),
        _ => panic!("expected the per-cluster entry"),
    }
    match cm.get(&"clusterC".to_string()) {
        Some(BasicVar::Scalar(Scalar::Str(s))) => assert_eq!(s, "default"),
        _ => panic!("expected the default"),
    }
    let no_default = ClusterMap { default: None, per_cluster: Vec::new() };
    assert!(no_default.get(&"clusterC".to_string()).is_none());
}

#[test]
fn test_recursive_substitute_two_levels() {
    let vars = vec![
        ("A".to_string(), "${B}!".to_string()),
        ("B".to_string(), "deep".to_string()),
    ];
    let r = sbatchman::subst::recursive_substitute("go ${A}", &vars);
    assert_eq!(r, "go deep!");
}

#[test]
fn test_substitution_idempotent_on_resolved_text() {
    let binding = vec![("NAME".to_string(), "World".to_string())];
    let once = sbatchman::subst::Substitutor::substitute_simple(
        &"Hello ${NAME}".to_string(),
        &binding,
    );
    assert_eq!(once, "Hello World");
    let twice = sbatchman::subst::Substitutor::substitute_simple(&once, &binding);
    assert_eq!(twice, once);
}

#[test]
fn test_used_variables_closure() {
    let variables = vec![
        test_variable("BASE", CompleteVar::Scalar(Scalar::Str("hello".to_string()))),
        test_variable(
            "DERIVED",
            CompleteVar::Scalar(Scalar::Str("${BASE}_world".to_string())),
        ),
        test_variable("UNUSED", CompleteVar::Scalar(Scalar::Str("nope".to_string()))),
    ];
    let command = "${DERIVED}".to_string();
    let graph = DependencyGraph::build(&command, &None, &None, &variables);
    assert!(graph.has_dependencies(&"DERIVED".to_string()));
    assert!(!graph.has_dependencies(&"BASE".to_string()));
    assert_eq!(
        graph.get_dependencies(&"DERIVED".to_string()),
        vec!["BASE".to_string()]
    );
    let used = sbatchman::graph::get_all_variable_dependencies(&graph, &command, &None, &None);
    assert!(used.contains(&"DERIVED".to_string()));
    assert!(used.contains(&"BASE".to_string()));
    assert!(!used.contains(&"UNUSED".to_string()));
}

#[test]
fn test_resolver_keeps_declaration_order() {
    let variables = vec![
        test_variable("A", CompleteVar::Scalar(Scalar::Int(1))),
        test_variable("B", CompleteVar::List(vec![Scalar::Int(2), Scalar::Int(3)])),
    ];
    let resolved = VariableResolver::resolve_for_cluster(&"c".to_string(), &variables);
    assert_eq!(resolved.len(), 2);
    assert_eq!(resolved[0].0, "A");
    assert_eq!(resolved[0].1, vec!["1".to_string()]);
    assert_eq!(resolved[1].0, "B");
    assert_eq!(resolved[1].1, vec!["2".to_string(), "3".to_string()]);
}

#[test]
fn test_generate_filters_unused_variables() {
    let variables = vec![
        test_variable("A", CompleteVar::List(vec![Scalar::Int(1), Scalar::Int(2)])),
        test_variable(
            "IGNORED",
            CompleteVar::List(vec![Scalar::Int(7), Scalar::Int(8), Scalar::Int(9)]),
        ),
    ];
    let command = "only ${A}".to_string();
    let graph = DependencyGraph::build(&command, &None, &None, &variables);
    let resolved = VariableResolver::resolve_for_cluster(&"c".to_string(), &variables);
    let bindings = CartesianGenerator::generate(&resolved, &graph, &command, &None, &None);
    assert_eq!(bindings.len(), 2);
    for b in &bindings {
        assert_eq!(b.len(), 1);
        assert_eq!(b[0].0, "A");
    }
}

#[test]
fn test_nested_map_reference() {
    let cl = create_test_cluster(1);
    let cf = create_test_config(1);
    let cluster = ClusterConfig::new(&cl, &cf);

    // the outer map's entry is itself a map-lookup pattern, resolved in
    // a later substitution round
    let outer = vec![(
        "a".to_string(),
        BasicVar::Scalar(Scalar::Str("${INNER}[b]".to_string())),
    )];
    let inner = vec![(
        "b".to_string(),
        BasicVar::Scalar(Scalar::Str("deep".to_string())),
    )];
    let variables = vec![
        test_variable("OUTER", CompleteVar::StandardMap(outer)),
        test_variable("INNER", CompleteVar::StandardMap(inner)),
    ];

    let jobs = generate(&cluster, &variables, "${OUTER}[a]", None, None, None);

    assert_eq!(jobs.len(), 1);
    assert_eq!(jobs[0].command, "deep");
}

#[test]
fn test_map_with_unknown_key_keeps_pattern() {
    let cl = create_test_cluster(1);
    let cf = create_test_config(1);
    let cluster = ClusterConfig::new(&cl, &cf);

    let map = vec![(
        "known".to_string(),
        BasicVar::Scalar(Scalar::Str("value".to_string())),
    )];
    let variables = vec![test_variable("MAP", CompleteVar::StandardMap(map))];

    let jobs = generate(&cluster, &variables, "${MAP}[missing]", None, None, None);

    assert_eq!(jobs.len(), 1);
    assert_eq!(jobs[0].command, "${MAP}[missing]");
}

#[test]
fn test_list_valued_map_entry_stays_unexpanded() {
    let cl = create_test_cluster(1);
    let cf = create_test_config(1);
    let cluster = ClusterConfig::new(&cl, &cf);

    let map = vec![(
        "k".to_string(),
        BasicVar::List(vec![Scalar::Int(1), Scalar::Int(2)]),
    )];
    let variables = vec![test_variable("MAP", CompleteVar::StandardMap(map))];

    let jobs = generate(&cluster, &variables, "${MAP}[k]", None, None, None);

    // a list-valued entry is a documented limitation: the pattern text stays
    assert_eq!(jobs.len(), 1);
    assert_eq!(jobs[0].command, "${MAP}[k]");
}

#[test]
fn test_substitute_runs_maps_before_simple() {
    let map = vec![(
        "k".to_string(),
        BasicVar::Scalar(Scalar::Str("looked-up".to_string())),
    )];
    let variables = vec![test_variable("MAP", CompleteVar::StandardMap(map))];
    let binding = vec![("PLAIN".to_string(), "plain".to_string())];
    let r = sbatchman::subst::Substitutor::substitute(
        &"${MAP}[k] and ${PLAIN}".to_string(),
        &binding,
        &variables,
    );
    assert_eq!(r, "looked-up and plain");
}
