use vector::config::{
    ConfigBuilder, DataKind, Expansion, KindSet, Output, SinkConfig, SourceConfig, TestDefinition,
    TransformConfig,
};
use vector::id::{ComponentKey, OutputId};
use vector::inputs::Inputs;

fn any_kinds() -> KindSet {
    KindSet { log: true, metric: true, trace: true }
}

fn basic_source() -> SourceConfig {
    SourceConfig {
        outputs: vec![Output { port: None, kind: DataKind::Log }],
        resources: vec![],
    }
}

fn basic_transform() -> TransformConfig {
    TransformConfig {
        input: any_kinds(),
        outputs: vec![Output { port: None, kind: DataKind::Log }],
        expansion: Expansion::Inert,
    }
}

fn basic_sink() -> SinkConfig {
    SinkConfig { input: any_kinds(), acks: true, resources: vec![] }
}

fn acking_sink(acks: bool) -> SinkConfig {
    SinkConfig { input: any_kinds(), acks, resources: vec![] }
}

fn without_ports(outputs: Inputs<OutputId>) -> Vec<ComponentKey> {
    outputs
        .items
        .into_iter()
        .map(|output| {
            assert!(output.port.is_none());
            output.component
        })
        .collect()
}

#[test]
fn glob_expansion() {
    let mut builder = ConfigBuilder::default();
    builder.add_source("foo1", basic_source());
    builder.add_source("foo2", basic_source());
    builder.add_source("bar", basic_source());
    builder.add_transform("foos", &["foo*"], basic_transform());
    builder.add_sink("baz", &["foos*", "b*"], basic_sink());
    builder.add_sink("quix", &["*oo*"], basic_sink());
    builder.add_sink("quux", &["*"], basic_sink());

    let config = builder.build().expect("build should succeed");

    assert_eq!(
        config
            .transforms
            .get(&ComponentKey::from("foos"))
            .map(|item| without_ports(item.inputs.clone()))
            .unwrap(),
        vec![ComponentKey::from("foo1"), ComponentKey::from("foo2")]
    );
    assert_eq!(
        config
            .sinks
            .get(&ComponentKey::from("baz"))
            .map(|item| without_ports(item.inputs.clone()))
            .unwrap(),
        vec![ComponentKey::from("foos"), ComponentKey::from("bar")]
    );
    assert_eq!(
        config
            .sinks
            .get(&ComponentKey::from("quux"))
            .map(|item| without_ports(item.inputs.clone()))
            .unwrap(),
        vec![
            ComponentKey::from("foo1"),
            ComponentKey::from("foo2"),
            ComponentKey::from("bar"),
            ComponentKey::from("foos")
        ]
    );
    assert_eq!(
        config
            .sinks
            .get(&ComponentKey::from("quix"))
            .map(|item| without_ports(item.inputs.clone()))
            .unwrap(),
        vec![
            ComponentKey::from("foo1"),
            ComponentKey::from("foo2"),
            ComponentKey::from("foos")
        ]
    );
}

#[test]
fn wildcard_never_resolves_to_self() {
    let mut builder = ConfigBuilder::default();
    builder.add_source("in", basic_source());
    builder.add_transform("mid", &["*"], basic_transform());
    builder.add_sink("out", &["mid"], basic_sink());

    let config = builder.build().expect("build should succeed");
    let resolved = without_ports(
        config.transforms.get(&ComponentKey::from("mid")).unwrap().inputs.clone(),
    );
    assert!(!resolved.contains(&ComponentKey::from("mid")));
    assert_eq!(resolved, vec![ComponentKey::from("in")]);
}

#[test]
fn unmatched_input_is_kept_and_reported() {
    let mut builder = ConfigBuilder::default();
    builder.add_source("in", basic_source());
    builder.add_transform("mid", &["nosuch*"], basic_transform());
    builder.add_sink("out", &["mid"], basic_sink());

    let errors = builder.build().expect_err("build should fail");
    assert!(errors.iter().any(|e| e.contains("nosuch*") && e.contains("mid")));
}

#[test]
fn cycle_is_rejected() {
    let mut builder = ConfigBuilder::default();
    builder.add_source("in", basic_source());
    builder.add_transform("a", &["in", "b"], basic_transform());
    builder.add_transform("b", &["a"], basic_transform());
    builder.add_sink("out", &["b"], basic_sink());

    let errors = builder.build().expect_err("build should fail");
    assert!(errors.iter().any(|e| e.contains("Cyclic dependency detected")));
    assert!(errors.iter().any(|e| e.contains("a") && e.contains("b")));
}

#[test]
fn type_mismatch_is_rejected() {
    let mut builder = ConfigBuilder::default();
    builder.add_source("logs", basic_source());
    builder.add_sink(
        "metrics_only",
        &["logs"],
        SinkConfig {
            input: KindSet { log: false, metric: true, trace: false },
            acks: true,
            resources: vec![],
        },
    );

    let errors = builder.build().expect_err("build should fail");
    assert!(errors
        .iter()
        .any(|e| e.contains("Data type mismatch") && e.contains("logs") && e.contains("metrics_only")));
}

#[test]
fn acknowledgement_is_the_and_of_reachable_sinks() {
    let mut builder = ConfigBuilder::default();
    builder.add_source("s", basic_source());
    builder.add_transform("t", &["s"], basic_transform());
    builder.add_sink("sink1", &["t"], acking_sink(true));
    builder.add_sink("sink2", &["t"], acking_sink(false));
    let config = builder.build().expect("build should succeed");
    assert!(!config.sources.get(&ComponentKey::from("s")).unwrap().effective_ack);

    let mut builder = ConfigBuilder::default();
    builder.add_source("s", basic_source());
    builder.add_transform("t", &["s"], basic_transform());
    builder.add_sink("sink1", &["t"], acking_sink(true));
    let config = builder.build().expect("build should succeed");
    assert!(config.sources.get(&ComponentKey::from("s")).unwrap().effective_ack);
}

#[test]
fn source_with_no_reachable_sink_gets_no_guarantee() {
    let mut builder = ConfigBuilder::default();
    builder.add_source("s", basic_source());
    builder.add_source("lonely", basic_source());
    builder.add_sink("k", &["s"], acking_sink(true));
    let config = builder.build().expect("build should succeed");
    assert!(config.sources.get(&ComponentKey::from("s")).unwrap().effective_ack);
    assert!(!config.sources.get(&ComponentKey::from("lonely")).unwrap().effective_ack);
}

#[test]
fn expansion_fans_out_in_order() {
    let mut builder = ConfigBuilder::default();
    builder.add_source("in", basic_source());
    let children = vec![
        (ComponentKey::from("r.0"), basic_transform()),
        (ComponentKey::from("r.1"), basic_transform()),
        (ComponentKey::from("r.2"), basic_transform()),
    ];
    builder.add_transform(
        "r",
        &["in"],
        TransformConfig {
            input: any_kinds(),
            outputs: vec![Output { port: None, kind: DataKind::Log }],
            expansion: Expansion::Expands(children),
        },
    );
    builder.add_sink("out", &["r"], basic_sink());

    let config = builder.build().expect("build should succeed");
    let resolved = without_ports(
        config.sinks.get(&ComponentKey::from("out")).unwrap().inputs.clone(),
    );
    assert_eq!(
        resolved,
        vec![
            ComponentKey::from("r.0"),
            ComponentKey::from("r.1"),
            ComponentKey::from("r.2")
        ]
    );
    let reps = config.expansions.get(&ComponentKey::from("r")).unwrap();
    assert_eq!(
        reps.clone(),
        vec![
            ComponentKey::from("r.0"),
            ComponentKey::from("r.1"),
            ComponentKey::from("r.2")
        ]
    );
}

#[test]
fn compilation_is_deterministic() {
    let make = || {
        let mut builder = ConfigBuilder::default();
        builder.add_source("foo1", basic_source());
        builder.add_source("foo2", basic_source());
        builder.add_transform("foos", &["foo*"], basic_transform());
        builder.add_sink("baz", &["foos*", "f*"], basic_sink());
        builder
    };
    let a = make().build().expect("build should succeed");
    let b = make().build().expect("build should succeed");
    assert_eq!(a, b);

    let make_bad = || {
        let mut builder = ConfigBuilder::default();
        builder.add_source("in.dotted", basic_source());
        builder.add_sink("out", &["missing"], basic_sink());
        builder
    };
    let ea = make_bad().build().expect_err("build should fail");
    let eb = make_bad().build().expect_err("build should fail");
    assert_eq!(ea, eb);
}

#[test]
fn expansion_failure_is_a_hard_stop() {
    let mut builder = ConfigBuilder::default();
    builder.add_source("in", basic_source());
    builder.add_transform(
        "broken",
        &["in"],
        TransformConfig {
            input: any_kinds(),
            outputs: vec![],
            expansion: Expansion::Fails("bad recipe".to_owned()),
        },
    );
    builder.add_sink("out", &["nosuch"], basic_sink());

    let errors = builder.build().expect_err("build should fail");
    assert!(errors.iter().any(|e| e.contains("Failed to expand transform") && e.contains("broken")));
    // the hard stop happens before graph construction ever runs
    assert!(!errors.iter().any(|e| e.contains("nosuch")));
}

#[test]
fn dotted_names_and_shape_problems_accumulate() {
    let mut builder = ConfigBuilder::default();
    builder.add_source("bad.name", basic_source());
    builder.add_sink("out", &["bad.name"], basic_sink());
    let errors = builder.build().expect_err("build should fail");
    assert!(errors.iter().any(|e| e.contains("should not contain a '.'")));

    let mut builder = ConfigBuilder::default();
    builder.add_sink("out", &["nothing"], basic_sink());
    let errors = builder.build().expect_err("build should fail");
    assert!(errors.iter().any(|e| e.contains("No sources defined")));
}

#[test]
fn resource_conflicts_are_reported() {
    let mut builder = ConfigBuilder::default();
    builder.add_source(
        "s1",
        SourceConfig {
            outputs: vec![Output { port: None, kind: DataKind::Log }],
            resources: vec!["tcp:9000".to_owned()],
        },
    );
    builder.add_source(
        "s2",
        SourceConfig {
            outputs: vec![Output { port: None, kind: DataKind::Log }],
            resources: vec!["tcp:9000".to_owned()],
        },
    );
    builder.add_sink("out", &["s1", "s2"], basic_sink());
    let errors = builder.build().expect_err("build should fail");
    assert!(errors.iter().any(|e| e.contains("tcp:9000")));
}

#[test]
fn named_ports_resolve_and_unknown_ports_fail() {
    let mut builder = ConfigBuilder::default();
    builder.add_source(
        "s",
        SourceConfig {
            outputs: vec![
                Output { port: None, kind: DataKind::Log },
                Output { port: Some("errors".to_owned()), kind: DataKind::Log },
            ],
            resources: vec![],
        },
    );
    builder.add_sink("out", &["s.errors"], basic_sink());
    let config = builder.build().expect("build should succeed");
    let resolved = config.sinks.get(&ComponentKey::from("out")).unwrap().inputs.clone();
    assert_eq!(resolved.items.len(), 1);
    assert_eq!(resolved.items[0].component, ComponentKey::from("s"));
    assert_eq!(resolved.items[0].port, Some("errors".to_owned()));

    let mut builder = ConfigBuilder::default();
    builder.add_source(
        "s",
        SourceConfig {
            outputs: vec![Output { port: None, kind: DataKind::Log }],
            resources: vec![],
        },
    );
    builder.add_sink("out", &["s.bogus"], basic_sink());
    let errors = builder.build().expect_err("build should fail");
    assert!(errors.iter().any(|e| e.contains("s.bogus") && e.contains("unknown port")));
}

#[test]
fn invalid_glob_pattern_warns_and_falls_back_to_literal() {
    let mut builder = ConfigBuilder::default();
    builder.add_source("s[", basic_source());
    builder.add_sink("out", &["s["], basic_sink());
    let (config, warnings) = vector::compiler::compile(builder).expect("build should succeed");
    let resolved = without_ports(
        config.sinks.get(&ComponentKey::from("out")).unwrap().inputs.clone(),
    );
    assert_eq!(resolved, vec![ComponentKey::from("s[")]);
    assert!(warnings.iter().any(|w| w.contains("Invalid glob pattern") && w.contains("s[")));
}

#[test]
fn test_resolution_failure_preempts_other_errors() {
    let mut builder = ConfigBuilder::default();
    builder.add_source("in", basic_source());
    builder.add_sink("out", &["in"], basic_sink());
    builder.add_test(TestDefinition {
        name: "check".to_owned(),
        extract_from: vec!["ghost".to_owned()],
    });
    let errors = builder.build().expect_err("build should fail");
    assert_eq!(errors.len(), 1);
    assert!(errors[0].contains("Failed to resolve input") && errors[0].contains("check"));
}
