use reachpy_config::config::{
    Delay, RawConfig, RawDev, RawLaunchNode, RawLaunchPipeline, RawNode, RawProject, RawRobot,
    RawRos, ReachConfig, TomlValue, Transport,
};
use reachpy_config::error::ConfigError;
use reachpy_config::path::FilePath;

fn s(x: &str) -> String {
    x.to_string()
}

fn project(name: Option<&str>) -> RawProject {
    RawProject { name: name.map(s), version: None, python: None, description: None }
}

/// A raw configuration with the given sections; scripts under `src/` exist as in
/// a workspace holding src/detector.py and src/controller.py.
fn raw(project: Option<RawProject>, nodes: Vec<(&str, &str)>, launch: Option<Vec<RawLaunchPipeline>>) -> RawConfig {
    RawConfig {
        project,
        robot: None,
        nodes: Some(
            nodes
                .into_iter()
                .map(|(n, p)| RawNode {
                    name: s(n),
                    script: s(p),
                    script_found: p == "src/detector.py" || p == "src/controller.py",
                })
                .collect(),
        ),
        launch,
        dependencies: None,
        dev: None,
        ros: None,
    }
}

fn step(name: &str) -> RawLaunchNode {
    RawLaunchNode { name: Some(s(name)), delay: None, depends_on: None, wait_ready: None, params: None }
}

fn seconds(millis: u64, text: &str) -> Delay {
    Delay { negative: false, positive: millis > 0, millis, text: s(text) }
}

fn pipeline(name: &str, steps: Vec<RawLaunchNode>) -> RawLaunchPipeline {
    RawLaunchPipeline { name: s(name), nodes: Some(steps) }
}

fn root() -> FilePath {
    FilePath::new("/work/my-robot")
}

fn pipeline_named<'a>(c: &'a ReachConfig, name: &str) -> &'a reachpy_config::config::LaunchPipeline {
    c.launch.iter().find(|p| p.name == name).unwrap()
}

#[test]
fn test_valid_config() {
    let mut p = project(Some("my-robot"));
    p.version = Some(s("0.1.0"));
    p.python = Some(s("3.11"));
    let r = raw(Some(p), vec![("detector", "src/detector.py")], Some(vec![pipeline("default", vec![step("detector")])]));
    let config = ReachConfig::resolve(r, root()).unwrap();
    assert_eq!(config.project.name, "my-robot");
    assert!(config.launch.iter().any(|p| p.name == "default"));
    assert_eq!(pipeline_named(&config, "default").nodes.len(), 1);
}

#[test]
fn test_pipeline_with_params_and_delay() {
    let mut detector = step("detector");
    detector.delay = Some(seconds(0, "0"));
    detector.wait_ready = Some(true);
    detector.params = Some(vec![(s("model"), s("yolo.pt"))]);
    let mut controller = step("controller");
    controller.delay = Some(seconds(2000, "2"));
    controller.depends_on = Some(s("detector"));
    let r = raw(
        Some(project(Some("my-robot"))),
        vec![("detector", "src/detector.py"), ("controller", "src/controller.py")],
        Some(vec![pipeline("prod", vec![detector, controller])]),
    );
    let config = ReachConfig::resolve(r, root()).unwrap();
    let prod = pipeline_named(&config, "prod");
    assert_eq!(prod.nodes.len(), 2);
    assert_eq!(prod.nodes[0].delay.millis, 0);
    assert!(!prod.nodes[0].delay.positive);
    assert!(prod.nodes[0].wait_ready);
    assert_eq!(
        prod.nodes[0].params.iter().find(|(k, _)| k == "model").map(|(_, v)| v),
        Some(&"yolo.pt".to_string())
    );
    assert_eq!(prod.nodes[1].delay.millis, 2000);
    assert_eq!(prod.nodes[1].depends_on, Some("detector".to_string()));
}

#[test]
fn test_multiple_pipelines() {
    let mut controller = step("controller");
    controller.delay = Some(seconds(1000, "1"));
    let r = raw(
        Some(project(Some("my-robot"))),
        vec![("detector", "src/detector.py"), ("controller", "src/controller.py")],
        Some(vec![
            pipeline("default", vec![step("detector")]),
            pipeline("full", vec![step("detector"), controller]),
        ]),
    );
    let config = ReachConfig::resolve(r, root()).unwrap();
    assert!(config.launch.iter().any(|p| p.name == "default"));
    assert!(config.launch.iter().any(|p| p.name == "full"));
    assert_eq!(pipeline_named(&config, "full").nodes.len(), 2);
}

#[test]
fn test_unknown_node_in_pipeline() {
    let r = raw(
        Some(project(Some("my-robot"))),
        vec![("detector", "src/detector.py")],
        Some(vec![pipeline("prod", vec![step("ghost")])]),
    );
    let err = ReachConfig::resolve(r, root()).unwrap_err();
    assert!(err.to_string().contains("ghost"));
}

#[test]
fn test_missing_project_name() {
    let mut p = project(None);
    p.version = Some(s("0.1.0"));
    let r = raw(Some(p), vec![("detector", "src/detector.py")], None);
    let err = ReachConfig::resolve(r, root()).unwrap_err();
    assert!(err.to_string().contains("project] name"));
}

#[test]
fn test_defaults_applied() {
    let r = raw(Some(project(Some("minimal"))), vec![("detector", "src/detector.py")], None);
    let config = ReachConfig::resolve(r, root()).unwrap();
    assert_eq!(config.project.version, "0.1.0");
    assert_eq!(config.project.python, "3.11");
    assert_eq!(config.robot.platform, "generic");
    assert_eq!(config.robot.domain_id, 0);
    assert_eq!(config.dev.hot_reload, true);
}

// ─── More resolution cases ───────────────────────────────────────────────────

fn validation_message(r: RawConfig) -> String {
    match ReachConfig::resolve(r, root()) {
        Err(ConfigError::ValidationError(m)) => m,
        other => panic!("expected a validation error, got {:?}", other.map(|_| ())),
    }
}

#[test]
fn every_problem_is_reported_in_order() {
    let mut p = project(Some("   "));
    p.python = Some(s("2.7"));
    let mut r = raw(Some(p), vec![("detector", "src/detector.py"), ("ghost", "src/ghost.py")], None);
    r.robot = Some(RawRobot { platform: None, transport: Some(s("zenoh")), domain_id: None });
    let mut bad_delay = step("detector");
    bad_delay.delay = Some(Delay { negative: true, positive: false, millis: 0, text: s("-0.5") });
    bad_delay.depends_on = Some(s("camera"));
    let unnamed = RawLaunchNode { name: None, delay: None, depends_on: None, wait_ready: None, params: None };
    r.launch = Some(vec![
        pipeline("prod", vec![bad_delay, unnamed, step("ghost")]),
        RawLaunchPipeline { name: s("empty"), nodes: Some(vec![]) },
        RawLaunchPipeline { name: s("none"), nodes: None },
    ]);
    let m = validation_message(r);
    let expected = [
        "  Missing required field: [project] name",
        "  [project] python must be 3.x, got \"2.7\"",
        "  [robot] transport \"zenoh\" not supported. Use \"ros2\".",
        "  [nodes] \"ghost\": script not found at \"src/ghost.py\"",
        "  [launch.prod] node \"detector\" depends_on unknown node \"camera\"",
        "  [launch.prod] node \"detector\" delay must be >= 0, got -0.5",
        "  [launch.prod] node at index 1 is missing \"name\"",
        "  [launch.prod] references unknown node \"ghost\"",
        "  [launch.empty] has no nodes defined.",
        "  [launch.none] has no nodes defined.",
    ]
    .join("\n");
    assert_eq!(m, expected);
    let shown = ConfigError::ValidationError(m.clone()).to_string();
    assert_eq!(shown, format!("reach.toml validation failed:\n{}", m));
}

#[test]
fn missing_sections_are_reported() {
    let r = RawConfig { project: None, robot: None, nodes: None, launch: None, dependencies: None, dev: None, ros: None };
    assert_eq!(
        validation_message(r),
        "  Missing required section [project]\n  Missing required section [nodes]"
    );
    let r = raw(Some(project(Some("x"))), vec![], None);
    assert_eq!(validation_message(r), "  [nodes] is empty. Add at least one node.");
}

#[test]
fn sections_given_are_kept() {
    let mut p = project(Some("bot"));
    p.description = Some(s("a robot"));
    p.python = Some(s("3.12"));
    let mut r = raw(Some(p), vec![("detector", "src/detector.py")], None);
    r.robot = Some(RawRobot { platform: Some(s("ur5")), transport: Some(s("ros2")), domain_id: Some(7) });
    r.dependencies = Some(vec![(s("opencv"), TomlValue::Text(s("4.8"))), (s("torch"), TomlValue::Other)]);
    r.dev = Some(RawDev { hot_reload: Some(false), hot_reload_ignore: Some(vec![s("config/")]) });
    r.ros = Some(RawRos {
        remappings: Some(vec![(s("/camera/raw"), s("/camera/compressed"))]),
        namespace: Some(s("/robot1")),
        node_args: Some(vec![(s("detector"), vec![s("--log-level"), s("debug")])]),
        parameters: Some(vec![(s("speed"), TomlValue::Text(s("fast"))), (s("gain"), TomlValue::Other)]),
    });
    let c = ReachConfig::resolve(r, root()).unwrap();
    assert_eq!(c.project.description.as_deref(), Some("a robot"));
    assert_eq!(c.project.python, "3.12");
    assert_eq!(c.robot.platform, "ur5");
    assert_eq!(c.robot.domain_id, 7);
    assert_eq!(c.robot.transport, Transport::Ros2);
    assert_eq!(c.dependencies.len(), 2);
    assert_eq!(c.dependencies[0].version.as_deref(), Some("4.8"));
    assert_eq!(c.dependencies[1].version, None);
    assert!(!c.dev.hot_reload);
    assert_eq!(c.dev.hot_reload_ignore, vec![s("config/")]);
    assert_eq!(c.ros.parameters, vec![(s("speed"), s("fast"))]);
    assert_eq!(c.ros.namespace.as_deref(), Some("/robot1"));
    assert_eq!(c.nodes[0].script.text, "/work/my-robot/src/detector.py");
    assert_eq!(c.nodes[0].script_rel, "src/detector.py");
}

#[test]
fn summary_lists_the_configuration() {
    let mut r = raw(
        Some(project(Some("my-robot"))),
        vec![("detector", "src/detector.py"), ("controller", "src/controller.py")],
        Some(vec![pipeline("default", vec![step("detector"), step("controller")])]),
    );
    r.ros = Some(RawRos { remappings: Some(vec![(s("/a"), s("/b"))]), namespace: None, node_args: None, parameters: None });
    let c = ReachConfig::resolve(r, root()).unwrap();
    let expected = "Project:     my-robot v0.1.0\nPython:      3.11\nPlatform:    generic\nTransport:   ros2\nDomain ID:   0\nNodes:       2\n  - detector → src/detector.py\n  - controller → src/controller.py\nPipelines:\n  - default → [detector, controller]\nHot reload:  true\nRemappings:\n  /a → /b\n";
    assert_eq!(c.to_string(), expected);
}

#[test]
fn error_messages() {
    assert_eq!(
        ConfigError::NotFound.to_string(),
        "No reach.toml found. Are you inside a ReachPy workspace?\n  Run `reach create <name>` to create one."
    );
    assert_eq!(ConfigError::ParseError(s("bad")).to_string(), "reach.toml is invalid:\n  bad");
    let io = std::io::Error::new(std::io::ErrorKind::Other, "disk on fire");
    assert_eq!(ConfigError::ReadError(io).to_string(), "Could not read reach.toml: disk on fire");
}

#[test]
fn resolved_tables_keep_one_entry_per_key() {
    let mut r = raw(
        Some(project(Some("my-robot"))),
        vec![("detector", "src/detector.py"), ("controller", "src/controller.py")],
        Some(vec![pipeline("default", vec![step("detector")]), pipeline("full", vec![step("detector"), step("controller")])]),
    );
    r.ros = Some(RawRos {
        remappings: None,
        namespace: None,
        node_args: None,
        parameters: Some(vec![(s("a"), TomlValue::Text(s("1"))), (s("b"), TomlValue::Other), (s("c"), TomlValue::Text(s("3")))]),
    });
    let c = ReachConfig::resolve(r, root()).unwrap();
    let names: Vec<&str> = c.nodes.iter().map(|n| n.name.as_str()).collect();
    assert_eq!(names, vec!["detector", "controller"]);
    let pipelines: Vec<&str> = c.launch.iter().map(|p| p.name.as_str()).collect();
    assert_eq!(pipelines, vec!["default", "full"]);
    let keys: Vec<&str> = c.ros.parameters.iter().map(|p| p.0.as_str()).collect();
    assert_eq!(keys, vec!["a", "c"]);
}
