use reachpy_config::config::{
    Delay, Dependency, RawConfig, RawDev, RawLaunchNode, RawLaunchPipeline, RawNode, RawProject, RawRobot, DevConfig, LaunchNode, LaunchPipeline, NodeConfig, ProjectConfig,
    ReachConfig, RobotConfig, RosConfig, Transport,
};
use reachpy_config::package::{
    generate_cmakelists, generate_package_xml, generate_setup_cfg, generate_setup_py,
    workspace_toml,
};
use reachpy_config::path::FilePath;
use reachpy_config::reload::{
    classify_change, is_hot_reload_disabled, ChangeTarget, ReloadAction, ReloadClock, SHARED_KEY,
};
use reachpy_config::run::{
    build_node_command, build_node_command_with_params, build_traced_node_command, dependency_started,
    find_owning_node, launch_plan, ready_timed_out,
    resolve_profile, run_selection_of, LaunchStep, RunError,
};

const ROOT: &str = "/work/my-robot";

fn s(x: &str) -> String {
    x.to_string()
}

fn node(name: &str, rel: &str) -> NodeConfig {
    NodeConfig { name: s(name), script: FilePath::new(ROOT).join(rel), script_rel: s(rel) }
}

fn step(name: &str) -> LaunchNode {
    LaunchNode { name: s(name), delay: Delay::zero(), depends_on: None, wait_ready: false, params: vec![] }
}

fn pipeline(name: &str, steps: Vec<LaunchNode>) -> LaunchPipeline {
    LaunchPipeline { name: s(name), nodes: steps }
}

fn config(nodes: Vec<NodeConfig>, launch: Vec<LaunchPipeline>) -> ReachConfig {
    ReachConfig {
        root: FilePath::new(ROOT),
        project: ProjectConfig { name: s("my-robot"), version: s("0.1.0"), python: s("3.11"), description: None },
        robot: RobotConfig { platform: s("generic"), transport: Transport::Ros2, domain_id: 7 },
        nodes,
        launch,
        dependencies: vec![],
        dev: DevConfig { hot_reload: true, hot_reload_ignore: vec![s("config/"), s("models/")] },
        ros: RosConfig { remappings: vec![], namespace: None, node_args: vec![], parameters: vec![] },
    }
}

fn two_nodes() -> Vec<NodeConfig> {
    vec![node("detector", "src/detector.py"), node("controller", "src/ctl/controller.py")]
}

fn names(v: &[NodeConfig]) -> Vec<&str> {
    v.iter().map(|n| n.name.as_str()).collect()
}

// ─── Which node owns a change ────────────────────────────────────────────────

#[test]
fn owner_of_a_script_or_its_directory() {
    let nodes = two_nodes();
    let at = |p: &str| find_owning_node(&FilePath::new(p), &nodes);
    assert_eq!(at("/work/my-robot/src/detector.py"), Some(s("detector")));
    assert_eq!(at("/work/my-robot/src/helpers.py"), Some(s("detector")));
    assert_eq!(at("/work/my-robot/src/ctl/pid.py"), Some(s("controller")));
    assert_eq!(at("/work/my-robot//src/./ctl/controller.py"), Some(s("controller")));
    assert_eq!(at("/work/my-robot/lib/shared.py"), None);
}

#[test]
fn owner_is_the_first_node_in_order() {
    // both scripts share a directory: the first listed node owns the change
    let nodes = vec![node("a", "src/a.py"), node("b", "src/b.py")];
    assert_eq!(find_owning_node(&FilePath::new("/work/my-robot/src/b.py"), &nodes), Some(s("a")));
}

// ─── Which nodes run ─────────────────────────────────────────────────────────

#[test]
fn profile_nodes_follow_the_pipeline() {
    let c = config(two_nodes(), vec![pipeline("prod", vec![step("controller"), step("ghost"), step("detector")])]);
    let v = resolve_profile("prod", &c).unwrap();
    assert_eq!(names(&v), vec!["controller", "detector"]);
    assert!(resolve_profile("missing", &c).is_none());
}

#[test]
fn default_profile_without_pipeline_runs_every_node() {
    let c = config(two_nodes(), vec![]);
    let v = resolve_profile("default", &c).unwrap();
    assert_eq!(names(&v), vec!["detector", "controller"]);
    let with_default = config(two_nodes(), vec![pipeline("default", vec![step("controller")])]);
    assert_eq!(names(&resolve_profile("default", &with_default).unwrap()), vec!["controller"]);
}

#[test]
fn run_selection_for_each_kind_of_argument() {
    let c = config(two_nodes(), vec![pipeline("prod", vec![step("detector")])]);
    assert_eq!(names(&run_selection_of(&vec![], &c).unwrap()), vec!["detector", "controller"]);
    assert_eq!(names(&run_selection_of(&vec![s("prod")], &c).unwrap()), vec!["detector"]);
    assert_eq!(names(&run_selection_of(&vec![s("controller")], &c).unwrap()), vec!["controller"]);
    assert_eq!(
        names(&run_selection_of(&vec![s("controller"), s("detector")], &c).unwrap()),
        vec!["controller", "detector"]
    );
    match run_selection_of(&vec![s("nope")], &c) {
        Err(RunError::NotProfileOrNode(a)) => assert_eq!(a, "nope"),
        other => panic!("unexpected {:?}", other),
    }
    match run_selection_of(&vec![s("detector"), s("ghost"), s("phantom")], &c) {
        Err(RunError::UnknownNode(a)) => assert_eq!(a, "ghost"),
        other => panic!("unexpected {:?}", other),
    }
}

#[test]
fn a_profile_wins_over_a_node_of_the_same_name() {
    let c = config(two_nodes(), vec![pipeline("detector", vec![step("controller")])]);
    assert_eq!(names(&run_selection_of(&vec![s("detector")], &c).unwrap()), vec!["controller"]);
}

// ─── Command lines ───────────────────────────────────────────────────────────

#[test]
fn plain_node_command() {
    let c = config(two_nodes(), vec![]);
    let cmd = build_node_command("/tmp/reachpy-launcher.py", &c.nodes[0].script, "detector", &c);
    assert_eq!(cmd.program, "python3");
    assert_eq!(cmd.args, vec!["/tmp/reachpy-launcher.py", "/work/my-robot/src/detector.py", "detector"]);
    assert_eq!(cmd.env, vec![(s("ROS_DOMAIN_ID"), s("7"))]);
}

#[test]
fn node_command_with_ros_arguments() {
    let mut c = config(two_nodes(), vec![]);
    c.ros.remappings = vec![(s("/cam"), s("/camera/image"))];
    c.ros.node_args = vec![(s("detector"), vec![s("--log-level"), s("debug")])];
    c.ros.namespace = Some(s("robot1"));
    let script = c.nodes[0].script.duplicate();
    let cmd = build_node_command_with_params(
        "L",
        &script,
        "detector",
        &c,
        &vec![(s("model"), s("yolo.pt")), (s("rate"), s("10"))],
    );
    assert_eq!(
        cmd.args,
        vec![
            "L", "/work/my-robot/src/detector.py", "detector", "--ros-args", "-r", "/cam:=/camera/image",
            "--log-level", "debug", "-r", "__ns:=robot1", "-p", "model:=yolo.pt", "-p", "rate:=10"
        ]
    );
    // without parameters the same command, minus the parameters
    let plain = build_node_command("L", &script, "detector", &c);
    assert_eq!(plain.args, cmd.args[..10].to_vec());
    // another node gets no node arguments
    let other = build_node_command("L", &c.nodes[1].script, "controller", &c);
    assert_eq!(
        other.args,
        vec!["L", "/work/my-robot/src/ctl/controller.py", "controller", "--ros-args", "-r", "/cam:=/camera/image", "-r", "__ns:=robot1"]
    );
}

#[test]
fn traced_node_command() {
    let c = config(two_nodes(), vec![]);
    let cmd = build_traced_node_command("L", &c.nodes[0].script, "detector", &c, 1736934721, "/w/.reach/traces/trace_1736934721.json");
    assert_eq!(cmd.args, vec!["L", "/work/my-robot/src/detector.py", "detector"]);
    assert_eq!(
        cmd.env,
        vec![
            (s("ROS_DOMAIN_ID"), s("7")),
            (s("REACHPY_TRACE"), s("1")),
            (s("REACHPY_TRACE_SESSION"), s("1736934721")),
            (s("REACHPY_TRACE_FILE"), s("/w/.reach/traces/trace_1736934721.json")),
            (s("REACHPY_TRACE_NODE"), s("detector")),
        ]
    );
}

#[test]
fn launch_waits() {
    assert!(!ready_timed_out(0));
    assert!(!ready_timed_out(30_000_000_000));
    assert!(ready_timed_out(30_000_000_001));
    let started = vec![s("detector")];
    assert!(dependency_started(&started, "detector"));
    assert!(!dependency_started(&started, "controller"));
    assert!(!dependency_started(&vec![], "detector"));
}

#[test]
fn launch_plan_of_a_pipeline() {
    let mut first = step("detector");
    first.wait_ready = true;
    first.params = vec![(s("model"), s("yolo.pt"))];
    let mut second = step("controller");
    second.depends_on = Some(s("detector"));
    second.delay = Delay { negative: false, positive: true, millis: 2000, text: s("2") };
    let c = config(two_nodes(), vec![pipeline("prod", vec![first, second, step("ghost")])]);
    let plan = launch_plan(&c, "prod", "L").unwrap();
    assert_eq!(plan.len(), 3);
    match &plan[0] {
        LaunchStep::Start { node, wait_for, delay, command, params, wait_ready } => {
            assert_eq!(node.name, "detector");
            assert_eq!(*wait_for, None);
            assert_eq!(delay.millis, 0);
            assert!(*wait_ready);
            assert_eq!(params, &vec![(s("model"), s("yolo.pt"))]);
            assert_eq!(
                command.args,
                vec!["L", "/work/my-robot/src/detector.py", "detector", "--ros-args", "-p", "model:=yolo.pt"]
            );
        }
        other => panic!("unexpected {:?}", other),
    }
    match &plan[1] {
        LaunchStep::Start { node, wait_for, delay, wait_ready, .. } => {
            assert_eq!(node.name, "controller");
            assert_eq!(wait_for.as_deref(), Some("detector"));
            assert!(delay.positive);
            assert_eq!(delay.millis, 2000);
            assert!(!*wait_ready);
        }
        other => panic!("unexpected {:?}", other),
    }
    match &plan[2] {
        LaunchStep::Missing(n) => assert_eq!(n, "ghost"),
        other => panic!("unexpected {:?}", other),
    }
    assert!(launch_plan(&c, "dev", "L").is_none());
}

// ─── Hot reload ──────────────────────────────────────────────────────────────

#[test]
fn marker_in_the_first_five_lines() {
    assert!(is_hot_reload_disabled("# hot-reload-off\nimport time\n"));
    assert!(is_hot_reload_disabled("#!/usr/bin/env python3\n\n  #hot-reload-off  \r\n"));
    assert!(is_hot_reload_disabled("1\n2\n3\n4\n# hot-reload-off"));
    assert!(!is_hot_reload_disabled("1\n2\n3\n4\n5\n# hot-reload-off\n"));
    assert!(!is_hot_reload_disabled("# hot-reload-off please\n"));
    assert!(!is_hot_reload_disabled("#  hot-reload-off\n"));
    assert!(!is_hot_reload_disabled(""));
}

#[test]
fn classify_changes() {
    let c = config(two_nodes(), vec![]);
    let at = |p: &str| classify_change(&FilePath::new(p), &c.root, &c.dev.hot_reload_ignore, &c.nodes);
    assert_eq!(at("/work/my-robot/src/detector.py"), ChangeTarget::Node(s("detector")));
    assert_eq!(at("/work/my-robot/src/ctl/pid.py"), ChangeTarget::Node(s("controller")));
    assert_eq!(at("/work/my-robot/lib/shared.py"), ChangeTarget::Shared);
    assert_eq!(at("/work/my-robot/src/detector.txt"), ChangeTarget::Ignored);
    assert_eq!(at("/work/my-robot/src/detector"), ChangeTarget::Ignored);
    assert_eq!(at("/work/my-robot/config/settings.py"), ChangeTarget::Ignored);
    assert_eq!(at("/work/my-robot/models/net.py"), ChangeTarget::Ignored);
    assert_eq!(at("/work/my-robot/src/__pycache__/x.py"), ChangeTarget::Ignored);
    assert_eq!(at("/work/my-robot/src/.py"), ChangeTarget::Ignored);
}

#[test]
fn an_empty_ignore_pattern_ignores_everything() {
    let c = config(two_nodes(), vec![]);
    let ignore = vec![s("/")];
    let r = classify_change(&FilePath::new("/work/my-robot/src/detector.py"), &c.root, &ignore, &c.nodes);
    assert_eq!(r, ChangeTarget::Ignored);
}

#[test]
fn debounce_window() {
    let mut clock = ReloadClock::new();
    assert!(!clock.is_recent("detector", 0));
    clock.mark("detector", 1_000_000_000);
    assert!(clock.is_recent("detector", 1_000_000_000));
    assert!(clock.is_recent("detector", 1_399_999_999));
    assert!(!clock.is_recent("detector", 1_400_000_000));
    assert!(clock.is_recent("detector", 999_999_999));
    assert!(!clock.is_recent("__all__", 1_000_000_000));
    clock.mark("__all__", 2_000_000_000);
    clock.mark("detector", 5_000_000_000);
    assert!(clock.is_recent("detector", 5_100_000_000));
    assert!(clock.is_recent("__all__", 2_100_000_000));
    assert!(!clock.is_recent("__all__", 5_100_000_000));
}

#[test]
fn reload_decisions() {
    let mut clock = ReloadClock::new();
    let det = ChangeTarget::Node(s("detector"));
    assert_eq!(clock.on_change(&ChangeTarget::Ignored, 0, false), ReloadAction::Skip);
    assert_eq!(clock.on_change(&det, 1_000, true), ReloadAction::OptedOut(s("detector")));
    // an opted-out change records nothing, so the next change reloads
    assert_eq!(clock.on_change(&det, 2_000, false), ReloadAction::Reload(s("detector")));
    assert_eq!(clock.on_change(&det, 300_000_000, false), ReloadAction::Skip);
    assert_eq!(clock.on_change(&det, 400_002_000, false), ReloadAction::Reload(s("detector")));
    assert_eq!(clock.on_change(&ChangeTarget::Shared, 400_003_000, false), ReloadAction::ReloadAll);
    assert_eq!(clock.on_change(&ChangeTarget::Shared, 500_000_000, false), ReloadAction::Skip);
    assert!(clock.is_recent(SHARED_KEY, 500_000_000));
    assert!(!clock.is_recent("controller", 500_000_000));
}

// ─── Generated files ─────────────────────────────────────────────────────────

fn expected_workspace_toml(name: &str) -> String {
    format!(
r#"# ─────────────────────────────────────────────
#  reach.toml — ReachPy workspace configuration
#  Replaces: CMakeLists.txt, package.xml, setup.py, XML launch files
# ─────────────────────────────────────────────

[project]
name = "{name}"
version = "0.1.0"
python = "3.11"
description = "A ReachPy robotics workspace"

[robot]
platform = "generic"
transport = "ros2"
domain_id = 0

[nodes]
example = "src/example.py"

[launch.default]
nodes = [{{ name = "example" }}]

[dev]
hot_reload = true
hot_reload_ignore = ["config/", "models/"]
"#,
        name = name
    )
}

#[test]
fn workspace_toml_is_the_template() {
    for name in ["my-robot", "", "a b"] {
        assert_eq!(workspace_toml(name), expected_workspace_toml(name));
    }
}

/// The configuration a freshly created workspace holds, read from its `reach.toml`
/// by the TOML reader, with its example script present.
fn raw_of_created(text: &str) -> RawConfig {
    let doc: toml::Table = toml::from_str(text).unwrap();
    let text_of = |t: &toml::Table, k: &str| t.get(k).and_then(|v| v.as_str()).map(s);
    let project = doc["project"].as_table().unwrap();
    let robot = doc["robot"].as_table().unwrap();
    let dev = doc["dev"].as_table().unwrap();
    RawConfig {
        project: Some(RawProject {
            name: text_of(project, "name"),
            version: text_of(project, "version"),
            python: text_of(project, "python"),
            description: text_of(project, "description"),
        }),
        robot: Some(RawRobot {
            platform: text_of(robot, "platform"),
            transport: text_of(robot, "transport"),
            domain_id: robot.get("domain_id").and_then(|v| v.as_integer()).map(|i| i as u32),
        }),
        nodes: Some(
            doc["nodes"]
                .as_table()
                .unwrap()
                .iter()
                .map(|(k, v)| RawNode { name: k.clone(), script: v.as_str().unwrap().to_string(), script_found: true })
                .collect(),
        ),
        launch: Some(
            doc["launch"]
                .as_table()
                .unwrap()
                .iter()
                .map(|(k, p)| RawLaunchPipeline {
                    name: k.clone(),
                    nodes: p.get("nodes").and_then(|n| n.as_array()).map(|a| {
                        a.iter()
                            .map(|e| RawLaunchNode {
                                name: e.get("name").and_then(|x| x.as_str()).map(s),
                                delay: None,
                                depends_on: None,
                                wait_ready: None,
                                params: None,
                            })
                            .collect()
                    }),
                })
                .collect(),
        ),
        dependencies: None,
        dev: Some(RawDev {
            hot_reload: dev.get("hot_reload").and_then(|v| v.as_bool()),
            hot_reload_ignore: dev
                .get("hot_reload_ignore")
                .and_then(|v| v.as_array())
                .map(|a| a.iter().map(|x| x.as_str().unwrap().to_string()).collect()),
        }),
        ros: None,
    }
}

#[test]
fn a_created_workspace_resolves() {
    let raw = raw_of_created(&workspace_toml("my-robot"));
    // the sections read are those the library's description of a created workspace lists
    let p = raw.project.as_ref().unwrap();
    assert_eq!(p.name.as_deref(), Some("my-robot"));
    assert_eq!(p.version.as_deref(), Some("0.1.0"));
    assert_eq!(p.python.as_deref(), Some("3.11"));
    assert_eq!(p.description.as_deref(), Some("A ReachPy robotics workspace"));
    let r = raw.robot.as_ref().unwrap();
    assert_eq!((r.platform.as_deref(), r.transport.as_deref(), r.domain_id), (Some("generic"), Some("ros2"), Some(0)));
    let ns = raw.nodes.as_ref().unwrap();
    assert_eq!(ns.len(), 1);
    assert_eq!((ns[0].name.as_str(), ns[0].script.as_str()), ("example", "src/example.py"));
    let l = raw.launch.as_ref().unwrap();
    assert_eq!(l.len(), 1);
    assert_eq!(l[0].name, "default");
    let steps = l[0].nodes.as_ref().unwrap();
    assert_eq!(steps.len(), 1);
    assert_eq!(steps[0].name.as_deref(), Some("example"));
    assert!(steps[0].delay.is_none() && steps[0].depends_on.is_none() && steps[0].wait_ready.is_none() && steps[0].params.is_none());
    let c = ReachConfig::resolve(raw, FilePath::new("/work/my-robot")).unwrap();
    assert_eq!(c.project.name, "my-robot");
    assert_eq!(names(&c.nodes), vec!["example"]);
    assert_eq!(c.launch.len(), 1);
    assert_eq!(c.launch[0].name, "default");
    assert_eq!(c.launch[0].nodes.len(), 1);
    assert_eq!(c.launch[0].nodes[0].name, "example");
    assert_eq!(names(&run_selection_of(&vec![], &c).unwrap()), vec!["example"]);
    assert_eq!(c.dev.hot_reload_ignore, vec![s("config/"), s("models/")]);
}

fn build_config() -> ReachConfig {
    let mut c = config(
        vec![node("detector", "src/detector.py"), node("mapper", "src/lib/map.v2.py"), node("odd", "src/..")],
        vec![],
    );
    c.dependencies = vec![
        Dependency { name: s("numpy"), version: Some(s("1.26")) },
        Dependency { name: s("opencv-python"), version: None },
    ];
    c
}

#[test]
fn package_xml_lists_dependencies() {
    let c = build_config();
    let expected = r#"<?xml version="1.0"?>
<?xml-model href="http://download.ros.org/schema/package_format3.xsd" schematypens="http://www.w3.org/2001/XMLSchema"?>
<package format="3">
  <name>my-robot</name>
  <version>0.1.0</version>
  <description>A ReachPy workspace</description>
  <maintainer email="reach@ascii-robotics.com">ASCII Robotics</maintainer>
  <license>MIT</license>

  <buildtool_depend>ament_python</buildtool_depend>

  <exec_depend>rclpy</exec_depend>
  <exec_depend>numpy</exec_depend>
  <exec_depend>opencv-python</exec_depend>

  <export>
    <build_type>ament_python</build_type>
  </export>
</package>
"#;
    assert_eq!(generate_package_xml(&c), expected);
    let mut d = build_config();
    d.project.description = Some(s("Line follower"));
    d.dependencies = vec![];
    assert!(generate_package_xml(&d).contains("<description>Line follower</description>"));
    assert!(generate_package_xml(&d).contains("<exec_depend>rclpy</exec_depend>\n\n\n  <export>"));
}

#[test]
fn cmakelists_installs_every_script() {
    let c = build_config();
    let expected = r#"cmake_minimum_required(VERSION 3.8)
project(my-robot)

find_package(ament_cmake REQUIRED)
find_package(ament_cmake_python REQUIRED)

ament_python_install_package(${PROJECT_NAME})

install(PROGRAMS
  /work/my-robot/src/detector.py
  /work/my-robot/src/lib/map.v2.py
  /work/my-robot/src/..
  DESTINATION lib/${PROJECT_NAME}
)

ament_package()
"#;
    assert_eq!(generate_cmakelists(&c), expected);
}

#[test]
fn setup_py_has_an_entry_point_per_node() {
    let c = build_config();
    let expected = r#"from setuptools import setup

package_name = 'my-robot'

setup(
    name=package_name,
    version='0.1.0',
    packages=[package_name],
    data_files=[
        ('share/ament_index/resource_index/packages',
            ['resource/' + package_name]),
        ('share/' + package_name, ['package.xml']),
    ],
    install_requires=['setuptools'],
    zip_safe=True,
    entry_points={
        'console_scripts': [
            'detector = my-robot.detector:main',
            'mapper = my-robot.map.v2:main',
            'odd = my-robot.odd:main',
        ],
    },
)
"#;
    assert_eq!(generate_setup_py(&c), expected);
}

#[test]
fn setup_cfg_names_the_package() {
    assert_eq!(
        generate_setup_cfg("my-robot"),
        "[develop]\nscript_dir=$base/lib/my-robot\n[install]\ninstall_scripts=$base/lib/my-robot\n"
    );
}

// ─── Summary ─────────────────────────────────────────────────────────────────

#[test]
fn summary_of_a_configuration() {
    let mut c = config(two_nodes(), vec![pipeline("prod", vec![step("detector"), step("controller")])]);
    c.ros.remappings = vec![(s("/cam"), s("/camera"))];
    c.dev.hot_reload = false;
    let expected = [
        "Project:     my-robot v0.1.0\n",
        "Python:      3.11\n",
        "Platform:    generic\n",
        "Transport:   ros2\n",
        "Domain ID:   7\n",
        "Nodes:       2\n",
        "  - detector → src/detector.py\n",
        "  - controller → src/ctl/controller.py\n",
        "Pipelines:\n",
        "  - prod → [detector, controller]\n",
        "Hot reload:  false\n",
        "Remappings:\n",
        "  /cam → /camera\n",
    ]
    .concat();
    assert_eq!(c.to_string(), expected);
    let plain = config(vec![node("detector", "src/detector.py")], vec![]);
    assert_eq!(
        plain.to_string(),
        "Project:     my-robot v0.1.0\nPython:      3.11\nPlatform:    generic\nTransport:   ros2\nDomain ID:   7\nNodes:       1\n  - detector → src/detector.py\nHot reload:  true\n"
    );
}
