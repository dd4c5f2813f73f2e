use reachpy_config::commands::{
    average_rate_text, bag_name, has_flag, cmd_bags, cmd_trace, detect_ros2_distro,
    dependencies_outside_pipeline, flag_argument, node_listed, python_module_name,
    python_version_matches, record_topics, trace_file_name, traced_topics, BagsCommand,
    RecordTopics, TraceCommand,
};
use reachpy_config::commands::{latest_trace, plural, sorts_before, topic_shown, DoctorTally, SummaryLine};
use reachpy_config::config::{Delay, LaunchNode, LaunchPipeline};

fn args(v: &[&str]) -> Vec<String> {
    v.iter().map(|a| a.to_string()).collect()
}

#[test]
fn trace_subcommands() {
    assert!(matches!(cmd_trace(&args(&[])), TraceCommand::Run(a) if a.is_empty()));
    assert!(matches!(cmd_trace(&args(&["clear"])), TraceCommand::Clear));
    assert!(matches!(cmd_trace(&args(&["clear", "x"])), TraceCommand::Clear));
    match cmd_trace(&args(&["show", "--node", "talker"])) {
        TraceCommand::Show(a) => assert_eq!(a, args(&["--node", "talker"])),
        other => panic!("unexpected {:?}", other),
    }
    match cmd_trace(&args(&["--verbose", "show"])) {
        TraceCommand::Run(a) => assert_eq!(a, args(&["--verbose", "show"])),
        other => panic!("unexpected {:?}", other),
    }
}

#[test]
fn bags_subcommands() {
    assert!(matches!(cmd_bags(&args(&[])), BagsCommand::Help));
    assert!(matches!(cmd_bags(&args(&["list", "extra"])), BagsCommand::List));
    match cmd_bags(&args(&["record", "/scan", "/odom"])) {
        BagsCommand::Record(a) => assert_eq!(a, args(&["/scan", "/odom"])),
        other => panic!("unexpected {:?}", other),
    }
    match cmd_bags(&args(&["play", "bag_1", "--loop"])) {
        BagsCommand::Play(a) => assert_eq!(a, args(&["bag_1", "--loop"])),
        other => panic!("unexpected {:?}", other),
    }
    match cmd_bags(&args(&["erase"])) {
        BagsCommand::Unknown(a) => assert_eq!(a, "erase"),
        other => panic!("unexpected {:?}", other),
    }
}

#[test]
fn flag_values() {
    let a = args(&["bag_1", "--rate", "0.5", "--loop", "--rate", "2"]);
    assert_eq!(flag_argument(&a, "--rate"), Some("0.5".to_string()));
    assert_eq!(flag_argument(&a, "--loop"), Some("--rate".to_string()));
    assert_eq!(flag_argument(&a, "--node"), None);
    assert_eq!(flag_argument(&args(&["x", "--rate"]), "--rate"), None);
}

#[test]
fn flags_present() {
    let a = args(&["bag_1", "--loop", "--rate", "2"]);
    assert!(has_flag(&a, "--loop"));
    assert!(!has_flag(&a, "--lo"));
    assert!(!has_flag(&args(&[]), "--loop"));
}

#[test]
fn recorded_topics() {
    match record_topics(&args(&["/scan", "cam", "/odom"])) {
        RecordTopics::Topics(t) => assert_eq!(t, args(&["/scan", "/odom"])),
        other => panic!("unexpected {:?}", other),
    }
    match record_topics(&args(&[])) {
        RecordTopics::Topics(t) => assert!(t.is_empty()),
        other => panic!("unexpected {:?}", other),
    }
    match record_topics(&args(&["/scan", "--profile", "prod"])) {
        RecordTopics::Profile(p) => assert_eq!(p, "prod"),
        other => panic!("unexpected {:?}", other),
    }
    assert!(matches!(record_topics(&args(&["/scan", "--profile"])), RecordTopics::MissingProfile));
}

#[test]
fn distro_from_the_first_prefix() {
    assert_eq!(detect_ros2_distro("/opt/ros/humble"), "humble");
    assert_eq!(detect_ros2_distro("/opt/ros/jazzy:/opt/ros/humble"), "jazzy");
    assert_eq!(detect_ros2_distro("/home/me/ws/install:/opt/ros/iron"), "unknown distro");
    assert_eq!(detect_ros2_distro("/opt/ros/foxy-humble"), "humble");
    assert_eq!(detect_ros2_distro(""), "unknown distro");
    assert_eq!(detect_ros2_distro("/opt/ros/rolling"), "rolling");
    assert_eq!(detect_ros2_distro("/opt/ros/galactic"), "galactic");
}

#[test]
fn topics_worth_tracing() {
    let out = "/parameter_events\n/rosout\n  /scan  \n\n/odom\r\n/rosout_agg\n";
    assert_eq!(traced_topics(out), args(&["/scan", "/odom"]));
    assert!(traced_topics("").is_empty());
}

#[test]
fn average_rate_lines() {
    let out = "subscribed\naverage rate: 10.012\n\tmin: 0.099s max: 0.101s\naverage rate: 5\n";
    assert_eq!(average_rate_text(out), Some("10.012".to_string()));
    assert_eq!(average_rate_text("no data"), None);
    // the text between the first and second `:` is taken, as read
    assert_eq!(average_rate_text("x: average rate: 3"), Some("average rate".to_string()));
}

#[test]
fn python_versions() {
    assert!(python_version_matches("Python 3.11.4", "3.11"));
    assert!(python_version_matches("Python 3.10.12", "3.10"));
    assert!(!python_version_matches("Python 3.12.1", "3.0"));
    assert!(!python_version_matches("Python 3.10.12", "3.11"));
    assert!(python_version_matches("Python 3.1.2", "3.1"));
    // major and minor are compared as components, not as a text prefix
    assert!(!python_version_matches("Python 3.11.4", "3.1"));
    assert!(python_version_matches("Python 3.11", "3.11.4"));
    assert!(python_version_matches("Python 3.11.4", "3"));
    assert!(!python_version_matches("Python 3", "3.11"));
}

#[test]
fn nodes_on_the_graph() {
    let out = "/detector\n/controller\n";
    assert!(node_listed(out, "detector"));
    assert!(node_listed(out, "control"));
    assert!(!node_listed(out, "mapper"));
}

#[test]
fn module_names_and_file_names() {
    assert_eq!(python_module_name("opencv-python"), "opencv_python");
    assert_eq!(python_module_name("numpy"), "numpy");
    assert_eq!(bag_name(1700000000), "bag_1700000000");
    assert_eq!(bag_name(0), "bag_0");
    assert_eq!(trace_file_name(42), "trace_42.json");
}

fn step(name: &str, dep: Option<&str>) -> LaunchNode {
    LaunchNode {
        name: name.to_string(),
        delay: Delay::zero(),
        depends_on: dep.map(|d| d.to_string()),
        wait_ready: false,
        params: vec![],
    }
}

#[test]
fn dependencies_outside_the_pipeline() {
    let p = LaunchPipeline {
        name: "prod".to_string(),
        nodes: vec![step("controller", Some("detector")), step("detector", None), step("mapper", Some("planner"))],
    };
    assert_eq!(
        dependencies_outside_pipeline(&p),
        vec![("mapper".to_string(), "planner".to_string())]
    );
}

#[test]
fn topic_filter() {
    let info = "Publisher count: 1\nNode name: talker\n";
    assert!(topic_shown(info, &None));
    assert!(topic_shown(info, &Some("talker".to_string())));
    assert!(!topic_shown(info, &Some("listener".to_string())));
}

#[test]
fn name_order_is_byte_order() {
    let names = ["", "a", "ab", "b", "trace_9.json", "trace_10.json", "Z", "é", "ä"];
    for a in names {
        for b in names {
            assert_eq!(sorts_before(a, b), a.as_bytes() < b.as_bytes(), "{:?} {:?}", a, b);
        }
    }
}

#[test]
fn latest_trace_sorts_by_name() {
    let names = args(&["trace_170.json", "notes.txt", "trace_9.json", "trace_1700.json", "x.json.bak"]);
    assert_eq!(latest_trace(&names), Some(2));
    assert_eq!(latest_trace(&args(&["a.txt", ".json"])), None);
    assert_eq!(latest_trace(&args(&[])), None);
    assert_eq!(latest_trace(&args(&["b.json", "a.json"])), Some(0));
}

#[test]
fn doctor_summaries() {
    let mut t = DoctorTally::new();
    assert_eq!(t.summary_lines(), vec![SummaryLine::AllGood]);
    t.warning();
    assert_eq!(t.summary_lines(), vec![SummaryLine::Warnings(1)]);
    t.issue();
    t.issue();
    assert_eq!(t.summary_lines(), vec![SummaryLine::Issues(2), SummaryLine::Warnings(1)]);
    assert_eq!(plural(1), "");
    assert_eq!(plural(2), "s");
    assert_eq!(plural(0), "s");
    let mut full = DoctorTally { issues: u32::MAX, warnings: 0 };
    full.issue();
    assert_eq!(full.issues, u32::MAX);
}
