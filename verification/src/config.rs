//! The `reach.toml` model: the sections as read (every field optional), the
//! resolved configuration, and the errors. Resolution checks the sections, applies
//! the defaults and reports every problem it finds.

use vstd::prelude::*;

use crate::path::FilePath;
use crate::text::views;

verus! {

// ─── Views shared by several types ───────────────────────────────────────────

/// The text of an optional string.
pub open spec fn opt_view(o: Option<String>) -> Option<Seq<char>> {
    match o {
        Some(s) => Some(s@),
        None => None,
    }
}

/// The texts of a list of string pairs.
pub open spec fn pair_views(v: Seq<(String, String)>) -> Seq<(Seq<char>, Seq<char>)> {
    v.map_values(|p: (String, String)| (p.0@, p.1@))
}

/// The texts of a list of (name, list of strings) entries.
pub open spec fn list_entry_views(v: Seq<(String, Vec<String>)>) -> Seq<(Seq<char>, Seq<Seq<char>>)> {
    v.map_values(|p: (String, Vec<String>)| (p.0@, views(p.1@)))
}

// ─── Values read from the file ───────────────────────────────────────────────

/// A TOML value, as far as the configuration reads it: a string, or anything else.
#[derive(Debug)]
pub enum TomlValue {
    Text(String),
    Other,
}

impl View for TomlValue {
    type V = Option<Seq<char>>;

    /// The string held, if the value is a string.
    open spec fn view(&self) -> Option<Seq<char>> {
        match self {
            TomlValue::Text(s) => Some(s@),
            TomlValue::Other => None,
        }
    }
}

/// The texts of a list of (name, TOML value) entries.
pub open spec fn value_entry_views(v: Seq<(String, TomlValue)>) -> Seq<(Seq<char>, Option<Seq<char>>)> {
    v.map_values(|p: (String, TomlValue)| (p.0@, p.1@))
}

/// A delay in seconds, as the commands read it: whether it is below or above zero,
/// how many whole milliseconds it lasts (`(seconds * 1000) as u64`), and how it is
/// written when reported.
#[derive(Debug)]
pub struct Delay {
    pub negative: bool,
    pub positive: bool,
    pub millis: u64,
    pub text: String,
}

/// The view of a delay.
pub struct DelayView {
    pub negative: bool,
    pub positive: bool,
    pub millis: u64,
    pub text: Seq<char>,
}

impl View for Delay {
    type V = DelayView;

    open spec fn view(&self) -> DelayView {
        DelayView {
            negative: self.negative,
            positive: self.positive,
            millis: self.millis,
            text: self.text@,
        }
    }
}

/// No delay: zero seconds, written `0`.
pub open spec fn zero_delay() -> DelayView {
    DelayView { negative: false, positive: false, millis: 0, text: "0"@ }
}

impl Delay {
    /// No delay: zero seconds.
    pub fn zero() -> (r: Delay)
        ensures
            r@ == zero_delay(),
    {
        Delay { negative: false, positive: false, millis: 0, text: String::from_str("0") }
    }

    /// A copy of this delay.
    pub fn duplicate(&self) -> (r: Delay)
        ensures
            r@ == self@,
    {
        Delay {
            negative: self.negative,
            positive: self.positive,
            millis: self.millis,
            text: self.text.clone(),
        }
    }
}

/// `[project]` as read.
#[derive(Debug)]
pub struct RawProject {
    pub name: Option<String>,
    pub version: Option<String>,
    pub python: Option<String>,
    pub description: Option<String>,
}

pub struct RawProjectView {
    pub name: Option<Seq<char>>,
    pub version: Option<Seq<char>>,
    pub python: Option<Seq<char>>,
    pub description: Option<Seq<char>>,
}

impl View for RawProject {
    type V = RawProjectView;

    open spec fn view(&self) -> RawProjectView {
        RawProjectView {
            name: opt_view(self.name),
            version: opt_view(self.version),
            python: opt_view(self.python),
            description: opt_view(self.description),
        }
    }
}

/// `[robot]` as read.
#[derive(Debug)]
pub struct RawRobot {
    pub platform: Option<String>,
    pub transport: Option<String>,
    pub domain_id: Option<u32>,
}

pub struct RawRobotView {
    pub platform: Option<Seq<char>>,
    pub transport: Option<Seq<char>>,
    pub domain_id: Option<u32>,
}

impl View for RawRobot {
    type V = RawRobotView;

    open spec fn view(&self) -> RawRobotView {
        RawRobotView {
            platform: opt_view(self.platform),
            transport: opt_view(self.transport),
            domain_id: self.domain_id,
        }
    }
}

/// One entry of `[nodes]`: its name, its script path as written, and whether a
/// file exists at that path under the workspace root.
#[derive(Debug)]
pub struct RawNode {
    pub name: String,
    pub script: String,
    pub script_found: bool,
}

pub struct RawNodeView {
    pub name: Seq<char>,
    pub script: Seq<char>,
    pub script_found: bool,
}

impl View for RawNode {
    type V = RawNodeView;

    open spec fn view(&self) -> RawNodeView {
        RawNodeView { name: self.name@, script: self.script@, script_found: self.script_found }
    }
}

/// One entry of a launch pipeline's `nodes` list as read.
#[derive(Debug)]
pub struct RawLaunchNode {
    pub name: Option<String>,
    pub delay: Option<Delay>,
    pub depends_on: Option<String>,
    pub wait_ready: Option<bool>,
    pub params: Option<Vec<(String, String)>>,
}

pub struct RawLaunchNodeView {
    pub name: Option<Seq<char>>,
    pub delay: Option<DelayView>,
    pub depends_on: Option<Seq<char>>,
    pub wait_ready: Option<bool>,
    pub params: Option<Seq<(Seq<char>, Seq<char>)>>,
}

impl View for RawLaunchNode {
    type V = RawLaunchNodeView;

    open spec fn view(&self) -> RawLaunchNodeView {
        RawLaunchNodeView {
            name: opt_view(self.name),
            delay: match self.delay {
                Some(d) => Some(d@),
                None => None,
            },
            depends_on: opt_view(self.depends_on),
            wait_ready: self.wait_ready,
            params: match self.params {
                Some(p) => Some(pair_views(p@)),
                None => None,
            },
        }
    }
}

/// One `[launch.<name>]` table as read.
#[derive(Debug)]
pub struct RawLaunchPipeline {
    pub name: String,
    pub nodes: Option<Vec<RawLaunchNode>>,
}

pub struct RawLaunchPipelineView {
    pub name: Seq<char>,
    pub nodes: Option<Seq<RawLaunchNodeView>>,
}

impl View for RawLaunchPipeline {
    type V = RawLaunchPipelineView;

    open spec fn view(&self) -> RawLaunchPipelineView {
        RawLaunchPipelineView {
            name: self.name@,
            nodes: match self.nodes {
                Some(n) => Some(n@.map_values(|x: RawLaunchNode| x@)),
                None => None,
            },
        }
    }
}

/// `[dev]` as read.
#[derive(Debug)]
pub struct RawDev {
    pub hot_reload: Option<bool>,
    pub hot_reload_ignore: Option<Vec<String>>,
}

pub struct RawDevView {
    pub hot_reload: Option<bool>,
    pub hot_reload_ignore: Option<Seq<Seq<char>>>,
}

impl View for RawDev {
    type V = RawDevView;

    open spec fn view(&self) -> RawDevView {
        RawDevView {
            hot_reload: self.hot_reload,
            hot_reload_ignore: match self.hot_reload_ignore {
                Some(v) => Some(views(v@)),
                None => None,
            },
        }
    }
}

/// `[ros]` as read.
#[derive(Debug)]
pub struct RawRos {
    pub remappings: Option<Vec<(String, String)>>,
    pub namespace: Option<String>,
    pub node_args: Option<Vec<(String, Vec<String>)>>,
    pub parameters: Option<Vec<(String, TomlValue)>>,
}

pub struct RawRosView {
    pub remappings: Option<Seq<(Seq<char>, Seq<char>)>>,
    pub namespace: Option<Seq<char>>,
    pub node_args: Option<Seq<(Seq<char>, Seq<Seq<char>>)>>,
    pub parameters: Option<Seq<(Seq<char>, Option<Seq<char>>)>>,
}

impl View for RawRos {
    type V = RawRosView;

    open spec fn view(&self) -> RawRosView {
        RawRosView {
            remappings: match self.remappings {
                Some(v) => Some(pair_views(v@)),
                None => None,
            },
            namespace: opt_view(self.namespace),
            node_args: match self.node_args {
                Some(v) => Some(list_entry_views(v@)),
                None => None,
            },
            parameters: match self.parameters {
                Some(v) => Some(value_entry_views(v@)),
                None => None,
            },
        }
    }
}

/// The whole file as read: every section may be missing.
#[derive(Debug)]
pub struct RawConfig {
    pub project: Option<RawProject>,
    pub robot: Option<RawRobot>,
    pub nodes: Option<Vec<RawNode>>,
    pub launch: Option<Vec<RawLaunchPipeline>>,
    pub dependencies: Option<Vec<(String, TomlValue)>>,
    pub dev: Option<RawDev>,
    pub ros: Option<RawRos>,
}

pub struct RawConfigView {
    pub project: Option<RawProjectView>,
    pub robot: Option<RawRobotView>,
    pub nodes: Option<Seq<RawNodeView>>,
    pub launch: Option<Seq<RawLaunchPipelineView>>,
    pub dependencies: Option<Seq<(Seq<char>, Option<Seq<char>>)>>,
    pub dev: Option<RawDevView>,
    pub ros: Option<RawRosView>,
}

impl View for RawConfig {
    type V = RawConfigView;

    open spec fn view(&self) -> RawConfigView {
        RawConfigView {
            project: match self.project {
                Some(p) => Some(p@),
                None => None,
            },
            robot: match self.robot {
                Some(r) => Some(r@),
                None => None,
            },
            nodes: match self.nodes {
                Some(n) => Some(n@.map_values(|x: RawNode| x@)),
                None => None,
            },
            launch: match self.launch {
                Some(l) => Some(l@.map_values(|x: RawLaunchPipeline| x@)),
                None => None,
            },
            dependencies: match self.dependencies {
                Some(d) => Some(value_entry_views(d@)),
                None => None,
            },
            dev: match self.dev {
                Some(d) => Some(d@),
                None => None,
            },
            ros: match self.ros {
                Some(r) => Some(r@),
                None => None,
            },
        }
    }
}

// ─── The resolved configuration ──────────────────────────────────────────────

#[derive(Debug)]
pub struct ProjectConfig {
    pub name: String,
    pub version: String,
    pub python: String,
    pub description: Option<String>,
}

pub struct ProjectView {
    pub name: Seq<char>,
    pub version: Seq<char>,
    pub python: Seq<char>,
    pub description: Option<Seq<char>>,
}

impl View for ProjectConfig {
    type V = ProjectView;

    open spec fn view(&self) -> ProjectView {
        ProjectView {
            name: self.name@,
            version: self.version@,
            python: self.python@,
            description: opt_view(self.description),
        }
    }
}

/// The transport between nodes; ROS 2 is the one supported.
#[derive(Debug, PartialEq, Eq, Structural, Clone, Copy)]
pub enum Transport {
    Ros2,
}

impl Transport {
    /// The transport's name as it is written in `reach.toml`.
    pub fn as_str(&self) -> (r: &'static str)
        ensures
            r@ == "ros2"@,
    {
        match self {
            Transport::Ros2 => "ros2",
        }
    }
}

#[derive(Debug)]
pub struct RobotConfig {
    pub platform: String,
    pub transport: Transport,
    pub domain_id: u32,
}

pub struct RobotView {
    pub platform: Seq<char>,
    pub transport: Transport,
    pub domain_id: u32,
}

impl View for RobotConfig {
    type V = RobotView;

    open spec fn view(&self) -> RobotView {
        RobotView { platform: self.platform@, transport: self.transport, domain_id: self.domain_id }
    }
}

/// A node: its name, the path of its script under the workspace root, and that
/// path as written in `reach.toml`.
#[derive(Debug)]
pub struct NodeConfig {
    pub name: String,
    pub script: FilePath,
    pub script_rel: String,
}

pub struct NodeView {
    pub name: Seq<char>,
    pub script: Seq<char>,
    pub script_rel: Seq<char>,
}

impl View for NodeConfig {
    type V = NodeView;

    open spec fn view(&self) -> NodeView {
        NodeView { name: self.name@, script: self.script.text@, script_rel: self.script_rel@ }
    }
}

impl NodeConfig {
    /// A copy of this node.
    pub fn duplicate(&self) -> (r: NodeConfig)
        ensures
            r@ == self@,
    {
        NodeConfig {
            name: self.name.clone(),
            script: self.script.duplicate(),
            script_rel: self.script_rel.clone(),
        }
    }
}

/// The views of a list of nodes.
pub open spec fn node_views(v: Seq<NodeConfig>) -> Seq<NodeView> {
    v.map_values(|n: NodeConfig| n@)
}

/// A single node step inside a pipeline.
#[derive(Debug)]
pub struct LaunchNode {
    /// Node name — exists in `[nodes]`.
    pub name: String,
    /// How long to wait before starting this node.
    pub delay: Delay,
    /// Wait for this other node to be running first.
    pub depends_on: Option<String>,
    /// Block until this node is visible on the ROS 2 graph before proceeding.
    pub wait_ready: bool,
    /// ROS 2 parameters to pass, as `--ros-args -p key:=value`.
    pub params: Vec<(String, String)>,
}

pub struct LaunchNodeView {
    pub name: Seq<char>,
    pub delay: DelayView,
    pub depends_on: Option<Seq<char>>,
    pub wait_ready: bool,
    pub params: Seq<(Seq<char>, Seq<char>)>,
}

impl View for LaunchNode {
    type V = LaunchNodeView;

    open spec fn view(&self) -> LaunchNodeView {
        LaunchNodeView {
            name: self.name@,
            delay: self.delay@,
            depends_on: opt_view(self.depends_on),
            wait_ready: self.wait_ready,
            params: pair_views(self.params@),
        }
    }
}

/// A resolved launch pipeline — `[launch.prod]`, `[launch.default]`, and so on.
#[derive(Debug)]
pub struct LaunchPipeline {
    pub name: String,
    pub nodes: Vec<LaunchNode>,
}

pub struct PipelineView {
    pub name: Seq<char>,
    pub nodes: Seq<LaunchNodeView>,
}

impl View for LaunchPipeline {
    type V = PipelineView;

    open spec fn view(&self) -> PipelineView {
        PipelineView { name: self.name@, nodes: self.nodes@.map_values(|n: LaunchNode| n@) }
    }
}

/// The views of a list of pipelines.
pub open spec fn pipeline_views(v: Seq<LaunchPipeline>) -> Seq<PipelineView> {
    v.map_values(|p: LaunchPipeline| p@)
}

#[derive(Debug)]
pub struct Dependency {
    pub name: String,
    pub version: Option<String>,
}

pub struct DependencyView {
    pub name: Seq<char>,
    pub version: Option<Seq<char>>,
}

impl View for Dependency {
    type V = DependencyView;

    open spec fn view(&self) -> DependencyView {
        DependencyView { name: self.name@, version: opt_view(self.version) }
    }
}

#[derive(Debug)]
pub struct DevConfig {
    pub hot_reload: bool,
    pub hot_reload_ignore: Vec<String>,
}

pub struct DevView {
    pub hot_reload: bool,
    pub hot_reload_ignore: Seq<Seq<char>>,
}

impl View for DevConfig {
    type V = DevView;

    open spec fn view(&self) -> DevView {
        DevView { hot_reload: self.hot_reload, hot_reload_ignore: views(self.hot_reload_ignore@) }
    }
}

#[derive(Debug)]
pub struct RosConfig {
    pub remappings: Vec<(String, String)>,
    pub namespace: Option<String>,
    pub node_args: Vec<(String, Vec<String>)>,
    pub parameters: Vec<(String, String)>,
}

pub struct RosView {
    pub remappings: Seq<(Seq<char>, Seq<char>)>,
    pub namespace: Option<Seq<char>>,
    pub node_args: Seq<(Seq<char>, Seq<Seq<char>>)>,
    pub parameters: Seq<(Seq<char>, Seq<char>)>,
}

impl View for RosConfig {
    type V = RosView;

    open spec fn view(&self) -> RosView {
        RosView {
            remappings: pair_views(self.remappings@),
            namespace: opt_view(self.namespace),
            node_args: list_entry_views(self.node_args@),
            parameters: pair_views(self.parameters@),
        }
    }
}

/// The resolved configuration of a workspace. Maps of the file are lists here, in
/// the order they were read, each key once.
#[derive(Debug)]
pub struct ReachConfig {
    pub root: FilePath,
    pub project: ProjectConfig,
    pub robot: RobotConfig,
    pub nodes: Vec<NodeConfig>,
    pub launch: Vec<LaunchPipeline>,
    pub dependencies: Vec<Dependency>,
    pub dev: DevConfig,
    pub ros: RosConfig,
}

pub struct ConfigView {
    pub root: Seq<char>,
    pub project: ProjectView,
    pub robot: RobotView,
    pub nodes: Seq<NodeView>,
    pub launch: Seq<PipelineView>,
    pub dependencies: Seq<DependencyView>,
    pub dev: DevView,
    pub ros: RosView,
}

impl View for ReachConfig {
    type V = ConfigView;

    open spec fn view(&self) -> ConfigView {
        ConfigView {
            root: self.root.text@,
            project: self.project@,
            robot: self.robot@,
            nodes: node_views(self.nodes@),
            launch: pipeline_views(self.launch@),
            dependencies: self.dependencies@.map_values(|d: Dependency| d@),
            dev: self.dev@,
            ros: self.ros@,
        }
    }
}

} // verus!
