//! Resolution of `reach.toml`: every section is checked, defaults are applied, and
//! either the resolved configuration comes back or all problems found, one per line.

use vstd::prelude::*;

use crate::config::{
    Dependency, DevConfig, LaunchNode, LaunchPipeline, NodeConfig, ProjectConfig, RawConfig,
    RawLaunchNode, RawLaunchPipeline, ReachConfig, RobotConfig, RosConfig, node_views,
    pipeline_views, list_entry_views, value_entry_views,
    opt_view, pair_views, zero_delay, ConfigView, Delay, DependencyView, DevView,
    LaunchNodeView, NodeView, PipelineView, ProjectView, RawConfigView, RawDevView,
    RawLaunchNodeView, RawLaunchPipelineView, RawNodeView, RawProjectView, RawRobotView,
    RawRosView, RobotView, RosView, Transport,
};
use crate::error::ConfigError;
use crate::path::{join_text, FilePath};
use crate::text::{
    decimal, join, join_strings, lemma_join_contains, lemma_occurs_trans, occurs_at, push_decimal,
    seq_contains, str_starts_with, trim, trim_str, views,
};

verus! {

// ─── Messages ────────────────────────────────────────────────────────────────

pub open spec fn missing_project_msg() -> Seq<char> {
    "  Missing required section [project]"@
}

pub open spec fn missing_field_msg(field: Seq<char>) -> Seq<char> {
    "  Missing required field: "@ + field
}

pub open spec fn python_msg(py: Seq<char>) -> Seq<char> {
    "  [project] python must be 3.x, got \""@ + py + "\""@
}

pub open spec fn transport_msg(t: Seq<char>) -> Seq<char> {
    "  [robot] transport \""@ + t + "\" not supported. Use \"ros2\"."@
}

pub open spec fn missing_nodes_msg() -> Seq<char> {
    "  Missing required section [nodes]"@
}

pub open spec fn empty_nodes_msg() -> Seq<char> {
    "  [nodes] is empty. Add at least one node."@
}

pub open spec fn script_msg(name: Seq<char>, rel: Seq<char>) -> Seq<char> {
    "  [nodes] \""@ + name + "\": script not found at \""@ + rel + "\""@
}

pub open spec fn no_nodes_msg(p: Seq<char>) -> Seq<char> {
    "  [launch."@ + p + "] has no nodes defined."@
}

pub open spec fn missing_name_msg(p: Seq<char>, i: nat) -> Seq<char> {
    "  [launch."@ + p + "] node at index "@ + decimal(i) + " is missing \"name\""@
}

pub open spec fn unknown_node_msg(p: Seq<char>, n: Seq<char>) -> Seq<char> {
    "  [launch."@ + p + "] references unknown node \""@ + n + "\""@
}

pub open spec fn unknown_dep_msg(p: Seq<char>, n: Seq<char>, d: Seq<char>) -> Seq<char> {
    "  [launch."@ + p + "] node \""@ + n + "\" depends_on unknown node \""@ + d + "\""@
}

pub open spec fn delay_msg(p: Seq<char>, n: Seq<char>, t: Seq<char>) -> Seq<char> {
    "  [launch."@ + p + "] node \""@ + n + "\" delay must be >= 0, got "@ + t
}

// ─── What resolution reports ─────────────────────────────────────────────────

/// A field counts as given when it is present and not blank.
pub open spec fn given(v: Option<Seq<char>>) -> bool {
    v is Some && trim(v->0).len() > 0
}

/// Problems of `[project]`.
pub open spec fn project_errors(p: Option<RawProjectView>) -> Seq<Seq<char>> {
    match p {
        None => seq![missing_project_msg()],
        Some(p) => {
            let name_err = if given(p.name) {
                seq![]
            } else {
                seq![missing_field_msg("[project] name"@)]
            };
            let py_err = match p.python {
                Some(py) => if "3."@.is_prefix_of(py) {
                    seq![]
                } else {
                    seq![python_msg(py)]
                },
                None => seq![],
            };
            name_err + py_err
        },
    }
}

/// Problems of `[robot]`.
pub open spec fn robot_errors(r: Option<RawRobotView>) -> Seq<Seq<char>> {
    match r {
        Some(r) => match r.transport {
            Some(t) => if t == "ros2"@ {
                seq![]
            } else {
                seq![transport_msg(t)]
            },
            None => seq![],
        },
        None => seq![],
    }
}

/// One line per node whose script is missing.
pub open spec fn script_errors(ns: Seq<RawNodeView>) -> Seq<Seq<char>>
    decreases ns.len(),
{
    if ns.len() == 0 {
        seq![]
    } else {
        let n = ns.last();
        script_errors(ns.drop_last()) + if n.script_found {
            seq![]
        } else {
            seq![script_msg(n.name, n.script)]
        }
    }
}

/// Problems of `[nodes]`.
pub open spec fn node_errors(ns: Option<Seq<RawNodeView>>) -> Seq<Seq<char>> {
    match ns {
        None => seq![missing_nodes_msg()],
        Some(ns) => (if ns.len() == 0 {
            seq![empty_nodes_msg()]
        } else {
            seq![]
        }) + script_errors(ns),
    }
}

/// The nodes that resolution keeps: those whose script exists, with the script's
/// path under the root.
pub open spec fn found_nodes(ns: Seq<RawNodeView>, root: Seq<char>) -> Seq<NodeView>
    decreases ns.len(),
{
    if ns.len() == 0 {
        seq![]
    } else {
        let n = ns.last();
        found_nodes(ns.drop_last(), root) + if n.script_found {
            seq![NodeView { name: n.name, script: join_text(root, n.script), script_rel: n.script }]
        } else {
            seq![]
        }
    }
}

/// The names of nodes.
pub open spec fn node_names(ns: Seq<NodeView>) -> Seq<Seq<char>> {
    ns.map_values(|n: NodeView| n.name)
}

/// Problems of one launch entry at index `i`, given the known nodes.
pub open spec fn entry_errors(
    p: Seq<char>,
    n: RawLaunchNodeView,
    i: nat,
    known: Seq<Seq<char>>,
) -> Seq<Seq<char>> {
    match n.name {
        None => seq![missing_name_msg(p, i)],
        Some(name) => if !known.contains(name) {
            seq![unknown_node_msg(p, name)]
        } else {
            (match n.depends_on {
                Some(d) => if known.contains(d) {
                    seq![]
                } else {
                    seq![unknown_dep_msg(p, name, d)]
                },
                None => seq![],
            }) + (match n.delay {
                Some(d) => if d.negative {
                    seq![delay_msg(p, name, d.text)]
                } else {
                    seq![]
                },
                None => seq![],
            })
        },
    }
}

/// Problems of the entries of one pipeline, in order.
pub open spec fn entries_errors(
    p: Seq<char>,
    ns: Seq<RawLaunchNodeView>,
    known: Seq<Seq<char>>,
) -> Seq<Seq<char>>
    decreases ns.len(),
{
    if ns.len() == 0 {
        seq![]
    } else {
        entries_errors(p, ns.drop_last(), known) + entry_errors(
            p,
            ns.last(),
            (ns.len() - 1) as nat,
            known,
        )
    }
}

/// Problems of one pipeline.
pub open spec fn pipeline_errors(pl: RawLaunchPipelineView, known: Seq<Seq<char>>) -> Seq<
    Seq<char>,
> {
    match pl.nodes {
        Some(ns) => if ns.len() == 0 {
            seq![no_nodes_msg(pl.name)]
        } else {
            entries_errors(pl.name, ns, known)
        },
        None => seq![no_nodes_msg(pl.name)],
    }
}

/// Problems of all pipelines, in order.
pub open spec fn pipelines_errors(ps: Seq<RawLaunchPipelineView>, known: Seq<Seq<char>>) -> Seq<
    Seq<char>,
>
    decreases ps.len(),
{
    if ps.len() == 0 {
        seq![]
    } else {
        pipelines_errors(ps.drop_last(), known) + pipeline_errors(ps.last(), known)
    }
}

/// Problems of `[launch.*]`.
pub open spec fn launch_errors(l: Option<Seq<RawLaunchPipelineView>>, known: Seq<Seq<char>>) -> Seq<
    Seq<char>,
> {
    match l {
        Some(ps) => pipelines_errors(ps, known),
        None => seq![],
    }
}

/// The raw nodes, or none.
pub open spec fn raw_nodes(raw: RawConfigView) -> Seq<RawNodeView> {
    match raw.nodes {
        Some(ns) => ns,
        None => seq![],
    }
}

/// Every problem resolution reports, in the order it reports them.
pub open spec fn resolve_errors(raw: RawConfigView, root: Seq<char>) -> Seq<Seq<char>> {
    project_errors(raw.project) + robot_errors(raw.robot) + node_errors(raw.nodes) + launch_errors(
        raw.launch,
        node_names(found_nodes(raw_nodes(raw), root)),
    )
}

// ─── What resolution yields ──────────────────────────────────────────────────

/// The value or, when absent, the default.
pub open spec fn or_else<T>(o: Option<T>, d: T) -> T {
    match o {
        Some(v) => v,
        None => d,
    }
}

/// `[project]` resolved (when it has no problems).
pub open spec fn project_view(p: RawProjectView) -> ProjectView {
    ProjectView {
        name: p.name->0,
        version: or_else(p.version, "0.1.0"@),
        python: or_else(p.python, "3.11"@),
        description: p.description,
    }
}

/// `[robot]` resolved: platform `generic`, domain 0 and ROS 2 unless given.
pub open spec fn robot_view(r: Option<RawRobotView>) -> RobotView {
    match r {
        None => RobotView { platform: "generic"@, transport: Transport::Ros2, domain_id: 0 },
        Some(r) => RobotView {
            platform: or_else(r.platform, "generic"@),
            transport: Transport::Ros2,
            domain_id: or_else(r.domain_id, 0),
        },
    }
}

/// One launch entry resolved (when it has no problems).
pub open spec fn launch_node_view(n: RawLaunchNodeView) -> LaunchNodeView {
    LaunchNodeView {
        name: n.name->0,
        delay: or_else(n.delay, zero_delay()),
        depends_on: n.depends_on,
        wait_ready: or_else(n.wait_ready, false),
        params: or_else(n.params, seq![]),
    }
}

/// One pipeline resolved (when it has no problems).
pub open spec fn pipeline_view(p: RawLaunchPipelineView) -> PipelineView {
    PipelineView {
        name: p.name,
        nodes: or_else(p.nodes, seq![]).map_values(|n: RawLaunchNodeView| launch_node_view(n)),
    }
}

/// The pipelines resolved (when they have no problems).
pub open spec fn pipelines_view(l: Option<Seq<RawLaunchPipelineView>>) -> Seq<PipelineView> {
    or_else(l, seq![]).map_values(|p: RawLaunchPipelineView| pipeline_view(p))
}

/// `[dependencies]` resolved: a version when the value is a string.
pub open spec fn dependencies_view(d: Option<Seq<(Seq<char>, Option<Seq<char>>)>>) -> Seq<
    DependencyView,
> {
    or_else(d, seq![]).map_values(
        |e: (Seq<char>, Option<Seq<char>>)| DependencyView { name: e.0, version: e.1 },
    )
}

/// `[dev]` resolved: hot reload on and nothing ignored unless given.
pub open spec fn dev_view(d: Option<RawDevView>) -> DevView {
    match d {
        None => DevView { hot_reload: true, hot_reload_ignore: seq![] },
        Some(d) => DevView {
            hot_reload: or_else(d.hot_reload, true),
            hot_reload_ignore: or_else(d.hot_reload_ignore, seq![]),
        },
    }
}

/// The entries whose value is a string, with that string.
pub open spec fn string_entries(v: Seq<(Seq<char>, Option<Seq<char>>)>) -> Seq<
    (Seq<char>, Seq<char>),
>
    decreases v.len(),
{
    if v.len() == 0 {
        seq![]
    } else {
        let e = v.last();
        string_entries(v.drop_last()) + match e.1 {
            Some(s) => seq![(e.0, s)],
            None => seq![],
        }
    }
}

/// `[ros]` resolved: empty tables unless given; parameters keep string values only.
pub open spec fn ros_view(r: Option<RawRosView>) -> RosView {
    match r {
        None => RosView {
            remappings: seq![],
            namespace: None,
            node_args: seq![],
            parameters: seq![],
        },
        Some(r) => RosView {
            remappings: or_else(r.remappings, seq![]),
            namespace: r.namespace,
            node_args: or_else(r.node_args, seq![]),
            parameters: string_entries(or_else(r.parameters, seq![])),
        },
    }
}

/// The configuration resolved from a file that has no problems.
pub open spec fn config_view(raw: RawConfigView, root: Seq<char>) -> ConfigView {
    ConfigView {
        root,
        project: project_view(raw.project->0),
        robot: robot_view(raw.robot),
        nodes: found_nodes(raw_nodes(raw), root),
        launch: pipelines_view(raw.launch),
        dependencies: dependencies_view(raw.dependencies),
        dev: dev_view(raw.dev),
        ros: ros_view(raw.ros),
    }
}


// ─── Copies ──────────────────────────────────────────────────────────────────

fn copy_opt(o: &Option<String>) -> (r: Option<String>)
    ensures
        opt_view(r) == opt_view(*o),
{
    match o {
        Some(s) => Some(s.clone()),
        None => None,
    }
}

fn copy_strings(v: &Vec<String>) -> (r: Vec<String>)
    ensures
        views(r@) == views(v@),
{
    let mut r: Vec<String> = Vec::new();
    let mut i: usize = 0;
    while i < v.len()
        invariant
            i <= v@.len(),
            views(r@) == views(v@).take(i as int),
        decreases v@.len() - i,
    {
        let x = v[i].clone();
        let ghost prev = r@;
        r.push(x);
        assert(views(r@) =~= views(prev).push(x@));
        assert(views(v@).take(i + 1) =~= views(v@).take(i as int).push(views(v@)[i as int]));
        assert(views(r@) =~= views(v@).take(i + 1));
        i = i + 1;
    }
    assert(views(v@).take(i as int) =~= views(v@));
    r
}

fn copy_pairs(v: &Vec<(String, String)>) -> (r: Vec<(String, String)>)
    ensures
        pair_views(r@) == pair_views(v@),
{
    let mut r: Vec<(String, String)> = Vec::new();
    let mut i: usize = 0;
    while i < v.len()
        invariant
            i <= v@.len(),
            pair_views(r@) == pair_views(v@).take(i as int),
        decreases v@.len() - i,
    {
        let x = (v[i].0.clone(), v[i].1.clone());
        let ghost prev = r@;
        r.push(x);
        assert(pair_views(r@) =~= pair_views(prev).push((x.0@, x.1@)));
        assert(pair_views(v@).take(i + 1) =~= pair_views(v@).take(i as int).push(
            pair_views(v@)[i as int],
        ));
        assert(pair_views(r@) =~= pair_views(v@).take(i + 1));
        i = i + 1;
    }
    assert(pair_views(v@).take(i as int) =~= pair_views(v@));
    r
}

fn copy_list_entries(v: &Vec<(String, Vec<String>)>) -> (r: Vec<(String, Vec<String>)>)
    ensures
        list_entry_views(r@) == list_entry_views(v@),
{
    let mut r: Vec<(String, Vec<String>)> = Vec::new();
    let mut i: usize = 0;
    while i < v.len()
        invariant
            i <= v@.len(),
            list_entry_views(r@) == list_entry_views(v@).take(i as int),
        decreases v@.len() - i,
    {
        let x = (v[i].0.clone(), copy_strings(&v[i].1));
        let ghost prev = r@;
        r.push(x);
        assert(list_entry_views(r@) =~= list_entry_views(prev).push((x.0@, views(x.1@))));
        assert(list_entry_views(v@).take(i + 1) =~= list_entry_views(v@).take(i as int).push(
            list_entry_views(v@)[i as int],
        ));
        assert(list_entry_views(r@) =~= list_entry_views(v@).take(i + 1));
        i = i + 1;
    }
    assert(list_entry_views(v@).take(i as int) =~= list_entry_views(v@));
    r
}

// ─── Checks ──────────────────────────────────────────────────────────────────

/// The value of a required field, or a problem reported when it is absent or blank.
pub fn require_field(val: &Option<String>, field: &str, errors: &mut Vec<String>) -> (r: Option<
    String,
>)
    ensures
        given(opt_view(*val)) ==> r is Some && r->0@ == val->0@ && views(final(errors)@) == views(
            old(errors)@,
        ),
        !given(opt_view(*val)) ==> r is None && views(final(errors)@) == views(old(errors)@).push(
            missing_field_msg(field@),
        ),
{
    match val {
        Some(v) => {
            let t = trim_str(v.as_str());
            if !t.as_str().is_empty() {
                return Some(v.clone());
            }
        },
        None => {},
    }
    let mut m = String::from_str("  Missing required field: ");
    m.append(field);
    let ghost prev = errors@;
    errors.push(m);
    assert(views(errors@) =~= views(prev).push(m@));
    None
}

/// Appends one problem.
fn report(errors: &mut Vec<String>, m: String)
    ensures
        views(final(errors)@) == views(old(errors)@).push(m@),
{
    let ghost prev = errors@;
    errors.push(m);
    assert(views(errors@) =~= views(prev).push(m@));
}

fn resolve_project(raw: &RawConfig, errors: &mut Vec<String>) -> (r: Option<ProjectConfig>)
    ensures
        views(final(errors)@) == views(old(errors)@) + project_errors(raw@.project),
        project_errors(raw@.project).len() == 0 ==> r is Some && r->0@ == project_view(
            raw@.project->0,
        ),
{
    match &raw.project {
        None => {
            report(errors, String::from_str("  Missing required section [project]"));
            assert(views(errors@) =~= views(old(errors)@) + project_errors(raw@.project));
            None
        },
        Some(p) => {
            let ghost e0 = views(errors@);
            let name = require_field(&p.name, "[project] name", errors);
            let version = match &p.version {
                Some(v) => v.clone(),
                None => String::from_str("0.1.0"),
            };
            let python = match &p.python {
                Some(v) => v.clone(),
                None => String::from_str("3.11"),
            };
            let ghost e1 = views(errors@);
            match &p.python {
                Some(py) => {
                    if !str_starts_with(py.as_str(), "3.") {
                        let mut m = String::from_str("  [project] python must be 3.x, got \"");
                        m.append(py.as_str());
                        m.append("\"");
                        report(errors, m);
                    }
                },
                None => {},
            }
            assert(views(errors@) =~= e0 + project_errors(raw@.project));
            match name {
                Some(n) => Some(
                    ProjectConfig { name: n, version, python, description: copy_opt(&p.description) },
                ),
                None => None,
            }
        },
    }
}

fn resolve_robot(raw: &RawConfig, errors: &mut Vec<String>) -> (r: RobotConfig)
    ensures
        views(final(errors)@) == views(old(errors)@) + robot_errors(raw@.robot),
        r@ == robot_view(raw@.robot),
{
    match &raw.robot {
        None => {
            assert(views(errors@) =~= views(errors@) + robot_errors(raw@.robot));
            RobotConfig {
                platform: String::from_str("generic"),
                transport: Transport::Ros2,
                domain_id: 0,
            }
        },
        Some(r) => {
            let ghost e0 = views(errors@);
            match &r.transport {
                Some(t) => {
                    let ros2 = String::from_str("ros2");
                    if *t != ros2 {
                        let mut m = String::from_str("  [robot] transport \"");
                        m.append(t.as_str());
                        m.append("\" not supported. Use \"ros2\".");
                        report(errors, m);
                    }
                },
                None => {},
            }
            assert(views(errors@) =~= e0 + robot_errors(raw@.robot));
            RobotConfig {
                platform: match &r.platform {
                    Some(p) => p.clone(),
                    None => String::from_str("generic"),
                },
                transport: Transport::Ros2,
                domain_id: match r.domain_id {
                    Some(d) => d,
                    None => 0,
                },
            }
        },
    }
}

fn resolve_nodes(raw: &RawConfig, root: &FilePath, errors: &mut Vec<String>) -> (r: Vec<NodeConfig>)
    ensures
        views(final(errors)@) == views(old(errors)@) + node_errors(raw@.nodes),
        node_views(r@) == found_nodes(raw_nodes(raw@), root.text@),
{
    let mut nodes: Vec<NodeConfig> = Vec::new();
    match &raw.nodes {
        None => {
            report(errors, String::from_str("  Missing required section [nodes]"));
            assert(views(errors@) =~= views(old(errors)@) + node_errors(raw@.nodes));
            assert(node_views(nodes@) =~= found_nodes(raw_nodes(raw@), root.text@));
            nodes
        },
        Some(ns) => {
            let ghost e0 = views(errors@);
            if ns.len() == 0 {
                report(errors, String::from_str("  [nodes] is empty. Add at least one node."));
            }
            let ghost e1 = views(errors@);
            let ghost nv = ns@.map_values(|x: crate::config::RawNode| x@);
            let mut i: usize = 0;
            assert(views(errors@) =~= e1 + script_errors(nv.take(0)));
            assert(node_views(nodes@) =~= found_nodes(nv.take(0), root.text@));
            while i < ns.len()
                invariant
                    i <= ns@.len(),
                    nv == ns@.map_values(|x: crate::config::RawNode| x@),
                    views(errors@) == e1 + script_errors(nv.take(i as int)),
                    node_views(nodes@) == found_nodes(nv.take(i as int), root.text@),
                decreases ns@.len() - i,
            {
                let n = &ns[i];
                proof {
                    assert(nv.take(i + 1).drop_last() =~= nv.take(i as int));
                    assert(nv.take(i + 1).last() == n@);
                }
                if n.script_found {
                    let node = NodeConfig {
                        name: n.name.clone(),
                        script: root.join(n.script.as_str()),
                        script_rel: n.script.clone(),
                    };
                    let ghost prev = nodes@;
                    nodes.push(node);
                    assert(node_views(nodes@) =~= node_views(prev).push(node@));
                } else {
                    let mut m = String::from_str("  [nodes] \"");
                    m.append(n.name.as_str());
                    m.append("\": script not found at \"");
                    m.append(n.script.as_str());
                    m.append("\"");
                    report(errors, m);
                }
                i = i + 1;
                assert(views(errors@) =~= e1 + script_errors(nv.take(i as int)));
                assert(node_views(nodes@) =~= found_nodes(nv.take(i as int), root.text@));
            }
            assert(nv.take(i as int) =~= nv);
            assert(views(errors@) =~= e0 + node_errors(raw@.nodes));
            nodes
        },
    }
}


/// Whether a node of that name is among `nodes`.
pub fn has_node(nodes: &Vec<NodeConfig>, name: &String) -> (r: bool)
    ensures
        r == node_names(node_views(nodes@)).contains(name@),
{
    let mut i: usize = 0;
    while i < nodes.len()
        invariant
            i <= nodes@.len(),
            forall|j: int| 0 <= j < i ==> nodes@[j].name@ != name@,
        decreases nodes@.len() - i,
    {
        if nodes[i].name == *name {
            assert(node_names(node_views(nodes@))[i as int] == name@);
            return true;
        }
        i = i + 1;
    }
    assert forall|j: int| 0 <= j < node_names(node_views(nodes@)).len() implies node_names(
        node_views(nodes@),
    )[j] != name@ by {
        assert(node_names(node_views(nodes@))[j] == nodes@[j].name@);
    }
    false
}

fn resolve_entry(
    pname: &String,
    n: &RawLaunchNode,
    i: usize,
    nodes: &Vec<NodeConfig>,
    errors: &mut Vec<String>,
) -> (r: Option<LaunchNode>)
    ensures
        views(final(errors)@) == views(old(errors)@) + entry_errors(
            pname@,
            n@,
            i as nat,
            node_names(node_views(nodes@)),
        ),
        entry_errors(pname@, n@, i as nat, node_names(node_views(nodes@))).len() == 0 ==> r is Some
            && r->0@ == launch_node_view(n@),
{
    let ghost e0 = views(errors@);
    let node_name = match &n.name {
        Some(x) => x,
        None => {
            let mut m = String::from_str("  [launch.");
            m.append(pname.as_str());
            m.append("] node at index ");
            push_decimal(&mut m, i as u64);
            m.append(" is missing \"name\"");
            report(errors, m);
            assert(views(errors@) =~= e0 + entry_errors(
                pname@,
                n@,
                i as nat,
                node_names(node_views(nodes@)),
            ));
            return None;
        },
    };
    if !has_node(nodes, node_name) {
        let mut m = String::from_str("  [launch.");
        m.append(pname.as_str());
        m.append("] references unknown node \"");
        m.append(node_name.as_str());
        m.append("\"");
        report(errors, m);
        assert(views(errors@) =~= e0 + entry_errors(
            pname@,
            n@,
            i as nat,
            node_names(node_views(nodes@)),
        ));
        return None;
    }
    match &n.depends_on {
        Some(d) => {
            if !has_node(nodes, d) {
                let mut m = String::from_str("  [launch.");
                m.append(pname.as_str());
                m.append("] node \"");
                m.append(node_name.as_str());
                m.append("\" depends_on unknown node \"");
                m.append(d.as_str());
                m.append("\"");
                report(errors, m);
            }
        },
        None => {},
    }
    let delay = match &n.delay {
        Some(d) => d.duplicate(),
        None => Delay::zero(),
    };
    if delay.negative {
        let mut m = String::from_str("  [launch.");
        m.append(pname.as_str());
        m.append("] node \"");
        m.append(node_name.as_str());
        m.append("\" delay must be >= 0, got ");
        m.append(delay.text.as_str());
        report(errors, m);
    }
    assert(views(errors@) =~= e0 + entry_errors(
        pname@,
        n@,
        i as nat,
        node_names(node_views(nodes@)),
    ));
    let params = match &n.params {
        Some(p) => copy_pairs(p),
        None => {
            let v: Vec<(String, String)> = Vec::new();
            assert(pair_views(v@) =~= Seq::<(Seq<char>, Seq<char>)>::empty());
            v
        },
    };
    let node = LaunchNode {
        name: node_name.clone(),
        delay,
        depends_on: copy_opt(&n.depends_on),
        wait_ready: match n.wait_ready {
            Some(w) => w,
            None => false,
        },
        params,
    };
    assert(node@.params == or_else(n@.params, seq![]));
    assert(node@.delay == or_else(n@.delay, zero_delay()));
    Some(node)
}

/// The resolved entries of `ns.take(i)` when none of them has a problem.
pub open spec fn entries_view(ns: Seq<RawLaunchNodeView>) -> Seq<LaunchNodeView> {
    ns.map_values(|n: RawLaunchNodeView| launch_node_view(n))
}

fn resolve_pipeline(pl: &RawLaunchPipeline, nodes: &Vec<NodeConfig>, errors: &mut Vec<String>) -> (r:
    Option<LaunchPipeline>)
    ensures
        views(final(errors)@) == views(old(errors)@) + pipeline_errors(
            pl@,
            node_names(node_views(nodes@)),
        ),
        pipeline_errors(pl@, node_names(node_views(nodes@))).len() == 0 ==> r is Some && r->0@
            == pipeline_view(pl@),
{
    let ghost e0 = views(errors@);
    let ghost known = node_names(node_views(nodes@));
    let entries = match &pl.nodes {
        Some(v) => v,
        None => {
            let mut m = String::from_str("  [launch.");
            m.append(pl.name.as_str());
            m.append("] has no nodes defined.");
            report(errors, m);
            return None;
        },
    };
    if entries.len() == 0 {
        let mut m = String::from_str("  [launch.");
        m.append(pl.name.as_str());
        m.append("] has no nodes defined.");
        report(errors, m);
        return None;
    }
    let ghost ev = entries@.map_values(|x: RawLaunchNode| x@);
    let mut out: Vec<LaunchNode> = Vec::new();
    let mut i: usize = 0;
    assert(views(errors@) =~= e0 + entries_errors(pl.name@, ev.take(0), known));
    while i < entries.len()
        invariant
            i <= entries@.len(),
            known == node_names(node_views(nodes@)),
            ev == entries@.map_values(|x: RawLaunchNode| x@),
            views(errors@) == e0 + entries_errors(pl.name@, ev.take(i as int), known),
            entries_errors(pl.name@, ev.take(i as int), known).len() == 0 ==> out@.map_values(
                |n: LaunchNode| n@,
            ) == entries_view(ev.take(i as int)),
        decreases entries@.len() - i,
    {
        proof {
            assert(ev.take(i + 1).drop_last() =~= ev.take(i as int));
            assert(ev.take(i + 1).last() == entries@[i as int]@);
        }
        let ghost before = entries_errors(pl.name@, ev.take(i as int), known);
        let ghost prev = out@;
        let r = resolve_entry(&pl.name, &entries[i], i, nodes, errors);
        match r {
            Some(x) => {
                let ghost xv = x@;
                out.push(x);
                assert(out@.map_values(|n: LaunchNode| n@) =~= prev.map_values(|n: LaunchNode| n@).push(xv));
            },
            None => {},
        }
        assert(entries_view(ev.take(i + 1)) =~= entries_view(ev.take(i as int)).push(
            launch_node_view(ev[i as int]),
        ));
        i = i + 1;
        proof {
            let now = entries_errors(pl.name@, ev.take(i as int), known);
            assert(views(errors@) =~= e0 + now);
            if now.len() == 0 {
                assert(before.len() == 0);
                assert(out@.map_values(|n: LaunchNode| n@) =~= entries_view(ev.take(i as int)));
            }
        }
    }
    assert(ev.take(i as int) =~= ev);
    Some(LaunchPipeline { name: pl.name.clone(), nodes: out })
}

fn resolve_launch(raw: &RawConfig, nodes: &Vec<NodeConfig>, errors: &mut Vec<String>) -> (r: Vec<
    LaunchPipeline,
>)
    ensures
        views(final(errors)@) == views(old(errors)@) + launch_errors(
            raw@.launch,
            node_names(node_views(nodes@)),
        ),
        launch_errors(raw@.launch, node_names(node_views(nodes@))).len() == 0 ==> pipeline_views(
            r@,
        ) == pipelines_view(raw@.launch),
{
    let ghost e0 = views(errors@);
    let ghost known = node_names(node_views(nodes@));
    let mut out: Vec<LaunchPipeline> = Vec::new();
    match &raw.launch {
        None => {
            assert(views(errors@) =~= e0 + launch_errors(raw@.launch, known));
            assert(pipeline_views(out@) =~= pipelines_view(raw@.launch));
            out
        },
        Some(ps) => {
            let ghost pv = ps@.map_values(|x: RawLaunchPipeline| x@);
            let mut i: usize = 0;
            assert(views(errors@) =~= e0 + pipelines_errors(pv.take(0), known));
            while i < ps.len()
                invariant
                    i <= ps@.len(),
                    known == node_names(node_views(nodes@)),
                    pv == ps@.map_values(|x: RawLaunchPipeline| x@),
                    views(errors@) == e0 + pipelines_errors(pv.take(i as int), known),
                    pipelines_errors(pv.take(i as int), known).len() == 0 ==> pipeline_views(out@)
                        == pv.take(i as int).map_values(
                        |p: RawLaunchPipelineView| pipeline_view(p),
                    ),
                decreases ps@.len() - i,
            {
                proof {
                    assert(pv.take(i + 1).drop_last() =~= pv.take(i as int));
                    assert(pv.take(i + 1).last() == ps@[i as int]@);
                }
                let ghost before = pipelines_errors(pv.take(i as int), known);
                let ghost prev = out@;
                let r = resolve_pipeline(&ps[i], nodes, errors);
                match r {
                    Some(x) => {
                        let ghost xv = x@;
                        out.push(x);
                        assert(pipeline_views(out@) =~= pipeline_views(prev).push(xv));
                    },
                    None => {},
                }
                assert(pv.take(i + 1).map_values(|p: RawLaunchPipelineView| pipeline_view(p))
                    =~= pv.take(i as int).map_values(
                    |p: RawLaunchPipelineView| pipeline_view(p),
                ).push(pipeline_view(pv[i as int])));
                i = i + 1;
                proof {
                    let now = pipelines_errors(pv.take(i as int), known);
                    assert(views(errors@) =~= e0 + now);
                    if now.len() == 0 {
                        assert(before.len() == 0);
                        assert(pipeline_views(out@) =~= pv.take(i as int).map_values(
                            |p: RawLaunchPipelineView| pipeline_view(p),
                        ));
                    }
                }
            }
            assert(pv.take(i as int) =~= pv);
            out
        },
    }
}


fn resolve_dependencies(raw: &RawConfig) -> (r: Vec<Dependency>)
    ensures
        r@.map_values(|d: Dependency| d@) == dependencies_view(raw@.dependencies),
{
    let mut out: Vec<Dependency> = Vec::new();
    match &raw.dependencies {
        None => {
            assert(out@.map_values(|d: Dependency| d@) =~= dependencies_view(raw@.dependencies));
            out
        },
        Some(ds) => {
            let ghost dv = value_entry_views(ds@);
            let ghost f = |e: (Seq<char>, Option<Seq<char>>)|
                DependencyView { name: e.0, version: e.1 };
            let mut i: usize = 0;
            while i < ds.len()
                invariant
                    i <= ds@.len(),
                    dv == value_entry_views(ds@),
                    f == (|e: (Seq<char>, Option<Seq<char>>)|
                        DependencyView { name: e.0, version: e.1 }),
                    out@.map_values(|d: Dependency| d@) == dv.take(i as int).map_values(f),
                decreases ds@.len() - i,
            {
                let entry = &ds[i];
                let version = match &entry.1 {
                    crate::config::TomlValue::Text(t) => Some(t.clone()),
                    crate::config::TomlValue::Other => None,
                };
                let d = Dependency { name: entry.0.clone(), version };
                let ghost prev = out@;
                out.push(d);
                assert(out@.map_values(|d: Dependency| d@) =~= prev.map_values(|d: Dependency| d@).push(
                    d@,
                ));
                assert(dv.take(i + 1).map_values(f) =~= dv.take(i as int).map_values(f).push(
                    f(dv[i as int]),
                ));
                i = i + 1;
            }
            assert(dv.take(i as int) =~= dv);
            out
        },
    }
}

fn resolve_dev(raw: &RawConfig) -> (r: DevConfig)
    ensures
        r@ == dev_view(raw@.dev),
{
    match &raw.dev {
        None => {
            let v: Vec<String> = Vec::new();
            assert(views(v@) =~= Seq::<Seq<char>>::empty());
            DevConfig { hot_reload: true, hot_reload_ignore: v }
        },
        Some(d) => {
            let ignore = match &d.hot_reload_ignore {
                Some(v) => copy_strings(v),
                None => {
                    let v: Vec<String> = Vec::new();
                    assert(views(v@) =~= Seq::<Seq<char>>::empty());
                    v
                },
            };
            DevConfig {
                hot_reload: match d.hot_reload {
                    Some(h) => h,
                    None => true,
                },
                hot_reload_ignore: ignore,
            }
        },
    }
}

fn string_parameters(v: &Vec<(String, crate::config::TomlValue)>) -> (r: Vec<(String, String)>)
    ensures
        pair_views(r@) == string_entries(value_entry_views(v@)),
{
    let ghost vv = value_entry_views(v@);
    let mut out: Vec<(String, String)> = Vec::new();
    let mut i: usize = 0;
    assert(pair_views(out@) =~= string_entries(vv.take(0)));
    while i < v.len()
        invariant
            i <= v@.len(),
            vv == value_entry_views(v@),
            pair_views(out@) == string_entries(vv.take(i as int)),
        decreases v@.len() - i,
    {
        proof {
            assert(vv.take(i + 1).drop_last() =~= vv.take(i as int));
            assert(vv.take(i + 1).last() == vv[i as int]);
        }
        let ghost prev = out@;
        match &v[i].1 {
            crate::config::TomlValue::Text(t) => {
                let e = (v[i].0.clone(), t.clone());
                out.push(e);
                assert(pair_views(out@) =~= pair_views(prev).push((e.0@, e.1@)));
            },
            crate::config::TomlValue::Other => {},
        }
        i = i + 1;
        assert(pair_views(out@) =~= string_entries(vv.take(i as int)));
    }
    assert(vv.take(i as int) =~= vv);
    out
}

fn resolve_ros(raw: &RawConfig) -> (r: RosConfig)
    ensures
        r@ == ros_view(raw@.ros),
{
    match &raw.ros {
        None => {
            let a: Vec<(String, String)> = Vec::new();
            let b: Vec<(String, Vec<String>)> = Vec::new();
            let c: Vec<(String, String)> = Vec::new();
            assert(pair_views(a@) =~= Seq::<(Seq<char>, Seq<char>)>::empty());
            assert(list_entry_views(b@) =~= Seq::<(Seq<char>, Seq<Seq<char>>)>::empty());
            assert(pair_views(c@) =~= Seq::<(Seq<char>, Seq<char>)>::empty());
            RosConfig { remappings: a, namespace: None, node_args: b, parameters: c }
        },
        Some(r) => {
            let remappings = match &r.remappings {
                Some(v) => copy_pairs(v),
                None => {
                    let a: Vec<(String, String)> = Vec::new();
                    assert(pair_views(a@) =~= Seq::<(Seq<char>, Seq<char>)>::empty());
                    a
                },
            };
            let node_args = match &r.node_args {
                Some(v) => copy_list_entries(v),
                None => {
                    let b: Vec<(String, Vec<String>)> = Vec::new();
                    assert(list_entry_views(b@) =~= Seq::<(Seq<char>, Seq<Seq<char>>)>::empty());
                    b
                },
            };
            let parameters = match &r.parameters {
                Some(v) => string_parameters(v),
                None => {
                    let c: Vec<(String, String)> = Vec::new();
                    assert(pair_views(c@) =~= Seq::<(Seq<char>, Seq<char>)>::empty());
                    assert(string_entries(seq![]) =~= Seq::<(Seq<char>, Seq<char>)>::empty());
                    c
                },
            };
            RosConfig { remappings, namespace: copy_opt(&r.namespace), node_args, parameters }
        },
    }
}

impl ReachConfig {
    /// Resolves a configuration read from the file at `root`: checks every section,
    /// applies the defaults, and reports every problem found, one per line, in the
    /// order of the sections.
    pub fn resolve(raw: RawConfig, root: FilePath) -> (r: Result<ReachConfig, ConfigError>)
        ensures
            match r {
                Ok(c) => resolve_errors(raw@, root.text@).len() == 0 && c@ == config_view(
                    raw@,
                    root.text@,
                ) && (raw_keys_distinct(raw@) ==> keys_distinct(c@)),
                Err(e) => resolve_errors(raw@, root.text@).len() > 0 && match e {
                    ConfigError::ValidationError(m) => m@ == join(
                        resolve_errors(raw@, root.text@),
                        "\n"@,
                    ),
                    _ => false,
                },
            },
    {
        let mut errors: Vec<String> = Vec::new();
        assert(views(errors@) =~= Seq::<Seq<char>>::empty());
        let project = resolve_project(&raw, &mut errors);
        let robot = resolve_robot(&raw, &mut errors);
        let nodes = resolve_nodes(&raw, &root, &mut errors);
        let launch = resolve_launch(&raw, &nodes, &mut errors);
        let dependencies = resolve_dependencies(&raw);
        let dev = resolve_dev(&raw);
        let ros = resolve_ros(&raw);
        let ghost all = resolve_errors(raw@, root.text@);
        assert(views(errors@) =~= all);
        if errors.len() > 0 {
            return Err(ConfigError::ValidationError(join_strings(&errors, "\n")));
        }
        assert(project_errors(raw@.project).len() == 0);
        assert(launch_errors(raw@.launch, node_names(node_views(nodes@))).len() == 0);
        proof {
            if raw_keys_distinct(raw@) {
                law_resolution_keeps_keys_distinct(raw@, root.text@);
            }
        }
        match project {
            Some(project) => Ok(
                ReachConfig { root, project, robot, nodes, launch, dependencies, dev, ros },
            ),
            None => Err(ConfigError::ValidationError(join_strings(&errors, "\n"))),
        }
    }
}


// ─── Laws ────────────────────────────────────────────────────────────────────

proof fn lemma_entries_clean(p: Seq<char>, ns: Seq<RawLaunchNodeView>, known: Seq<Seq<char>>)
    requires
        entries_errors(p, ns, known).len() == 0,
    ensures
        forall|j: int|
            0 <= j < ns.len() ==> #[trigger] entry_errors(p, ns[j], j as nat, known).len() == 0,
    decreases ns.len(),
{
    if ns.len() > 0 {
        lemma_entries_clean(p, ns.drop_last(), known);
        assert forall|j: int| 0 <= j < ns.len() implies #[trigger] entry_errors(
            p,
            ns[j],
            j as nat,
            known,
        ).len() == 0 by {
            if j < ns.len() - 1 {
                assert(ns.drop_last()[j] == ns[j]);
            }
        }
    }
}

proof fn lemma_pipelines_clean(ps: Seq<RawLaunchPipelineView>, known: Seq<Seq<char>>)
    requires
        pipelines_errors(ps, known).len() == 0,
    ensures
        forall|k: int| 0 <= k < ps.len() ==> #[trigger] pipeline_errors(ps[k], known).len() == 0,
    decreases ps.len(),
{
    if ps.len() > 0 {
        lemma_pipelines_clean(ps.drop_last(), known);
        assert forall|k: int| 0 <= k < ps.len() implies #[trigger] pipeline_errors(
            ps[k],
            known,
        ).len() == 0 by {
            if k < ps.len() - 1 {
                assert(ps.drop_last()[k] == ps[k]);
            }
        }
    }
}

proof fn lemma_found_names(ns: Seq<RawNodeView>, root: Seq<char>)
    requires
        script_errors(ns).len() == 0,
    ensures
        found_nodes(ns, root).len() == ns.len(),
        forall|i: int|
            0 <= i < ns.len() ==> #[trigger] found_nodes(ns, root)[i] == (NodeView {
                name: ns[i].name,
                script: join_text(root, ns[i].script),
                script_rel: ns[i].script,
            }),
    decreases ns.len(),
{
    if ns.len() > 0 {
        lemma_found_names(ns.drop_last(), root);
        assert forall|i: int| 0 <= i < ns.len() implies #[trigger] found_nodes(ns, root)[i] == (
        NodeView {
            name: ns[i].name,
            script: join_text(root, ns[i].script),
            script_rel: ns[i].script,
        }) by {
            if i < ns.len() - 1 {
                assert(ns.drop_last()[i] == ns[i]);
            }
        }
    }
}

/// In a configuration that resolves, every pipeline has at least one step, every
/// step names a node of `[nodes]`, every `depends_on` names a node of `[nodes]`,
/// and no delay is negative.
pub proof fn law_pipelines_use_known_nodes(raw: RawConfigView, root: Seq<char>)
    requires
        resolve_errors(raw, root).len() == 0,
    ensures
        ({
            let c = config_view(raw, root);
            forall|i: int, j: int|
                0 <= i < c.launch.len() && 0 <= j < c.launch[i].nodes.len() ==> {
                    let step = #[trigger] c.launch[i].nodes[j];
                    &&& node_names(c.nodes).contains(step.name)
                    &&& (step.depends_on matches Some(d) ==> node_names(c.nodes).contains(d))
                    &&& !step.delay.negative
                }
        }),
        ({
            let c = config_view(raw, root);
            forall|i: int| 0 <= i < c.launch.len() ==> #[trigger] c.launch[i].nodes.len() > 0
        }),
{
    let c = config_view(raw, root);
    let known = node_names(found_nodes(raw_nodes(raw), root));
    if raw.launch is Some {
        let ps = raw.launch->0;
        lemma_pipelines_clean(ps, known);
        assert forall|i: int| 0 <= i < c.launch.len() implies #[trigger] c.launch[i].nodes.len()
            > 0 by {
            assert(pipeline_errors(ps[i], known).len() == 0);
        }
        assert forall|i: int, j: int|
            0 <= i < c.launch.len() && 0 <= j < c.launch[i].nodes.len() implies {
            let step = #[trigger] c.launch[i].nodes[j];
            &&& node_names(c.nodes).contains(step.name)
            &&& (step.depends_on matches Some(d) ==> node_names(c.nodes).contains(d))
            &&& !step.delay.negative
        } by {
            assert(pipeline_errors(ps[i], known).len() == 0);
            let ns = ps[i].nodes->0;
            lemma_entries_clean(ps[i].name, ns, known);
            assert(entry_errors(ps[i].name, ns[j], j as nat, known).len() == 0);
        }
    }
}

/// In a configuration that resolves, every node of `[nodes]` is kept, in order,
/// with its script's path joined onto the workspace root.
pub proof fn law_nodes_resolved_under_root(raw: RawConfigView, root: Seq<char>)
    requires
        resolve_errors(raw, root).len() == 0,
    ensures
        raw.nodes is Some,
        config_view(raw, root).nodes.len() == raw.nodes->0.len() > 0,
        forall|i: int|
            0 <= i < raw.nodes->0.len() ==> {
                let n = #[trigger] config_view(raw, root).nodes[i];
                &&& n.name == raw.nodes->0[i].name
                &&& n.script_rel == raw.nodes->0[i].script
                &&& n.script == join_text(root, raw.nodes->0[i].script)
            },
{
    let ns = raw.nodes->0;
    assert(node_errors(raw.nodes).len() == 0);
    lemma_found_names(ns, root);
}

/// A configuration that resolves gets the documented defaults for what it leaves
/// out: version `0.1.0`, Python `3.11`, platform `generic`, domain 0, ROS 2 as the
/// transport, hot reload on.
pub proof fn law_defaults_applied(raw: RawConfigView, root: Seq<char>)
    requires
        resolve_errors(raw, root).len() == 0,
    ensures
        raw.project is Some,
        raw.project->0.version is None ==> config_view(raw, root).project.version == "0.1.0"@,
        raw.project->0.python is None ==> config_view(raw, root).project.python == "3.11"@,
        raw.robot is None ==> config_view(raw, root).robot.platform == "generic"@ && config_view(
            raw,
            root,
        ).robot.domain_id == 0,
        config_view(raw, root).robot.transport == Transport::Ros2,
        raw.dev is None ==> config_view(raw, root).dev.hot_reload,
        config_view(raw, root).project.name == raw.project->0.name->0,
{
}

/// Hot reload is on unless `[dev]` turns it off: a configuration that resolves
/// has `hot_reload` as given under `[dev]`, and `true` when the key is missing,
/// whether or not `[dev]` is there; the ignore patterns are those given, or none.
pub proof fn law_hot_reload_default(raw: RawConfigView, root: Seq<char>)
    requires
        resolve_errors(raw, root).len() == 0,
    ensures
        config_view(raw, root).dev.hot_reload == match raw.dev {
            Some(d) => match d.hot_reload {
                Some(b) => b,
                None => true,
            },
            None => true,
        },
        config_view(raw, root).dev.hot_reload_ignore == match raw.dev {
            Some(d) => match d.hot_reload_ignore {
                Some(v) => v,
                None => Seq::<Seq<char>>::empty(),
            },
            None => Seq::<Seq<char>>::empty(),
        },
{
}

// ─── Distinct keys ───────────────────────────────────────────────────────────

/// The keys of a list of entries.
pub open spec fn keys_of<V>(v: Seq<(Seq<char>, V)>) -> Seq<Seq<char>> {
    v.map_values(|e: (Seq<char>, V)| e.0)
}

/// The keys of an optional table are distinct.
pub open spec fn table_keys_distinct<V>(t: Option<Seq<(Seq<char>, V)>>) -> bool {
    t matches Some(v) ==> keys_of(v).no_duplicates()
}

/// Each step's `params` table of a pipeline as read has distinct keys.
pub open spec fn raw_step_keys_distinct(p: RawLaunchPipelineView) -> bool {
    p.nodes matches Some(ns) ==> forall|j: int|
        0 <= j < ns.len() ==> #[trigger] table_keys_distinct(ns[j].params)
}

/// `[ros]` as read has tables with distinct keys.
pub open spec fn raw_ros_keys_distinct(r: RawRosView) -> bool {
    &&& table_keys_distinct(r.remappings)
    &&& table_keys_distinct(r.node_args)
    &&& table_keys_distinct(r.parameters)
}

/// Every table of the file as read has distinct keys, as every TOML table has:
/// node names, pipeline names, step parameters, dependencies and the `[ros]` tables.
pub open spec fn raw_keys_distinct(raw: RawConfigView) -> bool {
    &&& (raw.nodes matches Some(ns) ==> ns.map_values(|n: RawNodeView| n.name).no_duplicates())
    &&& (raw.launch matches Some(ps) ==> ps.map_values(|p: RawLaunchPipelineView| p.name).no_duplicates()
        && forall|k: int| 0 <= k < ps.len() ==> #[trigger] raw_step_keys_distinct(ps[k]))
    &&& table_keys_distinct(raw.dependencies)
    &&& (raw.ros matches Some(r) ==> raw_ros_keys_distinct(r))
}

/// A resolved configuration keeps one entry per key: node names, pipeline names,
/// each step's parameters, dependency names and the `[ros]` tables are distinct.
pub open spec fn keys_distinct(c: ConfigView) -> bool {
    &&& node_names(c.nodes).no_duplicates()
    &&& c.launch.map_values(|p: PipelineView| p.name).no_duplicates()
    &&& forall|k: int, j: int|
        0 <= k < c.launch.len() && 0 <= j < c.launch[k].nodes.len() ==> keys_of(
            #[trigger] c.launch[k].nodes[j].params,
        ).no_duplicates()
    &&& c.dependencies.map_values(|d: DependencyView| d.name).no_duplicates()
    &&& keys_of(c.ros.remappings).no_duplicates()
    &&& keys_of(c.ros.node_args).no_duplicates()
    &&& keys_of(c.ros.parameters).no_duplicates()
}

proof fn lemma_string_entry_keys(v: Seq<(Seq<char>, Option<Seq<char>>)>)
    ensures
        forall|i: int|
            0 <= i < string_entries(v).len() ==> #[trigger] keys_of(v).contains(
                string_entries(v)[i].0,
            ),
        keys_of(v).no_duplicates() ==> keys_of(string_entries(v)).no_duplicates(),
    decreases v.len(),
{
    if v.len() > 0 {
        let d = v.drop_last();
        lemma_string_entry_keys(d);
        let prev = string_entries(d);
        assert forall|i: int| 0 <= i < string_entries(v).len() implies #[trigger] keys_of(
            v,
        ).contains(string_entries(v)[i].0) by {
            if i < prev.len() {
                assert(string_entries(v)[i] == prev[i]);
                assert(keys_of(d).contains(prev[i].0));
                let w = choose|w: int| 0 <= w < keys_of(d).len() && keys_of(d)[w] == prev[i].0;
                assert(d[w] == v[w]);
                assert(keys_of(v)[w] == keys_of(d)[w]);
            } else {
                assert(keys_of(v)[v.len() - 1] == v.last().0);
            }
        }
        if keys_of(v).no_duplicates() {
            assert(keys_of(d).no_duplicates()) by {
                assert forall|a: int, b: int|
                    0 <= a < keys_of(d).len() && 0 <= b < keys_of(d).len() && a != b implies keys_of(
                    d,
                )[a] != keys_of(d)[b] by {
                    assert(keys_of(d)[a] == keys_of(v)[a]);
                    assert(keys_of(d)[b] == keys_of(v)[b]);
                }
            }
            assert forall|i: int| 0 <= i < prev.len() implies #[trigger] prev[i].0 != v.last().0 by {
                assert(keys_of(d).contains(prev[i].0));
                let w = choose|w: int| 0 <= w < keys_of(d).len() && keys_of(d)[w] == prev[i].0;
                assert(d[w] == v[w]);
                assert(keys_of(v)[w] == prev[i].0);
                assert(keys_of(v)[v.len() - 1] == v.last().0);
            }
            assert forall|a: int, b: int|
                0 <= a < keys_of(string_entries(v)).len() && 0 <= b < keys_of(
                    string_entries(v),
                ).len() && a != b implies keys_of(string_entries(v))[a] != keys_of(
                string_entries(v),
            )[b] by {
                if a < prev.len() {
                    assert(keys_of(string_entries(v))[a] == keys_of(prev)[a]);
                }
                if b < prev.len() {
                    assert(keys_of(string_entries(v))[b] == keys_of(prev)[b]);
                }
                if a < prev.len() && b >= prev.len() {
                    assert(prev[a].0 != v.last().0);
                }
                if b < prev.len() && a >= prev.len() {
                    assert(prev[b].0 != v.last().0);
                }
            }
        }
    }
}

/// A configuration that resolves from a file whose tables have distinct keys has
/// distinct keys too: one node per name, one pipeline per name, one value per
/// parameter, dependency, remapping and node argument list.
pub proof fn law_resolution_keeps_keys_distinct(raw: RawConfigView, root: Seq<char>)
    requires
        raw_keys_distinct(raw),
        resolve_errors(raw, root).len() == 0,
    ensures
        keys_distinct(config_view(raw, root)),
{
    let c = config_view(raw, root);
    let ns = raw.nodes->0;
    assert(node_errors(raw.nodes).len() == 0);
    lemma_found_names(ns, root);
    assert(node_names(c.nodes) =~= ns.map_values(|n: RawNodeView| n.name));
    let ps = or_else(raw.launch, seq![]);
    assert(c.launch.map_values(|p: PipelineView| p.name) =~= ps.map_values(
        |p: RawLaunchPipelineView| p.name,
    ));
    assert forall|k: int, j: int|
        0 <= k < c.launch.len() && 0 <= j < c.launch[k].nodes.len() implies keys_of(
        #[trigger] c.launch[k].nodes[j].params,
    ).no_duplicates() by {
        assert(c.launch[k] == pipeline_view(ps[k]));
        assert(raw_step_keys_distinct(ps[k]));
        let steps = or_else(ps[k].nodes, seq![]);
        assert(c.launch[k].nodes[j] == launch_node_view(steps[j]));
        assert(table_keys_distinct(steps[j].params));
        if steps[j].params is None {
            assert(keys_of(c.launch[k].nodes[j].params) =~= Seq::<Seq<char>>::empty());
        }
    }
    let ds = or_else(raw.dependencies, seq![]);
    assert(c.dependencies.map_values(|d: DependencyView| d.name) =~= keys_of(ds));
    match raw.ros {
        None => {
            assert(keys_of(c.ros.remappings) =~= Seq::<Seq<char>>::empty());
            assert(keys_of(c.ros.node_args) =~= Seq::<Seq<char>>::empty());
            assert(keys_of(c.ros.parameters) =~= Seq::<Seq<char>>::empty());
        },
        Some(r) => {
            if r.remappings is None {
                assert(keys_of(c.ros.remappings) =~= Seq::<Seq<char>>::empty());
            }
            if r.node_args is None {
                assert(keys_of(c.ros.node_args) =~= Seq::<Seq<char>>::empty());
            }
            let pv = or_else(r.parameters, seq![]);
            if r.parameters is None {
                assert(keys_of(pv) =~= Seq::<Seq<char>>::empty());
            }
            lemma_string_entry_keys(pv);
        },
    }
}

proof fn lemma_entries_contain(
    p: Seq<char>,
    ns: Seq<RawLaunchNodeView>,
    known: Seq<Seq<char>>,
    j: int,
    e: Seq<char>,
)
    requires
        0 <= j < ns.len(),
        entry_errors(p, ns[j], j as nat, known).contains(e),
    ensures
        entries_errors(p, ns, known).contains(e),
    decreases ns.len(),
{
    if j < ns.len() - 1 {
        assert(ns.drop_last()[j] == ns[j]);
        lemma_entries_contain(p, ns.drop_last(), known, j, e);
        let es = entries_errors(p, ns.drop_last(), known);
        let w = choose|w: int| 0 <= w < es.len() && #[trigger] es[w] == e;
        assert(entries_errors(p, ns, known)[w] == e);
    } else {
        let es = entry_errors(p, ns[j], j as nat, known);
        let w = choose|w: int| 0 <= w < es.len() && #[trigger] es[w] == e;
        assert(entries_errors(p, ns, known)[entries_errors(p, ns.drop_last(), known).len() + w]
            == e);
    }
}

proof fn lemma_pipelines_contain(
    ps: Seq<RawLaunchPipelineView>,
    known: Seq<Seq<char>>,
    k: int,
    e: Seq<char>,
)
    requires
        0 <= k < ps.len(),
        pipeline_errors(ps[k], known).contains(e),
    ensures
        pipelines_errors(ps, known).contains(e),
    decreases ps.len(),
{
    if k < ps.len() - 1 {
        assert(ps.drop_last()[k] == ps[k]);
        lemma_pipelines_contain(ps.drop_last(), known, k, e);
        let es = pipelines_errors(ps.drop_last(), known);
        let w = choose|w: int| 0 <= w < es.len() && #[trigger] es[w] == e;
        assert(pipelines_errors(ps, known)[w] == e);
    } else {
        let es = pipeline_errors(ps[k], known);
        let w = choose|w: int| 0 <= w < es.len() && #[trigger] es[w] == e;
        assert(pipelines_errors(ps, known)[pipelines_errors(ps.drop_last(), known).len() + w]
            == e);
    }
}

/// A launch step that names a node missing from `[nodes]` (or whose script is not
/// found) makes resolution fail, and the message names that node and says which
/// pipeline refers to it.
pub proof fn law_unknown_node_reported(raw: RawConfigView, root: Seq<char>, k: int, j: int)
    requires
        raw.launch is Some,
        0 <= k < raw.launch->0.len(),
        raw.launch->0[k].nodes is Some,
        0 <= j < raw.launch->0[k].nodes->0.len(),
        raw.launch->0[k].nodes->0[j].name is Some,
        !node_names(found_nodes(raw_nodes(raw), root)).contains(
            raw.launch->0[k].nodes->0[j].name->0,
        ),
    ensures
        resolve_errors(raw, root).len() > 0,
        resolve_errors(raw, root).contains(
            unknown_node_msg(raw.launch->0[k].name, raw.launch->0[k].nodes->0[j].name->0),
        ),
        seq_contains(join(resolve_errors(raw, root), "\n"@), raw.launch->0[k].nodes->0[j].name->0),
{
    let ps = raw.launch->0;
    let pl = ps[k];
    let ns = pl.nodes->0;
    let nm = ns[j].name->0;
    let known = node_names(found_nodes(raw_nodes(raw), root));
    let m = unknown_node_msg(pl.name, nm);
    assert(entry_errors(pl.name, ns[j], j as nat, known) == seq![m]);
    assert(entry_errors(pl.name, ns[j], j as nat, known)[0] == m);
    lemma_entries_contain(pl.name, ns, known, j, m);
    lemma_pipelines_contain(ps, known, k, m);
    let all = resolve_errors(raw, root);
    let front = project_errors(raw.project) + robot_errors(raw.robot) + node_errors(raw.nodes);
    let es = pipelines_errors(ps, known);
    let w = choose|w: int| 0 <= w < es.len() && #[trigger] es[w] == m;
    assert(all[front.len() + w] == m);
    assert(all.contains(m));
    lemma_join_contains(all, "\n"@, front.len() + w);
    let i = choose|i: int| occurs_at(join(all, "\n"@), m, i);
    let pre = "  [launch."@ + pl.name + "] references unknown node \""@;
    assert(occurs_at(m, nm, pre.len() as int)) by {
        assert(m.subrange(pre.len() as int, (pre.len() + nm.len()) as int) =~= nm);
    }
    lemma_occurs_trans(join(all, "\n"@), m, nm, i, pre.len() as int);
}

} // verus!
