//! What `reach run` and `reach launch` start: which nodes, with which command lines,
//! in which order, and which node a changed file belongs to.

use vstd::prelude::*;

use crate::config::{
    node_views, pair_views, pipeline_views, ConfigView, Delay, DelayView, LaunchNodeView,
    NodeConfig, NodeView, PipelineView, ReachConfig, list_entry_views,
};
use crate::path::{comps_of, parent_of, same_parent, same_path, FilePath};
use crate::text::{decimal, push_decimal, views};

verus! {

// ─── Lookups ─────────────────────────────────────────────────────────────────

/// The first node with that name.
pub open spec fn find_node(ns: Seq<NodeView>, name: Seq<char>) -> Option<NodeView>
    decreases ns.len(),
{
    if ns.len() == 0 {
        None
    } else if ns[0].name == name {
        Some(ns[0])
    } else {
        find_node(ns.drop_first(), name)
    }
}

/// The first pipeline with that name.
pub open spec fn find_pipeline(ps: Seq<PipelineView>, name: Seq<char>) -> Option<PipelineView>
    decreases ps.len(),
{
    if ps.len() == 0 {
        None
    } else if ps[0].name == name {
        Some(ps[0])
    } else {
        find_pipeline(ps.drop_first(), name)
    }
}

proof fn lemma_find_node_at(ns: Seq<NodeView>, name: Seq<char>, i: int)
    requires
        0 <= i <= ns.len(),
        forall|j: int| 0 <= j < i ==> #[trigger] ns[j].name != name,
    ensures
        i < ns.len() && ns[i].name == name ==> find_node(ns, name) == Some(ns[i]),
        i == ns.len() ==> find_node(ns, name) is None,
    decreases i,
{
    if i > 0 {
        assert forall|j: int| 0 <= j < i - 1 implies #[trigger] ns.drop_first()[j].name != name by {
            assert(ns.drop_first()[j] == ns[j + 1]);
        }
        lemma_find_node_at(ns.drop_first(), name, i - 1);
    }
}

proof fn lemma_find_pipeline_at(ps: Seq<PipelineView>, name: Seq<char>, i: int)
    requires
        0 <= i <= ps.len(),
        forall|j: int| 0 <= j < i ==> #[trigger] ps[j].name != name,
    ensures
        i < ps.len() && ps[i].name == name ==> find_pipeline(ps, name) == Some(ps[i]),
        i == ps.len() ==> find_pipeline(ps, name) is None,
    decreases i,
{
    if i > 0 {
        assert forall|j: int| 0 <= j < i - 1 implies #[trigger] ps.drop_first()[j].name != name by {
            assert(ps.drop_first()[j] == ps[j + 1]);
        }
        lemma_find_pipeline_at(ps.drop_first(), name, i - 1);
    }
}

/// The index of the first node with that name.
pub fn node_index(nodes: &Vec<NodeConfig>, name: &str) -> (r: Option<usize>)
    ensures
        match r {
            Some(i) => i < nodes@.len() && find_node(node_views(nodes@), name@) == Some(
                nodes@[i as int]@,
            ),
            None => find_node(node_views(nodes@), name@) is None,
        },
{
    let target = String::from_str(name);
    let mut i: usize = 0;
    while i < nodes.len()
        invariant
            i <= nodes@.len(),
            target@ == name@,
            forall|j: int| 0 <= j < i ==> #[trigger] node_views(nodes@)[j].name != name@,
        decreases nodes@.len() - i,
    {
        if nodes[i].name == target {
            proof {
                lemma_find_node_at(node_views(nodes@), name@, i as int);
            }
            return Some(i);
        }
        i = i + 1;
    }
    proof {
        lemma_find_node_at(node_views(nodes@), name@, i as int);
    }
    None
}

/// The index of the first pipeline with that name.
pub fn pipeline_index(config: &ReachConfig, name: &str) -> (r: Option<usize>)
    ensures
        match r {
            Some(i) => i < config.launch@.len() && find_pipeline(
                pipeline_views(config.launch@),
                name@,
            ) == Some(config.launch@[i as int]@),
            None => find_pipeline(pipeline_views(config.launch@), name@) is None,
        },
{
    let target = String::from_str(name);
    let mut i: usize = 0;
    while i < config.launch.len()
        invariant
            i <= config.launch@.len(),
            target@ == name@,
            forall|j: int|
                0 <= j < i ==> #[trigger] pipeline_views(config.launch@)[j].name != name@,
        decreases config.launch@.len() - i,
    {
        if config.launch[i].name == target {
            proof {
                lemma_find_pipeline_at(pipeline_views(config.launch@), name@, i as int);
            }
            return Some(i);
        }
        i = i + 1;
    }
    proof {
        lemma_find_pipeline_at(pipeline_views(config.launch@), name@, i as int);
    }
    None
}

// ─── Which node owns a changed file ──────────────────────────────────────────

/// A node owns a changed file when the file is its script or sits in the same
/// directory as its script.
pub open spec fn owns(changed: Seq<char>, script: Seq<char>) -> bool {
    comps_of(changed) == comps_of(script) || (parent_of(comps_of(changed)) is Some && parent_of(
        comps_of(script),
    ) is Some && parent_of(comps_of(changed)) == parent_of(comps_of(script)))
}

/// The name of the first node that owns the changed file.
pub open spec fn owning_node(changed: Seq<char>, ns: Seq<NodeView>) -> Option<Seq<char>>
    decreases ns.len(),
{
    if ns.len() == 0 {
        None
    } else if owns(changed, ns[0].script) {
        Some(ns[0].name)
    } else {
        owning_node(changed, ns.drop_first())
    }
}

/// Finds which node owns a changed file: the first node, in order, whose script is
/// that file or lies in the same directory.
pub fn find_owning_node(changed: &FilePath, nodes: &Vec<NodeConfig>) -> (r: Option<String>)
    ensures
        match r {
            Some(n) => owning_node(changed.text@, node_views(nodes@)) == Some(n@),
            None => owning_node(changed.text@, node_views(nodes@)) is None,
        },
{
    let ghost ns = node_views(nodes@);
    let mut i: usize = 0;
    assert(ns.skip(0) =~= ns);
    while i < nodes.len()
        invariant
            i <= nodes@.len(),
            ns == node_views(nodes@),
            owning_node(changed.text@, ns) == owning_node(changed.text@, ns.skip(i as int)),
        decreases nodes@.len() - i,
    {
        let n = &nodes[i];
        assert(ns.skip(i as int)[0] == n@);
        assert(ns.skip(i as int).drop_first() =~= ns.skip(i + 1));
        if same_path(changed, &n.script) || same_parent(changed, &n.script) {
            return Some(n.name.clone());
        }
        i = i + 1;
    }
    None
}

/// When a node is found to own a changed file, that node exists and the file is
/// its script or lies in its script's directory.
pub proof fn law_owner_shares_directory(changed: Seq<char>, ns: Seq<NodeView>)
    requires
        owning_node(changed, ns) is Some,
    ensures
        exists|i: int|
            0 <= i < ns.len() && #[trigger] ns[i].name == owning_node(changed, ns)->0 && owns(
                changed,
                ns[i].script,
            ),
    decreases ns.len(),
{
    if !owns(changed, ns[0].script) {
        law_owner_shares_directory(changed, ns.drop_first());
        let i = choose|i: int|
            0 <= i < ns.drop_first().len() && #[trigger] ns.drop_first()[i].name == owning_node(
                changed,
                ns.drop_first(),
            )->0 && owns(changed, ns.drop_first()[i].script);
        assert(ns[i + 1] == ns.drop_first()[i]);
    } else {
        assert(ns[0].name == owning_node(changed, ns)->0);
    }
}

/// A change to a node's own script always has an owner: that node, or an earlier
/// node whose script shares its directory.
pub proof fn law_script_change_has_owner(changed: Seq<char>, ns: Seq<NodeView>, i: int)
    requires
        0 <= i < ns.len(),
        comps_of(changed) == comps_of(ns[i].script),
    ensures
        owning_node(changed, ns) is Some,
    decreases i,
{
    if i > 0 && !owns(changed, ns[0].script) {
        assert(ns.drop_first()[i - 1] == ns[i]);
        law_script_change_has_owner(changed, ns.drop_first(), i - 1);
    }
}

// ─── Which nodes `reach run` starts ──────────────────────────────────────────

/// The nodes of a pipeline's steps that exist, in step order.
pub open spec fn steps_nodes(steps: Seq<LaunchNodeView>, ns: Seq<NodeView>) -> Seq<NodeView>
    decreases steps.len(),
{
    if steps.len() == 0 {
        seq![]
    } else {
        steps_nodes(steps.drop_last(), ns) + match find_node(ns, steps.last().name) {
            Some(n) => seq![n],
            None => seq![],
        }
    }
}

/// The nodes of a launch profile: those of the pipeline of that name; with no such
/// pipeline, every node when the profile is `default`, otherwise nothing to run.
pub open spec fn profile_nodes(c: ConfigView, profile: Seq<char>) -> Option<Seq<NodeView>> {
    match find_pipeline(c.launch, profile) {
        Some(p) => Some(steps_nodes(p.nodes, c.nodes)),
        None => if profile == "default"@ {
            Some(c.nodes)
        } else {
            None
        },
    }
}

fn copy_nodes(nodes: &Vec<NodeConfig>) -> (r: Vec<NodeConfig>)
    ensures
        node_views(r@) == node_views(nodes@),
{
    let mut r: Vec<NodeConfig> = Vec::new();
    let mut i: usize = 0;
    while i < nodes.len()
        invariant
            i <= nodes@.len(),
            node_views(r@) == node_views(nodes@).take(i as int),
        decreases nodes@.len() - i,
    {
        let x = nodes[i].duplicate();
        let ghost prev = r@;
        r.push(x);
        assert(node_views(r@) =~= node_views(prev).push(x@));
        assert(node_views(nodes@).take(i + 1) =~= node_views(nodes@).take(i as int).push(
            nodes@[i as int]@,
        ));
        i = i + 1;
    }
    assert(node_views(nodes@).take(i as int) =~= node_views(nodes@));
    r
}

/// The nodes a launch profile runs; `None` when there is no such profile.
pub fn resolve_profile(profile: &str, config: &ReachConfig) -> (r: Option<Vec<NodeConfig>>)
    ensures
        match r {
            Some(v) => profile_nodes(config@, profile@) == Some(node_views(v@)),
            None => profile_nodes(config@, profile@) is None,
        },
{
    match pipeline_index(config, profile) {
        Some(k) => {
            let steps = &config.launch[k].nodes;
            let ghost sv = steps@.map_values(|n: crate::config::LaunchNode| n@);
            let ghost ns = node_views(config.nodes@);
            let mut out: Vec<NodeConfig> = Vec::new();
            let mut i: usize = 0;
            assert(node_views(out@) =~= steps_nodes(sv.take(0), ns));
            while i < steps.len()
                invariant
                    i <= steps@.len(),
                    sv == steps@.map_values(|n: crate::config::LaunchNode| n@),
                    ns == node_views(config.nodes@),
                    node_views(out@) == steps_nodes(sv.take(i as int), ns),
                decreases steps@.len() - i,
            {
                proof {
                    assert(sv.take(i + 1).drop_last() =~= sv.take(i as int));
                    assert(sv.take(i + 1).last() == steps@[i as int]@);
                }
                let ghost prev = out@;
                match node_index(&config.nodes, steps[i].name.as_str()) {
                    Some(j) => {
                        let x = config.nodes[j].duplicate();
                        out.push(x);
                        assert(node_views(out@) =~= node_views(prev).push(x@));
                    },
                    None => {},
                }
                i = i + 1;
            }
            assert(sv.take(i as int) =~= sv);
            Some(out)
        },
        None => {
            let default_name = String::from_str("default");
            let p = String::from_str(profile);
            if p == default_name {
                Some(copy_nodes(&config.nodes))
            } else {
                None
            }
        },
    }
}

/// Why the arguments of `reach run` name nothing to run.
#[derive(Debug)]
pub enum RunError {
    /// The single argument is neither a launch profile nor a node.
    NotProfileOrNode(String),
    /// One of several arguments is not a node.
    UnknownNode(String),
}

/// The nodes named by `args`, in order, when every argument names a node.
pub open spec fn named_nodes(args: Seq<Seq<char>>, ns: Seq<NodeView>) -> Option<Seq<NodeView>>
    decreases args.len(),
{
    if args.len() == 0 {
        Some(seq![])
    } else {
        match (named_nodes(args.drop_last(), ns), find_node(ns, args.last())) {
            (Some(v), Some(n)) => Some(v.push(n)),
            _ => None,
        }
    }
}

/// The first argument that names no node.
pub open spec fn first_unknown(args: Seq<Seq<char>>, ns: Seq<NodeView>) -> Option<Seq<char>>
    decreases args.len(),
{
    if args.len() == 0 {
        None
    } else if find_node(ns, args[0]) is None {
        Some(args[0])
    } else {
        first_unknown(args.drop_first(), ns)
    }
}

/// What `reach run` runs for its arguments: with none, the `default` profile (or
/// every node); with one, the profile of that name, else the node of that name;
/// with several, the node each names.
pub open spec fn run_selection(c: ConfigView, args: Seq<Seq<char>>) -> Result<
    Seq<NodeView>,
    (bool, Seq<char>),
> {
    if args.len() == 0 {
        Ok(profile_nodes(c, "default"@)->0)
    } else if args.len() == 1 {
        if find_pipeline(c.launch, args[0]) is Some {
            Ok(profile_nodes(c, args[0])->0)
        } else {
            match find_node(c.nodes, args[0]) {
                Some(n) => Ok(seq![n]),
                None => Err((true, args[0])),
            }
        }
    } else {
        match first_unknown(args, c.nodes) {
            Some(a) => Err((false, a)),
            None => Ok(named_nodes(args, c.nodes)->0),
        }
    }
}

proof fn lemma_named_nodes_some(args: Seq<Seq<char>>, ns: Seq<NodeView>)
    requires
        forall|j: int| 0 <= j < args.len() ==> #[trigger] find_node(ns, args[j]) is Some,
    ensures
        named_nodes(args, ns) is Some,
        first_unknown(args, ns) is None,
    decreases args.len(),
{
    if args.len() > 0 {
        assert forall|j: int| 0 <= j < args.len() - 1 implies #[trigger] find_node(
            ns,
            args.drop_last()[j],
        ) is Some by {
            assert(args.drop_last()[j] == args[j]);
        }
        lemma_named_nodes_some(args.drop_last(), ns);
        assert forall|j: int| 0 <= j < args.len() - 1 implies #[trigger] find_node(
            ns,
            args.drop_first()[j],
        ) is Some by {
            assert(args.drop_first()[j] == args[j + 1]);
        }
        lemma_named_nodes_some(args.drop_first(), ns);
    }
}

proof fn lemma_first_unknown_at(args: Seq<Seq<char>>, ns: Seq<NodeView>, i: int)
    requires
        0 <= i < args.len(),
        forall|j: int| 0 <= j < i ==> #[trigger] find_node(ns, args[j]) is Some,
        find_node(ns, args[i]) is None,
    ensures
        first_unknown(args, ns) == Some(args[i]),
    decreases i,
{
    if i > 0 {
        assert forall|j: int| 0 <= j < i - 1 implies #[trigger] find_node(
            ns,
            args.drop_first()[j],
        ) is Some by {
            assert(args.drop_first()[j] == args[j + 1]);
        }
        lemma_first_unknown_at(args.drop_first(), ns, i - 1);
    }
}

/// The nodes `reach run` starts for its arguments, or why the arguments name
/// nothing to run.
pub fn run_selection_of(args: &Vec<String>, config: &ReachConfig) -> (r: Result<
    Vec<NodeConfig>,
    RunError,
>)
    ensures
        match r {
            Ok(v) => run_selection(config@, views(args@)) == Ok::<Seq<NodeView>, (bool, Seq<char>)>(
                node_views(v@),
            ),
            Err(RunError::NotProfileOrNode(a)) => run_selection(config@, views(args@)) == Err::<
                Seq<NodeView>,
                (bool, Seq<char>),
            >((true, a@)),
            Err(RunError::UnknownNode(a)) => run_selection(config@, views(args@)) == Err::<
                Seq<NodeView>,
                (bool, Seq<char>),
            >((false, a@)),
        },
{
    let ghost av = views(args@);
    if args.len() == 0 {
        match resolve_profile("default", config) {
            Some(v) => {
                return Ok(v);
            },
            None => {
                proof {
                    reveal_strlit("default");
                }
                assert(false);
                return Ok(Vec::new());
            },
        }
    }
    if args.len() == 1 {
        assert(av[0] == args@[0]@);
        match pipeline_index(config, args[0].as_str()) {
            Some(_) => {
                match resolve_profile(args[0].as_str(), config) {
                    Some(v) => {
                        return Ok(v);
                    },
                    None => {
                        assert(false);
                        return Ok(Vec::new());
                    },
                }
            },
            None => {},
        }
        match node_index(&config.nodes, args[0].as_str()) {
            Some(j) => {
                let mut v: Vec<NodeConfig> = Vec::new();
                let x = config.nodes[j].duplicate();
                v.push(x);
                assert(node_views(v@) =~= seq![x@]);
                return Ok(v);
            },
            None => {
                return Err(RunError::NotProfileOrNode(args[0].clone()));
            },
        }
    }
    let mut out: Vec<NodeConfig> = Vec::new();
    let mut i: usize = 0;
    while i < args.len()
        invariant
            i <= args@.len(),
            av == views(args@),
            args@.len() > 1,
            forall|j: int| 0 <= j < i ==> #[trigger] find_node(node_views(config.nodes@), av[j]) is Some,
            named_nodes(av.take(i as int), node_views(config.nodes@)) == Some(node_views(out@)),
        decreases args@.len() - i,
    {
        assert(av[i as int] == args@[i as int]@);
        assert(av.take(i + 1).drop_last() =~= av.take(i as int));
        match node_index(&config.nodes, args[i].as_str()) {
            Some(j) => {
                let x = config.nodes[j].duplicate();
                let ghost prev = out@;
                out.push(x);
                assert(node_views(out@) =~= node_views(prev).push(x@));
            },
            None => {
                proof {
                    lemma_first_unknown_at(av, node_views(config.nodes@), i as int);
                }
                return Err(RunError::UnknownNode(args[i].clone()));
            },
        }
        i = i + 1;
    }
    proof {
        assert(av.take(i as int) =~= av);
        lemma_named_nodes_some(av, node_views(config.nodes@));
    }
    Ok(out)
}


/// `reach run` with no arguments runs the `default` pipeline's nodes, or every
/// node when there is no `default` pipeline.
pub proof fn law_run_defaults_to_default_pipeline(c: ConfigView)
    ensures
        run_selection(c, seq![]) == Ok::<Seq<NodeView>, (bool, Seq<char>)>(
            match find_pipeline(c.launch, "default"@) {
                Some(p) => steps_nodes(p.nodes, c.nodes),
                None => c.nodes,
            },
        ),
{
}

// ─── Command lines ───────────────────────────────────────────────────────────

/// A process to start: the program, its arguments and extra environment.
#[derive(Debug)]
pub struct NodeCommand {
    pub program: String,
    pub args: Vec<String>,
    pub env: Vec<(String, String)>,
}

pub struct NodeCommandView {
    pub program: Seq<char>,
    pub args: Seq<Seq<char>>,
    pub env: Seq<(Seq<char>, Seq<char>)>,
}

impl View for NodeCommand {
    type V = NodeCommandView;

    open spec fn view(&self) -> NodeCommandView {
        NodeCommandView { program: self.program@, args: views(self.args@), env: pair_views(self.env@) }
    }
}

/// `-r from:=to` for each remapping, in order.
pub open spec fn remap_args(rs: Seq<(Seq<char>, Seq<char>)>) -> Seq<Seq<char>>
    decreases rs.len(),
{
    if rs.len() == 0 {
        seq![]
    } else {
        remap_args(rs.drop_last()) + seq!["-r"@, rs.last().0 + ":="@ + rs.last().1]
    }
}

/// `-p key:=value` for each parameter, in order.
pub open spec fn param_args(ps: Seq<(Seq<char>, Seq<char>)>) -> Seq<Seq<char>>
    decreases ps.len(),
{
    if ps.len() == 0 {
        seq![]
    } else {
        param_args(ps.drop_last()) + seq!["-p"@, ps.last().0 + ":="@ + ps.last().1]
    }
}

/// The extra arguments listed for a node under `[ros.node_args]` (the first entry
/// of that name), or none.
pub open spec fn node_extra_args(entries: Seq<(Seq<char>, Seq<Seq<char>>)>, node: Seq<char>) -> Seq<
    Seq<char>,
>
    decreases entries.len(),
{
    if entries.len() == 0 {
        seq![]
    } else if entries[0].0 == node {
        entries[0].1
    } else {
        node_extra_args(entries.drop_first(), node)
    }
}

/// The ROS arguments of a node: global remappings, then the node's own extra
/// arguments, then the namespace, then the step's parameters.
pub open spec fn ros_args(
    c: ConfigView,
    node: Seq<char>,
    params: Seq<(Seq<char>, Seq<char>)>,
) -> Seq<Seq<char>> {
    remap_args(c.ros.remappings) + node_extra_args(c.ros.node_args, node) + match c.ros.namespace {
        Some(ns) => seq!["-r"@, "__ns:="@ + ns],
        None => seq![],
    } + param_args(params)
}

/// The command that starts a node through the launcher script: `python3 launcher
/// script name`, then `--ros-args` and the ROS arguments when there are any, with
/// `ROS_DOMAIN_ID` set to the robot's domain.
pub open spec fn node_command(
    c: ConfigView,
    launcher: Seq<char>,
    script: Seq<char>,
    node: Seq<char>,
    params: Seq<(Seq<char>, Seq<char>)>,
) -> NodeCommandView {
    let ros = ros_args(c, node, params);
    NodeCommandView {
        program: "python3"@,
        args: seq![launcher, script, node] + if ros.len() > 0 {
            seq!["--ros-args"@] + ros
        } else {
            seq![]
        },
        env: seq![("ROS_DOMAIN_ID"@, decimal(c.robot.domain_id as nat))],
    }
}

fn push_view(v: &mut Vec<String>, x: String)
    ensures
        views(final(v)@) == views(old(v)@).push(x@),
{
    let ghost prev = v@;
    v.push(x);
    assert(views(v@) =~= views(prev).push(x@));
}

fn assignment(a: &String, b: &str) -> (r: String)
    ensures
        r@ == a@ + ":="@ + b@,
{
    let mut s = a.clone();
    s.append(":=");
    s.append(b);
    s
}

fn ros_args_of(config: &ReachConfig, node_name: &str, params: &Vec<(String, String)>) -> (r: Vec<
    String,
>)
    ensures
        views(r@) == ros_args(config@, node_name@, pair_views(params@)),
{
    let ghost c = config@;
    let mut args: Vec<String> = Vec::new();
    let rm = &config.ros.remappings;
    let mut i: usize = 0;
    assert(views(args@) =~= remap_args(pair_views(rm@).take(0)));
    while i < rm.len()
        invariant
            i <= rm@.len(),
            c == config@,
            views(args@) == remap_args(pair_views(rm@).take(i as int)),
        decreases rm@.len() - i,
    {
        assert(pair_views(rm@).take(i + 1).drop_last() =~= pair_views(rm@).take(i as int));
        push_view(&mut args, String::from_str("-r"));
        push_view(&mut args, assignment(&rm[i].0, rm[i].1.as_str()));
        i = i + 1;
        assert(views(args@) =~= remap_args(pair_views(rm@).take(i as int)));
    }
    assert(pair_views(rm@).take(i as int) =~= pair_views(rm@));
    let ghost after_remaps = views(args@);
    let na = &config.ros.node_args;
    let target = String::from_str(node_name);
    let mut k: usize = 0;
    assert(list_entry_views(na@).skip(0) =~= list_entry_views(na@));
    while k < na.len()
        invariant
            k <= na@.len(),
            target@ == node_name@,
            views(args@) == after_remaps,
            node_extra_args(list_entry_views(na@), node_name@) == node_extra_args(
                list_entry_views(na@).skip(k as int),
                node_name@,
            ),
        ensures
            k < na@.len() ==> na@[k as int].0@ == node_name@ && node_extra_args(
                list_entry_views(na@),
                node_name@,
            ) == views(na@[k as int].1@),
            k >= na@.len() ==> node_extra_args(list_entry_views(na@), node_name@) == Seq::<
                Seq<char>,
            >::empty(),
        decreases na@.len() - k,
    {
        assert(list_entry_views(na@).skip(k as int)[0] == (na@[k as int].0@, views(
            na@[k as int].1@,
        )));
        if na[k].0 == target {
            break ;
        }
        assert(list_entry_views(na@).skip(k as int).drop_first() =~= list_entry_views(na@).skip(
            k + 1,
        ));
        k = k + 1;
    }
    if k < na.len() {
        let extra = &na[k].1;
        let mut j: usize = 0;
        while j < extra.len()
            invariant
                j <= extra@.len(),
                views(args@) == after_remaps + views(extra@).take(j as int),
            decreases extra@.len() - j,
        {
            push_view(&mut args, extra[j].clone());
            assert(views(extra@).take(j + 1) =~= views(extra@).take(j as int).push(
                extra@[j as int]@,
            ));
            j = j + 1;
        }
        assert(views(extra@).take(j as int) =~= views(extra@));
    } else {
        assert(after_remaps + Seq::<Seq<char>>::empty() =~= after_remaps);
    }
    let ghost after_extra = views(args@);
    match &config.ros.namespace {
        Some(ns) => {
            push_view(&mut args, String::from_str("-r"));
            let mut v = String::from_str("__ns:=");
            v.append(ns.as_str());
            push_view(&mut args, v);
        },
        None => {},
    }
    let ghost after_ns = views(args@);
    let mut m: usize = 0;
    assert(after_ns + param_args(pair_views(params@).take(0)) =~= after_ns);
    while m < params.len()
        invariant
            m <= params@.len(),
            views(args@) == after_ns + param_args(pair_views(params@).take(m as int)),
        decreases params@.len() - m,
    {
        assert(pair_views(params@).take(m + 1).drop_last() =~= pair_views(params@).take(m as int));
        push_view(&mut args, String::from_str("-p"));
        push_view(&mut args, assignment(&params[m].0, params[m].1.as_str()));
        m = m + 1;
        assert(views(args@) =~= after_ns + param_args(pair_views(params@).take(m as int)));
    }
    assert(pair_views(params@).take(m as int) =~= pair_views(params@));
    assert(views(args@) =~= ros_args(config@, node_name@, pair_views(params@)));
    args
}

/// The command that starts a node, with a pipeline step's parameters added as
/// `-p key:=value`.
pub fn build_node_command_with_params(
    launcher: &str,
    script: &FilePath,
    node_name: &str,
    config: &ReachConfig,
    params: &Vec<(String, String)>,
) -> (r: NodeCommand)
    ensures
        r@ == node_command(config@, launcher@, script.text@, node_name@, pair_views(params@)),
{
    let ros = ros_args_of(config, node_name, params);
    let mut args: Vec<String> = Vec::new();
    push_view(&mut args, String::from_str(launcher));
    push_view(&mut args, script.text.clone());
    push_view(&mut args, String::from_str(node_name));
    if ros.len() > 0 {
        push_view(&mut args, String::from_str("--ros-args"));
        let ghost head = views(args@);
        let mut i: usize = 0;
        while i < ros.len()
            invariant
                i <= ros@.len(),
                views(args@) == head + views(ros@).take(i as int),
            decreases ros@.len() - i,
        {
            push_view(&mut args, ros[i].clone());
            assert(views(ros@).take(i + 1) =~= views(ros@).take(i as int).push(ros@[i as int]@));
            i = i + 1;
        }
        assert(views(ros@).take(i as int) =~= views(ros@));
    }
    let mut domain = String::new();
    push_decimal(&mut domain, config.robot.domain_id as u64);
    let mut env: Vec<(String, String)> = Vec::new();
    env.push((String::from_str("ROS_DOMAIN_ID"), domain));
    assert(pair_views(env@) =~= seq![("ROS_DOMAIN_ID"@, decimal(config.robot.domain_id as nat))]);
    let r = NodeCommand { program: String::from_str("python3"), args, env };
    assert(r@.args =~= node_command(config@, launcher@, script.text@, node_name@, pair_views(params@)).args);
    r
}

/// The command that starts a node.
pub fn build_node_command(
    launcher: &str,
    script: &FilePath,
    node_name: &str,
    config: &ReachConfig,
) -> (r: NodeCommand)
    ensures
        r@ == node_command(config@, launcher@, script.text@, node_name@, seq![]),
{
    let none: Vec<(String, String)> = Vec::new();
    assert(pair_views(none@) =~= Seq::<(Seq<char>, Seq<char>)>::empty());
    build_node_command_with_params(launcher, script, node_name, config, &none)
}

/// A pipeline step's parameters only add to a node's command line: its arguments
/// are those of the plain command followed by one `-p key:=value` per parameter
/// (with `--ros-args` before them once).
pub proof fn law_params_extend_command(
    c: ConfigView,
    launcher: Seq<char>,
    script: Seq<char>,
    node: Seq<char>,
    params: Seq<(Seq<char>, Seq<char>)>,
)
    ensures
        ros_args(c, node, params) == ros_args(c, node, seq![]) + param_args(params),
        node_command(c, launcher, script, node, params).env == node_command(
            c,
            launcher,
            script,
            node,
            seq![],
        ).env,
        ros_args(c, node, seq![]).len() > 0 ==> node_command(c, launcher, script, node, params).args
            == node_command(c, launcher, script, node, seq![]).args + param_args(params),
{
    let base = remap_args(c.ros.remappings) + node_extra_args(c.ros.node_args, node) + match c.ros.namespace {
        Some(ns) => seq!["-r"@, "__ns:="@ + ns],
        None => seq![],
    };
    assert(param_args(seq![]) =~= Seq::<Seq<char>>::empty());
    assert(ros_args(c, node, seq![]) =~= base);
    assert(ros_args(c, node, params) =~= base + param_args(params));
}


// ─── What `reach launch` does, step by step ──────────────────────────────────

/// One step of a pipeline launch.
#[derive(Debug)]
pub enum LaunchStep {
    /// The step names no node of `[nodes]`; it is reported and skipped.
    Missing(String),
    /// Start a node: first wait until `wait_for` is running (when given), then for
    /// `delay` (when positive), then run `command`; with `wait_ready`, block until
    /// the node is visible on the ROS 2 graph before the next step.
    Start {
        node: NodeConfig,
        wait_for: Option<String>,
        delay: Delay,
        command: NodeCommand,
        params: Vec<(String, String)>,
        wait_ready: bool,
    },
}

pub enum LaunchStepView {
    Missing(Seq<char>),
    Start {
        node: NodeView,
        wait_for: Option<Seq<char>>,
        delay: DelayView,
        command: NodeCommandView,
        params: Seq<(Seq<char>, Seq<char>)>,
        wait_ready: bool,
    },
}

impl View for LaunchStep {
    type V = LaunchStepView;

    open spec fn view(&self) -> LaunchStepView {
        match self {
            LaunchStep::Missing(n) => LaunchStepView::Missing(n@),
            LaunchStep::Start { node, wait_for, delay, command, params, wait_ready } =>
                LaunchStepView::Start {
                node: node@,
                wait_for: crate::config::opt_view(*wait_for),
                delay: delay@,
                command: command@,
                params: pair_views(params@),
                wait_ready: *wait_ready,
            },
        }
    }
}

/// The step for one pipeline entry.
pub open spec fn step_plan(c: ConfigView, launcher: Seq<char>, s: LaunchNodeView) -> LaunchStepView {
    match find_node(c.nodes, s.name) {
        None => LaunchStepView::Missing(s.name),
        Some(n) => LaunchStepView::Start {
            node: n,
            wait_for: s.depends_on,
            delay: s.delay,
            command: node_command(c, launcher, n.script, s.name, s.params),
            params: s.params,
            wait_ready: s.wait_ready,
        },
    }
}

/// The steps of the pipeline of that name, in order; `None` without such a pipeline.
pub open spec fn launch_steps(c: ConfigView, name: Seq<char>, launcher: Seq<char>) -> Option<
    Seq<LaunchStepView>,
> {
    match find_pipeline(c.launch, name) {
        Some(p) => Some(p.nodes.map_values(|s: LaunchNodeView| step_plan(c, launcher, s))),
        None => None,
    }
}

/// The steps `reach launch <pipeline>` takes, in order; `None` when the pipeline
/// does not exist.
pub fn launch_plan(config: &ReachConfig, pipeline_name: &str, launcher: &str) -> (r: Option<
    Vec<LaunchStep>,
>)
    ensures
        match r {
            Some(v) => launch_steps(config@, pipeline_name@, launcher@) == Some(
                v@.map_values(|s: LaunchStep| s@),
            ),
            None => launch_steps(config@, pipeline_name@, launcher@) is None,
        },
{
    let k = match pipeline_index(config, pipeline_name) {
        Some(k) => k,
        None => {
            return None;
        },
    };
    let steps = &config.launch[k].nodes;
    let ghost sv = steps@.map_values(|n: crate::config::LaunchNode| n@);
    let ghost f = |s: LaunchNodeView| step_plan(config@, launcher@, s);
    let mut out: Vec<LaunchStep> = Vec::new();
    let mut i: usize = 0;
    while i < steps.len()
        invariant
            i <= steps@.len(),
            sv == steps@.map_values(|n: crate::config::LaunchNode| n@),
            f == (|s: LaunchNodeView| step_plan(config@, launcher@, s)),
            out@.map_values(|s: LaunchStep| s@) == sv.take(i as int).map_values(f),
        decreases steps@.len() - i,
    {
        let st = &steps[i];
        assert(sv[i as int] == st@);
        let step = match node_index(&config.nodes, st.name.as_str()) {
            None => LaunchStep::Missing(st.name.clone()),
            Some(j) => {
                let node = config.nodes[j].duplicate();
                let command = build_node_command_with_params(
                    launcher,
                    &node.script,
                    st.name.as_str(),
                    config,
                    &st.params,
                );
                let mut params: Vec<(String, String)> = Vec::new();
                let mut m: usize = 0;
                while m < st.params.len()
                    invariant
                        m <= st.params@.len(),
                        pair_views(params@) == pair_views(st.params@).take(m as int),
                    decreases st.params@.len() - m,
                {
                    let e = (st.params[m].0.clone(), st.params[m].1.clone());
                    let ghost prev = params@;
                    params.push(e);
                    assert(pair_views(params@) =~= pair_views(prev).push((e.0@, e.1@)));
                    assert(pair_views(st.params@).take(m + 1) =~= pair_views(st.params@).take(
                        m as int,
                    ).push(pair_views(st.params@)[m as int]));
                    m = m + 1;
                }
                assert(pair_views(st.params@).take(m as int) =~= pair_views(st.params@));
                LaunchStep::Start {
                    node,
                    wait_for: match &st.depends_on {
                        Some(d) => Some(d.clone()),
                        None => None,
                    },
                    delay: st.delay.duplicate(),
                    command,
                    params,
                    wait_ready: st.wait_ready,
                }
            },
        };
        assert(step@ == f(sv[i as int]));
        let ghost prev = out@;
        out.push(step);
        assert(out@.map_values(|s: LaunchStep| s@) =~= prev.map_values(|s: LaunchStep| s@).push(
            f(sv[i as int]),
        ));
        assert(sv.take(i + 1).map_values(f) =~= sv.take(i as int).map_values(f).push(
            f(sv[i as int]),
        ));
        i = i + 1;
    }
    assert(sv.take(i as int) =~= sv);
    Some(out)
}

// ─── Tracing and waiting ─────────────────────────────────────────────────────

/// The environment a traced node gets on top of its command's: tracing on, the
/// session, the trace file and the node's name.
pub open spec fn trace_env(session: u64, trace_file: Seq<char>, node: Seq<char>) -> Seq<
    (Seq<char>, Seq<char>),
> {
    seq![
        ("REACHPY_TRACE"@, "1"@),
        ("REACHPY_TRACE_SESSION"@, decimal(session as nat)),
        ("REACHPY_TRACE_FILE"@, trace_file),
        ("REACHPY_TRACE_NODE"@, node),
    ]
}

/// The command that starts a node under `reach trace`: the node's usual command
/// with the tracing environment added after its own.
pub fn build_traced_node_command(
    launcher: &str,
    script: &FilePath,
    node_name: &str,
    config: &ReachConfig,
    session: u64,
    trace_file: &str,
) -> (r: NodeCommand)
    ensures
        r@.program == node_command(config@, launcher@, script.text@, node_name@, seq![]).program,
        r@.args == node_command(config@, launcher@, script.text@, node_name@, seq![]).args,
        r@.env == node_command(config@, launcher@, script.text@, node_name@, seq![]).env + trace_env(
            session,
            trace_file@,
            node_name@,
        ),
{
    let mut c = build_node_command(launcher, script, node_name, config);
    let ghost before = pair_views(c.env@);
    let mut s = String::new();
    push_decimal(&mut s, session);
    c.env.push((String::from_str("REACHPY_TRACE"), String::from_str("1")));
    c.env.push((String::from_str("REACHPY_TRACE_SESSION"), s));
    c.env.push((String::from_str("REACHPY_TRACE_FILE"), String::from_str(trace_file)));
    c.env.push((String::from_str("REACHPY_TRACE_NODE"), String::from_str(node_name)));
    proof {
        reveal_strlit("1");
    }
    assert(pair_views(c.env@) =~= before + trace_env(session, trace_file@, node_name@));
    c
}

/// How long `reach launch` waits for a node to show on the ROS 2 graph: 30 s.
pub const READY_TIMEOUT_NANOS: u64 = 30_000_000_000;

/// Whether the wait for a node to show on the graph has run out after `elapsed_nanos`.
pub fn ready_timed_out(elapsed_nanos: u64) -> (r: bool)
    ensures
        r == (elapsed_nanos > READY_TIMEOUT_NANOS),
{
    elapsed_nanos > READY_TIMEOUT_NANOS
}

/// Whether the node a step `depends_on` has been started, given the names of the
/// nodes started so far.
pub fn dependency_started(started: &Vec<String>, dep: &str) -> (r: bool)
    ensures
        r == views(started@).contains(dep@),
{
    let target = String::from_str(dep);
    let mut i: usize = 0;
    while i < started.len()
        invariant
            i <= started@.len(),
            target@ == dep@,
            forall|j: int| 0 <= j < i ==> #[trigger] views(started@)[j] != dep@,
        decreases started@.len() - i,
    {
        if started[i] == target {
            assert(views(started@)[i as int] == dep@);
            return true;
        }
        i = i + 1;
    }
    false
}

// ─── Laws of command lines, plans and owners ─────────────────────────────────

proof fn lemma_remap_at(rs: Seq<(Seq<char>, Seq<char>)>, k: int)
    requires
        0 <= k < rs.len(),
    ensures
        remap_args(rs).len() == 2 * rs.len(),
        remap_args(rs)[2 * k] == "-r"@,
        remap_args(rs)[2 * k + 1] == rs[k].0 + ":="@ + rs[k].1,
    decreases rs.len(),
{
    let d = rs.drop_last();
    lemma_remap_len(d);
    if k < rs.len() - 1 {
        lemma_remap_at(d, k);
        assert(d[k] == rs[k]);
    }
}

proof fn lemma_remap_len(rs: Seq<(Seq<char>, Seq<char>)>)
    ensures
        remap_args(rs).len() == 2 * rs.len(),
    decreases rs.len(),
{
    if rs.len() > 0 {
        lemma_remap_len(rs.drop_last());
    }
}

proof fn lemma_param_len(ps: Seq<(Seq<char>, Seq<char>)>)
    ensures
        param_args(ps).len() == 2 * ps.len(),
    decreases ps.len(),
{
    if ps.len() > 0 {
        lemma_param_len(ps.drop_last());
    }
}

proof fn lemma_param_at(ps: Seq<(Seq<char>, Seq<char>)>, k: int)
    requires
        0 <= k < ps.len(),
    ensures
        param_args(ps)[2 * k] == "-p"@,
        param_args(ps)[2 * k + 1] == ps[k].0 + ":="@ + ps[k].1,
    decreases ps.len(),
{
    let d = ps.drop_last();
    lemma_param_len(d);
    if k < ps.len() - 1 {
        lemma_param_at(d, k);
        assert(d[k] == ps[k]);
    }
}

/// Every remapping `(from, to)` becomes the pair `-r`, `from:=to`, in order.
pub proof fn law_every_remapping_passed(rs: Seq<(Seq<char>, Seq<char>)>)
    ensures
        remap_args(rs).len() == 2 * rs.len(),
        forall|k: int|
            #![trigger rs[k]]
            0 <= k < rs.len() ==> (remap_args(rs)[2 * k], remap_args(rs)[2 * k + 1]) == (
                "-r"@,
                rs[k].0 + ":="@ + rs[k].1,
            ),
{
    reveal_strlit("-r");
    lemma_remap_len(rs);
    assert forall|k: int|
        #![trigger rs[k]]
        0 <= k < rs.len() implies (remap_args(rs)[2 * k], remap_args(rs)[2 * k + 1]) == (
            "-r"@,
            rs[k].0 + ":="@ + rs[k].1,
        ) by {
        lemma_remap_at(rs, k);
    }
}

/// Every parameter `(key, value)` becomes the pair `-p`, `key:=value`, in order.
pub proof fn law_every_param_passed(ps: Seq<(Seq<char>, Seq<char>)>)
    ensures
        param_args(ps).len() == 2 * ps.len(),
        forall|k: int|
            #![trigger ps[k]]
            0 <= k < ps.len() ==> (param_args(ps)[2 * k], param_args(ps)[2 * k + 1]) == (
                "-p"@,
                ps[k].0 + ":="@ + ps[k].1,
            ),
{
    reveal_strlit("-p");
    lemma_param_len(ps);
    assert forall|k: int|
        #![trigger ps[k]]
        0 <= k < ps.len() implies (param_args(ps)[2 * k], param_args(ps)[2 * k + 1]) == (
            "-p"@,
            ps[k].0 + ":="@ + ps[k].1,
        ) by {
        lemma_param_at(ps, k);
    }
}

/// The command that starts a node runs `python3 launcher script node`; with any
/// remapping or parameter it goes on with `--ros-args`, then `-r from:=to` for each
/// global remapping in order, and it ends with `-p key:=value` for each parameter
/// in order; `ROS_DOMAIN_ID` is the robot's domain.
pub proof fn law_node_command_arguments(
    c: ConfigView,
    launcher: Seq<char>,
    script: Seq<char>,
    node: Seq<char>,
    params: Seq<(Seq<char>, Seq<char>)>,
)
    ensures
        ({
            let cmd = node_command(c, launcher, script, node, params);
            let rs = c.ros.remappings;
            let n = cmd.args.len();
            &&& cmd.program == "python3"@
            &&& n >= 3
            &&& cmd.args[0] == launcher
            &&& cmd.args[1] == script
            &&& cmd.args[2] == node
            &&& (rs.len() > 0 || params.len() > 0) ==> n >= 4 + 2 * rs.len() + 2 * params.len()
                && cmd.args[3] == "--ros-args"@
            &&& forall|k: int|
                #![trigger rs[k]]
                0 <= k < rs.len() ==> (cmd.args[4 + 2 * k], cmd.args[5 + 2 * k]) == (
                    "-r"@,
                    rs[k].0 + ":="@ + rs[k].1,
                )
            &&& forall|k: int|
                #![trigger params[k]]
                0 <= k < params.len() ==> (
                    cmd.args[n - 2 * params.len() + 2 * k],
                    cmd.args[n - 2 * params.len() + 2 * k + 1],
                ) == ("-p"@, params[k].0 + ":="@ + params[k].1)
            &&& cmd.env == seq![("ROS_DOMAIN_ID"@, decimal(c.robot.domain_id as nat))]
        }),
{
    reveal_strlit("-r");
    reveal_strlit("-p");
    reveal_strlit("--ros-args");
    reveal_strlit("python3");
    reveal_strlit("ROS_DOMAIN_ID");
    let cmd = node_command(c, launcher, script, node, params);
    let rs = c.ros.remappings;
    let ra = remap_args(rs);
    let pa = param_args(params);
    let ros = ros_args(c, node, params);
    law_every_remapping_passed(rs);
    law_every_param_passed(params);
    let n = cmd.args.len();
    if ros.len() > 0 {
        assert(cmd.args == seq![launcher, script, node] + seq!["--ros-args"@] + ros);
        assert forall|k: int|
            #![trigger rs[k]]
            0 <= k < rs.len() implies (cmd.args[4 + 2 * k], cmd.args[5 + 2 * k]) == (
                "-r"@,
                rs[k].0 + ":="@ + rs[k].1,
            ) by {
            lemma_remap_at(rs, k);
            assert(cmd.args[4 + 2 * k] == ros[2 * k]);
            assert(cmd.args[5 + 2 * k] == ros[2 * k + 1]);
            assert(ros[2 * k] == ra[2 * k]);
            assert(ros[2 * k + 1] == ra[2 * k + 1]);
        }
        assert forall|k: int|
            #![trigger params[k]]
            0 <= k < params.len() implies (
                cmd.args[n - 2 * params.len() + 2 * k],
                cmd.args[n - 2 * params.len() + 2 * k + 1],
            ) == ("-p"@, params[k].0 + ":="@ + params[k].1) by {
            lemma_param_at(params, k);
            assert(cmd.args[n - 2 * params.len() + 2 * k] == ros[ros.len() - pa.len() + 2 * k]);
            assert(ros[ros.len() - pa.len() + 2 * k] == pa[2 * k]);
            assert(cmd.args[n - 2 * params.len() + 2 * k + 1] == ros[ros.len() - pa.len() + 2 * k
                + 1]);
            assert(ros[ros.len() - pa.len() + 2 * k + 1] == pa[2 * k + 1]);
        }
    } else {
        assert(rs.len() == 0 && params.len() == 0);
    }
}

/// Each step of a planned pipeline follows the pipeline's step at the same place:
/// a step naming no node is reported as missing; any other starts that node (the
/// first of that name) after its `depends_on` and delay, with its `wait_ready`, and
/// with a command that starts the node's script and ends with the step's own
/// parameters, whether or not the step depends on another.
pub proof fn law_launch_steps_follow_pipeline(
    c: ConfigView,
    name: Seq<char>,
    launcher: Seq<char>,
    i: int,
)
    requires
        find_pipeline(c.launch, name) is Some,
        0 <= i < find_pipeline(c.launch, name)->0.nodes.len(),
    ensures
        ({
            let p = find_pipeline(c.launch, name)->0;
            let s = p.nodes[i];
            &&& launch_steps(c, name, launcher) is Some
            &&& launch_steps(c, name, launcher)->0.len() == p.nodes.len()
            &&& match find_node(c.nodes, s.name) {
                None => launch_steps(c, name, launcher)->0[i] == LaunchStepView::Missing(s.name),
                Some(n) => launch_steps(c, name, launcher)->0[i] matches LaunchStepView::Start {
                    node,
                    wait_for,
                    delay,
                    command,
                    params,
                    wait_ready,
                } && node == n && n.name == s.name && wait_for == s.depends_on && delay == s.delay
                    && params == s.params && wait_ready == s.wait_ready && command == node_command(
                    c,
                    launcher,
                    n.script,
                    s.name,
                    s.params,
                ) && command.args[0] == launcher && command.args[1] == n.script
                    && command.args[2] == s.name && forall|k: int|
                    #![trigger s.params[k]]
                    0 <= k < s.params.len() ==> (
                        command.args[command.args.len() - 2 * s.params.len() + 2 * k],
                        command.args[command.args.len() - 2 * s.params.len() + 2 * k + 1],
                    ) == ("-p"@, s.params[k].0 + ":="@ + s.params[k].1),
            }
        }),
{
    reveal_strlit("-p");
    let p = find_pipeline(c.launch, name)->0;
    let s = p.nodes[i];
    lemma_find_node_some(c.nodes, s.name);
    law_node_command_arguments(c, launcher, find_node(c.nodes, s.name)->0.script, s.name, s.params);
}

proof fn lemma_find_node_some(ns: Seq<NodeView>, name: Seq<char>)
    ensures
        find_node(ns, name) matches Some(n) ==> n.name == name,
    decreases ns.len(),
{
    if ns.len() > 0 && ns[0].name != name {
        lemma_find_node_some(ns.drop_first(), name);
    }
}

/// The node that owns a changed file is the first node, in order, whose script is
/// that file or sits in the same directory (both having a parent, and the parents
/// equal); when no node is, none owns it.
pub proof fn law_owner_is_first_sharing_node(changed: Seq<char>, ns: Seq<NodeView>)
    ensures
        owning_node(changed, ns) matches Some(n) ==> exists|i: int|
            #![trigger ns[i]]
            0 <= i < ns.len() && ns[i].name == n && (comps_of(changed) == comps_of(ns[i].script)
                || (parent_of(comps_of(changed)) is Some && parent_of(comps_of(changed))
                == parent_of(comps_of(ns[i].script)))) && forall|j: int|
                #![trigger ns[j]]
                0 <= j < i ==> !(comps_of(changed) == comps_of(ns[j].script) || (parent_of(
                    comps_of(changed),
                ) is Some && parent_of(comps_of(changed)) == parent_of(
                    comps_of(ns[j].script),
                ))),
        owning_node(changed, ns) is None ==> forall|i: int|
            #![trigger ns[i]]
            0 <= i < ns.len() ==> !(comps_of(changed) == comps_of(ns[i].script) || (parent_of(
                comps_of(changed),
            ) is Some && parent_of(comps_of(changed)) == parent_of(comps_of(ns[i].script)))),
    decreases ns.len(),
{
    if ns.len() > 0 {
        let d = ns.drop_first();
        law_owner_is_first_sharing_node(changed, d);
        if owns(changed, ns[0].script) {
            assert(ns[0].name == owning_node(changed, ns)->0);
        } else {
            match owning_node(changed, d) {
                Some(n) => {
                    let i = choose|i: int|
                        #![trigger d[i]]
                        0 <= i < d.len() && d[i].name == n && (comps_of(changed) == comps_of(
                            d[i].script,
                        ) || (parent_of(comps_of(changed)) is Some && parent_of(comps_of(changed))
                            == parent_of(comps_of(d[i].script)))) && forall|j: int|
                            #![trigger d[j]]
                            0 <= j < i ==> !(comps_of(changed) == comps_of(d[j].script) || (
                            parent_of(comps_of(changed)) is Some && parent_of(comps_of(changed))
                                == parent_of(comps_of(d[j].script))));
                    assert(ns[i + 1] == d[i]);
                    assert forall|j: int|
                        #![trigger ns[j]]
                        0 <= j < i + 1 implies !(comps_of(changed) == comps_of(ns[j].script) || (
                        parent_of(comps_of(changed)) is Some && parent_of(comps_of(changed))
                            == parent_of(comps_of(ns[j].script)))) by {
                        if j > 0 {
                            assert(ns[j] == d[j - 1]);
                        }
                    }
                },
                None => {
                    assert forall|i: int|
                        #![trigger ns[i]]
                        0 <= i < ns.len() implies !(comps_of(changed) == comps_of(ns[i].script)
                            || (parent_of(comps_of(changed)) is Some && parent_of(
                            comps_of(changed),
                        ) == parent_of(comps_of(ns[i].script)))) by {
                        if i > 0 {
                            assert(ns[i] == d[i - 1]);
                        }
                    }
                },
            }
        }
    }
}

} // verus!
