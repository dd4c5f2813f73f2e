//! The summary of a resolved configuration that `reach config` shows.

use vstd::prelude::*;

use crate::config::{
    node_views, pair_views, pipeline_views, ConfigView, LaunchNode, LaunchNodeView, NodeView,
    PipelineView, ReachConfig,
};
use crate::text::{decimal, join, join_strings, push_decimal, views};

verus! {

/// `true` or `false`, as `Display` writes a boolean.
pub open spec fn bool_text(b: bool) -> Seq<char> {
    if b {
        "true"@
    } else {
        "false"@
    }
}

/// One line per node: `  - name → script`.
pub open spec fn node_lines(ns: Seq<NodeView>) -> Seq<char>
    decreases ns.len(),
{
    if ns.len() == 0 {
        seq![]
    } else {
        node_lines(ns.drop_last()) + "  - "@ + ns.last().name + " → "@ + ns.last().script_rel
            + "\n"@
    }
}

/// The names of a pipeline's nodes, in order.
pub open spec fn step_names(ns: Seq<LaunchNodeView>) -> Seq<Seq<char>> {
    ns.map_values(|n: LaunchNodeView| n.name)
}

/// One line per pipeline: `  - name → [node, node]`.
pub open spec fn pipeline_lines(ps: Seq<PipelineView>) -> Seq<char>
    decreases ps.len(),
{
    if ps.len() == 0 {
        seq![]
    } else {
        pipeline_lines(ps.drop_last()) + "  - "@ + ps.last().name + " → ["@ + join(
            step_names(ps.last().nodes),
            ", "@,
        ) + "]\n"@
    }
}

/// One line per remapping: `  from → to`.
pub open spec fn remap_lines(rs: Seq<(Seq<char>, Seq<char>)>) -> Seq<char>
    decreases rs.len(),
{
    if rs.len() == 0 {
        seq![]
    } else {
        remap_lines(rs.drop_last()) + "  "@ + rs.last().0 + " → "@ + rs.last().1 + "\n"@
    }
}

/// The summary of a configuration, line by line.
pub open spec fn summary(c: ConfigView) -> Seq<char> {
    "Project:     "@ + c.project.name + " v"@ + c.project.version + "\n"@ + "Python:      "@
        + c.project.python + "\n"@ + "Platform:    "@ + c.robot.platform + "\n"@
        + "Transport:   "@ + "ros2"@ + "\n"@ + "Domain ID:   "@ + decimal(c.robot.domain_id as nat)
        + "\n"@ + "Nodes:       "@ + decimal(c.nodes.len()) + "\n"@ + node_lines(c.nodes) + (if c.launch.len()
        > 0 {
        "Pipelines:\n"@ + pipeline_lines(c.launch)
    } else {
        seq![]
    }) + "Hot reload:  "@ + bool_text(c.dev.hot_reload) + "\n"@ + (if c.ros.remappings.len() > 0 {
        "Remappings:\n"@ + remap_lines(c.ros.remappings)
    } else {
        seq![]
    })
}

fn step_name_list(ns: &Vec<LaunchNode>) -> (r: Vec<String>)
    ensures
        views(r@) == step_names(ns@.map_values(|n: LaunchNode| n@)),
{
    let mut r: Vec<String> = Vec::new();
    let mut i: usize = 0;
    while i < ns.len()
        invariant
            i <= ns@.len(),
            views(r@) == step_names(ns@.map_values(|n: LaunchNode| n@)).take(i as int),
        decreases ns@.len() - i,
    {
        let x = ns[i].name.clone();
        let ghost prev = r@;
        r.push(x);
        assert(views(r@) =~= views(prev).push(x@));
        assert(step_names(ns@.map_values(|n: LaunchNode| n@)).take(i + 1) =~= step_names(
            ns@.map_values(|n: LaunchNode| n@),
        ).take(i as int).push(x@));
        i = i + 1;
    }
    assert(step_names(ns@.map_values(|n: LaunchNode| n@)).take(i as int) =~= step_names(
        ns@.map_values(|n: LaunchNode| n@),
    ));
    r
}

impl ReachConfig {
    /// The summary of this configuration, as `reach config` shows it.
    pub fn to_string(&self) -> (r: String)
        ensures
            r@ == summary(self@),
    {
        let ghost c = self@;
        let mut s = String::from_str("Project:     ");
        s.append(self.project.name.as_str());
        s.append(" v");
        s.append(self.project.version.as_str());
        s.append("\n");
        s.append("Python:      ");
        s.append(self.project.python.as_str());
        s.append("\n");
        s.append("Platform:    ");
        s.append(self.robot.platform.as_str());
        s.append("\n");
        s.append("Transport:   ");
        s.append(self.robot.transport.as_str());
        s.append("\n");
        s.append("Domain ID:   ");
        push_decimal(&mut s, self.robot.domain_id as u64);
        s.append("\n");
        s.append("Nodes:       ");
        push_decimal(&mut s, self.nodes.len() as u64);
        s.append("\n");
        let ghost head = s@;
        let mut i: usize = 0;
        while i < self.nodes.len()
            invariant
                i <= self.nodes@.len(),
                c == self@,
                s@ == head + node_lines(node_views(self.nodes@).take(i as int)),
            decreases self.nodes@.len() - i,
        {
            let n = &self.nodes[i];
            s.append("  - ");
            s.append(n.name.as_str());
            s.append(" → ");
            s.append(n.script_rel.as_str());
            s.append("\n");
            proof {
                assert(node_views(self.nodes@).take(i + 1).drop_last() =~= node_views(
                    self.nodes@,
                ).take(i as int));
            }
            i = i + 1;
        }
        assert(node_views(self.nodes@).take(i as int) =~= node_views(self.nodes@));
        let ghost after_nodes = s@;
        if self.launch.len() > 0 {
            s.append("Pipelines:\n");
            let ghost head2 = s@;
            let mut k: usize = 0;
            while k < self.launch.len()
                invariant
                    k <= self.launch@.len(),
                    c == self@,
                    s@ == head2 + pipeline_lines(pipeline_views(self.launch@).take(k as int)),
                decreases self.launch@.len() - k,
            {
                let p = &self.launch[k];
                let names = step_name_list(&p.nodes);
                s.append("  - ");
                s.append(p.name.as_str());
                s.append(" → [");
                let joined = join_strings(&names, ", ");
                s.append(joined.as_str());
                s.append("]\n");
                proof {
                    assert(pipeline_views(self.launch@).take(k + 1).drop_last() =~= pipeline_views(
                        self.launch@,
                    ).take(k as int));
                    assert(pipeline_views(self.launch@).take(k + 1).last() == p@);
                }
                k = k + 1;
            }
            assert(pipeline_views(self.launch@).take(k as int) =~= pipeline_views(self.launch@));
        }
        s.append("Hot reload:  ");
        if self.dev.hot_reload {
            s.append("true");
        } else {
            s.append("false");
        }
        s.append("\n");
        if self.ros.remappings.len() > 0 {
            s.append("Remappings:\n");
            let ghost head3 = s@;
            let mut k: usize = 0;
            while k < self.ros.remappings.len()
                invariant
                    k <= self.ros.remappings@.len(),
                    c == self@,
                    s@ == head3 + remap_lines(pair_views(self.ros.remappings@).take(k as int)),
                decreases self.ros.remappings@.len() - k,
            {
                let e = &self.ros.remappings[k];
                s.append("  ");
                s.append(e.0.as_str());
                s.append(" → ");
                s.append(e.1.as_str());
                s.append("\n");
                proof {
                    assert(pair_views(self.ros.remappings@).take(k + 1).drop_last() =~= pair_views(
                        self.ros.remappings@,
                    ).take(k as int));
                }
                k = k + 1;
            }
            assert(pair_views(self.ros.remappings@).take(k as int) =~= pair_views(
                self.ros.remappings@,
            ));
        }
        assert(s@ =~= summary(c));
        s
    }
}

} // verus!
