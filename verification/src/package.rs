//! Files generated from `reach.toml`: the ROS 2 package that `reach build` writes
//! and the `reach.toml` that `reach create` starts a workspace with.

use vstd::prelude::*;

use crate::config::{
    ConfigView, DependencyView, NodeView, RawConfigView, RawDevView, RawLaunchNodeView,
    RawLaunchPipelineView, RawNodeView, RawProjectView, RawRobotView, ReachConfig,
};
use crate::path::{comps_of, file_name_of, stem_of, stem_of_name};
use crate::resolve::{config_view, given, or_else, resolve_errors};
use crate::run::{run_selection, profile_nodes};
use crate::text::{
    join, join_strings, lemma_contains_middle, lemma_contains_trans, lemma_contains_within,
    lemma_join_contains, seq_contains, views,
};

verus! {

pub const CREATE_HEAD: &'static str = "# ─────────────────────────────────────────────\n#  reach.toml — ReachPy workspace configuration\n#  Replaces: CMakeLists.txt, package.xml, setup.py, XML launch files\n# ─────────────────────────────────────────────\n\n[project]\nname = \"";

pub const CREATE_TAIL: &'static str = "\"\nversion = \"0.1.0\"\npython = \"3.11\"\ndescription = \"A ReachPy robotics workspace\"\n\n[robot]\nplatform = \"generic\"\ntransport = \"ros2\"\ndomain_id = 0\n\n[nodes]\nexample = \"src/example.py\"\n\n[launch.default]\nnodes = [{ name = \"example\" }]\n\n[dev]\nhot_reload = true\nhot_reload_ignore = [\"config/\", \"models/\"]\n";

pub const PACKAGE_XML_HEAD: &'static str = "<?xml version=\"1.0\"?>\n<?xml-model href=\"http://download.ros.org/schema/package_format3.xsd\" schematypens=\"http://www.w3.org/2001/XMLSchema\"?>\n<package format=\"3\">\n  <name>";

pub const PACKAGE_XML_VERSION: &'static str = "</name>\n  <version>";

pub const PACKAGE_XML_DESCRIPTION: &'static str = "</version>\n  <description>";

pub const PACKAGE_XML_DEPENDS: &'static str = "</description>\n  <maintainer email=\"reach@ascii-robotics.com\">ASCII Robotics</maintainer>\n  <license>MIT</license>\n\n  <buildtool_depend>ament_python</buildtool_depend>\n\n  <exec_depend>rclpy</exec_depend>\n";

pub const PACKAGE_XML_TAIL: &'static str = "\n\n  <export>\n    <build_type>ament_python</build_type>\n  </export>\n</package>\n";

pub const DEFAULT_DESCRIPTION: &'static str = "A ReachPy workspace";

pub const CMAKE_HEAD: &'static str = "cmake_minimum_required(VERSION 3.8)\nproject(";

pub const CMAKE_PROGRAMS: &'static str = ")\n\nfind_package(ament_cmake REQUIRED)\nfind_package(ament_cmake_python REQUIRED)\n\nament_python_install_package(${PROJECT_NAME})\n\ninstall(PROGRAMS\n";

pub const CMAKE_TAIL: &'static str = "\n  DESTINATION lib/${PROJECT_NAME}\n)\n\nament_package()\n";

pub const SETUP_PY_HEAD: &'static str = "from setuptools import setup\n\npackage_name = '";

pub const SETUP_PY_VERSION: &'static str = "'\n\nsetup(\n    name=package_name,\n    version='";

pub const SETUP_PY_ENTRIES: &'static str = "',\n    packages=[package_name],\n    data_files=[\n        ('share/ament_index/resource_index/packages',\n            ['resource/' + package_name]),\n        ('share/' + package_name, ['package.xml']),\n    ],\n    install_requires=['setuptools'],\n    zip_safe=True,\n    entry_points={\n        'console_scripts': [\n";

pub const SETUP_PY_TAIL: &'static str = "\n        ],\n    },\n)\n";

/// The `reach.toml` of a new workspace named `name`.
pub open spec fn workspace_toml_text(name: Seq<char>) -> Seq<char> {
    CREATE_HEAD@ + name + CREATE_TAIL@
}

/// The `reach.toml` that `reach create <name>` writes.
pub fn workspace_toml(name: &str) -> (r: String)
    ensures
        r@ == workspace_toml_text(name@),
{
    let mut s = String::from_str(CREATE_HEAD);
    s.append(name);
    s.append(CREATE_TAIL);
    s
}

/// `  <exec_depend>name</exec_depend>` for each dependency.
pub open spec fn depend_lines(ds: Seq<DependencyView>) -> Seq<Seq<char>> {
    ds.map_values(|d: DependencyView| "  <exec_depend>"@ + d.name + "</exec_depend>"@)
}

/// The `package.xml` of the generated package.
pub open spec fn package_xml_text(c: ConfigView) -> Seq<char> {
    PACKAGE_XML_HEAD@ + c.project.name + PACKAGE_XML_VERSION@ + c.project.version
        + PACKAGE_XML_DESCRIPTION@ + or_else(c.project.description, DEFAULT_DESCRIPTION@)
        + PACKAGE_XML_DEPENDS@ + join(depend_lines(c.dependencies), "\n"@) + PACKAGE_XML_TAIL@
}

/// The `package.xml` that `reach build` writes.
pub fn generate_package_xml(config: &ReachConfig) -> (r: String)
    ensures
        r@ == package_xml_text(config@),
{
    let ghost dv = config@.dependencies;
    let mut lines: Vec<String> = Vec::new();
    let mut i: usize = 0;
    while i < config.dependencies.len()
        invariant
            i <= config.dependencies@.len(),
            dv == config@.dependencies,
            views(lines@) == depend_lines(dv.take(i as int)),
        decreases config.dependencies@.len() - i,
    {
        let mut l = String::from_str("  <exec_depend>");
        l.append(config.dependencies[i].name.as_str());
        l.append("</exec_depend>");
        let ghost prev = lines@;
        lines.push(l);
        assert(views(lines@) =~= views(prev).push(l@));
        assert(depend_lines(dv.take(i + 1)) =~= depend_lines(dv.take(i as int)).push(l@));
        i = i + 1;
    }
    assert(dv.take(i as int) =~= dv);
    let mut s = String::from_str(PACKAGE_XML_HEAD);
    s.append(config.project.name.as_str());
    s.append(PACKAGE_XML_VERSION);
    s.append(config.project.version.as_str());
    s.append(PACKAGE_XML_DESCRIPTION);
    match &config.project.description {
        Some(d) => s.append(d.as_str()),
        None => s.append(DEFAULT_DESCRIPTION),
    }
    s.append(PACKAGE_XML_DEPENDS);
    let deps = join_strings(&lines, "\n");
    s.append(deps.as_str());
    s.append(PACKAGE_XML_TAIL);
    s
}

/// `  <script path>` for each node.
pub open spec fn script_lines(ns: Seq<NodeView>) -> Seq<Seq<char>> {
    ns.map_values(|n: NodeView| "  "@ + n.script)
}

/// The `CMakeLists.txt` of the generated package.
pub open spec fn cmakelists_text(c: ConfigView) -> Seq<char> {
    CMAKE_HEAD@ + c.project.name + CMAKE_PROGRAMS@ + join(script_lines(c.nodes), "\n"@)
        + CMAKE_TAIL@
}

/// The `CMakeLists.txt` that `reach build` writes.
pub fn generate_cmakelists(config: &ReachConfig) -> (r: String)
    ensures
        r@ == cmakelists_text(config@),
{
    let ghost nv = config@.nodes;
    let mut lines: Vec<String> = Vec::new();
    let mut i: usize = 0;
    while i < config.nodes.len()
        invariant
            i <= config.nodes@.len(),
            nv == config@.nodes,
            views(lines@) == script_lines(nv.take(i as int)),
        decreases config.nodes@.len() - i,
    {
        let mut l = String::from_str("  ");
        l.append(config.nodes[i].script.text.as_str());
        let ghost prev = lines@;
        lines.push(l);
        assert(views(lines@) =~= views(prev).push(l@));
        assert(script_lines(nv.take(i + 1)) =~= script_lines(nv.take(i as int)).push(l@));
        i = i + 1;
    }
    assert(nv.take(i as int) =~= nv);
    let mut s = String::from_str(CMAKE_HEAD);
    s.append(config.project.name.as_str());
    s.append(CMAKE_PROGRAMS);
    let scripts = join_strings(&lines, "\n");
    s.append(scripts.as_str());
    s.append(CMAKE_TAIL);
    s
}

/// The module a node's entry point lives in: its script's stem, or the node's name
/// when the script has no file name.
pub open spec fn entry_module(n: NodeView) -> Seq<char> {
    match file_name_of(comps_of(n.script)) {
        Some(f) => stem_of_name(f),
        None => n.name,
    }
}

/// `            'name = package.module:main',` for each node.
pub open spec fn entry_lines(ns: Seq<NodeView>, package: Seq<char>) -> Seq<Seq<char>> {
    ns.map_values(
        |n: NodeView|
            "            '"@ + n.name + " = "@ + package + "."@ + entry_module(n) + ":main',"@,
    )
}

/// The `setup.py` of the generated package.
pub open spec fn setup_py_text(c: ConfigView) -> Seq<char> {
    SETUP_PY_HEAD@ + c.project.name + SETUP_PY_VERSION@ + c.project.version + SETUP_PY_ENTRIES@
        + join(entry_lines(c.nodes, c.project.name), "\n"@) + SETUP_PY_TAIL@
}

/// The `setup.py` that `reach build` writes.
pub fn generate_setup_py(config: &ReachConfig) -> (r: String)
    ensures
        r@ == setup_py_text(config@),
{
    let ghost nv = config@.nodes;
    let ghost pkg = config@.project.name;
    let mut lines: Vec<String> = Vec::new();
    let mut i: usize = 0;
    while i < config.nodes.len()
        invariant
            i <= config.nodes@.len(),
            nv == config@.nodes,
            pkg == config@.project.name,
            views(lines@) == entry_lines(nv.take(i as int), pkg),
        decreases config.nodes@.len() - i,
    {
        let n = &config.nodes[i];
        let module = match n.script.file_name() {
            Some(f) => stem_of(&f),
            None => n.name.clone(),
        };
        let mut l = String::from_str("            '");
        l.append(n.name.as_str());
        l.append(" = ");
        l.append(config.project.name.as_str());
        l.append(".");
        l.append(module.as_str());
        l.append(":main',");
        assert(module@ == entry_module(n@));
        let ghost prev = lines@;
        lines.push(l);
        assert(views(lines@) =~= views(prev).push(l@));
        assert(entry_lines(nv.take(i + 1), pkg) =~= entry_lines(nv.take(i as int), pkg).push(l@));
        i = i + 1;
    }
    assert(nv.take(i as int) =~= nv);
    let mut s = String::from_str(SETUP_PY_HEAD);
    s.append(config.project.name.as_str());
    s.append(SETUP_PY_VERSION);
    s.append(config.project.version.as_str());
    s.append(SETUP_PY_ENTRIES);
    let entries = join_strings(&lines, "\n");
    s.append(entries.as_str());
    s.append(SETUP_PY_TAIL);
    s
}

/// The `setup.cfg` of the generated package.
pub open spec fn setup_cfg_text(name: Seq<char>) -> Seq<char> {
    "[develop]\nscript_dir=$base/lib/"@ + name + "\n[install]\ninstall_scripts=$base/lib/"@ + name
        + "\n"@
}

/// The `setup.cfg` that `reach build` writes.
pub fn generate_setup_cfg(name: &str) -> (r: String)
    ensures
        r@ == setup_cfg_text(name@),
{
    let mut s = String::from_str("[develop]\nscript_dir=$base/lib/");
    s.append(name);
    s.append("\n[install]\ninstall_scripts=$base/lib/");
    s.append(name);
    s.append("\n");
    s
}

// ─── Laws ────────────────────────────────────────────────────────────────────

/// Every entry of `[dependencies]` is declared in the generated `package.xml` as
/// `<exec_depend>name</exec_depend>`.
pub proof fn law_dependencies_declared(c: ConfigView, k: int)
    requires
        0 <= k < c.dependencies.len(),
    ensures
        seq_contains(
            package_xml_text(c),
            "<exec_depend>"@ + c.dependencies[k].name + "</exec_depend>"@,
        ),
{
    let lines = depend_lines(c.dependencies);
    let tag = "<exec_depend>"@ + c.dependencies[k].name + "</exec_depend>"@;
    reveal_strlit("  <exec_depend>");
    reveal_strlit("<exec_depend>");
    reveal_strlit("  ");
    assert(lines[k] =~= "  "@ + tag + seq![]);
    lemma_contains_middle("  "@, tag, seq![]);
    lemma_join_contains(lines, "\n"@, k);
    lemma_contains_trans(join(lines, "\n"@), lines[k], tag);
    let pre = PACKAGE_XML_HEAD@ + c.project.name + PACKAGE_XML_VERSION@ + c.project.version
        + PACKAGE_XML_DESCRIPTION@ + or_else(c.project.description, DEFAULT_DESCRIPTION@)
        + PACKAGE_XML_DEPENDS@;
    lemma_contains_within(pre, join(lines, "\n"@), PACKAGE_XML_TAIL@, tag);
}

/// Every node's script is installed by the generated `CMakeLists.txt`.
pub proof fn law_scripts_installed(c: ConfigView, k: int)
    requires
        0 <= k < c.nodes.len(),
    ensures
        seq_contains(cmakelists_text(c), c.nodes[k].script),
{
    let lines = script_lines(c.nodes);
    let script = c.nodes[k].script;
    assert(lines[k] =~= "  "@ + script + seq![]);
    lemma_contains_middle("  "@, script, seq![]);
    lemma_join_contains(lines, "\n"@, k);
    lemma_contains_trans(join(lines, "\n"@), lines[k], script);
    lemma_contains_within(
        CMAKE_HEAD@ + c.project.name + CMAKE_PROGRAMS@,
        join(lines, "\n"@),
        CMAKE_TAIL@,
        script,
    );
}

/// Every node gets a console entry point `name = package.module:main` in the
/// generated `setup.py`, the module being its script's file stem.
pub proof fn law_entry_point_per_node(c: ConfigView, k: int)
    requires
        0 <= k < c.nodes.len(),
    ensures
        seq_contains(
            setup_py_text(c),
            c.nodes[k].name + " = "@ + c.project.name + "."@ + entry_module(c.nodes[k]) + ":main"@,
        ),
{
    let lines = entry_lines(c.nodes, c.project.name);
    let entry = c.nodes[k].name + " = "@ + c.project.name + "."@ + entry_module(c.nodes[k])
        + ":main"@;
    reveal_strlit(":main',");
    reveal_strlit(":main");
    reveal_strlit("',");
    assert(lines[k] =~= "            '"@ + entry + "',"@);
    lemma_contains_middle("            '"@, entry, "',"@);
    lemma_join_contains(lines, "\n"@, k);
    lemma_contains_trans(join(lines, "\n"@), lines[k], entry);
    lemma_contains_within(
        SETUP_PY_HEAD@ + c.project.name + SETUP_PY_VERSION@ + c.project.version
            + SETUP_PY_ENTRIES@,
        join(lines, "\n"@),
        SETUP_PY_TAIL@,
        entry,
    );
}

/// The sections of the `reach.toml` that `reach create <name>` writes, as read,
/// with the example script it writes beside it in place.
pub open spec fn created_workspace(name: Seq<char>) -> RawConfigView {
    RawConfigView {
        project: Some(
            RawProjectView {
                name: Some(name),
                version: Some("0.1.0"@),
                python: Some("3.11"@),
                description: Some("A ReachPy robotics workspace"@),
            },
        ),
        robot: Some(
            RawRobotView { platform: Some("generic"@), transport: Some("ros2"@), domain_id: Some(0) },
        ),
        nodes: Some(seq![RawNodeView { name: "example"@, script: "src/example.py"@, script_found: true }]),
        launch: Some(
            seq![
                RawLaunchPipelineView {
                    name: "default"@,
                    nodes: Some(
                        seq![
                            RawLaunchNodeView {
                                name: Some("example"@),
                                delay: None,
                                depends_on: None,
                                wait_ready: None,
                                params: None,
                            },
                        ],
                    ),
                },
            ],
        ),
        dependencies: None,
        dev: Some(
            RawDevView { hot_reload: Some(true), hot_reload_ignore: Some(seq!["config/"@, "models/"@]) },
        ),
        ros: None,
    }
}

/// A workspace just created with a name that is not blank resolves: the project
/// has that name, `example` is its one node, and `reach run` starts that node
/// through the `default` pipeline.
pub proof fn law_created_workspace_resolves(name: Seq<char>, root: Seq<char>)
    requires
        given(Some(name)),
    ensures
        resolve_errors(created_workspace(name), root).len() == 0,
        config_view(created_workspace(name), root).project.name == name,
        config_view(created_workspace(name), root).nodes.len() == 1,
        config_view(created_workspace(name), root).nodes[0].name == "example"@,
        run_selection(config_view(created_workspace(name), root), seq![]) == Ok::<
            Seq<NodeView>,
            (bool, Seq<char>),
        >(config_view(created_workspace(name), root).nodes),
{
    let raw = created_workspace(name);
    let c = config_view(raw, root);
    reveal_strlit("3.11");
    reveal_strlit("3.");
    reveal_strlit("example");
    reveal_strlit("default");
    assert("3."@.is_prefix_of("3.11"@)) by {
        assert("3.11"@.subrange(0, 2) =~= "3."@);
    }
    let ns = seq![RawNodeView { name: "example"@, script: "src/example.py"@, script_found: true }];
    assert(ns.drop_last() =~= Seq::<RawNodeView>::empty());
    assert(crate::resolve::script_errors(Seq::<RawNodeView>::empty()) =~= Seq::<Seq<char>>::empty());
    assert(crate::resolve::found_nodes(Seq::<RawNodeView>::empty(), root) =~= Seq::<NodeView>::empty());
    assert(crate::resolve::script_errors(ns) =~= Seq::<Seq<char>>::empty());
    assert(crate::resolve::found_nodes(ns, root).len() == 1);
    let known = crate::resolve::node_names(crate::resolve::found_nodes(ns, root));
    assert(known[0] == "example"@);
    assert(known.contains("example"@));
    let steps = seq![
        RawLaunchNodeView {
            name: Some("example"@),
            delay: None,
            depends_on: None,
            wait_ready: None,
            params: None,
        },
    ];
    assert(steps.drop_last() =~= Seq::<RawLaunchNodeView>::empty());
    assert(crate::resolve::entries_errors("default"@, Seq::<RawLaunchNodeView>::empty(), known)
        =~= Seq::<Seq<char>>::empty());
    assert(crate::resolve::entries_errors("default"@, steps, known) =~= Seq::<Seq<char>>::empty());
    let ps = raw.launch->0;
    assert(ps.drop_last() =~= Seq::<RawLaunchPipelineView>::empty());
    assert(crate::resolve::pipelines_errors(Seq::<RawLaunchPipelineView>::empty(), known)
        =~= Seq::<Seq<char>>::empty());
    assert(crate::resolve::pipelines_errors(ps, known) =~= Seq::<Seq<char>>::empty());
    assert(resolve_errors(raw, root) =~= Seq::<Seq<char>>::empty());
    assert(c.launch.len() == 1);
    assert(c.launch[0].name == "default"@);
    assert(crate::run::find_pipeline(c.launch, "default"@) == Some(c.launch[0]));
    let sv = c.launch[0].nodes;
    assert(sv.len() == 1);
    assert(sv[0].name == "example"@);
    assert(crate::run::find_node(c.nodes, "example"@) == Some(c.nodes[0]));
    assert(sv.drop_last() =~= Seq::<crate::config::LaunchNodeView>::empty());
    assert(crate::run::steps_nodes(Seq::<crate::config::LaunchNodeView>::empty(), c.nodes)
        =~= Seq::<NodeView>::empty());
    assert(crate::run::steps_nodes(sv, c.nodes) =~= c.nodes);
    assert(profile_nodes(c, "default"@) == Some(c.nodes));
}

} // verus!
