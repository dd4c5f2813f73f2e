//! Decisions of the `reach` subcommands that read only their arguments or the text
//! that a tool printed: which subcommand runs, which topics are recorded, which ROS 2
//! distribution is sourced, and so on.

use vstd::prelude::*;

use crate::config::{opt_view, LaunchNode, LaunchNodeView, LaunchPipeline};
use crate::path::{extension_of, extension_of_name};
use crate::text::{
    chars_of, decimal, index_of, lines_of, push_decimal, replace_all, replace_str, seq_contains,
    split_char, split_lines, split_on, str_contains, str_starts_with, trim, trim_chars,
    trim_str, views,
};

verus! {

// ─── Subcommands ─────────────────────────────────────────────────────────────

/// What `reach trace` does.
#[derive(Debug)]
pub enum TraceCommand {
    /// Show the last trace, with the arguments after `show`.
    Show(Vec<String>),
    /// Remove all traces.
    Clear,
    /// Run the workspace with tracing, with the given arguments.
    Run(Vec<String>),
}

pub enum TraceCommandView {
    Show(Seq<Seq<char>>),
    Clear,
    Run(Seq<Seq<char>>),
}

impl View for TraceCommand {
    type V = TraceCommandView;

    open spec fn view(&self) -> TraceCommandView {
        match self {
            TraceCommand::Show(a) => TraceCommandView::Show(views(a@)),
            TraceCommand::Clear => TraceCommandView::Clear,
            TraceCommand::Run(a) => TraceCommandView::Run(views(a@)),
        }
    }
}

/// `reach trace show ...` shows, `reach trace clear` clears, anything else (or
/// nothing) runs with tracing.
pub open spec fn trace_command(args: Seq<Seq<char>>) -> TraceCommandView {
    if args.len() > 0 && args[0] == "show"@ {
        TraceCommandView::Show(args.drop_first())
    } else if args.len() > 0 && args[0] == "clear"@ {
        TraceCommandView::Clear
    } else {
        TraceCommandView::Run(args)
    }
}

fn copy_from(args: &Vec<String>, from: usize) -> (r: Vec<String>)
    requires
        from <= args@.len(),
    ensures
        views(r@) == views(args@).skip(from as int),
{
    let mut r: Vec<String> = Vec::new();
    let mut i: usize = from;
    while i < args.len()
        invariant
            from <= i <= args@.len(),
            views(r@) == views(args@).subrange(from as int, i as int),
        decreases args@.len() - i,
    {
        let x = args[i].clone();
        let ghost prev = r@;
        r.push(x);
        assert(views(r@) =~= views(prev).push(x@));
        assert(views(args@).subrange(from as int, i + 1) =~= views(args@).subrange(
            from as int,
            i as int,
        ).push(args@[i as int]@));
        i = i + 1;
    }
    assert(views(args@).subrange(from as int, i as int) =~= views(args@).skip(from as int));
    r
}

/// What `reach trace` with these arguments does.
pub fn cmd_trace(args: &Vec<String>) -> (r: TraceCommand)
    ensures
        r@ == trace_command(views(args@)),
{
    if args.len() > 0 {
        assert(views(args@)[0] == args@[0]@);
        if args[0] == String::from_str("show") {
            return TraceCommand::Show(copy_from(args, 1));
        }
        if args[0] == String::from_str("clear") {
            return TraceCommand::Clear;
        }
    }
    let all = copy_from(args, 0);
    assert(views(args@).skip(0) =~= views(args@));
    TraceCommand::Run(all)
}

/// What `reach bags` does.
#[derive(Debug)]
pub enum BagsCommand {
    /// Record, with the arguments after `record`.
    Record(Vec<String>),
    /// Play back, with the arguments after `play`.
    Play(Vec<String>),
    /// List the recordings.
    List,
    /// An unknown subcommand: show the usage and fail.
    Unknown(String),
    /// No subcommand: show the help.
    Help,
}

pub enum BagsCommandView {
    Record(Seq<Seq<char>>),
    Play(Seq<Seq<char>>),
    List,
    Unknown(Seq<char>),
    Help,
}

impl View for BagsCommand {
    type V = BagsCommandView;

    open spec fn view(&self) -> BagsCommandView {
        match self {
            BagsCommand::Record(a) => BagsCommandView::Record(views(a@)),
            BagsCommand::Play(a) => BagsCommandView::Play(views(a@)),
            BagsCommand::List => BagsCommandView::List,
            BagsCommand::Unknown(s) => BagsCommandView::Unknown(s@),
            BagsCommand::Help => BagsCommandView::Help,
        }
    }
}

/// `record`, `play` and `list` name the subcommands of `reach bags`.
pub open spec fn bags_command(args: Seq<Seq<char>>) -> BagsCommandView {
    if args.len() == 0 {
        BagsCommandView::Help
    } else if args[0] == "record"@ {
        BagsCommandView::Record(args.drop_first())
    } else if args[0] == "play"@ {
        BagsCommandView::Play(args.drop_first())
    } else if args[0] == "list"@ {
        BagsCommandView::List
    } else {
        BagsCommandView::Unknown(args[0])
    }
}

/// What `reach bags` with these arguments does.
pub fn cmd_bags(args: &Vec<String>) -> (r: BagsCommand)
    ensures
        r@ == bags_command(views(args@)),
{
    if args.len() == 0 {
        return BagsCommand::Help;
    }
    assert(views(args@)[0] == args@[0]@);
    if args[0] == String::from_str("record") {
        BagsCommand::Record(copy_from(args, 1))
    } else if args[0] == String::from_str("play") {
        BagsCommand::Play(copy_from(args, 1))
    } else if args[0] == String::from_str("list") {
        BagsCommand::List
    } else {
        BagsCommand::Unknown(args[0].clone())
    }
}

// ─── Flags ───────────────────────────────────────────────────────────────────

/// The index of the first argument equal to `flag`, or the number of arguments.
pub open spec fn flag_index(args: Seq<Seq<char>>, flag: Seq<char>) -> int
    decreases args.len(),
{
    if args.len() == 0 {
        0
    } else if args[0] == flag {
        0
    } else {
        1 + flag_index(args.drop_first(), flag)
    }
}

proof fn lemma_flag_index_at(args: Seq<Seq<char>>, flag: Seq<char>, i: int)
    requires
        0 <= i <= args.len(),
        forall|j: int| 0 <= j < i ==> #[trigger] args[j] != flag,
        i < args.len() ==> args[i] == flag,
    ensures
        flag_index(args, flag) == i,
    decreases i,
{
    if i > 0 {
        assert forall|j: int| 0 <= j < i - 1 implies #[trigger] args.drop_first()[j] != flag by {
            assert(args.drop_first()[j] == args[j + 1]);
        }
        lemma_flag_index_at(args.drop_first(), flag, i - 1);
    }
}

/// The argument after the first `flag`, when both are there.
pub open spec fn flag_value(args: Seq<Seq<char>>, flag: Seq<char>) -> Option<Seq<char>> {
    let i = flag_index(args, flag);
    if i + 1 < args.len() {
        Some(args[i + 1])
    } else {
        None
    }
}

/// The position of the first `flag` among the arguments.
pub fn flag_position(args: &Vec<String>, flag: &str) -> (r: Option<usize>)
    ensures
        flag_index(views(args@), flag@) == match r {
            Some(i) => i as int,
            None => args@.len() as int,
        },
        r matches Some(i) ==> i < args.len(),
{
    let target = String::from_str(flag);
    let mut i: usize = 0;
    while i < args.len()
        invariant
            i <= args@.len(),
            target@ == flag@,
            forall|j: int| 0 <= j < i ==> #[trigger] views(args@)[j] != flag@,
        decreases args@.len() - i,
    {
        assert(views(args@)[i as int] == args@[i as int]@);
        if args[i] == target {
            proof {
                lemma_flag_index_at(views(args@), flag@, i as int);
            }
            return Some(i);
        }
        i = i + 1;
    }
    proof {
        lemma_flag_index_at(views(args@), flag@, i as int);
    }
    None
}

/// The argument after the first `flag` (`--rate 0.5`, `--node talker`, `--profile
/// name`), when both are there.
pub fn flag_argument(args: &Vec<String>, flag: &str) -> (r: Option<String>)
    ensures
        opt_view(r) == flag_value(views(args@), flag@),
{
    match flag_position(args, flag) {
        Some(i) => {
            if i + 1 < args.len() {
                assert(views(args@)[i + 1] == args@[i + 1]@);
                Some(args[i + 1].clone())
            } else {
                None
            }
        },
        None => None,
    }
}

/// Whether `flag` is among the arguments (`--loop`).
pub fn has_flag(args: &Vec<String>, flag: &str) -> (r: bool)
    ensures
        r == views(args@).contains(flag@),
{
    let r = flag_position(args, flag).is_some();
    proof {
        lemma_flag_index_value(views(args@), flag@);
    }
    r
}

/// What `reach bags record` records.
#[derive(Debug)]
pub enum RecordTopics {
    /// All topics, for the launch profile of that name.
    Profile(String),
    /// `--profile` was given without a name.
    MissingProfile,
    /// These topics; all topics when there are none.
    Topics(Vec<String>),
}

pub enum RecordTopicsView {
    Profile(Seq<char>),
    MissingProfile,
    Topics(Seq<Seq<char>>),
}

impl View for RecordTopics {
    type V = RecordTopicsView;

    open spec fn view(&self) -> RecordTopicsView {
        match self {
            RecordTopics::Profile(p) => RecordTopicsView::Profile(p@),
            RecordTopics::MissingProfile => RecordTopicsView::MissingProfile,
            RecordTopics::Topics(t) => RecordTopicsView::Topics(views(t@)),
        }
    }
}

/// The arguments that start with `/`, in order.
pub open spec fn topic_args(args: Seq<Seq<char>>) -> Seq<Seq<char>>
    decreases args.len(),
{
    if args.len() == 0 {
        seq![]
    } else {
        topic_args(args.drop_last()) + if "/"@.is_prefix_of(args.last()) {
            seq![args.last()]
        } else {
            seq![]
        }
    }
}

/// With `--profile`, every topic is recorded for that profile; otherwise the
/// arguments that start with `/` are the topics.
pub open spec fn record_topics_of(args: Seq<Seq<char>>) -> RecordTopicsView {
    if args.contains("--profile"@) {
        match flag_value(args, "--profile"@) {
            Some(p) => RecordTopicsView::Profile(p),
            None => RecordTopicsView::MissingProfile,
        }
    } else {
        RecordTopicsView::Topics(topic_args(args))
    }
}

/// What `reach bags record` with these arguments records.
pub fn record_topics(args: &Vec<String>) -> (r: RecordTopics)
    ensures
        r@ == record_topics_of(views(args@)),
{
    match flag_position(args, "--profile") {
        Some(i) => {
            assert(views(args@)[i as int] == "--profile"@) by {
                assert(views(args@)[i as int] == args@[i as int]@);
                lemma_flag_index_value(views(args@), "--profile"@);
            }
            return match flag_argument(args, "--profile") {
                Some(p) => RecordTopics::Profile(p),
                None => RecordTopics::MissingProfile,
            };
        },
        None => {
            assert(!views(args@).contains("--profile"@)) by {
                lemma_flag_index_value(views(args@), "--profile"@);
            }
        },
    }
    let mut out: Vec<String> = Vec::new();
    let ghost av = views(args@);
    let mut i: usize = 0;
    while i < args.len()
        invariant
            i <= args@.len(),
            av == views(args@),
            views(out@) == topic_args(av.take(i as int)),
        decreases args@.len() - i,
    {
        assert(av.take(i + 1).drop_last() =~= av.take(i as int));
        assert(av.take(i + 1).last() == args@[i as int]@);
        if str_starts_with(args[i].as_str(), "/") {
            let x = args[i].clone();
            let ghost prev = out@;
            out.push(x);
            assert(views(out@) =~= views(prev).push(x@));
        }
        i = i + 1;
        assert(views(out@) =~= topic_args(av.take(i as int)));
    }
    assert(av.take(i as int) =~= av);
    RecordTopics::Topics(out)
}

proof fn lemma_flag_index_value(args: Seq<Seq<char>>, flag: Seq<char>)
    ensures
        0 <= flag_index(args, flag) <= args.len(),
        flag_index(args, flag) < args.len() ==> args[flag_index(args, flag)] == flag,
        args.contains(flag) <==> flag_index(args, flag) < args.len(),
    decreases args.len(),
{
    if args.len() > 0 && args[0] != flag {
        lemma_flag_index_value(args.drop_first(), flag);
        if args.contains(flag) {
            let w = choose|w: int| 0 <= w < args.len() && args[w] == flag;
            assert(args.drop_first()[w - 1] == flag);
        }
        if args.drop_first().contains(flag) {
            let w = choose|w: int| 0 <= w < args.drop_first().len() && args.drop_first()[w] == flag;
            assert(args[w + 1] == flag);
        }
    } else if args.len() > 0 {
        assert(args[0] == flag);
    }
}


// ─── Text printed by tools ───────────────────────────────────────────────────

/// The first entry of a `:`-separated list of paths.
pub open spec fn first_entry(s: Seq<char>) -> Seq<char> {
    s.take(index_of(s, ':'))
}

/// The ROS 2 distribution named in a path, checked in the order humble, iron,
/// jazzy, rolling, galactic, foxy; `unknown distro` when none is.
pub open spec fn distro_in(path: Seq<char>) -> Seq<char> {
    if seq_contains(path, "humble"@) {
        "humble"@
    } else if seq_contains(path, "iron"@) {
        "iron"@
    } else if seq_contains(path, "jazzy"@) {
        "jazzy"@
    } else if seq_contains(path, "rolling"@) {
        "rolling"@
    } else if seq_contains(path, "galactic"@) {
        "galactic"@
    } else if seq_contains(path, "foxy"@) {
        "foxy"@
    } else {
        "unknown distro"@
    }
}

/// The ROS 2 distribution sourced, from `AMENT_PREFIX_PATH`: the one named in its
/// first entry.
pub fn detect_ros2_distro(ament_prefix: &str) -> (r: String)
    ensures
        r@ == distro_in(first_entry(ament_prefix@)),
{
    let cs = chars_of(ament_prefix);
    let pieces = split_char(&cs, ':');
    proof {
        crate::text::lemma_index_of(cs@, ':');
    }
    assert(views(pieces@)[0] == first_entry(ament_prefix@)) by {
        let k = index_of(cs@, ':');
        if k < cs@.len() {
            assert(split_on(cs@, ':')[0] == cs@.take(k));
        } else {
            assert(cs@.take(k) =~= cs@);
        }
    }
    assert(split_on(cs@, ':').len() >= 1) by {
        let k = index_of(cs@, ':');
        if k >= cs@.len() || k < 0 {
        } else {
        }
    }
    assert(views(pieces@)[0] == pieces@[0]@);
    let path = pieces[0].as_str();
    if str_contains(path, "humble") {
        String::from_str("humble")
    } else if str_contains(path, "iron") {
        String::from_str("iron")
    } else if str_contains(path, "jazzy") {
        String::from_str("jazzy")
    } else if str_contains(path, "rolling") {
        String::from_str("rolling")
    } else if str_contains(path, "galactic") {
        String::from_str("galactic")
    } else if str_contains(path, "foxy") {
        String::from_str("foxy")
    } else {
        String::from_str("unknown distro")
    }
}

/// The first entry of `AMENT_PREFIX_PATH` is its text up to the first `:`, or all
/// of it when there is none.
pub proof fn law_first_entry(s: Seq<char>)
    ensures
        first_entry(s).is_prefix_of(s),
        !first_entry(s).contains(':'),
        first_entry(s).len() < s.len() ==> s[first_entry(s).len() as int] == ':',
{
    crate::text::lemma_index_of(s, ':');
    let e = first_entry(s);
    assert(s.subrange(0, e.len() as int) =~= e);
    assert forall|j: int| 0 <= j < e.len() implies e[j] != ':' by {
        assert(e[j] == s[j]);
    }
}

/// The distribution reported is the first of humble, iron, jazzy, rolling,
/// galactic and foxy, in that order, that the first entry of `AMENT_PREFIX_PATH`
/// contains, and `unknown distro` when it contains none of them.
pub proof fn law_distro_is_first_named(ament: Seq<char>)
    ensures
        ({
            let e = first_entry(ament);
            let d = distro_in(e);
            &&& seq_contains(e, "humble"@) ==> d == "humble"@
            &&& !seq_contains(e, "humble"@) && seq_contains(e, "iron"@) ==> d == "iron"@
            &&& !seq_contains(e, "humble"@) && !seq_contains(e, "iron"@) && seq_contains(
                e,
                "jazzy"@,
            ) ==> d == "jazzy"@
            &&& !seq_contains(e, "humble"@) && !seq_contains(e, "iron"@) && !seq_contains(
                e,
                "jazzy"@,
            ) && seq_contains(e, "rolling"@) ==> d == "rolling"@
            &&& !seq_contains(e, "humble"@) && !seq_contains(e, "iron"@) && !seq_contains(
                e,
                "jazzy"@,
            ) && !seq_contains(e, "rolling"@) && seq_contains(e, "galactic"@) ==> d
                == "galactic"@
            &&& !seq_contains(e, "humble"@) && !seq_contains(e, "iron"@) && !seq_contains(
                e,
                "jazzy"@,
            ) && !seq_contains(e, "rolling"@) && !seq_contains(e, "galactic"@) && seq_contains(
                e,
                "foxy"@,
            ) ==> d == "foxy"@
            &&& !seq_contains(e, "humble"@) && !seq_contains(e, "iron"@) && !seq_contains(
                e,
                "jazzy"@,
            ) && !seq_contains(e, "rolling"@) && !seq_contains(e, "galactic"@) && !seq_contains(
                e,
                "foxy"@,
            ) ==> d == "unknown distro"@
        }),
{
}

/// A topic worth tracing: not ROS 2's own parameter events or log topic.
pub open spec fn traced(t: Seq<char>) -> bool {
    t.len() > 0 && !"/parameter_events"@.is_prefix_of(t) && !"/rosout"@.is_prefix_of(t)
}

/// The topics of `ros2 topic list` output worth tracing: each line trimmed, the
/// empty ones and ROS 2's own topics left out.
pub open spec fn traced_topics_of(lines: Seq<Seq<char>>) -> Seq<Seq<char>>
    decreases lines.len(),
{
    if lines.len() == 0 {
        seq![]
    } else {
        traced_topics_of(lines.drop_last()) + if traced(trim(lines.last())) {
            seq![trim(lines.last())]
        } else {
            seq![]
        }
    }
}

/// The topics to trace from the output of `ros2 topic list`.
pub fn traced_topics(output: &str) -> (r: Vec<String>)
    ensures
        views(r@) == traced_topics_of(lines_of(output@)),
{
    let lines = split_lines(&chars_of(output));
    let ghost lv = views(lines@);
    let mut out: Vec<String> = Vec::new();
    let mut i: usize = 0;
    while i < lines.len()
        invariant
            i <= lines@.len(),
            lv == views(lines@),
            views(out@) == traced_topics_of(lv.take(i as int)),
        decreases lines@.len() - i,
    {
        assert(lv.take(i + 1).drop_last() =~= lv.take(i as int));
        assert(lv.take(i + 1).last() == lines@[i as int]@);
        let t = trim_str(lines[i].as_str());
        if !t.as_str().is_empty() && !str_starts_with(t.as_str(), "/parameter_events")
            && !str_starts_with(t.as_str(), "/rosout") {
            let ghost prev = out@;
            out.push(t);
            assert(views(out@) =~= views(prev).push(t@));
        }
        i = i + 1;
        assert(views(out@) =~= traced_topics_of(lv.take(i as int)));
    }
    assert(lv.take(i as int) =~= lv);
    out
}

/// The rate text of the first line that reports an average rate: what follows
/// `:` up to the next `:`, trimmed.
pub open spec fn rate_text_in(lines: Seq<Seq<char>>) -> Option<Seq<char>>
    decreases lines.len(),
{
    if lines.len() == 0 {
        None
    } else if seq_contains(lines[0], "average rate:"@) && split_on(lines[0], ':').len() > 1 {
        Some(trim(split_on(lines[0], ':')[1]))
    } else {
        rate_text_in(lines.drop_first())
    }
}

/// The average rate text in the output of `ros2 topic hz`, to be read as a number.
pub fn average_rate_text(output: &str) -> (r: Option<String>)
    ensures
        opt_view(r) == rate_text_in(lines_of(output@)),
{
    let lines = split_lines(&chars_of(output));
    let ghost lv = views(lines@);
    let marker = chars_of("average rate:");
    let mut i: usize = 0;
    assert(lv.skip(0) =~= lv);
    while i < lines.len()
        invariant
            i <= lines@.len(),
            lv == views(lines@),
            lv == lines_of(output@),
            marker@ == "average rate:"@,
            rate_text_in(lv) == rate_text_in(lv.skip(i as int)),
        decreases lines@.len() - i,
    {
        assert(lv.skip(i as int)[0] == lines@[i as int]@);
        assert(lv.skip(i as int).drop_first() =~= lv.skip(i + 1));
        let cs = chars_of(lines[i].as_str());
        if crate::text::contains_chars(&cs, &marker) {
            let parts = split_char(&cs, ':');
            if parts.len() > 1 {
                assert(views(parts@)[1] == parts@[1]@);
                return Some(trim_str(parts[1].as_str()));
            }
        }
        i = i + 1;
    }
    None
}

/// The version text of `python3 --version` output: `Python ` removed.
pub open spec fn reported_version(reported: Seq<char>) -> Seq<char> {
    replace_all(reported, "Python "@, ""@)
}

/// How many leading version components are compared: major and minor, or only the
/// major when the version asked for has no minor.
pub open spec fn compared_components(wanted: Seq<char>) -> int {
    if split_on(wanted, '.').len() < 2 {
        split_on(wanted, '.').len() as int
    } else {
        2
    }
}

/// Whether the `python3 --version` text agrees with the version `reach.toml` asks
/// for: the reported version has the same major and minor components (split at
/// `.`) as the asked one; `3.11.4` agrees with `3.11` but not with `3.1`.
pub open spec fn python_matches(reported: Seq<char>, wanted: Seq<char>) -> bool {
    let r = split_on(reported_version(reported), '.');
    let w = split_on(wanted, '.');
    let n = compared_components(wanted);
    n <= r.len() && r.take(n) == w.take(n)
}

/// Whether the system Python agrees with the one `reach.toml` asks for.
pub fn python_version_matches(reported: &str, wanted: &str) -> (r: bool)
    ensures
        r == python_matches(reported@, wanted@),
{
    let sys = replace_str(reported, "Python ", "");
    let rs = split_char(&chars_of(sys.as_str()), '.');
    let ws = split_char(&chars_of(wanted), '.');
    let ghost rv = views(rs@);
    let ghost wv = views(ws@);
    let n: usize = if ws.len() < 2 {
        ws.len()
    } else {
        2
    };
    assert(n == compared_components(wanted@));
    if n > rs.len() {
        return false;
    }
    let mut i: usize = 0;
    while i < n
        invariant
            i <= n <= rs@.len(),
            n <= ws@.len(),
            rv == views(rs@),
            wv == views(ws@),
            rv == split_on(reported_version(reported@), '.'),
            wv == split_on(wanted@, '.'),
            n == compared_components(wanted@),
            forall|j: int| 0 <= j < i ==> rv[j] == wv[j],
        decreases n - i,
    {
        if rs[i] != ws[i] {
            assert(rv.take(n as int)[i as int] != wv.take(n as int)[i as int]);
            return false;
        }
        i = i + 1;
    }
    assert(rv.take(n as int) =~= wv.take(n as int));
    true
}

/// Whether `ros2 node list` output shows the node (as `/name` or `name`).
pub fn node_listed(output: &str, name: &str) -> (r: bool)
    ensures
        r == (seq_contains(output@, "/"@ + name@) || seq_contains(output@, name@)),
{
    let mut slash = String::from_str("/");
    slash.append(name);
    str_contains(output, slash.as_str()) || str_contains(output, name)
}

/// Looking for `/name` adds nothing to looking for `name`: a node is listed exactly
/// when its name occurs in the output.
pub proof fn law_node_listed_is_contains(output: Seq<char>, name: Seq<char>)
    ensures
        (seq_contains(output, "/"@ + name) || seq_contains(output, name)) == seq_contains(
            output,
            name,
        ),
{
    if seq_contains(output, "/"@ + name) {
        let i = choose|i: int| crate::text::occurs_at(output, "/"@ + name, i);
        let one = "/"@.len() as int;
        assert(output.subrange(i + one, i + one + name.len()) =~= ("/"@ + name).subrange(
            one,
            one + name.len(),
        ));
        assert(("/"@ + name).subrange(one, one + name.len()) =~= name);
        assert(crate::text::occurs_at(output, name, i + one));
    }
}

/// The import name of a Python distribution: `-` becomes `_`.
pub fn python_module_name(dep: &str) -> (r: String)
    ensures
        r@ == replace_all(dep@, "-"@, "_"@),
{
    replace_str(dep, "-", "_")
}

/// The `depends_on` targets that are not steps of the same pipeline, with the step
/// that names them, in order.
pub open spec fn outside_dependencies(steps: Seq<LaunchNodeView>, all: Seq<LaunchNodeView>) -> Seq<
    (Seq<char>, Seq<char>),
>
    decreases steps.len(),
{
    if steps.len() == 0 {
        seq![]
    } else {
        let s = steps.last();
        outside_dependencies(steps.drop_last(), all) + match s.depends_on {
            Some(d) => if all.map_values(|n: LaunchNodeView| n.name).contains(d) {
                seq![]
            } else {
                seq![(s.name, d)]
            },
            None => seq![],
        }
    }
}

/// The `depends_on` targets of a pipeline that are not among its own steps, each
/// with the step that names it, which `reach doctor` warns about.
pub fn dependencies_outside_pipeline(p: &LaunchPipeline) -> (r: Vec<(String, String)>)
    ensures
        crate::config::pair_views(r@) == outside_dependencies(p@.nodes, p@.nodes),
{
    let ghost all = p@.nodes;
    let ghost names = all.map_values(|n: LaunchNodeView| n.name);
    let mut out: Vec<(String, String)> = Vec::new();
    let mut i: usize = 0;
    while i < p.nodes.len()
        invariant
            i <= p.nodes@.len(),
            all == p@.nodes,
            names == all.map_values(|n: LaunchNodeView| n.name),
            crate::config::pair_views(out@) == outside_dependencies(all.take(i as int), all),
        decreases p.nodes@.len() - i,
    {
        assert(all.take(i + 1).drop_last() =~= all.take(i as int));
        assert(all.take(i + 1).last() == p.nodes@[i as int]@);
        match &p.nodes[i].depends_on {
            Some(d) => {
                let mut found = false;
                let mut k: usize = 0;
                while k < p.nodes.len()
                    invariant
                        k <= p.nodes@.len(),
                        all == p@.nodes,
                        names == all.map_values(|n: LaunchNodeView| n.name),
                        found == exists|j: int| 0 <= j < k && #[trigger] names[j] == d@,
                    decreases p.nodes@.len() - k,
                {
                    assert(names[k as int] == p.nodes@[k as int].name@);
                    if p.nodes[k].name == *d {
                        found = true;
                    }
                    k = k + 1;
                }
                assert(found == names.contains(d@));
                if !found {
                    let e = (p.nodes[i].name.clone(), d.clone());
                    let ghost prev = out@;
                    out.push(e);
                    assert(crate::config::pair_views(out@) =~= crate::config::pair_views(prev).push(
                        (e.0@, e.1@),
                    ));
                }
            },
            None => {},
        }
        i = i + 1;
        assert(crate::config::pair_views(out@) =~= outside_dependencies(all.take(i as int), all));
    }
    assert(all.take(i as int) =~= all);
    out
}

/// The directory name of a recording started at `timestamp`: `bag_<timestamp>`.
pub fn bag_name(timestamp: u64) -> (r: String)
    ensures
        r@ == "bag_"@ + decimal(timestamp as nat),
{
    let mut s = String::from_str("bag_");
    push_decimal(&mut s, timestamp);
    s
}

/// The file name of a trace session: `trace_<session>.json`.
pub fn trace_file_name(session: u64) -> (r: String)
    ensures
        r@ == "trace_"@ + decimal(session as nat) + ".json"@,
{
    let mut s = String::from_str("trace_");
    push_decimal(&mut s, session);
    s.append(".json");
    s
}

// ─── Showing traces ──────────────────────────────────────────────────────────

/// Whether `reach trace show` lists a topic: always without `--node`, else when
/// the topic's information names the node.
pub fn topic_shown(info: &str, node_filter: &Option<String>) -> (r: bool)
    ensures
        r == match node_filter {
            Some(f) => seq_contains(info@, f@),
            None => true,
        },
{
    match node_filter {
        Some(f) => str_contains(info, f.as_str()),
        None => true,
    }
}

/// `a` sorts before `b`, character by character, a proper prefix first: the order
/// of file names (their UTF-8 bytes order the same way as their characters).
pub open spec fn text_less(a: Seq<char>, b: Seq<char>) -> bool
    decreases a.len(),
{
    if a.len() == 0 {
        b.len() > 0
    } else if b.len() == 0 {
        false
    } else if a[0] != b[0] {
        (a[0] as u32) < (b[0] as u32)
    } else {
        text_less(a.drop_first(), b.drop_first())
    }
}

/// Whether `a` sorts before `b`.
pub fn sorts_before(a: &str, b: &str) -> (r: bool)
    ensures
        r == text_less(a@, b@),
{
    let x = chars_of(a);
    let y = chars_of(b);
    let mut i: usize = 0;
    assert(x@.skip(0) =~= x@);
    assert(y@.skip(0) =~= y@);
    while i < x.len() && i < y.len()
        invariant
            i <= x@.len(),
            i <= y@.len(),
            x@ == a@,
            y@ == b@,
            text_less(x@, y@) == text_less(x@.skip(i as int), y@.skip(i as int)),
        decreases x@.len() - i,
    {
        let ghost xs = x@.skip(i as int);
        let ghost ys = y@.skip(i as int);
        assert(xs[0] == x@[i as int] && ys[0] == y@[i as int]);
        if x[i] != y[i] {
            return (x[i] as u32) < (y[i] as u32);
        }
        assert(xs.drop_first() =~= x@.skip(i + 1));
        assert(ys.drop_first() =~= y@.skip(i + 1));
        i = i + 1;
    }
    assert(x@.skip(i as int).len() == 0 || y@.skip(i as int).len() == 0);
    i >= x.len() && i < y.len()
}

/// A trace file: its name has the extension `json`.
pub open spec fn is_trace_file(name: Seq<char>) -> bool {
    extension_of_name(name) == Some("json"@)
}

/// The index of the latest trace among directory entry names: of the trace files,
/// the one that sorts last (the later of two equal names).
pub open spec fn latest_trace_of(names: Seq<Seq<char>>) -> Option<int>
    decreases names.len(),
{
    if names.len() == 0 {
        None
    } else {
        let k = names.len() - 1;
        let prev = latest_trace_of(names.drop_last());
        if !is_trace_file(names[k]) {
            prev
        } else {
            match prev {
                Some(j) => if text_less(names[k], names[j]) {
                    Some(j)
                } else {
                    Some(k)
                },
                None => Some(k),
            }
        }
    }
}

proof fn lemma_latest_trace_in_range(names: Seq<Seq<char>>)
    ensures
        latest_trace_of(names) matches Some(j) ==> 0 <= j < names.len(),
    decreases names.len(),
{
    if names.len() > 0 {
        lemma_latest_trace_in_range(names.drop_last());
    }
}

/// Which entry `reach trace show` reads: the latest trace file, as in `.reach/traces/`
/// sorted by name.
pub fn latest_trace(names: &Vec<String>) -> (r: Option<usize>)
    ensures
        match r {
            Some(i) => latest_trace_of(views(names@)) == Some(i as int) && i < names.len(),
            None => latest_trace_of(views(names@)) is None,
        },
{
    let ghost nv = views(names@);
    let mut best: Option<usize> = None;
    let mut i: usize = 0;
    while i < names.len()
        invariant
            i <= names@.len(),
            nv == views(names@),
            match best {
                Some(j) => latest_trace_of(nv.take(i as int)) == Some(j as int) && j < i,
                None => latest_trace_of(nv.take(i as int)) is None,
            },
        decreases names@.len() - i,
    {
        let ghost t = nv.take(i + 1);
        assert(t.drop_last() =~= nv.take(i as int));
        assert(t[i as int] == names@[i as int]@);
        let is_json = match extension_of(&names[i]) {
            Some(e) => e == String::from_str("json"),
            None => false,
        };
        proof {
            reveal_strlit("json");
        }
        assert(is_json == is_trace_file(names@[i as int]@));
        if is_json {
            match best {
                Some(j) => {
                    assert(t[j as int] == names@[j as int]@);
                    if !sorts_before(names[i].as_str(), names[j].as_str()) {
                        best = Some(i);
                    }
                },
                None => {
                    best = Some(i);
                },
            }
        }
        i = i + 1;
    }
    assert(nv.take(i as int) =~= nv);
    best
}

// ─── The doctor's summary ─────────────────────────────────────────────────────

/// `s` after a count other than one.
pub fn plural(n: u32) -> (r: &'static str)
    ensures
        r@ == if n == 1 {
            ""@
        } else {
            "s"@
        },
{
    if n == 1 {
        ""
    } else {
        "s"
    }
}

/// A line of the summary `reach doctor` ends with.
#[derive(Debug, PartialEq, Eq, Structural, Clone, Copy)]
pub enum SummaryLine {
    /// Nothing to report.
    AllGood,
    /// This many issues were found.
    Issues(u32),
    /// This many warnings were given.
    Warnings(u32),
}

/// The closing summary: all good when there is neither an issue nor a warning; else a line
/// for the issues, when there are any, then one for the warnings, when there are any.
pub open spec fn doctor_summary(issues: u32, warnings: u32) -> Seq<SummaryLine> {
    if issues == 0 && warnings == 0 {
        seq![SummaryLine::AllGood]
    } else {
        (if issues > 0 {
            seq![SummaryLine::Issues(issues)]
        } else {
            seq![]
        }) + (if warnings > 0 {
            seq![SummaryLine::Warnings(warnings)]
        } else {
            seq![]
        })
    }
}

/// The issues and warnings `reach doctor` has counted.
#[derive(Debug)]
pub struct DoctorTally {
    pub issues: u32,
    pub warnings: u32,
}

impl DoctorTally {
    /// Nothing counted yet.
    pub fn new() -> (r: DoctorTally)
        ensures
            r.issues == 0 && r.warnings == 0,
    {
        DoctorTally { issues: 0, warnings: 0 }
    }

    /// Counts one more issue (the count stops at `u32::MAX`).
    pub fn issue(&mut self)
        ensures
            final(self).issues == if old(self).issues == u32::MAX {
                u32::MAX
            } else {
                (old(self).issues + 1) as u32
            },
            final(self).warnings == old(self).warnings,
    {
        self.issues = self.issues.saturating_add(1);
    }

    /// Counts one more warning (the count stops at `u32::MAX`).
    pub fn warning(&mut self)
        ensures
            final(self).warnings == if old(self).warnings == u32::MAX {
                u32::MAX
            } else {
                (old(self).warnings + 1) as u32
            },
            final(self).issues == old(self).issues,
    {
        self.warnings = self.warnings.saturating_add(1);
    }

    /// The lines of the closing summary, in order.
    pub fn summary_lines(&self) -> (r: Vec<SummaryLine>)
        ensures
            r@ == doctor_summary(self.issues, self.warnings),
    {
        let mut r: Vec<SummaryLine> = Vec::new();
        if self.issues == 0 && self.warnings == 0 {
            r.push(SummaryLine::AllGood);
        } else {
            if self.issues > 0 {
                r.push(SummaryLine::Issues(self.issues));
            }
            if self.warnings > 0 {
                r.push(SummaryLine::Warnings(self.warnings));
            }
        }
        assert(r@ =~= doctor_summary(self.issues, self.warnings));
        r
    }
}

} // verus!
