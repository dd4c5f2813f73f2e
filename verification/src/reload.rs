//! Hot reload: which change restarts which node, the per-script opt-out marker,
//! and the debounce that keeps a burst of events to one restart.

use vstd::prelude::*;

use crate::config::{node_views, NodeConfig};
use crate::path::{
    comps_of, extension_of, extension_of_name, file_name_of, relative_text, relative_text_of,
    FilePath,
};
use crate::run::{find_owning_node, owning_node};
use crate::text::{
    chars_of, contains_chars, lines_of, seq_contains, split_lines, str_ends_with, trim,
    trim_char, trim_char_str, trim_str, views,
};

verus! {

// ─── The opt-out marker ──────────────────────────────────────────────────────

/// A line that turns hot reload off, once trimmed.
pub open spec fn is_marker(line: Seq<char>) -> bool {
    trim(line) == "# hot-reload-off"@ || trim(line) == "#hot-reload-off"@
}

/// A script opts out of hot reload when one of its first five lines is the marker.
pub open spec fn has_marker(content: Seq<char>) -> bool {
    exists|i: int| 0 <= i < 5 && i < lines_of(content).len() && #[trigger] is_marker(lines_of(content)[i])
}

/// Whether a script's text opts it out of hot reload: `# hot-reload-off` (or
/// `#hot-reload-off`) alone on one of its first five lines.
pub fn is_hot_reload_disabled(content: &str) -> (r: bool)
    ensures
        r == has_marker(content@),
{
    let lines = split_lines(&chars_of(content));
    let a = String::from_str("# hot-reload-off");
    let b = String::from_str("#hot-reload-off");
    let mut i: usize = 0;
    while i < lines.len() && i < 5
        invariant
            i <= 5,
            i <= lines@.len(),
            views(lines@) == lines_of(content@),
            a@ == "# hot-reload-off"@,
            b@ == "#hot-reload-off"@,
            forall|j: int| 0 <= j < i ==> !#[trigger] is_marker(lines_of(content@)[j]),
        decreases 5 - i,
    {
        let t = trim_str(lines[i].as_str());
        assert(lines_of(content@)[i as int] == lines@[i as int]@);
        if t == a || t == b {
            assert(is_marker(lines_of(content@)[i as int]));
            return true;
        }
        i = i + 1;
    }
    false
}

// ─── What a change touches ───────────────────────────────────────────────────

/// What a changed file means for the running nodes.
#[derive(Debug, PartialEq, Eq)]
pub enum ChangeTarget {
    /// Nothing to reload.
    Ignored,
    /// Reload this node.
    Node(String),
    /// A shared module changed: reload every node that allows it.
    Shared,
}

pub enum ChangeTargetView {
    Ignored,
    Node(Seq<char>),
    Shared,
}

impl View for ChangeTarget {
    type V = ChangeTargetView;

    open spec fn view(&self) -> ChangeTargetView {
        match self {
            ChangeTarget::Ignored => ChangeTargetView::Ignored,
            ChangeTarget::Node(n) => ChangeTargetView::Node(n@),
            ChangeTarget::Shared => ChangeTargetView::Shared,
        }
    }
}

/// The file's extension.
pub open spec fn extension_of_path(path: Seq<char>) -> Option<Seq<char>> {
    match file_name_of(comps_of(path)) {
        Some(n) => extension_of_name(n),
        None => None,
    }
}

/// An ignore pattern (its surrounding `/` removed) occurs in the relative path.
pub open spec fn ignored_by(rel: Seq<char>, patterns: Seq<Seq<char>>) -> bool {
    exists|k: int| 0 <= k < patterns.len() && #[trigger] seq_contains(rel, trim_char(patterns[k], '/'))
}

/// What a change to `path` means: only Python files count; files matched by an
/// ignore pattern, and bytecode caches, are skipped; a file owned by a node reloads
/// that node; any other Python file is a shared module.
pub open spec fn change_target(
    path: Seq<char>,
    root: Seq<char>,
    patterns: Seq<Seq<char>>,
    nodes: Seq<crate::config::NodeView>,
) -> ChangeTargetView {
    let rel = relative_text(path, root);
    if extension_of_path(path) != Some("py"@) {
        ChangeTargetView::Ignored
    } else if ignored_by(rel, patterns) {
        ChangeTargetView::Ignored
    } else if seq_contains(rel, "__pycache__"@) || ".pyc"@.is_suffix_of(rel) {
        ChangeTargetView::Ignored
    } else {
        match owning_node(path, nodes) {
            Some(n) => ChangeTargetView::Node(n),
            None => ChangeTargetView::Shared,
        }
    }
}

/// What a change to `path` means for the running nodes.
pub fn classify_change(
    path: &FilePath,
    root: &FilePath,
    ignore: &Vec<String>,
    nodes: &Vec<NodeConfig>,
) -> (r: ChangeTarget)
    ensures
        r@ == change_target(path.text@, root.text@, views(ignore@), node_views(nodes@)),
{
    let is_py = match path.file_name() {
        Some(n) => match extension_of(&n) {
            Some(e) => e == String::from_str("py"),
            None => false,
        },
        None => false,
    };
    if !is_py {
        return ChangeTarget::Ignored;
    }
    let rel = relative_text_of(path, root);
    let rc = chars_of(rel.as_str());
    let mut k: usize = 0;
    while k < ignore.len()
        invariant
            k <= ignore@.len(),
            rc@ == rel@,
            rel@ == relative_text(path.text@, root.text@),
            extension_of_path(path.text@) == Some("py"@),
            forall|j: int| 0 <= j < k ==> !#[trigger] seq_contains(rel@, trim_char(views(ignore@)[j], '/')),
        decreases ignore@.len() - k,
    {
        let pat = trim_char_str(ignore[k].as_str(), '/');
        assert(views(ignore@)[k as int] == ignore@[k as int]@);
        if contains_chars(&rc, &chars_of(pat.as_str())) {
            assert(seq_contains(rel@, trim_char(views(ignore@)[k as int], '/')));
            assert(ignored_by(rel@, views(ignore@)));
            return ChangeTarget::Ignored;
        }
        k = k + 1;
    }
    if contains_chars(&rc, &chars_of("__pycache__")) || str_ends_with(rel.as_str(), ".pyc") {
        return ChangeTarget::Ignored;
    }
    match find_owning_node(path, nodes) {
        Some(n) => ChangeTarget::Node(n),
        None => ChangeTarget::Shared,
    }
}

/// A change reloads something only when it is a Python source outside the ignore
/// patterns and the bytecode caches; it then reloads the node owning the file, or
/// every node when no node owns it.
pub proof fn law_only_python_sources_reload(
    path: Seq<char>,
    root: Seq<char>,
    patterns: Seq<Seq<char>>,
    nodes: Seq<crate::config::NodeView>,
)
    ensures
        extension_of_path(path) != Some("py"@) ==> change_target(path, root, patterns, nodes) is Ignored,
        ignored_by(relative_text(path, root), patterns) ==> change_target(path, root, patterns, nodes) is Ignored,
        seq_contains(relative_text(path, root), "__pycache__"@) ==> change_target(path, root, patterns, nodes) is Ignored,
        change_target(path, root, patterns, nodes) matches ChangeTargetView::Node(n) ==> owning_node(path, nodes) == Some(n),
        change_target(path, root, patterns, nodes) is Shared ==> owning_node(path, nodes) is None,
{
}

// ─── Debounce ────────────────────────────────────────────────────────────────

/// How long after a reload another change to the same target is skipped: 400 ms.
pub const DEBOUNCE_NANOS: u64 = 400_000_000;

/// The time of the last reload recorded for a key (the first entry of that key).
pub open spec fn last_reload(entries: Seq<(Seq<char>, u64)>, key: Seq<char>) -> Option<u64>
    decreases entries.len(),
{
    if entries.len() == 0 {
        None
    } else if entries[0].0 == key {
        Some(entries[0].1)
    } else {
        last_reload(entries.drop_first(), key)
    }
}

/// The times of the last reload of each node (and of the shared modules), in
/// nanoseconds on a monotonic clock.
pub struct ReloadClock {
    entries: Vec<(String, u64)>,
}

impl View for ReloadClock {
    type V = Seq<(Seq<char>, u64)>;

    closed spec fn view(&self) -> Seq<(Seq<char>, u64)> {
        self.entries@.map_values(|e: (String, u64)| (e.0@, e.1))
    }
}

/// A reload at `last` is recent at `now` when less than the debounce window has
/// passed (no time has passed when `now` is not after `last`).
pub open spec fn recent(last: u64, now: u64) -> bool {
    if now <= last {
        true
    } else {
        now - last < DEBOUNCE_NANOS
    }
}

proof fn lemma_last_reload_at(es: Seq<(Seq<char>, u64)>, key: Seq<char>, i: int)
    requires
        0 <= i <= es.len(),
        forall|j: int| 0 <= j < i ==> #[trigger] es[j].0 != key,
    ensures
        i < es.len() && es[i].0 == key ==> last_reload(es, key) == Some(es[i].1),
        i == es.len() ==> last_reload(es, key) is None,
    decreases i,
{
    if i > 0 {
        assert forall|j: int| 0 <= j < i - 1 implies #[trigger] es.drop_first()[j].0 != key by {
            assert(es.drop_first()[j] == es[j + 1]);
        }
        lemma_last_reload_at(es.drop_first(), key, i - 1);
    }
}

proof fn lemma_last_reload_update(es: Seq<(Seq<char>, u64)>, i: int, t: u64, key: Seq<char>)
    requires
        0 <= i < es.len(),
        forall|j: int| 0 <= j < i ==> #[trigger] es[j].0 != es[i].0,
    ensures
        last_reload(es.update(i, (es[i].0, t)), key) == if key == es[i].0 {
            Some(t)
        } else {
            last_reload(es, key)
        },
    decreases i,
{
    assert(es.update(i, (es[i].0, t))[0] == if i == 0 {
        (es[i].0, t)
    } else {
        es[0]
    });
    if i == 0 {
        assert(es.update(i, (es[i].0, t)).drop_first() =~= es.drop_first());
    } else {
        assert(es[0].0 != es[i].0);
        assert(es.update(i, (es[i].0, t)).drop_first() =~= es.drop_first().update(
            i - 1,
            (es[i].0, t),
        ));
        assert forall|j: int| 0 <= j < i - 1 implies #[trigger] es.drop_first()[j].0
            != es.drop_first()[i - 1].0 by {
            assert(es.drop_first()[j] == es[j + 1]);
        }
        lemma_last_reload_update(es.drop_first(), i - 1, t, key);
    }
}

proof fn lemma_last_reload_push(es: Seq<(Seq<char>, u64)>, e: (Seq<char>, u64), key: Seq<char>)
    requires
        last_reload(es, e.0) is None,
    ensures
        last_reload(es.push(e), key) == if key == e.0 {
            Some(e.1)
        } else {
            last_reload(es, key)
        },
    decreases es.len(),
{
    if es.len() == 0 {
        assert(es.push(e).drop_first() =~= es);
    } else {
        assert(es.push(e)[0] == es[0]);
        assert(es.push(e).drop_first() =~= es.drop_first().push(e));
        if es[0].0 != key && es[0].0 != e.0 {
            lemma_last_reload_push(es.drop_first(), e, key);
        }
    }
}

impl ReloadClock {
    /// No reloads yet.
    pub fn new() -> (r: ReloadClock)
        ensures
            r@ == Seq::<(Seq<char>, u64)>::empty(),
    {
        let r = ReloadClock { entries: Vec::new() };
        assert(r@ =~= Seq::<(Seq<char>, u64)>::empty());
        r
    }

    fn position(&self, key: &str) -> (r: Option<usize>)
        ensures
            match r {
                Some(i) => i < self@.len() && self@[i as int].0 == key@ && last_reload(self@, key@)
                    == Some(self@[i as int].1) && forall|j: int|
                    0 <= j < i ==> #[trigger] self@[j].0 != key@,
                None => last_reload(self@, key@) is None,
            },
    {
        let target = String::from_str(key);
        let mut i: usize = 0;
        while i < self.entries.len()
            invariant
                i <= self.entries@.len(),
                target@ == key@,
                forall|j: int| 0 <= j < i ==> #[trigger] self@[j].0 != key@,
            decreases self.entries@.len() - i,
        {
            assert(self@[i as int] == (self.entries@[i as int].0@, self.entries@[i as int].1));
            if self.entries[i].0 == target {
                proof {
                    lemma_last_reload_at(self@, key@, i as int);
                }
                return Some(i);
            }
            i = i + 1;
        }
        proof {
            lemma_last_reload_at(self@, key@, i as int);
        }
        None
    }

    /// Whether `key` was reloaded less than the debounce window before `now`.
    pub fn is_recent(&self, key: &str, now: u64) -> (r: bool)
        ensures
            r == match last_reload(self@, key@) {
                Some(t) => recent(t, now),
                None => false,
            },
    {
        match self.position(key) {
            Some(i) => {
                let last = self.entries[i].1;
                now <= last || now - last < DEBOUNCE_NANOS
            },
            None => false,
        }
    }

    /// Records a reload of `key` at `now`.
    pub fn mark(&mut self, key: &str, now: u64)
        ensures
            forall|k: Seq<char>| #[trigger] last_reload(final(self)@, k) == if k == key@ {
                Some(now)
            } else {
                last_reload(old(self)@, k)
            },
    {
        match self.position(key) {
            Some(i) => {
                let ghost before = self@;
                let name = self.entries[i].0.clone();
                self.entries.set(i, (name, now));
                assert(self@ =~= before.update(i as int, (key@, now)));
                assert forall|k: Seq<char>| #[trigger] last_reload(self@, k) == if k == key@ {
                    Some(now)
                } else {
                    last_reload(before, k)
                } by {
                    lemma_last_reload_update(before, i as int, now, k);
                }
            },
            None => {
                let ghost before = self@;
                self.entries.push((String::from_str(key), now));
                assert(self@ =~= before.push((key@, now)));
                assert forall|k: Seq<char>| #[trigger] last_reload(self@, k) == if k == key@ {
                    Some(now)
                } else {
                    last_reload(before, k)
                } by {
                    lemma_last_reload_push(before, (key@, now), k);
                }
            },
        }
    }
}

// ─── Deciding on a change ────────────────────────────────────────────────────

/// The key under which reloads for shared modules are debounced.
pub const SHARED_KEY: &'static str = "__all__";

/// What to do about a change.
#[derive(Debug, PartialEq, Eq)]
pub enum ReloadAction {
    /// Nothing: the change is ignored or falls in the debounce window.
    Skip,
    /// The node's script opts out of hot reload: report it and do nothing.
    OptedOut(String),
    /// Restart this node.
    Reload(String),
    /// Restart every running node whose script does not opt out.
    ReloadAll,
}

pub enum ReloadActionView {
    Skip,
    OptedOut(Seq<char>),
    Reload(Seq<char>),
    ReloadAll,
}

impl View for ReloadAction {
    type V = ReloadActionView;

    open spec fn view(&self) -> ReloadActionView {
        match self {
            ReloadAction::Skip => ReloadActionView::Skip,
            ReloadAction::OptedOut(n) => ReloadActionView::OptedOut(n@),
            ReloadAction::Reload(n) => ReloadActionView::Reload(n@),
            ReloadAction::ReloadAll => ReloadActionView::ReloadAll,
        }
    }
}

/// Whether the last reload recorded under `key` is recent at `now`.
pub open spec fn debounced(entries: Seq<(Seq<char>, u64)>, key: Seq<char>, now: u64) -> bool {
    match last_reload(entries, key) {
        Some(t) => recent(t, now),
        None => false,
    }
}

/// The action for a change to `target` at `now`, given the reloads recorded so
/// far and whether the changed file opts out of hot reload: a change within the
/// debounce window of the last reload of the same node (or of the shared modules)
/// is skipped; a node whose changed script opts out is not restarted; otherwise
/// the node, or every node for a shared module, is restarted.
pub open spec fn reload_action(
    entries: Seq<(Seq<char>, u64)>,
    target: ChangeTargetView,
    now: u64,
    opted_out: bool,
) -> ReloadActionView {
    match target {
        ChangeTargetView::Ignored => ReloadActionView::Skip,
        ChangeTargetView::Node(n) => if debounced(entries, n, now) {
            ReloadActionView::Skip
        } else if opted_out {
            ReloadActionView::OptedOut(n)
        } else {
            ReloadActionView::Reload(n)
        },
        ChangeTargetView::Shared => if debounced(entries, SHARED_KEY@, now) {
            ReloadActionView::Skip
        } else {
            ReloadActionView::ReloadAll
        },
    }
}

impl ReloadClock {
    /// Decides what a change to `target` at `now` leads to, and records the reload
    /// (under the node's name, or under the shared key) when there is one.
    pub fn on_change(&mut self, target: &ChangeTarget, now: u64, opted_out: bool) -> (r: ReloadAction)
        ensures
            r@ == reload_action(old(self)@, target@, now, opted_out),
            forall|k: Seq<char>| #[trigger] last_reload(final(self)@, k) == match r@ {
                ReloadActionView::Reload(n) => if k == n {
                    Some(now)
                } else {
                    last_reload(old(self)@, k)
                },
                ReloadActionView::ReloadAll => if k == SHARED_KEY@ {
                    Some(now)
                } else {
                    last_reload(old(self)@, k)
                },
                _ => last_reload(old(self)@, k),
            },
    {
        match target {
            ChangeTarget::Ignored => ReloadAction::Skip,
            ChangeTarget::Node(n) => {
                if self.is_recent(n.as_str(), now) {
                    ReloadAction::Skip
                } else if opted_out {
                    ReloadAction::OptedOut(n.clone())
                } else {
                    self.mark(n.as_str(), now);
                    ReloadAction::Reload(n.clone())
                }
            },
            ChangeTarget::Shared => {
                if self.is_recent(SHARED_KEY, now) {
                    ReloadAction::Skip
                } else {
                    self.mark(SHARED_KEY, now);
                    ReloadAction::ReloadAll
                }
            },
        }
    }
}

/// After a reload of a key is recorded, further changes to that key are skipped
/// until the debounce window has passed, and the record of every other key is
/// left as it was.
pub proof fn law_debounce_after_mark(
    before: Seq<(Seq<char>, u64)>,
    after: Seq<(Seq<char>, u64)>,
    key: Seq<char>,
    t: u64,
    other: Seq<char>,
    later: u64,
)
    requires
        forall|k: Seq<char>| #[trigger] last_reload(after, k) == if k == key {
            Some(t)
        } else {
            last_reload(before, k)
        },
    ensures
        (t <= later < t + DEBOUNCE_NANOS) ==> recent(last_reload(after, key)->0, later),
        later >= t + DEBOUNCE_NANOS ==> !recent(last_reload(after, key)->0, later),
        other != key ==> last_reload(after, other) == last_reload(before, other),
{
    assert(last_reload(after, key) == Some(t));
    assert(other != key ==> last_reload(after, other) == last_reload(before, other));
}


/// A script whose first line is `# hot-reload-off` is not hot reloaded, whatever
/// follows.
pub proof fn law_marker_on_first_line(rest: Seq<char>)
    ensures
        has_marker("# hot-reload-off\n"@ + rest),
{
    let m = "# hot-reload-off"@;
    reveal_strlit("# hot-reload-off\n");
    reveal_strlit("# hot-reload-off");
    let content = "# hot-reload-off\n"@ + rest;
    assert(m.len() == 16);
    assert forall|j: int| 0 <= j < 16 implies #[trigger] content[j] != '\n' by {
        assert(content[j] == m[j]);
    }
    crate::text::lemma_index_of_at(content, '\n', 16);
    assert(content.take(16) =~= m);
    assert(lines_of(content)[0] == m);
    assert(!crate::text::is_ws(m[0]));
    assert(crate::text::trim_start(m) == m);
    assert(!crate::text::is_ws(m.last()));
    assert(crate::text::trim_end(m) == m);
    assert(is_marker(lines_of(content)[0]));
}

} // verus!
