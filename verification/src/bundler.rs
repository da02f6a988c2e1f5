//! The driver of a build: the graph of the modules, and how it grows as
//! work is done.
//!
//! The driver hands out work and takes what was done. A module that was
//! asked for is in the graph as being read, which keeps it from being asked
//! for twice. The build is over when no work is pending.

use vstd::prelude::*;
use crate::modules::{
    named_once,
    Dep,
    DepView,
    Module,
    ModuleInfo,
    ModuleState,
    ModuleStateView,
    ModuleView,
    Source,
};
use crate::path_ext::{parent, path_eq, path_parent, same_path, strip_prefix};
use crate::resolver::{Resolved, ResolvedView};
use crate::text::str_eq;
use crate::worker::{Work, WorkDone};
use crate::writer::{under, Bundled, BundledView};

verus! {

/// A module of the graph, by its path, with the specifiers that were found
/// in it when it was read.
#[derive(Debug)]
pub struct Node {
    pub path: String,
    pub state: ModuleState,
    pub found: Vec<String>,
}

pub struct NodeView {
    pub path: Seq<char>,
    pub state: ModuleStateView,
    pub found: Seq<Seq<char>>,
}

impl View for Node {
    type V = NodeView;

    open spec fn view(&self) -> NodeView {
        NodeView { path: self.path@, state: self.state@, found: self.found.deep_view() }
    }
}

impl DeepView for Node {
    type V = NodeView;

    open spec fn deep_view(&self) -> NodeView {
        self@
    }
}

/// The index of the module of `path` among the nodes from `i` on.
pub open spec fn node_from(nodes: Seq<NodeView>, path: Seq<char>, i: nat) -> Option<int>
    decreases nodes.len() - i,
{
    if i >= nodes.len() {
        None
    } else if same_path(nodes[i as int].path, path) {
        Some(i as int)
    } else {
        node_from(nodes, path, i + 1)
    }
}

/// Whether the module of `path` is in the graph.
pub open spec fn has_node(nodes: Seq<NodeView>, path: Seq<char>) -> bool {
    node_from(nodes, path, 0).is_some()
}

/// How many of the first `k` modules are being read.
pub open spec fn loading(nodes: Seq<NodeView>, k: nat) -> nat
    decreases k,
{
    if k == 0 {
        0
    } else {
        loading(nodes, (k - 1) as nat) + if nodes[k - 1].state is Loading {
            1nat
        } else {
            0nat
        }
    }
}

/// The index of the dependency `name` among those from `i` on.
pub open spec fn dep_from(deps: Seq<DepView>, name: Seq<char>, i: nat) -> Option<int>
    decreases deps.len() - i,
{
    if i >= deps.len() {
        None
    } else if deps[i as int].name == name {
        Some(i as int)
    } else {
        dep_from(deps, name, i + 1)
    }
}

/// The dependencies with `name` resolved to `resolved`: in the place of
/// what it resolved to before, or at the end.
pub open spec fn with_dep(deps: Seq<DepView>, name: Seq<char>, resolved: ResolvedView) -> Seq<
    DepView,
> {
    match dep_from(deps, name, 0) {
        Some(i) => deps.update(i, DepView { name, resolved }),
        None => deps.push(DepView { name, resolved }),
    }
}

/// The dependencies of a module that was read; none of one that is being
/// read.
pub open spec fn deps_of(n: NodeView) -> Seq<DepView> {
    match n.state {
        ModuleStateView::Loaded(m) => m.deps,
        ModuleStateView::Loading => Seq::empty(),
    }
}

/// Whether what a dependency resolved to is in the graph, if it is a file.
pub open spec fn dep_in(nodes: Seq<NodeView>, d: DepView) -> bool {
    match d.resolved {
        ResolvedView::Normal(q) => has_node(nodes, q),
        _ => true,
    }
}

/// Every file that a module of the graph depends on is in the graph.
pub open spec fn closed(nodes: Seq<NodeView>) -> bool {
    forall|i: int, j: int|
        0 <= i < nodes.len() && 0 <= j < deps_of(nodes[i]).len() ==> dep_in(
            nodes,
            #[trigger] deps_of(nodes[i])[j],
        )
}

/// No two modules of the graph have the same path.
pub open spec fn distinct(nodes: Seq<NodeView>) -> bool {
    forall|i: int, j: int|
        0 <= i < j < nodes.len() ==> !same_path((#[trigger] nodes[i]).path, (#[trigger] nodes[j]).path)
}

/// Whether a dependency of a module of the graph resolved to the file
/// `path`.
pub open spec fn wanted(nodes: Seq<NodeView>, path: Seq<char>) -> bool {
    exists|a: int, b: int|
        0 <= a < nodes.len() && 0 <= b < deps_of(nodes[a]).len() && (#[trigger] deps_of(
            nodes[a],
        )[b]).resolved == ResolvedView::Normal(path)
}

/// Every module of the graph but the first is there because a dependency
/// of a module of the graph resolved to it.
pub open spec fn rooted(nodes: Seq<NodeView>) -> bool {
    forall|k: int| 0 < k < nodes.len() ==> wanted(nodes, (#[trigger] nodes[k]).path)
}

/// No module of the graph has two dependencies of one name.
pub open spec fn plain(nodes: Seq<NodeView>) -> bool {
    forall|i: int| 0 <= i < nodes.len() ==> named_once(deps_of(#[trigger] nodes[i]))
}

/// The names of the dependencies.
pub open spec fn names_of(deps: Seq<DepView>) -> Seq<Seq<char>> {
    Seq::new(deps.len(), |i: int| deps[i].name)
}

/// How many of the specifiers that were found in a module did not resolve
/// yet.
pub open spec fn open_of(n: NodeView) -> int {
    n.found.len() - deps_of(n).len()
}

/// How many of the specifiers that were found in the first `k` modules did
/// not resolve yet.
pub open spec fn waiting(nodes: Seq<NodeView>, k: nat) -> int
    decreases k,
{
    if k == 0 {
        0
    } else {
        waiting(nodes, (k - 1) as nat) + open_of(nodes[k - 1])
    }
}

/// Every dependency of a module is for a specifier that was found in it,
/// and none was found yet in a module that is being read.
pub open spec fn traced(nodes: Seq<NodeView>) -> bool {
    &&& forall|i: int, b: int|
        0 <= i < nodes.len() && 0 <= b < deps_of(nodes[i]).len() ==> nodes[i].found.contains(
            (#[trigger] deps_of(nodes[i])[b]).name,
        )
    &&& forall|i: int|
        0 <= i < nodes.len() && (#[trigger] nodes[i]).state is Loading ==> nodes[i].found.len()
            == 0
}

/// Whether the module of `context` waits for `name`: the specifier was
/// found in it and did not resolve yet.
pub open spec fn awaited(nodes: Seq<NodeView>, context: Seq<char>, name: Seq<char>) -> bool {
    match node_from(nodes, context, 0) {
        Some(i) => nodes[i].found.contains(name) && dep_from(deps_of(nodes[i]), name, 0).is_none(),
        None => false,
    }
}

/// The work that reading a module leaves: one resolution for each of the
/// first `k` specifiers.
pub open spec fn fan_out(module: Seq<char>, deps: Seq<Seq<char>>, k: nat) -> Seq<WorkView>
    decreases k,
{
    if k == 0 {
        Seq::empty()
    } else {
        fan_out(module, deps, (k - 1) as nat).push(
            WorkView::Resolve { context: module, name: deps[k - 1] },
        )
    }
}

/// A piece of work, as a value.
pub enum WorkView {
    Resolve { context: Seq<char>, name: Seq<char> },
    Include { module: Seq<char> },
}

impl View for Work {
    type V = WorkView;

    open spec fn view(&self) -> WorkView {
        match self {
            Work::Resolve { context, name } => WorkView::Resolve { context: context@, name: name@ },
            Work::Include { module } => WorkView::Include { module: module@ },
        }
    }
}

impl DeepView for Work {
    type V = WorkView;

    open spec fn deep_view(&self) -> WorkView {
        self@
    }
}

/// The state of a build: the modules, and how many pieces of work are out.
#[derive(Debug)]
pub struct Bundler {
    pub modules: Vec<Node>,
    pub pending: usize,
}

impl Bundler {
    /// The modules as values.
    pub open spec fn nodes(&self) -> Seq<NodeView> {
        self.modules.deep_view()
    }

    /// The path of the entry point: that of the first module.
    pub open spec fn entry(&self) -> Seq<char>
        recommends
            self.nodes().len() > 0,
    {
        self.nodes()[0].path
    }

    /// The graph is that of what the entry point needs, as far as it is
    /// known: the first module is the entry point; no two modules have the
    /// same path, and no module two dependencies of one name; every
    /// dependency is for a specifier that was found in its module; every
    /// other module is a file that a dependency of a module resolved to,
    /// and every such file is in the graph. The work that is out is to
    /// read each module that is being read, and to resolve each specifier
    /// that was found and did not resolve yet.
    pub open spec fn wf(&self) -> bool {
        &&& self.nodes().len() > 0
        &&& distinct(self.nodes())
        &&& plain(self.nodes())
        &&& traced(self.nodes())
        &&& rooted(self.nodes())
        &&& closed(self.nodes())
        &&& self.pending == loading(self.nodes(), self.nodes().len()) + waiting(
            self.nodes(),
            self.nodes().len(),
        )
    }
}

/// Whether `name` is among the texts.
fn holds(texts: &Vec<String>, name: &str) -> (r: bool)
    ensures
        r == texts.deep_view().contains(name@),
{
    let ghost ts = texts.deep_view();
    let mut i: usize = 0;
    while i < texts.len()
        invariant
            i <= texts@.len(),
            ts == texts.deep_view(),
            ts.len() == texts@.len(),
            forall|k: int| 0 <= k < i ==> ts[k] != name@,
        decreases texts@.len() - i,
    {
        assert(ts[i as int] == texts@[i as int]@);
        if str_eq(texts[i].as_str(), name) {
            return true;
        }
        i += 1;
    }
    false
}

/// Whether no text occurs twice.
fn all_once(texts: &Vec<String>) -> (r: bool)
    ensures
        r == texts.deep_view().no_duplicates(),
{
    let ghost ts = texts.deep_view();
    let mut i: usize = 0;
    while i < texts.len()
        invariant
            i <= texts@.len(),
            ts == texts.deep_view(),
            ts.len() == texts@.len(),
            forall|a: int, b: int| 0 <= a < i && 0 <= b < i && a != b ==> ts[a] != ts[b],
        decreases texts@.len() - i,
    {
        let mut j: usize = 0;
        while j < i
            invariant
                j <= i < texts@.len(),
                ts == texts.deep_view(),
                ts.len() == texts@.len(),
                forall|b: int| 0 <= b < j ==> ts[b] != ts[i as int],
            decreases i - j,
        {
            assert(ts[i as int] == texts@[i as int]@);
            assert(ts[j as int] == texts@[j as int]@);
            if str_eq(texts[j].as_str(), texts[i].as_str()) {
                assert(ts[j as int] == ts[i as int]);
                return false;
            }
            j += 1;
        }
        i += 1;
    }
    true
}

/// Whether a module has a dependency of the name `name`.
fn has_dep(module: &Module, name: &str) -> (r: bool)
    ensures
        r == dep_from(module@.deps, name@, 0).is_some(),
{
    let ghost deps = module.deps.deep_view();
    let mut i: usize = 0;
    while i < module.deps.len()
        invariant
            i <= module.deps@.len(),
            deps == module.deps.deep_view(),
            deps.len() == module.deps@.len(),
            dep_from(deps, name@, i as nat) == dep_from(deps, name@, 0),
        decreases module.deps@.len() - i,
    {
        assert(deps[i as int] == module.deps@[i as int]@);
        if str_eq(module.deps[i].name.as_str(), name) {
            return true;
        }
        i += 1;
    }
    false
}

fn add_dep(module: &mut Module, name: String, resolved: Resolved)
    ensures
        final(module)@.source == old(module)@.source,
        final(module)@.deps == with_dep(old(module)@.deps, name@, resolved@),
{
    let ghost deps = module.deps.deep_view();
    let mut i: usize = 0;
    while i < module.deps.len()
        invariant
            i <= module.deps@.len(),
            deps == module.deps.deep_view(),
            deps.len() == module.deps@.len(),
            *module == *old(module),
            dep_from(deps, name@, i as nat) == dep_from(deps, name@, 0),
        decreases module.deps@.len() - i,
    {
        assert(deps[i as int] == module.deps@[i as int]@);
        if str_eq(module.deps[i].name.as_str(), name.as_str()) {
            module.deps.set(i, Dep { name, resolved });
            assert(module.deps.deep_view() =~= deps.update(
                i as int,
                DepView { name: name@, resolved: resolved@ },
            ));
            return ;
        }
        i += 1;
    }
    module.deps.push(Dep { name, resolved });
    assert(module.deps.deep_view() =~= deps.push(DepView { name: name@, resolved: resolved@ }));
}

/// A module that was read, with `name` resolved to `resolved`.
pub open spec fn node_with_dep(n: NodeView, name: Seq<char>, resolved: ResolvedView) -> NodeView {
    match n.state {
        ModuleStateView::Loaded(m) => NodeView {
            path: n.path,
            state: ModuleStateView::Loaded(
                ModuleView { source: m.source, deps: with_dep(m.deps, name, resolved) },
            ),
            found: n.found,
        },
        ModuleStateView::Loading => n,
    }
}

/// The graph after `name` in the module `context` resolved to `resolved`:
/// the module has it among its dependencies, and a file that it resolved
/// to is in the graph, as being read if it was not there.
pub open spec fn after_resolve(
    nodes: Seq<NodeView>,
    context: Seq<char>,
    name: Seq<char>,
    resolved: ResolvedView,
) -> Seq<NodeView> {
    let i = node_from(nodes, context, 0).unwrap();
    let with = nodes.update(i, node_with_dep(nodes[i], name, resolved));
    match resolved {
        ResolvedView::Normal(p) => if has_node(nodes, p) {
            with
        } else {
            with.push(NodeView { path: p, state: ModuleStateView::Loading, found: Seq::empty() })
        },
        _ => with,
    }
}

/// The work that a resolution leaves: reading the file that it resolved
/// to, if that is new to the graph.
pub open spec fn work_after_resolve(nodes: Seq<NodeView>, resolved: ResolvedView) -> Seq<WorkView> {
    match resolved {
        ResolvedView::Normal(p) => if has_node(nodes, p) {
            Seq::empty()
        } else {
            seq![WorkView::Include { module: p }]
        },
        _ => Seq::empty(),
    }
}

/// The graph after the module `module` was read: it has its text and the
/// specifiers that were found in it, and no dependencies yet.
pub open spec fn after_include(
    nodes: Seq<NodeView>,
    module: Seq<char>,
    info: crate::modules::ModuleInfoView,
) -> Seq<NodeView> {
    let i = node_from(nodes, module, 0).unwrap();
    nodes.update(
        i,
        NodeView {
            path: nodes[i].path,
            state: ModuleStateView::Loaded(ModuleView { source: info.source, deps: Seq::empty() }),
            found: info.deps,
        },
    )
}

/// The state of the module of `path`, if it is in the graph.
pub open spec fn state_of(nodes: Seq<NodeView>, path: Seq<char>) -> Option<ModuleStateView> {
    match node_from(nodes, path, 0) {
        Some(i) => Some(nodes[i].state),
        None => None,
    }
}

/// The index that a dependency is found at is among the indices, and the
/// dependency there has the name.
pub proof fn lemma_dep_from(deps: Seq<DepView>, name: Seq<char>, i: nat)
    ensures
        dep_from(deps, name, i) matches Some(j) ==> i <= j < deps.len() && deps[j].name == name,
    decreases deps.len() - i,
{
    if i < deps.len() && deps[i as int].name != name {
        lemma_dep_from(deps, name, i + 1);
    }
}

/// Where a module is found, it has the path; where none is found, no
/// module from `i` on has it.
pub proof fn lemma_node_from(nodes: Seq<NodeView>, path: Seq<char>, i: nat)
    ensures
        match node_from(nodes, path, i) {
            Some(j) => i <= j < nodes.len() && same_path(nodes[j].path, path),
            None => forall|k: int| i <= k < nodes.len() ==> !same_path((#[trigger] nodes[k]).path, path),
        },
    decreases nodes.len() - i,
{
    if i < nodes.len() && !same_path(nodes[i as int].path, path) {
        lemma_node_from(nodes, path, i + 1);
    }
}

/// A file that was wanted stays wanted where the modules keep their
/// dependencies, and may get more.
pub proof fn lemma_wanted_stays(a: Seq<NodeView>, b: Seq<NodeView>, path: Seq<char>)
    requires
        a.len() <= b.len(),
        forall|k: int, e: int|
            0 <= k < a.len() && 0 <= e < deps_of(a[k]).len() ==> e < deps_of(b[k]).len()
                && deps_of(b[k])[e] == #[trigger] deps_of(a[k])[e],
        wanted(a, path),
    ensures
        wanted(b, path),
{
    let (k, e) = choose|k: int, e: int|
        0 <= k < a.len() && 0 <= e < deps_of(a[k]).len() && (#[trigger] deps_of(a[k])[e]).resolved
            == ResolvedView::Normal(path);
    assert(deps_of(b[k])[e] == deps_of(a[k])[e]);
}

/// Where no dependency is found, none from `i` on has the name.
pub proof fn lemma_dep_absent(deps: Seq<DepView>, name: Seq<char>, i: nat)
    requires
        dep_from(deps, name, i).is_none(),
    ensures
        forall|k: int| i <= k < deps.len() ==> (#[trigger] deps[k]).name != name,
    decreases deps.len() - i,
{
    if i < deps.len() {
        lemma_dep_absent(deps, name, i + 1);
    }
}

/// A resolution keeps the shape of the graph: the first module, that no
/// two modules have the same path and no module two dependencies of one
/// name, and that every other module is wanted.
pub proof fn lemma_shape_after_resolve(
    nodes: Seq<NodeView>,
    context: Seq<char>,
    name: Seq<char>,
    resolved: ResolvedView,
)
    requires
        nodes.len() > 0,
        distinct(nodes),
        plain(nodes),
        rooted(nodes),
        traced(nodes),
        state_of(nodes, context) matches Some(s) && s is Loaded,
        awaited(nodes, context, name),
    ensures
        after_resolve(nodes, context, name, resolved)[0].path == nodes[0].path,
        distinct(after_resolve(nodes, context, name, resolved)),
        plain(after_resolve(nodes, context, name, resolved)),
        traced(after_resolve(nodes, context, name, resolved)),
        loading(
            after_resolve(nodes, context, name, resolved),
            after_resolve(nodes, context, name, resolved).len(),
        ) + waiting(
            after_resolve(nodes, context, name, resolved),
            after_resolve(nodes, context, name, resolved).len(),
        ) == loading(nodes, nodes.len()) + waiting(nodes, nodes.len()) - 1 + work_after_resolve(
            nodes,
            resolved,
        ).len(),
        rooted(after_resolve(nodes, context, name, resolved)),
{
    let after = after_resolve(nodes, context, name, resolved);
    lemma_node_from(nodes, context, 0);
    let i = node_from(nodes, context, 0).unwrap();
    let with = nodes.update(i, node_with_dep(nodes[i], name, resolved));
    let old_deps = deps_of(nodes[i]);
    assert(deps_of(with[i]) == old_deps.push(DepView { name, resolved }));
    lemma_dep_absent(old_deps, name, 0);
    assert(named_once(old_deps));
    assert(named_once(deps_of(with[i])));
    assert forall|k: int| 0 <= k < after.len() implies named_once(deps_of(#[trigger] after[k])) by {
        if k == i {
            assert(after[k] == with[i]);
        } else if k < nodes.len() {
            assert(after[k] == nodes[k]);
        }
    }
    assert forall|k: int, b: int| 0 <= k < after.len() && 0 <= b < deps_of(after[k]).len() implies after[k].found.contains(
        (#[trigger] deps_of(after[k])[b]).name,
    ) by {
        if k == i {
            assert(after[k] == with[i]);
            if b < old_deps.len() {
                assert(deps_of(after[k])[b] == deps_of(nodes[k])[b]);
            }
        } else if k < nodes.len() {
            assert(after[k] == nodes[k]);
        }
    }
    assert forall|k: int| 0 <= k < after.len() && (#[trigger] after[k]).state is Loading implies after[k].found.len()
        == 0 by {
        if k == i {
            assert(after[k] == with[i]);
        } else if k < nodes.len() {
            assert(after[k] == nodes[k]);
        }
    }
    lemma_loading_update(nodes, i, with[i], nodes.len());
    lemma_waiting_update(nodes, i, with[i], nodes.len());
    if after.len() > nodes.len() {
        lemma_loading_push(with, after[nodes.len() as int], with.len());
        lemma_waiting_push(with, after[nodes.len() as int], with.len());
    }
    assert forall|k: int, e: int| 0 <= k < nodes.len() && 0 <= e < deps_of(nodes[k]).len() implies e
        < deps_of(after[k]).len() && deps_of(after[k])[e] == #[trigger] deps_of(nodes[k])[e] by {
        if k != i {
            assert(after[k] == nodes[k]);
        } else {
            assert(after[k] == with[i]);
        }
    }
    assert forall|k: int| 0 <= k < nodes.len() implies (#[trigger] after[k]).path
        == nodes[k].path by {
        if k == i {
            assert(after[k] == with[i]);
        } else {
            assert(after[k] == nodes[k]);
        }
    }
    if after.len() > nodes.len() {
        let p = after[nodes.len() as int].path;
        assert(resolved == ResolvedView::Normal(p));
        lemma_node_from(nodes, p, 0);
        assert(after[i] == with[i]);
        assert(deps_of(after[i])[old_deps.len() as int].resolved == ResolvedView::Normal(p));
        assert(wanted(after, p));
    }
    assert forall|a: int, b: int| 0 <= a < b < after.len() implies !same_path(
        (#[trigger] after[a]).path,
        (#[trigger] after[b]).path,
    ) by {
        if b < nodes.len() {
            assert(!same_path(nodes[a].path, nodes[b].path));
        } else {
            assert(!same_path(nodes[a].path, after[b].path));
        }
    }
    assert forall|k: int| 0 < k < after.len() implies wanted(after, (#[trigger] after[k]).path) by {
        if k < nodes.len() {
            assert(wanted(nodes, nodes[k].path));
            lemma_wanted_stays(nodes, after, nodes[k].path);
        }
    }
}

/// Reading a module keeps the shape of the graph: the first module, that
/// no two modules have the same path and no module two dependencies of one
/// name, and that every other module is wanted.
pub proof fn lemma_shape_after_include(
    nodes: Seq<NodeView>,
    module: Seq<char>,
    info: crate::modules::ModuleInfoView,
)
    requires
        nodes.len() > 0,
        distinct(nodes),
        plain(nodes),
        rooted(nodes),
        traced(nodes),
        state_of(nodes, module) matches Some(s) && s is Loading,
    ensures
        after_include(nodes, module, info)[0].path == nodes[0].path,
        distinct(after_include(nodes, module, info)),
        plain(after_include(nodes, module, info)),
        traced(after_include(nodes, module, info)),
        loading(after_include(nodes, module, info), nodes.len()) + waiting(
            after_include(nodes, module, info),
            nodes.len(),
        ) == loading(nodes, nodes.len()) + waiting(nodes, nodes.len()) - 1 + info.deps.len(),
        rooted(after_include(nodes, module, info)),
{
    let after = after_include(nodes, module, info);
    lemma_node_from(nodes, module, 0);
    let i = node_from(nodes, module, 0).unwrap();
    assert forall|k: int| 0 <= k < after.len() implies named_once(deps_of(#[trigger] after[k])) by {
        if k != i {
            assert(after[k] == nodes[k]);
        }
    }
    assert forall|k: int, b: int| 0 <= k < after.len() && 0 <= b < deps_of(after[k]).len() implies after[k].found.contains(
        (#[trigger] deps_of(after[k])[b]).name,
    ) by {
        if k != i {
            assert(after[k] == nodes[k]);
        }
    }
    assert forall|k: int| 0 <= k < after.len() && (#[trigger] after[k]).state is Loading implies after[k].found.len()
        == 0 by {
        if k != i {
            assert(after[k] == nodes[k]);
        }
    }
    lemma_loading_update(nodes, i, after[i], nodes.len());
    lemma_waiting_update(nodes, i, after[i], nodes.len());
    assert forall|k: int, e: int| 0 <= k < nodes.len() && 0 <= e < deps_of(nodes[k]).len() implies e
        < deps_of(after[k]).len() && deps_of(after[k])[e] == #[trigger] deps_of(nodes[k])[e] by {
        if k != i {
            assert(after[k] == nodes[k]);
        }
    }
    assert forall|k: int| 0 <= k < nodes.len() implies (#[trigger] after[k]).path
        == nodes[k].path by {
        if k != i {
            assert(after[k] == nodes[k]);
        }
    }
    assert forall|a: int, b: int| 0 <= a < b < after.len() implies !same_path(
        (#[trigger] after[a]).path,
        (#[trigger] after[b]).path,
    ) by {
        assert(!same_path(nodes[a].path, nodes[b].path));
    }
    assert forall|k: int| 0 < k < after.len() implies wanted(after, (#[trigger] after[k]).path) by {
        assert(wanted(nodes, nodes[k].path));
        lemma_wanted_stays(nodes, after, nodes[k].path);
    }
}

/// A module of the graph stays in it where the paths of the graph stay.
pub proof fn lemma_node_stays(a: Seq<NodeView>, b: Seq<NodeView>, q: Seq<char>, i: nat)
    requires
        a.len() <= b.len(),
        forall|k: int| 0 <= k < a.len() ==> a[k].path == b[k].path,
        node_from(a, q, i).is_some(),
    ensures
        node_from(b, q, i) == node_from(a, q, i),
    decreases a.len() - i,
{
    if i < a.len() && !same_path(a[i as int].path, q) {
        lemma_node_stays(a, b, q, i + 1);
    }
}

/// A module that is not in the graph is at its end once it was added.
pub proof fn lemma_node_added(a: Seq<NodeView>, n: NodeView, i: nat)
    requires
        i <= a.len(),
        node_from(a, n.path, i).is_none(),
    ensures
        node_from(a.push(n), n.path, i) == Some(a.len() as int),
    decreases a.len() - i,
{
    if i < a.len() {
        assert(a.push(n)[i as int] == a[i as int]);
        lemma_node_added(a, n, i + 1);
    } else {
        assert(a.push(n)[i as int] == n);
    }
}

/// The count of the modules that are being read, where the graph changes
/// at one index alone.
pub proof fn lemma_loading_update(a: Seq<NodeView>, i: int, n: NodeView, k: nat)
    requires
        0 <= i < a.len(),
        k <= a.len(),
    ensures
        loading(a.update(i, n), k) == loading(a, k) + (if i < k && n.state is Loading {
            1int
        } else {
            0int
        }) - (if i < k && a[i].state is Loading {
            1int
        } else {
            0int
        }),
    decreases k,
{
    if k > 0 {
        lemma_loading_update(a, i, n, (k - 1) as nat);
    }
}

/// The count of the modules that are being read, where one is added.
pub proof fn lemma_loading_push(a: Seq<NodeView>, n: NodeView, k: nat)
    requires
        k <= a.len(),
    ensures
        loading(a.push(n), k) == loading(a, k),
    decreases k,
{
    if k > 0 {
        lemma_loading_push(a, n, (k - 1) as nat);
        assert(a.push(n)[k - 1] == a[k - 1]);
    }
}

/// The count of the specifiers that did not resolve yet, where the graph
/// changes at one index alone.
pub proof fn lemma_waiting_update(a: Seq<NodeView>, i: int, n: NodeView, k: nat)
    requires
        0 <= i < a.len(),
        k <= a.len(),
    ensures
        waiting(a.update(i, n), k) == waiting(a, k) + (if i < k {
            open_of(n) - open_of(a[i])
        } else {
            0int
        }),
    decreases k,
{
    if k > 0 {
        lemma_waiting_update(a, i, n, (k - 1) as nat);
    }
}

/// The count of the specifiers that did not resolve yet, where a module is
/// added.
pub proof fn lemma_waiting_push(a: Seq<NodeView>, n: NodeView, k: nat)
    requires
        k <= a.len(),
    ensures
        waiting(a.push(n), k) == waiting(a, k),
    decreases k,
{
    if k > 0 {
        lemma_waiting_push(a, n, (k - 1) as nat);
        assert(a.push(n)[k - 1] == a[k - 1]);
    }
}

/// Texts of which none occurs twice, and which all are among others, are
/// no more than the others.
pub proof fn lemma_fewer(a: Seq<Seq<char>>, b: Seq<Seq<char>>)
    requires
        a.no_duplicates(),
        forall|i: int| 0 <= i < a.len() ==> b.contains(#[trigger] a[i]),
    ensures
        a.len() <= b.len(),
    decreases b.len(),
{
    if b.len() == 0 {
        if a.len() > 0 {
            assert(b.contains(a[0]));
        }
    } else {
        let x = b.last();
        let rest = b.drop_last();
        if a.contains(x) {
            let i = choose|i: int| 0 <= i < a.len() && a[i] == x;
            let less = a.subrange(0, i) + a.subrange(i + 1, a.len() as int);
            assert forall|k: int| 0 <= k < less.len() implies rest.contains(#[trigger] less[k]) by {
                let k0 = if k < i {
                    k
                } else {
                    k + 1
                };
                assert(less[k] == a[k0]);
                assert(a[k0] != a[i]);
                assert(b.contains(a[k0]));
                let e = choose|e: int| 0 <= e < b.len() && b[e] == a[k0];
                assert(rest[e] == b[e]);
            }
            assert forall|k: int, l: int| 0 <= k < less.len() && 0 <= l < less.len() && k != l implies less[k]
                != less[l] by {
                let k0 = if k < i {
                    k
                } else {
                    k + 1
                };
                let l0 = if l < i {
                    l
                } else {
                    l + 1
                };
                assert(less[k] == a[k0]);
                assert(less[l] == a[l0]);
            }
            lemma_fewer(less, rest);
        } else {
            assert forall|k: int| 0 <= k < a.len() implies rest.contains(#[trigger] a[k]) by {
                assert(b.contains(a[k]));
                let e = choose|e: int| 0 <= e < b.len() && b[e] == a[k];
                assert(a.contains(a[k]));
                assert(rest[e] == b[e]);
            }
            lemma_fewer(a, rest);
        }
    }
}

/// No more specifiers resolved in a module than were found in it; and
/// where as many resolved, each that was found did.
pub proof fn lemma_open(n: NodeView)
    requires
        named_once(deps_of(n)),
        forall|b: int| 0 <= b < deps_of(n).len() ==> n.found.contains((#[trigger] deps_of(n)[b]).name),
    ensures
        open_of(n) >= 0,
        open_of(n) == 0 ==> forall|j: int|
            0 <= j < n.found.len() ==> names_of(deps_of(n)).contains(#[trigger] n.found[j]),
{
    let names = names_of(deps_of(n));
    assert forall|i: int| 0 <= i < names.len() implies n.found.contains(#[trigger] names[i]) by {
        assert(names[i] == deps_of(n)[i].name);
    }
    assert forall|k: int, l: int| 0 <= k < names.len() && 0 <= l < names.len() && k != l implies names[k]
        != names[l] by {
        if k < l {
            assert(deps_of(n)[k].name != deps_of(n)[l].name);
        } else {
            assert(deps_of(n)[l].name != deps_of(n)[k].name);
        }
    }
    lemma_fewer(names, n.found);
    if open_of(n) == 0 {
        assert forall|j: int| 0 <= j < n.found.len() implies names.contains(#[trigger] n.found[j]) by {
            if !names.contains(n.found[j]) {
                let more = names.push(n.found[j]);
                assert forall|i: int| 0 <= i < more.len() implies n.found.contains(
                    #[trigger] more[i],
                ) by {
                    if i < names.len() {
                        assert(more[i] == names[i]);
                    }
                }
                assert forall|k: int, l: int|
                    0 <= k < more.len() && 0 <= l < more.len() && k != l implies more[k]
                    != more[l] by {
                    if k < names.len() && l < names.len() {
                        assert(more[k] == names[k] && more[l] == names[l]);
                    } else if k < names.len() {
                        assert(names.contains(names[k]));
                    } else {
                        assert(names.contains(names[l]));
                    }
                }
                lemma_fewer(more, n.found);
            }
        }
    }
}

/// Where no specifier waits among the first `k` modules, none waits in any
/// of them.
pub proof fn lemma_waiting(nodes: Seq<NodeView>, k: nat)
    requires
        k <= nodes.len(),
        plain(nodes),
        traced(nodes),
    ensures
        waiting(nodes, k) >= 0,
        waiting(nodes, k) == 0 ==> forall|i: int| 0 <= i < k ==> open_of(#[trigger] nodes[i]) == 0,
    decreases k,
{
    if k > 0 {
        lemma_waiting(nodes, (k - 1) as nat);
        assert(named_once(deps_of(nodes[k - 1])));
        lemma_open(nodes[k - 1]);
    }
}

/// Where no module is being read, every module was read.
pub proof fn lemma_all_loaded(a: Seq<NodeView>, k: nat, i: int)
    requires
        k <= a.len(),
        loading(a, k) == 0,
        0 <= i < k,
    ensures
        a[i].state is Loaded,
    decreases k,
{
    if i < k - 1 {
        lemma_all_loaded(a, (k - 1) as nat, i);
    }
}

impl Bundler {
    /// The build of the entry point `entry_point`, and its first piece of
    /// work: to read the entry point.
    pub fn new(entry_point: &str) -> (r: (Bundler, Work))
        ensures
            r.0.wf(),
            r.0.entry() == entry_point@,
            r.0.nodes() == seq![
                NodeView { path: entry_point@, state: ModuleStateView::Loading, found: Seq::empty() },
            ],
            r.0.pending == 1,
            r.1@ == (WorkView::Include { module: entry_point@ }),
    {
        let mut modules: Vec<Node> = Vec::new();
        let found: Vec<String> = Vec::new();
        assert(found.deep_view() =~= Seq::<Seq<char>>::empty());
        modules.push(Node { path: entry_point.to_owned(), state: ModuleState::Loading, found });
        let b = Bundler { modules, pending: 1 };
        assert(b.nodes() =~= seq![
            NodeView { path: entry_point@, state: ModuleStateView::Loading, found: Seq::empty() },
        ]);
        assert(loading(b.nodes(), 1) == loading(b.nodes(), 0) + 1);
        assert(waiting(b.nodes(), 1) == waiting(b.nodes(), 0) + open_of(b.nodes()[0]));
        (b, Work::Include { module: entry_point.to_owned() })
    }

    /// The index of the module of `path`, if it is in the graph.
    pub fn find(&self, path: &str) -> (r: Option<usize>)
        ensures
            r.is_some() == has_node(self.nodes(), path@),
            r matches Some(i) ==> node_from(self.nodes(), path@, 0) == Some(i as int) && i
                < self.modules@.len(),
    {
        let mut i: usize = 0;
        while i < self.modules.len()
            invariant
                i <= self.modules@.len(),
                self.nodes().len() == self.modules@.len(),
                node_from(self.nodes(), path@, i as nat) == node_from(self.nodes(), path@, 0),
            decreases self.modules@.len() - i,
        {
            assert(self.nodes()[i as int] == self.modules@[i as int]@);
            if path_eq(self.modules[i].path.as_str(), path) {
                return Some(i);
            }
            i += 1;
        }
        None
    }

    /// How many modules are being read.
    pub fn loading_count(&self) -> (n: usize)
        ensures
            n == loading(self.nodes(), self.nodes().len()),
    {
        let mut n: usize = 0;
        let mut k: usize = 0;
        while k < self.modules.len()
            invariant
                k <= self.modules@.len(),
                self.nodes().len() == self.modules@.len(),
                n == loading(self.nodes(), k as nat),
                n <= k,
            decreases self.modules@.len() - k,
        {
            assert(self.nodes()[k as int] == self.modules@[k as int]@);
            match &self.modules[k].state {
                ModuleState::Loading => {
                    n += 1;
                },
                ModuleState::Loaded(_) => {},
            }
            k += 1;
        }
        n
    }

    /// Whether a piece of work that was done fits the state of the build:
    /// work is pending; a resolution is for a module that was read and a
    /// specifier that was found in it and did not resolve before, and is
    /// not the work that a module that is being read waits for; a module
    /// that was read was being read, and lists each specifier once.
    pub open spec fn fits(&self, done: &WorkDone) -> bool {
        match done {
            WorkDone::Resolve { context, name, resolved } => {
                &&& self.pending > loading(self.nodes(), self.nodes().len())
                &&& state_of(self.nodes(), context@) matches Some(s) && s is Loaded
                &&& awaited(self.nodes(), context@, name@)
            },
            WorkDone::Include { module, info } => {
                &&& self.pending > 0
                &&& self.pending - 1 + info.deps@.len() <= usize::MAX
                &&& info@.deps.no_duplicates()
                &&& state_of(self.nodes(), module@) matches Some(s) && s is Loading
            },
        }
    }

    /// Whether `done` fits the state of the build.
    pub fn accepts(&self, done: &WorkDone) -> (r: bool)
        ensures
            r == self.fits(done),
    {
        match done {
            WorkDone::Resolve { context, name, resolved } => {
                if self.pending <= self.loading_count() {
                    return false;
                }
                match self.find(context.as_str()) {
                    Some(i) => {
                        assert(self.nodes()[i as int] == self.modules@[i as int]@);
                        match &self.modules[i].state {
                            ModuleState::Loaded(m) => holds(
                                &self.modules[i].found,
                                name.as_str(),
                            ) && !has_dep(m, name.as_str()),
                            ModuleState::Loading => false,
                        }
                    },
                    None => false,
                }
            },
            WorkDone::Include { module, info } => {
                if self.pending == 0 || info.deps.len() > usize::MAX - (self.pending - 1) {
                    return false;
                }
                if !all_once(&info.deps) {
                    return false;
                }
                match self.find(module.as_str()) {
                    Some(i) => {
                        assert(self.nodes()[i as int] == self.modules@[i as int]@);
                        match &self.modules[i].state {
                            ModuleState::Loaded(_) => false,
                            ModuleState::Loading => true,
                        }
                    },
                    None => false,
                }
            },
        }
    }

    /// Whether the build is over: no work is pending.
    pub fn is_done(&self) -> (r: bool)
        ensures
            r == (self.pending == 0),
    {
        self.pending == 0
    }

    fn note_dep(&mut self, i: usize, name: String, resolved: Resolved)
        requires
            i < old(self).modules@.len(),
        ensures
            final(self).pending == old(self).pending,
            final(self).nodes() == old(self).nodes().update(
                i as int,
                node_with_dep(old(self).nodes()[i as int], name@, resolved@),
            ),
    {
        let ghost before = self.nodes();
        assert(before[i as int] == self.modules@[i as int]@);
        let node = &mut self.modules[i];
        match &mut node.state {
            ModuleState::Loaded(m) => {
                add_dep(m, name, resolved);
            },
            ModuleState::Loading => {},
        }
        assert(self.nodes() =~= before.update(
            i as int,
            node_with_dep(before[i as int], name@, resolved@),
        ));
    }

    /// Takes a resolution that was done: `name` in the module `context`
    /// resolved to `resolved`. Hands back the work that this leaves.
    pub fn resolved(&mut self, context: String, name: String, resolved: Resolved) -> (work: Vec<
        Work,
    >)
        requires
            old(self).wf(),
            old(self).pending > loading(old(self).nodes(), old(self).nodes().len()),
            state_of(old(self).nodes(), context@) matches Some(s) && s is Loaded,
            awaited(old(self).nodes(), context@, name@),
        ensures
            final(self).wf(),
            final(self).entry() == old(self).entry(),
            final(self).nodes() == after_resolve(old(self).nodes(), context@, name@, resolved@),
            work.deep_view() == work_after_resolve(old(self).nodes(), resolved@),
            final(self).pending == old(self).pending - 1 + work@.len(),
    {
        let ghost nodes = self.nodes();
        let i = match self.find(context.as_str()) {
            Some(i) => i,
            None => 0,
        };
        let added = match &resolved {
            Resolved::Normal(p) => if self.find(p.as_str()).is_none() {
                Some(p.clone())
            } else {
                None
            },
            _ => None,
        };
        assert(added matches Some(p) ==> resolved@ == ResolvedView::Normal(p@) && !has_node(
            nodes,
            p@,
        ));
        assert(added is None ==> work_after_resolve(nodes, resolved@) == Seq::<WorkView>::empty());
        self.pending = self.pending - 1;
        self.note_dep(i, name, resolved.copy());
        let ghost with = self.nodes();
        let mut work: Vec<Work> = Vec::new();
        match added {
            Some(p) => {
                let found: Vec<String> = Vec::new();
                assert(found.deep_view() =~= Seq::<Seq<char>>::empty());
                self.modules.push(Node { path: p.clone(), state: ModuleState::Loading, found });
                assert(self.nodes() =~= with.push(
                    NodeView { path: p@, state: ModuleStateView::Loading, found: Seq::empty() },
                ));
                self.pending = self.pending + 1;
                work.push(Work::Include { module: p });
                assert(work.deep_view() =~= seq![WorkView::Include { module: p@ }]);
            },
            None => {
                assert(work.deep_view() =~= Seq::<WorkView>::empty());
            },
        }
        proof {
            let after = self.nodes();
            lemma_shape_after_resolve(nodes, context@, name@, resolved@);
            lemma_loading_update(
                nodes,
                i as int,
                node_with_dep(nodes[i as int], name@, resolved@),
                nodes.len(),
            );
            if after.len() > nodes.len() {
                lemma_loading_push(with, after[after.len() - 1], with.len());
                let p = after[after.len() - 1].path;
                assert(node_from(nodes, p, 0).is_none());
                assert(node_from(with, p, 0).is_none()) by {
                    if node_from(with, p, 0).is_some() {
                        lemma_node_stays(with, nodes, p, 0);
                    }
                }
                lemma_node_added(with, after[after.len() - 1], 0);
            }
            assert forall|a: int, b: int|
                0 <= a < after.len() && 0 <= b < deps_of(after[a]).len() implies dep_in(
                after,
                #[trigger] deps_of(after[a])[b],
            ) by {
                let d = deps_of(after[a])[b];
                match d.resolved {
                    ResolvedView::Normal(q) => {
                        if a < nodes.len() && a != i {
                            assert(after[a] == nodes[a]);
                            assert(dep_in(nodes, deps_of(nodes[a])[b]));
                            lemma_node_stays(nodes, after, q, 0);
                        } else if a == i {
                            let old_deps = deps_of(nodes[a]);
                            if d == (DepView { name: name@, resolved: resolved@ }) {
                                if has_node(nodes, q) {
                                    lemma_node_stays(nodes, after, q, 0);
                                }
                            } else {
                                lemma_dep_from(old_deps, name@, 0);
                                assert(after[a] == node_with_dep(nodes[a], name@, resolved@));
                                assert(deps_of(after[a]) == with_dep(old_deps, name@, resolved@));
                                assert(0 <= b < old_deps.len() && old_deps[b] == d);
                                assert(dep_in(nodes, deps_of(nodes[a])[b]));
                                lemma_node_stays(nodes, after, q, 0);
                            }
                        } else {
                        }
                    },
                    _ => {},
                }
            }
        }
        work
    }

    /// Takes a module that was read. Hands back the work that this leaves:
    /// to resolve each of its specifiers.
    pub fn included(&mut self, module: String, info: ModuleInfo) -> (work: Vec<Work>)
        requires
            old(self).wf(),
            old(self).pending > 0,
            old(self).pending - 1 + info.deps@.len() <= usize::MAX,
            info@.deps.no_duplicates(),
            state_of(old(self).nodes(), module@) matches Some(s) && s is Loading,
        ensures
            final(self).wf(),
            final(self).entry() == old(self).entry(),
            final(self).nodes() == after_include(old(self).nodes(), module@, info@),
            work.deep_view() == fan_out(module@, info@.deps, info@.deps.len()),
            final(self).pending == old(self).pending - 1 + work@.len(),
    {
        let ghost nodes = self.nodes();
        let i = match self.find(module.as_str()) {
            Some(i) => i,
            None => 0,
        };
        assert(nodes[i as int] == self.modules@[i as int]@);
        let ModuleInfo { source, deps } = info;
        let path = self.modules[i].path.clone();
        self.pending = self.pending - 1;
        let mut work: Vec<Work> = Vec::new();
        let mut k: usize = 0;
        assert(work.deep_view() =~= fan_out(module@, deps.deep_view(), 0));
        while k < deps.len()
            invariant
                k <= deps@.len(),
                deps.deep_view().len() == deps@.len(),
                work@.len() == k,
                work.deep_view() == fan_out(module@, deps.deep_view(), k as nat),
                self.pending == old(self).pending - 1 + k,
                old(self).pending - 1 + deps@.len() <= usize::MAX,
                self.nodes() == nodes,
                i < self.modules@.len(),
            decreases deps@.len() - k,
        {
            assert(deps.deep_view()[k as int] == deps@[k as int]@);
            let ghost before = work.deep_view();
            work.push(Work::Resolve { context: module.clone(), name: deps[k].clone() });
            assert(work.deep_view() =~= before.push(
                WorkView::Resolve { context: module@, name: deps@[k as int]@ },
            ));
            self.pending = self.pending + 1;
            k += 1;
        }
        let empty: Vec<Dep> = Vec::new();
        assert(empty.deep_view() =~= Seq::<DepView>::empty());
        self.modules.set(
            i,
            Node { path, state: ModuleState::Loaded(Module { source, deps: empty }), found: deps },
        );
        assert(self.nodes() =~= after_include(nodes, module@, info@));
        proof {
            let after = self.nodes();
            lemma_shape_after_include(nodes, module@, info@);
            assert forall|a: int, b: int|
                0 <= a < after.len() && 0 <= b < deps_of(after[a]).len() implies dep_in(
                after,
                #[trigger] deps_of(after[a])[b],
            ) by {
                if a != i {
                    assert(after[a] == nodes[a]);
                    assert(dep_in(nodes, deps_of(nodes[a])[b]));
                    match deps_of(after[a])[b].resolved {
                        ResolvedView::Normal(q) => {
                            lemma_node_stays(nodes, after, q, 0);
                        },
                        _ => {},
                    }
                }
            }
        }
        work
    }

    /// Takes a piece of work that was done, which fits the state of the
    /// build, and hands back the work that this leaves.
    pub fn done(&mut self, work_done: WorkDone) -> (work: Vec<Work>)
        requires
            old(self).wf(),
            old(self).fits(&work_done),
        ensures
            final(self).wf(),
            final(self).entry() == old(self).entry(),
            final(self).pending == old(self).pending - 1 + work@.len(),
            match work_done {
                WorkDone::Resolve { context, name, resolved } => final(self).nodes()
                    == after_resolve(old(self).nodes(), context@, name@, resolved@)
                    && work.deep_view() == work_after_resolve(old(self).nodes(), resolved@),
                WorkDone::Include { module, info } => final(self).nodes() == after_include(
                    old(self).nodes(),
                    module@,
                    info@,
                ) && work.deep_view() == fan_out(module@, info@.deps, info@.deps.len()),
            },
    {
        match work_done {
            WorkDone::Resolve { context, name, resolved } => self.resolved(context, name, resolved),
            WorkDone::Include { module, info } => self.included(module, info),
        }
    }
}

impl Bundler {
    /// The graph of a build that is over is what the entry point needs,
    /// each file once. Every module was read. The first module is the
    /// entry point, and every other module is a file that a dependency of
    /// a module resolved to. Every file that a dependency of a module
    /// resolved to is a module. No two modules have the same path. Every
    /// specifier that was found in a module has its dependency there, and
    /// no module has a dependency for another name, or two for one name.
    pub proof fn lemma_finished(&self)
        requires
            self.wf(),
            self.pending == 0,
        ensures
            forall|i: int| 0 <= i < self.nodes().len() ==> (#[trigger] self.nodes()[i]).state is Loaded,
            forall|k: int|
                0 < k < self.nodes().len() ==> wanted(self.nodes(), (#[trigger] self.nodes()[k]).path),
            forall|i: int, j: int|
                0 <= i < self.nodes().len() && 0 <= j < deps_of(self.nodes()[i]).len() ==> (
                (#[trigger] deps_of(self.nodes()[i])[j]).resolved matches ResolvedView::Normal(q)
                    ==> has_node(self.nodes(), q)),
            distinct(self.nodes()),
            plain(self.nodes()),
            traced(self.nodes()),
            forall|i: int, j: int|
                0 <= i < self.nodes().len() && 0 <= j < self.nodes()[i].found.len() ==> names_of(
                    deps_of(self.nodes()[i]),
                ).contains(#[trigger] self.nodes()[i].found[j]),
    {
        let nodes = self.nodes();
        lemma_waiting(nodes, nodes.len());
        assert forall|i: int| 0 <= i < nodes.len() implies (#[trigger] nodes[i]).state is Loaded by {
            lemma_all_loaded(nodes, nodes.len(), i);
        }
        assert forall|i: int, j: int|
            0 <= i < nodes.len() && 0 <= j < nodes[i].found.len() implies names_of(
            deps_of(nodes[i]),
        ).contains(#[trigger] nodes[i].found[j]) by {
            assert(open_of(nodes[i]) == 0);
            assert(named_once(deps_of(nodes[i])));
            lemma_open(nodes[i]);
        }
        assert forall|i: int, j: int| 0 <= i < nodes.len() && 0 <= j < deps_of(nodes[i]).len() implies (
        (#[trigger] deps_of(nodes[i])[j]).resolved matches ResolvedView::Normal(q) ==> has_node(
            nodes,
            q,
        )) by {
            assert(dep_in(nodes, deps_of(nodes[i])[j]));
        }
    }
}

/// A module of the graph as the bundle holds it: under the path that it
/// has seen from the directory `dir`.
pub open spec fn bundled_of(n: NodeView, dir: Seq<char>) -> BundledView {
    BundledView {
        file: under(n.path, dir),
        module: match n.state {
            ModuleStateView::Loaded(m) => m,
            ModuleStateView::Loading => ModuleView {
                source: crate::modules::SourceView {
                    prefix: Seq::empty(),
                    body: Seq::empty(),
                    suffix: Seq::empty(),
                    original: None,
                },
                deps: Seq::empty(),
            },
        },
    }
}

impl Bundler {
    /// The modules of a build that is over, as the bundle holds them: each
    /// under the path that it has seen from the directory of the entry
    /// point, the last module of the graph first.
    pub fn finish(self, entry_point: &str) -> (r: Vec<Bundled>)
        requires
            self.wf(),
            self.pending == 0,
            parent(entry_point@).is_some(),
        ensures
            r@.len() == self.nodes().len(),
            forall|k: int|
                0 <= k < r@.len() ==> (#[trigger] r@[k])@ == bundled_of(
                    self.nodes()[self.nodes().len() - 1 - k],
                    parent(entry_point@).unwrap(),
                ),
            forall|i: int| 0 <= i < self.nodes().len() ==> (#[trigger] self.nodes()[i]).state is Loaded,
    {
        let dir = match path_parent(entry_point) {
            Some(d) => d,
            None => String::new(),
        };
        let ghost nodes = self.nodes();
        proof {
            lemma_waiting(nodes, nodes.len());
            assert forall|i: int| 0 <= i < nodes.len() implies (#[trigger] nodes[i]).state is Loaded by {
                lemma_all_loaded(nodes, nodes.len(), i);
            }
        }
        let mut modules = self.modules;
        let mut out: Vec<Bundled> = Vec::new();
        while modules.len() > 0
            invariant
                modules@.len() <= nodes.len(),
                forall|i: int| 0 <= i < modules@.len() ==> (#[trigger] modules@[i])@ == nodes[i],
                forall|i: int| 0 <= i < nodes.len() ==> (#[trigger] nodes[i]).state is Loaded,
                out@.len() == nodes.len() - modules@.len(),
                dir@ == parent(entry_point@).unwrap(),
                forall|k: int|
                    0 <= k < out@.len() ==> (#[trigger] out@[k])@ == bundled_of(
                        nodes[nodes.len() - 1 - k],
                        dir@,
                    ),
            decreases modules@.len(),
        {
            let ghost n = modules@.len();
            match modules.pop() {
                Some(node) => {
                    assert(node@ == nodes[n - 1]);
                    let Node { path, state, found } = node;
                    let file = match strip_prefix(path.as_str(), dir.as_str()) {
                        Some(rest) => rest,
                        None => path,
                    };
                    match state {
                        ModuleState::Loaded(module) => {
                            out.push(Bundled { file, module });
                        },
                        ModuleState::Loading => {},
                    }
                },
                None => {},
            }
        }
        out
    }
}

} // verus!
