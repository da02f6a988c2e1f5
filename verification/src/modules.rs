//! The modules of a bundle: their text and what they depend on.

use vstd::prelude::*;
use crate::resolver::{Resolved, ResolvedView};

verus! {

/// The text of a module. `body` is what the bundle holds; `prefix` and
/// `suffix` wrap it; `original` is the text as it was read, kept where the
/// body is a rewritten form of it.
#[derive(Debug)]
pub struct Source {
    pub prefix: String,
    pub body: String,
    pub suffix: String,
    pub original: Option<String>,
}

pub struct SourceView {
    pub prefix: Seq<char>,
    pub body: Seq<char>,
    pub suffix: Seq<char>,
    pub original: Option<Seq<char>>,
}

impl View for Source {
    type V = SourceView;

    open spec fn view(&self) -> SourceView {
        SourceView {
            prefix: self.prefix@,
            body: self.body@,
            suffix: self.suffix@,
            original: match self.original {
                Some(s) => Some(s@),
                None => None,
            },
        }
    }
}

/// What reading a module gives: its text, and the specifiers that it
/// depends on, each once.
#[derive(Debug)]
pub struct ModuleInfo {
    pub source: Source,
    pub deps: Vec<String>,
}

pub struct ModuleInfoView {
    pub source: SourceView,
    pub deps: Seq<Seq<char>>,
}

impl View for ModuleInfo {
    type V = ModuleInfoView;

    open spec fn view(&self) -> ModuleInfoView {
        ModuleInfoView { source: self.source@, deps: self.deps.deep_view() }
    }
}

/// A dependency of a module: a specifier and what it resolved to.
#[derive(Debug)]
pub struct Dep {
    pub name: String,
    pub resolved: Resolved,
}

pub struct DepView {
    pub name: Seq<char>,
    pub resolved: ResolvedView,
}

impl View for Dep {
    type V = DepView;

    open spec fn view(&self) -> DepView {
        DepView { name: self.name@, resolved: self.resolved@ }
    }
}

impl DeepView for Dep {
    type V = DepView;

    open spec fn deep_view(&self) -> DepView {
        self@
    }
}

/// Whether no two dependencies have the same name.
pub open spec fn named_once(deps: Seq<DepView>) -> bool {
    forall|i: int, j: int|
        0 <= i < j < deps.len() ==> (#[trigger] deps[i]).name != (#[trigger] deps[j]).name
}

/// A module of the bundle: its text, and what each of its specifiers
/// resolved to. No specifier stands in `deps` twice.
#[derive(Debug)]
pub struct Module {
    pub source: Source,
    pub deps: Vec<Dep>,
}

pub struct ModuleView {
    pub source: SourceView,
    pub deps: Seq<DepView>,
}

impl View for Module {
    type V = ModuleView;

    open spec fn view(&self) -> ModuleView {
        ModuleView { source: self.source@, deps: self.deps.deep_view() }
    }
}

impl DeepView for Module {
    type V = ModuleView;

    open spec fn deep_view(&self) -> ModuleView {
        self@
    }
}

/// No specifier stands among the dependencies twice.
pub open spec fn distinct_names(deps: Seq<DepView>) -> bool {
    forall|i: int, j: int| 0 <= i < j < deps.len() ==> deps[i].name != deps[j].name
}

/// A module of the graph: asked for, or read.
#[derive(Debug)]
pub enum ModuleState {
    Loading,
    Loaded(Module),
}

pub enum ModuleStateView {
    Loading,
    Loaded(ModuleView),
}

impl View for ModuleState {
    type V = ModuleStateView;

    open spec fn view(&self) -> ModuleStateView {
        match self {
            ModuleState::Loading => ModuleStateView::Loading,
            ModuleState::Loaded(m) => ModuleStateView::Loaded(m@),
        }
    }
}

impl DeepView for ModuleState {
    type V = ModuleStateView;

    open spec fn deep_view(&self) -> ModuleStateView {
        self@
    }
}

impl ModuleState {
    /// The module that was read. One that is still being read has none.
    pub fn unwrap(self) -> (m: Module)
        requires
            self is Loaded,
        ensures
            self == ModuleState::Loaded(m),
    {
        match self {
            ModuleState::Loaded(module) => module,
            ModuleState::Loading => vstd::pervasive::unreached(),
        }
    }
}

} // verus!
