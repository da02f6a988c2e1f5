//! Module resolution: from a specifier in a file to the file that it names.
//!
//! Resolution reads the disk in two ways: it asks whether a path is a file,
//! and what the manifest files of a directory hold. The resolver keeps what
//! it was told. A step that needs to know more hands back the question; it
//! is taken again once the answer was taken down.

use vstd::prelude::*;
use crate::input_options::{InputOptions, InputOptionsView, PackageManager};
use crate::manifest::{
    entry_from,
    known,
    lemma_entry_from,
    lemma_nearest_is_known,
    nearest,
    substitution,
    Answer,
    BrowserSubstitution,
    BrowserSubstitutionView,
    ManifestView,
    PackageCache,
    PackageInfo,
    PackageInfoView,
    Query,
    QueryView,
    Step,
    SubstView,
};
use crate::path_ext::{
    append_resolving,
    lemma_appended_absolute,
    lemma_parts_bounds,
    lemma_file_name_len,
    lemma_popped_absolute,
    lemma_pushed_absolute,
    lemma_with_file_name_absolute,
    appended,
    components,
    comps,
    ends_in_dots,
    ends_in_sep,
    file_name,
    parts,
    is_absolute,
    is_explicitly_relative,
    parent,
    path_ends_in_dots,
    path_eq,
    path_file_name,
    path_is_absolute,
    path_is_explicitly_relative,
    path_parent,
    pop,
    popped,
    push,
    pushed,
    same_path,
    set_file_name,
    with_file_name,
    Comp,
};
use crate::text::{chars_of, push_range, str_eq};
use crate::{CliError, CliErrorView};

verus! {

/// The outcome of resolving a specifier.
#[derive(Debug, Clone, PartialEq, Eq)]
pub enum Resolved {
    /// Left as a reference in the output.
    External,
    /// Replaced by the empty module.
    Ignore,
    /// The file to take in, by its path.
    Normal(String),
}

pub enum ResolvedView {
    External,
    Ignore,
    Normal(Seq<char>),
}

impl View for Resolved {
    type V = ResolvedView;

    open spec fn view(&self) -> ResolvedView {
        match self {
            Resolved::External => ResolvedView::External,
            Resolved::Ignore => ResolvedView::Ignore,
            Resolved::Normal(p) => ResolvedView::Normal(p@),
        }
    }
}

impl DeepView for Resolved {
    type V = ResolvedView;

    open spec fn deep_view(&self) -> ResolvedView {
        self@
    }
}

impl Resolved {
    /// A copy.
    pub fn copy(&self) -> (r: Resolved)
        ensures
            r@ == self@,
    {
        match self {
            Resolved::External => Resolved::External,
            Resolved::Ignore => Resolved::Ignore,
            Resolved::Normal(p) => Resolved::Normal(p.clone()),
        }
    }
}

/// What a package has in the place of a module.
#[derive(Debug, Clone, PartialEq, Eq)]
pub enum ModuleSubstitution {
    Normal,
    Ignore,
    External,
    Replace(String),
}

pub enum ModuleSubstitutionView {
    Normal,
    Ignore,
    External,
    Replace(Seq<char>),
}

impl View for ModuleSubstitution {
    type V = ModuleSubstitutionView;

    open spec fn view(&self) -> ModuleSubstitutionView {
        match self {
            ModuleSubstitution::Normal => ModuleSubstitutionView::Normal,
            ModuleSubstitution::Ignore => ModuleSubstitutionView::Ignore,
            ModuleSubstitution::External => ModuleSubstitutionView::External,
            ModuleSubstitution::Replace(s) => ModuleSubstitutionView::Replace(s@),
        }
    }
}

/// What a path comes to: no file; the file itself; nothing, or another
/// path, by a substitution.
#[derive(Debug, Clone, PartialEq, Eq)]
pub enum PathSubstitution {
    Missing,
    Normal,
    Ignore,
    Replace(String),
}

pub enum PathSubstitutionView {
    Missing,
    Normal,
    Ignore,
    Replace(Seq<char>),
}

impl View for PathSubstitution {
    type V = PathSubstitutionView;

    open spec fn view(&self) -> PathSubstitutionView {
        match self {
            PathSubstitution::Missing => PathSubstitutionView::Missing,
            PathSubstitution::Normal => PathSubstitutionView::Normal,
            PathSubstitution::Ignore => PathSubstitutionView::Ignore,
            PathSubstitution::Replace(s) => PathSubstitutionView::Replace(s@),
        }
    }
}

/// What is known of a path: whether it is a file.
#[derive(Debug, Clone, PartialEq, Eq)]
pub struct FileFact {
    pub path: String,
    pub is_file: bool,
}

pub struct FileFactView {
    pub path: Seq<char>,
    pub is_file: bool,
}

impl View for FileFact {
    type V = FileFactView;

    open spec fn view(&self) -> FileFactView {
        FileFactView { path: self.path@, is_file: self.is_file }
    }
}

impl DeepView for FileFact {
    type V = FileFactView;

    open spec fn deep_view(&self) -> FileFactView {
        self@
    }
}

/// What is known of `path` among the facts from index `i` on: the first
/// fact for a path with the same components.
pub open spec fn fact_from(files: Seq<FileFactView>, path: Seq<char>, i: nat) -> Option<bool>
    decreases files.len() - i,
{
    if i >= files.len() {
        None
    } else if same_path(files[i as int].path, path) {
        Some(files[i as int].is_file)
    } else {
        fact_from(files, path, i + 1)
    }
}

/// Whether `path` is a file, as far as it is known.
pub open spec fn is_file(files: Seq<FileFactView>, path: Seq<char>) -> Option<bool> {
    fact_from(files, path, 0)
}

/// What a resolver goes by: the options, and what it knows of the disk.
pub struct World {
    pub options: InputOptionsView,
    pub pkgs: Seq<ManifestView>,
    pub files: Seq<FileFactView>,
}

/// The substitution of a package for `path`, if the package has one.
pub open spec fn substituted(info: Option<PackageInfoView>, path: Seq<char>) -> Option<
    BrowserSubstitutionView,
> {
    match info {
        Some(i) => substitution(i.browser_substitutions, path),
        None => None,
    }
}

/// What `path` comes to. The substitutions of the package are looked at
/// before the disk.
pub open spec fn checked(w: World, info: Option<PackageInfoView>, path: Seq<char>) -> Answer<
    PathSubstitutionView,
> {
    match substituted(info, path) {
        Some(BrowserSubstitutionView::Ignore) => Answer::Done(PathSubstitutionView::Ignore),
        Some(BrowserSubstitutionView::Replace(p)) => Answer::Done(PathSubstitutionView::Replace(p)),
        None => match is_file(w.files, path) {
            Some(true) => Answer::Done(PathSubstitutionView::Normal),
            Some(false) => Answer::Done(PathSubstitutionView::Missing),
            None => Answer::Ask(QueryView::IsFile(path)),
        },
    }
}

/// What probing `path` finds: a resolution, or nothing.
pub open spec fn probe(w: World, info: Option<PackageInfoView>, path: Seq<char>) -> Answer<
    Option<ResolvedView>,
> {
    match checked(w, info, path) {
        Answer::Done(PathSubstitutionView::Normal) => Answer::Done(Some(ResolvedView::Normal(path))),
        Answer::Done(PathSubstitutionView::Ignore) => Answer::Done(Some(ResolvedView::Ignore)),
        Answer::Done(PathSubstitutionView::Replace(p)) => Answer::Done(
            Some(ResolvedView::Normal(p)),
        ),
        Answer::Done(PathSubstitutionView::Missing) => Answer::Done(None),
        Answer::Ask(q) => Answer::Ask(q),
    }
}

/// The first of the given paths, from index `i` on, that probing finds
/// something at.
pub open spec fn probe_all(
    w: World,
    info: Option<PackageInfoView>,
    paths: Seq<Seq<char>>,
    i: nat,
) -> Answer<Option<ResolvedView>>
    decreases paths.len() - i,
{
    if i >= paths.len() {
        Answer::Done(None)
    } else {
        match probe(w, info, paths[i as int]) {
            Answer::Done(None) => probe_all(w, info, paths, i + 1),
            other => other,
        }
    }
}

/// The paths that are probed for the file `path` names: the path itself,
/// and the path with `.mjs`, `.js` and `.json` added to its file name.
pub open spec fn file_candidates(path: Seq<char>) -> Seq<Seq<char>> {
    let name = file_name(path).unwrap();
    let mjs = with_file_name(path, name + ".mjs"@);
    let js = with_file_name(mjs, name + ".js"@);
    let json = with_file_name(js, name + ".json"@);
    seq![path, mjs, js, json]
}

/// The path after the files were probed for.
pub open spec fn restored(path: Seq<char>) -> Seq<char> {
    with_file_name(file_candidates(path)[3], file_name(path).unwrap())
}

/// The paths that are probed for the directory `path`: `index.mjs`,
/// `index.js` and `index.json` in it.
pub open spec fn index_candidates(path: Seq<char>) -> Seq<Seq<char>> {
    let mjs = pushed(path, "index.mjs"@);
    let js = pushed(popped(mjs), "index.js"@);
    let json = pushed(popped(js), "index.json"@);
    seq![mjs, js, json]
}

/// The outcome of looking for a file or a package at a path.
pub type Found = Answer<Result<Option<ResolvedView>, CliErrorView>>;

/// A probe as the outcome of a search.
pub open spec fn found(a: Answer<Option<ResolvedView>>) -> Found {
    match a {
        Answer::Done(r) => Answer::Done(Ok(r)),
        Answer::Ask(q) => Answer::Ask(q),
    }
}

/// The search for the file `path`.
pub open spec fn search_files(
    w: World,
    info: Option<PackageInfoView>,
    context: Option<Seq<char>>,
    path: Seq<char>,
) -> Found {
    match probe(w, info, path) {
        Answer::Done(None) => if file_name(path).is_none() {
            Answer::Done(Err(CliErrorView::RequireRoot { context, path }))
        } else {
            found(probe_all(w, info, file_candidates(path), 1))
        },
        other => found(other),
    }
}

/// What `path` resolves to, as a file or as a package. The candidates, in
/// this order, first hit wins: the path itself and the path with `.mjs`,
/// `.js` and `.json` added, unless a directory is asked for; the main file
/// of the package whose manifest lies in `path`, looked for in the same
/// way, but without going into a package once more; `index.mjs`,
/// `index.js` and `index.json` in `path`.
pub open spec fn resolve_at(
    w: World,
    context: Option<Seq<char>>,
    path: Seq<char>,
    needs_dir: bool,
    package: bool,
) -> Found
    decreases
            (if package {
                0nat
            } else {
                1nat
            }),
{
    match nearest(w.pkgs, path, w.options.package_manager) {
        Answer::Ask(q) => Answer::Ask(q),
        Answer::Done(info) => {
            let files = if needs_dir {
                Answer::Done(Ok(None))
            } else {
                search_files(w, info, context, path)
            };
            match files {
                Answer::Done(Ok(None)) => {
                    let dir = if needs_dir {
                        path
                    } else {
                        restored(path)
                    };
                    if package {
                        found(probe_all(w, info, index_candidates(dir), 0))
                    } else {
                        match known(w.pkgs, dir) {
                            None => Answer::Ask(QueryView::Manifest(dir)),
                            Some(Some(pkg)) => resolve_at(w, context, pkg.main, false, true),
                            Some(None) => found(probe_all(w, info, index_candidates(dir), 0)),
                        }
                    }
                },
                other => other,
            }
        },
    }
}

/// How long the first segment of a specifier is: up to its first `/`.
pub open spec fn head_len(name: Seq<char>, i: nat) -> nat
    decreases name.len() - i,
{
    if i >= name.len() || name[i as int] == '/' {
        i
    } else {
        head_len(name, i + 1)
    }
}

/// The first segment of a specifier: the name of the module.
pub open spec fn head(name: Seq<char>) -> Seq<char> {
    name.subrange(0, head_len(name, 0) as int)
}

/// A specifier without its first segment.
pub open spec fn tail(name: Seq<char>) -> Seq<char> {
    name.subrange(head_len(name, 0) as int, name.len() as int)
}

/// What stands in the place of the module that `name` begins with: nothing
/// where the module is external; else what the manifest nearest to the file
/// `context` has for it.
pub open spec fn module_substitution(w: World, context: Seq<char>, name: Seq<char>) -> Answer<
    ModuleSubstitutionView,
> {
    if w.options.external.contains(head(name)) {
        Answer::Done(ModuleSubstitutionView::External)
    } else {
        match parent(context) {
            None => Answer::Done(ModuleSubstitutionView::Normal),
            Some(p) => match nearest(w.pkgs, p, w.options.package_manager) {
                Answer::Ask(q) => Answer::Ask(q),
                Answer::Done(None) => Answer::Done(ModuleSubstitutionView::Normal),
                Answer::Done(Some(info)) => match substitution(
                    info.browser_substitutions,
                    head(name),
                ) {
                    Some(BrowserSubstitutionView::Ignore) => Answer::Done(
                        ModuleSubstitutionView::Ignore,
                    ),
                    Some(BrowserSubstitutionView::Replace(to)) => Answer::Done(
                        ModuleSubstitutionView::Replace(to + tail(name)),
                    ),
                    None => Answer::Done(ModuleSubstitutionView::Normal),
                },
            },
        }
    }
}

/// `base` with the first `k` of the given components pushed onto it.
pub open spec fn push_comps(base: Seq<char>, cs: Seq<Comp>, k: nat) -> Seq<char>
    decreases k,
{
    if k == 0 {
        base
    } else {
        pushed(push_comps(base, cs, (k - 1) as nat), cs[k - 1].text)
    }
}

/// Where the module `name` lies under a directory: in the directory of
/// installed packages.
pub open spec fn store_path(pm: PackageManager, name: Seq<char>) -> Seq<char> {
    push_comps(pm.dir_name(), comps(name), comps(name).len())
}

/// Whether a specifier asks for a directory: it ends in `/`, `.` or `..`.
pub open spec fn asks_for_dir(name: Seq<char>) -> bool {
    ends_in_sep(name) || ends_in_dots(name)
}

/// The outcome of resolving a specifier.
pub type Outcome = Answer<Result<ResolvedView, CliErrorView>>;

/// The error for a module that is nowhere.
pub open spec fn not_found(context: Seq<char>, name: Seq<char>) -> CliErrorView {
    CliErrorView::ModuleNotFound { context, name }
}

/// A search as an outcome, with the given error where nothing was found.
pub open spec fn or_else(f: Found, e: CliErrorView) -> Outcome {
    match f {
        Answer::Ask(q) => Answer::Ask(q),
        Answer::Done(Ok(Some(r))) => Answer::Done(Ok(r)),
        Answer::Done(Ok(None)) => Answer::Done(Err(e)),
        Answer::Done(Err(x)) => Answer::Done(Err(x)),
    }
}

/// The search for the module `name` in the directories above `dir`, the
/// closest first. Directories that hold installed packages are passed over.
pub open spec fn climb(
    w: World,
    context: Seq<char>,
    name: Seq<char>,
    dir: Seq<char>,
) -> Outcome
    decreases dir.len(),
{
    match parent(dir) {
        None => Answer::Done(Err(not_found(context, name))),
        Some(p) => if p.len() >= dir.len() {
            Answer::Done(Err(not_found(context, name)))
        } else if file_name(p) == Some(w.options.package_manager.dir_name()) {
            climb(w, context, name, p)
        } else {
            match resolve_at(
                w,
                Some(context),
                pushed(p, store_path(w.options.package_manager, name)),
                asks_for_dir(name),
                false,
            ) {
                Answer::Ask(q) => Answer::Ask(q),
                Answer::Done(Err(e)) => Answer::Done(Err(e)),
                Answer::Done(Ok(Some(r))) => Answer::Done(Ok(r)),
                Answer::Done(Ok(None)) => climb(w, context, name, p),
            }
        },
    }
}

/// What the specifier `name` in the file `context` resolves to, with at
/// most `fuel` replacements of one module by another.
pub open spec fn resolve_in(w: World, context: Seq<char>, name: Seq<char>, fuel: nat) -> Outcome
    decreases fuel,
{
    if name.len() == 0 {
        Answer::Done(Err(CliErrorView::EmptyModuleName { context }))
    } else if is_absolute(name) {
        or_else(
            resolve_at(w, Some(context), name, asks_for_dir(name), false),
            not_found(context, name),
        )
    } else if is_explicitly_relative(name) {
        or_else(
            resolve_at(
                w,
                Some(context),
                appended(popped(context), name),
                asks_for_dir(name),
                false,
            ),
            not_found(context, name),
        )
    } else {
        match module_substitution(w, context, name) {
            Answer::Ask(q) => Answer::Ask(q),
            Answer::Done(ModuleSubstitutionView::Ignore) => Answer::Done(Ok(ResolvedView::Ignore)),
            Answer::Done(ModuleSubstitutionView::External) => Answer::Done(
                Ok(ResolvedView::External),
            ),
            Answer::Done(ModuleSubstitutionView::Replace(n)) => if fuel == 0 {
                Answer::Done(Err(not_found(context, name)))
            } else {
                resolve_in(w, context, n, (fuel - 1) as nat)
            },
            Answer::Done(ModuleSubstitutionView::Normal) => climb(w, context, name, context),
        }
    }
}

/// How many replacements of one module by another are followed for a
/// specifier in the file `context`: as many as the manifest nearest to it
/// lists substitutions. A chain that is longer goes in a circle.
pub open spec fn replacements(w: World, context: Seq<char>) -> nat {
    match parent(context) {
        Some(p) => match nearest(w.pkgs, p, w.options.package_manager) {
            Answer::Done(Some(info)) => info.browser_substitutions.len(),
            _ => 0,
        },
        None => 0,
    }
}

/// What the specifier `name` in the file `context` resolves to: a path is
/// looked for where it points, from the root or from the directory of the
/// file; a module name is replaced where the nearest manifest says so, and
/// else looked for among the installed packages of the directories above
/// the file.
pub open spec fn resolve(w: World, context: Seq<char>, name: Seq<char>) -> Outcome {
    resolve_in(w, context, name, replacements(w, context))
}

/// What the main module `name`, given in the directory `dir`, resolves to.
pub open spec fn resolve_main(w: World, dir: Seq<char>, name: Seq<char>) -> Outcome {
    or_else(
        resolve_at(w, None, appended(dir, name), asks_for_dir(name), false),
        CliErrorView::MainNotFound { name },
    )
}

/// Whether a search of the executable resolver is what the model gives.
pub open spec fn found_is(r: Step<Result<Option<Resolved>, CliError>>, a: Found) -> bool {
    match a {
        Answer::Ask(q) => r matches Step::Ask(x) && x@ == q,
        Answer::Done(Ok(None)) => r matches Step::Done(Ok(None)),
        Answer::Done(Ok(Some(v))) => r matches Step::Done(Ok(Some(x))) && x@ == v,
        Answer::Done(Err(e)) => r matches Step::Done(Err(x)) && x@ == e,
    }
}

/// Whether a probe of the executable resolver is what the model gives.
pub open spec fn probe_is(r: Step<Option<Resolved>>, a: Answer<Option<ResolvedView>>) -> bool {
    match a {
        Answer::Ask(q) => r matches Step::Ask(x) && x@ == q,
        Answer::Done(None) => r matches Step::Done(None),
        Answer::Done(Some(v)) => r matches Step::Done(Some(x)) && x@ == v,
    }
}

/// Whether an outcome of the executable resolver is what the model gives.
pub open spec fn outcome_is(r: Step<Result<Resolved, CliError>>, a: Outcome) -> bool {
    match a {
        Answer::Ask(q) => r matches Step::Ask(x) && x@ == q,
        Answer::Done(Ok(v)) => r matches Step::Done(Ok(x)) && x@ == v,
        Answer::Done(Err(e)) => r matches Step::Done(Err(x)) && x@ == e,
    }
}

/// A path that may be missing, as a value.
pub open spec fn opt_view(s: Option<&str>) -> Option<Seq<char>> {
    match s {
        Some(c) => Some(c@),
        None => None,
    }
}

/// A package that may be missing, as a value.
pub open spec fn info_view(i: Option<&PackageInfo>) -> Option<PackageInfoView> {
    match i {
        Some(x) => Some(x@),
        None => None,
    }
}

/// Resolves specifiers against what it knows of the disk.
#[derive(Debug, Clone)]
pub struct Resolver {
    pub input_options: InputOptions,
    pub cache: PackageCache,
    pub files: Vec<FileFact>,
}

impl Resolver {
    /// What the resolver goes by.
    pub open spec fn world(&self) -> World {
        World { options: self.input_options@, pkgs: self.cache@, files: self.files.deep_view() }
    }

    /// A resolver that knows nothing of the disk yet.
    pub fn new(input_options: InputOptions) -> (r: Resolver)
        ensures
            r.world() == (World {
                options: input_options@,
                pkgs: Seq::empty(),
                files: Seq::empty(),
            }),
    {
        let r = Resolver { input_options, cache: PackageCache { pkgs: Vec::new() }, files: Vec::new() };
        assert(r.cache@ =~= Seq::empty());
        assert(r.files.deep_view() =~= Seq::empty());
        r
    }

    /// Takes down whether `path` is a file. What is known of it already
    /// stays.
    pub fn note_file(&mut self, path: &str, is_file: bool)
        ensures
            final(self).input_options == old(self).input_options,
            final(self).cache == old(self).cache,
            crate::resolver::is_file(old(self).world().files, path@).is_some()
                ==> final(self).world().files == old(self).world().files,
            crate::resolver::is_file(old(self).world().files, path@).is_none()
                ==> final(self).world().files == old(self).world().files.push(
                FileFactView { path: path@, is_file },
            ),
    {
        if self.file_fact(path).is_none() {
            let ghost before = self.files.deep_view();
            self.files.push(FileFact { path: path.to_owned(), is_file });
            assert(self.files.deep_view() =~= before.push(FileFactView { path: path@, is_file }));
        }
    }

    /// Takes down what the manifest files of `dir` hold; see
    /// `PackageCache::load`.
    pub fn note_manifests(&mut self, dir: &str, texts: &Vec<Option<String>>)
        ensures
            final(self).input_options == old(self).input_options,
            final(self).files == old(self).files,
            known(old(self).cache@, dir@).is_some() ==> final(self).cache@ == old(self).cache@,
            known(old(self).cache@, dir@).is_none() ==> final(self).cache@ == old(self).cache@.push(
                ManifestView {
                    dir: dir@,
                    info: crate::manifest::first_manifest(
                        crate::manifest::texts_view(texts@),
                        dir@,
                        old(self).input_options.package_manager,
                        0,
                    ),
                },
            ),
    {
        let pm = self.input_options.package_manager;
        self.cache.load(dir, texts, pm);
    }

    /// Whether `path` is a file, as far as it is known.
    pub fn file_fact(&self, path: &str) -> (r: Option<bool>)
        ensures
            r == crate::resolver::is_file(self.world().files, path@),
    {
        let mut i: usize = 0;
        let ghost files = self.files.deep_view();
        while i < self.files.len()
            invariant
                i <= self.files@.len(),
                files == self.files.deep_view(),
                files.len() == self.files@.len(),
                fact_from(files, path@, i as nat) == fact_from(files, path@, 0),
            decreases self.files@.len() - i,
        {
            assert(files[i as int] == self.files@[i as int]@);
            if path_eq(self.files[i].path.as_str(), path) {
                return Some(self.files[i].is_file);
            }
            i += 1;
        }
        None
    }

    /// Whether the specifier `name` asks for a directory.
    pub fn needs_dir(name: &str) -> (r: bool)
        ensures
            r == asks_for_dir(name@),
    {
        let n = chars_of(name);
        (n.len() > 0 && n[n.len() - 1] == '/') || path_ends_in_dots(name)
    }

    /// What `path` comes to in the package `package_info`.
    pub fn check_path(&self, package_info: Option<&PackageInfo>, path: &str) -> (r: Step<
        PathSubstitution,
    >)
        ensures
            match checked(self.world(), info_view(package_info), path@) {
                Answer::Ask(q) => r matches Step::Ask(x) && x@ == q,
                Answer::Done(v) => r matches Step::Done(x) && x@ == v,
            },
    {
        match package_info {
            Some(info) => {
                match info.browser_substitutions.get(path) {
                    Some(BrowserSubstitution::Ignore) => {
                        return Step::Done(PathSubstitution::Ignore);
                    },
                    Some(BrowserSubstitution::Replace(p)) => {
                        return Step::Done(PathSubstitution::Replace(p.clone()));
                    },
                    None => {},
                }
            },
            None => {},
        }
        match self.file_fact(path) {
            Some(true) => Step::Done(PathSubstitution::Normal),
            Some(false) => Step::Done(PathSubstitution::Missing),
            None => Step::Ask(Query::IsFile(path.to_owned())),
        }
    }

    fn probe(&self, package_info: Option<&PackageInfo>, path: &str) -> (r: Step<Option<Resolved>>)
        ensures
            probe_is(r, crate::resolver::probe(self.world(), info_view(package_info), path@)),
    {
        match self.check_path(package_info, path) {
            Step::Done(PathSubstitution::Normal) => Step::Done(
                Some(Resolved::Normal(path.to_owned())),
            ),
            Step::Done(PathSubstitution::Ignore) => Step::Done(Some(Resolved::Ignore)),
            Step::Done(PathSubstitution::Replace(p)) => Step::Done(Some(Resolved::Normal(p))),
            Step::Done(PathSubstitution::Missing) => Step::Done(None),
            Step::Ask(q) => Step::Ask(q),
        }
    }

    fn probe_index(&self, package_info: Option<&PackageInfo>, path: String) -> (r: Step<
        Option<Resolved>,
    >)
        ensures
            probe_is(
                r,
                probe_all(self.world(), info_view(package_info), index_candidates(path@), 0),
            ),
    {
        proof {
            reveal_with_fuel(probe_all, 5);
        }
        let mut path = path;
        push(&mut path, "index.mjs");
        match self.probe(package_info, path.as_str()) {
            Step::Done(None) => {},
            other => {
                return other;
            },
        }
        pop(&mut path);
        push(&mut path, "index.js");
        match self.probe(package_info, path.as_str()) {
            Step::Done(None) => {},
            other => {
                return other;
            },
        }
        pop(&mut path);
        push(&mut path, "index.json");
        self.probe(package_info, path.as_str())
    }

    fn probe_files(
        &self,
        package_info: Option<&PackageInfo>,
        context: Option<&str>,
        path: &mut String,
    ) -> (r: Step<Result<Option<Resolved>, CliError>>)
        ensures
            found_is(
                r,
                search_files(self.world(), info_view(package_info), opt_view(context), old(path)@),
            ),
            r matches Step::Done(Ok(None)) ==> final(path)@ == restored(old(path)@),
    {
        proof {
            reveal_with_fuel(probe_all, 5);
        }
        match self.probe(package_info, path.as_str()) {
            Step::Done(None) => {},
            Step::Done(Some(r)) => {
                return Step::Done(Ok(Some(r)));
            },
            Step::Ask(q) => {
                return Step::Ask(q);
            },
        }
        let file_name = match path_file_name(path.as_str()) {
            Some(n) => n,
            None => {
                return Step::Done(
                    Err(
                        CliError::RequireRoot {
                            context: match context {
                                Some(c) => Some(c.to_owned()),
                                None => None,
                            },
                            path: path.clone(),
                        },
                    ),
                );
            },
        };
        let mut new_file_name = file_name.clone();
        new_file_name.append(".mjs");
        set_file_name(path, new_file_name.as_str());
        match self.probe(package_info, path.as_str()) {
            Step::Done(None) => {},
            Step::Done(Some(r)) => {
                return Step::Done(Ok(Some(r)));
            },
            Step::Ask(q) => {
                return Step::Ask(q);
            },
        }
        let mut new_file_name = file_name.clone();
        new_file_name.append(".js");
        set_file_name(path, new_file_name.as_str());
        match self.probe(package_info, path.as_str()) {
            Step::Done(None) => {},
            Step::Done(Some(r)) => {
                return Step::Done(Ok(Some(r)));
            },
            Step::Ask(q) => {
                return Step::Ask(q);
            },
        }
        let mut new_file_name = file_name.clone();
        new_file_name.append(".json");
        set_file_name(path, new_file_name.as_str());
        match self.probe(package_info, path.as_str()) {
            Step::Done(None) => {},
            Step::Done(Some(r)) => {
                return Step::Done(Ok(Some(r)));
            },
            Step::Ask(q) => {
                return Step::Ask(q);
            },
        }
        set_file_name(path, file_name.as_str());
        Step::Done(Ok(None))
    }

    /// What `path` resolves to, as a file or as a package. A directory alone
    /// is looked for where `needs_dir` is set; no manifest is read where
    /// `package` is set, which is the case for the main file of a package.
    pub fn resolve_path_or_module(
        &self,
        context: Option<&str>,
        path: String,
        needs_dir: bool,
        package: bool,
    ) -> (r: Step<Result<Option<Resolved>, CliError>>)
        ensures
            found_is(r, resolve_at(self.world(), opt_view(context), path@, needs_dir, package)),
        decreases
                (if package {
                    0nat
                } else {
                    1nat
                }),
    {
        let mut path = path;
        let package_info = match self.cache.nearest_package_info(
            path.as_str(),
            self.input_options.package_manager,
        ) {
            Step::Ask(q) => {
                return Step::Ask(q);
            },
            Step::Done(i) => i,
        };
        if !needs_dir {
            match self.probe_files(package_info, context, &mut path) {
                Step::Done(Ok(None)) => {},
                other => {
                    return other;
                },
            }
        }
        if !package {
            match self.cache.package_info(path.as_str()) {
                Step::Ask(q) => {
                    return Step::Ask(q);
                },
                Step::Done(Some(info)) => {
                    let main = info.main.clone();
                    return self.resolve_path_or_module(context, main, false, true);
                },
                Step::Done(None) => {},
            }
        }
        match self.probe_index(package_info, path) {
            Step::Done(r) => Step::Done(Ok(r)),
            Step::Ask(q) => Step::Ask(q),
        }
    }
}

impl Resolver {
    /// What stands in the place of the module that `name` begins with.
    pub fn module_substitution(&self, context: &str, name: &str) -> (r: Step<ModuleSubstitution>)
        ensures
            match crate::resolver::module_substitution(self.world(), context@, name@) {
                Answer::Ask(q) => r matches Step::Ask(x) && x@ == q,
                Answer::Done(v) => r matches Step::Done(x) && x@ == v,
            },
    {
        let n = chars_of(name);
        let mut k: usize = 0;
        while k < n.len() && n[k] != '/'
            invariant
                k <= n@.len(),
                head_len(n@, k as nat) == head_len(n@, 0),
            decreases n@.len() - k,
        {
            k += 1;
        }
        let mut module_name = String::new();
        push_range(&mut module_name, &n, 0, k);
        assert(module_name@ =~= head(name@));
        if self.input_options.is_external(module_name.as_str()) {
            return Step::Done(ModuleSubstitution::External);
        }
        match path_parent(context) {
            Some(p) => {
                match self.cache.nearest_package_info(
                    p.as_str(),
                    self.input_options.package_manager,
                ) {
                    Step::Ask(q) => Step::Ask(q),
                    Step::Done(Some(info)) => {
                        match info.browser_substitutions.get(module_name.as_str()) {
                            Some(BrowserSubstitution::Ignore) => Step::Done(
                                ModuleSubstitution::Ignore,
                            ),
                            Some(BrowserSubstitution::Replace(to)) => {
                                let mut new_name = to.clone();
                                push_range(&mut new_name, &n, k, n.len());
                                assert(new_name@ =~= to@ + tail(name@));
                                Step::Done(ModuleSubstitution::Replace(new_name))
                            },
                            None => Step::Done(ModuleSubstitution::Normal),
                        }
                    },
                    Step::Done(None) => Step::Done(ModuleSubstitution::Normal),
                }
            },
            None => Step::Done(ModuleSubstitution::Normal),
        }
    }

    fn store_path(&self, name: &str) -> (r: String)
        ensures
            r@ == crate::resolver::store_path(self.input_options.package_manager, name@),
    {
        let mut suffix = self.input_options.package_manager.dir().to_owned();
        let cs = components(name);
        let mut k: usize = 0;
        while k < cs.len()
            invariant
                k <= cs@.len(),
                cs.deep_view() == comps(name@),
                cs.deep_view().len() == cs@.len(),
                suffix@ == push_comps(
                    self.input_options.package_manager.dir_name(),
                    comps(name@),
                    k as nat,
                ),
            decreases cs@.len() - k,
        {
            assert(cs.deep_view()[k as int] == cs@[k as int]@);
            push(&mut suffix, cs[k].text.as_str());
            k += 1;
        }
        suffix
    }

    fn climb(&self, context: &str, name: &str) -> (r: Step<Result<Resolved, CliError>>)
        ensures
            outcome_is(r, crate::resolver::climb(self.world(), context@, name@, context@)),
    {
        let needs_dir = Resolver::needs_dir(name);
        let suffix = self.store_path(name);
        let mut dir = context.to_owned();
        loop
            invariant
                needs_dir == asks_for_dir(name@),
                suffix@ == crate::resolver::store_path(self.input_options.package_manager, name@),
                crate::resolver::climb(self.world(), context@, name@, dir@) == crate::resolver::climb(
                    self.world(),
                    context@,
                    name@,
                    context@,
                ),
            decreases dir@.len(),
        {
            if !pop(&mut dir) {
                return Step::Done(
                    Err(CliError::ModuleNotFound { context: context.to_owned(), name: name.to_owned() }),
                );
            }
            let passed = match path_file_name(dir.as_str()) {
                Some(s) => str_eq(s.as_str(), self.input_options.package_manager.dir()),
                None => false,
            };
            if !passed {
                let mut new_path = dir.clone();
                push(&mut new_path, suffix.as_str());
                match self.resolve_path_or_module(Some(context), new_path, needs_dir, false) {
                    Step::Ask(q) => {
                        return Step::Ask(q);
                    },
                    Step::Done(Err(e)) => {
                        return Step::Done(Err(e));
                    },
                    Step::Done(Ok(Some(r))) => {
                        return Step::Done(Ok(r));
                    },
                    Step::Done(Ok(None)) => {},
                }
            }
        }
    }

    fn or_not_found(
        found: Step<Result<Option<Resolved>, CliError>>,
        context: &str,
        name: &str,
    ) -> (r: Step<Result<Resolved, CliError>>)
        ensures
            forall|f: Found| found_is(found, f) ==> outcome_is(r, or_else(f, not_found(context@, name@))),
    {
        match found {
            Step::Ask(q) => Step::Ask(q),
            Step::Done(Ok(Some(r))) => Step::Done(Ok(r)),
            Step::Done(Ok(None)) => Step::Done(
                Err(CliError::ModuleNotFound { context: context.to_owned(), name: name.to_owned() }),
            ),
            Step::Done(Err(e)) => Step::Done(Err(e)),
        }
    }

    fn resolve_in(&self, context: &str, name: &str, fuel: usize) -> (r: Step<
        Result<Resolved, CliError>,
    >)
        ensures
            outcome_is(r, crate::resolver::resolve_in(self.world(), context@, name@, fuel as nat)),
        decreases fuel,
    {
        if name.unicode_len() == 0 {
            return Step::Done(Err(CliError::EmptyModuleName { context: context.to_owned() }));
        }
        let needs_dir = Resolver::needs_dir(name);
        if path_is_absolute(name) {
            let found = self.resolve_path_or_module(Some(context), name.to_owned(), needs_dir, false);
            Resolver::or_not_found(found, context, name)
        } else if path_is_explicitly_relative(name) {
            let mut dir = context.to_owned();
            pop(&mut dir);
            append_resolving(&mut dir, name);
            let found = self.resolve_path_or_module(Some(context), dir, needs_dir, false);
            Resolver::or_not_found(found, context, name)
        } else {
            match self.module_substitution(context, name) {
                Step::Ask(q) => Step::Ask(q),
                Step::Done(ModuleSubstitution::Ignore) => Step::Done(Ok(Resolved::Ignore)),
                Step::Done(ModuleSubstitution::External) => Step::Done(Ok(Resolved::External)),
                Step::Done(ModuleSubstitution::Replace(new_name)) => {
                    if fuel == 0 {
                        Step::Done(
                            Err(
                                CliError::ModuleNotFound {
                                    context: context.to_owned(),
                                    name: name.to_owned(),
                                },
                            ),
                        )
                    } else {
                        self.resolve_in(context, new_name.as_str(), fuel - 1)
                    }
                },
                Step::Done(ModuleSubstitution::Normal) => self.climb(context, name),
            }
        }
    }

    fn replacements(&self, context: &str) -> (n: usize)
        ensures
            n == crate::resolver::replacements(self.world(), context@),
    {
        match path_parent(context) {
            Some(p) => {
                match self.cache.nearest_package_info(
                    p.as_str(),
                    self.input_options.package_manager,
                ) {
                    Step::Done(Some(info)) => info.browser_substitutions.0.len(),
                    _ => 0,
                }
            },
            None => 0,
        }
    }

    /// Resolves the specifier `name` that stands in the file `context`, as
    /// far as the disk is known: the result, or the question to answer
    /// first.
    pub fn resolve(&self, context: &str, name: &str) -> (r: Step<Result<Resolved, CliError>>)
        ensures
            outcome_is(r, crate::resolver::resolve(self.world(), context@, name@)),
    {
        let fuel = self.replacements(context);
        self.resolve_in(context, name, fuel)
    }

    /// Resolves the main module `name`, given in the directory `dir`, as
    /// far as the disk is known.
    pub fn resolve_main(&self, dir: String, name: &str) -> (r: Step<Result<Resolved, CliError>>)
        ensures
            outcome_is(r, crate::resolver::resolve_main(self.world(), dir@, name@)),
    {
        let mut dir = dir;
        append_resolving(&mut dir, name);
        let needs_dir = Resolver::needs_dir(name);
        match self.resolve_path_or_module(None, dir, needs_dir, false) {
            Step::Ask(q) => Step::Ask(q),
            Step::Done(Ok(Some(r))) => Step::Done(Ok(r)),
            Step::Done(Ok(None)) => Step::Done(Err(CliError::MainNotFound { name: name.to_owned() })),
            Step::Done(Err(e)) => Step::Done(Err(e)),
        }
    }
}

/// The first of the given paths, from index `i` on, that is known to be a
/// file.
pub open spec fn first_file(files: Seq<FileFactView>, paths: Seq<Seq<char>>, i: nat) -> Option<
    Seq<char>,
>
    decreases paths.len() - i,
{
    if i >= paths.len() {
        None
    } else if is_file(files, paths[i as int]) == Some(true) {
        Some(paths[i as int])
    } else {
        first_file(files, paths, i + 1)
    }
}

/// The seven places at which a path is looked for, in the order in which
/// they are tried.
pub open spec fn candidates(path: Seq<char>) -> Seq<Seq<char>> {
    file_candidates(path) + index_candidates(restored(path))
}

/// A resolution that may be missing, as the file that it names.
pub open spec fn as_file(p: Option<Seq<char>>) -> Option<ResolvedView> {
    match p {
        Some(q) => Some(ResolvedView::Normal(q)),
        None => None,
    }
}

/// Whether a substitution of the package puts the file `p` in the place of
/// another.
pub open spec fn replaces_with(info: Option<PackageInfoView>, p: Seq<char>) -> bool {
    info matches Some(x) && exists|k: int|
        0 <= k < x.browser_substitutions.len() && (#[trigger] x.browser_substitutions[k]).to
            == BrowserSubstitutionView::Replace(p)
}

/// Whether a manifest that was read names `p` as the file that takes the
/// place of another. Such a file is handed out as it is named: the disk is
/// not asked about it.
pub open spec fn is_target(w: World, p: Seq<char>) -> bool {
    exists|j: int| 0 <= j < w.pkgs.len() && replaces_with((#[trigger] w.pkgs[j]).info, p)
}

/// A substitution that is found for a path is one of those listed.
pub proof fn lemma_substitution_listed(subs: Seq<SubstView>, path: Seq<char>, k: nat)
    requires
        k <= subs.len(),
    ensures
        crate::manifest::substitution_upto(subs, path, k) matches Some(x) ==> exists|e: int|
            0 <= e < k && (#[trigger] subs[e]).to == x,
    decreases k,
{
    if k > 0 && !same_path(subs[k - 1].from, path) {
        lemma_substitution_listed(subs, path, (k - 1) as nat);
    }
}

/// A package among those that were read puts no file in the place of
/// another that no manifest names so.
pub proof fn lemma_not_replaced(w: World, info: Option<PackageInfoView>, p: Seq<char>)
    requires
        !is_target(w, p),
        info matches Some(x) ==> exists|j: int|
            0 <= j < w.pkgs.len() && (#[trigger] w.pkgs[j]).info == Some(x),
    ensures
        !replaces_with(info, p),
{
    if let Some(x) = info {
        let j = choose|j: int| 0 <= j < w.pkgs.len() && (#[trigger] w.pkgs[j]).info == Some(x);
        assert(!replaces_with(w.pkgs[j].info, p));
    }
}

/// What probing one path finds, where it does not take the place of
/// another, is that path, and a file.
pub proof fn lemma_probe_is_file(
    w: World,
    info: Option<PackageInfoView>,
    path: Seq<char>,
    p: Seq<char>,
)
    requires
        !replaces_with(info, p),
        probe(w, info, path) == Answer::Done(Some(ResolvedView::Normal(p))),
    ensures
        p == path,
        is_file(w.files, p) == Some(true),
{
    if let Some(x) = info {
        lemma_substitution_listed(x.browser_substitutions, path, x.browser_substitutions.len());
    }
}

/// Probing in a package without substitutions finds the first file.
pub proof fn lemma_probe_all_plain(
    w: World,
    info: Option<PackageInfoView>,
    paths: Seq<Seq<char>>,
    i: nat,
)
    requires
        info matches Some(x) ==> x.browser_substitutions.len() == 0,
        forall|k: int| i <= k < paths.len() ==> is_file(w.files, #[trigger] paths[k]).is_some(),
    ensures
        probe_all(w, info, paths, i) == Answer::Done(as_file(first_file(w.files, paths, i))),
    decreases paths.len() - i,
{
    if i < paths.len() {
        assert(is_file(w.files, paths[i as int]).is_some());
        lemma_probe_all_plain(w, info, paths, i + 1);
    }
}

/// The order of resolution. Where `path` lies in no package and holds no
/// manifest, and it is known of each of its seven candidates whether it is
/// a file, the path resolves to the first of them that is one: the path
/// itself; the path with `.mjs`, `.js` or `.json` added; `index.mjs`,
/// `index.js` or `index.json` in it. It resolves to nothing if none is a
/// file.
pub proof fn lemma_resolution_order(w: World, context: Option<Seq<char>>, path: Seq<char>)
    requires
        nearest(w.pkgs, path, w.options.package_manager) == Answer::Done(
            None::<PackageInfoView>,
        ),
        known(w.pkgs, restored(path)) == Some(None::<PackageInfoView>),
        file_name(path).is_some(),
        forall|k: int|
            0 <= k < candidates(path).len() ==> is_file(w.files, #[trigger] candidates(path)[k]).is_some(),
    ensures
        resolve_at(w, context, path, false, false) == Answer::<
            Result<Option<ResolvedView>, CliErrorView>,
        >::Done(Ok(as_file(first_file(w.files, candidates(path), 0)))),
{
    let cs = candidates(path);
    let fs = file_candidates(path);
    let is = index_candidates(restored(path));
    assert(cs.len() == 7);
    assert forall|k: int| 0 <= k < fs.len() implies is_file(w.files, #[trigger] fs[k]).is_some() by {
        assert(cs[k] == fs[k]);
    }
    assert forall|k: int| 0 <= k < is.len() implies is_file(w.files, #[trigger] is[k]).is_some() by {
        assert(cs[k + 4] == is[k]);
    }
    lemma_probe_all_plain(w, None, fs, 0);
    lemma_probe_all_plain(w, None, fs, 1);
    lemma_probe_all_plain(w, None, is, 0);
    lemma_first_file_concat(w.files, fs, is, 0);
    assert(fs[0] == path);
}

/// The first file of two lists in a row is that of the first list, or else
/// that of the second.
pub proof fn lemma_first_file_concat(
    files: Seq<FileFactView>,
    a: Seq<Seq<char>>,
    b: Seq<Seq<char>>,
    i: nat,
)
    requires
        i <= a.len(),
    ensures
        first_file(files, a + b, i) == match first_file(files, a, i) {
            Some(p) => Some(p),
            None => first_file(files, b, 0),
        },
    decreases a.len() - i,
{
    if i < a.len() {
        assert((a + b)[i as int] == a[i as int]);
        lemma_first_file_concat(files, a, b, i + 1);
    } else {
        lemma_first_file_shift(files, a, b, 0);
    }
}

/// The first file of the second of two lists in a row.
pub proof fn lemma_first_file_shift(
    files: Seq<FileFactView>,
    a: Seq<Seq<char>>,
    b: Seq<Seq<char>>,
    k: nat,
)
    requires
        k <= b.len(),
    ensures
        first_file(files, a + b, a.len() + k) == first_file(files, b, k),
    decreases b.len() - k,
{
    if k < b.len() {
        assert((a + b)[a.len() as int + k as int] == b[k as int]);
        lemma_first_file_shift(files, a, b, k + 1);
    }
}

/// What probing finds, where it does not take the place of another, is a
/// file.
pub proof fn lemma_probe_all_is_file(
    w: World,
    info: Option<PackageInfoView>,
    paths: Seq<Seq<char>>,
    i: nat,
    p: Seq<char>,
)
    requires
        !replaces_with(info, p),
        probe_all(w, info, paths, i) == Answer::Done(Some(ResolvedView::Normal(p))),
    ensures
        is_file(w.files, p) == Some(true),
    decreases paths.len() - i,
{
    if i < paths.len() {
        match probe(w, info, paths[i as int]) {
            Answer::Done(None) => {
                lemma_probe_all_is_file(w, info, paths, i + 1, p);
            },
            _ => {
                lemma_probe_is_file(w, info, paths[i as int], p);
            },
        }
    }
}

/// Every path that resolution gives is a file. A path that is the result
/// of looking for a file or a package is known to be a file, unless it is
/// one that a manifest puts in the place of another.
pub proof fn lemma_resolved_is_file(
    w: World,
    context: Option<Seq<char>>,
    path: Seq<char>,
    needs_dir: bool,
    package: bool,
    p: Seq<char>,
)
    requires
        !is_target(w, p),
        resolve_at(w, context, path, needs_dir, package) == Answer::<
            Result<Option<ResolvedView>, CliErrorView>,
        >::Done(Ok(Some(ResolvedView::Normal(p)))),
    ensures
        is_file(w.files, p) == Some(true),
    decreases
            (if package {
                0nat
            } else {
                1nat
            }),
{
    lemma_nearest_is_known(w.pkgs, path, w.options.package_manager);
    match nearest(w.pkgs, path, w.options.package_manager) {
        Answer::Ask(q) => {},
        Answer::Done(info) => {
            lemma_not_replaced(w, info, p);
            let files = if needs_dir {
                Answer::Done(Ok(None))
            } else {
                search_files(w, info, context, path)
            };
            match files {
                Answer::Done(Ok(None)) => {
                    let dir = if needs_dir {
                        path
                    } else {
                        restored(path)
                    };
                    if package {
                        lemma_probe_all_is_file(w, info, index_candidates(dir), 0, p);
                    } else {
                        match known(w.pkgs, dir) {
                            None => {},
                            Some(Some(pkg)) => {
                                lemma_resolved_is_file(w, context, pkg.main, false, true, p);
                            },
                            Some(None) => {
                                lemma_probe_all_is_file(w, info, index_candidates(dir), 0, p);
                            },
                        }
                    }
                },
                _ => {
                    match probe(w, info, path) {
                        Answer::Done(None) => {
                            if file_name(path).is_some() {
                                lemma_probe_all_is_file(w, info, file_candidates(path), 1, p);
                            }
                        },
                        _ => {
                            lemma_probe_is_file(w, info, path, p);
                        },
                    }
                },
            }
        },
    }
}

/// Every path that the search among the installed packages gives is a
/// file, unless it is one that a manifest puts in the place of another.
pub proof fn lemma_climb_is_file(
    w: World,
    context: Seq<char>,
    name: Seq<char>,
    dir: Seq<char>,
    p: Seq<char>,
)
    requires
        !is_target(w, p),
        climb(w, context, name, dir) == Answer::<Result<ResolvedView, CliErrorView>>::Done(
            Ok(ResolvedView::Normal(p)),
        ),
    ensures
        is_file(w.files, p) == Some(true),
    decreases dir.len(),
{
    match parent(dir) {
        None => {},
        Some(q) => {
            if q.len() >= dir.len() {
            } else if file_name(q) == Some(w.options.package_manager.dir_name()) {
                lemma_climb_is_file(w, context, name, q, p);
            } else {
                let at = pushed(q, store_path(w.options.package_manager, name));
                match resolve_at(w, Some(context), at, asks_for_dir(name), false) {
                    Answer::Done(Ok(Some(r))) => {
                        lemma_resolved_is_file(w, Some(context), at, asks_for_dir(name), false, p);
                    },
                    Answer::Done(Ok(None)) => {
                        lemma_climb_is_file(w, context, name, q, p);
                    },
                    _ => {},
                }
            }
        },
    }
}

/// Every path that resolving a specifier gives is a file: a path that a
/// specifier resolves to is known to be a file, unless it is one that a
/// manifest puts in the place of another.
pub proof fn lemma_resolve_is_file(w: World, context: Seq<char>, name: Seq<char>, p: Seq<char>)
    requires
        !is_target(w, p),
        resolve(w, context, name) == Answer::<Result<ResolvedView, CliErrorView>>::Done(
            Ok(ResolvedView::Normal(p)),
        ),
    ensures
        is_file(w.files, p) == Some(true),
{
    lemma_resolve_in_is_file(w, context, name, replacements(w, context), p);
}

/// Every path that resolving a specifier gives is a file, unless a
/// manifest puts it in the place of another, whatever the number of
/// replacements that are followed.
pub proof fn lemma_resolve_in_is_file(
    w: World,
    context: Seq<char>,
    name: Seq<char>,
    fuel: nat,
    p: Seq<char>,
)
    requires
        !is_target(w, p),
        resolve_in(w, context, name, fuel) == Answer::<Result<ResolvedView, CliErrorView>>::Done(
            Ok(ResolvedView::Normal(p)),
        ),
    ensures
        is_file(w.files, p) == Some(true),
    decreases fuel,
{
    if name.len() == 0 {
    } else if is_absolute(name) {
        lemma_resolved_is_file(w, Some(context), name, asks_for_dir(name), false, p);
    } else if is_explicitly_relative(name) {
        lemma_resolved_is_file(
            w,
            Some(context),
            appended(popped(context), name),
            asks_for_dir(name),
            false,
            p,
        );
    } else {
        match module_substitution(w, context, name) {
            Answer::Done(ModuleSubstitutionView::Replace(n)) => {
                if fuel > 0 {
                    lemma_resolve_in_is_file(w, context, n, (fuel - 1) as nat, p);
                }
            },
            Answer::Done(ModuleSubstitutionView::Normal) => {
                lemma_climb_is_file(w, context, name, context, p);
            },
            _ => {},
        }
    }
}

/// Whether two resolvers go by the same options and know nothing of the
/// disk that the other knows otherwise: what they know may have been
/// learned of one disk.
pub open spec fn agree(a: World, b: World) -> bool {
    &&& a.options == b.options
    &&& forall|path: Seq<char>|
        (#[trigger] is_file(a.files, path)).is_some() && is_file(b.files, path).is_some()
            ==> is_file(a.files, path) == is_file(b.files, path)
    &&& forall|dir: Seq<char>|
        (#[trigger] known(a.pkgs, dir)).is_some() && known(b.pkgs, dir).is_some() ==> known(
            a.pkgs,
            dir,
        ) == known(b.pkgs, dir)
}

/// The nearest manifest is the same to two resolvers that agree.
pub proof fn lemma_nearest_agree(a: World, b: World, dir: Seq<char>)
    requires
        agree(a, b),
        nearest(a.pkgs, dir, a.options.package_manager) is Done,
        nearest(b.pkgs, dir, b.options.package_manager) is Done,
    ensures
        nearest(a.pkgs, dir, a.options.package_manager) == nearest(
            b.pkgs,
            dir,
            b.options.package_manager,
        ),
    decreases dir.len(),
{
    let pm = a.options.package_manager;
    let passed = file_name(dir) == Some(pm.dir_name());
    if !passed {
        assert(known(a.pkgs, dir).is_some());
        assert(known(b.pkgs, dir).is_some());
    }
    if !passed && known(a.pkgs, dir).unwrap().is_some() {
    } else {
        match parent(dir) {
            Some(p) => {
                if p.len() < dir.len() {
                    lemma_nearest_agree(a, b, p);
                }
            },
            None => {},
        }
    }
}

/// A probe finds the same for two resolvers that agree.
pub proof fn lemma_probe_agree(a: World, b: World, info: Option<PackageInfoView>, path: Seq<char>)
    requires
        agree(a, b),
        probe(a, info, path) is Done,
        probe(b, info, path) is Done,
    ensures
        probe(a, info, path) == probe(b, info, path),
{
    if substituted(info, path).is_none() {
        assert(is_file(a.files, path).is_some());
        assert(is_file(b.files, path).is_some());
    }
}

/// Probing a list of paths finds the same for two resolvers that agree.
pub proof fn lemma_probe_all_agree(
    a: World,
    b: World,
    info: Option<PackageInfoView>,
    paths: Seq<Seq<char>>,
    i: nat,
)
    requires
        agree(a, b),
        probe_all(a, info, paths, i) is Done,
        probe_all(b, info, paths, i) is Done,
    ensures
        probe_all(a, info, paths, i) == probe_all(b, info, paths, i),
    decreases paths.len() - i,
{
    if i < paths.len() {
        lemma_probe_agree(a, b, info, paths[i as int]);
        match probe(a, info, paths[i as int]) {
            Answer::Done(None) => {
                lemma_probe_all_agree(a, b, info, paths, i + 1);
            },
            _ => {},
        }
    }
}

/// The search for a file or a package finds the same for two resolvers that
/// agree.
pub proof fn lemma_resolve_at_agree(
    a: World,
    b: World,
    context: Option<Seq<char>>,
    path: Seq<char>,
    needs_dir: bool,
    package: bool,
)
    requires
        agree(a, b),
        resolve_at(a, context, path, needs_dir, package) is Done,
        resolve_at(b, context, path, needs_dir, package) is Done,
    ensures
        resolve_at(a, context, path, needs_dir, package) == resolve_at(
            b,
            context,
            path,
            needs_dir,
            package,
        ),
    decreases
            (if package {
                0nat
            } else {
                1nat
            }),
{
    lemma_nearest_agree(a, b, path);
    match nearest(a.pkgs, path, a.options.package_manager) {
        Answer::Ask(_) => {},
        Answer::Done(info) => {
            if !needs_dir {
                lemma_probe_agree(a, b, info, path);
                match probe(a, info, path) {
                    Answer::Done(None) => {
                        if file_name(path).is_some() {
                            lemma_probe_all_agree(a, b, info, file_candidates(path), 1);
                        }
                    },
                    _ => {},
                }
            }
            let files = if needs_dir {
                Answer::Done(Ok(None))
            } else {
                search_files(a, info, context, path)
            };
            match files {
                Answer::Done(Ok(None)) => {
                    let dir = if needs_dir {
                        path
                    } else {
                        restored(path)
                    };
                    if package {
                        lemma_probe_all_agree(a, b, info, index_candidates(dir), 0);
                    } else {
                        assert(known(a.pkgs, dir).is_some());
                        assert(known(b.pkgs, dir).is_some());
                        match known(a.pkgs, dir) {
                            Some(Some(pkg)) => {
                                lemma_resolve_at_agree(a, b, context, pkg.main, false, true);
                            },
                            _ => {
                                lemma_probe_all_agree(a, b, info, index_candidates(dir), 0);
                            },
                        }
                    }
                },
                _ => {},
            }
        },
    }
}

/// The substitution of a module is the same to two resolvers that agree.
pub proof fn lemma_module_substitution_agree(
    a: World,
    b: World,
    context: Seq<char>,
    name: Seq<char>,
)
    requires
        agree(a, b),
        module_substitution(a, context, name) is Done,
        module_substitution(b, context, name) is Done,
    ensures
        module_substitution(a, context, name) == module_substitution(b, context, name),
{
    if !a.options.external.contains(head(name)) {
        match parent(context) {
            Some(p) => {
                lemma_nearest_agree(a, b, p);
            },
            None => {},
        }
    }
}

/// The search among the installed packages finds the same for two
/// resolvers that agree.
pub proof fn lemma_climb_agree(
    a: World,
    b: World,
    context: Seq<char>,
    name: Seq<char>,
    dir: Seq<char>,
)
    requires
        agree(a, b),
        climb(a, context, name, dir) is Done,
        climb(b, context, name, dir) is Done,
    ensures
        climb(a, context, name, dir) == climb(b, context, name, dir),
    decreases dir.len(),
{
    match parent(dir) {
        None => {},
        Some(p) => {
            if p.len() >= dir.len() {
            } else if file_name(p) == Some(a.options.package_manager.dir_name()) {
                lemma_climb_agree(a, b, context, name, p);
            } else {
                let at = pushed(p, store_path(a.options.package_manager, name));
                lemma_resolve_at_agree(a, b, Some(context), at, asks_for_dir(name), false);
                match resolve_at(a, Some(context), at, asks_for_dir(name), false) {
                    Answer::Done(Ok(None)) => {
                        lemma_climb_agree(a, b, context, name, p);
                    },
                    _ => {},
                }
            }
        },
    }
}

/// With the same number of replacements to follow, a specifier resolves
/// alike for two resolvers that agree.
pub proof fn lemma_resolve_in_agree(
    a: World,
    b: World,
    context: Seq<char>,
    name: Seq<char>,
    fuel: nat,
)
    requires
        agree(a, b),
        resolve_in(a, context, name, fuel) is Done,
        resolve_in(b, context, name, fuel) is Done,
    ensures
        resolve_in(a, context, name, fuel) == resolve_in(b, context, name, fuel),
    decreases fuel,
{
    if name.len() == 0 {
    } else if is_absolute(name) {
        lemma_resolve_at_agree(a, b, Some(context), name, asks_for_dir(name), false);
    } else if is_explicitly_relative(name) {
        lemma_resolve_at_agree(
            a,
            b,
            Some(context),
            appended(popped(context), name),
            asks_for_dir(name),
            false,
        );
    } else {
        lemma_module_substitution_agree(a, b, context, name);
        match module_substitution(a, context, name) {
            Answer::Done(ModuleSubstitutionView::Replace(n)) => {
                if fuel > 0 {
                    lemma_resolve_in_agree(a, b, context, n, (fuel - 1) as nat);
                }
            },
            Answer::Done(ModuleSubstitutionView::Normal) => {
                lemma_climb_agree(a, b, context, name, context);
            },
            _ => {},
        }
    }
}

/// Resolution is deterministic. Two resolvers that go by the same options
/// and whose knowledge does not conflict, as when both learned it of the
/// same disk, in whatever order and however much of it, give the same
/// result for a specifier once both give one.
pub proof fn lemma_resolve_agree(a: World, b: World, context: Seq<char>, name: Seq<char>)
    requires
        agree(a, b),
        resolve(a, context, name) is Done,
        resolve(b, context, name) is Done,
    ensures
        resolve(a, context, name) == resolve(b, context, name),
{
    let fa = replacements(a, context);
    let fb = replacements(b, context);
    let pm = a.options.package_manager;
    match parent(context) {
        Some(p) => {
            if nearest(a.pkgs, p, pm) is Done && nearest(b.pkgs, p, pm) is Done {
                lemma_nearest_agree(a, b, p);
                lemma_resolve_in_agree(a, b, context, name, fa);
            } else if nearest(a.pkgs, p, pm) is Done {
                assert(resolve_in(b, context, name, fa) == resolve_in(b, context, name, fb));
                lemma_resolve_in_agree(a, b, context, name, fa);
            } else {
                assert(resolve_in(a, context, name, fb) == resolve_in(a, context, name, fa));
                lemma_resolve_in_agree(a, b, context, name, fb);
            }
        },
        None => {
            lemma_resolve_in_agree(a, b, context, name, fa);
        },
    }
}

/// Whether a path is short enough for every path that is made of it while
/// it is looked for to fit.
pub open spec fn roomy(p: Seq<char>) -> bool {
    8 * p.len() + 128 <= usize::MAX
}

/// Whether the main file of every manifest that was read is an absolute
/// path, and short enough.
pub open spec fn mains_absolute(w: World) -> bool {
    forall|j: int|
        0 <= j < w.pkgs.len() ==> ((#[trigger] w.pkgs[j]).info matches Some(info) ==> is_absolute(
            info.main,
        ) && roomy(info.main))
}

/// The places at which a file is looked for are absolute where the path is.
pub proof fn lemma_file_candidates_absolute(path: Seq<char>)
    requires
        is_absolute(path),
        roomy(path),
        file_name(path).is_some(),
    ensures
        forall|k: int| 0 <= k < 4 ==> is_absolute(#[trigger] file_candidates(path)[k]),
        is_absolute(restored(path)),
        restored(path).len() <= 5 * path.len() + 16,
{
    reveal_strlit(".mjs");
    reveal_strlit(".js");
    reveal_strlit(".json");
    lemma_file_name_len(path);
    let name = file_name(path).unwrap();
    let mjs = with_file_name(path, name + ".mjs"@);
    let js = with_file_name(mjs, name + ".js"@);
    let json = with_file_name(js, name + ".json"@);
    lemma_with_file_name_absolute(path, name + ".mjs"@);
    lemma_with_file_name_absolute(mjs, name + ".js"@);
    lemma_with_file_name_absolute(js, name + ".json"@);
    lemma_with_file_name_absolute(json, name);
}

/// The places at which the index of a directory is looked for are absolute
/// where the directory is.
pub proof fn lemma_index_candidates_absolute(dir: Seq<char>)
    requires
        is_absolute(dir),
        dir.len() + 64 <= usize::MAX,
    ensures
        forall|k: int| 0 <= k < 3 ==> is_absolute(#[trigger] index_candidates(dir)[k]),
{
    reveal_strlit("index.mjs");
    reveal_strlit("index.js");
    reveal_strlit("index.json");
    let mjs = pushed(dir, "index.mjs"@);
    lemma_pushed_absolute(dir, "index.mjs"@);
    lemma_popped_absolute(mjs);
    let js = pushed(popped(mjs), "index.js"@);
    lemma_pushed_absolute(popped(mjs), "index.js"@);
    lemma_popped_absolute(js);
    lemma_pushed_absolute(popped(js), "index.json"@);
}

/// What probing absolute paths finds, where it does not take the place of
/// another, is an absolute path.
pub proof fn lemma_probe_all_absolute(
    w: World,
    info: Option<PackageInfoView>,
    paths: Seq<Seq<char>>,
    i: nat,
    p: Seq<char>,
)
    requires
        !replaces_with(info, p),
        forall|k: int| i <= k < paths.len() ==> is_absolute(#[trigger] paths[k]),
        probe_all(w, info, paths, i) == Answer::Done(Some(ResolvedView::Normal(p))),
    ensures
        is_absolute(p),
    decreases paths.len() - i,
{
    if i < paths.len() {
        assert(is_absolute(paths[i as int]));
        match probe(w, info, paths[i as int]) {
            Answer::Done(None) => {
                lemma_probe_all_absolute(w, info, paths, i + 1, p);
            },
            _ => {
                lemma_probe_is_file(w, info, paths[i as int], p);
            },
        }
    }
}

/// Every path that resolution gives is absolute. Where the main file of
/// every manifest is an absolute path, as it is of every manifest that was
/// read in a directory with an absolute path, the result of looking for a
/// file or a package at an absolute path is an absolute path, unless it is
/// one that a manifest puts in the place of another.
pub proof fn lemma_resolved_is_absolute(
    w: World,
    context: Option<Seq<char>>,
    path: Seq<char>,
    needs_dir: bool,
    package: bool,
    p: Seq<char>,
)
    requires
        !is_target(w, p),
        mains_absolute(w),
        is_absolute(path),
        roomy(path),
        resolve_at(w, context, path, needs_dir, package) == Answer::<
            Result<Option<ResolvedView>, CliErrorView>,
        >::Done(Ok(Some(ResolvedView::Normal(p)))),
    ensures
        is_absolute(p),
    decreases
            (if package {
                0nat
            } else {
                1nat
            }),
{
    lemma_nearest_is_known(w.pkgs, path, w.options.package_manager);
    match nearest(w.pkgs, path, w.options.package_manager) {
        Answer::Ask(q) => {},
        Answer::Done(info) => {
            lemma_not_replaced(w, info, p);
            let files = if needs_dir {
                Answer::Done(Ok(None))
            } else {
                search_files(w, info, context, path)
            };
            if !needs_dir && file_name(path).is_some() {
                lemma_file_candidates_absolute(path);
            }
            match files {
                Answer::Done(Ok(None)) => {
                    let dir = if needs_dir {
                        path
                    } else {
                        restored(path)
                    };
                    lemma_index_candidates_absolute(dir);
                    if package {
                        lemma_probe_all_absolute(w, info, index_candidates(dir), 0, p);
                    } else {
                        match known(w.pkgs, dir) {
                            None => {},
                            Some(Some(pkg)) => {
                                lemma_entry_from(w.pkgs, dir, 0);
                                let j = entry_from(w.pkgs, dir, 0).unwrap();
                                assert(w.pkgs[j].info == Some(pkg));
                                lemma_resolved_is_absolute(w, context, pkg.main, false, true, p);
                            },
                            Some(None) => {
                                lemma_probe_all_absolute(w, info, index_candidates(dir), 0, p);
                            },
                        }
                    }
                },
                _ => {
                    match probe(w, info, path) {
                        Answer::Done(None) => {
                            if file_name(path).is_some() {
                                lemma_probe_all_absolute(w, info, file_candidates(path), 1, p);
                            }
                        },
                        _ => {
                            lemma_probe_is_file(w, info, path, p);
                        },
                    }
                },
            }
        },
    }
}

/// The main module is an absolute path and a file. Where the main files of
/// the manifests are absolute paths, the main module that is given in a
/// directory with an absolute path resolves to an absolute path that is a
/// file, unless to one that a manifest puts in the place of another. The
/// paths are taken to be short enough to be held.
pub proof fn lemma_main_is_absolute(w: World, dir: Seq<char>, name: Seq<char>, p: Seq<char>)
    requires
        !is_target(w, p),
        mains_absolute(w),
        is_absolute(dir),
        name.len() <= usize::MAX,
        dir.len() + parts(name).len() * (name.len() + 1) <= usize::MAX,
        roomy(appended(dir, name)),
        resolve_main(w, dir, name) == Answer::<Result<ResolvedView, CliErrorView>>::Done(
            Ok(ResolvedView::Normal(p)),
        ),
    ensures
        is_absolute(p),
        is_file(w.files, p) == Some(true),
{
    lemma_appended_absolute(dir, name);
    lemma_resolved_is_absolute(w, None, appended(dir, name), asks_for_dir(name), false, p);
    lemma_resolved_is_file(w, None, appended(dir, name), asks_for_dir(name), false, p);
}

/// Components pushed onto a path make it longer by no more than a
/// separator and the length of the path that they are of with each.
pub proof fn lemma_push_comps_len(base: Seq<char>, name: Seq<char>, k: nat)
    requires
        name.len() <= usize::MAX,
        k <= parts(name).len(),
    ensures
        push_comps(base, comps(name), k).len() <= base.len() + k * (name.len() + 1),
    decreases k,
{
    if k > 0 {
        let m = name.len() + 1;
        assert(k * m == (k - 1) * m + m) by (nonlinear_arith);
        lemma_push_comps_len(base, name, (k - 1) as nat);
        lemma_parts_bounds(name);
        assert(comps(name)[k - 1].text.len() <= name.len());
    } else {
        assert(0 * (name.len() + 1) == 0);
    }
}

/// Whether the file and the specifier are short enough for every path
/// that is made of them while the specifier is looked for to be held.
pub open spec fn sized(context: Seq<char>, name: Seq<char>) -> bool {
    &&& name.len() <= usize::MAX
    &&& 8 * (context.len() + 32 + parts(name).len() * (name.len() + 1)) + 128 <= usize::MAX
}

/// Whether the file and the specifier are short enough, and with them
/// every specifier that a manifest puts in the place of the specifier on
/// the way, for at most `fuel` replacements.
pub open spec fn chain_sized(w: World, context: Seq<char>, name: Seq<char>, fuel: nat) -> bool
    decreases fuel,
{
    &&& sized(context, name)
    &&& (fuel > 0 && !is_absolute(name) && !is_explicitly_relative(name) ==> (module_substitution(
        w,
        context,
        name,
    ) matches Answer::Done(ModuleSubstitutionView::Replace(n)) ==> chain_sized(
        w,
        context,
        n,
        (fuel - 1) as nat,
    )))
}

/// Every path that the search among the installed packages gives is
/// absolute, where the search begins in a directory with an absolute path,
/// unless the path is one that a manifest puts in the place of another.
pub proof fn lemma_climb_is_absolute(
    w: World,
    context: Seq<char>,
    name: Seq<char>,
    dir: Seq<char>,
    p: Seq<char>,
)
    requires
        mains_absolute(w),
        !is_target(w, p),
        is_absolute(dir),
        dir.len() <= context.len(),
        sized(context, name),
        climb(w, context, name, dir) == Answer::<Result<ResolvedView, CliErrorView>>::Done(
            Ok(ResolvedView::Normal(p)),
        ),
    ensures
        is_absolute(p),
    decreases dir.len(),
{
    let pm = w.options.package_manager;
    match parent(dir) {
        None => {},
        Some(q) => {
            if q.len() >= dir.len() {
            } else {
                lemma_popped_absolute(dir);
                if file_name(q) == Some(pm.dir_name()) {
                    lemma_climb_is_absolute(w, context, name, q, p);
                } else {
                    let store = store_path(pm, name);
                    let at = pushed(q, store);
                    reveal_strlit("node_modules");
                    reveal_strlit("bower_components");
                    lemma_push_comps_len(pm.dir_name(), name, parts(name).len());
                    lemma_pushed_absolute(q, store);
                    assert(at.len() <= context.len() + 32 + parts(name).len() * (name.len() + 1));
                    match resolve_at(w, Some(context), at, asks_for_dir(name), false) {
                        Answer::Done(Ok(Some(r))) => {
                            lemma_resolved_is_absolute(
                                w,
                                Some(context),
                                at,
                                asks_for_dir(name),
                                false,
                                p,
                            );
                        },
                        Answer::Done(Ok(None)) => {
                            lemma_climb_is_absolute(w, context, name, q, p);
                        },
                        _ => {},
                    }
                }
            }
        },
    }
}

/// Every path that resolving a specifier gives is absolute, whatever the
/// number of replacements that are followed.
pub proof fn lemma_resolve_in_is_absolute(
    w: World,
    context: Seq<char>,
    name: Seq<char>,
    fuel: nat,
    p: Seq<char>,
)
    requires
        mains_absolute(w),
        !is_target(w, p),
        is_absolute(context),
        chain_sized(w, context, name, fuel),
        resolve_in(w, context, name, fuel) == Answer::<Result<ResolvedView, CliErrorView>>::Done(
            Ok(ResolvedView::Normal(p)),
        ),
    ensures
        is_absolute(p),
    decreases fuel,
{
    let m = name.len() + 1;
    let n = parts(name).len();
    if name.len() == 0 {
    } else if is_absolute(name) {
        assert(n >= 1);
        assert(n * m >= m) by (nonlinear_arith)
            requires
                n >= 1,
                m >= 0,
        ;
        lemma_resolved_is_absolute(w, Some(context), name, asks_for_dir(name), false, p);
    } else if is_explicitly_relative(name) {
        assert(n * m >= 0) by (nonlinear_arith)
            requires
                n >= 0,
                m >= 0,
        ;
        lemma_popped_absolute(context);
        lemma_appended_absolute(popped(context), name);
        lemma_resolved_is_absolute(
            w,
            Some(context),
            appended(popped(context), name),
            asks_for_dir(name),
            false,
            p,
        );
    } else {
        match module_substitution(w, context, name) {
            Answer::Done(ModuleSubstitutionView::Replace(to)) => {
                if fuel > 0 {
                    lemma_resolve_in_is_absolute(w, context, to, (fuel - 1) as nat, p);
                }
            },
            Answer::Done(ModuleSubstitutionView::Normal) => {
                lemma_climb_is_absolute(w, context, name, context, p);
            },
            _ => {},
        }
    }
}

/// Every path that resolving a specifier gives is absolute. Where the
/// file that holds the specifier has an absolute path, and the main files
/// of the manifests have, a path that the specifier resolves to is
/// absolute; where a manifest puts it in the place of another, it is as
/// the manifest has it. The paths are taken to be short enough to be held.
pub proof fn lemma_resolve_is_absolute(w: World, context: Seq<char>, name: Seq<char>, p: Seq<char>)
    requires
        mains_absolute(w),
        is_target(w, p) ==> is_absolute(p),
        is_absolute(context),
        chain_sized(w, context, name, replacements(w, context)),
        resolve(w, context, name) == Answer::<Result<ResolvedView, CliErrorView>>::Done(
            Ok(ResolvedView::Normal(p)),
        ),
    ensures
        is_absolute(p),
{
    if !is_target(w, p) {
        lemma_resolve_in_is_absolute(w, context, name, replacements(w, context), p);
    }
}

} // verus!
