//! What the user chose for a build.

use vstd::prelude::*;
use crate::text::str_eq;

verus! {

/// The package manager whose layout is resolved against.
#[derive(Debug, Copy, Clone, PartialEq, Eq, Structural)]
pub enum PackageManager {
    Bower,
    Npm,
}

impl PackageManager {
    /// The name of the directory that holds installed packages.
    pub open spec fn dir_name(self) -> Seq<char> {
        match self {
            PackageManager::Bower => "bower_components"@,
            PackageManager::Npm => "node_modules"@,
        }
    }

    /// The names of the manifest files, the preferred one first.
    pub open spec fn file_names(self) -> Seq<Seq<char>> {
        match self {
            PackageManager::Bower => seq![".bower.json"@, "bower.json"@],
            PackageManager::Npm => seq!["package.json"@],
        }
    }

    /// The name of the directory that holds installed packages.
    pub fn dir(&self) -> (s: &'static str)
        ensures
            s@ == self.dir_name(),
    {
        match self {
            PackageManager::Bower => "bower_components",
            PackageManager::Npm => "node_modules",
        }
    }

    /// The names of the manifest files, the preferred one first.
    pub fn files(&self) -> (v: Vec<&'static str>)
        ensures
            v@.len() == self.file_names().len(),
            forall|i: int| 0 <= i < v@.len() ==> (#[trigger] v@[i])@ == self.file_names()[i],
    {
        let mut v: Vec<&'static str> = Vec::new();
        match self {
            PackageManager::Bower => {
                v.push(".bower.json");
                v.push("bower.json");
            },
            PackageManager::Npm => {
                v.push("package.json");
            },
        }
        v
    }
}

impl Default for PackageManager {
    fn default() -> (p: PackageManager)
        ensures
            p == PackageManager::Npm,
    {
        PackageManager::Npm
    }
}

/// The options of a build.
#[derive(Debug, Clone, PartialEq, Eq)]
pub struct InputOptions {
    pub package_manager: PackageManager,
    /// Whether the ECMAScript module syntax was asked for.
    pub es6_syntax: bool,
    /// Whether every file is read as an ECMAScript module, not those named
    /// `.mjs` alone.
    pub es6_syntax_everywhere: bool,
    /// The modules that are left as references, each once.
    pub external: Vec<String>,
}

pub struct InputOptionsView {
    pub package_manager: PackageManager,
    pub es6_syntax: bool,
    pub es6_syntax_everywhere: bool,
    pub external: Seq<Seq<char>>,
}

impl View for InputOptions {
    type V = InputOptionsView;

    open spec fn view(&self) -> InputOptionsView {
        InputOptionsView {
            package_manager: self.package_manager,
            es6_syntax: self.es6_syntax,
            es6_syntax_everywhere: self.es6_syntax_everywhere,
            external: self.external.deep_view(),
        }
    }
}

impl Default for InputOptions {
    fn default() -> (o: InputOptions)
        ensures
            o@ == (InputOptionsView {
                package_manager: PackageManager::Npm,
                es6_syntax: false,
                es6_syntax_everywhere: false,
                external: Seq::empty(),
            }),
    {
        let o = InputOptions {
            package_manager: PackageManager::Npm,
            es6_syntax: false,
            es6_syntax_everywhere: false,
            external: Vec::new(),
        };
        assert(o.external.deep_view() =~= Seq::<Seq<char>>::empty());
        o
    }
}

impl InputOptions {
    /// Whether the module `name` is to be left as a reference.
    pub fn is_external(&self, name: &str) -> (r: bool)
        ensures
            r == self@.external.contains(name@),
    {
        let mut i: usize = 0;
        while i < self.external.len()
            invariant
                i <= self.external@.len(),
                self@.external.len() == self.external@.len(),
                forall|k: int| 0 <= k < i ==> self@.external[k] != name@,
            decreases self.external@.len() - i,
        {
            assert(self@.external[i as int] == self.external@[i as int]@);
            if str_eq(self.external[i].as_str(), name) {
                assert(self@.external.contains(name@));
                return true;
            }
            i += 1;
        }
        false
    }
}

} // verus!
