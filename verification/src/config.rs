//! The documents that go into a resolution and the plan that comes out.

use crate::strmap::StrMap;
use crate::table::{no_pairs, table_new, table_pairs, Variables};
use crate::target::FileTarget;
use vstd::prelude::*;

verus! {

/// Source path to deployment target.
pub type Files = StrMap<FileTarget>;

/// Helper name to the path of its script.
pub type Helpers = StrMap<String>;

/// Package name to package: a catalog, or a document of patches to one.
pub type IncludedConfig = StrMap<Package>;

/// A named bundle of files and variables.
#[derive(Debug, PartialEq)]
pub struct Package {
    pub files: Files,
    pub variables: Variables,
}

/// The catalog of every package known, with the helpers they share.
#[derive(Debug, PartialEq)]
pub struct GlobalConfig {
    pub helpers: Helpers,
    pub packages: StrMap<Package>,
}

/// What one deployment selects, patches and overrides.
#[derive(Debug, PartialEq)]
pub struct LocalConfig {
    pub includes: Vec<String>,
    pub packages: Vec<String>,
    pub files: Files,
    pub variables: Variables,
}

/// The resolved plan.
#[derive(Debug, PartialEq)]
pub struct Configuration {
    pub files: Files,
    pub variables: Variables,
    pub helpers: Helpers,
}

/// What an earlier deployment left behind: links and rendered templates,
/// source to target.
#[derive(Debug, PartialEq)]
pub struct Cache {
    pub symlinks: StrMap<String>,
    pub templates: StrMap<String>,
}

/// The content of a [`Package`].
pub struct PackageView {
    pub files: Map<Seq<char>, FileTarget>,
    pub variables: Map<Seq<char>, toml::Value>,
}

/// Package name to package content.
pub type CatalogView = Map<Seq<char>, PackageView>;

impl View for Package {
    type V = PackageView;

    open spec fn view(&self) -> PackageView {
        PackageView { files: self.files@, variables: table_pairs(self.variables) }
    }
}

impl PackageView {
    /// The package without files or variables.
    pub open spec fn empty() -> PackageView {
        PackageView { files: Map::empty(), variables: no_pairs() }
    }
}

/// The content of each package of a catalog.
pub open spec fn catalog_view(packages: Map<Seq<char>, Package>) -> CatalogView {
    packages.map_values(|p: Package| p@)
}

/// The names that a selection holds.
pub open spec fn name_set(names: Seq<String>) -> Set<Seq<char>> {
    Set::new(|k: Seq<char>| exists|i: int| 0 <= i < names.len() && #[trigger] names[i]@ == k)
}

impl Clone for Configuration {
    /// A plan with the same files, variables and helpers.
    fn clone(&self) -> (out: Self)
        ensures
            out.files@ == self.files@,
            table_pairs(out.variables) == table_pairs(self.variables),
            out.helpers@ == self.helpers@,
    {
        let files = self.files.clone();
        let variables = self.variables.clone();
        let helpers = self.helpers.clone();
        assert(files@ =~= self.files@);
        assert(helpers@ =~= self.helpers@);
        Configuration { files, variables, helpers }
    }
}

impl Package {
    /// A package without files or variables.
    pub fn new() -> (p: Package)
        ensures
            p@ == PackageView::empty(),
    {
        Package { files: StrMap::new(), variables: table_new() }
    }
}

impl Default for Package {
    fn default() -> (p: Package)
        ensures
            p@ == PackageView::empty(),
    {
        Package::new()
    }
}

impl Default for Cache {
    fn default() -> (c: Cache)
        ensures
            c.symlinks@ == Map::<Seq<char>, String>::empty(),
            c.templates@ == Map::<Seq<char>, String>::empty(),
    {
        Cache { symlinks: StrMap::new(), templates: StrMap::new() }
    }
}

} // verus!
