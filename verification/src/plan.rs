//! The steps between the documents and the plan that is handed on.

use crate::config::{name_set, Configuration, GlobalConfig, LocalConfig, Package};
use crate::error::{LoadConfigFailType, LoadFailView};
use crate::expand::{
    all_entries, collect, expand_directories, files_view, ExpandErrorView, SourceNode,
};
use crate::strmap::StrMap;
use crate::table::{no_pairs, table_new, table_pairs};
use crate::target::{FileTarget, TargetView};
use vstd::prelude::*;
use vstd::string::StringExecFns;

verus! {

/// Expands the directories among the files of a merged configuration.
/// `tree` holds what stands at each source. Variables and helpers stay as
/// they are.
pub fn expand_configuration(conf: Configuration, tree: &StrMap<SourceNode>) -> (r: Result<
    Configuration,
    LoadConfigFailType,
>)
    ensures
        match r {
            Ok(out) => all_entries(conf.files.listing(), tree@, conf.files.listing().len())
                matches Ok(entries) && files_view(out.files@) == collect(entries) && out.variables
                == conf.variables && out.helpers == conf.helpers,
            Err(e) => all_entries(conf.files.listing(), tree@, conf.files.listing().len())
                matches Err(fault) && e@ == (LoadFailView::InvalidSourceTree { source: fault }),
        },
{
    let Configuration { files, variables, helpers } = conf;
    match expand_directories(files, tree) {
        Ok(files) => Ok(Configuration { files, variables, helpers }),
        Err(source) => Err(LoadConfigFailType::InvalidSourceTree { source }),
    }
}

/// The name of the package of a first configuration.
pub open spec fn default_name() -> Seq<char> {
    "default"@
}

/// The documents of a first configuration for `files`: a catalog with the
/// one package `default`, which holds each of the files with an empty
/// target, and a selection of that package without patches or overrides.
pub fn dummy_config(files: Vec<String>) -> (r: (GlobalConfig, LocalConfig))
    ensures
        r.0.helpers@ == Map::<Seq<char>, String>::empty(),
        r.0.packages@.dom() == set![default_name()],
        r.0.packages@[default_name()].files@.dom() == name_set(files@),
        forall|k: Seq<char>|
            name_set(files@).contains(k) ==> #[trigger] r.0.packages@[default_name()].files@[k]@
                == TargetView::automatic(Seq::empty()),
        table_pairs(r.0.packages@[default_name()].variables) == no_pairs(),
        r.1.includes@.len() == 0,
        r.1.packages@.len() == 1,
        r.1.packages@[0]@ == default_name(),
        r.1.files@ == Map::<Seq<char>, FileTarget>::empty(),
        table_pairs(r.1.variables) == no_pairs(),
{
    let mut package_files: StrMap<FileTarget> = StrMap::new();
    let ghost names = files@;
    for file in it: files
        invariant
            it.seq() == names,
            forall|k: Seq<char>|
                package_files@.contains_key(k) <==> exists|j: int|
                    0 <= j < it.index() && (#[trigger] names[j])@ == k,
            forall|k: Seq<char>|
                package_files@.contains_key(k) ==> #[trigger] package_files@[k]@
                    == TargetView::automatic(Seq::empty()),
    {
        let ghost i = it.index() as int;
        let ghost prior = package_files@;
        assert(names[i] == file);
        package_files.insert(file, FileTarget::Automatic(String::new()));
        proof {
            assert forall|k: Seq<char>|
                package_files@.contains_key(k) <==> exists|j: int|
                    0 <= j < i + 1 && (#[trigger] names[j])@ == k by {
                if k == file@ {
                    assert(names[i]@ == k);
                } else if prior.contains_key(k) {
                    let j = choose|j: int| 0 <= j < i && (#[trigger] names[j])@ == k;
                    assert(0 <= j < i + 1 && names[j]@ == k);
                } else if exists|j: int| 0 <= j < i + 1 && (#[trigger] names[j])@ == k {
                    let j = choose|j: int| 0 <= j < i + 1 && (#[trigger] names[j])@ == k;
                    assert(0 <= j < i && names[j]@ == k);
                }
            }
        }
    }
    assert(package_files@.dom() =~= name_set(names));
    let package = Package { files: package_files, variables: table_new() };
    let mut packages: StrMap<Package> = StrMap::new();
    packages.insert(String::from_str("default"), package);
    assert(packages@.dom() =~= set![default_name()]);
    let global = GlobalConfig { helpers: StrMap::new(), packages };
    let mut selection: Vec<String> = Vec::new();
    selection.push(String::from_str("default"));
    let local = LocalConfig {
        includes: Vec::new(),
        packages: selection,
        files: StrMap::new(),
        variables: table_new(),
    };
    (global, local)
}

} // verus!
