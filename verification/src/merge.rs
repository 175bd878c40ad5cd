//! Merging the catalog, the patches and the local overrides into one plan.

use crate::config::{
    catalog_view, name_set, CatalogView, Configuration, Files, GlobalConfig, IncludedConfig,
    LocalConfig, Package, PackageView,
};
use crate::layers::{
    clash, clash_is_shared, earlier_name_earlier_index, inhabited, is_least, least_is_unique,
    least_of, names_of, shared_keys, union_all, union_before, union_before_all,
    union_before_next, union_before_none,
};
use crate::listing::{
    ascending, ascending_keys_differ, first_shared_is_least, kept, kept_all, kept_next, kept_none,
    key_at, lists, none_shared, taken, taken_all, taken_next, taken_none,
};
use crate::strmap::StrMap;
use crate::table::{
    table_contains_key, table_extend, table_insert, table_into_entries, table_pairs, Variables,
};
use crate::target::FileTarget;
use crate::text::{lex_lt, lex_lt_irreflexive, lex_lt_total, same_text};
use vstd::prelude::*;
use vstd::string::StringExecFns;

verus! {

/// Why two layers could not be merged.
#[derive(Debug, Clone, PartialEq, Eq)]
pub enum MergeConflict {
    /// Two selected packages deploy the same source file.
    DuplicateFile(String),
    /// Two selected packages define the same variable.
    DuplicateVariable(String),
    /// A patch document names a package that is not selected.
    UnselectedPackage(String),
}

/// The content of a [`MergeConflict`].
pub enum ConflictView {
    DuplicateFile(Seq<char>),
    DuplicateVariable(Seq<char>),
    UnselectedPackage(Seq<char>),
}

impl View for MergeConflict {
    type V = ConflictView;

    open spec fn view(&self) -> ConflictView {
        match *self {
            MergeConflict::DuplicateFile(k) => ConflictView::DuplicateFile(k@),
            MergeConflict::DuplicateVariable(k) => ConflictView::DuplicateVariable(k@),
            MergeConflict::UnselectedPackage(k) => ConflictView::UnselectedPackage(k@),
        }
    }
}

impl ConflictView {
    /// The conflict in words: what went wrong, then the name it went wrong with.
    pub open spec fn message(self) -> Seq<char> {
        match self {
            ConflictView::DuplicateFile(k) => "file defined by two selected packages: "@ + k,
            ConflictView::DuplicateVariable(k) => "variable defined by two selected packages: "@
                + k,
            ConflictView::UnselectedPackage(k) => "patch for a package that is not selected: "@
                + k,
        }
    }
}

impl MergeConflict {
    /// The conflict in words.
    pub fn message(&self) -> (text: String)
        ensures
            text@ == self@.message(),
    {
        match self {
            MergeConflict::DuplicateFile(k) => String::from_str(
                "file defined by two selected packages: ",
            ).concat(k.as_str()),
            MergeConflict::DuplicateVariable(k) => String::from_str(
                "variable defined by two selected packages: ",
            ).concat(k.as_str()),
            MergeConflict::UnselectedPackage(k) => String::from_str(
                "patch for a package that is not selected: ",
            ).concat(k.as_str()),
        }
    }
}

/// What taking the package `more` into `acc` gives: a conflict over the
/// first file that both hold, else over the first variable that both hold,
/// else the package of both.
pub open spec fn absorb_result(acc: PackageView, more: PackageView) -> Result<
    PackageView,
    ConflictView,
> {
    if inhabited(shared_keys(acc.files, more.files)) {
        Err(ConflictView::DuplicateFile(least_of(shared_keys(acc.files, more.files))))
    } else if inhabited(shared_keys(acc.variables, more.variables)) {
        Err(ConflictView::DuplicateVariable(least_of(shared_keys(acc.variables, more.variables))))
    } else {
        Ok(
            PackageView {
                files: acc.files.union_prefer_right(more.files),
                variables: acc.variables.union_prefer_right(more.variables),
            },
        )
    }
}

/// Whether the outcome `r` of a step stands for `expected`.
pub open spec fn package_outcome(
    r: Result<Package, MergeConflict>,
    expected: Result<PackageView, ConflictView>,
) -> bool {
    match r {
        Ok(p) => expected == Ok::<PackageView, ConflictView>(p@),
        Err(e) => expected == Err::<PackageView, ConflictView>(e@),
    }
}

/// Takes the files of `more` into `files` unless one is there already.
fn absorb_files(files: Files, more: Files) -> (r: Result<Files, String>)
    ensures
        match r {
            Ok(out) => !inhabited(shared_keys(files@, more@)) && out@ == files@.union_prefer_right(
                more@,
            ),
            Err(k) => is_least(shared_keys(files@, more@), k@),
        },
{
    let mut out = files;
    let list = more.into_entries();
    let ghost all = list@;
    proof {
        taken_none(files@, all);
    }
    for entry in it: list
        invariant
            it.seq() == all,
            lists(all, more@),
            forall|j: int| 0 <= j < it.index() ==> !files@.contains_key((#[trigger] all[j]).0@),
            out@ == taken(files@, all, it.index() as int),
    {
        let ghost i = it.index() as int;
        let (key, target) = entry;
        assert(all[i] == (key, target));
        proof {
            taken_next(files@, all, i);
        }
        if out.contains_key(key.as_str()) {
            proof {
                first_shared_is_least(files@, all, more@, i);
            }
            return Err(key);
        }
        out.insert(key, target);
    }
    proof {
        none_shared(files@, all, more@);
        taken_all(files@, all, more@);
    }
    Ok(out)
}

/// Takes the variables of `more` into `variables` unless one is there
/// already.
fn absorb_variables(variables: Variables, more: Variables) -> (r: Result<Variables, String>)
    ensures
        match r {
            Ok(out) => !inhabited(shared_keys(table_pairs(variables), table_pairs(more)))
                && table_pairs(out) == table_pairs(variables).union_prefer_right(
                table_pairs(more),
            ),
            Err(k) => is_least(shared_keys(table_pairs(variables), table_pairs(more)), k@),
        },
{
    let ghost base = table_pairs(variables);
    let mut out = variables;
    let list = table_into_entries(more);
    let ghost all = list@;
    proof {
        taken_none(base, all);
    }
    for entry in it: list
        invariant
            it.seq() == all,
            lists(all, table_pairs(more)),
            base == table_pairs(variables),
            forall|j: int| 0 <= j < it.index() ==> !base.contains_key((#[trigger] all[j]).0@),
            table_pairs(out) == taken(base, all, it.index() as int),
    {
        let ghost i = it.index() as int;
        let (name, value) = entry;
        assert(all[i] == (name, value));
        proof {
            taken_next(base, all, i);
        }
        if table_contains_key(&out, name.as_str()) {
            proof {
                first_shared_is_least(base, all, table_pairs(more), i);
            }
            return Err(name);
        }
        table_insert(&mut out, name, value);
    }
    proof {
        none_shared(base, all, table_pairs(more));
        taken_all(base, all, table_pairs(more));
    }
    Ok(out)
}

/// Takes the package `more` into `acc`. A file or a variable that both hold
/// is a conflict, files looked at first.
pub fn absorb_package(acc: Package, more: Package) -> (r: Result<Package, MergeConflict>)
    ensures
        package_outcome(r, absorb_result(acc@, more@)),
{
    let Package { files, variables } = acc;
    let Package { files: more_files, variables: more_variables } = more;
    let files = match absorb_files(files, more_files) {
        Ok(files) => files,
        Err(key) => {
            proof {
                least_is_unique(shared_keys(acc@.files, more@.files), key@);
            }
            return Err(MergeConflict::DuplicateFile(key));
        },
    };
    let variables = match absorb_variables(variables, more_variables) {
        Ok(variables) => variables,
        Err(name) => {
            proof {
                least_is_unique(shared_keys(acc@.variables, more@.variables), name@);
            }
            return Err(MergeConflict::DuplicateVariable(name));
        },
    };
    Ok(Package { files, variables })
}

/// The files of each package of a catalog.
pub open spec fn file_layers(c: CatalogView) -> Map<Seq<char>, Map<Seq<char>, FileTarget>> {
    c.map_values(|p: PackageView| p.files)
}

/// The variables of each package of a catalog.
pub open spec fn variable_layers(c: CatalogView) -> Map<Seq<char>, Map<Seq<char>, toml::Value>> {
    c.map_values(|p: PackageView| p.variables)
}

/// The packages that hold a file or a variable which a package of an
/// earlier name holds too.
pub open spec fn clashing(c: CatalogView) -> Set<Seq<char>> {
    Set::new(
        |n: Seq<char>|
            inhabited(clash(file_layers(c), n)) || inhabited(clash(variable_layers(c), n)),
    )
}

/// What flattening a catalog gives. Where no two packages hold the same
/// file or the same variable, it is the package of all their files and
/// variables. Otherwise it is a conflict: of the packages that clash with
/// an earlier one, the one whose name comes first decides; the conflict is
/// over its first clashing file, or, where its files are free, its first
/// clashing variable.
pub open spec fn flatten_result(c: CatalogView) -> Result<PackageView, ConflictView> {
    if !inhabited(clashing(c)) {
        Ok(
            PackageView {
                files: union_all(file_layers(c)),
                variables: union_all(variable_layers(c)),
            },
        )
    } else {
        let n = least_of(clashing(c));
        if inhabited(clash(file_layers(c), n)) {
            Err(ConflictView::DuplicateFile(least_of(clash(file_layers(c), n))))
        } else {
            Err(ConflictView::DuplicateVariable(least_of(clash(variable_layers(c), n))))
        }
    }
}

/// The names of a listing of packages.
pub open spec fn package_names(all: Seq<(String, Package)>) -> Seq<Seq<char>> {
    Seq::new(all.len(), |j: int| all[j].0@)
}

/// The names of a listing of packages are the names of their layers.
proof fn listed_names(all: Seq<(String, Package)>, m: Map<Seq<char>, Package>)
    requires
        lists(all, m),
    ensures
        names_of(package_names(all), file_layers(catalog_view(m))),
        names_of(package_names(all), variable_layers(catalog_view(m))),
        forall|j: int|
            0 <= j < all.len() ==> catalog_view(m)[#[trigger] package_names(all)[j]] == all[j].1@,
{
    let names = package_names(all);
    let c = catalog_view(m);
    assert forall|i: int, j: int| 0 <= i < j < names.len() implies lex_lt(names[i], names[j]) by {
        assert(lex_lt(all[i].0@, all[j].0@));
    }
    assert forall|i: int| 0 <= i < names.len() implies c.contains_key(#[trigger] names[i])
        && c[names[i]] == all[i].1@ by {
        assert(m.contains_pair(all[i].0@, all[i].1));
    }
    assert forall|n: Seq<char>| c.contains_key(n) implies exists|i: int|
        0 <= i < names.len() && #[trigger] names[i] == n by {
        let i = choose|i: int| #[trigger] key_at(all, i, n);
        assert(names[i] == n);
    }
}

/// Where the packages before the one at `i` are free of clashes and that
/// one is not, it is the first that clashes.
proof fn first_clash_is_least(c: CatalogView, names: Seq<Seq<char>>, i: int)
    requires
        names_of(names, file_layers(c)),
        names_of(names, variable_layers(c)),
        0 <= i < names.len(),
        forall|j: int| 0 <= j < i ==> !clashing(c).contains(#[trigger] names[j]),
        clashing(c).contains(names[i]),
    ensures
        least_of(clashing(c)) == names[i],
{
    assert forall|o: Seq<char>| clashing(c).contains(o) implies !lex_lt(o, names[i]) by {
        let f = file_layers(c);
        let v = variable_layers(c);
        if inhabited(clash(f, o)) {
            let k = choose|k: Seq<char>| clash(f, o).contains(k);
            assert(f.contains_key(o));
        } else {
            let k = choose|k: Seq<char>| clash(v, o).contains(k);
            assert(v.contains_key(o));
        }
        assert(c.contains_key(o));
        let j = choose|j: int| 0 <= j < names.len() && #[trigger] names[j] == o;
        if lex_lt(o, names[i]) {
            earlier_name_earlier_index(names, j, i);
        }
    }
    least_is_unique(clashing(c), names[i]);
}

/// Where no package of a listing clashes, none of the catalog does.
proof fn no_clash_at_all(c: CatalogView, names: Seq<Seq<char>>)
    requires
        names_of(names, file_layers(c)),
        names_of(names, variable_layers(c)),
        forall|j: int| 0 <= j < names.len() ==> !clashing(c).contains(#[trigger] names[j]),
    ensures
        !inhabited(clashing(c)),
        forall|j: int| 0 <= j < names.len() ==> !inhabited(#[trigger] clash(file_layers(c), names[j])),
        forall|j: int|
            0 <= j < names.len() ==> !inhabited(#[trigger] clash(variable_layers(c), names[j])),
{
    assert forall|o: Seq<char>| !clashing(c).contains(o) by {
        if clashing(c).contains(o) {
            let f = file_layers(c);
            let v = variable_layers(c);
            if inhabited(clash(f, o)) {
                let k = choose|k: Seq<char>| clash(f, o).contains(k);
                assert(f.contains_key(o));
            } else {
                let k = choose|k: Seq<char>| clash(v, o).contains(k);
                assert(v.contains_key(o));
            }
            let j = choose|j: int| 0 <= j < names.len() && #[trigger] names[j] == o;
        }
    }
    assert forall|j: int| 0 <= j < names.len() implies !inhabited(
        #[trigger] clash(file_layers(c), names[j]),
    ) by {
        assert(!clashing(c).contains(names[j]));
    }
    assert forall|j: int| 0 <= j < names.len() implies !inhabited(
        #[trigger] clash(variable_layers(c), names[j]),
    ) by {
        assert(!clashing(c).contains(names[j]));
    }
}

/// Flattens the selected packages into one, by ascending name. A file or a
/// variable that two packages hold is a conflict.
pub fn flatten_packages(selected: StrMap<Package>) -> (r: Result<Package, MergeConflict>)
    ensures
        package_outcome(r, flatten_result(catalog_view(selected@))),
{
    let ghost c = catalog_view(selected@);
    let ghost f = file_layers(c);
    let ghost v = variable_layers(c);
    let list = selected.into_entries();
    let ghost all = list@;
    let ghost names = package_names(all);
    let mut acc = Package::new();
    proof {
        listed_names(all, selected@);
        union_before_none(f, names);
        union_before_none(v, names);
    }
    for entry in it: list
        invariant
            it.seq() == all,
            c == catalog_view(selected@),
            f == file_layers(c),
            v == variable_layers(c),
            names == package_names(all),
            names_of(names, f),
            names_of(names, v),
            forall|j: int| 0 <= j < all.len() ==> c[#[trigger] names[j]] == all[j].1@,
            forall|j: int| 0 <= j < it.index() ==> !clashing(c).contains(#[trigger] names[j]),
            acc@.files == union_before(f, names, it.index() as int),
            acc@.variables == union_before(v, names, it.index() as int),
    {
        let ghost i = it.index() as int;
        let (_, package) = entry;
        proof {
            assert(c[names[i]] == all[i].1@);
            assert(f.contains_key(names[i]) && v.contains_key(names[i]));
            clash_is_shared(f, names, i);
            clash_is_shared(v, names, i);
        }
        match absorb_package(acc, package) {
            Err(e) => {
                proof {
                    assert(clashing(c).contains(names[i]));
                    first_clash_is_least(c, names, i);
                }
                return Err(e);
            },
            Ok(next) => {
                proof {
                    assert(!clashing(c).contains(names[i]));
                    assert forall|j: int| 0 <= j <= i implies !inhabited(
                        #[trigger] clash(f, names[j]),
                    ) by {
                        assert(!clashing(c).contains(names[j]));
                    }
                    assert forall|j: int| 0 <= j <= i implies !inhabited(
                        #[trigger] clash(v, names[j]),
                    ) by {
                        assert(!clashing(c).contains(names[j]));
                    }
                    union_before_next(f, names, i);
                    union_before_next(v, names, i);
                }
                acc = next;
            },
        }
    }
    proof {
        no_clash_at_all(c, names);
        union_before_all(f, names);
        union_before_all(v, names);
    }
    Ok(acc)
}

/// Whether the selection holds `name`.
fn contains_name(names: &Vec<String>, name: &str) -> (b: bool)
    ensures
        b == name_set(names@).contains(name@),
{
    let n = names.len();
    let mut i: usize = 0;
    while i < n
        invariant
            i <= n,
            n == names@.len(),
            forall|j: int| 0 <= j < i ==> (#[trigger] names@[j])@ != name@,
        decreases n - i,
    {
        if same_text(names[i].as_str(), name) {
            return true;
        }
        i += 1;
    }
    false
}

/// Keeps the packages whose name the selection holds.
pub fn select_packages(packages: StrMap<Package>, names: &Vec<String>) -> (out: StrMap<Package>)
    ensures
        out@ == packages@.restrict(name_set(names@)),
{
    let ghost keep = name_set(names@);
    let mut out: StrMap<Package> = StrMap::new();
    let list = packages.into_entries();
    let ghost all = list@;
    proof {
        kept_none(all, keep);
    }
    for entry in it: list
        invariant
            it.seq() == all,
            lists(all, packages@),
            keep == name_set(names@),
            out@ == kept(all, it.index() as int, keep),
    {
        let ghost i = it.index() as int;
        let (name, package) = entry;
        assert(all[i] == (name, package));
        proof {
            kept_next(all, i, keep);
        }
        if contains_name(names, name.as_str()) {
            out.insert(name, package);
        }
    }
    proof {
        kept_all(all, packages@, keep);
    }
    out
}

/// The targets that are no tombstones.
pub open spec fn live_keys(files: Map<Seq<char>, FileTarget>) -> Set<Seq<char>> {
    Set::new(|k: Seq<char>| files.contains_key(k) && files[k]@.path.len() > 0)
}

/// The files without those whose target path is empty.
pub open spec fn live_files(files: Map<Seq<char>, FileTarget>) -> Map<Seq<char>, FileTarget> {
    files.restrict(live_keys(files))
}

/// Drops the files whose target path is empty.
pub fn drop_tombstones(files: Files) -> (out: Files)
    ensures
        out@ == live_files(files@),
{
    let ghost keep = live_keys(files@);
    let mut out: Files = StrMap::new();
    let list = files.into_entries();
    let ghost all = list@;
    proof {
        kept_none(all, keep);
    }
    for entry in it: list
        invariant
            it.seq() == all,
            lists(all, files@),
            keep == live_keys(files@),
            out@ == kept(all, it.index() as int, keep),
    {
        let ghost i = it.index() as int;
        let (source, target) = entry;
        assert(all[i] == (source, target));
        proof {
            kept_next(all, i, keep);
            assert(files@.contains_pair(all[i].0@, all[i].1));
        }
        if !target.is_tombstone() {
            out.insert(source, target);
        }
    }
    proof {
        kept_all(all, files@, keep);
    }
    out
}

/// A package with the files and variables of a patch laid over its own.
pub open spec fn patch_package(p: PackageView, q: PackageView) -> PackageView {
    PackageView {
        files: p.files.union_prefer_right(q.files),
        variables: p.variables.union_prefer_right(q.variables),
    }
}

/// Lays `files` and `variables` over those of `package`: where both bind a
/// key, the one laid over stands.
pub fn override_package(package: Package, files: Files, variables: Variables) -> (out: Package)
    ensures
        out@ == patch_package(package@, (PackageView { files: files@, variables: table_pairs(variables) })),
{
    let Package { files: mut own_files, variables: mut own_variables } = package;
    own_files.extend(files);
    table_extend(&mut own_variables, variables);
    Package { files: own_files, variables: own_variables }
}

/// The selected packages with a patch document laid over them.
pub open spec fn patched(sel: CatalogView, inc: CatalogView) -> CatalogView {
    Map::new(
        |n: Seq<char>| sel.contains_key(n),
        |n: Seq<char>|
            if inc.contains_key(n) {
                patch_package(sel[n], inc[n])
            } else {
                sel[n]
            },
    )
}

/// The names of a patch document that are not selected.
pub open spec fn unselected(sel: CatalogView, inc: CatalogView) -> Set<Seq<char>> {
    inc.dom().difference(sel.dom())
}

/// What patching gives: a conflict over the first name of the document
/// that is not selected, or the patched packages.
pub open spec fn patch_result(sel: CatalogView, inc: CatalogView) -> Result<
    CatalogView,
    ConflictView,
> {
    if inhabited(unselected(sel, inc)) {
        Err(ConflictView::UnselectedPackage(least_of(unselected(sel, inc))))
    } else {
        Ok(patched(sel, inc))
    }
}

/// Whether the outcome `r` of a step stands for `expected`.
pub open spec fn catalog_outcome(
    r: Result<StrMap<Package>, MergeConflict>,
    expected: Result<CatalogView, ConflictView>,
) -> bool {
    match r {
        Ok(c) => expected == Ok::<CatalogView, ConflictView>(catalog_view(c@)),
        Err(e) => expected == Err::<CatalogView, ConflictView>(e@),
    }
}

/// The selected packages after the first `i` patches of a listing.
pub open spec fn patched_upto(sel: CatalogView, all: Seq<(String, Package)>, i: int) -> CatalogView {
    Map::new(
        |n: Seq<char>| sel.contains_key(n),
        |n: Seq<char>|
            if exists|j: int| j < i && #[trigger] key_at(all, j, n) {
                patch_package(sel[n], all[choose|j: int| j < i && #[trigger] key_at(all, j, n)].1@)
            } else {
                sel[n]
            },
    )
}

/// Laying the next patch over its package changes that package only.
proof fn patched_upto_next(sel: CatalogView, all: Seq<(String, Package)>, i: int)
    requires
        ascending(all),
        0 <= i < all.len(),
        sel.contains_key(all[i].0@),
    ensures
        patched_upto(sel, all, i)[all[i].0@] == sel[all[i].0@],
        patched_upto(sel, all, i + 1) == patched_upto(sel, all, i).insert(
            all[i].0@,
            patch_package(sel[all[i].0@], all[i].1@),
        ),
{
    let next = i + 1;
    let name = all[i].0@;
    let before = patched_upto(sel, all, i);
    let after = patched_upto(sel, all, next);
    let goal = before.insert(name, patch_package(sel[name], all[i].1@));
    if exists|j: int| j < i && #[trigger] key_at(all, j, name) {
        let j = choose|j: int| j < i && #[trigger] key_at(all, j, name);
        ascending_keys_differ(all, j, i);
    }
    assert forall|n: Seq<char>| after.contains_key(n) implies after[n] == goal[n] by {
        if n == name {
            assert(i < next && key_at(all, i, n));
            let j = choose|j: int| j < next && #[trigger] key_at(all, j, n);
            ascending_keys_differ(all, j, i);
        } else if exists|j: int| j < next && #[trigger] key_at(all, j, n) {
            let j = choose|j: int| j < next && #[trigger] key_at(all, j, n);
            assert(j < i && key_at(all, j, n));
            let j0 = choose|j: int| j < i && #[trigger] key_at(all, j, n);
            ascending_keys_differ(all, j, j0);
        } else if exists|j: int| j < i && #[trigger] key_at(all, j, n) {
            let j = choose|j: int| j < i && #[trigger] key_at(all, j, n);
            assert(j < next && key_at(all, j, n));
        }
    }
    assert(after =~= goal);
}

/// Once every patch of a document is laid over its package, the document
/// is laid over the selection.
proof fn patched_upto_all(sel: CatalogView, all: Seq<(String, Package)>, m: Map<Seq<char>, Package>)
    requires
        lists(all, m),
        forall|j: int| 0 <= j < all.len() ==> sel.contains_key((#[trigger] all[j]).0@),
    ensures
        patched_upto(sel, all, all.len() as int) == patched(sel, catalog_view(m)),
        !inhabited(unselected(sel, catalog_view(m))),
{
    let n = all.len() as int;
    let inc = catalog_view(m);
    let got = patched_upto(sel, all, n);
    let goal = patched(sel, inc);
    assert forall|k: Seq<char>| got.contains_key(k) implies got[k] == goal[k] by {
        if inc.contains_key(k) {
            let j = choose|j: int| #[trigger] key_at(all, j, k);
            assert(j < n && key_at(all, j, k));
        }
        if exists|j: int| j < n && #[trigger] key_at(all, j, k) {
            let j = choose|j: int| j < n && #[trigger] key_at(all, j, k);
            assert(m.contains_pair(all[j].0@, all[j].1));
        }
    }
    assert(got =~= goal);
    assert forall|k: Seq<char>| !unselected(sel, inc).contains(k) by {
        if inc.contains_key(k) {
            let j = choose|j: int| #[trigger] key_at(all, j, k);
            assert(sel.contains_key(all[j].0@));
        }
    }
}

/// The first name of a listing that is not selected is the least such name.
proof fn first_unselected(
    sel: CatalogView,
    all: Seq<(String, Package)>,
    m: Map<Seq<char>, Package>,
    i: int,
)
    requires
        lists(all, m),
        0 <= i < all.len(),
        forall|j: int| 0 <= j < i ==> sel.contains_key((#[trigger] all[j]).0@),
        !sel.contains_key(all[i].0@),
    ensures
        is_least(unselected(sel, catalog_view(m)), all[i].0@),
{
    let name = all[i].0@;
    assert(m.contains_pair(all[i].0@, all[i].1));
    assert forall|o: Seq<char>| unselected(sel, catalog_view(m)).contains(o) implies !lex_lt(
        o,
        name,
    ) by {
        let j = choose|j: int| #[trigger] key_at(all, j, o);
        assert(sel.contains_key(all[j].0@) || j >= i);
        if j > i {
            assert(lex_lt(all[i].0@, all[j].0@));
            lex_lt_total(o, name);
        } else {
            lex_lt_irreflexive(o);
        }
    }
}

/// Lays a patch document over the selected packages: the files and
/// variables of each of its packages go over those of the selected package
/// of the same name. A name that is not selected is a conflict.
pub fn patch_packages(selected: StrMap<Package>, included: IncludedConfig) -> (r: Result<
    StrMap<Package>,
    MergeConflict,
>)
    ensures
        catalog_outcome(r, patch_result(catalog_view(selected@), catalog_view(included@))),
{
    let ghost sel = catalog_view(selected@);
    let mut out = selected;
    let list = included.into_entries();
    let ghost all = list@;
    assert(catalog_view(out@) =~= patched_upto(sel, all, 0));
    for entry in it: list
        invariant
            it.seq() == all,
            lists(all, included@),
            sel == catalog_view(selected@),
            forall|j: int| 0 <= j < it.index() ==> sel.contains_key((#[trigger] all[j]).0@),
            catalog_view(out@) == patched_upto(sel, all, it.index() as int),
    {
        let ghost i = it.index() as int;
        let ghost prior = out@;
        let (name, patch) = entry;
        assert(all[i] == (name, patch));
        assert(catalog_view(prior).contains_key(name@) == sel.contains_key(name@));
        match out.remove(name.as_str()) {
            None => {
                proof {
                    first_unselected(sel, all, included@, i);
                    least_is_unique(unselected(sel, catalog_view(included@)), name@);
                }
                return Err(MergeConflict::UnselectedPackage(name));
            },
            Some(package) => {
                let Package { files, variables } = patch;
                let renewed = override_package(package, files, variables);
                out.insert(name, renewed);
                proof {
                    patched_upto_next(sel, all, i);
                    assert(catalog_view(prior)[name@] == package@);
                    assert(patch@ == (PackageView { files: files@, variables: table_pairs(variables) }));
                    assert(catalog_view(out@) =~= catalog_view(prior).insert(name@, renewed@));
                }
            },
        }
    }
    proof {
        patched_upto_all(sel, all, included@);
    }
    Ok(out)
}

/// The content of a [`Configuration`].
pub struct ConfigurationView {
    pub files: Map<Seq<char>, FileTarget>,
    pub variables: Map<Seq<char>, toml::Value>,
    pub helpers: Map<Seq<char>, String>,
}

impl View for Configuration {
    type V = ConfigurationView;

    open spec fn view(&self) -> ConfigurationView {
        ConfigurationView {
            files: self.files@,
            variables: table_pairs(self.variables),
            helpers: self.helpers@,
        }
    }
}

/// The content of each patch document.
pub open spec fn include_views(includes: Seq<IncludedConfig>) -> Seq<CatalogView> {
    Seq::new(includes.len(), |i: int| catalog_view(includes[i]@))
}

/// The selected packages after the patch documents were laid over them, one
/// after the other, or the first conflict.
pub open spec fn patch_all(sel: CatalogView, includes: Seq<CatalogView>) -> Result<
    CatalogView,
    ConflictView,
>
    decreases includes.len(),
{
    if includes.len() == 0 {
        Ok(sel)
    } else {
        match patch_all(sel, includes.drop_last()) {
            Err(e) => Err(e),
            Ok(mid) => patch_result(mid, includes.last()),
        }
    }
}

/// The plan that a catalog, a selection, patch documents and overrides
/// resolve to: select, patch, flatten, lay the overrides over the result,
/// and drop the files whose target path is empty.
pub open spec fn merge_result(
    helpers: Map<Seq<char>, String>,
    catalog: CatalogView,
    selection: Set<Seq<char>>,
    includes: Seq<CatalogView>,
    overrides: PackageView,
) -> Result<ConfigurationView, ConflictView> {
    match patch_all(catalog.restrict(selection), includes) {
        Err(e) => Err(e),
        Ok(sel) => match flatten_result(sel) {
            Err(e) => Err(e),
            Ok(flat) => Ok(
                ConfigurationView {
                    files: live_files(flat.files.union_prefer_right(overrides.files)),
                    variables: flat.variables.union_prefer_right(overrides.variables),
                    helpers,
                },
            ),
        },
    }
}

/// Resolves the catalog `global` under the selection and the overrides of
/// `local`. `includes` holds the patch documents that `local.includes`
/// names, in that order.
#[verifier::loop_isolation(false)]
pub fn merge_configuration_tables(
    global: GlobalConfig,
    local: LocalConfig,
    includes: Vec<IncludedConfig>,
) -> (r: Result<Configuration, MergeConflict>)
    ensures
        match r {
            Ok(conf) => merge_result(
                global.helpers@,
                catalog_view(global.packages@),
                name_set(local.packages@),
                include_views(includes@),
                (PackageView { files: local.files@, variables: table_pairs(local.variables) }),
            ) == Ok::<ConfigurationView, ConflictView>(conf@),
            Err(e) => merge_result(
                global.helpers@,
                catalog_view(global.packages@),
                name_set(local.packages@),
                include_views(includes@),
                (PackageView { files: local.files@, variables: table_pairs(local.variables) }),
            ) == Err::<ConfigurationView, ConflictView>(e@),
        },
        r matches Ok(conf) ==> conf.helpers == global.helpers,
{
    let GlobalConfig { helpers, packages } = global;
    let LocalConfig { includes: _, packages: names, files, variables } = local;
    let ghost start = catalog_view(packages@).restrict(name_set(names@));
    let ghost views = include_views(includes@);
    let mut selected = select_packages(packages, &names);
    assert(catalog_view(selected@) =~= start);
    assert(views.take(0) =~= Seq::<CatalogView>::empty());
    for document in it: includes
        invariant
            it.seq() == includes@,
            views == include_views(includes@),
            patch_all(start, views.take(it.index() as int)) == Ok::<CatalogView, ConflictView>(
                catalog_view(selected@),
            ),
    {
        let ghost i = it.index() as int;
        proof {
            assert(views.take(i + 1).drop_last() =~= views.take(i));
            assert(views.take(i + 1).last() == catalog_view(document@));
        }
        match patch_packages(selected, document) {
            Err(e) => {
                proof {
                    patch_all_fails_for_good(start, views, i + 1);
                }
                return Err(e);
            },
            Ok(next) => {
                selected = next;
            },
        }
    }
    assert(views.take(views.len() as int) =~= views);
    let flat = match flatten_packages(selected) {
        Err(e) => {
            return Err(e);
        },
        Ok(flat) => flat,
    };
    let Package { files: all_files, variables: all_variables } = override_package(
        flat,
        files,
        variables,
    );
    Ok(Configuration { files: drop_tombstones(all_files), variables: all_variables, helpers })
}

/// Once a patch document is in conflict, the documents after it do not
/// matter.
pub proof fn patch_all_fails_for_good(sel: CatalogView, includes: Seq<CatalogView>, n: int)
    requires
        0 <= n <= includes.len(),
        patch_all(sel, includes.take(n)) is Err,
    ensures
        patch_all(sel, includes) == patch_all(sel, includes.take(n)),
    decreases includes.len() - n,
{
    if n < includes.len() {
        assert(includes.take(n + 1).drop_last() =~= includes.take(n));
        patch_all_fails_for_good(sel, includes, n + 1);
    } else {
        assert(includes.take(n) =~= includes);
    }
}

} // verus!
