//! What holds of every merge.

use crate::config::{CatalogView, PackageView};
use crate::layers::{clash, holds, inhabited, union_all};
use crate::merge::{
    clashing, file_layers, flatten_result, live_files, merge_result, patch_all, patch_result,
    patched, variable_layers, ConfigurationView, ConflictView,
};
use crate::text::lex_lt_total;
use vstd::prelude::*;

verus! {

/// Whether the package `n` of `catalog` is selected and holds the file `k`.
pub open spec fn selected_file(
    catalog: CatalogView,
    selection: Set<Seq<char>>,
    n: Seq<char>,
    k: Seq<char>,
) -> bool {
    selection.contains(n) && catalog.contains_key(n) && catalog[n].files.contains_key(k)
}

/// Whether the package `n` of `catalog` is selected and holds the variable
/// `k`.
pub open spec fn selected_variable(
    catalog: CatalogView,
    selection: Set<Seq<char>>,
    n: Seq<char>,
    k: Seq<char>,
) -> bool {
    selection.contains(n) && catalog.contains_key(n) && catalog[n].variables.contains_key(k)
}

/// The flattened package holds the files and variables of the selected
/// packages and no others: a key is bound if and only if a selected package
/// binds it, and it is bound to what that package binds it to.
pub proof fn flattened_holds_selected_only(catalog: CatalogView, selection: Set<Seq<char>>)
    ensures
        flatten_result(catalog.restrict(selection)) matches Ok(flat) ==> {
            &&& forall|k: Seq<char>|
                flat.files.contains_key(k) <==> exists|n: Seq<char>|
                    selected_file(catalog, selection, n, k)
            &&& forall|k: Seq<char>|
                flat.variables.contains_key(k) <==> exists|n: Seq<char>|
                    selected_variable(catalog, selection, n, k)
            &&& forall|n: Seq<char>, k: Seq<char>|
                selected_file(catalog, selection, n, k) ==> flat.files[k] == catalog[n].files[k]
            &&& forall|n: Seq<char>, k: Seq<char>|
                selected_variable(catalog, selection, n, k) ==> flat.variables[k]
                    == catalog[n].variables[k]
        },
{
    let c = catalog.restrict(selection);
    let f = file_layers(c);
    let v = variable_layers(c);
    if flatten_result(c) is Ok {
        let flat = flatten_result(c)->Ok_0;
        assert forall|k: Seq<char>|
            flat.files.contains_key(k) <==> exists|n: Seq<char>|
                selected_file(catalog, selection, n, k) by {
            if flat.files.contains_key(k) {
                let n = choose|n: Seq<char>| holds(f, n, k);
                assert(selected_file(catalog, selection, n, k));
            }
            if exists|n: Seq<char>| selected_file(catalog, selection, n, k) {
                let n = choose|n: Seq<char>| selected_file(catalog, selection, n, k);
                assert(holds(f, n, k));
            }
        }
        assert forall|k: Seq<char>|
            flat.variables.contains_key(k) <==> exists|n: Seq<char>|
                selected_variable(catalog, selection, n, k) by {
            if flat.variables.contains_key(k) {
                let n = choose|n: Seq<char>| holds(v, n, k);
                assert(selected_variable(catalog, selection, n, k));
            }
            if exists|n: Seq<char>| selected_variable(catalog, selection, n, k) {
                let n = choose|n: Seq<char>| selected_variable(catalog, selection, n, k);
                assert(holds(v, n, k));
            }
        }
        assert forall|n: Seq<char>, k: Seq<char>|
            selected_file(catalog, selection, n, k) implies flat.files[k] == catalog[n].files[k] by {
            assert(holds(f, n, k));
            let m = choose|m: Seq<char>| holds(f, m, k);
            if m != n {
                shared_file_is_rejected(c, m, n, k);
            }
        }
        assert forall|n: Seq<char>, k: Seq<char>|
            selected_variable(catalog, selection, n, k) implies flat.variables[k]
            == catalog[n].variables[k] by {
            assert(holds(v, n, k));
            let m = choose|m: Seq<char>| holds(v, m, k);
            if m != n {
                shared_variable_is_rejected(c, m, n, k);
            }
        }
    }
}

/// Without patches and overrides the plan holds what the selected packages
/// hold and nothing else: its variables are theirs, its files are theirs
/// but for the tombstones, and its helpers are those of the catalog.
pub proof fn plan_holds_selected_only(
    helpers: Map<Seq<char>, String>,
    catalog: CatalogView,
    selection: Set<Seq<char>>,
)
    ensures
        merge_result(helpers, catalog, selection, Seq::empty(), PackageView::empty()) matches Ok(
            conf,
        ) ==> {
            &&& conf.helpers == helpers
            &&& forall|k: Seq<char>|
                conf.variables.contains_key(k) <==> exists|n: Seq<char>|
                    selected_variable(catalog, selection, n, k)
            &&& forall|k: Seq<char>|
                conf.files.contains_key(k) ==> exists|n: Seq<char>|
                    selected_file(catalog, selection, n, k)
            &&& forall|n: Seq<char>, k: Seq<char>|
                selected_file(catalog, selection, n, k) && catalog[n].files[k]@.path.len() > 0
                    ==> conf.files.contains_pair(k, catalog[n].files[k])
            &&& forall|n: Seq<char>, k: Seq<char>|
                selected_variable(catalog, selection, n, k) ==> conf.variables.contains_pair(
                    k,
                    catalog[n].variables[k],
                )
        },
{
    flattened_holds_selected_only(catalog, selection);
}

/// Two different packages that hold the same file are never flattened.
pub proof fn shared_file_is_rejected(c: CatalogView, a: Seq<char>, b: Seq<char>, k: Seq<char>)
    requires
        a != b,
        c.contains_key(a),
        c.contains_key(b),
        c[a].files.contains_key(k),
        c[b].files.contains_key(k),
    ensures
        flatten_result(c) is Err,
{
    let f = file_layers(c);
    lex_lt_total(a, b);
    assert(holds(f, a, k) && holds(f, b, k));
    if crate::text::lex_lt(a, b) {
        assert(clash(f, b).contains(k));
        assert(clashing(c).contains(b));
    } else {
        assert(clash(f, a).contains(k));
        assert(clashing(c).contains(a));
    }
}

/// Two different packages that hold the same variable are never flattened.
pub proof fn shared_variable_is_rejected(c: CatalogView, a: Seq<char>, b: Seq<char>, k: Seq<char>)
    requires
        a != b,
        c.contains_key(a),
        c.contains_key(b),
        c[a].variables.contains_key(k),
        c[b].variables.contains_key(k),
    ensures
        flatten_result(c) is Err,
{
    let v = variable_layers(c);
    lex_lt_total(a, b);
    assert(holds(v, a, k) && holds(v, b, k));
    if crate::text::lex_lt(a, b) {
        assert(clash(v, b).contains(k));
        assert(clashing(c).contains(b));
    } else {
        assert(clash(v, a).contains(k));
        assert(clashing(c).contains(a));
    }
}

/// Patching takes nothing away: the patched packages have the names they
/// had, and each holds at least the keys it held.
pub proof fn patching_keeps_keys(sel: CatalogView, includes: Seq<CatalogView>)
    ensures
        patch_all(sel, includes) matches Ok(out) ==> {
            &&& out.dom() == sel.dom()
            &&& forall|n: Seq<char>, k: Seq<char>|
                sel.contains_key(n) && sel[n].files.contains_key(k) ==> #[trigger] out[n].files.contains_key(k)
            &&& forall|n: Seq<char>, k: Seq<char>|
                sel.contains_key(n) && sel[n].variables.contains_key(k)
                    ==> #[trigger] out[n].variables.contains_key(k)
        },
    decreases includes.len(),
{
    if includes.len() > 0 {
        patching_keeps_keys(sel, includes.drop_last());
        if patch_all(sel, includes) is Ok {
            let mid = patch_all(sel, includes.drop_last())->Ok_0;
            let out = patch_all(sel, includes)->Ok_0;
            assert(out == patched(mid, includes.last()));
            assert(out.dom() =~= sel.dom());
            assert forall|n: Seq<char>, k: Seq<char>|
                sel.contains_key(n) && sel[n].files.contains_key(k) implies #[trigger] out[n].files.contains_key(k) by {
                assert(mid[n].files.contains_key(k));
            }
            assert forall|n: Seq<char>, k: Seq<char>|
                sel.contains_key(n) && sel[n].variables.contains_key(k) implies #[trigger] out[n].variables.contains_key(k) by {
                assert(mid[n].variables.contains_key(k));
            }
        }
    }
}

/// A file that two different selected packages hold is never overwritten in
/// silence: no patch and no override makes the merge succeed.
pub proof fn duplicate_file_fails_merge(
    helpers: Map<Seq<char>, String>,
    catalog: CatalogView,
    selection: Set<Seq<char>>,
    includes: Seq<CatalogView>,
    overrides: PackageView,
    a: Seq<char>,
    b: Seq<char>,
    k: Seq<char>,
)
    requires
        a != b,
        selected_file(catalog, selection, a, k),
        selected_file(catalog, selection, b, k),
    ensures
        merge_result(helpers, catalog, selection, includes, overrides) is Err,
{
    let sel = catalog.restrict(selection);
    patching_keeps_keys(sel, includes);
    if patch_all(sel, includes) is Ok {
        let out = patch_all(sel, includes)->Ok_0;
        assert(out.contains_key(a) && out.contains_key(b));
        assert(out[a].files.contains_key(k) && out[b].files.contains_key(k));
        shared_file_is_rejected(out, a, b, k);
    }
}

/// A variable that two different selected packages hold is never
/// overwritten in silence either.
pub proof fn duplicate_variable_fails_merge(
    helpers: Map<Seq<char>, String>,
    catalog: CatalogView,
    selection: Set<Seq<char>>,
    includes: Seq<CatalogView>,
    overrides: PackageView,
    a: Seq<char>,
    b: Seq<char>,
    k: Seq<char>,
)
    requires
        a != b,
        selected_variable(catalog, selection, a, k),
        selected_variable(catalog, selection, b, k),
    ensures
        merge_result(helpers, catalog, selection, includes, overrides) is Err,
{
    let sel = catalog.restrict(selection);
    patching_keeps_keys(sel, includes);
    if patch_all(sel, includes) is Ok {
        let out = patch_all(sel, includes)->Ok_0;
        assert(out.contains_key(a) && out.contains_key(b));
        assert(out[a].variables.contains_key(k) && out[b].variables.contains_key(k));
        shared_variable_is_rejected(out, a, b, k);
    }
}

/// The overrides always win and never fail: whether the merge succeeds does
/// not depend on them, and where it does, every variable of the overrides
/// is bound to the value given there, and every file of the overrides to
/// the target given there, unless that target is a tombstone.
pub proof fn overrides_win(
    helpers: Map<Seq<char>, String>,
    catalog: CatalogView,
    selection: Set<Seq<char>>,
    includes: Seq<CatalogView>,
    overrides: PackageView,
)
    ensures
        merge_result(helpers, catalog, selection, includes, overrides) is Ok <==> merge_result(
            helpers,
            catalog,
            selection,
            includes,
            PackageView::empty(),
        ) is Ok,
        merge_result(helpers, catalog, selection, includes, overrides) matches Ok(conf) ==> {
            &&& forall|k: Seq<char>|
                overrides.variables.contains_key(k) ==> conf.variables.contains_pair(
                    k,
                    overrides.variables[k],
                )
            &&& forall|k: Seq<char>|
                overrides.files.contains_key(k) && overrides.files[k]@.path.len() > 0
                    ==> conf.files.contains_pair(k, overrides.files[k])
            &&& forall|k: Seq<char>|
                overrides.files.contains_key(k) && overrides.files[k]@.path.len() == 0
                    ==> !conf.files.contains_key(k)
        },
{
}

/// No file of a resolved plan has an empty target path, whichever layer it
/// came from.
pub proof fn no_tombstone_survives(
    helpers: Map<Seq<char>, String>,
    catalog: CatalogView,
    selection: Set<Seq<char>>,
    includes: Seq<CatalogView>,
    overrides: PackageView,
)
    ensures
        merge_result(helpers, catalog, selection, includes, overrides) matches Ok(conf) ==> forall|
            k: Seq<char>,
        |
            conf.files.contains_key(k) ==> conf.files[k]@.path.len() > 0,
{
}

} // verus!
