use dotter::config::{Configuration, GlobalConfig, LocalConfig, Package};
use dotter::merge::{
    absorb_package, drop_tombstones, flatten_packages, merge_configuration_tables,
    override_package, patch_packages, select_packages, MergeConflict,
};
use dotter::strmap::StrMap;
use dotter::target::{FileTarget, TemplateTarget};
use toml::value::Table;
use toml::Value;

fn plain(path: &str) -> FileTarget {
    FileTarget::Automatic(path.to_string())
}

fn files(entries: &[(&str, &str)]) -> StrMap<FileTarget> {
    let mut map = StrMap::new();
    for (source, target) in entries {
        map.insert(source.to_string(), plain(target));
    }
    map
}

fn variables(entries: &[(&str, Value)]) -> Table {
    let mut table = Table::new();
    for (name, value) in entries {
        table.insert(name.to_string(), value.clone());
    }
    table
}

fn package(file_entries: &[(&str, &str)], variable_entries: &[(&str, Value)]) -> Package {
    Package { files: files(file_entries), variables: variables(variable_entries) }
}

fn catalog(packages: Vec<(&str, Package)>) -> StrMap<Package> {
    let mut map = StrMap::new();
    for (name, p) in packages {
        map.insert(name.to_string(), p);
    }
    map
}

fn global(packages: Vec<(&str, Package)>) -> GlobalConfig {
    GlobalConfig { helpers: StrMap::new(), packages: catalog(packages) }
}

fn local(selection: &[&str], file_entries: &[(&str, &str)]) -> LocalConfig {
    LocalConfig {
        includes: vec![],
        packages: selection.iter().map(|s| s.to_string()).collect(),
        files: files(file_entries),
        variables: Table::new(),
    }
}

fn text(s: &str) -> Value {
    Value::String(s.to_string())
}

#[test]
fn two_selected_packages_resolve_to_the_files_of_both() {
    let g = global(vec![("a", package(&[("f1", "t1")], &[])), ("b", package(&[("f2", "t2")], &[]))]);
    let l = local(&["a", "b"], &[]);
    let conf = merge_configuration_tables(g, l, vec![]).unwrap();
    assert_eq!(conf.files, files(&[("f1", "t1"), ("f2", "t2")]));
    assert_eq!(conf.variables, Table::new());
    assert!(conf.helpers.is_empty());
}

#[test]
fn local_override_with_empty_target_removes_the_file() {
    let g = global(vec![("a", package(&[("f1", "t1")], &[])), ("b", package(&[("f2", "t2")], &[]))]);
    let l = local(&["a", "b"], &[("f1", "")]);
    let conf = merge_configuration_tables(g, l, vec![]).unwrap();
    assert_eq!(conf.files, files(&[("f2", "t2")]));
}

#[test]
fn unselected_packages_contribute_nothing() {
    let g = global(vec![
        ("a", package(&[("f1", "t1")], &[("va", Value::Integer(1))])),
        ("b", package(&[("f2", "t2")], &[("vb", Value::Integer(2))])),
        ("c", package(&[("f3", "t3")], &[("vc", Value::Integer(3))])),
    ]);
    let l = local(&["c", "a"], &[]);
    let conf = merge_configuration_tables(g, l, vec![]).unwrap();
    assert_eq!(conf.files, files(&[("f1", "t1"), ("f3", "t3")]));
    assert_eq!(
        conf.variables,
        variables(&[("va", Value::Integer(1)), ("vc", Value::Integer(3))])
    );
}

#[test]
fn selecting_an_unknown_name_selects_nothing_for_it() {
    let g = global(vec![("a", package(&[("f1", "t1")], &[]))]);
    let l = local(&["a", "ghost"], &[]);
    let conf = merge_configuration_tables(g, l, vec![]).unwrap();
    assert_eq!(conf.files, files(&[("f1", "t1")]));
}

#[test]
fn empty_selection_resolves_to_the_overrides_alone() {
    let g = global(vec![("a", package(&[("f1", "t1")], &[("v", text("x"))]))]);
    let mut l = local(&[], &[("mine", "there")]);
    l.variables = variables(&[("own", Value::Boolean(true))]);
    let conf = merge_configuration_tables(g, l, vec![]).unwrap();
    assert_eq!(conf.files, files(&[("mine", "there")]));
    assert_eq!(conf.variables, variables(&[("own", Value::Boolean(true))]));
}

#[test]
fn duplicate_file_across_packages_is_rejected() {
    let g = global(vec![
        ("a", package(&[("shared", "t1")], &[])),
        ("b", package(&[("shared", "t2")], &[])),
    ]);
    let l = local(&["a", "b"], &[]);
    assert_eq!(
        merge_configuration_tables(g, l, vec![]),
        Err(MergeConflict::DuplicateFile("shared".to_string()))
    );
}

#[test]
fn duplicate_file_is_rejected_even_with_equal_targets() {
    let g = global(vec![
        ("a", package(&[("shared", "t")], &[])),
        ("b", package(&[("shared", "t")], &[])),
    ]);
    let l = local(&["b", "a"], &[("shared", "elsewhere")]);
    assert_eq!(
        merge_configuration_tables(g, l, vec![]),
        Err(MergeConflict::DuplicateFile("shared".to_string()))
    );
}

#[test]
fn duplicate_in_an_unselected_package_is_no_conflict() {
    let g = global(vec![
        ("a", package(&[("shared", "t1")], &[("v", text("a"))])),
        ("b", package(&[("shared", "t2")], &[("v", text("b"))])),
    ]);
    let l = local(&["b"], &[]);
    let conf = merge_configuration_tables(g, l, vec![]).unwrap();
    assert_eq!(conf.files, files(&[("shared", "t2")]));
    assert_eq!(conf.variables, variables(&[("v", text("b"))]));
}

#[test]
fn duplicate_variable_across_packages_is_rejected() {
    let g = global(vec![
        ("a", package(&[("f1", "t1")], &[("name", text("a"))])),
        ("b", package(&[("f2", "t2")], &[("name", text("b"))])),
    ]);
    let l = local(&["a", "b"], &[]);
    assert_eq!(
        merge_configuration_tables(g, l, vec![]),
        Err(MergeConflict::DuplicateVariable("name".to_string()))
    );
}

#[test]
fn first_conflict_by_package_then_files_then_key() {
    // Package b clashes with a over a variable, package c with a over two files:
    // b comes first by name, so its variable is reported.
    let g = global(vec![
        ("a", package(&[("f1", "t"), ("f2", "t")], &[("v", text("a"))])),
        ("b", package(&[], &[("v", text("b"))])),
        ("c", package(&[("f2", "t"), ("f1", "t")], &[])),
    ]);
    assert_eq!(
        merge_configuration_tables(g, local(&["a", "b", "c"], &[]), vec![]),
        Err(MergeConflict::DuplicateVariable("v".to_string()))
    );
    // Within one package files are looked at before variables, by ascending key.
    let g = global(vec![
        ("a", package(&[("f1", "t"), ("f2", "t")], &[("v", text("a"))])),
        ("c", package(&[("f2", "t"), ("f1", "t")], &[("v", text("c"))])),
    ]);
    assert_eq!(
        merge_configuration_tables(g, local(&["a", "c"], &[]), vec![]),
        Err(MergeConflict::DuplicateFile("f1".to_string()))
    );
}

#[test]
fn local_entries_win_over_package_entries() {
    let g = global(vec![("a", package(&[("f1", "t1"), ("f2", "t2")], &[("v", text("global"))]))]);
    let mut l = local(&["a"], &[("f1", "override")]);
    l.variables = variables(&[("v", text("local")), ("w", Value::Integer(7))]);
    let conf = merge_configuration_tables(g, l, vec![]).unwrap();
    assert_eq!(conf.files, files(&[("f1", "override"), ("f2", "t2")]));
    assert_eq!(conf.variables, variables(&[("v", text("local")), ("w", Value::Integer(7))]));
}

#[test]
fn tombstones_are_dropped_whichever_layer_they_come_from() {
    let g = global(vec![("a", package(&[("gone", ""), ("kept", "k")], &[]))]);
    let l = local(&["a"], &[("also_gone", "")]);
    let conf = merge_configuration_tables(g, l, vec![]).unwrap();
    assert_eq!(conf.files, files(&[("kept", "k")]));

    let mut patch = StrMap::new();
    patch.insert("a".to_string(), package(&[("kept", "")], &[]));
    let g = global(vec![("a", package(&[("kept", "k"), ("other", "o")], &[]))]);
    let conf = merge_configuration_tables(g, local(&["a"], &[]), vec![patch]).unwrap();
    assert_eq!(conf.files, files(&[("other", "o")]));
}

#[test]
fn tombstone_of_any_variant_is_dropped() {
    let mut all = StrMap::new();
    all.insert("a".to_string(), FileTarget::Symbolic(String::new()));
    all.insert(
        "b".to_string(),
        FileTarget::ComplexTemplate(TemplateTarget {
            target: String::new(),
            append: Some("x".to_string()),
            prepend: None,
        }),
    );
    all.insert("c".to_string(), FileTarget::Symbolic("c".to_string()));
    let mut expected = StrMap::new();
    expected.insert("c".to_string(), FileTarget::Symbolic("c".to_string()));
    assert_eq!(drop_tombstones(all), expected);
}

#[test]
fn patch_documents_lay_their_entries_over_the_selected_package() {
    let g = global(vec![
        ("a", package(&[("f1", "t1"), ("f2", "t2")], &[("v", text("old")), ("u", text("u"))])),
        ("b", package(&[("f3", "t3")], &[])),
    ]);
    let mut patch = StrMap::new();
    patch.insert("a".to_string(), package(&[("f2", "patched"), ("f4", "t4")], &[("v", text("new"))]));
    let conf = merge_configuration_tables(g, local(&["a", "b"], &[]), vec![patch]).unwrap();
    assert_eq!(
        conf.files,
        files(&[("f1", "t1"), ("f2", "patched"), ("f3", "t3"), ("f4", "t4")])
    );
    assert_eq!(conf.variables, variables(&[("u", text("u")), ("v", text("new"))]));
}

#[test]
fn later_patch_documents_go_over_earlier_ones() {
    let g = global(vec![("a", package(&[("f", "t")], &[]))]);
    let mut first = StrMap::new();
    first.insert("a".to_string(), package(&[("f", "first")], &[]));
    let mut second = StrMap::new();
    second.insert("a".to_string(), package(&[("f", "second")], &[]));
    let conf = merge_configuration_tables(g, local(&["a"], &[]), vec![first, second]).unwrap();
    assert_eq!(conf.files, files(&[("f", "second")]));
}

#[test]
fn patch_for_an_unselected_package_is_rejected() {
    let g = global(vec![
        ("a", package(&[("f1", "t1")], &[])),
        ("b", package(&[("f2", "t2")], &[])),
    ]);
    let mut patch = StrMap::new();
    patch.insert("a".to_string(), package(&[], &[]));
    patch.insert("b".to_string(), package(&[], &[]));
    patch.insert("zz".to_string(), package(&[], &[]));
    assert_eq!(
        merge_configuration_tables(g, local(&["a"], &[]), vec![patch]),
        Err(MergeConflict::UnselectedPackage("b".to_string()))
    );
}

#[test]
fn patch_can_create_a_conflict_between_packages() {
    let g = global(vec![
        ("a", package(&[("f1", "t1")], &[])),
        ("b", package(&[("f2", "t2")], &[])),
    ]);
    let mut patch = StrMap::new();
    patch.insert("b".to_string(), package(&[("f1", "again")], &[]));
    assert_eq!(
        merge_configuration_tables(g, local(&["a", "b"], &[]), vec![patch]),
        Err(MergeConflict::DuplicateFile("f1".to_string()))
    );
}

#[test]
fn helpers_are_carried_through_unfiltered() {
    let mut helpers = StrMap::new();
    helpers.insert("fmt".to_string(), "helpers/fmt.rhai".to_string());
    helpers.insert("os".to_string(), "helpers/os.rhai".to_string());
    let g = GlobalConfig { helpers: helpers.clone(), packages: catalog(vec![]) };
    let conf = merge_configuration_tables(g, local(&[], &[]), vec![]).unwrap();
    assert_eq!(conf.helpers, helpers);
}

#[test]
fn structured_variable_values_pass_through_untouched() {
    let mut nested = Table::new();
    nested.insert("size".to_string(), Value::Integer(12));
    nested.insert("ratio".to_string(), Value::Float(1.5));
    let list = Value::Array(vec![text("a"), Value::Boolean(false)]);
    let g = global(vec![(
        "a",
        package(&[], &[("font", Value::Table(nested.clone())), ("list", list.clone())]),
    )]);
    let conf = merge_configuration_tables(g, local(&["a"], &[]), vec![]).unwrap();
    assert_eq!(conf.variables.get("font"), Some(&Value::Table(nested)));
    assert_eq!(conf.variables.get("list"), Some(&list));
    assert_eq!(conf.variables.len(), 2);
}

#[test]
fn select_packages_keeps_the_named_ones() {
    let all = catalog(vec![
        ("a", package(&[("f1", "t1")], &[])),
        ("b", package(&[("f2", "t2")], &[])),
        ("c", package(&[("f3", "t3")], &[])),
    ]);
    let names = vec!["c".to_string(), "a".to_string(), "c".to_string()];
    let kept = select_packages(all, &names);
    assert_eq!(
        kept,
        catalog(vec![("a", package(&[("f1", "t1")], &[])), ("c", package(&[("f3", "t3")], &[]))])
    );
    assert_eq!(select_packages(catalog(vec![("a", package(&[], &[]))]), &vec![]), catalog(vec![]));
}

#[test]
fn patch_packages_patches_only_the_named_package() {
    let selected = catalog(vec![
        ("a", package(&[("f1", "t1")], &[("v", text("a"))])),
        ("b", package(&[("f2", "t2")], &[])),
    ]);
    let patch = catalog(vec![("b", package(&[("f2", "new"), ("f9", "t9")], &[("w", text("b"))]))]);
    assert_eq!(
        patch_packages(selected, patch),
        Ok(catalog(vec![
            ("a", package(&[("f1", "t1")], &[("v", text("a"))])),
            ("b", package(&[("f2", "new"), ("f9", "t9")], &[("w", text("b"))])),
        ]))
    );
}

#[test]
fn absorb_package_unites_or_reports_the_first_shared_key() {
    assert_eq!(
        absorb_package(
            package(&[("a", "1")], &[("x", text("1"))]),
            package(&[("b", "2")], &[("y", text("2"))])
        ),
        Ok(package(&[("a", "1"), ("b", "2")], &[("x", text("1")), ("y", text("2"))]))
    );
    assert_eq!(
        absorb_package(
            package(&[("a", "1"), ("c", "1"), ("d", "1")], &[("x", text("1"))]),
            package(&[("d", "2"), ("c", "2"), ("b", "2")], &[("x", text("2"))])
        ),
        Err(MergeConflict::DuplicateFile("c".to_string()))
    );
    assert_eq!(
        absorb_package(
            package(&[("a", "1")], &[("x", text("1")), ("m", text("1")), ("k", text("1"))]),
            package(&[("b", "2")], &[("m", text("2")), ("k", text("2"))])
        ),
        Err(MergeConflict::DuplicateVariable("k".to_string()))
    );
}

#[test]
fn flatten_of_nothing_is_the_empty_package() {
    assert_eq!(flatten_packages(catalog(vec![])), Ok(Package::new()));
    assert_eq!(Package::default(), package(&[], &[]));
}

#[test]
fn flatten_unites_disjoint_packages() {
    let all = catalog(vec![
        ("z", package(&[("f3", "t3")], &[("c", Value::Integer(3))])),
        ("a", package(&[("f1", "t1")], &[("a", Value::Integer(1))])),
        ("m", package(&[("f2", "t2")], &[("b", Value::Integer(2))])),
    ]);
    assert_eq!(
        flatten_packages(all),
        Ok(package(
            &[("f1", "t1"), ("f2", "t2"), ("f3", "t3")],
            &[("a", Value::Integer(1)), ("b", Value::Integer(2)), ("c", Value::Integer(3))]
        ))
    );
}

#[test]
fn override_package_replaces_and_adds() {
    let out = override_package(
        package(&[("a", "1"), ("b", "2")], &[("x", text("1")), ("y", text("2"))]),
        files(&[("b", "B"), ("c", "C")]),
        variables(&[("y", text("Y")), ("z", text("Z"))]),
    );
    assert_eq!(
        out,
        package(
            &[("a", "1"), ("b", "B"), ("c", "C")],
            &[("x", text("1")), ("y", text("Y")), ("z", text("Z"))]
        )
    );
}

#[test]
fn conflict_messages_name_the_key() {
    assert_eq!(
        MergeConflict::DuplicateFile("f1".to_string()).message(),
        "file defined by two selected packages: f1"
    );
    assert_eq!(
        MergeConflict::DuplicateVariable("v".to_string()).message(),
        "variable defined by two selected packages: v"
    );
    assert_eq!(
        MergeConflict::UnselectedPackage("p".to_string()).message(),
        "patch for a package that is not selected: p"
    );
}

#[test]
fn configuration_clone_is_equal() {
    let conf = Configuration {
        files: files(&[("a", "1")]),
        variables: variables(&[("v", Value::Integer(3))]),
        helpers: StrMap::new(),
    };
    assert_eq!(conf.clone(), conf);
}
