use dotter::config::Configuration;
use dotter::error::LoadConfigFailType;
use dotter::expand::{
    expand_directories, expand_directory, DirEntry, ExpandError, SourceFault, SourceNode,
};
use dotter::plan::expand_configuration;
use dotter::strmap::StrMap;
use dotter::target::{FileTarget, TemplateTarget};

fn plain(path: &str) -> FileTarget {
    FileTarget::Automatic(path.to_string())
}

fn file(name: &str) -> DirEntry {
    DirEntry { name: name.to_string(), node: SourceNode::File }
}

fn dir(name: &str, children: Vec<DirEntry>) -> DirEntry {
    DirEntry { name: name.to_string(), node: SourceNode::Directory(children) }
}

fn files(entries: &[(&str, &str)]) -> StrMap<FileTarget> {
    let mut map = StrMap::new();
    for (source, target) in entries {
        map.insert(source.to_string(), plain(target));
    }
    map
}

fn fault(steps: &[&str], fault: SourceFault) -> ExpandError {
    ExpandError { steps: steps.iter().map(|s| s.to_string()).collect(), fault }
}

#[test]
fn regular_file_expands_to_itself() {
    assert_eq!(
        expand_directory("vimrc", plain("~/.vimrc"), &SourceNode::File),
        Ok(files(&[("vimrc", "~/.vimrc")]))
    );
    let symbolic = FileTarget::Symbolic("~/.zshrc".to_string());
    let mut expected = StrMap::new();
    expected.insert("zshrc".to_string(), symbolic.clone());
    assert_eq!(expand_directory("zshrc", symbolic, &SourceNode::File), Ok(expected));
}

#[test]
fn directory_expands_to_its_files_below_the_target() {
    let docs = SourceNode::Directory(vec![file("a.txt"), file("b.txt")]);
    assert_eq!(
        expand_directory("docs/", plain("out"), &docs),
        Ok(files(&[("docs/a.txt", "out/a.txt"), ("docs/b.txt", "out/b.txt")]))
    );
}

#[test]
fn nested_directories_keep_their_structure() {
    let tree = SourceNode::Directory(vec![
        dir("a", vec![file("b"), dir("c", vec![file("d")])]),
        file("e"),
        dir("empty", vec![]),
    ]);
    assert_eq!(
        expand_directory("d", plain("t"), &tree),
        Ok(files(&[("d/a/b", "t/a/b"), ("d/a/c/d", "t/a/c/d"), ("d/e", "t/e")]))
    );
}

#[test]
fn empty_directory_expands_to_nothing() {
    assert_eq!(
        expand_directory("d", plain("t"), &SourceNode::Directory(vec![])),
        Ok(StrMap::new())
    );
}

#[test]
fn missing_source_is_a_metadata_fault() {
    assert_eq!(
        expand_directory("nowhere", plain("t"), &SourceNode::Missing),
        Err(fault(&[], SourceFault::Metadata))
    );
}

#[test]
fn unreadable_directory_is_a_read_fault() {
    assert_eq!(
        expand_directory("locked", plain("t"), &SourceNode::Unreadable),
        Err(fault(&[], SourceFault::ReadDir))
    );
}

#[test]
fn directory_with_a_target_that_is_not_plain_is_rejected() {
    let docs = SourceNode::Directory(vec![file("a.txt")]);
    assert_eq!(
        expand_directory("docs", FileTarget::Symbolic("out".to_string()), &docs),
        Err(fault(&[], SourceFault::ComplexTarget))
    );
    let template = FileTarget::ComplexTemplate(TemplateTarget {
        target: "out".to_string(),
        append: None,
        prepend: None,
    });
    assert_eq!(
        expand_directory("docs", template, &SourceNode::Directory(vec![])),
        Err(fault(&[], SourceFault::ComplexTarget))
    );
}

#[test]
fn fault_below_a_directory_names_the_way_down() {
    let tree = SourceNode::Directory(vec![
        file("ok"),
        dir("a", vec![file("fine"), DirEntry { name: "b".to_string(), node: SourceNode::Unreadable }]),
        DirEntry { name: "later".to_string(), node: SourceNode::Missing },
    ]);
    assert_eq!(
        expand_directory("d", plain("t"), &tree),
        Err(fault(&["d/a", "d/a/b"], SourceFault::ReadDir))
    );
}

#[test]
fn expand_directories_walks_the_plan_by_source() {
    let mut tree = StrMap::new();
    tree.insert("docs".to_string(), SourceNode::Directory(vec![file("a.txt"), file("b.txt")]));
    tree.insert("vimrc".to_string(), SourceNode::File);
    let plan = files(&[("vimrc", "~/.vimrc"), ("docs", "out")]);
    assert_eq!(
        expand_directories(plan, &tree),
        Ok(files(&[
            ("docs/a.txt", "out/a.txt"),
            ("docs/b.txt", "out/b.txt"),
            ("vimrc", "~/.vimrc")
        ]))
    );
}

#[test]
fn source_that_the_snapshot_does_not_hold_is_missing() {
    let mut tree = StrMap::new();
    tree.insert("a".to_string(), SourceNode::File);
    assert_eq!(
        expand_directories(files(&[("a", "1"), ("b", "2")]), &tree),
        Err(fault(&["b"], SourceFault::Metadata))
    );
}

#[test]
fn first_failing_source_is_reported() {
    let mut tree = StrMap::new();
    tree.insert("a".to_string(), SourceNode::Directory(vec![file("x")]));
    tree.insert("b".to_string(), SourceNode::Unreadable);
    let mut plan = StrMap::new();
    plan.insert("b".to_string(), plain("tb"));
    plan.insert("a".to_string(), FileTarget::Symbolic("ta".to_string()));
    assert_eq!(expand_directories(plan, &tree), Err(fault(&["a"], SourceFault::ComplexTarget)));
}

#[test]
fn later_source_stands_where_two_expand_to_the_same_file() {
    let mut tree = StrMap::new();
    tree.insert("d".to_string(), SourceNode::Directory(vec![file("f"), file("g")]));
    tree.insert("d/f".to_string(), SourceNode::File);
    let plan = files(&[("d", "t"), ("d/f", "special")]);
    assert_eq!(
        expand_directories(plan, &tree),
        Ok(files(&[("d/f", "special"), ("d/g", "t/g")]))
    );
}

#[test]
fn expand_configuration_keeps_variables_and_helpers() {
    let mut tree = StrMap::new();
    tree.insert("docs".to_string(), SourceNode::Directory(vec![file("a")]));
    let mut variables = toml::value::Table::new();
    variables.insert("v".to_string(), toml::Value::Integer(1));
    let mut helpers = StrMap::new();
    helpers.insert("h".to_string(), "h.rhai".to_string());
    let conf = Configuration {
        files: files(&[("docs", "out")]),
        variables: variables.clone(),
        helpers: helpers.clone(),
    };
    assert_eq!(
        expand_configuration(conf, &tree),
        Ok(Configuration { files: files(&[("docs/a", "out/a")]), variables, helpers })
    );
}

#[test]
fn expand_configuration_reports_an_invalid_source_tree() {
    let conf = Configuration {
        files: files(&[("gone", "out")]),
        variables: toml::value::Table::new(),
        helpers: StrMap::new(),
    };
    assert_eq!(
        expand_configuration(conf, &StrMap::new()),
        Err(LoadConfigFailType::InvalidSourceTree {
            source: fault(&["gone"], SourceFault::Metadata)
        })
    );
}

#[test]
fn within_puts_the_outer_source_first() {
    let inner = ExpandError::of(SourceFault::Metadata).within("a/b".to_string());
    assert_eq!(inner.within("a".to_string()), fault(&["a", "a/b"], SourceFault::Metadata));
}

#[test]
fn expansion_failure_in_words() {
    assert_eq!(ExpandError::of(SourceFault::Metadata).message(), "read file's metadata");
    assert_eq!(
        fault(&["d", "d/a"], SourceFault::ReadDir).message(),
        "expand file d: expand file d/a: read contents of directory"
    );
    assert_eq!(
        fault(&["docs"], SourceFault::ComplexTarget).message(),
        "expand file docs: complex file target not implemented for directories"
    );
    assert_eq!(SourceFault::ReadDir.describe(), "read contents of directory");
}

#[test]
fn directory_that_holds_itself_is_a_cycle() {
    let tree = SourceNode::Directory(vec![
        file("a"),
        DirEntry { name: "self".to_string(), node: SourceNode::Cycle },
    ]);
    assert_eq!(
        expand_directory("d", plain("t"), &tree),
        Err(fault(&["d/self"], SourceFault::Cycle))
    );
    assert_eq!(SourceFault::Cycle.describe(), "directory holds itself");
}
