use dotter::config::Cache;
use dotter::error::{cache_outcome, LoadConfigFailType, LoadFailure};
use dotter::expand::{ExpandError, SourceFault};
use dotter::locate::{Search, Step};
use dotter::merge::MergeConflict;
use dotter::plan::dummy_config;
use dotter::strmap::StrMap;
use dotter::target::FileTarget;
use dotter::tilde::expand_tildes;

fn search(components: &[&str]) -> Search {
    Search::start(components.iter().map(|s| s.to_string()).collect())
}

#[test]
fn loaded_configuration_ends_the_search() {
    assert_eq!(search(&["home", "me"]).next_step(Ok(7)), Step::Done(Ok(7)));
}

#[test]
fn missing_configuration_sends_the_search_up() {
    assert_eq!(
        search(&["home", "me", "dotfiles"]).next_step::<u8>(Err(LoadConfigFailType::Find)),
        Step::Retry(search(&["home", "me"]))
    );
    assert_eq!(
        search(&["home"]).next_step::<u8>(Err(LoadConfigFailType::Find)),
        Step::Retry(search(&[]))
    );
}

#[test]
fn missing_configuration_at_the_root_ends_the_search() {
    assert_eq!(
        search(&[]).next_step::<u8>(Err(LoadConfigFailType::Find)),
        Step::Done(Err(LoadConfigFailType::Find))
    );
}

#[test]
fn any_other_failure_ends_the_search_at_once() {
    let parse = LoadConfigFailType::Parse { file: "local.toml".to_string(), reason: "eof".to_string() };
    assert_eq!(
        search(&["a", "b"]).next_step::<u8>(Err(parse.clone())),
        Step::Done(Err(parse))
    );
    let tree = LoadConfigFailType::InvalidSourceTree {
        source: ExpandError::of(SourceFault::Metadata),
    };
    assert_eq!(search(&["a"]).next_step::<u8>(Err(tree.clone())), Step::Done(Err(tree)));
    let merge = LoadConfigFailType::MergeConflict {
        conflict: MergeConflict::DuplicateFile("f".to_string()),
    };
    assert_eq!(search(&["a"]).next_step::<u8>(Err(merge.clone())), Step::Done(Err(merge)));
}

#[test]
fn search_from_depth_n_makes_n_plus_one_attempts() {
    for depth in 0..5usize {
        let start: Vec<String> = (0..depth).map(|i| format!("d{}", i)).collect();
        let mut state = Search::start(start);
        let mut attempts = 0;
        let result = loop {
            attempts += 1;
            match state.next_step::<u8>(Err(LoadConfigFailType::Find)) {
                Step::Retry(up) => state = up,
                Step::Done(result) => break result,
            }
        };
        assert_eq!(attempts, depth + 1);
        assert_eq!(result, Err(LoadConfigFailType::Find));
    }
}

#[test]
fn failure_to_open_the_global_configuration_means_not_found() {
    assert_eq!(
        LoadConfigFailType::of_global("global.toml".to_string(), LoadFailure::Open),
        LoadConfigFailType::Find
    );
    assert_eq!(
        LoadConfigFailType::of_global(
            "global.toml".to_string(),
            LoadFailure::Invalid("expected a table".to_string())
        ),
        LoadConfigFailType::Parse {
            file: "global.toml".to_string(),
            reason: "expected a table".to_string()
        }
    );
}

#[test]
fn failure_to_load_any_other_document_is_a_parse_failure() {
    assert_eq!(
        LoadConfigFailType::of_document("local.toml".to_string(), LoadFailure::Open),
        LoadConfigFailType::Parse { file: "local.toml".to_string(), reason: "open file".to_string() }
    );
    assert_eq!(
        LoadConfigFailType::of_document(
            "inc.toml".to_string(),
            LoadFailure::Invalid("bad".to_string())
        ),
        LoadConfigFailType::Parse { file: "inc.toml".to_string(), reason: "bad".to_string() }
    );
}

#[test]
fn load_failures_in_words() {
    assert_eq!(LoadConfigFailType::Find.message(), "find config files");
    assert_eq!(
        LoadConfigFailType::Parse { file: "a.toml".to_string(), reason: "x".to_string() }.message(),
        "parse config file a.toml"
    );
    assert_eq!(
        LoadConfigFailType::InvalidSourceTree { source: ExpandError::of(SourceFault::ReadDir) }
            .message(),
        "inspect source files"
    );
    assert_eq!(
        LoadConfigFailType::MergeConflict {
            conflict: MergeConflict::UnselectedPackage("p".to_string())
        }
        .message(),
        "merge packages"
    );
}

#[test]
fn dummy_config_holds_one_default_package() {
    let (global, local) = dummy_config(vec!["b".to_string(), "a".to_string(), "b".to_string()]);
    assert!(global.helpers.is_empty());
    assert_eq!(global.packages.len(), 1);
    let package = global.packages.get("default").unwrap();
    let mut expected = StrMap::new();
    expected.insert("a".to_string(), FileTarget::Automatic(String::new()));
    expected.insert("b".to_string(), FileTarget::Automatic(String::new()));
    assert_eq!(package.files, expected);
    assert!(package.variables.is_empty());
    assert!(local.includes.is_empty());
    assert_eq!(local.packages, vec!["default".to_string()]);
    assert!(local.files.is_empty());
    assert!(local.variables.is_empty());
}

#[test]
fn default_cache_is_empty() {
    let cache = Cache::default();
    assert!(cache.symlinks.is_empty());
    assert!(cache.templates.is_empty());
}

#[test]
fn paths_without_the_home_marker_stay() {
    let mut files = StrMap::new();
    files.insert("a".to_string(), FileTarget::Automatic("/etc/a".to_string()));
    files.insert("b".to_string(), FileTarget::Symbolic("relative/b".to_string()));
    files.insert("c".to_string(), FileTarget::Automatic("~other/c".to_string()));
    files.insert("d".to_string(), FileTarget::Automatic("x/~/d".to_string()));
    files.insert("e".to_string(), FileTarget::Automatic(String::new()));
    assert_eq!(expand_tildes(files.clone()), files);
}

#[test]
fn home_marker_is_replaced_as_shellexpand_does() {
    let mut files = StrMap::new();
    files.insert("a".to_string(), FileTarget::Automatic("~/.config/a".to_string()));
    files.insert("b".to_string(), FileTarget::Symbolic("~".to_string()));
    let out = expand_tildes(files);
    assert_eq!(
        out.get("a"),
        Some(&FileTarget::Automatic(shellexpand::tilde("~/.config/a").into_owned()))
    );
    assert_eq!(out.get("b"), Some(&FileTarget::Symbolic(shellexpand::tilde("~").into_owned())));
    assert!(out.get("a").unwrap().path().ends_with("/.config/a"));
    assert_eq!(out.len(), 2);
}

#[test]
fn home_marker_is_gone_where_a_home_directory_is_known() {
    let home = shellexpand::tilde("~").into_owned();
    if home != "~" {
        let mut files = StrMap::new();
        files.insert("a".to_string(), FileTarget::Automatic("~/a".to_string()));
        let out = expand_tildes(files);
        assert_eq!(out.get("a"), Some(&FileTarget::Automatic(format!("{}/a", home))));
        assert_ne!(out.get("a"), Some(&FileTarget::Automatic("~/a".to_string())));
    }
}

#[test]
fn cache_that_cannot_be_opened_is_no_cache() {
    assert_eq!(cache_outcome(Err(LoadFailure::Open)), Ok(None));
    assert_eq!(
        cache_outcome(Err(LoadFailure::Invalid("bad".to_string()))),
        Err("bad".to_string())
    );
    let mut cache = Cache::default();
    cache.symlinks.insert("a".to_string(), "b".to_string());
    let mut same = Cache::default();
    same.symlinks.insert("a".to_string(), "b".to_string());
    assert_eq!(cache_outcome(Ok(cache)), Ok(Some(same)));
}
