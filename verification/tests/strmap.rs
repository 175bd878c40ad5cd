use dotter::strmap::StrMap;
use dotter::text::{join_path, rank, same_text, Rank};

fn keys(map: &StrMap<u32>) -> Vec<String> {
    map.entries().iter().map(|(k, _)| k.clone()).collect()
}

#[test]
fn rank_orders_by_code_point() {
    assert_eq!(rank("a", "b"), Rank::Before);
    assert_eq!(rank("b", "a"), Rank::After);
    assert_eq!(rank("abc", "abc"), Rank::Same);
    assert_eq!(rank("", ""), Rank::Same);
    assert_eq!(rank("", "a"), Rank::Before);
    assert_eq!(rank("ab", "a"), Rank::After);
    assert_eq!(rank("a.b", "a/b"), Rank::Before);
    assert_eq!(rank("Z", "a"), Rank::Before);
    assert_eq!(rank("é", "z"), Rank::After);
}

#[test]
fn rank_agrees_with_the_order_of_str() {
    let samples = ["", "a", "ab", "b", "a/b", "a.b", "~", "é", "日本", "z"];
    for a in samples {
        for b in samples {
            let expected = match a.cmp(b) {
                std::cmp::Ordering::Less => Rank::Before,
                std::cmp::Ordering::Equal => Rank::Same,
                std::cmp::Ordering::Greater => Rank::After,
            };
            assert_eq!(rank(a, b), expected);
        }
    }
}

#[test]
fn same_text_compares_content() {
    assert!(same_text("type", "type"));
    assert!(!same_text("type", "typ"));
    assert!(!same_text("type", "Type"));
    assert!(same_text("", ""));
}

#[test]
fn join_path_puts_one_separator_between() {
    assert_eq!(join_path("out", "a.txt"), "out/a.txt");
    assert_eq!(join_path("docs/", "a.txt"), "docs/a.txt");
    assert_eq!(join_path("", "a.txt"), "a.txt");
    assert_eq!(join_path("/", "etc"), "/etc");
    assert_eq!(join_path("a/b", "c"), "a/b/c");
    assert_eq!(join_path("a", ""), "a/");
}

#[test]
fn join_path_lets_an_absolute_child_stand_alone() {
    assert_eq!(join_path("a", "/b"), "/b");
    assert_eq!(join_path("", "/b"), "/b");
}

#[test]
fn new_map_is_empty() {
    let map: StrMap<u32> = StrMap::new();
    assert_eq!(map.len(), 0);
    assert!(map.is_empty());
    assert!(!map.contains_key("a"));
    assert_eq!(map.get("a"), None);
}

#[test]
fn insert_binds_and_replaces() {
    let mut map = StrMap::new();
    assert_eq!(map.insert("b".to_string(), 2), None);
    assert_eq!(map.insert("a".to_string(), 1), None);
    assert_eq!(map.insert("c".to_string(), 3), None);
    assert_eq!(map.len(), 3);
    assert_eq!(map.insert("b".to_string(), 20), Some(2));
    assert_eq!(map.len(), 3);
    assert_eq!(map.get("a"), Some(&1));
    assert_eq!(map.get("b"), Some(&20));
    assert_eq!(map.get("c"), Some(&3));
    assert!(map.contains_key("b"));
    assert!(!map.contains_key("d"));
}

#[test]
fn entries_ascend_by_key_whatever_the_order_of_insertion() {
    let mut map = StrMap::new();
    for key in ["m", "b", "z", "a", "ab", ""] {
        map.insert(key.to_string(), 0);
    }
    assert_eq!(keys(&map), vec!["", "a", "ab", "b", "m", "z"]);
    let mut other = StrMap::new();
    for key in ["", "z", "ab", "a", "m", "b"] {
        other.insert(key.to_string(), 0);
    }
    assert_eq!(map, other);
}

#[test]
fn remove_unbinds() {
    let mut map = StrMap::new();
    map.insert("a".to_string(), 1);
    map.insert("b".to_string(), 2);
    assert_eq!(map.remove("c"), None);
    assert_eq!(map.remove("a"), Some(1));
    assert_eq!(map.remove("a"), None);
    assert_eq!(map.len(), 1);
    assert_eq!(keys(&map), vec!["b"]);
}

#[test]
fn extend_lets_the_other_map_win() {
    let mut map = StrMap::new();
    map.insert("a".to_string(), 1);
    map.insert("b".to_string(), 2);
    let mut other = StrMap::new();
    other.insert("b".to_string(), 20);
    other.insert("c".to_string(), 30);
    map.extend(other);
    assert_eq!(
        map.into_entries(),
        vec![("a".to_string(), 1), ("b".to_string(), 20), ("c".to_string(), 30)]
    );
}

#[test]
fn clone_is_equal() {
    let mut map = StrMap::new();
    map.insert("x".to_string(), "1".to_string());
    map.insert("a".to_string(), "2".to_string());
    let copy = map.clone();
    assert_eq!(copy, map);
    assert_eq!(copy.get("x"), Some(&"1".to_string()));
}
