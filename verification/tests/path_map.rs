use pathkeep::config::exclude::{Check, Reason};
use pathkeep::config::path_map::PathMap;

#[test]
fn new_map_is_empty() {
    let map: PathMap<Check> = PathMap::new();
    assert!(map.is_empty());
    assert_eq!(map.len(), 0);
    assert!(map.get(&"/a".to_string()).is_none());
}

#[test]
fn insert_then_get() {
    let mut map: PathMap<Check> = PathMap::new();
    map.insert("/a".to_string(), Check::new_valid());
    map.insert("/b".to_string(), Check::new_invalid(Reason::GitIgnored));
    assert_eq!(map.len(), 2);
    assert!(!map.is_empty());
    assert!(map.get(&"/a".to_string()).unwrap().valid);
    assert_eq!(map.get(&"/b".to_string()).unwrap().invalid_reason, Some(Reason::GitIgnored));
    assert!(map.contains_key(&"/a".to_string()));
    assert!(!map.contains_key(&"/c".to_string()));
}

#[test]
fn insert_on_a_held_path_replaces() {
    let mut map: PathMap<Check> = PathMap::new();
    map.insert("/a".to_string(), Check::new_valid());
    map.insert("/a".to_string(), Check::new_invalid(Reason::NotDirectory));
    assert_eq!(map.len(), 1);
    let check = map.get(&"/a".to_string()).unwrap();
    assert!(!check.valid);
    assert_eq!(check.invalid_reason, Some(Reason::NotDirectory));
}

#[test]
fn clear_forgets_everything() {
    let mut map: PathMap<Check> = PathMap::new();
    map.insert("/a".to_string(), Check::new_valid());
    map.clear();
    assert!(map.is_empty());
    assert!(!map.contains_key(&"/a".to_string()));
}

#[test]
fn entries_hold_each_path_once() {
    let mut map: PathMap<Check> = PathMap::new();
    map.insert("/a".to_string(), Check::new_valid());
    map.insert("/b".to_string(), Check::new_valid());
    map.insert("/a".to_string(), Check::new_valid());
    let mut paths: Vec<String> = map.entries().iter().map(|k| k.path.clone()).collect();
    paths.sort();
    assert_eq!(paths, vec!["/a".to_string(), "/b".to_string()]);
}
