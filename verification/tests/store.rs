use pathkeep::commands::{parse_excludes, Commands};
use pathkeep::config::config::Config;
use pathkeep::config::entry::PathEntry;
use pathkeep::config::exclude::{Check, Reason};
use pathkeep::config::path_map::PathMap;
use pathkeep::scan::walk::{Snapshot, Survey, WalkEvent};

fn strings(items: &[&str]) -> Vec<String> {
    items.iter().map(|s| s.to_string()).collect()
}

fn dir(path: &str, depth: usize) -> WalkEvent {
    WalkEvent::Entry { path: path.to_string(), is_dir: true, depth }
}

fn store() -> Config {
    Config::new("/cfg/config.toml".to_string())
}

fn roots(config: &Config) -> Vec<String> {
    config.path_entries.iter().map(|e| e.path.clone()).collect()
}

fn discovered(entry: &PathEntry) -> Vec<(String, bool, Option<Reason>)> {
    let mut out: Vec<(String, bool, Option<Reason>)> = entry
        .discovered_paths
        .entries()
        .iter()
        .map(|k| (k.path.clone(), k.value.valid, k.value.invalid_reason.clone()))
        .collect();
    out.sort_by(|a, b| a.0.cmp(&b.0));
    out
}

fn add(paths: &[&str], prepend: bool, exclude: Option<&str>, max_depth: u8) -> Commands {
    Commands::Add {
        paths: strings(paths),
        prepend,
        exclude: exclude.map(String::from),
        make_exec: true,
        max_depth,
    }
}

fn disk() -> Snapshot {
    let mut snapshot: Snapshot = PathMap::new();
    snapshot.insert(
        "/R".to_string(),
        Survey {
            is_dir: true,
            events: vec![dir("/R", 0), dir("/R/a", 1), dir("/R/temp", 1), dir("/R/old", 1)],
        },
    );
    snapshot.insert("/S".to_string(), Survey { is_dir: true, events: vec![dir("/S", 0), dir("/S/bin", 1)] });
    snapshot.insert("/F".to_string(), Survey { is_dir: false, events: vec![] });
    snapshot
}

#[test]
fn new_store_has_no_entries_and_the_default_excludes() {
    let config = store();
    assert!(config.path_entries.is_empty());
    assert_eq!(config.config_path, "/cfg/config.toml".to_string());
    assert_eq!(config.default_excludes, pathkeep::config::exclude::default());
}

#[test]
fn new_entry_has_nothing_discovered() {
    let entry = PathEntry::new("/R".to_string(), true, strings(&["x"]), 5);
    assert_eq!(entry.path, "/R".to_string());
    assert!(entry.prepend);
    assert_eq!(entry.exclude_patterns, strings(&["x"]));
    assert_eq!(entry.max_depth, 5);
    assert!(entry.discovered_paths.is_empty());
    assert!(entry.is_recursive());
    assert!(!PathEntry::new("/R".to_string(), false, vec![], 1).is_recursive());
    assert!(!PathEntry::new("/R".to_string(), false, vec![], 0).is_recursive());
    assert!(PathEntry::new("/R".to_string(), false, vec![], 2).is_recursive());
}

#[test]
fn exclude_list_is_split_at_commas() {
    assert_eq!(parse_excludes(Some(&"a,b*,*c".to_string())), strings(&["a", "b*", "*c"]));
    assert_eq!(parse_excludes(Some(&"a,,b".to_string())), strings(&["a", "", "b"]));
    assert_eq!(parse_excludes(Some(&"".to_string())), strings(&[""]));
    assert_eq!(parse_excludes(None), Vec::<String>::new());
}

#[test]
fn insert_entry_appends_or_prepends() {
    let mut config = store();
    assert!(config.insert_entry(PathEntry::new("/a".to_string(), false, vec![], 1)));
    assert!(config.insert_entry(PathEntry::new("/b".to_string(), false, vec![], 1)));
    assert!(config.insert_entry(PathEntry::new("/c".to_string(), true, vec![], 1)));
    assert_eq!(roots(&config), strings(&["/c", "/a", "/b"]));
    assert!(config.has_root(&"/a".to_string()));
    assert!(!config.has_root(&"/d".to_string()));
}

#[test]
fn insert_entry_drops_a_registered_root() {
    let mut config = store();
    assert!(config.insert_entry(PathEntry::new("/a".to_string(), false, strings(&["x"]), 1)));
    assert!(config.insert_entry(PathEntry::new("/b".to_string(), false, vec![], 1)));
    assert!(!config.insert_entry(PathEntry::new("/a".to_string(), true, strings(&["y"]), 7)));
    assert_eq!(roots(&config), strings(&["/a", "/b"]));
    assert_eq!(config.path_entries[0].exclude_patterns, strings(&["x"]));
    assert_eq!(config.path_entries[0].max_depth, 1);
    assert!(!config.path_entries[0].prepend);
}

#[test]
fn add_scans_a_recursive_entry() {
    let mut config = store();
    add(&["/R"], false, Some("old"), 5).execute(&mut config, &disk());
    assert_eq!(roots(&config), strings(&["/R"]));
    let entry = &config.path_entries[0];
    assert_eq!(entry.exclude_patterns, strings(&["old"]));
    assert_eq!(entry.max_depth, 5);
    assert!(!entry.prepend);
    assert_eq!(
        discovered(entry),
        vec![
            ("/R/a".to_string(), true, None),
            ("/R/old".to_string(), false, Some(Reason::ExcludePattern("old".to_string()))),
            ("/R/temp".to_string(), false, Some(Reason::DefaultExclude("temp".to_string()))),
        ]
    );
}

#[test]
fn add_without_depth_discovers_nothing() {
    for depth in [0u8, 1u8] {
        let mut config = store();
        add(&["/R"], false, None, depth).execute(&mut config, &disk());
        assert_eq!(roots(&config), strings(&["/R"]));
        assert!(config.path_entries[0].discovered_paths.is_empty());
        assert!(config.path_entries[0].exclude_patterns.is_empty());
    }
}

#[test]
fn add_the_same_root_twice_changes_nothing() {
    let mut config = store();
    add(&["/S"], false, None, 5).execute(&mut config, &disk());
    add(&["/R"], false, None, 5).execute(&mut config, &disk());
    let before = roots(&config);
    add(&["/S"], true, Some("bin"), 3).execute(&mut config, &disk());
    assert_eq!(roots(&config), before);
    assert_eq!(config.path_entries.len(), 2);
    assert_eq!(config.path_entries[0].max_depth, 5);
    assert!(config.path_entries[0].exclude_patterns.is_empty());
    assert_eq!(discovered(&config.path_entries[0]), vec![("/S/bin".to_string(), true, None)]);
}

#[test]
fn add_the_same_root_twice_in_one_command() {
    let mut config = store();
    add(&["/S", "/R", "/S"], false, None, 5).execute(&mut config, &disk());
    assert_eq!(roots(&config), strings(&["/S", "/R"]));
}

#[test]
fn add_prepends_each_root_in_turn() {
    let mut config = store();
    add(&["/S"], false, None, 1).execute(&mut config, &disk());
    add(&["/R", "/F"], true, None, 1).execute(&mut config, &disk());
    assert_eq!(roots(&config), strings(&["/F", "/R", "/S"]));
    assert!(config.path_entries[0].prepend);
    assert!(!config.path_entries[2].prepend);
}

#[test]
fn add_of_a_root_that_is_a_file_or_gone_records_that() {
    let mut config = store();
    add(&["/F", "/gone"], false, None, 5).execute(&mut config, &disk());
    assert_eq!(
        discovered(&config.path_entries[0]),
        vec![("/F".to_string(), false, Some(Reason::NotDirectory))]
    );
    assert_eq!(
        discovered(&config.path_entries[1]),
        vec![("/gone".to_string(), false, Some(Reason::DoesNotExist))]
    );
}

#[test]
fn add_to_path_alone_scans_only_the_new_entry() {
    let mut config = store();
    let mut stale = PathEntry::new("/S".to_string(), false, vec![], 5);
    stale.discovered_paths.insert("/S/stale".to_string(), Check::new_valid());
    config.insert_entry(stale);
    let command = add(&["/R"], false, None, 5);
    command.add_to_path(&strings(&["/R"]), false, None, 5, &mut config, &disk());
    assert_eq!(roots(&config), strings(&["/S", "/R"]));
    assert_eq!(discovered(&config.path_entries[0]), vec![("/S/stale".to_string(), true, None)]);
    assert_eq!(config.path_entries[1].discovered_paths.len(), 3);
}

#[test]
fn refresh_replaces_what_was_discovered() {
    let mut config = store();
    let mut entry = PathEntry::new("/S".to_string(), false, vec![], 5);
    entry.discovered_paths.insert("/S/stale".to_string(), Check::new_valid());
    config.insert_entry(entry);
    Commands::Clean.refresh_recursive_paths(&mut config, &disk());
    assert_eq!(discovered(&config.path_entries[0]), vec![("/S/bin".to_string(), true, None)]);
}

#[test]
fn refresh_uses_the_depth_of_the_entry() {
    let mut snapshot: Snapshot = PathMap::new();
    snapshot.insert(
        "/r".to_string(),
        Survey { is_dir: true, events: vec![dir("/r/a", 1), dir("/r/a/b", 2), dir("/r/a/b/c", 3)] },
    );
    let mut config = store();
    config.insert_entry(PathEntry::new("/r".to_string(), false, vec![], 2));
    Commands::Reset.execute(&mut config, &snapshot);
    assert_eq!(
        discovered(&config.path_entries[0]),
        vec![("/r/a".to_string(), true, None), ("/r/a/b".to_string(), true, None)]
    );
}

#[test]
fn refresh_uses_the_excludes_of_the_entry_and_of_the_store() {
    let mut config = store();
    config.default_excludes = strings(&["a"]);
    config.insert_entry(PathEntry::new("/R".to_string(), false, strings(&["old"]), 5));
    Commands::Reset.execute(&mut config, &disk());
    assert_eq!(
        discovered(&config.path_entries[0]),
        vec![
            ("/R/a".to_string(), false, Some(Reason::DefaultExclude("a".to_string()))),
            ("/R/old".to_string(), false, Some(Reason::ExcludePattern("old".to_string()))),
            ("/R/temp".to_string(), true, None),
        ]
    );
}

#[test]
fn refresh_leaves_an_entry_without_depth_alone() {
    let mut config = store();
    config.insert_entry(PathEntry::new("/R".to_string(), false, vec![], 1));
    config.insert_entry(PathEntry::new("/S".to_string(), false, vec![], 0));
    Commands::Show { raw: false }.refresh_recursive_paths(&mut config, &disk());
    assert!(config.path_entries[0].discovered_paths.is_empty());
    assert!(config.path_entries[1].discovered_paths.is_empty());
}

#[test]
fn reset_forgets_and_scans_anew() {
    let mut config = store();
    let mut deep = PathEntry::new("/S".to_string(), false, vec![], 5);
    deep.discovered_paths.insert("/S/stale".to_string(), Check::new_valid());
    let mut flat = PathEntry::new("/R".to_string(), false, vec![], 1);
    flat.discovered_paths.insert("/R/stale".to_string(), Check::new_valid());
    config.insert_entry(deep);
    config.insert_entry(flat);
    Commands::Reset.execute(&mut config, &disk());
    assert_eq!(roots(&config), strings(&["/S", "/R"]));
    assert_eq!(discovered(&config.path_entries[0]), vec![("/S/bin".to_string(), true, None)]);
    assert!(config.path_entries[1].discovered_paths.is_empty());
}

#[test]
fn remove_drops_the_entries_of_the_given_roots() {
    let mut config = store();
    add(&["/a", "/b", "/c"], false, None, 1).execute(&mut config, &disk());
    Commands::Remove { paths: strings(&["/b", "/zzz"]) }.execute(&mut config, &disk());
    assert_eq!(roots(&config), strings(&["/a", "/c"]));
}

#[test]
fn remove_of_an_absent_path_changes_nothing() {
    let mut config = store();
    add(&["/R", "/S"], false, Some("x,y"), 5).execute(&mut config, &disk());
    let before_roots = roots(&config);
    let before_first = discovered(&config.path_entries[0]);
    let before_second = discovered(&config.path_entries[1]);
    Commands::Remove { paths: strings(&["/elsewhere"]) }.execute(&mut config, &PathMap::new());
    assert_eq!(roots(&config), before_roots);
    assert_eq!(discovered(&config.path_entries[0]), before_first);
    assert_eq!(discovered(&config.path_entries[1]), before_second);
    assert_eq!(config.path_entries[0].exclude_patterns, strings(&["x", "y"]));
    Commands::Remove { paths: vec![] }.execute(&mut config, &PathMap::new());
    assert_eq!(roots(&config), before_roots);
}

#[test]
fn clean_drops_exactly_the_entries_whose_root_is_gone() {
    let mut config = store();
    add(&["/R", "/gone", "/S", "/F"], false, None, 5).execute(&mut config, &disk());
    let kept_r = discovered(&config.path_entries[0]);
    let stamp = config.path_entries[0].discovered_paths.get(&"/R/a".to_string()).unwrap().timestamp;
    Commands::Clean.execute(&mut config, &disk());
    assert_eq!(roots(&config), strings(&["/R", "/S", "/F"]));
    assert_eq!(discovered(&config.path_entries[0]), kept_r);
    assert_eq!(
        config.path_entries[0].discovered_paths.get(&"/R/a".to_string()).unwrap().timestamp,
        stamp
    );
    assert_eq!(discovered(&config.path_entries[1]), vec![("/S/bin".to_string(), true, None)]);
}

#[test]
fn clean_does_not_rescan() {
    let mut config = store();
    let mut entry = PathEntry::new("/S".to_string(), false, vec![], 5);
    entry.discovered_paths.insert("/S/stale".to_string(), Check::new_valid());
    config.insert_entry(entry);
    Commands::Clean.execute(&mut config, &disk());
    assert_eq!(discovered(&config.path_entries[0]), vec![("/S/stale".to_string(), true, None)]);
}

#[test]
fn clean_on_an_empty_disk_drops_everything() {
    let mut config = store();
    add(&["/R", "/S"], false, None, 1).execute(&mut config, &disk());
    Commands::Clean.execute(&mut config, &PathMap::new());
    assert!(config.path_entries.is_empty());
}

#[test]
fn show_changes_nothing() {
    let mut config = store();
    add(&["/R", "/S"], false, None, 5).execute(&mut config, &disk());
    let before_roots = roots(&config);
    let before = discovered(&config.path_entries[0]);
    Commands::Show { raw: true }.execute(&mut config, &PathMap::new());
    assert_eq!(roots(&config), before_roots);
    assert_eq!(discovered(&config.path_entries[0]), before);
}

#[test]
fn commands_leave_path_and_default_excludes_of_the_store_alone() {
    let mut config = store();
    config.default_excludes.push("extra".to_string());
    let expected = config.default_excludes.clone();
    add(&["/R"], false, None, 5).execute(&mut config, &disk());
    Commands::Reset.execute(&mut config, &disk());
    Commands::Clean.execute(&mut config, &disk());
    Commands::Remove { paths: strings(&["/R"]) }.execute(&mut config, &disk());
    assert_eq!(config.default_excludes, expected);
    assert_eq!(config.config_path, "/cfg/config.toml".to_string());
}

#[test]
fn valid_paths_are_those_with_a_positive_verdict() {
    let mut config = store();
    add(&["/R"], false, None, 5).execute(&mut config, &disk());
    let mut valid = config.path_entries[0].valid_paths();
    valid.sort();
    assert_eq!(valid, strings(&["/R/a", "/R/old"]));
}
