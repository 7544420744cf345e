use pathkeep::commands::Commands;
use pathkeep::config::config::Config;
use pathkeep::config::entry::PathEntry;
use pathkeep::plan::SurveyRequest;

fn strings(items: &[&str]) -> Vec<String> {
    items.iter().map(|s| s.to_string()).collect()
}

fn store() -> Config {
    let mut config = Config::new("/cfg".to_string());
    config.insert_entry(PathEntry::new("/deep".to_string(), false, vec![], 5));
    config.insert_entry(PathEntry::new("/flat".to_string(), false, vec![], 1));
    config.insert_entry(PathEntry::new("/two".to_string(), false, vec![], 2));
    config
}

fn pairs(requests: &Vec<SurveyRequest>) -> Vec<(String, u8)> {
    requests.iter().map(|r| (r.root.clone(), r.max_depth)).collect()
}

fn add(paths: &[&str], prepend: bool, max_depth: u8) -> Commands {
    Commands::Add { paths: strings(paths), prepend, exclude: None, make_exec: false, max_depth }
}

#[test]
fn reset_surveys_the_recursive_entries_at_their_depth() {
    let plan = Commands::Reset.survey_plan(&store());
    assert_eq!(pairs(&plan), vec![("/deep".to_string(), 5), ("/two".to_string(), 2)]);
}

#[test]
fn clean_asks_for_the_presence_of_every_root() {
    let plan = Commands::Clean.survey_plan(&store());
    assert_eq!(
        pairs(&plan),
        vec![("/deep".to_string(), 0), ("/flat".to_string(), 0), ("/two".to_string(), 0)]
    );
}

#[test]
fn remove_and_show_look_at_nothing() {
    assert!(Commands::Remove { paths: strings(&["/deep"]) }.survey_plan(&store()).is_empty());
    assert!(Commands::Show { raw: false }.survey_plan(&store()).is_empty());
}

#[test]
fn add_surveys_the_new_root_and_the_recursive_entries() {
    let plan = add(&["/new"], false, 4).survey_plan(&store());
    assert_eq!(
        pairs(&plan),
        vec![("/deep".to_string(), 5), ("/two".to_string(), 2), ("/new".to_string(), 4)]
    );
    let plan = add(&["/new"], true, 4).survey_plan(&store());
    assert_eq!(
        pairs(&plan),
        vec![("/new".to_string(), 4), ("/deep".to_string(), 5), ("/two".to_string(), 2)]
    );
}

#[test]
fn add_without_depth_surveys_only_the_recursive_entries() {
    let plan = add(&["/new"], false, 1).survey_plan(&store());
    assert_eq!(pairs(&plan), vec![("/deep".to_string(), 5), ("/two".to_string(), 2)]);
}

#[test]
fn add_of_a_registered_root_keeps_the_depth_of_its_entry() {
    let plan = add(&["/flat", "/two", "/new", "/new"], false, 9).survey_plan(&store());
    assert_eq!(
        pairs(&plan),
        vec![("/deep".to_string(), 5), ("/two".to_string(), 2), ("/new".to_string(), 9)]
    );
}

#[test]
fn plan_leaves_the_store_alone() {
    let config = store();
    let _ = add(&["/new"], false, 4).survey_plan(&config);
    assert_eq!(config.path_entries.len(), 3);
}
