use fusion::config::repo::{Config, ConfigManager, SaveConfigParam};
use std::path::Path;

#[test]
fn config_test() {
    let root = r"D:\Users\yuqi01.chen\.temp\app\mobiuskit\fusion";
    let mut config = ConfigManager::new(root, vec![]);
    config.save_config(&SaveConfigParam { id: None, name: "csr".into() });
    assert_eq!(config.list_configs().len(), 1);

    // create another config
    config.save_config(&SaveConfigParam { id: None, name: "adhoc".into() });
    assert_eq!(config.list_configs().len(), 2);

    // get one config id
    let id = config.list_configs().first().unwrap().id.clone();

    // update one existed config
    config.save_config(&SaveConfigParam { id: Some(id.clone()), name: "demo".into() });
    assert_eq!(config.list_configs().len(), 2);

    // find param
    assert!(config.find_config_index(&id).is_some());

    // remove config
    config.remove_config(&id).unwrap();
    assert_eq!(config.list_configs().len(), 1);
}

#[test]
fn a_saved_manifest_gets_its_file_and_name() {
    let mut config = ConfigManager::new("root", vec![]);
    let dir = Path::new("root").join("config");
    assert_eq!(config.config_dir(), &dir.to_string_lossy().into_owned());
    assert_eq!(config.repo(), &Path::new("root").join("config_repo.json").to_string_lossy().into_owned());
    let (id, file) =
        config.save_config_as(&SaveConfigParam { id: None, name: "csr".into() }, "fresh");
    assert_eq!(id, "fresh");
    assert_eq!(file, dir.join("fresh.json").to_string_lossy());
    let (id, _) = config
        .save_config_as(&SaveConfigParam { id: Some("fresh".into()), name: "demo".into() }, "unused");
    assert_eq!(id, "fresh");
    let list = config.list_configs();
    assert_eq!(list.len(), 1);
    assert_eq!(list[0].name, "demo");
    assert_eq!(list[0].path, dir.join("fresh.json").to_string_lossy());
}

#[test]
fn removing_puts_the_last_entry_in_the_place() {
    let entry = |id: &str| Config { id: id.into(), name: id.to_uppercase(), path: format!("{}.json", id) };
    let mut config = ConfigManager::new("root", vec![entry("a"), entry("b"), entry("c")]);
    assert_eq!(config.find_config_index(&"b".to_string()), Some(1));
    assert_eq!(config.find_config_index(&"z".to_string()), None);
    let file = config.remove_config(&"a".to_string());
    assert_eq!(file, Some(Path::new("root").join("config").join("a.json").to_string_lossy().into_owned()));
    let ids: Vec<String> = config.list_configs().into_iter().map(|c| c.id).collect();
    assert_eq!(ids, vec!["c".to_string(), "b".to_string()]);
    assert_eq!(config.remove_config(&"z".to_string()), None);
    assert_eq!(config.list_configs().len(), 2);
}

#[test]
fn a_new_manifest_gets_an_id_of_ten_characters() {
    let mut config = ConfigManager::new("root", vec![]);
    let (id, file) = config.save_config(&SaveConfigParam { id: None, name: "csr".into() });
    assert_eq!(id.chars().count(), 10);
    assert!(id.chars().all(|c| c.is_ascii_alphanumeric() || c == '_' || c == '-'));
    assert_eq!(file, Path::new("root").join("config").join(format!("{}.json", id)).to_string_lossy());
    let (other, _) = config.save_config(&SaveConfigParam { id: None, name: "adhoc".into() });
    assert_eq!(other.chars().count(), 10);
    let (same, _) = config.save_config(&SaveConfigParam { id: Some(id.clone()), name: "demo".into() });
    assert_eq!(same, id);
    let list = config.list_configs();
    assert_eq!(list[0].id, id);
    assert_eq!(list[0].name, "demo");
}
