use cargo_install_update::config::{Configuration, Settings};

fn settings(target: Option<&str>, matches: Vec<bool>) -> Settings {
    Settings {
        target_version: target.map(|t| t.to_string()),
        install_prereleases: None,
        cargo_args: vec![],
        filter_matches: matches,
    }
}

#[test]
fn settings_are_found_by_name() {
    let config = Configuration::new()
        .with("a".to_string(), settings(Some("^1"), vec![]))
        .with("b".to_string(), settings(None, vec![true]));
    assert_eq!(config.get(&"a".to_string()), Some(&settings(Some("^1"), vec![])));
    assert_eq!(config.get(&"b".to_string()), Some(&settings(None, vec![true])));
    assert_eq!(config.get(&"c".to_string()), None);
}

#[test]
fn later_settings_replace_earlier_ones() {
    let config = Configuration::new()
        .with("a".to_string(), settings(Some("^1"), vec![]))
        .with("a".to_string(), settings(Some("^2"), vec![]));
    assert_eq!(config.get(&"a".to_string()), Some(&settings(Some("^2"), vec![])));
}

#[test]
fn every_filter_has_to_match() {
    assert!(settings(None, vec![]).matches_all());
    assert!(settings(None, vec![true, true]).matches_all());
    assert!(!settings(None, vec![true, false]).matches_all());
}
