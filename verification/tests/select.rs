use cargo_install_update::config::{Configuration, Settings};
use cargo_install_update::options::Options;
use cargo_install_update::package::Package;
use cargo_install_update::select::{filter_packages, select_git_packages, select_packages};

fn options(to_update: &[&str]) -> Options {
    Options {
        to_update: to_update.iter().map(|n| n.to_string()).collect(),
        all: false,
        update: true,
        install: false,
        force: false,
        quiet: false,
        update_git: false,
        filtered: false,
        pass_through: 0,
        windows: false,
    }
}

fn packages(names: &[(usize, &str)]) -> Vec<Package> {
    names.iter().map(|(handle, name)| Package { handle: *handle, name: name.to_string() }).collect()
}

fn config(entries: &[(&str, Vec<bool>)]) -> Configuration {
    let mut config = Configuration::new();
    for (name, matches) in entries {
        let settings = Settings {
            target_version: None,
            install_prereleases: None,
            cargo_args: vec![],
            filter_matches: matches.clone(),
        };
        config = config.with(name.to_string(), settings);
    }
    config
}

#[test]
fn without_filters_all_packages_are_left() {
    let left = filter_packages(&options(&[]), &config(&[]), packages(&[(0, "a"), (1, "b")]));
    assert_eq!(left, packages(&[(0, "a"), (1, "b")]));
}

#[test]
fn filters_leave_packages_whose_settings_match() {
    let mut options = options(&[]);
    options.filtered = true;
    let config = config(&[("a", vec![true, true]), ("b", vec![true, false])]);
    let left = filter_packages(&options, &config, packages(&[(0, "a"), (1, "b"), (2, "c")]));
    assert_eq!(left, packages(&[(0, "a")]));
}

#[test]
fn all_packages_are_selected_where_none_is_named() {
    let mut options = options(&[]);
    options.all = true;
    let chosen = select_packages(&options, packages(&[(0, "a"), (1, "b")]), vec![]);
    assert_eq!(chosen, packages(&[(0, "a"), (1, "b")]));
}

#[test]
fn listing_without_names_takes_all_packages() {
    let mut options = options(&[]);
    options.update = false;
    assert!(options.selects_something());
    let chosen = select_packages(&options, packages(&[(0, "a")]), vec![]);
    assert_eq!(chosen, packages(&[(0, "a")]));
}

#[test]
fn updating_nothing_in_particular_selects_nothing() {
    assert!(!options(&[]).selects_something());
    assert!(options(&["a"]).selects_something());
}

#[test]
fn only_named_packages_are_selected() {
    let requested = packages(&[(2, "b"), (3, "c")]);
    let chosen = select_packages(&options(&["b", "c"]), packages(&[(0, "a"), (1, "b")]), requested);
    assert_eq!(chosen, packages(&[(2, "b"), (3, "c")]));
}

#[test]
fn named_packages_are_added_once_to_all() {
    let mut options = options(&["b", "c"]);
    options.all = true;
    let requested = packages(&[(2, "b"), (3, "c"), (4, "c")]);
    let chosen = select_packages(&options, packages(&[(0, "a"), (1, "b")]), requested);
    assert_eq!(chosen, packages(&[(0, "a"), (1, "b"), (3, "c")]));
}

#[test]
fn git_packages_are_taken_by_name_or_all() {
    let git = || packages(&[(0, "a"), (1, "b"), (2, "c")]);
    let mut options = options(&["c", "a"]);
    assert_eq!(
        select_git_packages(&options, &config(&[]), git()),
        packages(&[(0, "a"), (2, "c")])
    );
    options.all = true;
    assert_eq!(select_git_packages(&options, &config(&[]), git()), git());
    options.filtered = true;
    let config = config(&[("b", vec![true]), ("c", vec![false])]);
    assert_eq!(select_git_packages(&options, &config, git()), packages(&[(1, "b")]));
    options.all = false;
    assert_eq!(select_git_packages(&options, &config, git()), vec![]);
}

#[test]
fn git_packages_are_looked_up_to_update_or_to_install() {
    let mut options = options(&["a"]);
    assert!(!options.wants_git_packages());
    options.install = true;
    assert!(options.wants_git_packages());
    options.update = false;
    assert!(!options.wants_git_packages());
    options.update_git = true;
    assert!(options.wants_git_packages());
}
