use cargo_install_update::config::{Configuration, Settings};
use cargo_install_update::package::{Candidate, Commits, GitCandidate, Versions};
use cargo_install_update::table::{arrange, make_candidate_rows, make_git_rows, render, row_order};
use cargo_install_update::table::{table_text, Row};
use std::cmp::Ordering;

fn row(needs_update: bool, name: &str, installed: &str, latest: &str) -> Row {
    Row {
        needs_update,
        name: name.to_string(),
        installed: installed.to_string(),
        latest: latest.to_string(),
    }
}

fn text(value: Option<&str>) -> Option<String> {
    value.map(|v| v.to_string())
}

fn candidate(name: &str, installed: Option<&str>, to: Option<&str>, other: Option<&str>) -> Candidate {
    Candidate {
        name: name.to_string(),
        versions: Versions {
            installed: text(installed),
            update_to: text(to),
            alternative: text(other),
            needs_update: true,
        },
    }
}

#[test]
fn packages_that_need_updates_come_first() {
    let rows = vec![row(false, "a", "", ""), row(true, "c", "", ""), row(true, "b", "", "")];
    let names: Vec<String> = arrange(rows).into_iter().map(|r| r.name).collect();
    assert_eq!(names, ["b", "c", "a"]);
}

#[test]
fn arranging_keeps_every_row() {
    let rows = vec![row(true, "a", "1", ""), row(true, "a", "2", ""), row(false, "a", "3", "")];
    let mut installed: Vec<String> = arrange(rows).into_iter().map(|r| r.installed).collect();
    assert_eq!(installed.pop(), Some("3".to_string()));
    installed.sort();
    assert_eq!(installed, ["1", "2"]);
}

#[test]
fn rows_are_ordered_by_need_and_by_name() {
    let due = row(true, "z", "", "");
    let current = row(false, "a", "", "");
    assert_eq!(row_order(&due, &current), Ordering::Less);
    assert_eq!(row_order(&current, &due), Ordering::Greater);
    assert_eq!(row_order(&current, &row(false, "b", "", "")), Ordering::Less);
    assert_eq!(row_order(&current, &row(false, "a", "1", "2")), Ordering::Equal);
}

#[test]
fn the_table_has_a_heading_and_ends_with_an_empty_line() {
    let rows = vec![row(true, "racer", "v1.2.10", "v2.0.6"), row(false, "cargo-update", "No", "N/A")];
    assert_eq!(
        table_text(&rows),
        "Package\tInstalled\tLatest\tNeeds update\nracer\tv1.2.10\tv2.0.6\tYes\n\
         cargo-update\tNo\tN/A\tNo\n\n"
    );
}

#[test]
fn the_columns_are_aligned() {
    let rows = vec![
        row(false, "treesize", "v0.2.1", "v0.2.1"),
        row(true, "racer", "v1.2.10", "v2.0.6 (v3.0.0 available)"),
    ];
    assert_eq!(
        render(rows),
        "Package   Installed  Latest                     Needs update\n\
         racer     v1.2.10    v2.0.6 (v3.0.0 available)  Yes\n\
         treesize  v0.2.1     v0.2.1                     No\n\n"
    );
}

#[test]
fn an_empty_table_is_a_heading() {
    assert_eq!(render(vec![]), "Package  Installed  Latest  Needs update\n\n");
}

#[test]
fn rows_show_installed_and_latest_versions() {
    let config = Configuration::new().with(
        "pinned".to_string(),
        Settings {
            target_version: Some("^1.0".to_string()),
            install_prereleases: None,
            cargo_args: vec![],
            filter_matches: vec![],
        },
    );
    let candidates = vec![
        candidate("pinned", Some("0.9.0"), Some("2.0.0"), Some("3.0.0")),
        candidate("plain", Some("0.9.0"), Some("2.0.0"), None),
        candidate("pre", None, Some("2.0.0"), Some("3.0.0-rc.1")),
        candidate("gone", None, None, Some("3.0.0")),
    ];
    assert_eq!(
        make_candidate_rows(&config, &candidates),
        vec![
            row(true, "pinned", "v0.9.0", "^1.0"),
            row(true, "plain", "v0.9.0", "v2.0.0"),
            row(true, "pre", "No", "v2.0.0 (v3.0.0-rc.1 available)"),
            row(true, "gone", "No", "N/A"),
        ]
    );
}

#[test]
fn rows_show_installed_and_newest_commits() {
    let candidates = vec![GitCandidate {
        name: "tool".to_string(),
        commits: Commits {
            url: "https://host/tool".to_string(),
            branch: None,
            id: "0123".to_string(),
            newest: Some("4567".to_string()),
            needs_update: false,
        },
    }];
    assert_eq!(make_git_rows(&candidates), vec![row(false, "tool", "0123", "4567")]);
}
