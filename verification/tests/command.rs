use cargo_install_update::command::{make_git_args, make_registry_args, CargoArg};
use cargo_install_update::config::{Configuration, Settings};
use cargo_install_update::options::Options;
use cargo_install_update::package::{Candidate, Commits, GitCandidate, Versions};

fn options(quiet: bool, pass_through: usize) -> Options {
    Options {
        to_update: vec![],
        all: true,
        update: true,
        install: false,
        force: false,
        quiet,
        update_git: true,
        filtered: false,
        pass_through,
        windows: false,
    }
}

fn candidate(name: &str) -> Candidate {
    Candidate {
        name: name.to_string(),
        versions: Versions {
            installed: None,
            update_to: Some("1.2.3".to_string()),
            alternative: None,
            needs_update: true,
        },
    }
}

fn git_candidate(name: &str, branch: Option<&str>) -> GitCandidate {
    GitCandidate {
        name: name.to_string(),
        commits: Commits {
            url: "https://host/repo".to_string(),
            branch: branch.map(|b| b.to_string()),
            id: "01".to_string(),
            newest: None,
            needs_update: true,
        },
    }
}

fn config(target: Option<&str>) -> Configuration {
    Configuration::new().with(
        "set".to_string(),
        Settings {
            target_version: target.map(|t| t.to_string()),
            install_prereleases: None,
            cargo_args: vec!["+nightly".to_string(), "install".to_string()],
            filter_matches: vec![],
        },
    )
}

fn texts(args: Vec<CargoArg>) -> Vec<String> {
    args.into_iter()
        .map(|arg| match arg {
            CargoArg::Text { text } => text,
            CargoArg::PassThrough { index } => format!("<{}>", index),
        })
        .collect()
}

#[test]
fn packages_without_settings_are_installed_by_force() {
    let name = "crates-io".to_string();
    let args = make_registry_args(&options(false, 0), &config(None), &name, &candidate("plain"));
    assert_eq!(
        texts(args),
        ["install", "-f", "--vers", "1.2.3", "--registry", "crates-io", "plain"]
    );
}

#[test]
fn settings_give_the_first_arguments_and_the_version() {
    let name = "crates-io".to_string();
    let args = make_registry_args(&options(true, 2), &config(Some("^1")), &name, &candidate("set"));
    assert_eq!(
        texts(args),
        [
            "+nightly", "install", "--quiet", "--vers", "^1", "--registry", "crates-io", "set",
            "<0>", "<1>"
        ]
    );
    let args = make_registry_args(&options(false, 0), &config(None), &name, &candidate("set"));
    assert_eq!(
        texts(args),
        ["+nightly", "install", "--vers", "1.2.3", "--registry", "crates-io", "set"]
    );
}

#[test]
fn git_packages_are_installed_from_their_branch() {
    let args = make_git_args(&options(true, 1), &config(None), &git_candidate("plain", None));
    assert_eq!(
        texts(args),
        ["install", "-f", "--quiet", "--git", "https://host/repo", "plain", "<0>"]
    );
    let branch = git_candidate("set", Some("dev"));
    let args = make_git_args(&options(false, 1), &config(None), &branch);
    assert_eq!(
        texts(args),
        ["+nightly", "install", "--git", "https://host/repo", "set", "--branch", "dev", "<0>"]
    );
}
