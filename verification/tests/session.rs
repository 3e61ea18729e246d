use cargo_install_update::command::CargoArg;
use cargo_install_update::config::{Configuration, Settings};
use cargo_install_update::executable::{ExecFile, FileStep};
use cargo_install_update::options::Options;
use cargo_install_update::package::{Commits, Package, Versions};
use cargo_install_update::registry::Registry;
use cargo_install_update::session::Session;
use cargo_install_update::step::{Effect, Event, Request};
use cargo_install_update::tally::Outcome;

fn options() -> Options {
    Options {
        to_update: vec![],
        all: true,
        update: true,
        install: false,
        force: false,
        quiet: true,
        update_git: false,
        filtered: false,
        pass_through: 0,
        windows: false,
    }
}

fn packages(names: &[&str]) -> Vec<Package> {
    names
        .iter()
        .enumerate()
        .map(|(handle, name)| Package { handle, name: name.to_string() })
        .collect()
}

fn resolved(url: &str) -> Event {
    Event::Resolved { registry: Registry { url: url.to_string(), name: format!("{}-name", url) } }
}

fn failed(reason: &str) -> Event {
    Event::Failed { reason: reason.to_string() }
}

fn pulled(installed: Option<&str>, update_to: Option<&str>, needs_update: bool) -> Event {
    Event::Pulled {
        versions: Versions {
            installed: installed.map(|v| v.to_string()),
            update_to: update_to.map(|v| v.to_string()),
            alternative: None,
            needs_update,
        },
    }
}

fn commits(newest: Option<&str>, needs_update: bool) -> Event {
    Event::PulledCommits {
        commits: Commits {
            url: "https://host/repo".to_string(),
            branch: None,
            id: "0a".to_string(),
            newest: newest.map(|n| n.to_string()),
            needs_update,
        },
    }
}

fn ran(success: bool, code: Option<i32>) -> Event {
    Event::Ran { outcome: Outcome { success, code } }
}

fn print(text: &str) -> Effect {
    Effect::Print { text: text.to_string() }
}

fn complain(text: &str) -> Effect {
    Effect::Complain { text: text.to_string() }
}

fn cargo(texts: &[&str]) -> Request {
    Request::RunCargo {
        args: texts.iter().map(|t| CargoArg::Text { text: t.to_string() }).collect(),
    }
}

/// The requests and the effects of a run that hears these events.
fn course(
    options: Options,
    names: &[&str],
    git_names: &[&str],
    events: Vec<Event>,
) -> (Vec<Request>, Vec<Effect>) {
    let (mut session, mut step) =
        Session::start(options, Configuration::new(), packages(names), packages(git_names));
    let mut requests = vec![step.request];
    let mut effects = vec![];
    effects.append(&mut step.effects);
    for event in events {
        assert!(session.accepts(&event));
        step = session.advance(event);
        requests.push(step.request);
        effects.append(&mut step.effects);
    }
    (requests, effects)
}

/// The events by which one registry is made use of.
fn one_registry(count: usize) -> Vec<Event> {
    let mut events: Vec<Event> = (0..count).map(|_| resolved("index")).collect();
    events.push(Event::Located { path: "/path".to_string() });
    events.push(Event::Succeeded);
    events.push(Event::Succeeded);
    events.push(Event::Succeeded);
    events
}

#[test]
fn a_run_without_packages_is_over_at_once() {
    let (requests, effects) = course(options(), &[], &[], vec![]);
    assert_eq!(requests, vec![Request::Exit { code: 0 }]);
    assert_eq!(effects, vec![]);
}

#[test]
fn a_run_without_packages_says_so() {
    let mut options = options();
    options.quiet = false;
    let (requests, effects) = course(options, &[], &[], vec![]);
    assert_eq!(requests, vec![Request::Exit { code: 0 }]);
    assert_eq!(
        effects,
        vec![
            print("Package  Installed  Latest  Needs update\n\n"),
            print("No packages need updating.\n"),
            print("Overall updated 0 packages.\n"),
        ]
    );
}

#[test]
fn registries_are_used_in_order_and_stage_by_stage() {
    let events = vec![
        resolved("z"),
        resolved("a"),
        Event::Located { path: "/a".to_string() },
        Event::Located { path: "/z".to_string() },
        Event::Succeeded,
        Event::Succeeded,
        Event::Succeeded,
        Event::Succeeded,
        Event::Succeeded,
        Event::Succeeded,
        pulled(Some("1"), Some("2"), true),
        pulled(None, Some("3"), true),
        ran(true, Some(0)),
        ran(true, Some(0)),
    ];
    let (requests, effects) = course(options(), &["one", "two"], &[], events);
    let revision = || "origin/master".to_string();
    assert_eq!(
        requests,
        vec![
            Request::ResolveRegistry { package: 0 },
            Request::ResolveRegistry { package: 1 },
            Request::LocateIndex { url: "a".to_string() },
            Request::LocateIndex { url: "z".to_string() },
            Request::OpenIndex { group: 0 },
            Request::OpenIndex { group: 1 },
            Request::RefreshIndex { group: 0, url: "a".to_string(), show: false },
            Request::RefreshIndex { group: 1, url: "z".to_string(), show: false },
            Request::ReadRevision { group: 0, revision: revision() },
            Request::ReadRevision { group: 1, revision: revision() },
            Request::PullVersions { package: 0, group: 1, install_prereleases: None },
            Request::PullVersions { package: 1, group: 0, install_prereleases: None },
            cargo(&["install", "-f", "--quiet", "--vers", "2", "--registry", "z-name", "one"]),
            cargo(&["install", "-f", "--quiet", "--vers", "3", "--registry", "a-name", "two"]),
            Request::Exit { code: 0 },
        ]
    );
    assert_eq!(effects, vec![]);
}

#[test]
fn progress_is_told_unless_quiet() {
    let mut options = options();
    options.quiet = false;
    let mut events = one_registry(2);
    events.push(pulled(Some("1"), Some("2"), true));
    events.push(pulled(None, Some("3"), true));
    events.push(ran(true, Some(0)));
    events.push(ran(true, Some(0)));
    let (requests, effects) = course(options, &["one", "two"], &[], events);
    assert_eq!(requests.last(), Some(&Request::Exit { code: 0 }));
    assert_eq!(requests[4], Request::RefreshIndex { group: 0, url: "index".to_string(), show: true });
    assert_eq!(
        effects,
        vec![
            print(
                "Package  Installed  Latest  Needs update\n\
                 one      v1         v2      Yes\n\
                 two      No         v3      Yes\n\n"
            ),
            print("Updating one\n"),
            print("\n"),
            print("Installing two\n"),
            print("\n"),
            print("\nUpdated 2 packages.\n"),
            print("Overall updated 2 packages: one, two.\n"),
        ]
    );
}

#[test]
fn updates_are_only_listed_where_asked_for() {
    let mut options = options();
    options.quiet = false;
    options.update = false;
    let mut events = one_registry(1);
    events.push(pulled(Some("1"), Some("2"), true));
    let (requests, effects) = course(options, &["one"], &[], events);
    assert_eq!(requests.last(), Some(&Request::Exit { code: 0 }));
    assert_eq!(
        effects,
        vec![print(
            "Package  Installed  Latest  Needs update\none      v1         v2      Yes\n\n"
        )]
    );
}

#[test]
fn what_is_current_or_not_offered_is_left_alone() {
    let mut events = one_registry(3);
    events.push(pulled(Some("2"), Some("2"), false));
    events.push(pulled(Some("2"), None, true));
    events.push(pulled(Some("1"), Some("2"), true));
    events.push(ran(true, Some(0)));
    let (requests, _) = course(options(), &["current", "gone", "old"], &[], events);
    let installs: Vec<&Request> =
        requests.iter().filter(|r| matches!(r, Request::RunCargo { .. })).collect();
    assert_eq!(
        installs,
        vec![&cargo(&[
            "install", "-f", "--quiet", "--vers", "2", "--registry", "index-name", "old"
        ])]
    );
}

#[test]
fn current_packages_are_installed_by_force() {
    let mut options = options();
    options.force = true;
    let mut events = one_registry(2);
    events.push(pulled(Some("2"), Some("2"), false));
    events.push(pulled(Some("2"), None, false));
    events.push(ran(true, Some(0)));
    let (requests, _) = course(options, &["current", "gone"], &[], events);
    assert_eq!(requests.iter().filter(|r| matches!(r, Request::RunCargo { .. })).count(), 1);
    assert_eq!(requests.last(), Some(&Request::Exit { code: 0 }));
}

#[test]
fn the_settings_of_a_package_reach_its_requests() {
    let config = Configuration::new().with(
        "one".to_string(),
        Settings {
            target_version: Some("^1".to_string()),
            install_prereleases: Some(true),
            cargo_args: vec!["install".to_string(), "--debug".to_string()],
            filter_matches: vec![],
        },
    );
    let (mut session, mut step) =
        Session::start(options(), config, packages(&["one"]), packages(&[]));
    for event in one_registry(1) {
        step = session.advance(event);
    }
    assert_eq!(
        step.request,
        Request::PullVersions { package: 0, group: 0, install_prereleases: Some(true) }
    );
    step = session.advance(pulled(Some("1"), Some("2"), true));
    assert_eq!(
        step.request,
        cargo(&[
            "install", "--debug", "--quiet", "--vers", "^1", "--registry", "index-name", "one"
        ])
    );
}

#[test]
fn a_failed_registry_request_ends_the_run() {
    let ends = |events: Vec<Event>| {
        let (requests, effects) = course(options(), &["one"], &[], events);
        assert_eq!(requests.last(), Some(&Request::Exit { code: 2 }));
        effects
    };
    assert_eq!(
        ends(vec![failed("no such registry")]),
        vec![complain("Couldn't get registry for one: no such registry.\n")]
    );
    assert_eq!(
        ends(vec![resolved("index"), failed("no home")]),
        vec![complain("Couldn't get package repository: no home.\n")]
    );
    let located = || Event::Located { path: "/path".to_string() };
    assert_eq!(
        ends(vec![resolved("index"), located(), failed("locked")]),
        vec![complain("Failed to open registry repository at /path.\n")]
    );
    assert_eq!(
        ends(vec![resolved("index"), located(), Event::Succeeded, failed("offline")]),
        vec![complain("Failed to update index repository: offline.\n")]
    );
    assert_eq!(
        ends(vec![
            resolved("index"),
            located(),
            Event::Succeeded,
            Event::Succeeded,
            failed("no branch")
        ]),
        vec![complain("Failed to read master branch of registry repository at /path.\n")]
    );
}

#[test]
fn the_first_failure_gives_the_exit_code() {
    let mut events = one_registry(3);
    for _ in 0..3 {
        events.push(pulled(Some("1"), Some("2"), true));
    }
    events.push(ran(true, Some(0)));
    events.push(ran(false, Some(101)));
    events.push(ran(false, Some(7)));
    let (requests, effects) = course(options(), &["one", "two", "three"], &[], events);
    assert_eq!(requests.last(), Some(&Request::Exit { code: 101 }));
    assert_eq!(effects, vec![complain("Failed to update two, three.\n\n")]);
}

#[test]
fn git_packages_follow_and_everything_is_summed_up() {
    let mut options = options();
    options.quiet = false;
    options.update_git = true;
    let mut events = one_registry(2);
    events.push(pulled(Some("1"), Some("2"), true));
    events.push(pulled(Some("1"), Some("2"), true));
    events.push(ran(false, Some(101)));
    events.push(ran(true, Some(0)));
    events.push(commits(Some("0b"), true));
    events.push(commits(Some("0a"), false));
    events.push(ran(false, None));
    let (requests, effects) = course(options, &["one", "two"], &["tool", "other"], events);
    assert_eq!(requests[10], Request::PullCommits { package: 0 });
    assert_eq!(requests[11], Request::PullCommits { package: 1 });
    assert_eq!(
        requests[12],
        cargo(&["install", "-f", "--git", "https://host/repo", "tool"])
    );
    assert_eq!(requests.last(), Some(&Request::Exit { code: 101 }));
    assert_eq!(
        effects[5..],
        [
            print("\nUpdated 1 package.\n"),
            complain("Failed to update one.\n\n"),
            print(
                "Package  Installed  Latest  Needs update\n\
                 tool     0a         0b      Yes\n\
                 other    0a         0a      No\n\n"
            ),
            print("Updating tool from https://host/repo\n"),
            print("\n"),
            print("\nUpdated 0 git packages.\n"),
            complain("Failed to update tool.\n\n"),
            print("Overall updated 1 package: two.\n"),
            complain("Overall failed to update 2 packages: one, tool.\n"),
        ]
    );
}

#[test]
fn a_first_failure_among_git_packages_ends_the_run_at_once() {
    let mut options = options();
    options.quiet = false;
    options.update_git = true;
    let events = vec![commits(Some("0b"), true), ran(false, Some(9))];
    let (requests, effects) = course(options, &[], &["tool"], events);
    assert_eq!(requests.last(), Some(&Request::Exit { code: 9 }));
    assert_eq!(effects.last(), Some(&complain("Failed to update tool.\n\n")));
}

#[test]
fn current_git_packages_are_left_alone() {
    let mut options = options();
    options.quiet = false;
    options.update_git = true;
    let (requests, effects) = course(options, &[], &["tool"], vec![commits(Some("0a"), false)]);
    assert_eq!(requests, vec![Request::PullCommits { package: 0 }, Request::Exit { code: 0 }]);
    assert_eq!(effects[3], print("No git packages need updating.\n"));
    assert_eq!(effects[4], print("Overall updated 0 packages.\n"));
}

#[test]
fn git_packages_are_only_listed_where_asked_for() {
    let mut options = options();
    options.update_git = true;
    options.update = false;
    let (requests, effects) = course(options, &[], &["tool"], vec![commits(Some("0b"), true)]);
    assert_eq!(requests, vec![Request::PullCommits { package: 0 }, Request::Exit { code: 0 }]);
    assert_eq!(effects, vec![]);
}

#[test]
fn an_unknown_newest_commit_fits_quiet_runs_only() {
    for quiet in [true, false] {
        let mut options = options();
        options.update_git = true;
        options.quiet = quiet;
        let (session, _) =
            Session::start(options, Configuration::new(), packages(&[]), packages(&["tool"]));
        assert_eq!(session.accepts(&commits(None, true)), quiet);
        assert!(session.accepts(&commits(Some("0b"), true)));
        assert!(!session.accepts(&ran(true, Some(0))));
        assert!(!session.accepts(&Event::Succeeded));
        assert!(!session.accepts(&failed("")));
        assert!(!session.accepts(&resolved("index")));
        assert!(!session.accepts(&pulled(None, None, false)));
        assert!(!session.accepts(&Event::Located { path: String::new() }));
    }
}

#[test]
fn a_run_that_is_over_takes_no_events() {
    let (session, step) =
        Session::start(options(), Configuration::new(), packages(&[]), packages(&[]));
    assert_eq!(step.request, Request::Exit { code: 0 });
    assert!(!session.accepts(&ran(true, Some(0))));
    assert!(!session.accepts(&failed("")));
}

#[test]
fn this_program_is_moved_aside_on_windows() {
    let mut options = options();
    options.windows = true;
    options.update_git = true;
    let mut events = one_registry(2);
    events.push(pulled(Some("1.0.0"), Some("2.0.0"), true));
    events.push(pulled(Some("1.0.0"), Some("2.0.0"), true));
    events.push(ran(false, Some(1)));
    events.push(ran(true, Some(0)));
    events.push(commits(Some("0b"), true));
    events.push(ran(true, Some(0)));
    let names = ["cargo-update", "other"];
    let (_, effects) = course(options, &names, &["cargo-update"], events);
    let kept = || ExecFile::Saved { extension: "exe-v1.0.0".to_string() };
    let git_kept = || ExecFile::Saved { extension: "exe-v0a".to_string() };
    let current = || ExecFile::Current;
    assert_eq!(
        effects,
        vec![
            Effect::File { step: FileStep::Rename { from: current(), to: kept() } },
            Effect::File { step: FileStep::Create { file: current() } },
            Effect::File { step: FileStep::Remove { file: current() } },
            Effect::File { step: FileStep::Rename { from: kept(), to: current() } },
            complain("Failed to update cargo-update.\n\n"),
            Effect::File { step: FileStep::Rename { from: current(), to: git_kept() } },
            Effect::File { step: FileStep::Create { file: current() } },
            complain("Overall failed to update 1 package: cargo-update.\n"),
        ]
    );
}

#[test]
fn a_first_install_of_this_program_moves_nothing() {
    let mut options = options();
    options.windows = true;
    let mut events = one_registry(1);
    events.push(pulled(None, Some("2.0.0"), true));
    events.push(ran(false, Some(1)));
    let (_, effects) = course(options, &["cargo-update"], &[], events);
    assert_eq!(effects, vec![complain("Failed to update cargo-update.\n\n")]);
}

/// The events of a run with packages of two kinds, some of which fail.
fn mixed_events() -> Vec<Event> {
    let mut events = one_registry(3);
    events.push(pulled(Some("1"), Some("2"), true));
    events.push(pulled(Some("2"), Some("2"), false));
    events.push(pulled(None, Some("3"), true));
    events.push(ran(false, Some(101)));
    events.push(ran(true, Some(0)));
    events.push(commits(Some("0b"), true));
    events.push(commits(Some("0a"), false));
    events.push(commits(Some("0c"), true));
    events.push(ran(true, Some(0)));
    events.push(ran(false, Some(7)));
    events
}

const MIXED: [&str; 3] = ["cargo-update", "current", "fresh"];
const MIXED_GIT: [&str; 3] = ["git-one", "git-two", "cargo-update"];

fn mixed_options(quiet: bool) -> Options {
    let mut options = options();
    options.quiet = quiet;
    options.update_git = true;
    options.windows = true;
    options.pass_through = 1;
    options
}

#[test]
fn quiet_changes_only_what_is_printed() {
    let (loud, told) = course(mixed_options(false), &MIXED, &MIXED_GIT, mixed_events());
    let (quiet, left) = course(mixed_options(true), &MIXED, &MIXED_GIT, mixed_events());
    assert_eq!(loud.len(), quiet.len());
    let word = |text: &str| CargoArg::Text { text: text.to_string() };
    let mut runs = 0;
    for (mut loud, mut quiet) in loud.into_iter().zip(quiet) {
        match (&mut loud, &mut quiet) {
            (Request::RunCargo { args: loud }, Request::RunCargo { args: quiet }) => {
                let at = quiet.iter().position(|arg| *arg == word("--quiet")).unwrap();
                quiet.remove(at);
                assert_eq!(loud, quiet);
                assert!(loud[at] == word("--vers") || loud[at] == word("--git"));
                runs += 1;
            }
            (
                Request::RefreshIndex { group, url, show: true },
                Request::RefreshIndex { group: same_group, url: same_url, show: false },
            ) => assert_eq!((group, url), (same_group, same_url)),
            (loud, quiet) => assert_eq!(loud, quiet),
        }
    }
    assert_eq!(runs, 4);
    let kept: Vec<Effect> =
        told.into_iter().filter(|effect| !matches!(effect, Effect::Print { .. })).collect();
    assert_eq!(kept, left);
    assert_eq!(left.iter().filter(|e| matches!(e, Effect::File { .. })).count(), 8);
    assert_eq!(left.last(), Some(&complain("Overall failed to update 2 packages: cargo-update, cargo-update.\n")));
}

#[test]
fn what_is_due_is_installed_once_and_in_order() {
    let (requests, _) = course(mixed_options(true), &MIXED, &MIXED_GIT, mixed_events());
    let names: Vec<CargoArg> = requests
        .into_iter()
        .filter_map(|request| match request {
            Request::RunCargo { mut args } => Some(args.remove(args.len() - 2)),
            _ => None,
        })
        .collect();
    let word = |text: &str| CargoArg::Text { text: text.to_string() };
    assert_eq!(
        names,
        vec![word("cargo-update"), word("fresh"), word("git-one"), word("cargo-update")]
    );
}

#[test]
fn each_index_is_fetched_once_and_each_package_looked_up_in_its_own() {
    let mut events = vec![resolved("z"), resolved("a"), resolved("z"), resolved("m")];
    for path in ["/a", "/m", "/z"] {
        events.push(Event::Located { path: path.to_string() });
    }
    for _ in 0..9 {
        events.push(Event::Succeeded);
    }
    for _ in 0..4 {
        events.push(pulled(Some("1"), Some("1"), false));
    }
    let (requests, _) = course(options(), &["one", "two", "three", "four"], &[], events);
    let fetched: Vec<(usize, &str)> = requests
        .iter()
        .filter_map(|request| match request {
            Request::RefreshIndex { group, url, .. } => Some((*group, &url[..])),
            _ => None,
        })
        .collect();
    assert_eq!(fetched, vec![(0, "a"), (1, "m"), (2, "z")]);
    let looked_up: Vec<(usize, usize)> = requests
        .iter()
        .filter_map(|request| match request {
            Request::PullVersions { package, group, .. } => Some((*package, *group)),
            _ => None,
        })
        .collect();
    assert_eq!(looked_up, vec![(0, 2), (1, 0), (2, 2), (3, 1)]);
    assert_eq!(requests.last(), Some(&Request::Exit { code: 0 }));
}

#[test]
fn the_table_of_a_run_is_sorted() {
    let mut options = options();
    options.quiet = false;
    options.update = false;
    let mut events = one_registry(4);
    events.push(pulled(Some("1"), Some("1"), false));
    events.push(pulled(Some("1"), Some("2"), true));
    events.push(pulled(Some("1"), Some("1"), false));
    events.push(pulled(Some("1"), Some("2"), true));
    let (_, effects) = course(options, &["b", "d", "a", "c"], &[], events);
    assert_eq!(
        effects,
        vec![print(
            "Package  Installed  Latest  Needs update\n\
             c        v1         v2      Yes\n\
             d        v1         v2      Yes\n\
             a        v1         v1      No\n\
             b        v1         v1      No\n\n"
        )]
    );
}

#[test]
fn a_listing_shows_tables_and_nothing_else() {
    let listing = |quiet: bool| {
        let mut options = options();
        options.quiet = quiet;
        options.update = false;
        options.update_git = true;
        let mut events = one_registry(1);
        events.push(pulled(Some("1"), Some("2"), true));
        events.push(commits(Some("0b"), true));
        let (requests, effects) = course(options, &["one"], &["tool"], events);
        assert_eq!(requests.last(), Some(&Request::Exit { code: 0 }));
        assert!(!requests.iter().any(|r| matches!(r, Request::RunCargo { .. })));
        effects
    };
    assert_eq!(
        listing(false),
        vec![
            print("Package  Installed  Latest  Needs update\none      v1         v2      Yes\n\n"),
            print("Package  Installed  Latest  Needs update\ntool     0a         0b      Yes\n\n"),
        ]
    );
    assert_eq!(listing(true), vec![]);
}

#[test]
fn tables_without_rows_are_shown_where_there_are_no_packages() {
    let header = || print("Package  Installed  Latest  Needs update\n\n");
    let mut loud = options();
    loud.quiet = false;
    loud.update_git = true;
    let (_, effects) = course(loud, &[], &[], vec![]);
    assert_eq!(
        effects,
        vec![
            header(),
            print("No packages need updating.\n"),
            header(),
            print("No git packages need updating.\n"),
            print("Overall updated 0 packages.\n"),
        ]
    );
    let mut loud = options();
    loud.quiet = false;
    loud.update_git = true;
    let mut events = one_registry(1);
    events.push(pulled(Some("1"), Some("2"), true));
    events.push(ran(true, Some(0)));
    let (_, effects) = course(loud, &["one"], &[], events);
    assert_eq!(effects.iter().filter(|effect| **effect == header()).count(), 1);
}

#[test]
fn failures_are_reported_by_kind_and_then_overall() {
    let (requests, effects) = course(mixed_options(false), &MIXED, &MIXED_GIT, mixed_events());
    assert_eq!(requests.last(), Some(&Request::Exit { code: 101 }));
    let complaints: Vec<&Effect> =
        effects.iter().filter(|e| matches!(e, Effect::Complain { .. })).collect();
    assert_eq!(
        complaints,
        vec![
            &complain("Failed to update cargo-update.\n\n"),
            &complain("Failed to update cargo-update.\n\n"),
            &complain("Overall failed to update 2 packages: cargo-update, cargo-update.\n"),
        ]
    );
    let last = effects.iter().filter(|e| matches!(e, Effect::Print { .. })).last();
    assert_eq!(last, Some(&print("Overall updated 2 packages: fresh, git-one.\n")));
}

#[test]
fn a_first_failure_of_a_git_package_ends_the_run_without_a_summary() {
    let mut options = options();
    options.quiet = false;
    options.update_git = true;
    let events = vec![commits(Some("0b"), true), ran(false, None)];
    let (requests, effects) = course(options, &[], &["tool"], events);
    assert_eq!(requests.last(), Some(&Request::Exit { code: -1 }));
    assert_eq!(effects.last(), Some(&complain("Failed to update tool.\n\n")));
    let last = effects.iter().filter(|e| matches!(e, Effect::Print { .. })).last();
    assert_eq!(last, Some(&print("\nUpdated 0 git packages.\n")));
}
