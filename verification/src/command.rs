//! The arguments with which `cargo` is run.

use vstd::prelude::*;
use crate::config::{Configuration, SettingsView};
use crate::options::{Options, OptionsView};
use crate::package::{Candidate, CandidateView, GitCandidate, GitCandidateView};
use crate::table::target_version;
use crate::text::{copy_texts, Text};
use crate::views::views;

verus! {

/// An argument for `cargo`.
#[derive(Debug, PartialEq, Eq)]
pub enum CargoArg {
    /// This text.
    Text { text: String },
    /// The argument at this position among those passed through from the command line, which
    /// need not be Unicode.
    PassThrough { index: usize },
}

/// What a [`CargoArg`] holds.
pub enum CargoArgView {
    Text { text: Text },
    PassThrough { index: nat },
}

impl View for CargoArg {
    type V = CargoArgView;

    open spec fn view(&self) -> CargoArgView {
        match self {
            CargoArg::Text { text } => CargoArgView::Text { text: text@ },
            CargoArg::PassThrough { index } => CargoArgView::PassThrough { index: *index as nat },
        }
    }
}

/// The arguments that begin with `texts` and end with all that are passed through.
pub open spec fn complete(texts: Seq<Text>, pass_through: nat) -> Seq<CargoArgView> {
    texts.map_values(|text: Text| CargoArgView::Text { text: text }) + Seq::new(
        pass_through,
        |index: int| CargoArgView::PassThrough { index: index as nat },
    )
}

/// The first arguments: those of the settings of the package, or a forced install, and what
/// keeps `cargo` quiet.
pub open spec fn first_args(
    options: OptionsView,
    config: Map<Text, SettingsView>,
    name: Text,
) -> Seq<Text> {
    (if config.contains_key(name) {
        config[name].cargo_args
    } else {
        seq!["install"@, "-f"@]
    }) + (if options.quiet {
        seq!["--quiet"@]
    } else {
        Seq::empty()
    })
}

/// The version to install: the requirement of the settings before what the registry offers.
pub open spec fn version_to_install(
    config: Map<Text, SettingsView>,
    candidate: CandidateView,
) -> Text {
    match target_version(config, candidate.name) {
        Some(target) => target,
        None => candidate.versions.update_to->0,
    }
}

/// The arguments that install a package from the registry of this name.
pub open spec fn registry_args(
    options: OptionsView,
    config: Map<Text, SettingsView>,
    registry: Text,
    candidate: CandidateView,
) -> Seq<CargoArgView> {
    complete(
        first_args(options, config, candidate.name) + seq![
            "--vers"@,
            version_to_install(config, candidate),
            "--registry"@,
            registry,
            candidate.name,
        ],
        options.pass_through,
    )
}

/// The arguments that install a package from its git repository.
pub open spec fn git_args(
    options: OptionsView,
    config: Map<Text, SettingsView>,
    candidate: GitCandidateView,
) -> Seq<CargoArgView> {
    complete(
        first_args(options, config, candidate.name) + seq![
            "--git"@,
            candidate.commits.url,
            candidate.name,
        ] + (match candidate.commits.branch {
            Some(branch) => seq!["--branch"@, branch],
            None => Seq::empty(),
        }),
        options.pass_through,
    )
}

/// The first arguments for a package.
fn make_first_args(options: &Options, config: &Configuration, name: &String) -> (args: Vec<String>)
    ensures
        views(args@) == first_args(options@, config@, name@),
{
    let mut args: Vec<String> = match config.get(name) {
        Some(settings) => copy_texts(&settings.cargo_args),
        None => {
            let mut args: Vec<String> = Vec::new();
            args.push("install".to_owned());
            args.push("-f".to_owned());
            assert(views(args@) =~= seq!["install"@, "-f"@]);
            args
        },
    };
    let ghost before = args@;
    if options.quiet {
        args.push("--quiet".to_owned());
    }
    assert(views(args@) =~= first_args(options@, config@, name@));
    args
}

/// The arguments that begin with `texts` and end with all that are passed through.
fn make_complete(texts: Vec<String>, pass_through: usize) -> (args: Vec<CargoArg>)
    ensures
        views(args@) == complete(views(texts@), pass_through as nat),
{
    let ghost all = texts@;
    let ghost whole = complete(views(all), pass_through as nat);
    let count: usize = texts.len();
    let mut args: Vec<CargoArg> = Vec::new();
    let mut i: usize = 0;
    for text in iter: texts
        invariant
            i == iter.index(),
            iter.seq() == all,
            count == all.len(),
            whole == complete(views(all), pass_through as nat),
            args@.len() == i,
            forall|j: int| 0 <= j < i ==> (#[trigger] args@[j])@ == whole[j],
    {
        args.push(CargoArg::Text { text });
        i = i + 1;
    }
    let mut index: usize = 0;
    while index < pass_through
        invariant
            index <= pass_through,
            whole == complete(views(all), pass_through as nat),
            args@.len() == all.len() + index,
            forall|j: int| 0 <= j < args@.len() ==> (#[trigger] args@[j])@ == whole[j],
        decreases pass_through - index,
    {
        args.push(CargoArg::PassThrough { index });
        index = index + 1;
    }
    assert(views(args@) =~= whole);
    args
}

/// The arguments that install a package from the registry of this name.
pub fn make_registry_args(
    options: &Options,
    config: &Configuration,
    registry: &String,
    candidate: &Candidate,
) -> (args: Vec<CargoArg>)
    requires
        candidate@.versions.update_to is Some,
    ensures
        views(args@) == registry_args(options@, config@, registry@, candidate@),
{
    let offered: String = match &candidate.versions.update_to {
        Some(version) => version.clone(),
        None => String::new(),
    };
    let version: String = match config.get(&candidate.name) {
        Some(settings) => match &settings.target_version {
            Some(target) => target.clone(),
            None => offered,
        },
        None => offered,
    };
    let mut texts: Vec<String> = make_first_args(options, config, &candidate.name);
    let ghost first = views(texts@);
    texts.push("--vers".to_owned());
    texts.push(version);
    texts.push("--registry".to_owned());
    texts.push(registry.clone());
    texts.push(candidate.name.clone());
    assert(views(texts@) =~= first + seq![
        "--vers"@,
        version_to_install(config@, candidate@),
        "--registry"@,
        registry@,
        candidate.name@,
    ]);
    make_complete(texts, options.pass_through)
}

/// The arguments that install a package from its git repository.
pub fn make_git_args(
    options: &Options,
    config: &Configuration,
    candidate: &GitCandidate,
) -> (args: Vec<CargoArg>)
    ensures
        views(args@) == git_args(options@, config@, candidate@),
{
    let mut texts: Vec<String> = make_first_args(options, config, &candidate.name);
    let ghost first = views(texts@);
    texts.push("--git".to_owned());
    texts.push(candidate.commits.url.clone());
    texts.push(candidate.name.clone());
    let ghost middle = first + seq!["--git"@, candidate.commits.url@, candidate.name@];
    assert(views(texts@) =~= middle);
    match &candidate.commits.branch {
        Some(branch) => {
            texts.push("--branch".to_owned());
            texts.push(branch.clone());
            assert(views(texts@) =~= middle + seq!["--branch"@, branch@]);
        },
        None => {
            assert(views(texts@) =~= middle + Seq::empty());
        },
    }
    make_complete(texts, options.pass_through)
}

} // verus!
