//! What a run asks of the outside world, and what it hears back.

use vstd::prelude::*;
use crate::command::{CargoArg, CargoArgView};
use crate::executable::{FileStep, FileStepView};
use crate::package::{Commits, CommitsView, Versions, VersionsView};
use crate::registry::{Registry, RegistryView};
use crate::tally::Outcome;
use crate::text::Text;
use crate::views::views;

verus! {

/// What the outside world has to do next. Packages are named by their handles, registries by
/// the position of their group.
#[derive(Debug, PartialEq, Eq)]
pub enum Request {
    /// Find out which registry a package comes from.
    ResolveRegistry { package: usize },
    /// Find out where the index of a registry is kept.
    LocateIndex { url: String },
    /// Open the repository that holds the index of a registry.
    OpenIndex { group: usize },
    /// Fetch the newest index of a registry, and show how that goes or not.
    RefreshIndex { group: usize, url: String, show: bool },
    /// Look up a revision of the index of a registry.
    ReadRevision { group: usize, revision: String },
    /// Look up the newest versions of a package in the index of a registry.
    PullVersions { package: usize, group: usize, install_prereleases: Option<bool> },
    /// Look up the newest commit of a git package.
    PullCommits { package: usize },
    /// Run `cargo`.
    RunCargo { args: Vec<CargoArg> },
    /// End the program with this exit code.
    Exit { code: i32 },
}

/// What a [`Request`] holds.
pub enum RequestView {
    ResolveRegistry { package: usize },
    LocateIndex { url: Text },
    OpenIndex { group: nat },
    RefreshIndex { group: nat, url: Text, show: bool },
    ReadRevision { group: nat, revision: Text },
    PullVersions { package: usize, group: nat, install_prereleases: Option<bool> },
    PullCommits { package: usize },
    RunCargo { args: Seq<CargoArgView> },
    Exit { code: i32 },
}

impl View for Request {
    type V = RequestView;

    open spec fn view(&self) -> RequestView {
        match self {
            Request::ResolveRegistry { package } => RequestView::ResolveRegistry {
                package: *package,
            },
            Request::LocateIndex { url } => RequestView::LocateIndex { url: url@ },
            Request::OpenIndex { group } => RequestView::OpenIndex { group: *group as nat },
            Request::RefreshIndex { group, url, show } => RequestView::RefreshIndex {
                group: *group as nat,
                url: url@,
                show: *show,
            },
            Request::ReadRevision { group, revision } => RequestView::ReadRevision {
                group: *group as nat,
                revision: revision@,
            },
            Request::PullVersions { package, group, install_prereleases } =>
                RequestView::PullVersions {
                package: *package,
                group: *group as nat,
                install_prereleases: *install_prereleases,
            },
            Request::PullCommits { package } => RequestView::PullCommits { package: *package },
            Request::RunCargo { args } => RequestView::RunCargo { args: views(args@) },
            Request::Exit { code } => RequestView::Exit { code: *code },
        }
    }
}

/// What came of a request.
#[derive(Debug, PartialEq, Eq)]
pub enum Event {
    /// The registry of the package.
    Resolved { registry: Registry },
    /// Where the index is kept, as text.
    Located { path: String },
    /// The index was opened or fetched, or the revision was found.
    Succeeded,
    /// The request could not be met, for this reason.
    Failed { reason: String },
    /// The versions of the package.
    Pulled { versions: Versions },
    /// The commits of the git package.
    PulledCommits { commits: Commits },
    /// `cargo` ended.
    Ran { outcome: Outcome },
}

/// What an [`Event`] holds.
pub enum EventView {
    Resolved { registry: RegistryView },
    Located { path: Text },
    Succeeded,
    Failed { reason: Text },
    Pulled { versions: VersionsView },
    PulledCommits { commits: CommitsView },
    Ran { outcome: Outcome },
}

impl View for Event {
    type V = EventView;

    open spec fn view(&self) -> EventView {
        match self {
            Event::Resolved { registry } => EventView::Resolved { registry: registry@ },
            Event::Located { path } => EventView::Located { path: path@ },
            Event::Succeeded => EventView::Succeeded,
            Event::Failed { reason } => EventView::Failed { reason: reason@ },
            Event::Pulled { versions } => EventView::Pulled { versions: versions@ },
            Event::PulledCommits { commits } => EventView::PulledCommits { commits: commits@ },
            Event::Ran { outcome } => EventView::Ran { outcome: *outcome },
        }
    }
}

/// What is to be done before the next request, in this order.
#[derive(Debug, PartialEq, Eq)]
pub enum Effect {
    /// Print the text to standard output.
    Print { text: String },
    /// Print the text to standard error.
    Complain { text: String },
    /// Change a file beside the running executable.
    File { step: FileStep },
}

/// What an [`Effect`] holds.
pub enum EffectView {
    Print { text: Text },
    Complain { text: Text },
    File { step: FileStepView },
}

impl View for Effect {
    type V = EffectView;

    open spec fn view(&self) -> EffectView {
        match self {
            Effect::Print { text } => EffectView::Print { text: text@ },
            Effect::Complain { text } => EffectView::Complain { text: text@ },
            Effect::File { step } => EffectView::File { step: step@ },
        }
    }
}

/// A step of a run.
#[derive(Debug, PartialEq, Eq)]
pub struct Step {
    pub effects: Vec<Effect>,
    pub request: Request,
}

} // verus!
