//! Packages, before and after the newest versions of them are known.

use vstd::prelude::*;
use crate::text::Text;
use crate::views::optional;

verus! {

/// A package to look at. The handle is the caller's, who finds by it what else belongs to the
/// package.
#[derive(Debug, PartialEq, Eq)]
pub struct Package {
    pub handle: usize,
    pub name: String,
}

/// What a [`Package`] holds.
pub struct PackageView {
    pub handle: usize,
    pub name: Text,
}

impl View for Package {
    type V = PackageView;

    open spec fn view(&self) -> PackageView {
        PackageView { handle: self.handle, name: self.name@ }
    }
}

/// What the registry says of a package, with versions as text.
#[derive(Debug, PartialEq, Eq)]
pub struct Versions {
    /// The installed version, if the package is installed.
    pub installed: Option<String>,
    /// The version to update to, if the registry offers any.
    pub update_to: Option<String>,
    /// A newer version that is offered but not taken.
    pub alternative: Option<String>,
    /// The installed version is not the one wanted.
    pub needs_update: bool,
}

/// What [`Versions`] hold.
pub struct VersionsView {
    pub installed: Option<Text>,
    pub update_to: Option<Text>,
    pub alternative: Option<Text>,
    pub needs_update: bool,
}

impl View for Versions {
    type V = VersionsView;

    open spec fn view(&self) -> VersionsView {
        VersionsView {
            installed: optional(self.installed),
            update_to: optional(self.update_to),
            alternative: optional(self.alternative),
            needs_update: self.needs_update,
        }
    }
}

/// A registry package whose versions are known.
#[derive(Debug, PartialEq, Eq)]
pub struct Candidate {
    pub name: String,
    pub versions: Versions,
}

/// What a [`Candidate`] holds.
pub struct CandidateView {
    pub name: Text,
    pub versions: VersionsView,
}

impl View for Candidate {
    type V = CandidateView;

    open spec fn view(&self) -> CandidateView {
        CandidateView { name: self.name@, versions: self.versions@ }
    }
}

/// What the repository says of a git package, with commits as text.
#[derive(Debug, PartialEq, Eq)]
pub struct Commits {
    /// Where the repository is.
    pub url: String,
    /// The branch to follow, if not the default one.
    pub branch: Option<String>,
    /// The installed commit.
    pub id: String,
    /// The newest commit, if it could be read.
    pub newest: Option<String>,
    /// The installed commit is not the newest one.
    pub needs_update: bool,
}

/// What [`Commits`] hold.
pub struct CommitsView {
    pub url: Text,
    pub branch: Option<Text>,
    pub id: Text,
    pub newest: Option<Text>,
    pub needs_update: bool,
}

impl View for Commits {
    type V = CommitsView;

    open spec fn view(&self) -> CommitsView {
        CommitsView {
            url: self.url@,
            branch: optional(self.branch),
            id: self.id@,
            newest: optional(self.newest),
            needs_update: self.needs_update,
        }
    }
}

/// A git package whose commits are known.
#[derive(Debug, PartialEq, Eq)]
pub struct GitCandidate {
    pub name: String,
    pub commits: Commits,
}

/// What a [`GitCandidate`] holds.
pub struct GitCandidateView {
    pub name: Text,
    pub commits: CommitsView,
}

impl View for GitCandidate {
    type V = GitCandidateView;

    open spec fn view(&self) -> GitCandidateView {
        GitCandidateView { name: self.name@, commits: self.commits@ }
    }
}

} // verus!
