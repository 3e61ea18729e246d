//! What the user asked for on the command line.

use vstd::prelude::*;
use crate::text::Text;
use crate::views::views;

verus! {

/// The options of a run.
#[derive(Debug, PartialEq, Eq)]
pub struct Options {
    /// Names of the packages asked for.
    pub to_update: Vec<String>,
    /// Take every installed package.
    pub all: bool,
    /// Install updates, rather than list them only.
    pub update: bool,
    /// Allow packages that are not installed yet.
    pub install: bool,
    /// Install also what is up to date.
    pub force: bool,
    /// Print no progress.
    pub quiet: bool,
    /// Also update packages installed from git repositories.
    pub update_git: bool,
    /// At least one filter on the configuration of packages was given.
    pub filtered: bool,
    /// How many arguments are passed through to `cargo install`.
    pub pass_through: usize,
    /// The program runs on Windows, which cannot overwrite a running executable.
    pub windows: bool,
}

/// What [`Options`] hold.
#[verifier::ext_equal]
pub struct OptionsView {
    pub to_update: Seq<Text>,
    pub all: bool,
    pub update: bool,
    pub install: bool,
    pub force: bool,
    pub quiet: bool,
    pub update_git: bool,
    pub filtered: bool,
    pub pass_through: nat,
    pub windows: bool,
}

impl View for Options {
    type V = OptionsView;

    open spec fn view(&self) -> OptionsView {
        OptionsView {
            to_update: views(self.to_update@),
            all: self.all,
            update: self.update,
            install: self.install,
            force: self.force,
            quiet: self.quiet,
            update_git: self.update_git,
            filtered: self.filtered,
            pass_through: self.pass_through as nat,
            windows: self.windows,
        }
    }
}

impl OptionsView {
    /// Installed git packages are looked up: to update them, or to tell them from packages
    /// that are not installed yet.
    pub open spec fn wants_git_packages(self) -> bool {
        self.update_git || (self.update && self.install)
    }

    /// There is something to do: packages were named, or all are meant, or updates are only
    /// listed.
    pub open spec fn selects_something(self) -> bool {
        self.all || self.to_update.len() > 0 || !self.update
    }
}

impl Options {
    /// Whether the installed git packages have to be looked up.
    pub fn wants_git_packages(&self) -> (wanted: bool)
        ensures
            wanted == self@.wants_git_packages(),
    {
        self.update_git || (self.update && self.install)
    }

    /// Whether the options select anything. The command line parser lets no others through.
    pub fn selects_something(&self) -> (selects: bool)
        ensures
            selects == self@.selects_something(),
    {
        self.all || self.to_update.len() > 0 || !self.update
    }
}

} // verus!
