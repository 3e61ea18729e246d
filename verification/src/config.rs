//! Per-package configuration.

use vstd::prelude::*;
use crate::text::Text;
use crate::views::{optional, views};

verus! {

/// How one package is to be installed.
#[derive(Debug, PartialEq, Eq)]
pub struct Settings {
    /// The version requirement to stick to, as text.
    pub target_version: Option<String>,
    /// Whether prereleases count as updates.
    pub install_prereleases: Option<bool>,
    /// The first arguments for `cargo`, from the subcommand on.
    pub cargo_args: Vec<String>,
    /// For each filter given on the command line, whether these settings match it.
    pub filter_matches: Vec<bool>,
}

/// What [`Settings`] hold.
#[verifier::ext_equal]
pub struct SettingsView {
    pub target_version: Option<Text>,
    pub install_prereleases: Option<bool>,
    pub cargo_args: Seq<Text>,
    pub filter_matches: Seq<bool>,
}

impl View for Settings {
    type V = SettingsView;

    open spec fn view(&self) -> SettingsView {
        SettingsView {
            target_version: optional(self.target_version),
            install_prereleases: self.install_prereleases,
            cargo_args: views(self.cargo_args@),
            filter_matches: self.filter_matches@,
        }
    }
}

impl SettingsView {
    /// Every filter of the command line matches.
    pub open spec fn matches_all(self) -> bool {
        forall|i: int| 0 <= i < self.filter_matches.len() ==> self.filter_matches[i]
    }
}

impl Settings {
    /// Whether every filter of the command line matches.
    pub fn matches_all(&self) -> (all: bool)
        ensures
            all == self@.matches_all(),
    {
        let mut i: usize = 0;
        while i < self.filter_matches.len()
            invariant
                i <= self.filter_matches.len(),
                forall|j: int| 0 <= j < i ==> self.filter_matches[j],
            decreases self.filter_matches.len() - i,
        {
            if !self.filter_matches[i] {
                assert(!self@.filter_matches[i as int]);
                return false;
            }
            i = i + 1;
        }
        true
    }
}

/// The settings of the packages that have any, by package name. No name occurs twice.
#[derive(Debug, PartialEq, Eq)]
pub struct Configuration {
    entries: Vec<(String, Settings)>,
}

/// The position in `entries` at which `name` stands.
pub open spec fn stands_at(entries: Seq<(String, Settings)>, name: Text, at: int) -> bool {
    0 <= at < entries.len() && entries[at].0@ == name
}

impl View for Configuration {
    type V = Map<Text, SettingsView>;

    closed spec fn view(&self) -> Map<Text, SettingsView> {
        Map::new(
            |name: Text| exists|at: int| stands_at(self.entries@, name, at),
            |name: Text| self.entries@[choose|at: int| stands_at(self.entries@, name, at)].1@,
        )
    }
}

impl Configuration {
    /// Every package has its settings once.
    #[verifier::type_invariant]
    spec fn no_name_twice(&self) -> bool {
        forall|i: int, j: int|
            0 <= i < self.entries@.len() && 0 <= j < self.entries@.len() && i != j
                ==> self.entries@[i].0@ != self.entries@[j].0@
    }

    /// A configuration without any settings.
    pub fn new() -> (config: Configuration)
        ensures
            config@ == Map::<Text, SettingsView>::empty(),
    {
        let config = Configuration { entries: Vec::new() };
        proof {
            assert forall|name: Text| !config@.contains_key(name) by {
                assert(forall|at: int| !stands_at(config.entries@, name, at));
            }
            assert(config@ =~= Map::<Text, SettingsView>::empty());
        }
        config
    }

    /// The position of `name`, or the number of entries.
    fn position(&self, name: &String) -> (at: usize)
        ensures
            at <= self.entries@.len(),
            at < self.entries@.len() <==> self@.contains_key(name@),
            at < self.entries@.len() ==> stands_at(self.entries@, name@, at as int),
    {
        let mut at: usize = 0;
        while at < self.entries.len()
            invariant
                at <= self.entries@.len(),
                forall|i: int| 0 <= i < at ==> self.entries@[i].0@ != name@,
            decreases self.entries@.len() - at,
        {
            if self.entries[at].0 == *name {
                assert(stands_at(self.entries@, name@, at as int));
                return at;
            }
            at = at + 1;
        }
        assert(forall|i: int| !stands_at(self.entries@, name@, i));
        at
    }

    /// The settings of the package `name`, if it has any.
    pub fn get(&self, name: &String) -> (settings: Option<&Settings>)
        ensures
            match settings {
                Some(found) => self@.contains_key(name@) && found@ == self@[name@],
                None => !self@.contains_key(name@),
            },
    {
        let at: usize = self.position(name);
        if at < self.entries.len() {
            proof {
                use_type_invariant(self);
                let chosen = choose|i: int| stands_at(self.entries@, name@, i);
                assert(chosen == at);
            }
            Some(&self.entries[at].1)
        } else {
            None
        }
    }

    /// The configuration with `settings` for the package `name`, in place of those it had.
    pub fn with(self, name: String, settings: Settings) -> (config: Configuration)
        ensures
            config@ == self@.insert(name@, settings@),
    {
        proof {
            use_type_invariant(&self);
        }
        let at: usize = self.position(&name);
        let ghost before = self.entries@;
        let ghost old_view = self@;
        let Configuration { mut entries } = self;
        let ghost pair = (name, settings);
        proof {
            assert forall|i: int| 0 <= i < before.len() && i != at implies before[i].0@
                != name@ by {
                assert(stands_at(before, before[i].0@, i));
            }
        }
        if at < entries.len() {
            entries.set(at, (name, settings));
        } else {
            entries.push((name, settings));
        }
        assert(stands_at(entries@, pair.0@, at as int));
        assert(forall|i: int| 0 <= i < before.len() && i != at ==> entries@[i] == before[i]);
        let config = Configuration { entries };
        proof {
            assert forall|other: Text| #[trigger] config@.contains_key(other) == (other
                == pair.0@ || old_view.contains_key(other)) by {
                if old_view.contains_key(other) && other != pair.0@ {
                    let i = choose|i: int| stands_at(before, other, i);
                    assert(stands_at(config.entries@, other, i));
                }
                if config@.contains_key(other) && other != pair.0@ {
                    let i = choose|i: int| stands_at(config.entries@, other, i);
                    assert(stands_at(before, other, i));
                }
            }
            assert forall|other: Text| #[trigger] config@.contains_key(other) implies config@[other]
                == old_view.insert(pair.0@, pair.1@)[other] by {
                let i = choose|i: int| stands_at(config.entries@, other, i);
                if other == pair.0@ {
                    assert(i == at);
                } else {
                    assert(stands_at(before, other, i));
                    assert(old_view.contains_key(other));
                    let j = choose|j: int| stands_at(before, other, j);
                    assert(i == j);
                }
            }
            assert(config@ =~= old_view.insert(pair.0@, pair.1@));
        }
        config
    }
}

} // verus!
