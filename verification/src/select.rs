//! Which packages a run is about.

use vstd::prelude::*;
use crate::config::{Configuration, SettingsView};
use crate::options::{Options, OptionsView};
use crate::package::{Package, PackageView};
use crate::text::{contains_name, Text};
use crate::views::{keep_marked, lemma_views_push, views};

verus! {

/// The package has settings, and they match every filter.
pub open spec fn is_matching(config: Map<Text, SettingsView>) -> spec_fn(PackageView) -> bool {
    |package: PackageView|
        config.contains_key(package.name) && config[package.name].matches_all()
}

/// The packages that the filters leave.
pub open spec fn filtered(
    options: OptionsView,
    config: Map<Text, SettingsView>,
    packages: Seq<PackageView>,
) -> Seq<PackageView> {
    if options.filtered {
        packages.filter(is_matching(config))
    } else {
        packages
    }
}

/// Some package has this name.
pub open spec fn named(packages: Seq<PackageView>, name: Text) -> bool {
    exists|i: int| 0 <= i < packages.len() && #[trigger] packages[i].name == name
}

/// The packages, followed by those of `extra` whose name did not occur before them.
pub open spec fn with_missing(packages: Seq<PackageView>, extra: Seq<PackageView>) -> Seq<
    PackageView,
>
    decreases extra.len(),
{
    if extra.len() == 0 {
        packages
    } else {
        let front = with_missing(packages, extra.drop_last());
        if named(front, extra.last().name) {
            front
        } else {
            front.push(extra.last())
        }
    }
}

/// The packages of a run: the installed ones, where none was named; those named, where not all
/// are meant; else the installed ones and those named that are not among them.
pub open spec fn selected(
    options: OptionsView,
    packages: Seq<PackageView>,
    requested: Seq<PackageView>,
) -> Seq<PackageView> {
    if options.to_update.len() == 0 {
        packages
    } else if options.all {
        with_missing(packages, requested)
    } else {
        requested
    }
}

/// The package was named on the command line.
pub open spec fn is_requested(to_update: Seq<Text>) -> spec_fn(PackageView) -> bool {
    |package: PackageView| to_update.contains(package.name)
}

/// The git packages of a run: those that the filters leave and, where not all are meant, that
/// were named.
pub open spec fn selected_git(
    options: OptionsView,
    config: Map<Text, SettingsView>,
    packages: Seq<PackageView>,
) -> Seq<PackageView> {
    let left = filtered(options, config, packages);
    if options.all {
        left
    } else {
        left.filter(is_requested(options.to_update))
    }
}

/// The packages that the filters leave.
pub fn filter_packages(
    options: &Options,
    config: &Configuration,
    packages: Vec<Package>,
) -> (left: Vec<Package>)
    ensures
        views(left@) == filtered(options@, config@, views(packages@)),
{
    if !options.filtered {
        return packages;
    }
    let mut marks: Vec<bool> = Vec::new();
    let mut i: usize = 0;
    while i < packages.len()
        invariant
            i <= packages@.len(),
            marks@.len() == i,
            forall|j: int|
                0 <= j < i ==> marks@[j] == is_matching(config@)(#[trigger] packages@[j]@),
        decreases packages@.len() - i,
    {
        let mark: bool = match config.get(&packages[i].name) {
            Some(settings) => settings.matches_all(),
            None => false,
        };
        marks.push(mark);
        i = i + 1;
    }
    keep_marked(packages, &marks, Ghost(is_matching(config@)))
}

/// Whether some package has this name.
fn has_name(packages: &Vec<Package>, name: &String) -> (found: bool)
    ensures
        found == named(views(packages@), name@),
{
    let mut i: usize = 0;
    while i < packages.len()
        invariant
            i <= packages@.len(),
            forall|j: int| 0 <= j < i ==> (#[trigger] views(packages@)[j]).name != name@,
        decreases packages@.len() - i,
    {
        if packages[i].name == *name {
            assert(views(packages@)[i as int].name == name@);
            return true;
        }
        i = i + 1;
    }
    false
}

/// The packages of a run, out of the installed ones and those asked for by name.
pub fn select_packages(
    options: &Options,
    packages: Vec<Package>,
    requested: Vec<Package>,
) -> (chosen: Vec<Package>)
    requires
        options@.selects_something(),
    ensures
        views(chosen@) == selected(options@, views(packages@), views(requested@)),
{
    if options.to_update.len() == 0 {
        return packages;
    }
    if !options.all {
        return requested;
    }
    let ghost extra = requested@;
    let count: usize = requested.len();
    let mut chosen: Vec<Package> = packages;
    let mut at: usize = 0;
    proof {
        assert(views(extra.take(0)) =~= Seq::empty());
    }
    for package in iter: requested
        invariant
            at == iter.index(),
            iter.seq() == extra,
            count == extra.len(),
            views(chosen@) == with_missing(views(packages@), views(extra.take(at as int))),
    {
        proof {
            let front = extra.take(at as int);
            assert(extra.take(at + 1) =~= front.push(package));
            lemma_views_push(front, package);
            assert(views(front).push(package@).drop_last() =~= views(front));
            lemma_views_push(chosen@, package);
        }
        if !has_name(&chosen, &package.name) {
            chosen.push(package);
        }
        at = at + 1;
    }
    proof {
        assert(extra.take(extra.len() as int) =~= extra);
    }
    chosen
}

/// The git packages of a run.
pub fn select_git_packages(
    options: &Options,
    config: &Configuration,
    packages: Vec<Package>,
) -> (chosen: Vec<Package>)
    ensures
        views(chosen@) == selected_git(options@, config@, views(packages@)),
{
    let left: Vec<Package> = filter_packages(options, config, packages);
    if options.all {
        return left;
    }
    let mut marks: Vec<bool> = Vec::new();
    let mut i: usize = 0;
    while i < left.len()
        invariant
            i <= left@.len(),
            marks@.len() == i,
            forall|j: int|
                0 <= j < i ==> marks@[j] == is_requested(options@.to_update)(
                    #[trigger] left@[j]@,
                ),
        decreases left@.len() - i,
    {
        marks.push(contains_name(&options.to_update, &left[i].name));
        i = i + 1;
    }
    keep_marked(left, &marks, Ghost(is_requested(options@.to_update)))
}

/// No two packages have the same name.
pub open spec fn distinct(packages: Seq<PackageView>) -> bool {
    forall|i: int, j: int|
        0 <= i < j < packages.len() ==> (#[trigger] packages[i]).name != (
        #[trigger] packages[j]).name
}

/// Adding what is missing keeps the packages in place, leaves none of the extra names out,
/// makes up no package, and brings no name in twice.
pub proof fn lemma_with_missing(packages: Seq<PackageView>, extra: Seq<PackageView>)
    ensures
        packages.len() <= with_missing(packages, extra).len(),
        with_missing(packages, extra).take(packages.len() as int) == packages,
        forall|i: int|
            0 <= i < extra.len() ==> named(
                with_missing(packages, extra),
                (#[trigger] extra[i]).name,
            ),
        forall|i: int|
            packages.len() <= i < with_missing(packages, extra).len() ==> {
                let added = #[trigger] with_missing(packages, extra)[i];
                extra.contains(added) && !named(packages, added.name)
            },
        distinct(packages) ==> distinct(with_missing(packages, extra)),
    decreases extra.len(),
{
    let whole = with_missing(packages, extra);
    if extra.len() == 0 {
        assert(packages.take(packages.len() as int) =~= packages);
    } else {
        let last = extra.last();
        let front = with_missing(packages, extra.drop_last());
        lemma_with_missing(packages, extra.drop_last());
        assert(whole.take(packages.len() as int) =~= front.take(packages.len() as int));
        assert forall|i: int| 0 <= i < extra.len() implies named(
            whole,
            (#[trigger] extra[i]).name,
        ) by {
            if i < extra.len() - 1 {
                assert(extra.drop_last()[i] == extra[i]);
                let j = choose|j: int|
                    0 <= j < front.len() && #[trigger] front[j].name == extra[i].name;
                assert(whole[j].name == extra[i].name);
            } else if !named(front, last.name) {
                assert(whole[whole.len() - 1].name == last.name);
            }
        }
        assert forall|i: int| packages.len() <= i < whole.len() implies extra.contains(
            #[trigger] whole[i],
        ) && !named(packages, whole[i].name) by {
            if i < front.len() {
                let added = front[i];
                assert(whole[i] == added);
                let j = choose|j: int|
                    0 <= j < extra.drop_last().len() && extra.drop_last()[j] == added;
                assert(extra[j] == added);
            } else {
                assert(whole[i] == extra[extra.len() - 1]);
                if named(packages, last.name) {
                    let j = choose|j: int|
                        0 <= j < packages.len() && #[trigger] packages[j].name == last.name;
                    assert(front.take(packages.len() as int)[j] == front[j]);
                    assert(front[j].name == last.name);
                }
            }
        }
        if distinct(packages) && !named(front, last.name) {
            assert forall|i: int, j: int| 0 <= i < j < whole.len() implies (
            #[trigger] whole[i]).name != (#[trigger] whole[j]).name by {
                assert(whole[i] == front[i]);
                if j < front.len() {
                    assert(whole[j] == front[j]);
                }
            }
        }
    }
}

} // verus!
