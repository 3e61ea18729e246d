//! What holds of each decision, said in terms of what goes in and what comes out.

use vstd::prelude::*;
use crate::command::{git_args, registry_args, CargoArg, CargoArgView};
use crate::config::{Settings, SettingsView};
use crate::course::{answers, attempted, course, obeys};
use crate::executable::{is_stale, restore_steps, restoring, save_steps, saving, stale_at};
use crate::executable::{ExecFile, ExecFileView, FileStep, FileStepView};
use crate::options::{Options, OptionsView};
use crate::package::{Candidate, CandidateView, GitCandidate, GitCandidateView, Package};
use crate::package::PackageView;
use crate::plan::{announcement, complained, complaint, fits, git_announcement, git_jobs, is_due};
use crate::plan::{begin, fresh, is_git_due, is_offered, jobs, next, pull_at, Plan, Turn};
use crate::record::{commits_told, gave_up, lemma_as_told, lemma_gave_up, lemma_started, started};
use crate::record::{versions_told, wanted, wanted_git};
use crate::registry::{comes_before, group_of, holds_at, lemma_group_of, RegistryGroup};
use crate::registry::RegistryView;
use crate::select::{filtered, is_matching, is_requested, lemma_with_missing, named, selected};
use crate::select::selected_git;
use crate::session::turn;
use crate::step::{Effect, EffectView, Event, EventView, Request, RequestView};
use crate::table::{candidate_rows, git_rows, line, lines, ordered, row_before, table};
use crate::table::{Row, RowView};
use crate::tally::{failed_report, overall_failed, overall_updated, updated_report, Outcome};
use crate::tally::{Tally, TallyView};
use crate::text::{decimal, joined, lemma_precedes_trichotomy, parts_below, precedes, Text};
use crate::views::lemma_filter_push;

verus! {

/// An argument that is this text.
pub open spec fn word(text: Text) -> CargoArgView {
    CargoArgView::Text { text: text }
}

/// The arguments begin as they should for a package of this name: with those that its settings
/// give or, where it has none, with a forced install; then, where the user asked for quiet, with
/// `--quiet`. So many arguments these are.
pub open spec fn begins_right(
    args: Seq<CargoArgView>,
    options: OptionsView,
    config: Map<Text, SettingsView>,
    name: Text,
    count: int,
) -> bool {
    let own = if config.contains_key(name) {
        config[name].cargo_args.len() as int
    } else {
        2
    };
    &&& count == own + (if options.quiet {
        1int
    } else {
        0
    })
    &&& count <= args.len()
    &&& config.contains_key(name) ==> forall|i: int|
        0 <= i < own ==> #[trigger] args[i] == word(config[name].cargo_args[i])
    &&& !config.contains_key(name) ==> args[0] == word("install"@) && args[1] == word("-f"@)
    &&& options.quiet ==> args[own] == word("--quiet"@)
}

/// The arguments from position `from` on are all those passed through, in order.
pub open spec fn ends_right(args: Seq<CargoArgView>, options: OptionsView, from: int) -> bool {
    &&& args.len() == from + options.pass_through
    &&& forall|i: int|
        from <= i < args.len() ==> #[trigger] args[i] == (CargoArgView::PassThrough {
            index: (i - from) as nat,
        })
}

/// A package is installed from a registry in the version that its settings name or, where they
/// name none or there are no settings, in the version that the registry offers as the update,
/// whatever newer one there is besides. The arguments are, in this order: those that begin an
/// install, `--vers` and the version, `--registry` and the name of the registry, the name of the
/// package, and what is passed through.
pub proof fn lemma_registry_args(
    options: OptionsView,
    config: Map<Text, SettingsView>,
    registry: Text,
    candidate: CandidateView,
)
    requires
        candidate.versions.update_to is Some,
    ensures
        ({
            let args = registry_args(options, config, registry, candidate);
            let name = candidate.name;
            exists|at: int|
                {
                    &&& #[trigger] begins_right(args, options, config, name, at)
                    &&& args[at] == word("--vers"@)
                    &&& config.contains_key(name) && config[name].target_version is Some
                        ==> args[at + 1] == word(config[name].target_version->0)
                    &&& !(config.contains_key(name) && config[name].target_version is Some)
                        ==> args[at + 1] == word(candidate.versions.update_to->0)
                    &&& args[at + 2] == word("--registry"@)
                    &&& args[at + 3] == word(registry)
                    &&& args[at + 4] == word(name)
                    &&& ends_right(args, options, at + 5)
                }
        }),
{
    let args = registry_args(options, config, registry, candidate);
    let name = candidate.name;
    let own = if config.contains_key(name) {
        config[name].cargo_args.len() as int
    } else {
        2
    };
    let at = own + (if options.quiet {
        1int
    } else {
        0
    });
    assert(begins_right(args, options, config, name, at));
}

/// Of the versions of a package only the one offered as the update decides how it is installed.
pub proof fn lemma_only_the_update_counts(
    options: OptionsView,
    config: Map<Text, SettingsView>,
    registry: Text,
    a: CandidateView,
    b: CandidateView,
)
    requires
        a.name == b.name,
        a.versions.update_to == b.versions.update_to,
    ensures
        registry_args(options, config, registry, a) == registry_args(options, config, registry, b),
{
}

/// A package is installed from the address of its repository and, where it follows a branch,
/// from that branch, whether or not it has settings. The arguments are, in this order: those
/// that begin an install, `--git` and the address, the name of the package, `--branch` and the
/// branch, if there is one, and what is passed through.
pub proof fn lemma_git_args(
    options: OptionsView,
    config: Map<Text, SettingsView>,
    candidate: GitCandidateView,
)
    ensures
        ({
            let args = git_args(options, config, candidate);
            let name = candidate.name;
            exists|at: int|
                {
                    &&& #[trigger] begins_right(args, options, config, name, at)
                    &&& args[at] == word("--git"@)
                    &&& args[at + 1] == word(candidate.commits.url)
                    &&& args[at + 2] == word(name)
                    &&& candidate.commits.branch is Some ==> {
                        &&& args[at + 3] == word("--branch"@)
                        &&& args[at + 4] == word(candidate.commits.branch->0)
                        &&& ends_right(args, options, at + 5)
                    }
                    &&& candidate.commits.branch is None ==> ends_right(args, options, at + 3)
                }
        }),
{
    let args = git_args(options, config, candidate);
    let name = candidate.name;
    let own = if config.contains_key(name) {
        config[name].cargo_args.len() as int
    } else {
        2
    };
    let at = own + (if options.quiet {
        1int
    } else {
        0
    });
    assert(begins_right(args, options, config, name, at));
}

/// The commits of a git package do not decide how it is installed.
pub proof fn lemma_commits_do_not_count(
    options: OptionsView,
    config: Map<Text, SettingsView>,
    a: GitCandidateView,
    b: GitCandidateView,
)
    requires
        a.name == b.name,
        a.commits.url == b.commits.url,
        a.commits.branch == b.commits.branch,
    ensures
        git_args(options, config, a) == git_args(options, config, b),
{
}

/// A further registry package is installed after the others exactly where the registry offers an
/// update and the package needs it or all are forced; of no packages none are.
pub proof fn lemma_jobs_push(
    options: OptionsView,
    candidates: Seq<CandidateView>,
    more: CandidateView,
)
    ensures
        jobs(options, Seq::empty()) == Seq::<CandidateView>::empty(),
        more.versions.update_to is Some && (options.force || more.versions.needs_update) ==> jobs(
            options,
            candidates.push(more),
        ) == jobs(options, candidates).push(more),
        !(more.versions.update_to is Some && (options.force || more.versions.needs_update))
            ==> jobs(options, candidates.push(more)) == jobs(options, candidates),
{
    reveal(Seq::filter);
    lemma_filter_push(candidates, more, is_due());
    lemma_filter_push(candidates, more, is_offered());
    lemma_filter_push(candidates.filter(is_due()), more, is_offered());
    assert(jobs(options, Seq::empty()) =~= Seq::empty());
}

/// A registry package is installed exactly where it is among those looked at, the registry
/// offers an update, and it needs it or all are forced.
pub proof fn lemma_jobs_members(
    options: OptionsView,
    candidates: Seq<CandidateView>,
    candidate: CandidateView,
)
    ensures
        jobs(options, candidates).contains(candidate) <==> candidates.contains(candidate)
            && candidate.versions.update_to is Some && (options.force
            || candidate.versions.needs_update),
    decreases candidates.len(),
{
    if candidates.len() == 0 {
        lemma_jobs_push(options, candidates, candidate);
        assert(candidates =~= Seq::empty());
    } else {
        let front = candidates.drop_last();
        let last = candidates.last();
        assert(candidates =~= front.push(last));
        lemma_jobs_members(options, front, candidate);
        lemma_jobs_push(options, front, last);
        lemma_push_contains(front, last, candidate);
        lemma_push_contains(jobs(options, front), last, candidate);
    }
}

/// What a sequence holds with one item more.
proof fn lemma_push_contains<A>(items: Seq<A>, more: A, item: A)
    ensures
        items.push(more).contains(item) <==> items.contains(item) || item == more,
{
    let whole = items.push(more);
    assert(whole[items.len() as int] == more);
    if items.contains(item) {
        let i = choose|i: int| 0 <= i < items.len() && items[i] == item;
        assert(whole[i] == item);
    }
    if whole.contains(item) && item != more {
        let i = choose|i: int| 0 <= i < whole.len() && whole[i] == item;
        assert(items[i] == item);
    }
}

/// A further git package is installed after the others exactly where it needs an update or all
/// are forced; of no packages none are.
pub proof fn lemma_git_jobs_push(
    options: OptionsView,
    candidates: Seq<GitCandidateView>,
    more: GitCandidateView,
)
    ensures
        git_jobs(options, Seq::empty()) == Seq::<GitCandidateView>::empty(),
        options.force || more.commits.needs_update ==> git_jobs(options, candidates.push(more))
            == git_jobs(options, candidates).push(more),
        !(options.force || more.commits.needs_update) ==> git_jobs(options, candidates.push(more))
            == git_jobs(options, candidates),
{
    reveal(Seq::filter);
    lemma_filter_push(candidates, more, is_git_due());
    assert(git_jobs(options, Seq::empty()) =~= Seq::empty());
}

/// Where nothing was named, the packages of a run are the installed ones.
pub proof fn lemma_selected_all_installed(
    options: OptionsView,
    packages: Seq<PackageView>,
    requested: Seq<PackageView>,
)
    requires
        options.to_update.len() == 0,
    ensures
        selected(options, packages, requested) == packages,
{
}

/// Where packages were named and not all are meant, the packages of a run are those requested.
pub proof fn lemma_selected_requested(
    options: OptionsView,
    packages: Seq<PackageView>,
    requested: Seq<PackageView>,
)
    requires
        options.to_update.len() > 0,
        !options.all,
    ensures
        selected(options, packages, requested) == requested,
{
}

/// Where all are meant, the packages of a run begin with all the installed ones, in their order.
/// Where packages were named besides, what follows are requested ones whose name is not among
/// the installed; every requested name is among those of the run; and one package more that is
/// requested comes at the end, unless its name is there already.
pub proof fn lemma_selected_all(
    options: OptionsView,
    packages: Seq<PackageView>,
    requested: Seq<PackageView>,
    more: PackageView,
)
    requires
        options.all,
    ensures
        ({
            let chosen = selected(options, packages, requested);
            &&& packages.len() <= chosen.len()
            &&& chosen.take(packages.len() as int) == packages
            &&& forall|i: int|
                packages.len() <= i < chosen.len() ==> requested.contains(#[trigger] chosen[i])
                    && forall|j: int|
                    0 <= j < packages.len() ==> (#[trigger] packages[j]).name != chosen[i].name
            &&& options.to_update.len() > 0 ==> forall|i: int|
                0 <= i < requested.len() ==> exists|j: int|
                    0 <= j < chosen.len() && (#[trigger] chosen[j]).name == (
                    #[trigger] requested[i]).name
            &&& options.to_update.len() > 0 ==> selected(options, packages, Seq::empty())
                == packages
            &&& options.to_update.len() > 0 ==> selected(options, packages, requested.push(more))
                == if exists|j: int|
                0 <= j < chosen.len() && (#[trigger] chosen[j]).name == more.name {
                chosen
            } else {
                chosen.push(more)
            }
        }),
{
    let chosen = selected(options, packages, requested);
    assert(packages.take(packages.len() as int) =~= packages);
    if options.to_update.len() > 0 {
        lemma_with_missing(packages, requested);
        assert(requested.push(more).drop_last() =~= requested);
        assert forall|i: int| 0 <= i < requested.len() implies exists|j: int|
            0 <= j < chosen.len() && (#[trigger] chosen[j]).name == (
            #[trigger] requested[i]).name by {
            assert(named(chosen, requested[i].name));
        }
        assert forall|i: int| packages.len() <= i < chosen.len() implies requested.contains(
            #[trigger] chosen[i],
        ) && forall|j: int|
            0 <= j < packages.len() ==> (#[trigger] packages[j]).name != chosen[i].name by {
            assert(!named(packages, chosen[i].name));
        }
    }
}

/// The filters leave a further package after the others exactly where none was given, or it has
/// settings and each filter matches them.
pub proof fn lemma_filtered_push(
    options: OptionsView,
    config: Map<Text, SettingsView>,
    packages: Seq<PackageView>,
    more: PackageView,
)
    ensures
        filtered(options, config, Seq::empty()) == Seq::<PackageView>::empty(),
        filtered(options, config, packages.push(more)) == if !options.filtered || (
        config.contains_key(more.name) && forall|i: int|
            0 <= i < config[more.name].filter_matches.len()
                ==> #[trigger] config[more.name].filter_matches[i]) {
            filtered(options, config, packages).push(more)
        } else {
            filtered(options, config, packages)
        },
{
    reveal(Seq::filter);
    lemma_filter_push(packages, more, is_matching(config));
    assert(filtered(options, config, Seq::empty()) =~= Seq::empty());
}

/// A further git package is looked at after the others exactly where the filters leave it, and
/// all are meant or it was named.
pub proof fn lemma_selected_git_push(
    options: OptionsView,
    config: Map<Text, SettingsView>,
    packages: Seq<PackageView>,
    more: PackageView,
)
    ensures
        selected_git(options, config, Seq::empty()) == Seq::<PackageView>::empty(),
        selected_git(options, config, packages.push(more)) == if (!options.filtered || (
        config.contains_key(more.name) && forall|i: int|
            0 <= i < config[more.name].filter_matches.len()
                ==> #[trigger] config[more.name].filter_matches[i])) && (options.all || exists|
            i: int,
        |
            0 <= i < options.to_update.len() && #[trigger] options.to_update[i] == more.name) {
            selected_git(options, config, packages).push(more)
        } else {
            selected_git(options, config, packages)
        },
{
    reveal(Seq::filter);
    lemma_filtered_push(options, config, packages, more);
    lemma_filter_push(
        filtered(options, config, packages),
        more,
        is_requested(options.to_update),
    );
    assert(filtered(options, config, Seq::empty()) =~= Seq::empty());
    assert(selected_git(options, config, Seq::empty()) =~= Seq::empty());
}

/// The installed git packages are looked up to update them, and also where packages that are not
/// installed may be; nowhere else.
pub proof fn lemma_wants_git_packages(options: OptionsView)
    ensures
        options.update_git ==> options.wants_git_packages(),
        !options.update_git ==> options.wants_git_packages() == (options.update && options.install),
{
}

/// There is nothing to do exactly where updates are to be installed, not all packages are meant
/// and none was named.
pub proof fn lemma_selects_something(options: OptionsView)
    ensures
        !options.selects_something() <==> options.update && !options.all
            && options.to_update.len() == 0,
{
}

/// Each registry package has its row, in its place: with its name, whether it needs an update,
/// the installed version, and the version to install: that of its settings, or the one offered,
/// with a newer one beside it if there is one.
pub proof fn lemma_candidate_rows(
    config: Map<Text, SettingsView>,
    candidates: Seq<CandidateView>,
    at: int,
)
    requires
        0 <= at < candidates.len(),
    ensures
        candidate_rows(config, candidates).len() == candidates.len(),
        ({
            let row = candidate_rows(config, candidates)[at];
            let name = candidates[at].name;
            let versions = candidates[at].versions;
            let bound = config.contains_key(name) && config[name].target_version is Some;
            &&& row.name == name
            &&& row.needs_update == versions.needs_update
            &&& versions.installed is None ==> row.installed == "No"@
            &&& versions.installed is Some ==> row.installed == "v"@ + versions.installed->0
            &&& bound ==> row.latest == config[name].target_version->0
            &&& !bound && versions.update_to is None ==> row.latest == "N/A"@
            &&& !bound && versions.update_to is Some && versions.alternative is None ==> row.latest
                == "v"@ + versions.update_to->0
            &&& !bound && versions.update_to is Some && versions.alternative is Some ==> row.latest
                == "v"@ + versions.update_to->0 + " (v"@ + versions.alternative->0 + " available)"@
        }),
{
}

/// Each git package has its row, in its place: with its name, whether it needs an update, and
/// its installed and newest commits.
pub proof fn lemma_git_rows(candidates: Seq<GitCandidateView>, at: int)
    requires
        0 <= at < candidates.len(),
        candidates[at].commits.newest is Some,
    ensures
        git_rows(candidates).len() == candidates.len(),
        ({
            let row = git_rows(candidates)[at];
            &&& row.name == candidates[at].name
            &&& row.needs_update == candidates[at].commits.needs_update
            &&& row.installed == candidates[at].commits.id
            &&& row.latest == candidates[at].commits.newest->0
        }),
{
}

/// A table without rows is a heading and an empty line. One row more adds one line before the
/// empty one: name, installed and latest version and whether an update is needed, with tabs
/// between them.
pub proof fn lemma_table(rows: Seq<RowView>, more: RowView)
    ensures
        table(Seq::empty()) == "Package\tInstalled\tLatest\tNeeds update\n"@ + "\n"@,
        more.needs_update ==> table(rows.push(more)) == table(rows).drop_last() + (more.name
            + "\t"@ + more.installed + "\t"@ + more.latest + "\t"@ + "Yes"@ + "\n"@) + "\n"@,
        !more.needs_update ==> table(rows.push(more)) == table(rows).drop_last() + (more.name
            + "\t"@ + more.installed + "\t"@ + more.latest + "\t"@ + "No"@ + "\n"@) + "\n"@,
{
    reveal_strlit("\n");
    let head = "Package\tInstalled\tLatest\tNeeds update\n"@;
    assert(head + lines(Seq::empty()) =~= head);
    assert(rows.push(more).drop_last() =~= rows);
    assert(table(rows).drop_last() =~= head + lines(rows));
    assert(lines(rows.push(more)) == lines(rows) + line(more));
    assert(head + (lines(rows) + line(more)) =~= (head + lines(rows)) + line(more));
}

/// Texts are ordered by their first characters, and by the rest where these are the same; a text
/// that has ended comes before one that goes on.
pub proof fn lemma_precedes_by_first(a: Text, b: Text)
    ensures
        b.len() == 0 ==> !precedes(a, b),
        a.len() == 0 && b.len() > 0 ==> precedes(a, b),
        a.len() > 0 && b.len() > 0 && a[0] < b[0] ==> precedes(a, b),
        a.len() > 0 && b.len() > 0 && b[0] < a[0] ==> !precedes(a, b),
        a.len() > 0 && b.len() > 0 && a[0] == b[0] ==> precedes(a, b) == precedes(
            a.drop_first(),
            b.drop_first(),
        ),
{
    if b.len() > 0 {
        if a.len() == 0 || a[0] < b[0] {
            assert(parts_below(a, b, 0));
        } else if a[0] == b[0] {
            let rest_a = a.drop_first();
            let rest_b = b.drop_first();
            if precedes(a, b) {
                let at = choose|at: int| parts_below(a, b, at);
                assert(at > 0);
                assert forall|i: int| 0 <= i < at - 1 implies rest_a[i] == rest_b[i] by {
                    assert(a[i + 1] == b[i + 1]);
                }
                assert(parts_below(rest_a, rest_b, at - 1));
            }
            if precedes(rest_a, rest_b) {
                let at = choose|at: int| parts_below(rest_a, rest_b, at);
                assert forall|i: int| 0 <= i < at + 1 implies a[i] == b[i] by {
                    if i > 0 {
                        assert(rest_a[i - 1] == rest_b[i - 1]);
                    }
                }
                assert(parts_below(a, b, at + 1));
            }
        } else if precedes(a, b) {
            let at = choose|at: int| parts_below(a, b, at);
            assert(at == 0 || a[0] == b[0]);
        }
    }
}

/// Rows of packages that need an update come before the others; else the names decide.
pub proof fn lemma_row_order(a: RowView, b: RowView)
    ensures
        a.needs_update && !b.needs_update ==> row_before(a, b) && !row_before(b, a),
        a.needs_update == b.needs_update ==> row_before(a, b) == precedes(a.name, b.name),
{
}

/// In an ordered table no package that needs no update stands above one that does, and among
/// packages that are alike in this no name stands above one that precedes it.
pub proof fn lemma_ordered_table(rows: Seq<RowView>, i: int, j: int)
    requires
        ordered(rows),
        0 <= i < j < rows.len(),
    ensures
        rows[j].needs_update ==> rows[i].needs_update,
        rows[i].needs_update == rows[j].needs_update ==> !precedes(rows[j].name, rows[i].name),
{
    assert(!row_before(rows[j], rows[i]));
}

/// Registries are ordered by the addresses of their indices, and by their names where these are
/// the same.
pub proof fn lemma_registry_order(a: RegistryView, b: RegistryView)
    ensures
        precedes(a.url, b.url) ==> comes_before(a, b) && !comes_before(b, a),
        a.url == b.url ==> comes_before(a, b) == precedes(a.name, b.name),
{
    lemma_precedes_trichotomy(a.url, b.url);
}

/// The number that decimal digits stand for.
pub open spec fn value(digits: Text) -> int
    decreases digits.len(),
{
    if digits.len() == 0 {
        0
    } else {
        value(digits.drop_last()) * 10 + (digits.last() as int - '0' as int)
    }
}

/// A number is written in decimal digits that stand for it, without needless zeros in front.
pub proof fn lemma_decimal(n: nat)
    ensures
        value(decimal(n)) == n,
        decimal(n).len() > 0,
        forall|i: int| 0 <= i < decimal(n).len() ==> '0' <= #[trigger] decimal(n)[i] <= '9',
        n > 0 ==> decimal(n)[0] != '0',
    decreases n,
{
    reveal_with_fuel(value, 2);
    if n < 10 {
        assert(decimal(n).drop_last() =~= Seq::empty());
    } else {
        lemma_decimal(n / 10);
        assert(decimal(n).drop_last() =~= decimal(n / 10));
    }
}

/// Names are joined with a comma and a space between them.
pub proof fn lemma_joined(names: Seq<Text>, more: Text)
    ensures
        joined(Seq::empty()) == Seq::<char>::empty(),
        names.len() == 0 ==> joined(names.push(more)) == more,
        names.len() > 0 ==> joined(names.push(more)) == joined(names) + ", "@ + more,
{
    assert(names.push(more).drop_last() =~= names);
}

/// What is said of the packages of a kind that were updated and of those that were not, and of
/// all of them at the end.
pub proof fn lemma_reports(kind: Text, names: Seq<Text>)
    ensures
        names.len() == 1 ==> updated_report(kind, names.len()) == "\nUpdated "@ + decimal(1) + " "@
            + kind + ".\n"@,
        names.len() != 1 ==> updated_report(kind, names.len()) == "\nUpdated "@ + decimal(
            names.len(),
        ) + " "@ + kind + "s"@ + ".\n"@,
        failed_report(names) == "Failed to update "@ + joined(names) + ".\n\n"@,
        names.len() == 0 ==> {
            &&& overall_updated(names) == "Overall updated "@ + (decimal(0) + " package"@ + "s"@
                + joined(names) + ".\n"@)
            &&& overall_failed(names) == "Overall failed to update "@ + (decimal(0) + " package"@
                + "s"@ + joined(names) + ".\n"@)
        },
        names.len() == 1 ==> {
            &&& overall_updated(names) == "Overall updated "@ + (decimal(1) + " package"@ + ": "@
                + names[0] + ".\n"@)
            &&& overall_failed(names) == "Overall failed to update "@ + (decimal(1) + " package"@
                + ": "@ + names[0] + ".\n"@)
        },
        names.len() > 1 ==> {
            &&& overall_updated(names) == "Overall updated "@ + (decimal(names.len())
                + " package"@ + "s: "@ + joined(names) + ".\n"@)
            &&& overall_failed(names) == "Overall failed to update "@ + (decimal(names.len())
                + " package"@ + "s: "@ + joined(names) + ".\n"@)
        },
{
    reveal_strlit("");
    let front = "\nUpdated "@ + decimal(names.len()) + " "@ + kind;
    assert(front + ""@ =~= front);
}

/// An install that ended well adds to what was updated and to nothing else. One that did not
/// adds to what failed, and gives the exit code if none failed before: its own or, where it has
/// none, minus one.
pub proof fn lemma_taken_down(tally: TallyView, name: Text, outcome: Outcome)
    ensures
        ({
            let after = tally.with(name, outcome);
            &&& outcome.success ==> after.updated == tally.updated.push(name) && after.failed
                == tally.failed && after.code == tally.code
            &&& !outcome.success ==> after.updated == tally.updated && after.failed
                == tally.failed.push(name)
            &&& !outcome.success && tally.code is Some ==> after.code == tally.code
            &&& !outcome.success && tally.code is None && outcome.code is Some ==> after.code
                == outcome.code
            &&& !outcome.success && tally.code is None && outcome.code is None ==> after.code
                == Some(-1i32)
        }),
{
}

/// A run accepts the answer to the request that it made, and nothing else: where the request
/// concerns a registry, also that it could not be met; and that a git package has no newest
/// commit only where no table is shown.
pub proof fn lemma_answer_accepted(turn: Turn, event: EventView)
    requires
        obeys(turn.plan.options, turn),
    ensures
        turn.request is ResolveRegistry ==> fits(turn.plan, event) == (event is Resolved
            || event is Failed),
        turn.request is LocateIndex ==> fits(turn.plan, event) == (event is Located
            || event is Failed),
        turn.request is OpenIndex || turn.request is RefreshIndex || turn.request is ReadRevision
            ==> fits(turn.plan, event) == (event is Succeeded || event is Failed),
        turn.request is PullVersions ==> fits(turn.plan, event) == event is Pulled,
        turn.request is PullCommits ==> fits(turn.plan, event) == (event is PulledCommits && (
        turn.plan.options.quiet || event->commits.newest is Some)),
        turn.request is RunCargo ==> fits(turn.plan, event) == event is Ran,
        turn.request is Exit ==> !fits(turn.plan, event),
{
}

/// What is said before an install names the package, and tells an update from a first install.
pub proof fn lemma_announced(candidate: CandidateView, git: GitCandidateView)
    ensures
        candidate.versions.installed is Some ==> announcement(candidate) == "Updating "@
            + candidate.name + "\n"@,
        candidate.versions.installed is None ==> announcement(candidate) == "Installing "@
            + candidate.name + "\n"@,
        git_announcement(git) == "Updating "@ + git.name + " from "@ + git.commits.url + "\n"@,
{
}

/// A request that could not be met ends the program with exit code two, after a complaint that
/// says what could not be done and, where the registry told, why.
#[verifier::rlimit(40)]
#[verifier::spinoff_prover]
pub proof fn lemma_request_failed(plan: Plan, reason: Text)
    ensures
        ({
            let turn = next(plan, EventView::Failed { reason: reason });
            let at = plan.cursor as int;
            let says = |text: Text| turn.effects == seq![EffectView::Complain { text: text }];
            &&& turn.request == (RequestView::Exit { code: 2 })
            &&& turn.plan.stage is Done
            &&& plan.stage is Resolve ==> says(
                "Couldn't get registry for "@ + plan.packages[at].name + ": "@ + reason + ".\n"@,
            )
            &&& plan.stage is Locate ==> says(
                "Couldn't get package repository: "@ + reason + ".\n"@,
            )
            &&& plan.stage is Open ==> says(
                "Failed to open registry repository at "@ + plan.paths[at] + ".\n"@,
            )
            &&& plan.stage is Refresh ==> says(
                "Failed to update index repository: "@ + reason + ".\n"@,
            )
            &&& plan.stage is Read ==> says(
                "Failed to read master branch of registry repository at "@ + plan.paths[at]
                    + ".\n"@,
            )
        }),
{
    let said = complained(complaint(plan, reason));
    assert(said + Seq::empty() =~= said);
}

/// The versions of a package are asked for by its handle, in the index of the first registry that
/// has a package of its name. Whether prereleases count is what its settings say, whatever else
/// they hold, and is left open where they do not say or there are none.
pub proof fn lemma_pull_request(plan: Plan, at: nat)
    requires
        at < plan.packages.len(),
        group_of(plan.groups, plan.packages[at as int].name) is Some,
    ensures
        ({
            let package = plan.packages[at as int];
            let request = pull_at(plan, at).request;
            let group = request->PullVersions_group as int;
            &&& request is PullVersions
            &&& request->PullVersions_package == package.handle
            &&& 0 <= group < plan.groups.len()
            &&& plan.groups[group].packages.contains(package.name)
            &&& forall|i: int|
                0 <= i < group ==> !(#[trigger] plan.groups[i]).packages.contains(package.name)
            &&& plan.config.contains_key(package.name) ==> request->install_prereleases
                == plan.config[package.name].install_prereleases
            &&& !plan.config.contains_key(package.name) ==> request->install_prereleases is None
        }),
{
    let name = plan.packages[at as int].name;
    lemma_group_of(plan.groups, name);
    let group = group_of(plan.groups, name)->0 as int;
    assert forall|i: int| 0 <= i < group implies !(#[trigger] plan.groups[i]).packages.contains(
        name,
    ) by {
        assert(!holds_at(plan.groups, name, i));
    }
}

/// A run that goes on has heard of no request that could not be met.
proof fn lemma_goes_on(plan: Plan, events: Seq<EventView>)
    requires
        plan == fresh(plan.options, plan.config, plan.packages, plan.git_packages),
        answers(begin(plan), events),
        !(course(begin(plan), events).request is Exit),
    ensures
        !gave_up(events),
        started(plan) == begin(plan),
{
    assert(started(plan) == begin(plan)) by {
        reveal(started);
    }
    if gave_up(events) {
        lemma_gave_up(started(plan), events);
        lemma_started(plan, events);
    }
}

/// In the course of a run the versions of the packages are asked for one by one, each with what
/// the settings of the package say of prereleases.
pub proof fn lemma_versions_asked(plan: Plan, events: Seq<EventView>)
    requires
        plan == fresh(plan.options, plan.config, plan.packages, plan.git_packages),
        answers(begin(plan), events),
        course(begin(plan), events).request is PullVersions,
    ensures
        versions_told(events).len() < plan.packages.len(),
        ({
            let package = plan.packages[versions_told(events).len() as int];
            let request = course(begin(plan), events).request;
            &&& request->PullVersions_package == package.handle
            &&& plan.config.contains_key(package.name) ==> request->install_prereleases
                == plan.config[package.name].install_prereleases
            &&& !plan.config.contains_key(package.name) ==> request->install_prereleases is None
        }),
{
    lemma_goes_on(plan, events);
    lemma_started(plan, events);
    lemma_as_told(plan, events);
    let now = course(begin(plan), events).plan;
    lemma_pull_request(now, now.cursor);
}

/// In the course of a run the commits of the git packages are asked for one by one, and only
/// where git packages are to be updated.
pub proof fn lemma_commits_asked(plan: Plan, events: Seq<EventView>)
    requires
        plan == fresh(plan.options, plan.config, plan.packages, plan.git_packages),
        answers(begin(plan), events),
        course(begin(plan), events).request is PullCommits,
    ensures
        plan.options.update_git,
        ({
            let packages = selected_git(plan.options, plan.config, plan.git_packages);
            let at = commits_told(events).len();
            &&& at < packages.len()
            &&& course(begin(plan), events).request->PullCommits_package
                == packages[at as int].handle
        }),
{
    lemma_goes_on(plan, events);
    lemma_started(plan, events);
    lemma_as_told(plan, events);
}

/// In the course of a run the packages to install are installed one by one: those of the
/// registries, each from the registry that the first group with a package of its name belongs
/// to, and then those from git.
pub proof fn lemma_installs_run(plan: Plan, events: Seq<EventView>)
    requires
        plan == fresh(plan.options, plan.config, plan.packages, plan.git_packages),
        answers(begin(plan), events),
        course(begin(plan), events).request is RunCargo,
    ensures
        ({
            let now = course(begin(plan), events).plan;
            let args = course(begin(plan), events).request->args;
            let first = wanted(plan, versions_told(events));
            let second = wanted_git(plan, commits_told(events));
            let at = attempted(begin(plan), events).len() as int;
            &&& at < first.len() + second.len()
            &&& at < first.len() ==> exists|group: int|
                {
                    &&& #[trigger] holds_at(now.groups, first[at].name, group)
                    &&& forall|i: int|
                        0 <= i < group ==> !(#[trigger] now.groups[i]).packages.contains(
                            first[at].name,
                        )
                    &&& args == registry_args(
                        plan.options,
                        plan.config,
                        now.groups[group].registry.name,
                        first[at],
                    )
                }
            &&& at >= first.len() ==> args == git_args(
                plan.options,
                plan.config,
                second[at - first.len()],
            )
        }),
{
    lemma_goes_on(plan, events);
    lemma_started(plan, events);
    lemma_as_told(plan, events);
    let now = course(begin(plan), events).plan;
    let first = wanted(plan, versions_told(events));
    if now.stage is Install {
        let name = first[now.cursor as int].name;
        lemma_group_of(now.groups, name);
        let group = group_of(now.groups, name)->0 as int;
        assert(holds_at(now.groups, name, group));
        assert forall|i: int| 0 <= i < group implies !(
        #[trigger] now.groups[i]).packages.contains(name) by {
            assert(!holds_at(now.groups, name, i));
        }
    }
}

/// Before this program is updated on Windows it is renamed, and an empty file takes its place;
/// elsewhere nothing is done.
pub proof fn lemma_save_steps(version: Text, extension: Text)
    ensures
        save_steps(false, version).len() == 0,
        save_steps(true, version) == saving("exe-v"@ + version),
        saving(extension).len() == 2,
        saving(extension)[0] == (FileStepView::Rename {
            from: ExecFileView::Current,
            to: ExecFileView::Saved { extension: extension },
        }),
        saving(extension)[1] == (FileStepView::Create { file: ExecFileView::Current }),
{
}

/// Where an update of this program failed on Windows, what took its place is removed, and it
/// gets its name back; elsewhere nothing is done.
pub proof fn lemma_restore_steps(version: Text, extension: Text)
    ensures
        restore_steps(false, version).len() == 0,
        restore_steps(true, version) == restoring("exe-v"@ + version),
        restoring(extension).len() == 2,
        restoring(extension)[0] == (FileStepView::Remove { file: ExecFileView::Current }),
        restoring(extension)[1] == (FileStepView::Rename {
            from: ExecFileView::Saved { extension: extension },
            to: ExecFileView::Current,
        }),
{
}

/// A file is a stale executable exactly where its name holds, at any place, the name of a kept
/// executable and after it at least one character, the first of which is no line feed.
pub proof fn lemma_stale(ahead: Text, version: Text, name: Text)
    ensures
        version.len() > 0 && version[0] != '\n' ==> is_stale(
            ahead + "cargo-install-update.exe-v"@ + version,
        ),
        is_stale(name) ==> exists|front: Text, rest: Text|
            #![trigger front + "cargo-install-update.exe-v"@ + rest]
            name == front + "cargo-install-update.exe-v"@ + rest && rest.len() > 0 && rest[0]
                != '\n',
{
    let kept = "cargo-install-update.exe-v"@;
    let whole = ahead + kept + version;
    if version.len() > 0 && version[0] != '\n' {
        let at = ahead.len() as int;
        assert(whole.subrange(at, at + kept.len()) =~= kept);
        assert(whole[at + kept.len()] == version[0]);
        assert(stale_at(whole, at));
    }
    if is_stale(name) {
        let at = choose|at: int| stale_at(name, at);
        let front = name.take(at);
        let rest = name.skip(at + kept.len());
        assert(name =~= front + kept + rest) by {
            assert forall|i: int| at <= i < at + kept.len() implies name[i] == kept[i - at] by {
                assert(name.subrange(at, at + kept.len())[i - at] == name[i]);
            }
        }
        assert(rest[0] == name[at + kept.len()]);
    }
}

/// A list of texts is seen as the texts in it, in order.
pub open spec fn seen(texts: Seq<String>, views: Seq<Text>) -> bool {
    &&& texts.len() == views.len()
    &&& forall|i: int| 0 <= i < texts.len() ==> #[trigger] views[i] == texts[i]@
}

/// A text that may be missing is seen as the text, if it is there.
pub open spec fn maybe_seen(text: Option<String>, view: Option<Text>) -> bool {
    &&& text is Some <==> view is Some
    &&& text is Some ==> view->0 == text->0@
}

/// What contracts say of options they say of each of them.
pub proof fn lemma_options_seen(options: Options)
    ensures
        seen(options.to_update@, options@.to_update),
        options@.all == options.all,
        options@.update == options.update,
        options@.install == options.install,
        options@.force == options.force,
        options@.quiet == options.quiet,
        options@.update_git == options.update_git,
        options@.filtered == options.filtered,
        options@.pass_through == options.pass_through,
        options@.windows == options.windows,
{
}

/// What contracts say of settings they say of each of them.
pub proof fn lemma_settings_seen(settings: Settings)
    ensures
        maybe_seen(settings.target_version, settings@.target_version),
        settings@.install_prereleases == settings.install_prereleases,
        seen(settings.cargo_args@, settings@.cargo_args),
        settings@.filter_matches == settings.filter_matches@,
{
}

/// What contracts say of packages, before and after their versions are known, they say of each
/// part of them.
pub proof fn lemma_packages_seen(package: Package, candidate: Candidate, git: GitCandidate)
    ensures
        package@.handle == package.handle,
        package@.name == package.name@,
        candidate@.name == candidate.name@,
        maybe_seen(candidate.versions.installed, candidate@.versions.installed),
        maybe_seen(candidate.versions.update_to, candidate@.versions.update_to),
        maybe_seen(candidate.versions.alternative, candidate@.versions.alternative),
        candidate@.versions.needs_update == candidate.versions.needs_update,
        git@.name == git.name@,
        git@.commits.url == git.commits.url@,
        maybe_seen(git.commits.branch, git@.commits.branch),
        git@.commits.id == git.commits.id@,
        maybe_seen(git.commits.newest, git@.commits.newest),
        git@.commits.needs_update == git.commits.needs_update,
{
}

/// What contracts say of registries, rows and tallies they say of each part of them.
pub proof fn lemma_parts_seen(group: RegistryGroup, row: Row, tally: Tally)
    ensures
        group@.registry.url == group.registry.url@,
        group@.registry.name == group.registry.name@,
        seen(group.packages@, group@.packages),
        row@.needs_update == row.needs_update,
        row@.name == row.name@,
        row@.installed == row.installed@,
        row@.latest == row.latest@,
        seen(tally.updated@, tally@.updated),
        seen(tally.failed@, tally@.failed),
        tally@.code == tally.code,
{
}

/// What contracts say of requests they say of each kind of them.
pub proof fn lemma_request_seen(request: Request)
    ensures
        request matches Request::ResolveRegistry { package } ==> request@ == (
        RequestView::ResolveRegistry { package: package }),
        request matches Request::LocateIndex { url } ==> request@ == (RequestView::LocateIndex {
            url: url@,
        }),
        request matches Request::OpenIndex { group } ==> request@ == (RequestView::OpenIndex {
            group: group as nat,
        }),
        request matches Request::RefreshIndex { group, url, show } ==> request@ == (
        RequestView::RefreshIndex { group: group as nat, url: url@, show: show }),
        request matches Request::ReadRevision { group, revision } ==> request@ == (
        RequestView::ReadRevision { group: group as nat, revision: revision@ }),
        request matches Request::PullVersions { package, group, install_prereleases } ==> request@
            == (RequestView::PullVersions {
            package: package,
            group: group as nat,
            install_prereleases: install_prereleases,
        }),
        request matches Request::PullCommits { package } ==> request@ == (
        RequestView::PullCommits { package: package }),
        request matches Request::RunCargo { args } ==> {
            &&& request@ is RunCargo
            &&& request@->args.len() == args@.len()
            &&& forall|i: int| 0 <= i < args@.len() ==> #[trigger] request@->args[i] == args@[i]@
        },
        request matches Request::Exit { code } ==> request@ == (RequestView::Exit { code: code }),
{
}

/// What contracts say of arguments and of effects they say of each kind of them.
pub proof fn lemma_effects_seen(arg: CargoArg, effect: Effect, step: FileStep, file: ExecFile)
    ensures
        arg matches CargoArg::Text { text } ==> arg@ == word(text@),
        arg matches CargoArg::PassThrough { index } ==> arg@ == (CargoArgView::PassThrough {
            index: index as nat,
        }),
        effect matches Effect::Print { text } ==> effect@ == (EffectView::Print { text: text@ }),
        effect matches Effect::Complain { text } ==> effect@ == (EffectView::Complain {
            text: text@,
        }),
        effect matches Effect::File { step } ==> effect@ == (EffectView::File { step: step@ }),
        step matches FileStep::Rename { from, to } ==> step@ == (FileStepView::Rename {
            from: from@,
            to: to@,
        }),
        step matches FileStep::Create { file } ==> step@ == (FileStepView::Create { file: file@ }),
        step matches FileStep::Remove { file } ==> step@ == (FileStepView::Remove { file: file@ }),
        file is Current ==> file@ is Current,
        file matches ExecFile::Saved { extension } ==> file@ == (ExecFileView::Saved {
            extension: extension@,
        }),
{
}

/// What contracts say of events they say of each kind of them.
pub proof fn lemma_event_seen(event: Event)
    ensures
        event matches Event::Resolved { registry } ==> event@ == (EventView::Resolved {
            registry: registry@,
        }),
        event matches Event::Located { path } ==> event@ == (EventView::Located { path: path@ }),
        event is Succeeded ==> event@ is Succeeded,
        event matches Event::Failed { reason } ==> event@ == (EventView::Failed {
            reason: reason@,
        }),
        event matches Event::Pulled { versions } ==> event@ == (EventView::Pulled {
            versions: versions@,
        }),
        event matches Event::PulledCommits { commits } ==> event@ == (EventView::PulledCommits {
            commits: commits@,
        }),
        event matches Event::Ran { outcome } ==> event@ == (EventView::Ran { outcome: outcome }),
{
}

/// A run begins with what it is given, and with nothing found out or installed.
pub proof fn lemma_fresh(
    options: OptionsView,
    config: Map<Text, SettingsView>,
    packages: Seq<PackageView>,
    git_packages: Seq<PackageView>,
)
    ensures
        ({
            let plan = fresh(options, config, packages, git_packages);
            &&& plan.options == options
            &&& plan.config == config
            &&& plan.packages == packages
            &&& plan.git_packages == git_packages
            &&& plan.groups.len() == 0
            &&& plan.paths.len() == 0
            &&& plan.candidates.len() == 0
            &&& plan.git_candidates.len() == 0
            &&& plan.tally == plan.overall
            &&& plan.overall.updated.len() == 0
            &&& plan.overall.failed.len() == 0
            &&& plan.overall.code is None
        }),
{
}

/// What contracts say of a turn they say of the effects and the request that are handed out.
pub proof fn lemma_turn_seen(plan: Plan, effects: Seq<Effect>, request: Request)
    ensures
        turn(plan, effects, request).plan == plan,
        turn(plan, effects, request).effects.len() == effects.len(),
        forall|i: int|
            0 <= i < effects.len() ==> #[trigger] turn(plan, effects, request).effects[i]
                == effects[i]@,
        turn(plan, effects, request).request == request@,
{
}

} // verus!
