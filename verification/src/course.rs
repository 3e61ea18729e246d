//! What holds in the course of every run.

use vstd::prelude::*;
use crate::executable::FileStepView;
use crate::options::OptionsView;
use crate::package::{CandidateView, CommitsView, GitCandidateView, PackageView, VersionsView};
use crate::plan::{announcement, begin, begin_git, changed, complained, exit, finish};
use crate::plan::{fits, fresh, git_announcement, git_jobs, git_restore_after, git_save_before};
use crate::plan::{install_at, install_git_at, installed, installed_git, is_due};
use crate::plan::{is_offered, jobs, listed, listed_git, locate_at, next, open_at, printed};
use crate::plan::{pull_at, pull_git_at, pulled, pulled_git, ran, read_at, refresh_at, resolve_at};
use crate::plan::{ran_git, resolved, restore_after, save_before, upgrade, upgrade_git};
use crate::plan::{Plan, Stage, Turn};
use crate::registry::{group_of, in_order, lemma_group_of, lemma_with_package_found};
use crate::registry::{lemma_with_package_in_order, with_package, GroupView, RegistryView};
use crate::select::selected_git;
use crate::step::{EffectView, EventView, RequestView};
use crate::table::{all_newest_known, candidate_rows, git_rows, lazy_sorted, tab_aligned, table};
use crate::tally::{first_failure, lemma_tally_of};
use crate::tally::{failed_report, overall_failed, overall_updated, tally_of, updated_report};
use crate::tally::{Outcome, TallyView};
use crate::text::Text;
use crate::views::lemma_filter_origin;

verus! {

/// The first `count` packages are each found in a group.
pub open spec fn all_found(groups: Seq<GroupView>, packages: Seq<PackageView>, count: nat) -> bool {
    forall|i: int|
        0 <= i < count && i < packages.len() ==> group_of(
            groups,
            (#[trigger] packages[i]).name,
        ) is Some
}

/// Each candidate is found in a group.
pub open spec fn candidates_found(groups: Seq<GroupView>, candidates: Seq<CandidateView>) -> bool {
    forall|i: int|
        0 <= i < candidates.len() ==> group_of(groups, (#[trigger] candidates[i]).name) is Some
}

/// There is a version to install of each candidate.
pub open spec fn all_offered(candidates: Seq<CandidateView>) -> bool {
    forall|i: int|
        0 <= i < candidates.len() ==> (#[trigger] candidates[i]).versions.update_to is Some
}

/// Nothing was installed yet.
pub open spec fn nothing_tried(plan: Plan) -> bool {
    plan.tally == TallyView::empty() && plan.overall == TallyView::empty()
}

/// What holds at every stage: registries are in order, there is an exit code exactly where
/// something failed, and where updates are only listed nothing was installed.
pub open spec fn sound(plan: Plan) -> bool {
    &&& in_order(plan.groups)
    &&& plan.tally.consistent()
    &&& plan.overall.consistent()
    &&& !plan.options.update ==> nothing_tried(plan)
}

/// The state of a run, between two turns.
pub open spec fn well_formed(plan: Plan) -> bool {
    &&& sound(plan)
    &&& match plan.stage {
        Stage::Resolve => {
            &&& plan.cursor < plan.packages.len()
            &&& all_found(plan.groups, plan.packages, plan.cursor)
            &&& plan.paths.len() == 0
            &&& nothing_tried(plan)
        },
        Stage::Locate => {
            &&& plan.cursor < plan.groups.len()
            &&& plan.packages.len() > 0
            &&& all_found(plan.groups, plan.packages, plan.packages.len())
            &&& plan.paths.len() == plan.cursor
            &&& nothing_tried(plan)
        },
        Stage::Open | Stage::Refresh | Stage::Read => {
            &&& plan.cursor < plan.groups.len()
            &&& plan.packages.len() > 0
            &&& all_found(plan.groups, plan.packages, plan.packages.len())
            &&& plan.paths.len() == plan.groups.len()
            &&& nothing_tried(plan)
        },
        Stage::Pull => {
            &&& plan.cursor < plan.packages.len()
            &&& all_found(plan.groups, plan.packages, plan.packages.len())
            &&& plan.candidates.len() == plan.cursor
            &&& candidates_found(plan.groups, plan.candidates)
            &&& nothing_tried(plan)
        },
        Stage::Install => {
            &&& plan.options.update
            &&& plan.cursor < plan.candidates.len()
            &&& candidates_found(plan.groups, plan.candidates)
            &&& all_offered(plan.candidates)
            &&& plan.tally.updated.len() + plan.tally.failed.len() == plan.cursor
            &&& plan.overall == TallyView::empty()
        },
        Stage::PullGit => {
            &&& plan.options.update_git
            &&& plan.cursor < plan.git_packages.len()
            &&& plan.git_candidates.len() == plan.cursor
            &&& plan.options.quiet || all_newest_known(plan.git_candidates)
        },
        Stage::InstallGit => {
            &&& plan.options.update
            &&& plan.options.update_git
            &&& plan.cursor < plan.git_candidates.len()
            &&& plan.tally.updated.len() + plan.tally.failed.len() == plan.cursor
        },
        Stage::Done => true,
    }
}

/// What is installed of the registry packages was found in a group and is offered.
pub proof fn lemma_jobs(plan: Plan)
    requires
        candidates_found(plan.groups, plan.candidates),
    ensures
        candidates_found(plan.groups, jobs(plan.options, plan.candidates)),
        all_offered(jobs(plan.options, plan.candidates)),
{
    let due = if plan.options.force {
        plan.candidates
    } else {
        plan.candidates.filter(is_due())
    };
    let chosen = due.filter(is_offered());
    assert forall|i: int| 0 <= i < chosen.len() implies group_of(
        plan.groups,
        (#[trigger] chosen[i]).name,
    ) is Some && chosen[i].versions.update_to is Some by {
        lemma_filter_origin(due, is_offered(), i);
        let j = choose|j: int| 0 <= j < due.len() && due[j] == chosen[i];
        if !plan.options.force {
            lemma_filter_origin(plan.candidates, is_due(), j);
        }
        let k = choose|k: int| 0 <= k < plan.candidates.len() && plan.candidates[k] == due[j];
        assert(plan.candidates[k].name == chosen[i].name);
    }
}

/// The end of a run keeps the state well formed.
proof fn lemma_finish_well_formed(plan: Plan)
    requires
        sound(plan),
    ensures
        well_formed(finish(plan).plan),
{
}

/// Choosing the git packages to install keeps the state well formed.
proof fn lemma_upgrade_git_well_formed(plan: Plan)
    requires
        sound(plan),
        plan.options.update_git,
    ensures
        well_formed(listed_git(plan).plan),
{
    lemma_finish_well_formed(plan);
    let due = git_jobs(plan.options, plan.git_candidates);
    lemma_finish_well_formed(Plan { git_candidates: due, ..plan });
}

/// Going on with git packages keeps the state well formed.
proof fn lemma_begin_git_well_formed(plan: Plan)
    requires
        sound(plan),
    ensures
        well_formed(begin_git(plan).plan),
{
    if plan.options.update_git {
        let chosen = selected_git(plan.options, plan.config, plan.git_packages);
        let begun = Plan { git_packages: chosen, git_candidates: Seq::empty(), ..plan };
        lemma_upgrade_git_well_formed(begun);
    } else {
        lemma_finish_well_formed(plan);
    }
}

/// Showing the versions, and what follows, keeps the state well formed.
proof fn lemma_listed_well_formed(plan: Plan)
    requires
        sound(plan),
        candidates_found(plan.groups, plan.candidates),
        nothing_tried(plan),
    ensures
        well_formed(listed(plan).plan),
{
    lemma_jobs(plan);
    lemma_begin_git_well_formed(plan);
    let due = jobs(plan.options, plan.candidates);
    lemma_begin_git_well_formed(Plan { candidates: due, ..plan });
}

/// The first turn leaves a run in good order.
pub proof fn lemma_begin_well_formed(plan: Plan)
    requires
        plan == fresh(plan.options, plan.config, plan.packages, plan.git_packages),
    ensures
        well_formed(begin(plan).plan),
{
    if plan.packages.len() == 0 {
        lemma_listed_well_formed(plan);
    }
}

/// A known registry keeps the state well formed.
proof fn lemma_resolved_well_formed(plan: Plan, registry: RegistryView)
    requires
        well_formed(plan),
        plan.stage is Resolve,
    ensures
        well_formed(resolved(plan, registry).plan),
{
    let name = plan.packages[plan.cursor as int].name;
    let groups = with_package(plan.groups, registry, name);
    lemma_with_package_in_order(plan.groups, registry, name);
    assert forall|i: int| 0 <= i < plan.cursor + 1 && i < plan.packages.len() implies group_of(
        groups,
        (#[trigger] plan.packages[i]).name,
    ) is Some by {
        lemma_with_package_found(plan.groups, registry, name, plan.packages[i].name);
    }
    lemma_group_of(groups, name);
    lemma_with_package_found(plan.groups, registry, name, name);
}

/// Known versions keep the state well formed.
proof fn lemma_pulled_well_formed(plan: Plan, versions: VersionsView)
    requires
        well_formed(plan),
        plan.stage is Pull,
    ensures
        well_formed(pulled(plan, versions).plan),
{
    let name = plan.packages[plan.cursor as int].name;
    let candidate = CandidateView { name: name, versions: versions };
    let further = Plan { candidates: plan.candidates.push(candidate), ..plan };
    assert(candidates_found(further.groups, further.candidates));
    lemma_listed_well_formed(further);
}

/// Known commits keep the state well formed.
proof fn lemma_pulled_git_well_formed(plan: Plan, commits: CommitsView)
    requires
        well_formed(plan),
        plan.stage is PullGit,
        plan.options.quiet || commits.newest is Some,
    ensures
        well_formed(pulled_git(plan, commits).plan),
{
    let name = plan.git_packages[plan.cursor as int].name;
    let candidate = GitCandidateView { name: name, commits: commits };
    let further = Plan { git_candidates: plan.git_candidates.push(candidate), ..plan };
    lemma_upgrade_git_well_formed(further);
}

/// The end of an install keeps the state well formed.
proof fn lemma_ran_well_formed(plan: Plan, outcome: Outcome)
    requires
        well_formed(plan),
        plan.stage is Install,
    ensures
        well_formed(ran(plan, outcome).plan),
{
    let candidate = plan.candidates[plan.cursor as int];
    let further = Plan { tally: plan.tally.with(candidate.name, outcome), ..plan };
    lemma_begin_git_well_formed(Plan { overall: further.tally, ..further });
}

/// The end of the install of a git package keeps the state well formed.
proof fn lemma_ran_git_well_formed(plan: Plan, outcome: Outcome)
    requires
        well_formed(plan),
        plan.stage is InstallGit,
    ensures
        well_formed(ran_git(plan, outcome).plan),
{
    let candidate = plan.git_candidates[plan.cursor as int];
    let further = Plan { tally: plan.tally.with(candidate.name, outcome), ..plan };
    let ended = Plan { overall: further.overall.followed_by(further.tally), ..further };
    assert(ended.overall.consistent());
    lemma_finish_well_formed(ended);
}

/// Every turn that answers what the run waits for leaves it in good order: what it waits for
/// next exists, every package is found in a registry when its versions are asked for and when
/// it is installed, and something to install is at hand.
#[verifier::rlimit(40)]
pub proof fn lemma_next_well_formed(plan: Plan, event: EventView)
    requires
        well_formed(plan),
        fits(plan, event),
    ensures
        well_formed(next(plan, event).plan),
{
    match event {
        EventView::Resolved { registry } => {
            lemma_resolved_well_formed(plan, registry);
        },
        EventView::Pulled { versions } => {
            lemma_pulled_well_formed(plan, versions);
        },
        EventView::PulledCommits { commits } => {
            lemma_pulled_git_well_formed(plan, commits);
        },
        EventView::Ran { outcome } => {
            if plan.stage is Install {
                lemma_ran_well_formed(plan, outcome);
            } else {
                lemma_ran_git_well_formed(plan, outcome);
            }
        },
        _ => {},
    }
}

/// An effect that the options allow: nothing is printed where the user asked for quiet, and no
/// file is changed where updates are only listed.
pub open spec fn allowed(options: OptionsView, effect: EffectView) -> bool {
    &&& options.quiet ==> !(effect is Print)
    &&& !options.update ==> !(effect is File)
}

/// The options allow all the effects.
pub open spec fn all_allowed(options: OptionsView, effects: Seq<EffectView>) -> bool {
    forall|i: int| 0 <= i < effects.len() ==> allowed(options, #[trigger] effects[i])
}

/// The exit code of a run that used its registries: that of the first failed install, or zero.
pub open spec fn exit_code(tally: TallyView) -> i32 {
    match tally.code {
        Some(code) => code,
        None => 0,
    }
}

/// The request that a run makes at a state in which it waits for something.
pub open spec fn request_of(plan: Plan) -> RequestView
    recommends
        !(plan.stage is Done),
{
    match plan.stage {
        Stage::Resolve => resolve_at(plan, plan.cursor).request,
        Stage::Locate => locate_at(plan, plan.cursor).request,
        Stage::Open => open_at(plan, plan.cursor).request,
        Stage::Refresh => refresh_at(plan, plan.cursor).request,
        Stage::Read => read_at(plan, plan.cursor).request,
        Stage::Pull => pull_at(plan, plan.cursor).request,
        Stage::Install => install_at(plan, plan.cursor).request,
        Stage::PullGit => pull_git_at(plan, plan.cursor).request,
        _ => install_git_at(plan, plan.cursor).request,
    }
}

/// A turn that keeps to the options: it leaves them as they are, and has no effect and makes no
/// request that they do not allow. It asks for the end of the program where the run is over,
/// and else for what the run waits for.
pub open spec fn obeys(options: OptionsView, turn: Turn) -> bool {
    &&& turn.plan.options == options
    &&& all_allowed(options, turn.effects)
    &&& !options.update ==> !(turn.request is RunCargo)
    &&& !options.update_git ==> !(turn.request is PullCommits)
    &&& turn.plan.stage is Done <==> turn.request is Exit
    &&& turn.plan.stage is Done || turn.request == request_of(turn.plan)
}

/// Where the turn ends the program, it does so with the exit code of the installs.
spec fn exits_as_tallied(turn: Turn) -> bool {
    turn.request is Exit ==> turn.request->code == exit_code(turn.plan.overall)
}

/// More effects that the options allow do no harm.
proof fn lemma_obeys_after(options: OptionsView, turn: Turn, effects: Seq<EffectView>)
    requires
        obeys(options, turn),
        all_allowed(options, effects),
    ensures
        obeys(options, turn.after(effects)),
{
    let whole = turn.after(effects).effects;
    assert forall|i: int| 0 <= i < whole.len() implies allowed(options, #[trigger] whole[i]) by {
        if i < effects.len() {
            assert(whole[i] == effects[i]);
        } else {
            assert(whole[i] == turn.effects[i - effects.len()]);
        }
    }
}

/// Progress, complaints and, where updates are installed, changes to files are allowed.
proof fn lemma_allowed(options: OptionsView, said: Text, complaint: Text, steps: Seq<FileStepView>)
    ensures
        all_allowed(options, printed(options, said)),
        all_allowed(options, complained(complaint)),
        all_allowed(options, printed(options, said) + complained(complaint)),
        options.update ==> all_allowed(options, printed(options, said) + changed(steps)),
{
    if options.update {
        let whole = printed(options, said) + changed(steps);
        assert forall|i: int| 0 <= i < whole.len() implies allowed(
            options,
            #[trigger] whole[i],
        ) by {
            let ahead = printed(options, said).len() as int;
            if i >= ahead {
                assert(whole[i] == changed(steps)[i - ahead]);
            }
        }
    }
}

/// The end of a run obeys the options.
proof fn lemma_finish_obeys(plan: Plan)
    requires
        sound(plan),
    ensures
        obeys(plan.options, finish(plan)),
        exits_as_tallied(finish(plan)),
        finish(plan).plan.overall == plan.overall,
{
    let said = overall_updated(plan.overall.updated);
    let missed = overall_failed(plan.overall.failed);
    lemma_allowed(plan.options, said, missed, Seq::empty());
    lemma_obeys_after(plan.options, exit(plan, 0), printed(plan.options, said));
    lemma_obeys_after(
        plan.options,
        exit(plan, plan.overall.code->0),
        printed(plan.options, said) + complained(missed),
    );
}

/// The install of a git package obeys the options.
proof fn lemma_install_git_obeys(plan: Plan, at: nat)
    requires
        plan.options.update,
        plan.options.update_git,
    ensures
        obeys(plan.options, install_git_at(plan, at)),
{
    let job = plan.git_candidates[at as int];
    lemma_allowed(
        plan.options,
        git_announcement(job),
        Seq::empty(),
        git_save_before(plan.options, job),
    );
}

/// The install of a registry package obeys the options.
proof fn lemma_install_obeys(plan: Plan, at: nat)
    requires
        plan.options.update,
    ensures
        obeys(plan.options, install_at(plan, at)),
{
    let job = plan.candidates[at as int];
    lemma_allowed(
        plan.options,
        announcement(job),
        Seq::empty(),
        save_before(plan.options, job),
    );
}

/// All that was tried so far.
pub open spec fn accounted(plan: Plan) -> TallyView {
    match plan.stage {
        Stage::Install | Stage::InstallGit => plan.overall.followed_by(plan.tally),
        _ => plan.overall,
    }
}

/// A tally followed by nothing stays as it is, and so does one that follows nothing.
proof fn lemma_followed_by_empty(tally: TallyView)
    ensures
        tally.followed_by(TallyView::empty()) == tally,
        TallyView::empty().followed_by(tally) == tally,
{
    assert(tally.followed_by(TallyView::empty()) =~= tally);
    assert(TallyView::empty().followed_by(tally) =~= tally);
}

/// Showing the commits, and what follows, obeys the options.
proof fn lemma_listed_git_obeys(plan: Plan)
    requires
        sound(plan),
        plan.options.update_git,
    ensures
        obeys(plan.options, listed_git(plan)),
        exits_as_tallied(listed_git(plan)),
        accounted(listed_git(plan).plan) == plan.overall,
{
    let shown = tab_aligned(table(lazy_sorted(git_rows(plan.git_candidates))));
    let idle = "No git packages need updating.\n"@;
    let begun = Plan { git_candidates: git_jobs(plan.options, plan.git_candidates), ..plan };
    lemma_allowed(plan.options, shown, Seq::empty(), Seq::empty());
    lemma_allowed(plan.options, idle, Seq::empty(), Seq::empty());
    lemma_finish_obeys(plan);
    lemma_finish_obeys(begun);
    lemma_obeys_after(plan.options, finish(begun), printed(plan.options, idle));
    if plan.options.update {
        lemma_install_git_obeys(Plan { tally: TallyView::empty(), ..begun }, 0);
    }
    lemma_followed_by_empty(plan.overall);
    lemma_obeys_after(plan.options, upgrade_git(plan), printed(plan.options, shown));
}

/// Going on with git packages obeys the options.
proof fn lemma_begin_git_obeys(plan: Plan)
    requires
        sound(plan),
    ensures
        obeys(plan.options, begin_git(plan)),
        exits_as_tallied(begin_git(plan)),
        accounted(begin_git(plan).plan) == plan.overall,
{
    if plan.options.update_git {
        let chosen = selected_git(plan.options, plan.config, plan.git_packages);
        lemma_listed_git_obeys(
            Plan { git_packages: chosen, git_candidates: Seq::empty(), ..plan },
        );
    } else {
        lemma_finish_obeys(plan);
    }
}

/// Showing the versions, and what follows, obeys the options.
proof fn lemma_listed_obeys(plan: Plan)
    requires
        sound(plan),
    ensures
        obeys(plan.options, listed(plan)),
        exits_as_tallied(listed(plan)),
        accounted(listed(plan).plan) == plan.overall,
{
    let shown = tab_aligned(table(lazy_sorted(candidate_rows(plan.config, plan.candidates))));
    let idle = "No packages need updating.\n"@;
    let begun = Plan { candidates: jobs(plan.options, plan.candidates), ..plan };
    lemma_allowed(plan.options, shown, Seq::empty(), Seq::empty());
    lemma_allowed(plan.options, idle, Seq::empty(), Seq::empty());
    lemma_begin_git_obeys(plan);
    lemma_begin_git_obeys(begun);
    lemma_obeys_after(plan.options, begin_git(begun), printed(plan.options, idle));
    if plan.options.update {
        lemma_install_obeys(Plan { tally: TallyView::empty(), ..begun }, 0);
    }
    lemma_followed_by_empty(plan.overall);
    lemma_obeys_after(plan.options, upgrade(plan), printed(plan.options, shown));
}

/// What follows the installs of registry packages obeys the options.
proof fn lemma_installed_obeys(plan: Plan)
    requires
        sound(plan),
        plan.options.update,
    ensures
        obeys(plan.options, installed(plan)),
        exits_as_tallied(installed(plan)),
        accounted(installed(plan).plan) == plan.tally,
{
    let ended = Plan { overall: plan.tally, ..plan };
    let said = updated_report("package"@, plan.tally.updated.len());
    let missed = failed_report(plan.tally.failed);
    let whole = printed(plan.options, said) + complained(missed);
    lemma_allowed(plan.options, said, missed, Seq::empty());
    lemma_begin_git_obeys(ended);
    lemma_obeys_after(plan.options, begin_git(ended), printed(plan.options, said));
    lemma_obeys_after(plan.options, begin_git(ended), whole);
    lemma_obeys_after(plan.options, exit(ended, plan.tally.code->0), whole);
}

/// What follows the installs of git packages obeys the options.
proof fn lemma_installed_git_obeys(plan: Plan)
    requires
        sound(plan),
        plan.options.update,
    ensures
        obeys(plan.options, installed_git(plan)),
        exits_as_tallied(installed_git(plan)),
        accounted(installed_git(plan).plan) == plan.overall.followed_by(plan.tally),
{
    let ended = Plan { overall: plan.overall.followed_by(plan.tally), ..plan };
    let said = updated_report("git package"@, plan.tally.updated.len());
    let missed = failed_report(plan.tally.failed);
    let whole = printed(plan.options, said) + complained(missed);
    lemma_allowed(plan.options, said, missed, Seq::empty());
    assert(ended.overall.consistent());
    lemma_finish_obeys(ended);
    lemma_obeys_after(plan.options, finish(ended), printed(plan.options, said));
    lemma_obeys_after(plan.options, finish(ended), whole);
    lemma_obeys_after(plan.options, exit(ended, plan.tally.code->0), whole);
}

/// What follows an install obeys the options.
proof fn lemma_ran_obeys(plan: Plan, outcome: Outcome)
    requires
        well_formed(plan),
        plan.stage is Install,
    ensures
        obeys(plan.options, ran(plan, outcome)),
        exits_as_tallied(ran(plan, outcome)),
        accounted(ran(plan, outcome).plan) == accounted(plan).with(
            plan.candidates[plan.cursor as int].name,
            outcome,
        ),
{
    let job = plan.candidates[plan.cursor as int];
    let further = Plan { tally: plan.tally.with(job.name, outcome), ..plan };
    let steps = restore_after(plan.options, job, outcome);
    let ahead = printed(plan.options, "\n"@) + changed(steps);
    lemma_allowed(plan.options, "\n"@, Seq::empty(), steps);
    lemma_followed_by_empty(plan.tally);
    lemma_followed_by_empty(further.tally);
    if plan.cursor + 1 < plan.candidates.len() {
        lemma_install_obeys(further, plan.cursor + 1);
        lemma_obeys_after(plan.options, install_at(further, plan.cursor + 1), ahead);
    } else {
        lemma_installed_obeys(further);
        lemma_obeys_after(plan.options, installed(further), ahead);
    }
}

/// What follows the install of a git package obeys the options.
proof fn lemma_ran_git_obeys(plan: Plan, outcome: Outcome)
    requires
        well_formed(plan),
        plan.stage is InstallGit,
    ensures
        obeys(plan.options, ran_git(plan, outcome)),
        exits_as_tallied(ran_git(plan, outcome)),
        accounted(ran_git(plan, outcome).plan) == accounted(plan).with(
            plan.git_candidates[plan.cursor as int].name,
            outcome,
        ),
{
    let job = plan.git_candidates[plan.cursor as int];
    let further = Plan { tally: plan.tally.with(job.name, outcome), ..plan };
    let steps = git_restore_after(plan.options, job, outcome);
    let ahead = printed(plan.options, "\n"@) + changed(steps);
    lemma_allowed(plan.options, "\n"@, Seq::empty(), steps);
    assert(plan.overall.followed_by(further.tally) =~= plan.overall.followed_by(
        plan.tally,
    ).with(job.name, outcome));
    if plan.cursor + 1 < plan.git_candidates.len() {
        lemma_install_git_obeys(further, plan.cursor + 1);
        lemma_obeys_after(plan.options, install_git_at(further, plan.cursor + 1), ahead);
    } else {
        lemma_installed_git_obeys(further);
        lemma_obeys_after(plan.options, installed_git(further), ahead);
    }
}

/// What follows known versions obeys the options.
proof fn lemma_pulled_obeys(plan: Plan, versions: VersionsView)
    requires
        well_formed(plan),
        plan.stage is Pull,
    ensures
        obeys(plan.options, pulled(plan, versions)),
        exits_as_tallied(pulled(plan, versions)),
        accounted(pulled(plan, versions).plan) == accounted(plan),
{
    let name = plan.packages[plan.cursor as int].name;
    let candidate = CandidateView { name: name, versions: versions };
    lemma_listed_obeys(Plan { candidates: plan.candidates.push(candidate), ..plan });
}

/// What follows known commits obeys the options.
proof fn lemma_pulled_git_obeys(plan: Plan, commits: CommitsView)
    requires
        well_formed(plan),
        plan.stage is PullGit,
    ensures
        obeys(plan.options, pulled_git(plan, commits)),
        exits_as_tallied(pulled_git(plan, commits)),
        accounted(pulled_git(plan, commits).plan) == accounted(plan),
{
    let name = plan.git_packages[plan.cursor as int].name;
    let candidate = GitCandidateView { name: name, commits: commits };
    lemma_listed_git_obeys(Plan { git_candidates: plan.git_candidates.push(candidate), ..plan });
}

/// The name of the package that is being installed.
pub open spec fn installing(plan: Plan) -> Text {
    if plan.stage is Install {
        plan.candidates[plan.cursor as int].name
    } else {
        plan.git_candidates[plan.cursor as int].name
    }
}

/// The first turn keeps to the options.
pub proof fn lemma_begin_obeys(plan: Plan)
    requires
        plan == fresh(plan.options, plan.config, plan.packages, plan.git_packages),
    ensures
        obeys(plan.options, begin(plan)),
{
    if plan.packages.len() == 0 {
        lemma_listed_obeys(plan);
    }
}

/// Every turn keeps to the options: quiet runs print nothing, runs that only list updates run
/// no `cargo` and change no file, git packages are looked at only where they are to be
/// updated. The run is over exactly when it asks for the end of the program; till then it asks
/// for what it waits for.
#[verifier::rlimit(40)]
pub proof fn lemma_next_obeys(plan: Plan, event: EventView)
    requires
        well_formed(plan),
        fits(plan, event),
    ensures
        obeys(plan.options, next(plan, event)),
{
    match event {
        EventView::Pulled { versions } => {
            lemma_pulled_obeys(plan, versions);
        },
        EventView::PulledCommits { commits } => {
            lemma_pulled_git_obeys(plan, commits);
        },
        EventView::Ran { outcome } => {
            if plan.stage is Install {
                lemma_ran_obeys(plan, outcome);
            } else {
                lemma_ran_git_obeys(plan, outcome);
            }
        },
        _ => {},
    }
}

/// Every turn takes down the install that ended, and nothing else. A run that is over without a
/// failed request ends with the exit code of the first failed install.
#[verifier::rlimit(40)]
proof fn lemma_next_accounted(plan: Plan, event: EventView)
    requires
        well_formed(plan),
        fits(plan, event),
    ensures
        accounted(next(plan, event).plan) == match event {
            EventView::Ran { outcome } => accounted(plan).with(installing(plan), outcome),
            _ => accounted(plan),
        },
        !(event is Failed) ==> exits_as_tallied(next(plan, event)),
        event is Failed ==> next(plan, event).request == (RequestView::Exit { code: 2 }),
{
    match event {
        EventView::Pulled { versions } => {
            lemma_pulled_obeys(plan, versions);
        },
        EventView::PulledCommits { commits } => {
            lemma_pulled_git_obeys(plan, commits);
        },
        EventView::Ran { outcome } => {
            if plan.stage is Install {
                lemma_ran_obeys(plan, outcome);
            } else {
                lemma_ran_git_obeys(plan, outcome);
            }
        },
        _ => {},
    }
}

/// The turn on an event. Proofs about whole runs keep it folded.
#[verifier::opaque]
pub open spec fn reply(plan: Plan, event: EventView) -> Turn {
    next(plan, event)
}

/// What is known of the turn on an event.
proof fn lemma_reply(plan: Plan, event: EventView)
    requires
        well_formed(plan),
        fits(plan, event),
    ensures
        well_formed(reply(plan, event).plan),
        obeys(plan.options, reply(plan, event)),
        accounted(reply(plan, event).plan) == match event {
            EventView::Ran { outcome } => accounted(plan).with(installing(plan), outcome),
            _ => accounted(plan),
        },
        !(event is Failed) ==> exits_as_tallied(reply(plan, event)),
        event is Failed ==> {
            &&& reply(plan, event).request == (RequestView::Exit { code: 2 })
            &&& accounted(plan) == TallyView::empty()
        },
{
    reveal(reply);
    lemma_next_well_formed(plan, event);
    lemma_next_obeys(plan, event);
    lemma_next_accounted(plan, event);
}

/// What is known of the first turn.
proof fn lemma_begin(plan: Plan)
    requires
        plan == fresh(plan.options, plan.config, plan.packages, plan.git_packages),
    ensures
        well_formed(begin(plan).plan),
        obeys(plan.options, begin(plan)),
        accounted(begin(plan).plan) == TallyView::empty(),
        exits_as_tallied(begin(plan)),
{
    lemma_begin_well_formed(plan);
    if plan.packages.len() == 0 {
        lemma_listed_obeys(plan);
    }
}

/// The run after some events: its state, all its effects so far, and its last request.
pub open spec fn course(first: Turn, events: Seq<EventView>) -> Turn
    decreases events.len(),
{
    if events.len() == 0 {
        first
    } else {
        let before = course(first, events.drop_last());
        reply(before.plan, events.last()).after(before.effects)
    }
}

/// Each event answers what the run waits for.
pub open spec fn answers(first: Turn, events: Seq<EventView>) -> bool
    decreases events.len(),
{
    events.len() > 0 ==> {
        &&& answers(first, events.drop_last())
        &&& fits(course(first, events.drop_last()).plan, events.last())
    }
}

/// All the requests of a run, up to the one it makes after these events.
pub open spec fn requests(first: Turn, events: Seq<EventView>) -> Seq<RequestView>
    decreases events.len(),
{
    if events.len() == 0 {
        seq![first.request]
    } else {
        requests(first, events.drop_last()).push(course(first, events).request)
    }
}

/// How the installs ended.
pub open spec fn outcomes(events: Seq<EventView>) -> Seq<Outcome>
    decreases events.len(),
{
    if events.len() == 0 {
        Seq::empty()
    } else {
        match events.last() {
            EventView::Ran { outcome } => outcomes(events.drop_last()).push(outcome),
            _ => outcomes(events.drop_last()),
        }
    }
}

/// The names of the packages whose installs ended.
pub open spec fn attempted(first: Turn, events: Seq<EventView>) -> Seq<Text>
    decreases events.len(),
{
    if events.len() == 0 {
        Seq::empty()
    } else {
        let names = attempted(first, events.drop_last());
        if events.last() is Ran {
            names.push(installing(course(first, events.drop_last()).plan))
        } else {
            names
        }
    }
}

/// What holds after any number of turns, if it holds after the first.
proof fn lemma_course(first: Turn, options: OptionsView, events: Seq<EventView>)
    requires
        well_formed(first.plan),
        obeys(options, first),
        accounted(first.plan) == TallyView::empty(),
        exits_as_tallied(first),
        answers(first, events),
    ensures
        well_formed(course(first, events).plan),
        obeys(options, course(first, events)),
        attempted(first, events).len() == outcomes(events).len(),
        accounted(course(first, events).plan) == tally_of(
            attempted(first, events),
            outcomes(events),
        ),
        events.len() > 0 && events.last() is Failed ==> {
            &&& course(first, events).request == (RequestView::Exit { code: 2 })
            &&& accounted(course(first, events).plan) == TallyView::empty()
        },
        events.len() == 0 || !(events.last() is Failed) ==> exits_as_tallied(
            course(first, events),
        ),
    decreases events.len(),
{
    if events.len() > 0 {
        let front = events.drop_last();
        let before = course(first, front);
        let answered = reply(before.plan, events.last());
        lemma_course(first, options, front);
        lemma_reply(before.plan, events.last());
        lemma_obeys_after(options, answered, before.effects);
        if events.last() is Ran {
            let names = attempted(first, events);
            let ends = outcomes(events);
            assert(names.drop_last() =~= attempted(first, front));
            assert(ends.drop_last() =~= outcomes(front));
        }
    }
}

/// In the course of a run each install is taken down once, under the name of its package and
/// with its outcome, in the order in which they were tried; and the run stays in good order.
pub proof fn lemma_all_accounted(plan: Plan, events: Seq<EventView>)
    requires
        plan == fresh(plan.options, plan.config, plan.packages, plan.git_packages),
        answers(begin(plan), events),
    ensures
        well_formed(course(begin(plan), events).plan),
        attempted(begin(plan), events).len() == outcomes(events).len(),
        accounted(course(begin(plan), events).plan) == tally_of(
            attempted(begin(plan), events),
            outcomes(events),
        ),
{
    lemma_begin(plan);
    lemma_course(begin(plan), plan.options, events);
}

/// A run ends with exit code two where a request concerning a registry could not be met, and
/// then nothing was installed; else with the exit code of the first install that failed, or
/// with zero where none did.
pub proof fn lemma_exit_code(plan: Plan, events: Seq<EventView>)
    requires
        plan == fresh(plan.options, plan.config, plan.packages, plan.git_packages),
        answers(begin(plan), events),
        course(begin(plan), events).request is Exit,
    ensures
        events.len() > 0 && events.last() is Failed ==> {
            &&& course(begin(plan), events).request->code == 2
            &&& outcomes(events).len() == 0
        },
        events.len() == 0 || !(events.last() is Failed) ==> course(
            begin(plan),
            events,
        ).request->code == match first_failure(outcomes(events)) {
            Some(code) => code,
            None => 0,
        },
{
    lemma_begin(plan);
    lemma_course(begin(plan), plan.options, events);
    lemma_tally_of(attempted(begin(plan), events), outcomes(events));
}

/// Where the user asked for quiet, a run prints nothing in its whole course; where updates are
/// only listed, it changes no file and runs no `cargo`.
pub proof fn lemma_course_obeys(plan: Plan, events: Seq<EventView>)
    requires
        plan == fresh(plan.options, plan.config, plan.packages, plan.git_packages),
        answers(begin(plan), events),
    ensures
        obeys(plan.options, course(begin(plan), events)),
{
    lemma_begin(plan);
    lemma_course(begin(plan), plan.options, events);
}

/// How many indices were located.
pub open spec fn count_located(events: Seq<EventView>) -> nat
    decreases events.len(),
{
    if events.len() == 0 {
        0
    } else if events.last() is Located {
        count_located(events.drop_last()) + 1
    } else {
        count_located(events.drop_last())
    }
}

/// How often an index was opened or fetched, or a revision of one was found.
pub open spec fn count_succeeded(events: Seq<EventView>) -> nat
    decreases events.len(),
{
    if events.len() == 0 {
        0
    } else if events.last() is Succeeded {
        count_succeeded(events.drop_last()) + 1
    } else {
        count_succeeded(events.drop_last())
    }
}

/// The run is past the stages that make the indices ready.
spec fn past_indices(stage: Stage) -> bool {
    rank(stage) <= 4
}

/// How many indices are located at a state.
spec fn located_by(plan: Plan) -> nat {
    match plan.stage {
        Stage::Resolve => 0,
        Stage::Locate => plan.cursor,
        _ => plan.groups.len(),
    }
}

/// How often an index was opened, fetched or read at a state.
spec fn succeeded_by(plan: Plan) -> nat {
    match plan.stage {
        Stage::Resolve | Stage::Locate => 0,
        Stage::Open => plan.cursor,
        Stage::Refresh => plan.groups.len() + plan.cursor,
        Stage::Read => 2 * plan.groups.len() + plan.cursor,
        _ => 3 * plan.groups.len(),
    }
}

/// The git packages leave the registries alone.
proof fn lemma_git_keeps_groups(plan: Plan)
    ensures
        finish(plan).plan.groups == plan.groups,
        listed_git(plan).plan.groups == plan.groups,
        begin_git(plan).plan.groups == plan.groups,
        past_indices(listed_git(plan).plan.stage),
        past_indices(begin_git(plan).plan.stage),
{
    lemma_onward(plan);
}

/// The registry packages leave the registries alone.
proof fn lemma_listed_keeps_groups(plan: Plan)
    ensures
        listed(plan).plan.groups == plan.groups,
        past_indices(listed(plan).plan.stage),
{
    lemma_git_keeps_groups(plan);
    lemma_git_keeps_groups(Plan { candidates: jobs(plan.options, plan.candidates), ..plan });
    lemma_listed_onward(plan);
}

/// The end of an install leaves the registries alone.
proof fn lemma_ran_keeps_groups(plan: Plan, outcome: Outcome)
    ensures
        plan.stage is Install ==> {
            &&& ran(plan, outcome).plan.groups == plan.groups
            &&& past_indices(ran(plan, outcome).plan.stage)
        },
        plan.stage is InstallGit ==> {
            &&& ran_git(plan, outcome).plan.groups == plan.groups
            &&& past_indices(ran_git(plan, outcome).plan.stage)
        },
{
    if plan.stage is Install {
        let tally = plan.tally.with(plan.candidates[plan.cursor as int].name, outcome);
        lemma_git_keeps_groups(Plan { tally: tally, overall: tally, ..plan });
    }
}

/// The turns take count of the indices.
#[verifier::rlimit(40)]
proof fn lemma_reply_counts(plan: Plan, event: EventView)
    requires
        well_formed(plan),
        fits(plan, event),
        !(event is Failed),
    ensures
        located_by(reply(plan, event).plan) == located_by(plan) + (if event is Located {
            1nat
        } else {
            0nat
        }),
        succeeded_by(reply(plan, event).plan) == succeeded_by(plan) + (if event is Succeeded {
            1nat
        } else {
            0nat
        }),
{
    reveal(reply);
    match event {
        EventView::Pulled { versions } => {
            let name = plan.packages[plan.cursor as int].name;
            let candidate = CandidateView { name: name, versions: versions };
            lemma_listed_keeps_groups(
                Plan { candidates: plan.candidates.push(candidate), ..plan },
            );
        },
        EventView::PulledCommits { commits } => {
            let name = plan.git_packages[plan.cursor as int].name;
            let candidate = GitCandidateView { name: name, commits: commits };
            lemma_git_keeps_groups(
                Plan { git_candidates: plan.git_candidates.push(candidate), ..plan },
            );
        },
        EventView::Ran { outcome } => {
            lemma_ran_keeps_groups(plan, outcome);
        },
        _ => {},
    }
}

/// The indices are counted right as long as no request failed.
proof fn lemma_course_counts(first: Turn, options: OptionsView, events: Seq<EventView>)
    requires
        well_formed(first.plan),
        obeys(options, first),
        accounted(first.plan) == TallyView::empty(),
        exits_as_tallied(first),
        answers(first, events),
        located_by(first.plan) == 0,
        succeeded_by(first.plan) == 0,
    ensures
        !(events.len() > 0 && events.last() is Failed) ==> {
            &&& count_located(events) == located_by(course(first, events).plan)
            &&& count_succeeded(events) == succeeded_by(course(first, events).plan)
        },
    decreases events.len(),
{
    if events.len() > 0 {
        let front = events.drop_last();
        lemma_course_counts(first, options, front);
        lemma_course(first, options, front);
        if !(events.last() is Failed) {
            lemma_reply_counts(course(first, front).plan, events.last());
        }
    }
}

/// When the versions of a package are asked for, the index to look them up in is one of those
/// at hand, and each of these was located, and then opened, fetched and read.
pub proof fn lemma_indices_ready(plan: Plan, events: Seq<EventView>)
    requires
        plan == fresh(plan.options, plan.config, plan.packages, plan.git_packages),
        answers(begin(plan), events),
        course(begin(plan), events).request is PullVersions,
    ensures
        course(begin(plan), events).request->PullVersions_group < course(
            begin(plan),
            events,
        ).plan.groups.len(),
        count_located(events) == course(begin(plan), events).plan.groups.len(),
        count_succeeded(events) == 3 * course(begin(plan), events).plan.groups.len(),
{
    lemma_begin(plan);
    if plan.packages.len() == 0 {
        lemma_listed_keeps_groups(plan);
    }
    lemma_course(begin(plan), plan.options, events);
    lemma_course_counts(begin(plan), plan.options, events);
    let now = course(begin(plan), events).plan;
    assert(now.stage is Pull);
    assert(group_of(now.groups, now.packages[now.cursor as int].name) is Some);
    lemma_group_of(now.groups, now.packages[now.cursor as int].name);
}

/// How far a stage is from the end.
pub open spec fn rank(stage: Stage) -> nat {
    match stage {
        Stage::Resolve => 9,
        Stage::Locate => 8,
        Stage::Open => 7,
        Stage::Refresh => 6,
        Stage::Read => 5,
        Stage::Pull => 4,
        Stage::Install => 3,
        Stage::PullGit => 2,
        Stage::InstallGit => 1,
        Stage::Done => 0,
    }
}

/// How many answers are due at the stage.
pub open spec fn left(plan: Plan) -> int {
    match plan.stage {
        Stage::Resolve | Stage::Pull => plan.packages.len() - plan.cursor,
        Stage::Locate | Stage::Open | Stage::Refresh | Stage::Read => plan.groups.len()
            - plan.cursor,
        Stage::Install => plan.candidates.len() - plan.cursor,
        Stage::PullGit => plan.git_packages.len() - plan.cursor,
        Stage::InstallGit => plan.git_candidates.len() - plan.cursor,
        Stage::Done => 0,
    }
}

/// Where the stages lead that the end of another one leads to.
proof fn lemma_onward(plan: Plan)
    ensures
        rank(listed_git(plan).plan.stage) <= 1,
        rank(begin_git(plan).plan.stage) <= 2,
{
    assert(rank(finish(plan).plan.stage) == 0);
}

/// After the versions are shown, no registry package is asked about again.
proof fn lemma_listed_onward(plan: Plan)
    ensures
        rank(listed(plan).plan.stage) <= 3,
{
    lemma_onward(plan);
    lemma_onward(Plan { candidates: jobs(plan.options, plan.candidates), ..plan });
}

/// Known versions bring the run nearer to its end.
proof fn lemma_pulled_progress(plan: Plan, versions: VersionsView)
    requires
        well_formed(plan),
        plan.stage is Pull,
    ensures
        rank(pulled(plan, versions).plan.stage) < 4 || (pulled(plan, versions).plan.stage is Pull
            && 0 <= left(pulled(plan, versions).plan) < left(plan)),
{
    let name = plan.packages[plan.cursor as int].name;
    let candidate = CandidateView { name: name, versions: versions };
    lemma_listed_onward(Plan { candidates: plan.candidates.push(candidate), ..plan });
}

/// The end of an install brings the run nearer to its end.
proof fn lemma_ran_progress(plan: Plan, outcome: Outcome)
    requires
        well_formed(plan),
        plan.stage is Install,
    ensures
        rank(ran(plan, outcome).plan.stage) < 3 || (ran(plan, outcome).plan.stage is Install
            && 0 <= left(ran(plan, outcome).plan) < left(plan)),
{
    let tally = plan.tally.with(plan.candidates[plan.cursor as int].name, outcome);
    lemma_onward(Plan { tally: tally, overall: tally, ..plan });
}

/// Known commits bring the run nearer to its end.
proof fn lemma_pulled_git_progress(plan: Plan, commits: CommitsView)
    requires
        well_formed(plan),
        plan.stage is PullGit,
    ensures
        rank(pulled_git(plan, commits).plan.stage) < 2 || (pulled_git(
            plan,
            commits,
        ).plan.stage is PullGit && 0 <= left(pulled_git(plan, commits).plan) < left(plan)),
{
    let name = plan.git_packages[plan.cursor as int].name;
    let candidate = GitCandidateView { name: name, commits: commits };
    lemma_onward(Plan { git_candidates: plan.git_candidates.push(candidate), ..plan });
}

/// Every run comes to an end: each turn takes it to a later stage, or leaves one answer less to
/// come at the stage it is in.
#[verifier::rlimit(40)]
pub proof fn lemma_progress(plan: Plan, event: EventView)
    requires
        well_formed(plan),
        fits(plan, event),
    ensures
        rank(next(plan, event).plan.stage) < rank(plan.stage) || (next(plan, event).plan.stage
            == plan.stage && 0 <= left(next(plan, event).plan) < left(plan)),
{
    match event {
        EventView::Pulled { versions } => {
            lemma_pulled_progress(plan, versions);
        },
        EventView::PulledCommits { commits } => {
            lemma_pulled_git_progress(plan, commits);
        },
        EventView::Ran { outcome } => {
            if plan.stage is Install {
                lemma_ran_progress(plan, outcome);
            }
        },
        _ => {},
    }
}

} // verus!
