//! What a run tells of itself in its whole course.

use vstd::prelude::*;
use crate::course::{answers, attempted, course, outcomes, rank, reply, well_formed};
use crate::executable::FileStepView;
use crate::options::OptionsView;
use crate::package::{CandidateView, CommitsView, GitCandidateView, VersionsView};
use crate::plan::{announcement, begin, begin_git, changed, complained, complaint, exit, finish};
use crate::plan::{fits, fresh, git_announcement, git_jobs, git_restore_after, git_save_before};
use crate::plan::{install_at, install_git_at, installed, installed_git, jobs, listed, listed_git};
use crate::plan::{printed, pull_at, pull_git_at, pulled, pulled_git, ran, ran_git, resolve_at};
use crate::plan::{restore_after, save_before, upgrade, upgrade_git, Plan, Stage, Turn};
use crate::record::{candidate_names, chosen_git, commits_after, commits_told, gave_up};
use crate::record::{git_candidate_names, git_known, installed_as_told, known, lemma_as_told};
use crate::record::{lemma_gave_up, lemma_started, started, tried_after, versions_after};
use crate::record::{versions_told, wanted, wanted_git};
use crate::select::selected_git;
use crate::step::{EffectView, EventView};
use crate::table::{candidate_rows, git_rows, lazy_sorted, tab_aligned, table, RowView};
use crate::tally::{failed_report, lemma_tally_of, lemma_tally_of_batches, names_ending};
use crate::tally::{overall_failed, overall_updated, tally_of, updated_report, Outcome, TallyView};
use crate::text::Text;

verus! {

/// The effect is a complaint.
pub open spec fn is_complaint() -> spec_fn(EffectView) -> bool {
    |effect: EffectView| effect is Complain
}

/// The effect is a print.
pub open spec fn is_print() -> spec_fn(EffectView) -> bool {
    |effect: EffectView| effect is Print
}

/// The complaints among the effects, in order.
pub open spec fn complaints(effects: Seq<EffectView>) -> Seq<EffectView> {
    effects.filter(is_complaint())
}

/// What is printed by the effects, in order.
pub open spec fn prints(effects: Seq<EffectView>) -> Seq<EffectView> {
    effects.filter(is_print())
}

/// The table of registry packages, where these are their versions.
pub open spec fn registry_table(plan: Plan, versions: Seq<VersionsView>) -> Text {
    tab_aligned(table(lazy_sorted(candidate_rows(plan.config, known(plan.packages, versions)))))
}

/// The table of git packages, where these are their commits.
pub open spec fn git_table(plan: Plan, commits: Seq<CommitsView>) -> Text {
    tab_aligned(table(lazy_sorted(git_rows(git_known(chosen_git(plan), commits)))))
}

/// All that a run tells which only lists updates: the table of the registry packages and, where
/// git packages are looked at, theirs.
pub open spec fn listing(
    plan: Plan,
    versions: Seq<VersionsView>,
    commits: Seq<CommitsView>,
) -> Seq<EffectView> {
    printed(plan.options, registry_table(plan, versions)) + (if plan.options.update_git {
        printed(plan.options, git_table(plan, commits))
    } else {
        Seq::empty()
    })
}

/// The complaint about packages of a kind that could not be updated, if there are any.
pub open spec fn report_of(failed: Seq<Text>) -> Seq<EffectView> {
    if failed.len() > 0 {
        complained(failed_report(failed))
    } else {
        Seq::empty()
    }
}

/// The complaint about all packages that could not be updated, which is made where registry
/// packages are among them and git packages were updated after them.
pub open spec fn overall_report(
    options: OptionsView,
    failed: Seq<Text>,
    git_failed: Seq<Text>,
) -> Seq<EffectView> {
    if failed.len() > 0 && options.update_git {
        complained(overall_failed(failed + git_failed))
    } else {
        Seq::empty()
    }
}

/// A run ends before it sums up what it updated where registry packages failed and no git
/// packages were to come, or where git packages were the first to fail.
pub open spec fn ends_early(
    options: OptionsView,
    failed: Seq<Text>,
    git_failed: Seq<Text>,
) -> bool {
    if failed.len() > 0 {
        !options.update_git
    } else {
        git_failed.len() > 0
    }
}

/// The last thing printed is the summary of what was updated.
pub open spec fn sums_up(effects: Seq<EffectView>, updated: Seq<Text>) -> bool {
    &&& prints(effects).len() > 0
    &&& prints(effects).last() == (EffectView::Print { text: overall_updated(updated) })
}

/// Changes to files hold neither complaints nor prints.
proof fn lemma_changed(steps: Seq<FileStepView>)
    ensures
        complaints(changed(steps)) == Seq::<EffectView>::empty(),
        prints(changed(steps)) == Seq::<EffectView>::empty(),
    decreases steps.len(),
{
    reveal(Seq::filter);
    if steps.len() > 0 {
        lemma_changed(steps.drop_last());
        assert(changed(steps).drop_last() =~= changed(steps.drop_last()));
        assert(changed(steps).last() is File);
    } else {
        assert(changed(steps).len() == 0);
    }
}

/// The complaints and prints among effects of one kind.
proof fn lemma_parts(options: OptionsView, said: Text)
    ensures
        complaints(printed(options, said)) == Seq::<EffectView>::empty(),
        prints(printed(options, said)) == printed(options, said),
        complaints(complained(said)) == complained(said),
        prints(complained(said)) == Seq::<EffectView>::empty(),
        complaints(Seq::empty()) == Seq::<EffectView>::empty(),
        prints(Seq::empty()) == Seq::<EffectView>::empty(),
{
    reveal_with_fuel(Seq::filter, 2);
    assert(printed(options, said).len() > 0 ==> printed(options, said).drop_last()
        =~= Seq::empty());
    assert(complained(said).drop_last() =~= Seq::empty());
    assert(complaints(printed(options, said)) =~= Seq::empty());
    assert(prints(printed(options, said)) =~= printed(options, said));
    assert(complaints(complained(said)) =~= complained(said));
    assert(prints(complained(said)) =~= Seq::empty());
}

/// The complaints and prints of effects put together.
proof fn lemma_together(ahead: Seq<EffectView>, behind: Seq<EffectView>)
    ensures
        complaints(ahead + behind) == complaints(ahead) + complaints(behind),
        prints(ahead + behind) == prints(ahead) + prints(behind),
{
    Seq::filter_distributes_over_add(ahead, behind, is_complaint());
    Seq::filter_distributes_over_add(ahead, behind, is_print());
}

/// The complaints that a turn adds to those of effects without any.
proof fn lemma_nothing_ahead(ahead: Seq<EffectView>, behind: Seq<EffectView>)
    requires
        complaints(ahead).len() == 0,
    ensures
        complaints(ahead + behind) == complaints(behind),
{
    lemma_together(ahead, behind);
    assert(complaints(ahead) + complaints(behind) =~= complaints(behind));
}

/// Progress and changes to files are no complaints.
proof fn lemma_progress_only(options: OptionsView, said: Text, steps: Seq<FileStepView>)
    ensures
        complaints(printed(options, said) + changed(steps)).len() == 0,
{
    lemma_parts(options, said);
    lemma_changed(steps);
    lemma_together(printed(options, said), changed(steps));
}

/// What a turn tells that leads to the end of a run, after these installs. Most proofs keep it
/// folded.
#[verifier::opaque]
spec fn concludes(turn: Turn, options: OptionsView, overall: TallyView) -> bool {
    &&& complaints(turn.effects) == if options.update && overall.failed.len() > 0 {
        complained(overall_failed(overall.failed))
    } else {
        Seq::empty()
    }
    &&& options.update && !options.quiet ==> sums_up(turn.effects, overall.updated)
}

/// What is printed before does not matter to the end.
proof fn lemma_concludes_after(
    turn: Turn,
    options: OptionsView,
    overall: TallyView,
    said: Text,
)
    requires
        concludes(turn, options, overall),
    ensures
        concludes(turn.after(printed(options, said)), options, overall),
{
    reveal(concludes);
    lemma_parts(options, said);
    lemma_together(printed(options, said), turn.effects);
    lemma_nothing_ahead(printed(options, said), turn.effects);
}

/// The end of a run.
proof fn lemma_finish(plan: Plan)
    ensures
        concludes(finish(plan), plan.options, plan.overall),
        !plan.options.update ==> finish(plan).effects.len() == 0,
        finish(plan).plan == (Plan { stage: Stage::Done, ..plan }),
{
    reveal(concludes);
    let said = overall_updated(plan.overall.updated);
    let missed = overall_failed(plan.overall.failed);
    let print = printed(plan.options, said);
    lemma_parts(plan.options, said);
    lemma_parts(plan.options, missed);
    if plan.options.update {
        if plan.overall.failed.len() > 0 {
            assert(finish(plan).effects =~= print + complained(missed));
            lemma_together(print, complained(missed));
            assert(prints(print) + prints(complained(missed)) =~= print);
            assert(complaints(print) + complaints(complained(missed)) =~= complained(missed));
        } else {
            assert(finish(plan).effects =~= print);
        }
    }
}

/// The install of a git package begins without complaints.
proof fn lemma_install_git(plan: Plan, at: nat)
    ensures
        complaints(install_git_at(plan, at).effects).len() == 0,
{
    let job = plan.git_candidates[at as int];
    let steps = git_save_before(plan.options, job);
    let ahead = printed(plan.options, git_announcement(job)) + changed(steps);
    lemma_progress_only(plan.options, git_announcement(job), steps);
    assert(install_git_at(plan, at).effects =~= ahead);
}

/// The install of a registry package begins without complaints.
proof fn lemma_install(plan: Plan, at: nat)
    ensures
        complaints(install_at(plan, at).effects).len() == 0,
{
    let job = plan.candidates[at as int];
    let steps = save_before(plan.options, job);
    let ahead = printed(plan.options, announcement(job)) + changed(steps);
    lemma_progress_only(plan.options, announcement(job), steps);
    assert(install_at(plan, at).effects =~= ahead);
}

/// The turn installs a first package.
#[verifier::opaque]
spec fn sets_out(turn: Turn, stage: Stage, overall: TallyView) -> bool {
    &&& turn.plan.stage == stage
    &&& turn.plan.overall == overall
    &&& turn.plan.tally == TallyView::empty()
    &&& complaints(turn.effects).len() == 0
}

/// The turn ends the run, after these installs.
#[verifier::opaque]
spec fn is_end(turn: Turn, options: OptionsView, overall: TallyView) -> bool {
    &&& turn.plan.stage is Done
    &&& turn.plan.overall == overall
    &&& concludes(turn, options, overall)
}

/// What is to be installed of the git packages is chosen.
proof fn lemma_upgrade_git(plan: Plan)
    ensures
        plan.options.update && git_jobs(plan.options, plan.git_candidates).len() > 0 ==> sets_out(
            upgrade_git(plan),
            Stage::InstallGit,
            plan.overall,
        ),
        !(plan.options.update && git_jobs(plan.options, plan.git_candidates).len() > 0) ==> is_end(
            upgrade_git(plan),
            plan.options,
            plan.overall,
        ),
        !plan.options.update ==> upgrade_git(plan).effects.len() == 0,
{
    reveal(sets_out);
    reveal(is_end);
    let idle = "No git packages need updating.\n"@;
    let begun = Plan { git_candidates: git_jobs(plan.options, plan.git_candidates), ..plan };
    if !plan.options.update {
        lemma_finish(plan);
    } else if begun.git_candidates.len() == 0 {
        lemma_finish(begun);
        lemma_concludes_after(finish(begun), plan.options, plan.overall, idle);
    } else {
        lemma_install_git(Plan { tally: TallyView::empty(), ..begun }, 0);
    }
}

/// What is printed before a turn that installs a first package, ends the run or tells nothing.
proof fn lemma_shown(turn: Turn, options: OptionsView, overall: TallyView, said: Text)
    ensures
        sets_out(turn, turn.plan.stage, overall) ==> sets_out(
            turn.after(printed(options, said)),
            turn.plan.stage,
            overall,
        ),
        is_end(turn, options, overall) ==> is_end(
            turn.after(printed(options, said)),
            options,
            overall,
        ),
        turn.effects.len() == 0 ==> turn.after(printed(options, said)).effects == printed(
            options,
            said,
        ),
{
    reveal(sets_out);
    reveal(is_end);
    lemma_parts(options, said);
    lemma_nothing_ahead(printed(options, said), turn.effects);
    if is_end(turn, options, overall) {
        lemma_concludes_after(turn, options, overall, said);
    }
    if turn.effects.len() == 0 {
        assert(turn.after(printed(options, said)).effects =~= printed(options, said));
    }
}

/// The table of these git packages.
spec fn table_of_git(candidates: Seq<GitCandidateView>) -> Text {
    tab_aligned(table(lazy_sorted(git_rows(candidates))))
}

/// The commits of the git packages are known.
proof fn lemma_listed_git(plan: Plan)
    ensures
        plan.options.update && git_jobs(plan.options, plan.git_candidates).len() > 0 ==> sets_out(
            listed_git(plan),
            Stage::InstallGit,
            plan.overall,
        ),
        !(plan.options.update && git_jobs(plan.options, plan.git_candidates).len() > 0) ==> is_end(
            listed_git(plan),
            plan.options,
            plan.overall,
        ),
        !plan.options.update ==> listed_git(plan).effects == printed(
            plan.options,
            table_of_git(plan.git_candidates),
        ),
{
    lemma_upgrade_git(plan);
    lemma_shown(
        upgrade_git(plan),
        plan.options,
        plan.overall,
        table_of_git(plan.git_candidates),
    );
}

/// Of no git packages none are to be installed.
proof fn lemma_no_git_jobs(options: OptionsView)
    ensures
        git_jobs(options, Seq::empty()).len() == 0,
{
    reveal(Seq::filter);
}

/// The turn asks for the first commits, and tells nothing.
#[verifier::opaque]
spec fn asks_git(turn: Turn, overall: TallyView) -> bool {
    &&& turn.plan.stage is PullGit
    &&& turn.plan.overall == overall
    &&& turn.effects.len() == 0
}

/// What is shown of no git packages.
spec fn no_git_shown(options: OptionsView) -> Seq<EffectView> {
    if options.update_git {
        printed(options, table_of_git(Seq::empty()))
    } else {
        Seq::empty()
    }
}

/// The registry packages are done with.
proof fn lemma_begin_git(plan: Plan)
    ensures
        begin_git(plan).plan.stage is PullGit ==> plan.options.update_git && asks_git(
            begin_git(plan),
            plan.overall,
        ),
        !(begin_git(plan).plan.stage is PullGit) ==> is_end(
            begin_git(plan),
            plan.options,
            plan.overall,
        ),
        !(begin_git(plan).plan.stage is PullGit) && !plan.options.update ==> begin_git(
            plan,
        ).effects == no_git_shown(plan.options),
{
    reveal(is_end);
    reveal(asks_git);
    let chosen = selected_git(plan.options, plan.config, plan.git_packages);
    let begun = Plan { git_packages: chosen, git_candidates: Seq::empty(), ..plan };
    if !plan.options.update_git {
        lemma_finish(plan);
        assert(!plan.options.update ==> finish(plan).effects =~= Seq::empty());
    } else if chosen.len() == 0 {
        lemma_no_git_jobs(plan.options);
        lemma_listed_git(begun);
    }
}

/// The turn asks for the first commits, without complaints.
#[verifier::opaque]
spec fn goes_on(turn: Turn, overall: TallyView) -> bool {
    &&& turn.plan.stage is PullGit
    &&& turn.plan.overall == overall
    &&& complaints(turn.effects).len() == 0
}

/// The turn has these effects.
#[verifier::opaque]
spec fn tells(turn: Turn, effects: Seq<EffectView>) -> bool {
    turn.effects == effects
}

/// What is printed before a turn that asks for the first commits.
proof fn lemma_shown_before_git(turn: Turn, options: OptionsView, overall: TallyView, said: Text)
    requires
        goes_on(turn, overall),
    ensures
        goes_on(turn.after(printed(options, said)), overall),
{
    reveal(goes_on);
    lemma_parts(options, said);
    lemma_nothing_ahead(printed(options, said), turn.effects);
}

/// A turn that asks for the first commits and tells nothing.
proof fn lemma_asks(turn: Turn, overall: TallyView)
    requires
        asks_git(turn, overall),
    ensures
        goes_on(turn, overall),
        tells(turn, Seq::empty()),
{
    reveal(asks_git);
    reveal(goes_on);
    reveal(tells);
    assert(turn.effects =~= Seq::empty());
    lemma_parts(arbitrary(), Seq::empty());
}

/// What follows when the registry packages are done with.
proof fn lemma_git_follows(plan: Plan)
    ensures
        begin_git(plan).plan.stage is PullGit ==> {
            &&& plan.options.update_git
            &&& goes_on(begin_git(plan), plan.overall)
            &&& tells(begin_git(plan), Seq::empty())
        },
        !(begin_git(plan).plan.stage is PullGit) ==> {
            &&& is_end(begin_git(plan), plan.options, plan.overall)
            &&& !plan.options.update ==> tells(begin_git(plan), no_git_shown(plan.options))
        },
{
    lemma_begin_git(plan);
    if begin_git(plan).plan.stage is PullGit {
        lemma_asks(begin_git(plan), plan.overall);
    } else {
        reveal(tells);
    }
}

/// A turn is told of after what is printed before it.
proof fn lemma_tells_after(turn: Turn, effects: Seq<EffectView>, ahead: Seq<EffectView>)
    requires
        tells(turn, effects),
    ensures
        tells(turn.after(ahead), ahead + effects),
{
    reveal(tells);
}

/// The turn installs a first package.
proof fn lemma_sets_out(plan: Plan)
    ensures
        sets_out(
            install_at(Plan { tally: TallyView::empty(), ..plan }, 0),
            Stage::Install,
            plan.overall,
        ),
{
    reveal(sets_out);
    lemma_install(Plan { tally: TallyView::empty(), ..plan }, 0);
}

/// What is to be installed of the registry packages is chosen.
proof fn lemma_upgrade(plan: Plan)
    ensures
        plan.options.update && jobs(plan.options, plan.candidates).len() > 0 ==> sets_out(
            upgrade(plan),
            Stage::Install,
            plan.overall,
        ),
        !(plan.options.update && jobs(plan.options, plan.candidates).len() > 0) ==> goes_on(
            upgrade(plan),
            plan.overall,
        ) || is_end(upgrade(plan), plan.options, plan.overall),
        !plan.options.update ==> upgrade(plan) == begin_git(plan),
{
    let idle = "No packages need updating.\n"@;
    let begun = Plan { candidates: jobs(plan.options, plan.candidates), ..plan };
    if !plan.options.update {
        lemma_git_follows(plan);
    } else if begun.candidates.len() == 0 {
        lemma_git_follows(begun);
        if begin_git(begun).plan.stage is PullGit {
            lemma_shown_before_git(begin_git(begun), plan.options, plan.overall, idle);
        } else {
            lemma_shown(begin_git(begun), plan.options, plan.overall, idle);
        }
    } else {
        lemma_sets_out(begun);
    }
}

/// The table of these registry packages.
spec fn table_of(plan: Plan) -> Text {
    tab_aligned(table(lazy_sorted(candidate_rows(plan.config, plan.candidates))))
}

/// The versions of the registry packages are known.
proof fn lemma_listed(plan: Plan)
    ensures
        plan.options.update && jobs(plan.options, plan.candidates).len() > 0 ==> sets_out(
            listed(plan),
            Stage::Install,
            plan.overall,
        ),
        !(plan.options.update && jobs(plan.options, plan.candidates).len() > 0) ==> goes_on(
            listed(plan),
            plan.overall,
        ) || is_end(listed(plan), plan.options, plan.overall),
{
    lemma_upgrade(plan);
    if plan.options.update && jobs(plan.options, plan.candidates).len() > 0 {
        assert(upgrade(plan).plan.stage == Stage::Install) by {
            reveal(sets_out);
        }
        lemma_shown(upgrade(plan), plan.options, plan.overall, table_of(plan));
    } else if goes_on(upgrade(plan), plan.overall) {
        lemma_shown_before_git(upgrade(plan), plan.options, plan.overall, table_of(plan));
    } else {
        lemma_shown(upgrade(plan), plan.options, plan.overall, table_of(plan));
    }
}

/// The versions of the registry packages are known, and updates are only listed.
proof fn lemma_only_listed(plan: Plan)
    requires
        !plan.options.update,
    ensures
        listed(plan).plan.stage is PullGit ==> tells(
            listed(plan),
            printed(plan.options, table_of(plan)) + Seq::empty(),
        ),
        !(listed(plan).plan.stage is PullGit) ==> tells(
            listed(plan),
            printed(plan.options, table_of(plan)) + no_git_shown(plan.options),
        ),
{
    let ahead = printed(plan.options, table_of(plan));
    lemma_git_follows(plan);
    if begin_git(plan).plan.stage is PullGit {
        lemma_tells_after(begin_git(plan), Seq::empty(), ahead);
    } else {
        lemma_tells_after(begin_git(plan), no_git_shown(plan.options), ahead);
    }
}

/// What is said once the packages of a kind are installed.
proof fn lemma_reported(options: OptionsView, said: Text, failed: Seq<Text>)
    ensures
        failed.len() > 0 ==> complaints(printed(options, said) + complained(failed_report(failed)))
            == report_of(failed),
        failed.len() == 0 ==> complaints(printed(options, said)) == report_of(failed),
{
    lemma_parts(options, said);
    lemma_parts(options, failed_report(failed));
    lemma_nothing_ahead(printed(options, said), complained(failed_report(failed)));
}

/// What a run has told at its end, where these packages failed and these were updated.
pub open spec fn told_all(
    effects: Seq<EffectView>,
    options: OptionsView,
    failed: Seq<Text>,
    git_failed: Seq<Text>,
    updated: Seq<Text>,
) -> bool {
    &&& complaints(effects) == report_of(failed) + report_of(git_failed) + overall_report(
        options,
        failed,
        git_failed,
    )
    &&& !options.quiet && !ends_early(options, failed, git_failed) ==> sums_up(effects, updated)
}

/// What was told before the end, and at the end.
proof fn lemma_told_all(
    before: Seq<EffectView>,
    ahead: Seq<EffectView>,
    rest: Seq<EffectView>,
    options: OptionsView,
    failed: Seq<Text>,
    git_failed: Seq<Text>,
    updated: Seq<Text>,
)
    requires
        complaints(before) + complaints(ahead) == report_of(failed) + report_of(git_failed),
        complaints(rest) == overall_report(options, failed, git_failed),
        !options.quiet && !ends_early(options, failed, git_failed) ==> sums_up(rest, updated),
    ensures
        told_all(before + (ahead + rest), options, failed, git_failed, updated),
{
    lemma_together(ahead, rest);
    lemma_together(before, ahead + rest);
    assert(complaints(before) + (complaints(ahead) + complaints(rest)) =~= (complaints(before)
        + complaints(ahead)) + complaints(rest));
}

/// The turn ends the run, which has then told all, with what it told before.
#[verifier::opaque]
spec fn tells_all(
    turn: Turn,
    before: Seq<EffectView>,
    options: OptionsView,
    failed: Seq<Text>,
    git_failed: Seq<Text>,
    updated: Seq<Text>,
) -> bool {
    &&& turn.plan.stage is Done
    &&& told_all(before + turn.effects, options, failed, git_failed, updated)
}

/// The turn asks for the first commits, after the registry packages were installed.
#[verifier::opaque]
spec fn reports(turn: Turn, tally: TallyView) -> bool {
    &&& turn.plan.stage is PullGit
    &&& turn.plan.overall == tally
    &&& complaints(turn.effects) == report_of(tally.failed)
}

/// What is reported of the registry packages before the first commits are asked for.
proof fn lemma_reports(turn: Turn, ahead: Seq<EffectView>, tally: TallyView)
    requires
        goes_on(turn, tally),
        complaints(ahead) == report_of(tally.failed),
    ensures
        reports(turn.after(ahead), tally),
{
    reveal(goes_on);
    reveal(reports);
    lemma_together(ahead, turn.effects);
    assert(complaints(ahead) + complaints(turn.effects) =~= complaints(ahead));
}

/// The program ends at once.
proof fn lemma_exits(
    turn: Turn,
    before: Seq<EffectView>,
    ahead: Seq<EffectView>,
    options: OptionsView,
    failed: Seq<Text>,
    git_failed: Seq<Text>,
    updated: Seq<Text>,
)
    requires
        turn.plan.stage is Done,
        turn.effects == Seq::<EffectView>::empty(),
        complaints(before) + complaints(ahead) == report_of(failed) + report_of(git_failed),
        ends_early(options, failed, git_failed),
    ensures
        tells_all(turn.after(ahead), before, options, failed, git_failed, updated),
{
    reveal(tells_all);
    lemma_parts(options, Seq::empty());
    lemma_told_all(before, ahead, turn.effects, options, failed, git_failed, updated);
}

/// The program ends after a summary.
proof fn lemma_ends(
    turn: Turn,
    before: Seq<EffectView>,
    ahead: Seq<EffectView>,
    options: OptionsView,
    failed: Seq<Text>,
    git_failed: Seq<Text>,
    overall: TallyView,
)
    requires
        is_end(turn, options, overall),
        options.update,
        overall.failed == failed + git_failed,
        complaints(before) + complaints(ahead) == report_of(failed) + report_of(git_failed),
        !ends_early(options, failed, git_failed),
    ensures
        tells_all(turn.after(ahead), before, options, failed, git_failed, overall.updated),
{
    reveal(tells_all);
    reveal(is_end);
    reveal(concludes);
    assert(overall.failed.len() == failed.len() + git_failed.len());
    lemma_told_all(before, ahead, turn.effects, options, failed, git_failed, overall.updated);
}

/// A kind of packages that was not installed adds nothing to the reports.
proof fn lemma_none_failed(before: Seq<EffectView>, ahead: Seq<EffectView>, failed: Seq<Text>)
    requires
        complaints(before) + complaints(ahead) == report_of(failed),
    ensures
        complaints(before) + complaints(ahead) == report_of(failed) + report_of(Seq::empty()),
        failed == failed + Seq::<Text>::empty(),
{
    assert(report_of(failed) + report_of(Seq::empty()) =~= report_of(failed));
    assert(failed =~= failed + Seq::<Text>::empty());
}

/// The end of the program tells nothing.
proof fn lemma_exit(plan: Plan, code: i32)
    ensures
        exit(plan, code).plan.stage is Done,
        exit(plan, code).effects == Seq::<EffectView>::empty(),
{
}

/// The registry packages are installed.
proof fn lemma_installed(plan: Plan, before: Seq<EffectView>)
    requires
        plan.options.update,
        complaints(before).len() == 0,
    ensures
        (plan.options.update_git && reports(installed(plan), plan.tally)) || tells_all(
            installed(plan),
            before,
            plan.options,
            plan.tally.failed,
            Seq::empty(),
            plan.tally.updated,
        ),
{
    let tally = plan.tally;
    let ended = Plan { overall: tally, ..plan };
    let said = updated_report("package"@, tally.updated.len());
    let ahead = if tally.failed.len() > 0 {
        printed(plan.options, said) + complained(failed_report(tally.failed))
    } else {
        printed(plan.options, said)
    };
    let none = Seq::<Text>::empty();
    lemma_reported(plan.options, said, tally.failed);
    assert(complaints(before) + complaints(ahead) =~= complaints(ahead));
    lemma_none_failed(before, ahead, tally.failed);
    if tally.failed.len() > 0 && !plan.options.update_git {
        let code = tally.code->0;
        lemma_exit(ended, code);
        lemma_exits(
            exit(ended, code),
            before,
            ahead,
            plan.options,
            tally.failed,
            none,
            tally.updated,
        );
    } else {
        lemma_git_follows(ended);
        if begin_git(ended).plan.stage is PullGit {
            lemma_reports(begin_git(ended), ahead, tally);
        } else {
            lemma_ends(
                begin_git(ended),
                before,
                ahead,
                plan.options,
                tally.failed,
                none,
                tally,
            );
        }
    }
}

/// The git packages are installed.
proof fn lemma_installed_git(plan: Plan, before: Seq<EffectView>)
    requires
        plan.options.update,
        plan.options.update_git,
        plan.overall.consistent(),
        complaints(before) == report_of(plan.overall.failed),
    ensures
        tells_all(
            installed_git(plan),
            before,
            plan.options,
            plan.overall.failed,
            plan.tally.failed,
            plan.overall.updated + plan.tally.updated,
        ),
{
    let first = plan.overall;
    let tally = plan.tally;
    let both = first.followed_by(tally);
    let ended = Plan { overall: both, ..plan };
    let said = updated_report("git package"@, tally.updated.len());
    let ahead = if tally.failed.len() > 0 {
        printed(plan.options, said) + complained(failed_report(tally.failed))
    } else {
        printed(plan.options, said)
    };
    lemma_reported(plan.options, said, tally.failed);
    if tally.failed.len() > 0 && first.code is None {
        let code = tally.code->0;
        lemma_exit(ended, code);
        lemma_exits(
            exit(ended, code),
            before,
            ahead,
            plan.options,
            first.failed,
            tally.failed,
            both.updated,
        );
    } else {
        lemma_finish_is_end(ended);
        lemma_ends(
            finish(ended),
            before,
            ahead,
            plan.options,
            first.failed,
            tally.failed,
            both,
        );
    }
}

/// The end of a run is one.
proof fn lemma_finish_is_end(plan: Plan)
    ensures
        is_end(finish(plan), plan.options, plan.overall),
{
    reveal(is_end);
    lemma_finish(plan);
}

/// What is told first in a turn may be counted among what was told before it.
proof fn lemma_tells_all_after(
    turn: Turn,
    before: Seq<EffectView>,
    ahead: Seq<EffectView>,
    options: OptionsView,
    failed: Seq<Text>,
    git_failed: Seq<Text>,
    updated: Seq<Text>,
)
    requires
        tells_all(turn, before + ahead, options, failed, git_failed, updated),
    ensures
        tells_all(turn.after(ahead), before, options, failed, git_failed, updated),
{
    reveal(tells_all);
    assert(before + (ahead + turn.effects) =~= (before + ahead) + turn.effects);
}

/// A run that ends without a report ends in good order.
proof fn lemma_ends_plainly(
    turn: Turn,
    before: Seq<EffectView>,
    options: OptionsView,
    overall: TallyView,
)
    requires
        is_end(turn, options, overall),
        options.update,
        overall.failed.len() > 0 ==> options.update_git,
        complaints(before) == report_of(overall.failed),
    ensures
        tells_all(turn, before, options, overall.failed, Seq::empty(), overall.updated),
{
    reveal(tells_all);
    reveal(is_end);
    reveal(concludes);
    let nothing = Seq::<EffectView>::empty();
    lemma_parts(options, Seq::empty());
    assert(complaints(before) + complaints(nothing) =~= complaints(before));
    lemma_none_failed(before, nothing, overall.failed);
    lemma_told_all(
        before,
        nothing,
        turn.effects,
        options,
        overall.failed,
        Seq::empty(),
        overall.updated,
    );
    assert(before + (nothing + turn.effects) =~= before + turn.effects);
}

/// The turn installs a further package.
#[verifier::opaque]
spec fn keeps_on(turn: Turn, stage: Stage, tally: TallyView, overall: TallyView) -> bool {
    &&& turn.plan.stage == stage
    &&& turn.plan.tally == tally
    &&& turn.plan.overall == overall
    &&& complaints(turn.effects).len() == 0
}

/// A further install begins without complaints.
proof fn lemma_keeps_on(plan: Plan, at: nat)
    ensures
        keeps_on(install_at(plan, at), Stage::Install, plan.tally, plan.overall),
        keeps_on(install_git_at(plan, at), Stage::InstallGit, plan.tally, plan.overall),
{
    reveal(keeps_on);
    lemma_install(plan, at);
    lemma_install_git(plan, at);
}

/// What is told before that is no complaint.
proof fn lemma_uneventful(turn: Turn, ahead: Seq<EffectView>)
    requires
        complaints(ahead).len() == 0,
    ensures
        forall|stage: Stage, tally: TallyView, overall: TallyView|
            keeps_on(turn, stage, tally, overall) ==> #[trigger] keeps_on(
                turn.after(ahead),
                stage,
                tally,
                overall,
            ),
        forall|tally: TallyView|
            reports(turn, tally) ==> #[trigger] reports(turn.after(ahead), tally),
{
    reveal(keeps_on);
    reveal(reports);
    lemma_nothing_ahead(ahead, turn.effects);
}

/// The install of a registry package ended.
proof fn lemma_ran(now: Plan, before: Seq<EffectView>, outcome: Outcome)
    requires
        now.options.update,
        complaints(before).len() == 0,
    ensures
        ({
            let tally = now.tally.with(now.candidates[now.cursor as int].name, outcome);
            if now.cursor + 1 < now.candidates.len() {
                keeps_on(ran(now, outcome), Stage::Install, tally, now.overall)
            } else {
                (now.options.update_git && reports(ran(now, outcome), tally)) || tells_all(
                    ran(now, outcome),
                    before,
                    now.options,
                    tally.failed,
                    Seq::empty(),
                    tally.updated,
                )
            }
        }),
{
    let job = now.candidates[now.cursor as int];
    let further = Plan { tally: now.tally.with(job.name, outcome), ..now };
    let steps = restore_after(now.options, job, outcome);
    let ahead = printed(now.options, "\n"@) + changed(steps);
    lemma_progress_only(now.options, "\n"@, steps);
    if now.cursor + 1 < now.candidates.len() {
        lemma_keeps_on(further, now.cursor + 1);
        lemma_uneventful(install_at(further, now.cursor + 1), ahead);
    } else {
        lemma_nothing_ahead(before, ahead);
        lemma_installed(further, before + ahead);
        if reports(installed(further), further.tally) {
            lemma_uneventful(installed(further), ahead);
        }
        if tells_all(
            installed(further),
            before + ahead,
            now.options,
            further.tally.failed,
            Seq::empty(),
            further.tally.updated,
        ) {
            lemma_tells_all_after(
                installed(further),
                before,
                ahead,
                now.options,
                further.tally.failed,
                Seq::empty(),
                further.tally.updated,
            );
        }
    }
}

/// The install of a git package ended.
proof fn lemma_ran_git(now: Plan, before: Seq<EffectView>, outcome: Outcome)
    requires
        now.options.update,
        now.options.update_git,
        now.overall.consistent(),
        complaints(before) == report_of(now.overall.failed),
    ensures
        ({
            let tally = now.tally.with(now.git_candidates[now.cursor as int].name, outcome);
            if now.cursor + 1 < now.git_candidates.len() {
                keeps_on(ran_git(now, outcome), Stage::InstallGit, tally, now.overall)
            } else {
                tells_all(
                    ran_git(now, outcome),
                    before,
                    now.options,
                    now.overall.failed,
                    tally.failed,
                    now.overall.updated + tally.updated,
                )
            }
        }),
{
    let job = now.git_candidates[now.cursor as int];
    let further = Plan { tally: now.tally.with(job.name, outcome), ..now };
    let steps = git_restore_after(now.options, job, outcome);
    let ahead = printed(now.options, "\n"@) + changed(steps);
    lemma_progress_only(now.options, "\n"@, steps);
    if now.cursor + 1 < now.git_candidates.len() {
        lemma_keeps_on(further, now.cursor + 1);
        lemma_uneventful(install_git_at(further, now.cursor + 1), ahead);
    } else {
        lemma_together(before, ahead);
        assert(complaints(before) + complaints(ahead) =~= complaints(before));
        lemma_installed_git(further, before + ahead);
        lemma_tells_all_after(
            installed_git(further),
            before,
            ahead,
            now.options,
            now.overall.failed,
            further.tally.failed,
            now.overall.updated + further.tally.updated,
        );
    }
}

/// How the registry packages fared, of which there were `count` to install.
pub open spec fn registry_tally(count: nat, tried: Seq<Text>, ends: Seq<Outcome>) -> TallyView {
    tally_of(tried.take(count as int), ends.take(count as int))
}

/// How the git packages fared, which are installed after `count` others.
pub open spec fn git_tally(count: nat, tried: Seq<Text>, ends: Seq<Outcome>) -> TallyView {
    tally_of(tried.skip(count as int), ends.skip(count as int))
}

/// All that a run has told at its end.
spec fn told_at_end(
    plan: Plan,
    effects: Seq<EffectView>,
    versions: Seq<VersionsView>,
    commits: Seq<CommitsView>,
    tried: Seq<Text>,
    ends: Seq<Outcome>,
) -> bool {
    let count = wanted(plan, versions).len();
    &&& !plan.options.update ==> effects == listing(plan, versions, commits)
    &&& plan.options.update ==> told_all(
        effects,
        plan.options,
        registry_tally(count, tried, ends).failed,
        git_tally(count, tried, ends).failed,
        tally_of(tried, ends).updated,
    )
}

/// What a run has told goes with its state. Most proofs keep it folded.
#[verifier::opaque]
spec fn told_so_far(
    plan: Plan,
    now: Plan,
    effects: Seq<EffectView>,
    versions: Seq<VersionsView>,
    commits: Seq<CommitsView>,
    tried: Seq<Text>,
    ends: Seq<Outcome>,
) -> bool {
    let count = wanted(plan, versions).len();
    &&& tried.len() == ends.len()
    &&& match now.stage {
        Stage::Install => {
            &&& complaints(effects).len() == 0
            &&& now.tally == tally_of(tried, ends)
        },
        Stage::PullGit => {
            &&& complaints(effects) == report_of(now.overall.failed)
            &&& now.overall == tally_of(tried, ends)
            &&& !plan.options.update ==> effects == printed(
                plan.options,
                registry_table(plan, versions),
            )
        },
        Stage::InstallGit => {
            &&& complaints(effects) == report_of(now.overall.failed)
            &&& now.overall == registry_tally(count, tried, ends)
            &&& now.tally == git_tally(count, tried, ends)
        },
        Stage::Done => told_at_end(plan, effects, versions, commits, tried, ends),
        _ => effects.len() == 0 && ends.len() == 0,
    }
}

/// The tally of installs with one more.
proof fn lemma_tally_push(tried: Seq<Text>, ends: Seq<Outcome>, name: Text, outcome: Outcome)
    requires
        tried.len() == ends.len(),
    ensures
        tally_of(tried.push(name), ends.push(outcome)) == tally_of(tried, ends).with(name, outcome),
{
    assert(tried.push(name).drop_last() =~= tried);
    assert(ends.push(outcome).drop_last() =~= ends);
}

/// Where all that was tried are registry packages, there is nothing to say of git packages.
proof fn lemma_all_from_registries(count: nat, tried: Seq<Text>, ends: Seq<Outcome>)
    requires
        tried.len() == count,
        ends.len() == count,
    ensures
        registry_tally(count, tried, ends) == tally_of(tried, ends),
        git_tally(count, tried, ends) == TallyView::empty(),
{
    assert(tried.take(count as int) =~= tried);
    assert(ends.take(count as int) =~= ends);
}

/// The two tallies make up the whole.
proof fn lemma_two_tallies(count: nat, tried: Seq<Text>, ends: Seq<Outcome>)
    requires
        tried.len() == ends.len(),
        count <= tried.len(),
    ensures
        tally_of(tried, ends) == registry_tally(count, tried, ends).followed_by(
            git_tally(count, tried, ends),
        ),
{
    let at = count as int;
    lemma_tally_of_batches(tried.take(at), ends.take(at), tried.skip(at), ends.skip(at));
    assert(tried.take(at) + tried.skip(at) =~= tried);
    assert(ends.take(at) + ends.skip(at) =~= ends);
}

/// One git package more.
proof fn lemma_git_tally_push(
    count: nat,
    tried: Seq<Text>,
    ends: Seq<Outcome>,
    name: Text,
    outcome: Outcome,
)
    requires
        tried.len() == ends.len(),
        count <= tried.len(),
    ensures
        registry_tally(count, tried.push(name), ends.push(outcome)) == registry_tally(
            count,
            tried,
            ends,
        ),
        git_tally(count, tried.push(name), ends.push(outcome)) == git_tally(
            count,
            tried,
            ends,
        ).with(name, outcome),
{
    let at = count as int;
    assert(tried.push(name).take(at) =~= tried.take(at));
    assert(ends.push(outcome).take(at) =~= ends.take(at));
    assert(tried.push(name).skip(at) =~= tried.skip(at).push(name));
    assert(ends.push(outcome).skip(at) =~= ends.skip(at).push(outcome));
    lemma_tally_push(tried.skip(at), ends.skip(at), name, outcome);
}

/// A first registry package is installed.
proof fn lemma_told_set_out(
    plan: Plan,
    turn: Turn,
    versions: Seq<VersionsView>,
    commits: Seq<CommitsView>,
)
    requires
        sets_out(turn, Stage::Install, TallyView::empty()),
    ensures
        told_so_far(
            plan,
            turn.plan,
            turn.effects,
            versions,
            commits,
            Seq::empty(),
            Seq::empty(),
        ),
{
    reveal(told_so_far);
    reveal(sets_out);
}

/// A further registry package is installed.
proof fn lemma_told_kept_on(
    plan: Plan,
    turn: Turn,
    before: Seq<EffectView>,
    versions: Seq<VersionsView>,
    commits: Seq<CommitsView>,
    tried: Seq<Text>,
    ends: Seq<Outcome>,
    overall: TallyView,
)
    requires
        keeps_on(turn, Stage::Install, tally_of(tried, ends), overall),
        complaints(before).len() == 0,
        tried.len() == ends.len(),
    ensures
        told_so_far(plan, turn.plan, before + turn.effects, versions, commits, tried, ends),
{
    reveal(told_so_far);
    reveal(keeps_on);
    lemma_nothing_ahead(before, turn.effects);
}

/// The registry packages are installed, and git packages follow.
proof fn lemma_told_reports(
    plan: Plan,
    turn: Turn,
    before: Seq<EffectView>,
    versions: Seq<VersionsView>,
    commits: Seq<CommitsView>,
    tried: Seq<Text>,
    ends: Seq<Outcome>,
)
    requires
        plan.options.update,
        reports(turn, tally_of(tried, ends)),
        complaints(before).len() == 0,
        tried.len() == ends.len(),
    ensures
        told_so_far(plan, turn.plan, before + turn.effects, versions, commits, tried, ends),
{
    reveal(told_so_far);
    reveal(reports);
    lemma_nothing_ahead(before, turn.effects);
}

/// The run has come to its end.
proof fn lemma_told_all_at_end(
    plan: Plan,
    turn: Turn,
    before: Seq<EffectView>,
    versions: Seq<VersionsView>,
    commits: Seq<CommitsView>,
    tried: Seq<Text>,
    ends: Seq<Outcome>,
)
    requires
        plan.options.update,
        tried.len() == ends.len(),
        wanted(plan, versions).len() <= tried.len(),
        tells_all(
            turn,
            before,
            plan.options,
            registry_tally(wanted(plan, versions).len(), tried, ends).failed,
            git_tally(wanted(plan, versions).len(), tried, ends).failed,
            registry_tally(wanted(plan, versions).len(), tried, ends).updated + git_tally(
                wanted(plan, versions).len(),
                tried,
                ends,
            ).updated,
        ),
    ensures
        told_so_far(plan, turn.plan, before + turn.effects, versions, commits, tried, ends),
{
    reveal(told_so_far);
    reveal(tells_all);
    lemma_two_tallies(wanted(plan, versions).len(), tried, ends);
}

/// Nothing was to be installed from registries, and git packages follow.
proof fn lemma_told_goes_on(
    plan: Plan,
    turn: Turn,
    versions: Seq<VersionsView>,
    commits: Seq<CommitsView>,
)
    requires
        goes_on(turn, TallyView::empty()),
        plan.options.update || tells(
            turn,
            printed(plan.options, registry_table(plan, versions)) + Seq::empty(),
        ),
    ensures
        told_so_far(
            plan,
            turn.plan,
            turn.effects,
            versions,
            commits,
            Seq::empty(),
            Seq::empty(),
        ),
{
    reveal(told_so_far);
    reveal(goes_on);
    reveal(tells);
    let shown = printed(plan.options, registry_table(plan, versions));
    assert(shown + Seq::empty() =~= shown);
    assert(complaints(turn.effects) =~= report_of(Seq::empty()));
}

/// Updates were only listed, and there are no git packages.
proof fn lemma_told_only_listed(plan: Plan, turn: Turn, versions: Seq<VersionsView>)
    requires
        !plan.options.update,
        turn.plan.stage is Done,
        tells(
            turn,
            printed(plan.options, registry_table(plan, versions)) + no_git_shown(plan.options),
        ),
    ensures
        told_so_far(
            plan,
            turn.plan,
            turn.effects,
            versions,
            Seq::empty(),
            Seq::empty(),
            Seq::empty(),
        ),
{
    reveal(told_so_far);
    reveal(tells);
    assert(git_known(chosen_git(plan), Seq::empty()) =~= Seq::empty());
}

/// Nothing was to be installed at all.
proof fn lemma_told_nothing_due(
    plan: Plan,
    turn: Turn,
    versions: Seq<VersionsView>,
    commits: Seq<CommitsView>,
)
    requires
        plan.options.update,
        wanted(plan, versions).len() == 0,
        is_end(turn, plan.options, TallyView::empty()),
    ensures
        told_so_far(
            plan,
            turn.plan,
            turn.effects,
            versions,
            commits,
            Seq::empty(),
            Seq::empty(),
        ),
{
    let nothing = Seq::<EffectView>::empty();
    let tried = Seq::<Text>::empty();
    let ends = Seq::<Outcome>::empty();
    lemma_parts(plan.options, Seq::empty());
    assert(report_of(TallyView::empty().failed) =~= nothing);
    lemma_ends_plainly(turn, nothing, plan.options, TallyView::empty());
    lemma_all_from_registries(0, tried, ends);
    assert(tried + tried =~= tried);
    lemma_told_all_at_end(plan, turn, nothing, versions, commits, tried, ends);
    assert(nothing + turn.effects =~= turn.effects);
}

/// The versions of the registry packages are known.
proof fn lemma_told_listed(plan: Plan, now: Plan, versions: Seq<VersionsView>)
    requires
        now.options == plan.options,
        now.config == plan.config,
        now.candidates == known(plan.packages, versions),
        now.overall == TallyView::empty(),
    ensures
        told_so_far(
            plan,
            listed(now).plan,
            listed(now).effects,
            versions,
            Seq::empty(),
            Seq::empty(),
            Seq::empty(),
        ),
{
    let turn = listed(now);
    let none = Seq::<CommitsView>::empty();
    assert(table_of(now) == registry_table(plan, versions));
    lemma_listed(now);
    if plan.options.update && jobs(plan.options, now.candidates).len() > 0 {
        lemma_told_set_out(plan, turn, versions, none);
    } else if plan.options.update {
        assert(wanted(plan, versions).len() == 0);
        if goes_on(turn, now.overall) {
            lemma_told_goes_on(plan, turn, versions, none);
        } else {
            lemma_told_nothing_due(plan, turn, versions, none);
        }
    } else {
        lemma_only_listed(now);
        if goes_on(turn, now.overall) {
            assert(turn.plan.stage is PullGit) by {
                reveal(goes_on);
            }
            lemma_told_goes_on(plan, turn, versions, none);
        } else {
            assert(turn.plan.stage is Done) by {
                reveal(is_end);
            }
            lemma_told_only_listed(plan, turn, versions);
        }
    }
}

/// The versions of a package are known.
proof fn lemma_told_pulled(
    plan: Plan,
    now: Plan,
    told: Seq<VersionsView>,
    versions: VersionsView,
)
    requires
        now.options == plan.options,
        now.config == plan.config,
        now.packages == plan.packages,
        now.cursor < now.packages.len(),
        told.len() == now.cursor,
        now.candidates == known(plan.packages, told),
        now.overall == TallyView::empty(),
        now.stage is Pull,
    ensures
        told_so_far(
            plan,
            pulled(now, versions).plan,
            pulled(now, versions).effects,
            told.push(versions),
            Seq::empty(),
            Seq::empty(),
            Seq::empty(),
        ),
{
    let name = now.packages[now.cursor as int].name;
    let candidate = CandidateView { name: name, versions: versions };
    let further = Plan { candidates: now.candidates.push(candidate), ..now };
    if now.cursor + 1 < now.packages.len() {
        lemma_told_nothing_yet(plan, pull_at(further, now.cursor + 1), told.push(versions));
    } else {
        assert(further.candidates =~= known(plan.packages, told.push(versions)));
        lemma_told_listed(plan, further, told.push(versions));
    }
}

/// The run is at a stage at which it has told nothing.
proof fn lemma_told_nothing_yet(plan: Plan, turn: Turn, versions: Seq<VersionsView>)
    requires
        turn.effects.len() == 0,
        rank(turn.plan.stage) >= 4,
    ensures
        told_so_far(
            plan,
            turn.plan,
            turn.effects,
            versions,
            Seq::empty(),
            Seq::empty(),
            Seq::empty(),
        ),
{
    reveal(told_so_far);
}

/// A first git package is installed.
proof fn lemma_told_git_set_out(
    plan: Plan,
    turn: Turn,
    before: Seq<EffectView>,
    versions: Seq<VersionsView>,
    commits: Seq<CommitsView>,
    tried: Seq<Text>,
    ends: Seq<Outcome>,
)
    requires
        sets_out(turn, Stage::InstallGit, tally_of(tried, ends)),
        complaints(before) == report_of(tally_of(tried, ends).failed),
        tried.len() == wanted(plan, versions).len(),
        ends.len() == tried.len(),
    ensures
        told_so_far(plan, turn.plan, before + turn.effects, versions, commits, tried, ends),
{
    reveal(told_so_far);
    reveal(sets_out);
    lemma_together(before, turn.effects);
    assert(complaints(before) + complaints(turn.effects) =~= complaints(before));
    lemma_all_from_registries(wanted(plan, versions).len(), tried, ends);
}

/// No git package is installed.
proof fn lemma_told_no_git_due(
    plan: Plan,
    turn: Turn,
    before: Seq<EffectView>,
    versions: Seq<VersionsView>,
    commits: Seq<CommitsView>,
    tried: Seq<Text>,
    ends: Seq<Outcome>,
)
    requires
        plan.options.update,
        plan.options.update_git,
        is_end(turn, plan.options, tally_of(tried, ends)),
        complaints(before) == report_of(tally_of(tried, ends).failed),
        tried.len() == wanted(plan, versions).len(),
        ends.len() == tried.len(),
    ensures
        told_so_far(plan, turn.plan, before + turn.effects, versions, commits, tried, ends),
{
    let overall = tally_of(tried, ends);
    lemma_ends_plainly(turn, before, plan.options, overall);
    lemma_all_from_registries(wanted(plan, versions).len(), tried, ends);
    assert(overall.updated + Seq::<Text>::empty() =~= overall.updated);
    lemma_told_all_at_end(plan, turn, before, versions, commits, tried, ends);
}

/// The git packages were only listed.
proof fn lemma_told_git_listed(
    plan: Plan,
    turn: Turn,
    before: Seq<EffectView>,
    versions: Seq<VersionsView>,
    commits: Seq<CommitsView>,
    tried: Seq<Text>,
    ends: Seq<Outcome>,
)
    requires
        !plan.options.update,
        plan.options.update_git,
        turn.plan.stage is Done,
        before == printed(plan.options, registry_table(plan, versions)),
        turn.effects == printed(plan.options, git_table(plan, commits)),
        tried.len() == ends.len(),
    ensures
        told_so_far(plan, turn.plan, before + turn.effects, versions, commits, tried, ends),
{
    reveal(told_so_far);
}

/// The state at which the run waits for commits.
proof fn lemma_told_at_git(
    plan: Plan,
    now: Plan,
    before: Seq<EffectView>,
    versions: Seq<VersionsView>,
    commits: Seq<CommitsView>,
    tried: Seq<Text>,
    ends: Seq<Outcome>,
)
    requires
        now.stage is PullGit,
        told_so_far(plan, now, before, versions, commits, tried, ends),
    ensures
        tried.len() == ends.len(),
        now.overall == tally_of(tried, ends),
        complaints(before) == report_of(tally_of(tried, ends).failed),
        !plan.options.update ==> before == printed(plan.options, registry_table(plan, versions)),
{
    reveal(told_so_far);
}

/// The run waits for further commits.
proof fn lemma_told_waits_on(
    plan: Plan,
    now: Plan,
    turn: Turn,
    before: Seq<EffectView>,
    versions: Seq<VersionsView>,
    commits: Seq<CommitsView>,
    more: Seq<CommitsView>,
    tried: Seq<Text>,
    ends: Seq<Outcome>,
)
    requires
        now.stage is PullGit,
        turn.plan.stage is PullGit,
        turn.plan.overall == now.overall,
        turn.effects.len() == 0,
        told_so_far(plan, now, before, versions, commits, tried, ends),
    ensures
        told_so_far(plan, turn.plan, before + turn.effects, versions, more, tried, ends),
{
    reveal(told_so_far);
    assert(before + turn.effects =~= before);
}

/// The commits of a git package are known.
proof fn lemma_told_pulled_git(
    plan: Plan,
    now: Plan,
    before: Seq<EffectView>,
    versions: Seq<VersionsView>,
    told: Seq<CommitsView>,
    commits: CommitsView,
    tried: Seq<Text>,
    ends: Seq<Outcome>,
)
    requires
        now.options == plan.options,
        now.config == plan.config,
        plan.options.update_git,
        now.stage is PullGit,
        now.git_packages == chosen_git(plan),
        now.cursor < now.git_packages.len(),
        told.len() == now.cursor,
        now.git_candidates == git_known(chosen_git(plan), told),
        tried.len() == wanted(plan, versions).len(),
        told_so_far(plan, now, before, versions, told, tried, ends),
    ensures
        told_so_far(
            plan,
            pulled_git(now, commits).plan,
            before + pulled_git(now, commits).effects,
            versions,
            told.push(commits),
            tried,
            ends,
        ),
{
    let name = now.git_packages[now.cursor as int].name;
    let candidate = GitCandidateView { name: name, commits: commits };
    let further = Plan { git_candidates: now.git_candidates.push(candidate), ..now };
    let more = told.push(commits);
    if now.cursor + 1 < now.git_packages.len() {
        let turn = pull_git_at(further, now.cursor + 1);
        lemma_told_waits_on(plan, now, turn, before, versions, told, more, tried, ends);
    } else {
        let turn = listed_git(further);
        assert(further.git_candidates =~= git_known(chosen_git(plan), more));
        lemma_told_at_git(plan, now, before, versions, told, tried, ends);
        lemma_listed_git(further);
        if plan.options.update && git_jobs(plan.options, further.git_candidates).len() > 0 {
            lemma_told_git_set_out(plan, turn, before, versions, more, tried, ends);
        } else if plan.options.update {
            lemma_told_no_git_due(plan, turn, before, versions, more, tried, ends);
        } else {
            assert(turn.plan.stage is Done) by {
                reveal(is_end);
            }
            lemma_told_git_listed(plan, turn, before, versions, more, tried, ends);
        }
    }
}

/// The state at which the run waits for the install of a registry package.
proof fn lemma_told_at_install(
    plan: Plan,
    now: Plan,
    before: Seq<EffectView>,
    versions: Seq<VersionsView>,
    commits: Seq<CommitsView>,
    tried: Seq<Text>,
    ends: Seq<Outcome>,
)
    requires
        now.stage is Install,
        told_so_far(plan, now, before, versions, commits, tried, ends),
    ensures
        tried.len() == ends.len(),
        now.tally == tally_of(tried, ends),
        complaints(before).len() == 0,
{
    reveal(told_so_far);
}

/// The install of a registry package ended.
proof fn lemma_told_ran(
    plan: Plan,
    now: Plan,
    before: Seq<EffectView>,
    versions: Seq<VersionsView>,
    commits: Seq<CommitsView>,
    tried: Seq<Text>,
    ends: Seq<Outcome>,
    outcome: Outcome,
)
    requires
        now.options == plan.options,
        plan.options.update,
        now.stage is Install,
        now.cursor < now.candidates.len(),
        tried.len() == now.cursor,
        now.candidates.len() == wanted(plan, versions).len(),
        told_so_far(plan, now, before, versions, commits, tried, ends),
    ensures
        told_so_far(
            plan,
            ran(now, outcome).plan,
            before + ran(now, outcome).effects,
            versions,
            commits,
            tried.push(now.candidates[now.cursor as int].name),
            ends.push(outcome),
        ),
{
    let name = now.candidates[now.cursor as int].name;
    let further = tried.push(name);
    let known_ends = ends.push(outcome);
    let turn = ran(now, outcome);
    lemma_told_at_install(plan, now, before, versions, commits, tried, ends);
    lemma_tally_push(tried, ends, name, outcome);
    lemma_ran(now, before, outcome);
    let tally = tally_of(further, known_ends);
    if now.cursor + 1 < now.candidates.len() {
        lemma_told_kept_on(
            plan,
            turn,
            before,
            versions,
            commits,
            further,
            known_ends,
            now.overall,
        );
    } else if reports(turn, tally) {
        lemma_told_reports(plan, turn, before, versions, commits, further, known_ends);
    } else {
        lemma_all_from_registries(wanted(plan, versions).len(), further, known_ends);
        assert(tally.updated + Seq::<Text>::empty() =~= tally.updated);
        lemma_told_all_at_end(plan, turn, before, versions, commits, further, known_ends);
    }
}

/// The state at which the run waits for the install of a git package.
proof fn lemma_told_at_install_git(
    plan: Plan,
    now: Plan,
    before: Seq<EffectView>,
    versions: Seq<VersionsView>,
    commits: Seq<CommitsView>,
    tried: Seq<Text>,
    ends: Seq<Outcome>,
)
    requires
        now.stage is InstallGit,
        told_so_far(plan, now, before, versions, commits, tried, ends),
    ensures
        tried.len() == ends.len(),
        now.overall == registry_tally(wanted(plan, versions).len(), tried, ends),
        now.tally == git_tally(wanted(plan, versions).len(), tried, ends),
        complaints(before) == report_of(now.overall.failed),
{
    reveal(told_so_far);
}

/// A further git package is installed.
proof fn lemma_told_git_kept_on(
    plan: Plan,
    turn: Turn,
    before: Seq<EffectView>,
    versions: Seq<VersionsView>,
    commits: Seq<CommitsView>,
    tried: Seq<Text>,
    ends: Seq<Outcome>,
)
    requires
        keeps_on(
            turn,
            Stage::InstallGit,
            git_tally(wanted(plan, versions).len(), tried, ends),
            registry_tally(wanted(plan, versions).len(), tried, ends),
        ),
        complaints(before) == report_of(
            registry_tally(wanted(plan, versions).len(), tried, ends).failed,
        ),
        tried.len() == ends.len(),
    ensures
        told_so_far(plan, turn.plan, before + turn.effects, versions, commits, tried, ends),
{
    reveal(told_so_far);
    reveal(keeps_on);
    lemma_together(before, turn.effects);
    assert(complaints(before) + complaints(turn.effects) =~= complaints(before));
}

/// The install of a git package ended.
proof fn lemma_told_ran_git(
    plan: Plan,
    now: Plan,
    before: Seq<EffectView>,
    versions: Seq<VersionsView>,
    commits: Seq<CommitsView>,
    tried: Seq<Text>,
    ends: Seq<Outcome>,
    outcome: Outcome,
)
    requires
        now.options == plan.options,
        plan.options.update,
        plan.options.update_git,
        now.stage is InstallGit,
        now.overall.consistent(),
        now.cursor < now.git_candidates.len(),
        wanted(plan, versions).len() <= tried.len(),
        told_so_far(plan, now, before, versions, commits, tried, ends),
    ensures
        told_so_far(
            plan,
            ran_git(now, outcome).plan,
            before + ran_git(now, outcome).effects,
            versions,
            commits,
            tried.push(now.git_candidates[now.cursor as int].name),
            ends.push(outcome),
        ),
{
    let name = now.git_candidates[now.cursor as int].name;
    let further = tried.push(name);
    let known_ends = ends.push(outcome);
    let turn = ran_git(now, outcome);
    lemma_told_at_install_git(plan, now, before, versions, commits, tried, ends);
    lemma_git_tally_push(wanted(plan, versions).len(), tried, ends, name, outcome);
    lemma_ran_git(now, before, outcome);
    if now.cursor + 1 < now.git_candidates.len() {
        lemma_told_git_kept_on(plan, turn, before, versions, commits, further, known_ends);
    } else {
        lemma_told_all_at_end(plan, turn, before, versions, commits, further, known_ends);
    }
}

/// An event that concerns a registry leads to nothing that is told, if it is no failure.
#[verifier::rlimit(40)]
proof fn lemma_registry_event(now: Plan, event: EventView)
    requires
        fits(now, event),
        event is Resolved || event is Located || event is Succeeded,
    ensures
        reply(now, event).effects.len() == 0,
        rank(reply(now, event).plan.stage) >= 4,
        rank(now.stage) >= 4,
{
    reveal(reply);
}

/// A run that waits for registries has told nothing.
proof fn lemma_told_at_registries(
    plan: Plan,
    now: Plan,
    before: Seq<EffectView>,
    versions: Seq<VersionsView>,
    commits: Seq<CommitsView>,
    tried: Seq<Text>,
    ends: Seq<Outcome>,
)
    requires
        rank(now.stage) >= 4,
        told_so_far(plan, now, before, versions, commits, tried, ends),
        installed_as_told(plan, now, versions, commits, tried),
    ensures
        before == Seq::<EffectView>::empty(),
        commits == Seq::<CommitsView>::empty(),
        tried == Seq::<Text>::empty(),
        ends == Seq::<Outcome>::empty(),
{
    reveal(told_so_far);
    assert(before =~= Seq::empty());
    assert(commits =~= Seq::empty());
    assert(tried =~= Seq::empty());
    assert(ends =~= Seq::empty());
}

/// How the installs ended.
spec fn ends_after(ends: Seq<Outcome>, event: EventView) -> Seq<Outcome> {
    match event {
        EventView::Ran { outcome } => ends.push(outcome),
        _ => ends,
    }
}

/// What a run has told goes with its state after each event but a failure.
#[verifier::rlimit(40)]
proof fn lemma_reply_told(
    plan: Plan,
    now: Plan,
    event: EventView,
    before: Seq<EffectView>,
    versions: Seq<VersionsView>,
    commits: Seq<CommitsView>,
    tried: Seq<Text>,
    ends: Seq<Outcome>,
)
    requires
        well_formed(now),
        fits(now, event),
        !(event is Failed),
        now.options == plan.options,
        now.config == plan.config,
        now.packages == plan.packages,
        installed_as_told(plan, now, versions, commits, tried),
        told_so_far(plan, now, before, versions, commits, tried, ends),
    ensures
        told_so_far(
            plan,
            reply(now, event).plan,
            before + reply(now, event).effects,
            versions_after(versions, event),
            commits_after(commits, event),
            tried_after(tried, now, event),
            ends_after(ends, event),
        ),
{
    let turn = reply(now, event);
    match event {
        EventView::Pulled { versions: more } => {
            lemma_told_at_registries(plan, now, before, versions, commits, tried, ends);
            lemma_told_pulled(plan, now, versions, more);
            assert(turn == pulled(now, more)) by {
                reveal(reply);
            }
            assert(before + turn.effects =~= turn.effects);
        },
        EventView::PulledCommits { commits: more } => {
            lemma_told_pulled_git(plan, now, before, versions, commits, more, tried, ends);
            assert(turn == pulled_git(now, more)) by {
                reveal(reply);
            }
        },
        EventView::Ran { outcome } => {
            if now.stage is Install {
                lemma_told_ran(plan, now, before, versions, commits, tried, ends, outcome);
                assert(turn == ran(now, outcome)) by {
                    reveal(reply);
                }
            } else {
                lemma_told_ran_git(plan, now, before, versions, commits, tried, ends, outcome);
                assert(turn == ran_git(now, outcome)) by {
                    reveal(reply);
                }
            }
        },
        _ => {
            lemma_registry_event(now, event);
            lemma_told_at_registries(plan, now, before, versions, commits, tried, ends);
            lemma_told_nothing_yet(plan, turn, versions);
            assert(before + turn.effects =~= turn.effects);
        },
    }
}

/// What a run has told after its first turn goes with its state.
proof fn lemma_first_told(plan: Plan)
    requires
        plan == fresh(plan.options, plan.config, plan.packages, plan.git_packages),
    ensures
        told_so_far(
            plan,
            started(plan).plan,
            started(plan).effects,
            Seq::empty(),
            Seq::empty(),
            Seq::empty(),
            Seq::empty(),
        ),
{
    if plan.packages.len() == 0 {
        assert(plan.candidates =~= known(plan.packages, Seq::empty()));
        lemma_told_listed(plan, plan, Seq::empty());
        assert(started(plan) == listed(plan)) by {
            reveal(started);
        }
    } else {
        assert(started(plan) == resolve_at(plan, 0)) by {
            reveal(started);
        }
        lemma_told_nothing_yet(plan, resolve_at(plan, 0), Seq::empty());
    }
}

/// What a run has told goes with its state, as long as its requests are met.
proof fn lemma_told(plan: Plan, events: Seq<EventView>)
    requires
        plan == fresh(plan.options, plan.config, plan.packages, plan.git_packages),
        answers(started(plan), events),
        !gave_up(events),
    ensures
        told_so_far(
            plan,
            course(started(plan), events).plan,
            course(started(plan), events).effects,
            versions_told(events),
            commits_told(events),
            attempted(started(plan), events),
            outcomes(events),
        ),
    decreases events.len(),
{
    let first = started(plan);
    if events.len() == 0 {
        lemma_first_told(plan);
    } else {
        let front = events.drop_last();
        let now = course(first, front).plan;
        if gave_up(front) {
            lemma_gave_up(first, front);
        }
        lemma_told(plan, front);
        lemma_started(plan, front);
        lemma_as_told(plan, front);
        lemma_reply_told(
            plan,
            now,
            events.last(),
            course(first, front).effects,
            versions_told(front),
            commits_told(front),
            attempted(first, front),
            outcomes(front),
        );
    }
}

/// The effect prints a table.
pub open spec fn is_table(effect: EffectView) -> bool {
    exists|rows: Seq<RowView>|
        effect == (EffectView::Print { text: #[trigger] tab_aligned(table(rows)) })
}

/// Effects that are tables, as far as they are printed.
proof fn lemma_tables(plan: Plan, versions: Seq<VersionsView>, commits: Seq<CommitsView>)
    ensures
        forall|i: int|
            0 <= i < printed(plan.options, registry_table(plan, versions)).len() ==> is_table(
                #[trigger] printed(plan.options, registry_table(plan, versions))[i],
            ),
        forall|i: int|
            0 <= i < listing(plan, versions, commits).len() ==> is_table(
                #[trigger] listing(plan, versions, commits)[i],
            ),
        plan.options.quiet ==> listing(plan, versions, commits).len() == 0,
{
    let rows = lazy_sorted(candidate_rows(plan.config, known(plan.packages, versions)));
    let git = lazy_sorted(git_rows(git_known(chosen_git(plan), commits)));
    assert(is_table(EffectView::Print { text: tab_aligned(table(rows)) }));
    assert(is_table(EffectView::Print { text: tab_aligned(table(git)) }));
}

/// Where updates are only listed, a run whose requests are met prints tables and has no other
/// effect, and none at all where the user asked for quiet. At its end it has shown the table of
/// the registry packages and then, where git packages are looked at, theirs.
pub proof fn lemma_only_tables(plan: Plan, events: Seq<EventView>)
    requires
        plan == fresh(plan.options, plan.config, plan.packages, plan.git_packages),
        answers(begin(plan), events),
        !plan.options.update,
        !gave_up(events),
    ensures
        forall|i: int|
            0 <= i < course(begin(plan), events).effects.len() ==> is_table(
                #[trigger] course(begin(plan), events).effects[i],
            ),
        plan.options.quiet ==> course(begin(plan), events).effects.len() == 0,
        course(begin(plan), events).request is Exit ==> course(begin(plan), events).effects
            == listing(plan, versions_told(events), commits_told(events)),
{
    assert(started(plan) == begin(plan)) by {
        reveal(started);
    }
    lemma_told(plan, events);
    lemma_started(plan, events);
    lemma_as_told(plan, events);
    lemma_tables(plan, versions_told(events), commits_told(events));
    reveal(told_so_far);
}

/// A run that installs updates and comes to its end without a request that could not be met
/// complains of the registry packages that failed, if any did, and then of the git packages that
/// failed, if any did. Where registry packages failed and git packages were updated after them,
/// it complains at last of all that failed. It complains of nothing else. Unless it ends before,
/// or the user asked for quiet, the last thing it prints is what was updated.
pub proof fn lemma_complaints(plan: Plan, events: Seq<EventView>)
    requires
        plan == fresh(plan.options, plan.config, plan.packages, plan.git_packages),
        answers(begin(plan), events),
        plan.options.update,
        course(begin(plan), events).request is Exit,
        !gave_up(events),
    ensures
        ({
            let count = wanted(plan, versions_told(events)).len() as int;
            let tried = attempted(begin(plan), events);
            let ends = outcomes(events);
            let failed = names_ending(tried.take(count), ends.take(count), false);
            let git_failed = names_ending(tried.skip(count), ends.skip(count), false);
            &&& tried.take(count) == candidate_names(wanted(plan, versions_told(events)))
            &&& tried.skip(count) == git_candidate_names(wanted_git(plan, commits_told(events)))
            &&& failed + git_failed == names_ending(tried, ends, false)
            &&& told_all(
                course(begin(plan), events).effects,
                plan.options,
                failed,
                git_failed,
                names_ending(tried, ends, true),
            )
        }),
{
    assert(started(plan) == begin(plan)) by {
        reveal(started);
    }
    let wanted_first = wanted(plan, versions_told(events));
    let count = wanted_first.len();
    let at = count as int;
    let tried = attempted(begin(plan), events);
    let ends = outcomes(events);
    lemma_told(plan, events);
    lemma_started(plan, events);
    lemma_as_told(plan, events);
    reveal(told_so_far);
    assert(tried.take(at) =~= candidate_names(wanted_first));
    assert(tried.skip(at) =~= git_candidate_names(wanted_git(plan, commits_told(events))));
    lemma_two_tallies(count, tried, ends);
    lemma_tally_of(tried, ends);
    lemma_tally_of(tried.take(at), ends.take(at));
    lemma_tally_of(tried.skip(at), ends.skip(at));
}

/// Where a request concerning a registry could not be met, the complaint of it is all that the
/// run tells.
pub proof fn lemma_only_complaint(plan: Plan, events: Seq<EventView>)
    requires
        plan == fresh(plan.options, plan.config, plan.packages, plan.git_packages),
        answers(begin(plan), events),
        gave_up(events),
    ensures
        course(begin(plan), events).effects == complained(
            complaint(course(begin(plan), events.drop_last()).plan, events.last()->reason),
        ),
{
    let first = started(plan);
    assert(first == begin(plan)) by {
        reveal(started);
    }
    let front = events.drop_last();
    let before = course(first, front);
    if gave_up(front) {
        lemma_gave_up(first, front);
    }
    lemma_told(plan, front);
    lemma_as_told(plan, front);
    lemma_told_at_registries(
        plan,
        before.plan,
        before.effects,
        versions_told(front),
        commits_told(front),
        attempted(first, front),
        outcomes(front),
    );
    lemma_failed_tells(before.plan, events.last());
    assert(before.effects + reply(before.plan, events.last()).effects =~= reply(
        before.plan,
        events.last(),
    ).effects);
}

/// The turn on a failure complains, and does nothing else.
proof fn lemma_failed_tells(now: Plan, event: EventView)
    requires
        event is Failed,
    ensures
        reply(now, event).effects == complained(complaint(now, event->reason)),
{
    reveal(reply);
    let said = complained(complaint(now, event->reason));
    assert(said + Seq::empty() =~= said);
}

/// At each stage of a run whose requests are met, its tallies are those of the installs so far.
pub(crate) proof fn lemma_tallies(plan: Plan, events: Seq<EventView>)
    requires
        plan == fresh(plan.options, plan.config, plan.packages, plan.git_packages),
        answers(started(plan), events),
        !gave_up(events),
    ensures
        ({
            let now = course(started(plan), events).plan;
            let count = wanted(plan, versions_told(events)).len();
            let tried = attempted(started(plan), events);
            let ends = outcomes(events);
            &&& tried.len() == ends.len()
            &&& now.stage is Install ==> now.tally == tally_of(tried, ends)
            &&& now.stage is PullGit ==> now.overall == tally_of(tried, ends)
            &&& now.stage is InstallGit ==> now.overall == registry_tally(count, tried, ends)
                && now.tally == git_tally(count, tried, ends)
        }),
{
    lemma_told(plan, events);
    reveal(told_so_far);
}

} // verus!
