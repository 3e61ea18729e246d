//! All that a run prints, complains of and changes, from its beginning to its end.

use vstd::prelude::*;
use crate::course::{answers, attempted, course, outcomes, rank, reply, well_formed};
use crate::executable::{ExecFileView, FileStepView};
use crate::options::OptionsView;
use crate::package::{CandidateView, CommitsView, GitCandidateView, VersionsView};
use crate::plan::{announcement, begin, begin_git, changed, complained, exit, finish, fits, fresh};
use crate::plan::{git_announcement, git_jobs};
use crate::plan::{git_restore_after, git_save_before, install_at, install_git_at, installed};
use crate::plan::{installed_git, jobs, listed, listed_git, printed, pull_at, pull_git_at, pulled};
use crate::plan::{pulled_git, ran, ran_git, resolve_at, restore_after, save_before, upgrade};
use crate::plan::{upgrade_git, Plan, Stage, Turn};
use crate::record::{candidate_names, chosen_git, commits_after, commits_told, gave_up};
use crate::record::{git_candidate_names, git_known, installed_as_told, known, lemma_as_told};
use crate::record::{lemma_gave_up, lemma_started, started, versions_after, versions_told};
use crate::record::{wanted, wanted_git};
use crate::report::{git_tally, git_table, lemma_tallies, registry_table, registry_tally};
use crate::select::selected_git;
use crate::step::{EffectView, EventView};
use crate::table::{candidate_rows, git_rows, lazy_sorted, tab_aligned, table};
use crate::tally::{failed_report, overall_failed, overall_updated, tally_of, updated_report};
use crate::tally::{Outcome, TallyView};
use crate::text::Text;

verus! {

/// A text that is printed unless the user asked for quiet.
pub open spec fn said(options: OptionsView, text: Text) -> Seq<EffectView> {
    if options.quiet {
        Seq::empty()
    } else {
        seq![EffectView::Print { text: text }]
    }
}

/// A complaint about packages, if there are any to complain of.
pub open spec fn blamed(failed: Seq<Text>, text: Text) -> Seq<EffectView> {
    if failed.len() > 0 {
        seq![EffectView::Complain { text: text }]
    } else {
        Seq::empty()
    }
}

/// The file that holds the executable of a version while it is being replaced.
pub open spec fn kept(version: Text) -> ExecFileView {
    ExecFileView::Saved { extension: "exe-v"@ + version }
}

/// This program is moved out of the way before it is replaced, on Windows.
pub open spec fn aside(options: OptionsView, name: Text, version: Text) -> Seq<EffectView> {
    if options.windows && name == "cargo-update"@ {
        seq![
            EffectView::File {
                step: FileStepView::Rename { from: ExecFileView::Current, to: kept(version) },
            },
            EffectView::File { step: FileStepView::Create { file: ExecFileView::Current } },
        ]
    } else {
        Seq::empty()
    }
}

/// This program is moved back where it could not be replaced, on Windows.
pub open spec fn back(
    options: OptionsView,
    name: Text,
    version: Text,
    outcome: Outcome,
) -> Seq<EffectView> {
    if options.windows && name == "cargo-update"@ && !outcome.success {
        seq![
            EffectView::File { step: FileStepView::Remove { file: ExecFileView::Current } },
            EffectView::File {
                step: FileStepView::Rename { from: kept(version), to: ExecFileView::Current },
            },
        ]
    } else {
        Seq::empty()
    }
}

/// What happens before a registry package is installed.
pub open spec fn opening(options: OptionsView, job: CandidateView) -> Seq<EffectView> {
    match job.versions.installed {
        Some(version) => said(options, "Updating "@ + job.name + "\n"@) + aside(
            options,
            job.name,
            version,
        ),
        None => said(options, "Installing "@ + job.name + "\n"@),
    }
}

/// What happens after a registry package was installed or not.
pub open spec fn closing(options: OptionsView, job: CandidateView, outcome: Outcome) -> Seq<
    EffectView,
> {
    match job.versions.installed {
        Some(version) => said(options, "\n"@) + back(options, job.name, version, outcome),
        None => said(options, "\n"@),
    }
}

/// What happens before a git package is installed.
pub open spec fn git_opening(options: OptionsView, job: GitCandidateView) -> Seq<EffectView> {
    said(options, "Updating "@ + job.name + " from "@ + job.commits.url + "\n"@) + aside(
        options,
        job.name,
        job.commits.id,
    )
}

/// What happens after a git package was installed or not.
pub open spec fn git_closing(
    options: OptionsView,
    job: GitCandidateView,
    outcome: Outcome,
) -> Seq<EffectView> {
    said(options, "\n"@) + back(options, job.name, job.commits.id, outcome)
}

/// The installs of registry packages, one after the other.
pub open spec fn installs(
    options: OptionsView,
    jobs: Seq<CandidateView>,
    ends: Seq<Outcome>,
) -> Seq<EffectView>
    decreases ends.len(),
{
    if ends.len() == 0 {
        Seq::empty()
    } else {
        installs(options, jobs.drop_last(), ends.drop_last()) + (opening(options, jobs.last())
            + closing(options, jobs.last(), ends.last()))
    }
}

/// The installs of git packages, one after the other.
pub open spec fn git_installs(
    options: OptionsView,
    jobs: Seq<GitCandidateView>,
    ends: Seq<Outcome>,
) -> Seq<EffectView>
    decreases ends.len(),
{
    if ends.len() == 0 {
        Seq::empty()
    } else {
        git_installs(options, jobs.drop_last(), ends.drop_last()) + (git_opening(
            options,
            jobs.last(),
        ) + git_closing(options, jobs.last(), ends.last()))
    }
}

/// What is said of the packages of a kind once they are installed.
pub open spec fn counted(options: OptionsView, kind: Text, tally: TallyView) -> Seq<EffectView> {
    said(options, updated_report(kind, tally.updated.len())) + blamed(
        tally.failed,
        failed_report(tally.failed),
    )
}

/// What is said of all packages at the end.
pub open spec fn summed_up(options: OptionsView, tally: TallyView) -> Seq<EffectView> {
    if options.update {
        said(options, overall_updated(tally.updated)) + blamed(
            tally.failed,
            overall_failed(tally.failed),
        )
    } else {
        Seq::empty()
    }
}

/// The part of the registry packages: their table and, where updates are installed, how that
/// went.
pub open spec fn registry_part(
    plan: Plan,
    versions: Seq<VersionsView>,
    ends: Seq<Outcome>,
) -> Seq<EffectView> {
    let jobs = wanted(plan, versions);
    said(plan.options, registry_table(plan, versions)) + (if !plan.options.update {
        Seq::empty()
    } else if jobs.len() == 0 {
        said(plan.options, "No packages need updating.\n"@)
    } else {
        installs(plan.options, jobs, ends) + counted(
            plan.options,
            "package"@,
            tally_of(candidate_names(jobs), ends),
        )
    })
}

/// The part of the git packages, where they are looked at: their table and, where updates are
/// installed, how that went.
pub open spec fn git_part(plan: Plan, commits: Seq<CommitsView>, ends: Seq<Outcome>) -> Seq<
    EffectView,
> {
    let jobs = wanted_git(plan, commits);
    if !plan.options.update_git {
        Seq::empty()
    } else {
        said(plan.options, git_table(plan, commits)) + (if !plan.options.update {
            Seq::empty()
        } else if jobs.len() == 0 {
            said(plan.options, "No git packages need updating.\n"@)
        } else {
            git_installs(plan.options, jobs, ends) + counted(
                plan.options,
                "git package"@,
                tally_of(git_candidate_names(jobs), ends),
            )
        })
    }
}

/// All that a run does that ends without a request that could not be met. It stops short after
/// registry packages that failed where no git packages are to come, and after git packages that
/// failed where no registry package did.
pub open spec fn story(
    plan: Plan,
    versions: Seq<VersionsView>,
    commits: Seq<CommitsView>,
    ends: Seq<Outcome>,
) -> Seq<EffectView> {
    let count = wanted(plan, versions).len() as int;
    let first = tally_of(candidate_names(wanted(plan, versions)), ends.take(count));
    let second = tally_of(git_candidate_names(wanted_git(plan, commits)), ends.skip(count));
    registry_part(plan, versions, ends.take(count)) + (if first.failed.len() > 0
        && !plan.options.update_git {
        Seq::empty()
    } else {
        git_part(plan, commits, ends.skip(count)) + (if first.failed.len() == 0
            && second.failed.len() > 0 {
            Seq::empty()
        } else {
            summed_up(plan.options, first.followed_by(second))
        })
    })
}

/// The turn has these effects. Most proofs keep it folded.
#[verifier::opaque]
spec fn tells(turn: Turn, effects: Seq<EffectView>) -> bool {
    turn.effects == effects
}

/// Effects before a turn come before its own.
proof fn lemma_tells_after(
    turn: Turn,
    effects: Seq<EffectView>,
    ahead: Seq<EffectView>,
    known: Seq<EffectView>,
)
    requires
        tells(turn, effects),
        ahead == known,
    ensures
        tells(turn.after(ahead), known + effects),
{
    reveal(tells);
}

/// A turn that only waits tells nothing.
proof fn lemma_tells_nothing(turn: Turn)
    requires
        turn.effects == Seq::<EffectView>::empty(),
    ensures
        tells(turn, Seq::empty()),
{
    reveal(tells);
}

/// What a turn tells, put differently.
proof fn lemma_tells_same(turn: Turn, effects: Seq<EffectView>, other: Seq<EffectView>)
    requires
        tells(turn, effects),
        effects == other,
    ensures
        tells(turn, other),
{
}

/// What happens before and after an install of a registry package.
proof fn lemma_install_effects(options: OptionsView, job: CandidateView, outcome: Outcome)
    ensures
        printed(options, announcement(job)) + changed(save_before(options, job))
            == opening(options, job),
        printed(options, "\n"@) + changed(restore_after(options, job, outcome)) == closing(
            options,
            job,
            outcome,
        ),
{
    assert(printed(options, announcement(job)) + changed(save_before(options, job))
        =~= opening(options, job));
    assert(printed(options, "\n"@) + changed(restore_after(options, job, outcome)) =~= closing(
        options,
        job,
        outcome,
    ));
}

/// What happens before and after an install of a git package.
proof fn lemma_git_install_effects(options: OptionsView, job: GitCandidateView, outcome: Outcome)
    ensures
        printed(options, git_announcement(job)) + changed(
            git_save_before(options, job),
        ) == git_opening(options, job),
        printed(options, "\n"@) + changed(git_restore_after(options, job, outcome)) == git_closing(
            options,
            job,
            outcome,
        ),
{
    assert(printed(options, git_announcement(job)) + changed(
        git_save_before(options, job),
    ) =~= git_opening(options, job));
    assert(printed(options, "\n"@) + changed(git_restore_after(options, job, outcome))
        =~= git_closing(options, job, outcome));
}

/// The end of a run.
proof fn lemma_finish(plan: Plan)
    ensures
        tells(finish(plan), summed_up(plan.options, plan.overall)),
        finish(plan).plan.stage is Done,
{
    reveal(tells);
    assert(finish(plan).effects =~= summed_up(plan.options, plan.overall));
}

/// The install of a git package.
proof fn lemma_install_git(plan: Plan, at: nat)
    ensures
        tells(install_git_at(plan, at), git_opening(plan.options, plan.git_candidates[at as int])),
        install_git_at(plan, at).plan.stage is InstallGit,
{
    let job = plan.git_candidates[at as int];
    lemma_git_install_effects(plan.options, job, arbitrary());
    reveal(tells);
    assert(install_git_at(plan, at).effects =~= git_opening(plan.options, job));
}

/// The install of a registry package.
proof fn lemma_install(plan: Plan, at: nat)
    ensures
        tells(install_at(plan, at), opening(plan.options, plan.candidates[at as int])),
        install_at(plan, at).plan.stage is Install,
{
    let job = plan.candidates[at as int];
    lemma_install_effects(plan.options, job, arbitrary());
    reveal(tells);
    assert(install_at(plan, at).effects =~= opening(plan.options, job));
}

/// What is said where there is nothing to install, and at the end.
spec fn idle(options: OptionsView, text: Text, overall: TallyView) -> Seq<EffectView> {
    if options.update {
        said(options, text) + summed_up(options, overall)
    } else {
        Seq::empty()
    }
}

/// What is to be installed of the git packages is chosen.
proof fn lemma_upgrade_git(plan: Plan)
    ensures
        ({
            let due = git_jobs(plan.options, plan.git_candidates);
            &&& plan.options.update && due.len() > 0 ==> tells(
                upgrade_git(plan),
                git_opening(plan.options, due[0]),
            )
            &&& !(plan.options.update && due.len() > 0) ==> tells(
                upgrade_git(plan),
                idle(plan.options, "No git packages need updating.\n"@, plan.overall),
            )
        }),
{
    let begun = Plan { git_candidates: git_jobs(plan.options, plan.git_candidates), ..plan };
    let text = "No git packages need updating.\n"@;
    if !plan.options.update {
        lemma_finish(plan);
    } else if begun.git_candidates.len() == 0 {
        lemma_finish(begun);
        lemma_tells_after(
            finish(begun),
            summed_up(plan.options, plan.overall),
            printed(plan.options, text),
            said(plan.options, text),
        );
    } else {
        lemma_install_git(Plan { tally: TallyView::empty(), ..begun }, 0);
    }
}

/// The table of these git packages.
spec fn table_of_git(candidates: Seq<GitCandidateView>) -> Text {
    tab_aligned(table(lazy_sorted(git_rows(candidates))))
}

/// The commits of the git packages are known.
proof fn lemma_listed_git(plan: Plan)
    ensures
        ({
            let due = git_jobs(plan.options, plan.git_candidates);
            let shown = said(plan.options, table_of_git(plan.git_candidates));
            &&& plan.options.update && due.len() > 0 ==> tells(
                listed_git(plan),
                shown + git_opening(plan.options, due[0]),
            )
            &&& !(plan.options.update && due.len() > 0) ==> tells(
                listed_git(plan),
                shown + idle(plan.options, "No git packages need updating.\n"@, plan.overall),
            )
        }),
{
    let due = git_jobs(plan.options, plan.git_candidates);
    let text = table_of_git(plan.git_candidates);
    lemma_upgrade_git(plan);
    lemma_tells_after(
        upgrade_git(plan),
        if plan.options.update && due.len() > 0 {
            git_opening(plan.options, due[0])
        } else {
            idle(plan.options, "No git packages need updating.\n"@, plan.overall)
        },
        printed(plan.options, text),
        said(plan.options, text),
    );
}

/// What follows the registry packages where there are no git packages to look at.
spec fn without_git(options: OptionsView, overall: TallyView) -> Seq<EffectView> {
    if options.update_git {
        said(options, table_of_git(Seq::empty())) + idle(
            options,
            "No git packages need updating.\n"@,
            overall,
        )
    } else {
        summed_up(options, overall)
    }
}

/// Of no git packages none are to be installed.
proof fn lemma_no_git_jobs(options: OptionsView)
    ensures
        git_jobs(options, Seq::empty()).len() == 0,
{
    reveal(Seq::filter);
}

/// The registry packages are done with.
proof fn lemma_begin_git(plan: Plan)
    ensures
        ({
            let chosen = selected_git(plan.options, plan.config, plan.git_packages);
            &&& plan.options.update_git && chosen.len() > 0 ==> {
                &&& tells(begin_git(plan), Seq::empty())
                &&& begin_git(plan).plan.stage is PullGit
            }
            &&& !(plan.options.update_git && chosen.len() > 0) ==> tells(
                begin_git(plan),
                without_git(plan.options, plan.overall),
            )
        }),
{
    let chosen = selected_git(plan.options, plan.config, plan.git_packages);
    let begun = Plan { git_packages: chosen, git_candidates: Seq::empty(), ..plan };
    if !plan.options.update_git {
        lemma_finish(plan);
    } else if chosen.len() == 0 {
        lemma_no_git_jobs(plan.options);
        lemma_listed_git(begun);
    } else {
        lemma_tells_nothing(pull_git_at(begun, 0));
    }
}

/// What follows when the registry packages are done with.
spec fn follows(plan: Plan) -> Seq<EffectView> {
    if plan.options.update_git && selected_git(
        plan.options,
        plan.config,
        plan.git_packages,
    ).len() > 0 {
        Seq::empty()
    } else {
        without_git(plan.options, plan.overall)
    }
}

/// What is said where there is nothing to install from registries.
spec fn idle_first(options: OptionsView) -> Seq<EffectView> {
    if options.update {
        said(options, "No packages need updating.\n"@)
    } else {
        Seq::empty()
    }
}

/// What is to be installed of the registry packages is chosen.
proof fn lemma_upgrade(plan: Plan)
    ensures
        ({
            let due = jobs(plan.options, plan.candidates);
            &&& plan.options.update && due.len() > 0 ==> tells(
                upgrade(plan),
                opening(plan.options, due[0]),
            )
            &&& !(plan.options.update && due.len() > 0) ==> tells(
                upgrade(plan),
                idle_first(plan.options) + follows(plan),
            )
        }),
{
    let begun = Plan { candidates: jobs(plan.options, plan.candidates), ..plan };
    let text = "No packages need updating.\n"@;
    if !plan.options.update {
        lemma_begin_git(plan);
        assert(idle_first(plan.options) + follows(plan) =~= follows(plan));
        lemma_tells_same(
            begin_git(plan),
            follows(plan),
            idle_first(plan.options) + follows(plan),
        );
    } else if begun.candidates.len() == 0 {
        lemma_begin_git(begun);
        assert(follows(begun) == follows(plan));
        lemma_tells_after(
            begin_git(begun),
            follows(plan),
            printed(plan.options, text),
            said(plan.options, text),
        );
    } else {
        lemma_install(Plan { tally: TallyView::empty(), ..begun }, 0);
    }
}

/// The table of these registry packages.
spec fn table_of(plan: Plan) -> Text {
    tab_aligned(table(lazy_sorted(candidate_rows(plan.config, plan.candidates))))
}

/// The versions of the registry packages are known.
proof fn lemma_listed(plan: Plan)
    ensures
        ({
            let due = jobs(plan.options, plan.candidates);
            let shown = said(plan.options, table_of(plan));
            &&& plan.options.update && due.len() > 0 ==> tells(
                listed(plan),
                shown + opening(plan.options, due[0]),
            )
            &&& !(plan.options.update && due.len() > 0) ==> tells(
                listed(plan),
                shown + (idle_first(plan.options) + follows(plan)),
            )
        }),
{
    let due = jobs(plan.options, plan.candidates);
    lemma_upgrade(plan);
    lemma_tells_after(
        upgrade(plan),
        if plan.options.update && due.len() > 0 {
            opening(plan.options, due[0])
        } else {
            idle_first(plan.options) + follows(plan)
        },
        printed(plan.options, table_of(plan)),
        said(plan.options, table_of(plan)),
    );
}

/// The end of the program tells nothing.
proof fn lemma_exit(plan: Plan, code: i32)
    ensures
        tells(exit(plan, code), Seq::empty()),
{
    lemma_tells_nothing(exit(plan, code));
}

/// What is said of the packages of a kind.
proof fn lemma_counted(options: OptionsView, kind: Text, tally: TallyView)
    ensures
        ({
            let text = updated_report(kind, tally.updated.len());
            let report = failed_report(tally.failed);
            &&& tally.failed.len() > 0 ==> printed(options, text) + complained(report) == counted(
                options,
                kind,
                tally,
            )
            &&& tally.failed.len() == 0 ==> printed(options, text) == counted(options, kind, tally)
        }),
{
    let text = updated_report(kind, tally.updated.len());
    assert(said(options, text) + Seq::empty() =~= said(options, text));
}

/// What follows the installs of registry packages.
spec fn after_installs(plan: Plan) -> Seq<EffectView> {
    counted(plan.options, "package"@, plan.tally) + (if plan.tally.failed.len() > 0
        && !plan.options.update_git {
        Seq::empty()
    } else {
        follows(Plan { overall: plan.tally, ..plan })
    })
}

/// The registry packages are installed.
proof fn lemma_installed(plan: Plan)
    ensures
        tells(installed(plan), after_installs(plan)),
{
    let tally = plan.tally;
    let ended = Plan { overall: tally, ..plan };
    let text = updated_report("package"@, tally.updated.len());
    let ahead = if tally.failed.len() > 0 {
        printed(plan.options, text) + complained(failed_report(tally.failed))
    } else {
        printed(plan.options, text)
    };
    lemma_counted(plan.options, "package"@, tally);
    if tally.failed.len() > 0 && !plan.options.update_git {
        let code = tally.code->0;
        lemma_exit(ended, code);
        lemma_tells_after(
            exit(ended, code),
            Seq::empty(),
            ahead,
            counted(plan.options, "package"@, tally),
        );
    } else {
        lemma_begin_git(ended);
        lemma_tells_after(
            begin_git(ended),
            follows(ended),
            ahead,
            counted(plan.options, "package"@, tally),
        );
    }
}

/// What follows the installs of git packages.
spec fn after_git_installs(plan: Plan) -> Seq<EffectView> {
    counted(plan.options, "git package"@, plan.tally) + (if plan.tally.failed.len() > 0
        && plan.overall.code is None {
        Seq::empty()
    } else {
        summed_up(plan.options, plan.overall.followed_by(plan.tally))
    })
}

/// The git packages are installed.
proof fn lemma_installed_git(plan: Plan)
    ensures
        tells(installed_git(plan), after_git_installs(plan)),
{
    let tally = plan.tally;
    let ended = Plan { overall: plan.overall.followed_by(tally), ..plan };
    let text = updated_report("git package"@, tally.updated.len());
    let ahead = if tally.failed.len() > 0 {
        printed(plan.options, text) + complained(failed_report(tally.failed))
    } else {
        printed(plan.options, text)
    };
    lemma_counted(plan.options, "git package"@, tally);
    if tally.failed.len() > 0 && plan.overall.code is None {
        let code = tally.code->0;
        lemma_exit(ended, code);
        lemma_tells_after(
            exit(ended, code),
            Seq::empty(),
            ahead,
            counted(plan.options, "git package"@, tally),
        );
    } else {
        lemma_finish(ended);
        lemma_tells_after(
            finish(ended),
            summed_up(plan.options, ended.overall),
            ahead,
            counted(plan.options, "git package"@, tally),
        );
    }
}

/// The install of a registry package ended.
proof fn lemma_ran(now: Plan, outcome: Outcome)
    ensures
        ({
            let job = now.candidates[now.cursor as int];
            let further = Plan { tally: now.tally.with(job.name, outcome), ..now };
            tells(
                ran(now, outcome),
                closing(now.options, job, outcome) + (if now.cursor + 1 < now.candidates.len() {
                    opening(now.options, now.candidates[now.cursor as int + 1])
                } else {
                    after_installs(further)
                }),
            )
        }),
{
    let job = now.candidates[now.cursor as int];
    let further = Plan { tally: now.tally.with(job.name, outcome), ..now };
    let ahead = printed(now.options, "\n"@) + changed(restore_after(now.options, job, outcome));
    lemma_install_effects(now.options, job, outcome);
    if now.cursor + 1 < now.candidates.len() {
        lemma_install(further, now.cursor + 1);
        lemma_tells_after(
            install_at(further, now.cursor + 1),
            opening(now.options, now.candidates[now.cursor as int + 1]),
            ahead,
            closing(now.options, job, outcome),
        );
    } else {
        lemma_installed(further);
        lemma_tells_after(
            installed(further),
            after_installs(further),
            ahead,
            closing(now.options, job, outcome),
        );
    }
}

/// The install of a git package ended.
proof fn lemma_ran_git(now: Plan, outcome: Outcome)
    ensures
        ({
            let job = now.git_candidates[now.cursor as int];
            let further = Plan { tally: now.tally.with(job.name, outcome), ..now };
            tells(
                ran_git(now, outcome),
                git_closing(now.options, job, outcome) + (if now.cursor + 1
                    < now.git_candidates.len() {
                    git_opening(now.options, now.git_candidates[now.cursor as int + 1])
                } else {
                    after_git_installs(further)
                }),
            )
        }),
{
    let job = now.git_candidates[now.cursor as int];
    let further = Plan { tally: now.tally.with(job.name, outcome), ..now };
    let ahead = printed(now.options, "\n"@) + changed(
        git_restore_after(now.options, job, outcome),
    );
    lemma_git_install_effects(now.options, job, outcome);
    if now.cursor + 1 < now.git_candidates.len() {
        lemma_install_git(further, now.cursor + 1);
        lemma_tells_after(
            install_git_at(further, now.cursor + 1),
            git_opening(now.options, now.git_candidates[now.cursor as int + 1]),
            ahead,
            git_closing(now.options, job, outcome),
        );
    } else {
        lemma_installed_git(further);
        lemma_tells_after(
            installed_git(further),
            after_git_installs(further),
            ahead,
            git_closing(now.options, job, outcome),
        );
    }
}

/// What a run has done goes with its state. Most proofs keep it folded.
#[verifier::opaque]
spec fn story_so_far(
    plan: Plan,
    now: Plan,
    effects: Seq<EffectView>,
    versions: Seq<VersionsView>,
    commits: Seq<CommitsView>,
    ends: Seq<Outcome>,
) -> bool {
    let first = wanted(plan, versions);
    let second = wanted_git(plan, commits);
    let count = first.len() as int;
    let at = now.cursor as int;
    match now.stage {
        Stage::Install => {
            &&& ends.len() == at
            &&& effects == said(plan.options, registry_table(plan, versions)) + (installs(
                plan.options,
                first.take(at),
                ends,
            ) + opening(plan.options, first[at]))
        },
        Stage::PullGit => {
            &&& ends.len() == count
            &&& effects == registry_part(plan, versions, ends)
        },
        Stage::InstallGit => {
            &&& ends.len() == count + at
            &&& effects == registry_part(plan, versions, ends.take(count)) + (said(
                plan.options,
                git_table(plan, commits),
            ) + (git_installs(plan.options, second.take(at), ends.skip(count)) + git_opening(
                plan.options,
                second[at],
            )))
        },
        Stage::Done => effects == story(plan, versions, commits, ends),
        _ => effects.len() == 0 && ends.len() == 0,
    }
}

/// A first registry package is installed.
proof fn lemma_story_set_out(
    plan: Plan,
    turn: Turn,
    versions: Seq<VersionsView>,
    commits: Seq<CommitsView>,
)
    requires
        turn.plan.stage is Install,
        turn.plan.cursor == 0,
        wanted(plan, versions).len() > 0,
        tells(
            turn,
            said(plan.options, registry_table(plan, versions)) + opening(
                plan.options,
                wanted(plan, versions)[0],
            ),
        ),
    ensures
        story_so_far(plan, turn.plan, turn.effects, versions, commits, Seq::empty()),
{
    reveal(story_so_far);
    reveal(tells);
    let first = opening(plan.options, wanted(plan, versions)[0]);
    let none = installs(plan.options, wanted(plan, versions).take(0), Seq::empty());
    assert(none + first =~= first);
}

/// Nothing was to be installed from registries, and git packages follow.
proof fn lemma_story_goes_on(
    plan: Plan,
    turn: Turn,
    versions: Seq<VersionsView>,
    commits: Seq<CommitsView>,
)
    requires
        turn.plan.stage is PullGit,
        wanted(plan, versions).len() == 0,
        tells(
            turn,
            said(plan.options, registry_table(plan, versions)) + (idle_first(plan.options)
                + Seq::empty()),
        ),
    ensures
        story_so_far(plan, turn.plan, turn.effects, versions, commits, Seq::empty()),
{
    reveal(story_so_far);
    reveal(tells);
    assert(idle_first(plan.options) + Seq::empty() =~= idle_first(plan.options));
}

/// What follows the registry packages, as part of the whole.
proof fn lemma_without_git(plan: Plan, overall: TallyView)
    requires
        chosen_git(plan).len() == 0,
    ensures
        git_part(plan, Seq::empty(), Seq::empty()) + summed_up(plan.options, overall)
            == without_git(plan.options, overall),
        wanted_git(plan, Seq::empty()).len() == 0,
{
    let none = Seq::<CommitsView>::empty();
    assert(git_known(chosen_git(plan), none) =~= Seq::empty());
    lemma_no_git_jobs(plan.options);
    assert(git_part(plan, none, Seq::empty()) + summed_up(plan.options, overall) =~= without_git(
        plan.options,
        overall,
    ));
}

/// A tally followed by nothing stays as it is.
proof fn lemma_followed_by_nothing(tally: TallyView)
    ensures
        tally.followed_by(TallyView::empty()) == tally,
{
    assert(tally.followed_by(TallyView::empty()) =~= tally);
}

/// The run ends without git packages.
proof fn lemma_story_without_git(
    plan: Plan,
    versions: Seq<VersionsView>,
    ends: Seq<Outcome>,
    overall: TallyView,
)
    requires
        chosen_git(plan).len() == 0,
        ends.len() == wanted(plan, versions).len(),
        overall == tally_of(candidate_names(wanted(plan, versions)), ends),
    ensures
        story(plan, versions, Seq::empty(), ends) == registry_part(plan, versions, ends) + (
        if overall.failed.len() > 0 && !plan.options.update_git {
            Seq::empty()
        } else {
            without_git(plan.options, overall)
        }),
{
    let count = wanted(plan, versions).len() as int;
    lemma_without_git(plan, overall);
    lemma_followed_by_nothing(overall);
    assert(ends.take(count) =~= ends);
    assert(ends.skip(count) =~= Seq::empty());
}

/// The run ends without having installed anything.
proof fn lemma_story_idle(plan: Plan, turn: Turn, versions: Seq<VersionsView>)
    requires
        turn.plan.stage is Done,
        chosen_git(plan).len() == 0,
        wanted(plan, versions).len() == 0,
        tells(
            turn,
            said(plan.options, registry_table(plan, versions)) + (idle_first(plan.options)
                + without_git(plan.options, TallyView::empty())),
        ),
    ensures
        story_so_far(plan, turn.plan, turn.effects, versions, Seq::empty(), Seq::empty()),
{
    reveal(story_so_far);
    reveal(tells);
    let ends = Seq::<Outcome>::empty();
    lemma_story_without_git(plan, versions, ends, TallyView::empty());
    let shown = said(plan.options, registry_table(plan, versions));
    let tail = without_git(plan.options, TallyView::empty());
    assert(registry_part(plan, versions, ends) == shown + idle_first(plan.options));
    assert(shown + (idle_first(plan.options) + tail) =~= (shown + idle_first(plan.options))
        + tail);
}

/// The versions of the registry packages are known.
proof fn lemma_story_listed(plan: Plan, now: Plan, versions: Seq<VersionsView>)
    requires
        now.options == plan.options,
        now.config == plan.config,
        now.git_packages == plan.git_packages,
        now.candidates == known(plan.packages, versions),
        now.overall == TallyView::empty(),
    ensures
        story_so_far(
            plan,
            listed(now).plan,
            listed(now).effects,
            versions,
            Seq::empty(),
            Seq::empty(),
        ),
{
    let turn = listed(now);
    let none = Seq::<CommitsView>::empty();
    lemma_listed(now);
    lemma_listed_stage(now);
    assert(table_of(now) == registry_table(plan, versions));
    if plan.options.update && jobs(plan.options, now.candidates).len() > 0 {
        lemma_story_set_out(plan, turn, versions, none);
    } else {
        assert(wanted(plan, versions).len() == 0);
        if chosen_git(plan).len() > 0 {
            lemma_story_goes_on(plan, turn, versions, none);
        } else {
            lemma_story_idle(plan, turn, versions);
        }
    }
}

/// Where the turn leads when the versions of the registry packages are known.
proof fn lemma_listed_stage(plan: Plan)
    ensures
        ({
            let turn = listed(plan);
            let chosen = selected_git(plan.options, plan.config, plan.git_packages);
            if plan.options.update && jobs(plan.options, plan.candidates).len() > 0 {
                turn.plan.stage is Install && turn.plan.cursor == 0
            } else if plan.options.update_git && chosen.len() > 0 {
                turn.plan.stage is PullGit
            } else {
                turn.plan.stage is Done
            }
        }),
{
    lemma_no_git_jobs(plan.options);
    let begun = Plan { candidates: jobs(plan.options, plan.candidates), ..plan };
    lemma_begin_git_stage(plan);
    lemma_begin_git_stage(begun);
}

/// Where the turn leads when the registry packages are done with.
proof fn lemma_begin_git_stage(plan: Plan)
    ensures
        ({
            let chosen = selected_git(plan.options, plan.config, plan.git_packages);
            if plan.options.update_git && chosen.len() > 0 {
                begin_git(plan).plan.stage is PullGit
            } else {
                begin_git(plan).plan.stage is Done
            }
        }),
{
    lemma_no_git_jobs(plan.options);
}

/// One more install of a registry package.
proof fn lemma_installs_push(
    options: OptionsView,
    jobs: Seq<CandidateView>,
    ends: Seq<Outcome>,
    outcome: Outcome,
)
    requires
        ends.len() < jobs.len(),
    ensures
        installs(options, jobs.take(ends.len() as int + 1), ends.push(outcome)) == installs(
            options,
            jobs.take(ends.len() as int),
            ends,
        ) + (opening(options, jobs[ends.len() as int]) + closing(
            options,
            jobs[ends.len() as int],
            outcome,
        )),
{
    let at = ends.len() as int;
    assert(jobs.take(at + 1).drop_last() =~= jobs.take(at));
    assert(ends.push(outcome).drop_last() =~= ends);
}

/// One more install of a git package.
proof fn lemma_git_installs_push(
    options: OptionsView,
    jobs: Seq<GitCandidateView>,
    ends: Seq<Outcome>,
    outcome: Outcome,
)
    requires
        ends.len() < jobs.len(),
    ensures
        git_installs(options, jobs.take(ends.len() as int + 1), ends.push(outcome))
            == git_installs(options, jobs.take(ends.len() as int), ends) + (git_opening(
            options,
            jobs[ends.len() as int],
        ) + git_closing(options, jobs[ends.len() as int], outcome)),
{
    let at = ends.len() as int;
    assert(jobs.take(at + 1).drop_last() =~= jobs.take(at));
    assert(ends.push(outcome).drop_last() =~= ends);
}

/// Effects in the order in which they come, however they are put together.
proof fn lemma_regrouped(
    shown: Seq<EffectView>,
    done: Seq<EffectView>,
    open: Seq<EffectView>,
    close: Seq<EffectView>,
    next: Seq<EffectView>,
)
    ensures
        (shown + (done + open)) + (close + next) == shown + ((done + (open + close)) + next),
{
    assert((shown + (done + open)) + (close + next) =~= shown + ((done + (open + close)) + next));
}

/// A further registry package is installed.
proof fn lemma_story_kept_on(
    plan: Plan,
    now: Plan,
    turn: Turn,
    before: Seq<EffectView>,
    versions: Seq<VersionsView>,
    commits: Seq<CommitsView>,
    ends: Seq<Outcome>,
    outcome: Outcome,
)
    requires
        now.stage is Install,
        story_so_far(plan, now, before, versions, commits, ends),
        now.cursor + 1 < wanted(plan, versions).len(),
        turn.plan.stage is Install,
        turn.plan.cursor == now.cursor + 1,
        tells(
            turn,
            closing(plan.options, wanted(plan, versions)[now.cursor as int], outcome) + opening(
                plan.options,
                wanted(plan, versions)[now.cursor as int + 1],
            ),
        ),
    ensures
        story_so_far(
            plan,
            turn.plan,
            before + turn.effects,
            versions,
            commits,
            ends.push(outcome),
        ),
{
    reveal(story_so_far);
    reveal(tells);
    let jobs = wanted(plan, versions);
    let at = now.cursor as int;
    lemma_installs_push(plan.options, jobs, ends, outcome);
    lemma_regrouped(
        said(plan.options, registry_table(plan, versions)),
        installs(plan.options, jobs.take(at), ends),
        opening(plan.options, jobs[at]),
        closing(plan.options, jobs[at], outcome),
        opening(plan.options, jobs[at + 1]),
    );
}

/// The part of the registry packages is complete.
proof fn lemma_registry_part_done(
    plan: Plan,
    now: Plan,
    before: Seq<EffectView>,
    versions: Seq<VersionsView>,
    commits: Seq<CommitsView>,
    ends: Seq<Outcome>,
    outcome: Outcome,
    tail: Seq<EffectView>,
)
    requires
        plan.options.update,
        now.stage is Install,
        story_so_far(plan, now, before, versions, commits, ends),
        now.cursor + 1 == wanted(plan, versions).len(),
    ensures
        ends.len() == now.cursor,
        ({
            let jobs = wanted(plan, versions);
            let tally = tally_of(candidate_names(jobs), ends.push(outcome));
            before + (closing(plan.options, jobs[now.cursor as int], outcome) + (counted(
                plan.options,
                "package"@,
                tally,
            ) + tail)) == registry_part(plan, versions, ends.push(outcome)) + tail
        }),
{
    reveal(story_so_far);
    let jobs = wanted(plan, versions);
    let at = now.cursor as int;
    let tally = tally_of(candidate_names(jobs), ends.push(outcome));
    let said_of = counted(plan.options, "package"@, tally);
    let shown = said(plan.options, registry_table(plan, versions));
    let done = installs(plan.options, jobs.take(at), ends);
    let open = opening(plan.options, jobs[at]);
    let close = closing(plan.options, jobs[at], outcome);
    lemma_installs_push(plan.options, jobs, ends, outcome);
    assert(jobs.take(at + 1) =~= jobs);
    lemma_regrouped(shown, done, open, close, said_of + tail);
    let whole = installs(plan.options, jobs, ends.push(outcome));
    assert(shown + (whole + (said_of + tail)) =~= (shown + (whole + said_of)) + tail);
}

/// The install of a registry package ended.
proof fn lemma_story_ran(
    plan: Plan,
    now: Plan,
    before: Seq<EffectView>,
    versions: Seq<VersionsView>,
    ends: Seq<Outcome>,
    outcome: Outcome,
)
    requires
        now.options == plan.options,
        now.config == plan.config,
        now.git_packages == plan.git_packages,
        plan.options.update,
        now.stage is Install,
        now.cursor < now.candidates.len(),
        now.candidates == wanted(plan, versions),
        now.tally == tally_of(candidate_names(now.candidates).take(now.cursor as int), ends),
        story_so_far(plan, now, before, versions, Seq::empty(), ends),
    ensures
        story_so_far(
            plan,
            ran(now, outcome).plan,
            before + ran(now, outcome).effects,
            versions,
            Seq::empty(),
            ends.push(outcome),
        ),
{
    let turn = ran(now, outcome);
    let none = Seq::<CommitsView>::empty();
    let jobs = now.candidates;
    let at = now.cursor as int;
    let names = candidate_names(jobs);
    let further = Plan { tally: now.tally.with(jobs[at].name, outcome), ..now };
    lemma_ran(now, outcome);
    lemma_ran_stage(now, outcome);
    if now.cursor + 1 < jobs.len() {
        lemma_story_kept_on(plan, now, turn, before, versions, none, ends, outcome);
    } else {
        let tail = if further.tally.failed.len() > 0 && !plan.options.update_git {
            Seq::empty()
        } else {
            follows(Plan { overall: further.tally, ..further })
        };
        lemma_registry_part_done(plan, now, before, versions, none, ends, outcome, tail);
        assert(names.drop_last() =~= names.take(at));
        assert(ends.push(outcome).drop_last() =~= ends);
        assert(names.last() == jobs[at].name);
        assert(further.tally == tally_of(names, ends.push(outcome)));
        let told = closing(plan.options, jobs[at], outcome) + (counted(
            plan.options,
            "package"@,
            further.tally,
        ) + tail);
        lemma_story_installed(plan, turn, before, versions, ends.push(outcome), told, tail);
    }
}

/// The registry packages are installed, and the run goes on or ends.
proof fn lemma_story_installed(
    plan: Plan,
    turn: Turn,
    before: Seq<EffectView>,
    versions: Seq<VersionsView>,
    ends: Seq<Outcome>,
    told: Seq<EffectView>,
    tail: Seq<EffectView>,
)
    requires
        ends.len() == wanted(plan, versions).len(),
        tells(turn, told),
        before + told == registry_part(plan, versions, ends) + tail,
        ({
            let overall = tally_of(candidate_names(wanted(plan, versions)), ends);
            if overall.failed.len() > 0 && !plan.options.update_git {
                turn.plan.stage is Done && tail == Seq::<EffectView>::empty()
            } else if chosen_git(plan).len() > 0 {
                turn.plan.stage is PullGit && tail == Seq::<EffectView>::empty()
            } else {
                turn.plan.stage is Done && tail == without_git(plan.options, overall)
            }
        }),
    ensures
        story_so_far(plan, turn.plan, before + turn.effects, versions, Seq::empty(), ends),
{
    reveal(story_so_far);
    reveal(tells);
    let overall = tally_of(candidate_names(wanted(plan, versions)), ends);
    let part = registry_part(plan, versions, ends);
    assert(part + Seq::empty() =~= part);
    if chosen_git(plan).len() == 0 {
        lemma_story_without_git(plan, versions, ends, overall);
    }
}

/// Where the turn leads on the end of an install of a registry package.
proof fn lemma_ran_stage(now: Plan, outcome: Outcome)
    ensures
        ({
            let turn = ran(now, outcome);
            let tally = now.tally.with(now.candidates[now.cursor as int].name, outcome);
            let chosen = selected_git(now.options, now.config, now.git_packages);
            if now.cursor + 1 < now.candidates.len() {
                turn.plan.stage is Install && turn.plan.cursor == now.cursor + 1
            } else if now.options.update_git && chosen.len() > 0 {
                turn.plan.stage is PullGit
            } else {
                turn.plan.stage is Done
            }
        }),
{
    let tally = now.tally.with(now.candidates[now.cursor as int].name, outcome);
    lemma_begin_git_stage(Plan { tally: tally, overall: tally, ..now });
}

/// The run waits for further commits.
proof fn lemma_story_waits_on(
    plan: Plan,
    now: Plan,
    turn: Turn,
    before: Seq<EffectView>,
    versions: Seq<VersionsView>,
    commits: Seq<CommitsView>,
    more: Seq<CommitsView>,
    ends: Seq<Outcome>,
)
    requires
        now.stage is PullGit,
        turn.plan.stage is PullGit,
        turn.effects.len() == 0,
        story_so_far(plan, now, before, versions, commits, ends),
    ensures
        story_so_far(plan, turn.plan, before + turn.effects, versions, more, ends),
{
    reveal(story_so_far);
    assert(before + turn.effects =~= before);
}

/// The commits of all git packages are known: the first is installed, or the run ends.
proof fn lemma_story_git_known(
    plan: Plan,
    now: Plan,
    turn: Turn,
    before: Seq<EffectView>,
    versions: Seq<VersionsView>,
    commits: Seq<CommitsView>,
    more: Seq<CommitsView>,
    ends: Seq<Outcome>,
)
    requires
        plan.options.update_git,
        now.stage is PullGit,
        now.overall == tally_of(candidate_names(wanted(plan, versions)), ends),
        story_so_far(plan, now, before, versions, commits, ends),
        ({
            let jobs = wanted_git(plan, more);
            let shown = said(plan.options, git_table(plan, more));
            if jobs.len() > 0 {
                &&& turn.plan.stage is InstallGit
                &&& turn.plan.cursor == 0
                &&& tells(turn, shown + git_opening(plan.options, jobs[0]))
            } else {
                &&& turn.plan.stage is Done
                &&& tells(
                    turn,
                    shown + idle(
                        plan.options,
                        "No git packages need updating.\n"@,
                        now.overall,
                    ),
                )
            }
        }),
    ensures
        story_so_far(plan, turn.plan, before + turn.effects, versions, more, ends),
{
    reveal(story_so_far);
    reveal(tells);
    let count = wanted(plan, versions).len() as int;
    let jobs = wanted_git(plan, more);
    let shown = said(plan.options, git_table(plan, more));
    let none = Seq::<Outcome>::empty();
    assert(ends.take(count) =~= ends);
    assert(ends.skip(count) =~= none);
    if jobs.len() > 0 {
        let open = git_opening(plan.options, jobs[0]);
        assert(git_installs(plan.options, jobs.take(0), none) + open =~= open);
    } else {
        lemma_followed_by_nothing(now.overall);
        let text = said(plan.options, "No git packages need updating.\n"@);
        let end = summed_up(plan.options, now.overall);
        assert(git_part(plan, more, none) + end =~= shown + idle(
            plan.options,
            "No git packages need updating.\n"@,
            now.overall,
        ));
    }
}

/// The commits of a git package are known.
proof fn lemma_story_pulled_git(
    plan: Plan,
    now: Plan,
    before: Seq<EffectView>,
    versions: Seq<VersionsView>,
    told: Seq<CommitsView>,
    commits: CommitsView,
    ends: Seq<Outcome>,
)
    requires
        now.options == plan.options,
        now.config == plan.config,
        plan.options.update_git,
        now.stage is PullGit,
        now.git_packages == chosen_git(plan),
        now.cursor < now.git_packages.len(),
        told.len() == now.cursor,
        now.git_candidates == git_known(chosen_git(plan), told),
        now.overall == tally_of(candidate_names(wanted(plan, versions)), ends),
        story_so_far(plan, now, before, versions, told, ends),
    ensures
        story_so_far(
            plan,
            pulled_git(now, commits).plan,
            before + pulled_git(now, commits).effects,
            versions,
            told.push(commits),
            ends,
        ),
{
    let name = now.git_packages[now.cursor as int].name;
    let candidate = GitCandidateView { name: name, commits: commits };
    let further = Plan { git_candidates: now.git_candidates.push(candidate), ..now };
    let more = told.push(commits);
    if now.cursor + 1 < now.git_packages.len() {
        let turn = pull_git_at(further, now.cursor + 1);
        lemma_story_waits_on(plan, now, turn, before, versions, told, more, ends);
    } else {
        assert(further.git_candidates =~= git_known(chosen_git(plan), more));
        assert(table_of_git(further.git_candidates) == git_table(plan, more));
        lemma_listed_git(further);
        lemma_listed_git_stage(further);
        lemma_story_git_known(
            plan,
            now,
            listed_git(further),
            before,
            versions,
            told,
            more,
            ends,
        );
    }
}

/// Where the turn leads when the commits of the git packages are known.
proof fn lemma_listed_git_stage(plan: Plan)
    ensures
        if plan.options.update && git_jobs(plan.options, plan.git_candidates).len() > 0 {
            listed_git(plan).plan.stage is InstallGit && listed_git(plan).plan.cursor == 0
        } else {
            listed_git(plan).plan.stage is Done
        },
{
}

/// A further git package is installed.
proof fn lemma_story_git_kept_on(
    plan: Plan,
    now: Plan,
    turn: Turn,
    before: Seq<EffectView>,
    versions: Seq<VersionsView>,
    commits: Seq<CommitsView>,
    ends: Seq<Outcome>,
    outcome: Outcome,
)
    requires
        now.stage is InstallGit,
        story_so_far(plan, now, before, versions, commits, ends),
        now.cursor + 1 < wanted_git(plan, commits).len(),
        turn.plan.stage is InstallGit,
        turn.plan.cursor == now.cursor + 1,
        tells(
            turn,
            git_closing(plan.options, wanted_git(plan, commits)[now.cursor as int], outcome)
                + git_opening(plan.options, wanted_git(plan, commits)[now.cursor as int + 1]),
        ),
    ensures
        story_so_far(
            plan,
            turn.plan,
            before + turn.effects,
            versions,
            commits,
            ends.push(outcome),
        ),
{
    reveal(story_so_far);
    reveal(tells);
    let count = wanted(plan, versions).len() as int;
    let jobs = wanted_git(plan, commits);
    let at = now.cursor as int;
    let own = ends.skip(count);
    assert(ends.push(outcome).take(count) =~= ends.take(count));
    assert(ends.push(outcome).skip(count) =~= own.push(outcome));
    lemma_git_installs_push(plan.options, jobs, own, outcome);
    let part = registry_part(plan, versions, ends.take(count));
    let shown = said(plan.options, git_table(plan, commits));
    let done = git_installs(plan.options, jobs.take(at), own);
    let open = git_opening(plan.options, jobs[at]);
    let close = git_closing(plan.options, jobs[at], outcome);
    let next = git_opening(plan.options, jobs[at + 1]);
    lemma_regrouped(shown, done, open, close, next);
    assert((part + (shown + (done + open))) + (close + next) =~= part + ((shown + (done + open))
        + (close + next)));
}

/// The git packages are installed, and the run ends.
#[verifier::rlimit(40)]
proof fn lemma_story_git_installed(
    plan: Plan,
    now: Plan,
    turn: Turn,
    before: Seq<EffectView>,
    versions: Seq<VersionsView>,
    commits: Seq<CommitsView>,
    ends: Seq<Outcome>,
    outcome: Outcome,
    first: TallyView,
    second: TallyView,
)
    requires
        plan.options.update,
        plan.options.update_git,
        now.stage is InstallGit,
        story_so_far(plan, now, before, versions, commits, ends),
        now.cursor + 1 == wanted_git(plan, commits).len(),
        first == tally_of(
            candidate_names(wanted(plan, versions)),
            ends.take(wanted(plan, versions).len() as int),
        ),
        second == tally_of(
            git_candidate_names(wanted_git(plan, commits)),
            ends.skip(wanted(plan, versions).len() as int).push(outcome),
        ),
        turn.plan.stage is Done,
        tells(
            turn,
            git_closing(plan.options, wanted_git(plan, commits)[now.cursor as int], outcome) + (
            counted(plan.options, "git package"@, second) + (if second.failed.len() > 0
                && first.failed.len() == 0 {
                Seq::empty()
            } else {
                summed_up(plan.options, first.followed_by(second))
            })),
        ),
    ensures
        story_so_far(
            plan,
            turn.plan,
            before + turn.effects,
            versions,
            commits,
            ends.push(outcome),
        ),
{
    reveal(story_so_far);
    reveal(tells);
    let count = wanted(plan, versions).len() as int;
    let jobs = wanted_git(plan, commits);
    let at = now.cursor as int;
    let own = ends.skip(count);
    assert(ends.push(outcome).take(count) =~= ends.take(count));
    assert(ends.push(outcome).skip(count) =~= own.push(outcome));
    lemma_git_installs_push(plan.options, jobs, own, outcome);
    assert(jobs.take(at + 1) =~= jobs);
    let part = registry_part(plan, versions, ends.take(count));
    let shown = said(plan.options, git_table(plan, commits));
    let done = git_installs(plan.options, jobs.take(at), own);
    let whole = git_installs(plan.options, jobs, own.push(outcome));
    let open = git_opening(plan.options, jobs[at]);
    let close = git_closing(plan.options, jobs[at], outcome);
    let said_of = counted(plan.options, "git package"@, second);
    let tail = if second.failed.len() > 0 && first.failed.len() == 0 {
        Seq::empty()
    } else {
        summed_up(plan.options, first.followed_by(second))
    };
    lemma_regrouped(shown, done, open, close, said_of + tail);
    assert(shown + (whole + (said_of + tail)) =~= (shown + (whole + said_of)) + tail);
    assert((part + (shown + (done + open))) + (close + (said_of + tail)) =~= part + ((shown + (done
        + open)) + (close + (said_of + tail))));
}

/// The install of a git package ended.
proof fn lemma_story_ran_git(
    plan: Plan,
    now: Plan,
    before: Seq<EffectView>,
    versions: Seq<VersionsView>,
    commits: Seq<CommitsView>,
    ends: Seq<Outcome>,
    outcome: Outcome,
)
    requires
        now.options == plan.options,
        plan.options.update,
        plan.options.update_git,
        now.stage is InstallGit,
        now.overall.consistent(),
        now.cursor < now.git_candidates.len(),
        now.git_candidates == wanted_git(plan, commits),
        now.overall == tally_of(
            candidate_names(wanted(plan, versions)),
            ends.take(wanted(plan, versions).len() as int),
        ),
        now.tally == tally_of(
            git_candidate_names(now.git_candidates).take(now.cursor as int),
            ends.skip(wanted(plan, versions).len() as int),
        ),
        story_so_far(plan, now, before, versions, commits, ends),
    ensures
        story_so_far(
            plan,
            ran_git(now, outcome).plan,
            before + ran_git(now, outcome).effects,
            versions,
            commits,
            ends.push(outcome),
        ),
{
    let turn = ran_git(now, outcome);
    let jobs = now.git_candidates;
    let at = now.cursor as int;
    let names = git_candidate_names(jobs);
    let own = ends.skip(wanted(plan, versions).len() as int);
    let further = Plan { tally: now.tally.with(jobs[at].name, outcome), ..now };
    lemma_ran_git(now, outcome);
    lemma_ran_git_stage(now, outcome);
    if now.cursor + 1 < jobs.len() {
        lemma_story_git_kept_on(plan, now, turn, before, versions, commits, ends, outcome);
    } else {
        assert(names.drop_last() =~= names.take(at));
        assert(own.push(outcome).drop_last() =~= own);
        assert(names.last() == jobs[at].name);
        assert(further.tally == tally_of(names, own.push(outcome)));
        lemma_story_git_installed(
            plan,
            now,
            turn,
            before,
            versions,
            commits,
            ends,
            outcome,
            now.overall,
            further.tally,
        );
    }
}

/// Where the turn leads on the end of an install of a git package.
proof fn lemma_ran_git_stage(now: Plan, outcome: Outcome)
    ensures
        if now.cursor + 1 < now.git_candidates.len() {
            &&& ran_git(now, outcome).plan.stage is InstallGit
            &&& ran_git(now, outcome).plan.cursor == now.cursor + 1
        } else {
            ran_git(now, outcome).plan.stage is Done
        },
{
}

/// The run is at a stage at which it has done nothing.
proof fn lemma_story_nothing_yet(
    plan: Plan,
    turn: Turn,
    versions: Seq<VersionsView>,
    commits: Seq<CommitsView>,
)
    requires
        turn.effects.len() == 0,
        rank(turn.plan.stage) >= 4,
    ensures
        story_so_far(plan, turn.plan, turn.effects, versions, commits, Seq::empty()),
{
    reveal(story_so_far);
}

/// The versions of a package are known.
proof fn lemma_story_pulled(
    plan: Plan,
    now: Plan,
    told: Seq<VersionsView>,
    versions: VersionsView,
)
    requires
        now.options == plan.options,
        now.config == plan.config,
        now.packages == plan.packages,
        now.git_packages == plan.git_packages,
        now.cursor < now.packages.len(),
        told.len() == now.cursor,
        now.candidates == known(plan.packages, told),
        now.overall == TallyView::empty(),
        now.stage is Pull,
    ensures
        story_so_far(
            plan,
            pulled(now, versions).plan,
            pulled(now, versions).effects,
            told.push(versions),
            Seq::empty(),
            Seq::empty(),
        ),
{
    let name = now.packages[now.cursor as int].name;
    let candidate = CandidateView { name: name, versions: versions };
    let further = Plan { candidates: now.candidates.push(candidate), ..now };
    if now.cursor + 1 < now.packages.len() {
        lemma_story_nothing_yet(
            plan,
            pull_at(further, now.cursor + 1),
            told.push(versions),
            Seq::empty(),
        );
    } else {
        assert(further.candidates =~= known(plan.packages, told.push(versions)));
        lemma_story_listed(plan, further, told.push(versions));
    }
}

/// A run that waits for registries has done nothing.
proof fn lemma_story_at_registries(
    plan: Plan,
    now: Plan,
    before: Seq<EffectView>,
    versions: Seq<VersionsView>,
    commits: Seq<CommitsView>,
    ends: Seq<Outcome>,
)
    requires
        rank(now.stage) >= 4,
        story_so_far(plan, now, before, versions, commits, ends),
    ensures
        before == Seq::<EffectView>::empty(),
        ends == Seq::<Outcome>::empty(),
{
    reveal(story_so_far);
    assert(before =~= Seq::empty());
    assert(ends =~= Seq::empty());
}

/// An event that concerns a registry leads to nothing that is done, if it is no failure.
#[verifier::rlimit(40)]
proof fn lemma_registry_event(now: Plan, event: EventView)
    requires
        fits(now, event),
        event is Resolved || event is Located || event is Succeeded,
    ensures
        reply(now, event).effects.len() == 0,
        rank(reply(now, event).plan.stage) >= 4,
        rank(now.stage) >= 4,
{
    reveal(reply);
}

/// How the installs ended, with what an event adds.
spec fn ends_after(ends: Seq<Outcome>, event: EventView) -> Seq<Outcome> {
    match event {
        EventView::Ran { outcome } => ends.push(outcome),
        _ => ends,
    }
}

/// What a run has done goes with its state after each event but a failure.
#[verifier::rlimit(40)]
proof fn lemma_story_reply(
    plan: Plan,
    now: Plan,
    event: EventView,
    before: Seq<EffectView>,
    versions: Seq<VersionsView>,
    commits: Seq<CommitsView>,
    tried: Seq<Text>,
    ends: Seq<Outcome>,
)
    requires
        well_formed(now),
        fits(now, event),
        !(event is Failed),
        now.options == plan.options,
        now.config == plan.config,
        now.packages == plan.packages,
        installed_as_told(plan, now, versions, commits, tried),
        tried.len() == ends.len(),
        now.stage is Install ==> now.tally == tally_of(tried, ends),
        now.stage is PullGit ==> now.overall == tally_of(tried, ends),
        now.stage is InstallGit ==> now.overall == registry_tally(
            wanted(plan, versions).len(),
            tried,
            ends,
        ) && now.tally == git_tally(wanted(plan, versions).len(), tried, ends),
        story_so_far(plan, now, before, versions, commits, ends),
    ensures
        story_so_far(
            plan,
            reply(now, event).plan,
            before + reply(now, event).effects,
            versions_after(versions, event),
            commits_after(commits, event),
            ends_after(ends, event),
        ),
{
    let turn = reply(now, event);
    match event {
        EventView::Pulled { versions: more } => {
            lemma_story_at_registries(plan, now, before, versions, commits, ends);
            assert(commits =~= Seq::empty());
            lemma_story_pulled(plan, now, versions, more);
            assert(turn == pulled(now, more)) by {
                reveal(reply);
            }
            assert(before + turn.effects =~= turn.effects);
        },
        EventView::PulledCommits { commits: more } => {
            lemma_story_pulled_git(plan, now, before, versions, commits, more, ends);
            assert(turn == pulled_git(now, more)) by {
                reveal(reply);
            }
        },
        EventView::Ran { outcome } => {
            if now.stage is Install {
                assert(commits =~= Seq::empty());
                lemma_story_ran(plan, now, before, versions, ends, outcome);
                assert(turn == ran(now, outcome)) by {
                    reveal(reply);
                }
            } else {
                let count = wanted(plan, versions).len() as int;
                let names = git_candidate_names(now.git_candidates);
                assert(tried.take(count) =~= candidate_names(wanted(plan, versions)));
                assert(tried.skip(count) =~= names.take(now.cursor as int));
                lemma_story_ran_git(plan, now, before, versions, commits, ends, outcome);
                assert(turn == ran_git(now, outcome)) by {
                    reveal(reply);
                }
            }
        },
        _ => {
            lemma_registry_event(now, event);
            lemma_story_at_registries(plan, now, before, versions, commits, ends);
            lemma_story_nothing_yet(plan, turn, versions, commits);
            assert(before + turn.effects =~= turn.effects);
        },
    }
}

/// What a run has done after its first turn goes with its state.
proof fn lemma_story_first(plan: Plan)
    requires
        plan == fresh(plan.options, plan.config, plan.packages, plan.git_packages),
    ensures
        story_so_far(
            plan,
            started(plan).plan,
            started(plan).effects,
            Seq::empty(),
            Seq::empty(),
            Seq::empty(),
        ),
{
    if plan.packages.len() == 0 {
        assert(plan.candidates =~= known(plan.packages, Seq::empty()));
        lemma_story_listed(plan, plan, Seq::empty());
        assert(started(plan) == listed(plan)) by {
            reveal(started);
        }
    } else {
        assert(started(plan) == resolve_at(plan, 0)) by {
            reveal(started);
        }
        lemma_story_nothing_yet(plan, resolve_at(plan, 0), Seq::empty(), Seq::empty());
    }
}

/// What a run has done goes with its state, as long as its requests are met.
proof fn lemma_story_so_far(plan: Plan, events: Seq<EventView>)
    requires
        plan == fresh(plan.options, plan.config, plan.packages, plan.git_packages),
        answers(started(plan), events),
        !gave_up(events),
    ensures
        story_so_far(
            plan,
            course(started(plan), events).plan,
            course(started(plan), events).effects,
            versions_told(events),
            commits_told(events),
            outcomes(events),
        ),
    decreases events.len(),
{
    let first = started(plan);
    if events.len() == 0 {
        lemma_story_first(plan);
    } else {
        let front = events.drop_last();
        let now = course(first, front).plan;
        if gave_up(front) {
            lemma_gave_up(first, front);
        }
        lemma_story_so_far(plan, front);
        lemma_started(plan, front);
        lemma_as_told(plan, front);
        lemma_tallies(plan, front);
        lemma_story_reply(
            plan,
            now,
            events.last(),
            course(first, front).effects,
            versions_told(front),
            commits_told(front),
            attempted(first, front),
            outcomes(front),
        );
    }
}

/// A run that comes to its end without a request that could not be met has printed, complained
/// of and changed exactly this, in this order. First comes the table of the registry packages.
/// Then come the installs, each announced, with this program moved out of the way before and
/// moved back after a failure where it is itself replaced on Windows, and a blank line after;
/// then how many were updated and which failed. The same follows for git packages, where they
/// are looked at. At the end all is summed up, unless the run stopped short.
pub proof fn lemma_story(plan: Plan, events: Seq<EventView>)
    requires
        plan == fresh(plan.options, plan.config, plan.packages, plan.git_packages),
        answers(begin(plan), events),
        course(begin(plan), events).request is Exit,
        !gave_up(events),
    ensures
        course(begin(plan), events).effects == story(
            plan,
            versions_told(events),
            commits_told(events),
            outcomes(events),
        ),
{
    assert(started(plan) == begin(plan)) by {
        reveal(started);
    }
    lemma_story_so_far(plan, events);
    lemma_started(plan, events);
    reveal(story_so_far);
}

/// While a run is under way it has done nothing before the first install or the first look at
/// git packages. When `cargo` is run for a package, all the installs before are done with, and
/// the package is announced and, where it is this program, moved out of the way. When commits
/// are asked for, the part of the registry packages is done with.
pub proof fn lemma_story_under_way(plan: Plan, events: Seq<EventView>)
    requires
        plan == fresh(plan.options, plan.config, plan.packages, plan.git_packages),
        answers(begin(plan), events),
        !(course(begin(plan), events).request is Exit),
    ensures
        ({
            let request = course(begin(plan), events).request;
            let effects = course(begin(plan), events).effects;
            let versions = versions_told(events);
            let commits = commits_told(events);
            let ends = outcomes(events);
            let first = wanted(plan, versions);
            let second = wanted_git(plan, commits);
            let count = first.len() as int;
            let at = ends.len() as int;
            &&& !(request is RunCargo) && !(request is PullCommits) ==> effects.len() == 0
            &&& request is PullCommits ==> effects == registry_part(plan, versions, ends)
            &&& request is RunCargo && at < count ==> effects == said(
                plan.options,
                registry_table(plan, versions),
            ) + (installs(plan.options, first.take(at), ends) + opening(plan.options, first[at]))
            &&& request is RunCargo && at >= count ==> effects == registry_part(
                plan,
                versions,
                ends.take(count),
            ) + (said(plan.options, git_table(plan, commits)) + (git_installs(
                plan.options,
                second.take(at - count),
                ends.skip(count),
            ) + git_opening(plan.options, second[at - count])))
        }),
{
    assert(started(plan) == begin(plan)) by {
        reveal(started);
    }
    lemma_started(plan, events);
    if gave_up(events) {
        lemma_gave_up(started(plan), events);
    }
    lemma_story_so_far(plan, events);
    lemma_as_told(plan, events);
    reveal(story_so_far);
}

} // verus!
