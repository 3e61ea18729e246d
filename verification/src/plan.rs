//! The course of a run, as a state and the turns it takes.

use vstd::prelude::*;
use crate::command::{git_args, registry_args};
use crate::config::SettingsView;
use crate::executable::{restore_steps, save_steps, FileStepView};
use crate::options::OptionsView;
use crate::package::{CandidateView, CommitsView, GitCandidateView, PackageView, VersionsView};
use crate::registry::{group_of, with_package, GroupView, RegistryView};
use crate::select::selected_git;
use crate::step::{EffectView, EventView, RequestView};
use crate::table::{candidate_rows, git_rows, lazy_sorted, tab_aligned, table, RowView};
use crate::tally::{failed_report, overall_failed, overall_updated, updated_report};
use crate::tally::{Outcome, TallyView};
use crate::text::Text;

verus! {

/// What a run waits for.
#[derive(Clone, Copy, Debug, PartialEq, Eq)]
pub enum Stage {
    /// The registry of a package.
    Resolve,
    /// The place of an index.
    Locate,
    /// An index to be opened.
    Open,
    /// An index to be fetched.
    Refresh,
    /// A revision of an index.
    Read,
    /// The versions of a package.
    Pull,
    /// The install of a registry package.
    Install,
    /// The commits of a git package.
    PullGit,
    /// The install of a git package.
    InstallGit,
    /// Nothing: the run is over.
    Done,
}

/// The state of a run.
#[verifier::ext_equal]
pub struct Plan {
    pub options: OptionsView,
    pub config: Map<Text, SettingsView>,
    /// The registry packages.
    pub packages: Seq<PackageView>,
    /// The git packages: all that are installed, until those of the run are selected.
    pub git_packages: Seq<PackageView>,
    /// The packages whose registry is known, by registry.
    pub groups: Seq<GroupView>,
    /// Where the indices are kept, group by group.
    pub paths: Seq<Text>,
    /// The registry packages whose versions are known; while they are installed, those to
    /// install.
    pub candidates: Seq<CandidateView>,
    /// The git packages whose commits are known; while they are installed, those to install.
    pub git_candidates: Seq<GitCandidateView>,
    /// The installs of the packages of one kind.
    pub tally: TallyView,
    /// The installs of the kinds that are done with.
    pub overall: TallyView,
    pub stage: Stage,
    /// The position of what the run waits for.
    pub cursor: nat,
}

/// What a run does on an event: the state that it takes on, and what it asks to be done.
#[verifier::ext_equal]
pub struct Turn {
    pub plan: Plan,
    pub effects: Seq<EffectView>,
    pub request: RequestView,
}

impl Turn {
    /// The turn with these effects before its own.
    pub open spec fn after(self, effects: Seq<EffectView>) -> Turn {
        Turn { effects: effects + self.effects, ..self }
    }
}

/// Progress is printed unless the user asked for quiet.
pub open spec fn printed(options: OptionsView, text: Text) -> Seq<EffectView> {
    if options.quiet {
        Seq::empty()
    } else {
        seq![EffectView::Print { text: text }]
    }
}

/// A complaint.
pub open spec fn complained(text: Text) -> Seq<EffectView> {
    seq![EffectView::Complain { text: text }]
}

/// Changes to files, in order.
pub open spec fn changed(steps: Seq<FileStepView>) -> Seq<EffectView> {
    steps.map_values(|step: FileStepView| EffectView::File { step: step })
}

/// The run ends with this exit code.
pub open spec fn exit(plan: Plan, code: i32) -> Turn {
    Turn {
        plan: Plan { stage: Stage::Done, ..plan },
        effects: Seq::empty(),
        request: RequestView::Exit { code: code },
    }
}

/// The run ends because a registry cannot be used.
pub open spec fn give_up(plan: Plan, complaint: Text) -> Turn {
    exit(plan, 2).after(complained(complaint))
}

/// The plan, waiting at a position.
pub open spec fn waiting(plan: Plan, stage: Stage, at: nat, request: RequestView) -> Turn {
    Turn {
        plan: Plan { stage: stage, cursor: at, ..plan },
        effects: Seq::empty(),
        request: request,
    }
}

/// Asks for the registry of a package.
pub open spec fn resolve_at(plan: Plan, at: nat) -> Turn {
    waiting(
        plan,
        Stage::Resolve,
        at,
        RequestView::ResolveRegistry { package: plan.packages[at as int].handle },
    )
}

/// Asks where an index is kept.
pub open spec fn locate_at(plan: Plan, at: nat) -> Turn {
    waiting(
        plan,
        Stage::Locate,
        at,
        RequestView::LocateIndex { url: plan.groups[at as int].registry.url },
    )
}

/// Has an index opened.
pub open spec fn open_at(plan: Plan, at: nat) -> Turn {
    waiting(plan, Stage::Open, at, RequestView::OpenIndex { group: at })
}

/// Has an index fetched.
pub open spec fn refresh_at(plan: Plan, at: nat) -> Turn {
    waiting(
        plan,
        Stage::Refresh,
        at,
        RequestView::RefreshIndex {
            group: at,
            url: plan.groups[at as int].registry.url,
            show: !plan.options.quiet,
        },
    )
}

/// Has the newest revision of an index looked up.
pub open spec fn read_at(plan: Plan, at: nat) -> Turn {
    waiting(
        plan,
        Stage::Read,
        at,
        RequestView::ReadRevision { group: at, revision: "origin/master"@ },
    )
}

/// Whether prereleases count as updates of a package, where its settings say so.
pub open spec fn install_prereleases(config: Map<Text, SettingsView>, name: Text) -> Option<bool> {
    if config.contains_key(name) {
        config[name].install_prereleases
    } else {
        None
    }
}

/// Asks for the versions of a package, in the first registry that has a package of its name.
pub open spec fn pull_at(plan: Plan, at: nat) -> Turn {
    let package = plan.packages[at as int];
    waiting(
        plan,
        Stage::Pull,
        at,
        RequestView::PullVersions {
            package: package.handle,
            group: group_of(plan.groups, package.name)->0,
            install_prereleases: install_prereleases(plan.config, package.name),
        },
    )
}

/// Asks for the commits of a git package.
pub open spec fn pull_git_at(plan: Plan, at: nat) -> Turn {
    waiting(
        plan,
        Stage::PullGit,
        at,
        RequestView::PullCommits { package: plan.git_packages[at as int].handle },
    )
}

/// The candidate is to be updated.
pub open spec fn is_due() -> spec_fn(CandidateView) -> bool {
    |candidate: CandidateView| candidate.versions.needs_update
}

/// There is a version to update the candidate to.
pub open spec fn is_offered() -> spec_fn(CandidateView) -> bool {
    |candidate: CandidateView| candidate.versions.update_to is Some
}

/// The registry packages to install: those that need it, unless all are forced, as far as the
/// registry offers any version.
pub open spec fn jobs(options: OptionsView, candidates: Seq<CandidateView>) -> Seq<CandidateView> {
    (if options.force {
        candidates
    } else {
        candidates.filter(is_due())
    }).filter(is_offered())
}

/// The git package is to be updated.
pub open spec fn is_git_due() -> spec_fn(GitCandidateView) -> bool {
    |candidate: GitCandidateView| candidate.commits.needs_update
}

/// The git packages to install: those that need it, unless all are forced.
pub open spec fn git_jobs(options: OptionsView, candidates: Seq<GitCandidateView>) -> Seq<
    GitCandidateView,
> {
    if options.force {
        candidates
    } else {
        candidates.filter(is_git_due())
    }
}

/// What is said before a registry package is installed.
pub open spec fn announcement(candidate: CandidateView) -> Text {
    (if candidate.versions.installed is Some {
        "Updating "@
    } else {
        "Installing "@
    }) + candidate.name + "\n"@
}

/// What is said before a git package is installed.
pub open spec fn git_announcement(candidate: GitCandidateView) -> Text {
    "Updating "@ + candidate.name + " from "@ + candidate.commits.url + "\n"@
}

/// The package is this program.
pub open spec fn is_self(name: Text) -> bool {
    name == "cargo-update"@
}

/// Files are changed before a registry package is installed, where that is this program.
pub open spec fn save_before(options: OptionsView, candidate: CandidateView) -> Seq<FileStepView> {
    if is_self(candidate.name) && candidate.versions.installed is Some {
        save_steps(options.windows, candidate.versions.installed->0)
    } else {
        Seq::empty()
    }
}

/// Files are changed back after a registry package could not be installed, where that is this
/// program.
pub open spec fn restore_after(
    options: OptionsView,
    candidate: CandidateView,
    outcome: Outcome,
) -> Seq<FileStepView> {
    if !outcome.success && is_self(candidate.name) && candidate.versions.installed is Some {
        restore_steps(options.windows, candidate.versions.installed->0)
    } else {
        Seq::empty()
    }
}

/// Files are changed before a git package is installed, where that is this program.
pub open spec fn git_save_before(options: OptionsView, candidate: GitCandidateView) -> Seq<
    FileStepView,
> {
    if is_self(candidate.name) {
        save_steps(options.windows, candidate.commits.id)
    } else {
        Seq::empty()
    }
}

/// Files are changed back after a git package could not be installed, where that is this
/// program.
pub open spec fn git_restore_after(
    options: OptionsView,
    candidate: GitCandidateView,
    outcome: Outcome,
) -> Seq<FileStepView> {
    if !outcome.success && is_self(candidate.name) {
        restore_steps(options.windows, candidate.commits.id)
    } else {
        Seq::empty()
    }
}

/// Announces and runs the install of a registry package.
pub open spec fn install_at(plan: Plan, at: nat) -> Turn {
    let candidate = plan.candidates[at as int];
    let group = group_of(plan.groups, candidate.name)->0;
    waiting(
        plan,
        Stage::Install,
        at,
        RequestView::RunCargo {
            args: registry_args(
                plan.options,
                plan.config,
                plan.groups[group as int].registry.name,
                candidate,
            ),
        },
    ).after(
        printed(plan.options, announcement(candidate)) + changed(
            save_before(plan.options, candidate),
        ),
    )
}

/// Announces and runs the install of a git package.
pub open spec fn install_git_at(plan: Plan, at: nat) -> Turn {
    let candidate = plan.git_candidates[at as int];
    waiting(
        plan,
        Stage::InstallGit,
        at,
        RequestView::RunCargo { args: git_args(plan.options, plan.config, candidate) },
    ).after(
        printed(plan.options, git_announcement(candidate)) + changed(
            git_save_before(plan.options, candidate),
        ),
    )
}

/// The end of the run: what was updated, and what could not be.
pub open spec fn finish(plan: Plan) -> Turn {
    if plan.options.update {
        let said = printed(plan.options, overall_updated(plan.overall.updated));
        if plan.overall.failed.len() > 0 {
            exit(plan, plan.overall.code->0).after(
                said + complained(overall_failed(plan.overall.failed)),
            )
        } else {
            exit(plan, 0).after(said)
        }
    } else {
        exit(plan, 0)
    }
}

/// The git packages are installed: reports, and ends the run at once where these are the first
/// failures.
pub open spec fn installed_git(plan: Plan) -> Turn {
    let ended = Plan { overall: plan.overall.followed_by(plan.tally), ..plan };
    let said = printed(plan.options, updated_report("git package"@, plan.tally.updated.len()));
    if plan.tally.failed.len() > 0 {
        (if plan.overall.code is None {
            exit(ended, plan.tally.code->0)
        } else {
            finish(ended)
        }).after(said + complained(failed_report(plan.tally.failed)))
    } else {
        finish(ended).after(said)
    }
}

/// The commits of the git packages are known: installs what is to be installed.
pub open spec fn upgrade_git(plan: Plan) -> Turn {
    let due = git_jobs(plan.options, plan.git_candidates);
    let begun = Plan { git_candidates: due, ..plan };
    if !plan.options.update {
        finish(plan)
    } else if due.len() == 0 {
        finish(begun).after(printed(plan.options, "No git packages need updating.\n"@))
    } else {
        install_git_at(Plan { tally: TallyView::empty(), ..begun }, 0)
    }
}

/// The commits of the git packages are known: shows them first.
pub open spec fn listed_git(plan: Plan) -> Turn {
    upgrade_git(plan).after(
        printed(plan.options, tab_aligned(table(lazy_sorted(git_rows(plan.git_candidates))))),
    )
}

/// The registry packages are done with: goes on with git packages, if they are to be updated.
pub open spec fn begin_git(plan: Plan) -> Turn {
    if !plan.options.update_git {
        finish(plan)
    } else {
        let chosen = selected_git(plan.options, plan.config, plan.git_packages);
        let begun = Plan { git_packages: chosen, git_candidates: Seq::empty(), ..plan };
        if chosen.len() == 0 {
            listed_git(begun)
        } else {
            pull_git_at(begun, 0)
        }
    }
}

/// The registry packages are installed: reports, and ends the run at once on failures, unless
/// git packages are still to come.
pub open spec fn installed(plan: Plan) -> Turn {
    let ended = Plan { overall: plan.tally, ..plan };
    let said = printed(plan.options, updated_report("package"@, plan.tally.updated.len()));
    if plan.tally.failed.len() > 0 {
        (if plan.options.update_git {
            begin_git(ended)
        } else {
            exit(ended, plan.tally.code->0)
        }).after(said + complained(failed_report(plan.tally.failed)))
    } else {
        begin_git(ended).after(said)
    }
}

/// The versions of the registry packages are known: installs what is to be installed.
pub open spec fn upgrade(plan: Plan) -> Turn {
    let due = jobs(plan.options, plan.candidates);
    let begun = Plan { candidates: due, ..plan };
    if !plan.options.update {
        begin_git(plan)
    } else if due.len() == 0 {
        begin_git(begun).after(printed(plan.options, "No packages need updating.\n"@))
    } else {
        install_at(Plan { tally: TallyView::empty(), ..begun }, 0)
    }
}

/// The versions of the registry packages are known: shows them first.
pub open spec fn listed(plan: Plan) -> Turn {
    upgrade(plan).after(
        printed(
            plan.options,
            tab_aligned(table(lazy_sorted(candidate_rows(plan.config, plan.candidates)))),
        ),
    )
}

/// The state of a run before its first turn.
pub open spec fn fresh(
    options: OptionsView,
    config: Map<Text, SettingsView>,
    packages: Seq<PackageView>,
    git_packages: Seq<PackageView>,
) -> Plan {
    Plan {
        options: options,
        config: config,
        packages: packages,
        git_packages: git_packages,
        groups: Seq::empty(),
        paths: Seq::empty(),
        candidates: Seq::empty(),
        git_candidates: Seq::empty(),
        tally: TallyView::empty(),
        overall: TallyView::empty(),
        stage: Stage::Resolve,
        cursor: 0,
    }
}

/// The first turn.
pub open spec fn begin(plan: Plan) -> Turn {
    if plan.packages.len() == 0 {
        listed(plan)
    } else {
        resolve_at(plan, 0)
    }
}

/// The registry of a package is known.
pub open spec fn resolved(plan: Plan, registry: RegistryView) -> Turn {
    let name = plan.packages[plan.cursor as int].name;
    let further = Plan { groups: with_package(plan.groups, registry, name), ..plan };
    if plan.cursor + 1 < plan.packages.len() {
        resolve_at(further, plan.cursor + 1)
    } else {
        locate_at(further, 0)
    }
}

/// The place of an index is known.
pub open spec fn located(plan: Plan, path: Text) -> Turn {
    let further = Plan { paths: plan.paths.push(path), ..plan };
    if plan.cursor + 1 < plan.groups.len() {
        locate_at(further, plan.cursor + 1)
    } else {
        open_at(further, 0)
    }
}

/// An index is open.
pub open spec fn opened(plan: Plan) -> Turn {
    if plan.cursor + 1 < plan.groups.len() {
        open_at(plan, plan.cursor + 1)
    } else {
        refresh_at(plan, 0)
    }
}

/// An index is fetched.
pub open spec fn refreshed(plan: Plan) -> Turn {
    if plan.cursor + 1 < plan.groups.len() {
        refresh_at(plan, plan.cursor + 1)
    } else {
        read_at(plan, 0)
    }
}

/// A revision of an index is known.
pub open spec fn read(plan: Plan) -> Turn {
    if plan.cursor + 1 < plan.groups.len() {
        read_at(plan, plan.cursor + 1)
    } else {
        pull_at(Plan { candidates: Seq::empty(), ..plan }, 0)
    }
}

/// The versions of a package are known.
pub open spec fn pulled(plan: Plan, versions: VersionsView) -> Turn {
    let name = plan.packages[plan.cursor as int].name;
    let candidate = CandidateView { name: name, versions: versions };
    let further = Plan { candidates: plan.candidates.push(candidate), ..plan };
    if plan.cursor + 1 < plan.packages.len() {
        pull_at(further, plan.cursor + 1)
    } else {
        listed(further)
    }
}

/// The install of a registry package ended.
pub open spec fn ran(plan: Plan, outcome: Outcome) -> Turn {
    let candidate = plan.candidates[plan.cursor as int];
    let further = Plan { tally: plan.tally.with(candidate.name, outcome), ..plan };
    (if plan.cursor + 1 < plan.candidates.len() {
        install_at(further, plan.cursor + 1)
    } else {
        installed(further)
    }).after(
        printed(plan.options, "\n"@) + changed(restore_after(plan.options, candidate, outcome)),
    )
}

/// The commits of a git package are known.
pub open spec fn pulled_git(plan: Plan, commits: CommitsView) -> Turn {
    let name = plan.git_packages[plan.cursor as int].name;
    let candidate = GitCandidateView { name: name, commits: commits };
    let further = Plan { git_candidates: plan.git_candidates.push(candidate), ..plan };
    if plan.cursor + 1 < plan.git_packages.len() {
        pull_git_at(further, plan.cursor + 1)
    } else {
        listed_git(further)
    }
}

/// The install of a git package ended.
pub open spec fn ran_git(plan: Plan, outcome: Outcome) -> Turn {
    let candidate = plan.git_candidates[plan.cursor as int];
    let further = Plan { tally: plan.tally.with(candidate.name, outcome), ..plan };
    (if plan.cursor + 1 < plan.git_candidates.len() {
        install_git_at(further, plan.cursor + 1)
    } else {
        installed_git(further)
    }).after(
        printed(plan.options, "\n"@) + changed(
            git_restore_after(plan.options, candidate, outcome),
        ),
    )
}

/// What is said where a request concerning a registry could not be met.
pub open spec fn complaint(plan: Plan, reason: Text) -> Text {
    match plan.stage {
        Stage::Resolve => "Couldn't get registry for "@ + plan.packages[plan.cursor as int].name
            + ": "@ + reason + ".\n"@,
        Stage::Locate => "Couldn't get package repository: "@ + reason + ".\n"@,
        Stage::Open => "Failed to open registry repository at "@ + plan.paths[plan.cursor as int]
            + ".\n"@,
        Stage::Refresh => "Failed to update index repository: "@ + reason + ".\n"@,
        _ => "Failed to read master branch of registry repository at "@
            + plan.paths[plan.cursor as int] + ".\n"@,
    }
}

/// The event answers what the run waits for. A git package whose newest commit is not known
/// can only be taken where no table is shown.
pub open spec fn fits(plan: Plan, event: EventView) -> bool {
    match plan.stage {
        Stage::Resolve => event is Resolved || event is Failed,
        Stage::Locate => event is Located || event is Failed,
        Stage::Open | Stage::Refresh | Stage::Read => event is Succeeded || event is Failed,
        Stage::Pull => event is Pulled,
        Stage::Install | Stage::InstallGit => event is Ran,
        Stage::PullGit => event is PulledCommits && (plan.options.quiet
            || event->commits.newest is Some),
        Stage::Done => false,
    }
}

/// The turn on an event.
pub open spec fn next(plan: Plan, event: EventView) -> Turn {
    match event {
        EventView::Resolved { registry } => resolved(plan, registry),
        EventView::Located { path } => located(plan, path),
        EventView::Succeeded => match plan.stage {
            Stage::Open => opened(plan),
            Stage::Refresh => refreshed(plan),
            _ => read(plan),
        },
        EventView::Failed { reason } => give_up(plan, complaint(plan, reason)),
        EventView::Pulled { versions } => pulled(plan, versions),
        EventView::PulledCommits { commits } => pulled_git(plan, commits),
        EventView::Ran { outcome } => match plan.stage {
            Stage::Install => ran(plan, outcome),
            _ => ran_git(plan, outcome),
        },
    }
}

/// The tables that are shown when the registry packages are done with: one without rows where
/// there are no git packages to look at.
pub open spec fn tables_of_begin_git(plan: Plan) -> Seq<Seq<RowView>> {
    if !plan.options.quiet && plan.options.update_git && selected_git(
        plan.options,
        plan.config,
        plan.git_packages,
    ).len() == 0 {
        seq![Seq::empty()]
    } else {
        Seq::empty()
    }
}

/// The tables that are shown when the versions of the registry packages are known: that of these
/// packages and, where none is to be installed, what follows.
pub open spec fn tables_of_listed(plan: Plan) -> Seq<Seq<RowView>> {
    (if plan.options.quiet {
        Seq::empty()
    } else {
        seq![candidate_rows(plan.config, plan.candidates)]
    }) + (if plan.options.update && jobs(plan.options, plan.candidates).len() > 0 {
        Seq::empty()
    } else {
        tables_of_begin_git(plan)
    })
}

/// The rows of each table that the first turn shows. Where there are no registry packages, their
/// table has none.
pub open spec fn first_tables(plan: Plan) -> Seq<Seq<RowView>> {
    if plan.packages.len() > 0 || plan.options.quiet {
        Seq::empty()
    } else {
        seq![Seq::<RowView>::empty()] + tables_of_begin_git(plan)
    }
}

/// The rows of each table that the turn on an event shows. The packages of a kind are shown when
/// the last of them is known, or at once where there are none, unless the user asked for quiet.
pub open spec fn shown_tables(plan: Plan, event: EventView) -> Seq<Seq<RowView>> {
    match event {
        EventView::Pulled { versions } => if plan.cursor + 1 < plan.packages.len() {
            Seq::empty()
        } else {
            let name = plan.packages[plan.cursor as int].name;
            let candidate = CandidateView { name: name, versions: versions };
            tables_of_listed(Plan { candidates: plan.candidates.push(candidate), ..plan })
        },
        EventView::PulledCommits { commits } => if plan.options.quiet || plan.cursor + 1
            < plan.git_packages.len() {
            Seq::empty()
        } else {
            let name = plan.git_packages[plan.cursor as int].name;
            let candidate = GitCandidateView { name: name, commits: commits };
            seq![git_rows(plan.git_candidates.push(candidate))]
        },
        EventView::Ran { .. } => if plan.stage is Install && plan.cursor + 1
            >= plan.candidates.len() {
            tables_of_begin_git(plan)
        } else {
            Seq::empty()
        },
        _ => Seq::empty(),
    }
}

} // verus!
