//! A run, carried out turn by turn.

use vstd::prelude::*;
use crate::command::{make_git_args, make_registry_args, CargoArg};
use crate::config::Configuration;
use crate::course::{candidates_found, lemma_begin_well_formed, lemma_jobs};
use crate::course::{lemma_next_well_formed, well_formed};
use crate::executable::{restore_cargo_update_exec, save_cargo_update_exec, FileStep};
use crate::options::Options;
use crate::package::{Candidate, CandidateView, Commits, GitCandidate, GitCandidateView, Package};
use crate::package::Versions;
use crate::plan::{announcement, begin, begin_git, changed, complained, complaint, exit, finish};
use crate::plan::{fits, fresh, git_announcement, git_jobs, git_restore_after, git_save_before};
use crate::plan::{give_up, install_at, install_git_at, installed};
use crate::plan::{installed_git, is_due, is_git_due, is_offered, jobs, listed, listed_git};
use crate::plan::{locate_at, located, next, open_at, opened, printed, pull_at, pull_git_at};
use crate::plan::{pulled, pulled_git, ran, ran_git, read, read_at, refresh_at, refreshed};
use crate::plan::{resolve_at, resolved, restore_after, save_before, upgrade, upgrade_git};
use crate::plan::{first_tables, is_self, shown_tables, tables_of_begin_git, tables_of_listed};
use crate::plan::{waiting, Plan, Stage, Turn};
use crate::registry::{add_package, find_group, group_of, holds_at, lemma_group_of, with_package};
use crate::registry::{Registry, RegistryGroup};
use crate::select::{select_git_packages, selected_git};
use crate::step::{Effect, EffectView, Event, EventView, Request, RequestView, Step};
use crate::table::{all_newest_known, candidate_rows, git_rows, lazy_sorted, tab_aligned, table};
use crate::table::{all_in_order, make_candidate_rows, make_git_rows, render, shown_in_order, Row};
use crate::tally::{failed_report, overall_failed, overall_updated, updated_report};
use crate::tally::{make_failed_report, make_overall_failed, make_overall_updated};
use crate::tally::{make_updated_report, Outcome, Tally};
use crate::views::{keep_marked, lemma_views_push, views};

verus! {

/// A run that is under way.
#[derive(Debug, PartialEq, Eq)]
pub struct Session {
    options: Options,
    config: Configuration,
    packages: Vec<Package>,
    git_packages: Vec<Package>,
    groups: Vec<RegistryGroup>,
    paths: Vec<String>,
    candidates: Vec<Candidate>,
    git_candidates: Vec<GitCandidate>,
    tally: Tally,
    overall: Tally,
    stage: Stage,
    cursor: usize,
}

impl View for Session {
    type V = Plan;

    closed spec fn view(&self) -> Plan {
        Plan {
            options: self.options@,
            config: self.config@,
            packages: views(self.packages@),
            git_packages: views(self.git_packages@),
            groups: views(self.groups@),
            paths: views(self.paths@),
            candidates: views(self.candidates@),
            git_candidates: views(self.git_candidates@),
            tally: self.tally@,
            overall: self.overall@,
            stage: self.stage,
            cursor: self.cursor as nat,
        }
    }
}

/// The turn of a run that takes on this state, has these effects and makes this request.
pub open spec fn turn(plan: Plan, effects: Seq<Effect>, request: Request) -> Turn {
    Turn { plan: plan, effects: views(effects), request: request@ }
}

/// Effects that come before effects come before them together.
proof fn lemma_after_after(turn: Turn, earlier: Seq<EffectView>, later: Seq<EffectView>)
    ensures
        turn.after(later).after(earlier) == turn.after(earlier + later),
        turn.after(Seq::empty()) == turn,
{
    assert(earlier + (later + turn.effects) =~= (earlier + later) + turn.effects);
    assert(Seq::empty() + turn.effects =~= turn.effects);
}

/// A run without registry packages shows the tables of no packages.
proof fn lemma_first_tables(plan: Plan)
    requires
        plan.packages.len() == 0,
        plan.candidates.len() == 0,
    ensures
        first_tables(plan) == if plan.options.quiet {
            Seq::empty()
        } else {
            tables_of_listed(plan)
        },
{
    reveal(Seq::filter);
    assert(candidate_rows(plan.config, plan.candidates) =~= Seq::empty());
    assert(plan.candidates =~= Seq::empty());
    assert(jobs(plan.options, plan.candidates).len() == 0);
}

/// Has a text printed, unless the user asked for quiet.
fn say(options: &Options, effects: &mut Vec<Effect>, text: String)
    ensures
        views(final(effects)@) == views(old(effects)@) + printed(options@, text@),
{
    let ghost before = effects@;
    let ghost said = text@;
    if !options.quiet {
        effects.push(Effect::Print { text });
    }
    assert(views(effects@) =~= views(before) + printed(options@, said));
}

/// Has a text printed as a complaint.
fn complain(effects: &mut Vec<Effect>, text: String)
    ensures
        views(final(effects)@) == views(old(effects)@) + complained(text@),
{
    let ghost before = effects@;
    let ghost said = text@;
    effects.push(Effect::Complain { text });
    assert(views(effects@) =~= views(before) + complained(said));
}

/// Has files changed.
fn change(effects: &mut Vec<Effect>, steps: Vec<FileStep>)
    ensures
        views(final(effects)@) == views(old(effects)@) + changed(views(steps@)),
{
    let ghost before = effects@;
    let ghost all = steps@;
    let count: usize = steps.len();
    let mut at: usize = 0;
    assert(views(effects@) =~= views(before) + changed(views(all)).take(0));
    for step in iter: steps
        invariant
            at == iter.index(),
            iter.seq() == all,
            count == all.len(),
            views(effects@) == views(before) + changed(views(all)).take(at as int),
    {
        let ghost so_far = effects@;
        let ghost effect = Effect::File { step };
        effects.push(Effect::File { step });
        proof {
            lemma_views_push(so_far, effect);
            assert(changed(views(all))[at as int] == effect@);
            assert(changed(views(all)).take(at + 1) =~= changed(views(all)).take(at as int).push(
                effect@,
            ));
            assert(views(effects@) =~= views(before) + changed(views(all)).take(at + 1));
        }
        at = at + 1;
    }
    assert(changed(views(all)).take(all.len() as int) =~= changed(views(all)));
}

/// Whether the package is this program.
fn names_this_program(name: &String) -> (own: bool)
    ensures
        own == is_self(name@),
{
    *name == "cargo-update".to_owned()
}

/// The steps before a registry package is installed.
fn save_for(options: &Options, candidate: &Candidate) -> (steps: Vec<FileStep>)
    ensures
        views(steps@) == save_before(options@, candidate@),
{
    match &candidate.versions.installed {
        Some(version) => {
            if names_this_program(&candidate.name) {
                return save_cargo_update_exec(options.windows, version.as_str());
            }
        },
        None => {},
    }
    let steps: Vec<FileStep> = Vec::new();
    assert(views(steps@) =~= Seq::empty());
    steps
}

/// The steps after a registry package was installed or not.
fn restore_for(options: &Options, candidate: &Candidate, outcome: Outcome) -> (steps: Vec<FileStep>)
    ensures
        views(steps@) == restore_after(options@, candidate@, outcome),
{
    match &candidate.versions.installed {
        Some(version) => {
            if !outcome.success && names_this_program(&candidate.name) {
                return restore_cargo_update_exec(options.windows, version.as_str());
            }
        },
        None => {},
    }
    let steps: Vec<FileStep> = Vec::new();
    assert(views(steps@) =~= Seq::empty());
    steps
}

/// The steps before a git package is installed.
fn git_save_for(options: &Options, candidate: &GitCandidate) -> (steps: Vec<FileStep>)
    ensures
        views(steps@) == git_save_before(options@, candidate@),
{
    if names_this_program(&candidate.name) {
        return save_cargo_update_exec(options.windows, candidate.commits.id.as_str());
    }
    let steps: Vec<FileStep> = Vec::new();
    assert(views(steps@) =~= Seq::empty());
    steps
}

/// The steps after a git package was installed or not.
fn git_restore_for(options: &Options, candidate: &GitCandidate, outcome: Outcome) -> (steps: Vec<
    FileStep,
>)
    ensures
        views(steps@) == git_restore_after(options@, candidate@, outcome),
{
    if !outcome.success && names_this_program(&candidate.name) {
        return restore_cargo_update_exec(options.windows, candidate.commits.id.as_str());
    }
    let steps: Vec<FileStep> = Vec::new();
    assert(views(steps@) =~= Seq::empty());
    steps
}

/// The registry packages to install.
fn select_jobs(options: &Options, candidates: Vec<Candidate>) -> (due: Vec<Candidate>)
    ensures
        views(due@) == jobs(options@, views(candidates@)),
{
    let wanted: Vec<Candidate> = if options.force {
        candidates
    } else {
        let mut marks: Vec<bool> = Vec::new();
        let mut i: usize = 0;
        while i < candidates.len()
            invariant
                i <= candidates@.len(),
                marks@.len() == i,
                forall|j: int| 0 <= j < i ==> marks@[j] == is_due()(#[trigger] candidates@[j]@),
            decreases candidates@.len() - i,
        {
            marks.push(candidates[i].versions.needs_update);
            i = i + 1;
        }
        keep_marked(candidates, &marks, Ghost(is_due()))
    };
    let mut marks: Vec<bool> = Vec::new();
    let mut i: usize = 0;
    while i < wanted.len()
        invariant
            i <= wanted@.len(),
            marks@.len() == i,
            forall|j: int| 0 <= j < i ==> marks@[j] == is_offered()(#[trigger] wanted@[j]@),
        decreases wanted@.len() - i,
    {
        marks.push(wanted[i].versions.update_to.is_some());
        i = i + 1;
    }
    keep_marked(wanted, &marks, Ghost(is_offered()))
}

/// The git packages to install.
fn select_git_jobs(options: &Options, candidates: Vec<GitCandidate>) -> (due: Vec<GitCandidate>)
    ensures
        views(due@) == git_jobs(options@, views(candidates@)),
{
    if options.force {
        return candidates;
    }
    let mut marks: Vec<bool> = Vec::new();
    let mut i: usize = 0;
    while i < candidates.len()
        invariant
            i <= candidates@.len(),
            marks@.len() == i,
            forall|j: int| 0 <= j < i ==> marks@[j] == is_git_due()(#[trigger] candidates@[j]@),
        decreases candidates@.len() - i,
    {
        marks.push(candidates[i].commits.needs_update);
        i = i + 1;
    }
    keep_marked(candidates, &marks, Ghost(is_git_due()))
}

impl Session {
    /// Ends the run.
    fn exit(&mut self, effects: &Vec<Effect>, code: i32) -> (request: Request)
        ensures
            turn(final(self)@, effects@, request) == exit(old(self)@, code).after(
                views(effects@),
            ),
    {
        self.stage = Stage::Done;
        proof {
            assert(views(effects@) + Seq::empty() =~= views(effects@));
        }
        Request::Exit { code }
    }

    /// Ends the run with a summary.
    fn finish(&mut self, effects: &mut Vec<Effect>) -> (request: Request)
        requires
            old(self)@.overall.consistent(),
        ensures
            turn(final(self)@, final(effects)@, request) == finish(old(self)@).after(
                views(old(effects)@),
            ),
    {
        let ghost plan = self@;
        let ghost before = views(effects@);
        if !self.options.update {
            return self.exit(effects, 0);
        }
        say(&self.options, effects, make_overall_updated(&self.overall.updated));
        if self.overall.failed.len() > 0 {
            complain(effects, make_overall_failed(&self.overall.failed));
            let code: i32 = match self.overall.code {
                Some(code) => code,
                None => 0,
            };
            proof {
                let after = printed(plan.options, overall_updated(plan.overall.updated))
                    + complained(overall_failed(plan.overall.failed));
                assert(views(effects@) =~= before + after);
                lemma_after_after(exit(plan, code), before, after);
            }
            self.exit(effects, code)
        } else {
            proof {
                let after = printed(plan.options, overall_updated(plan.overall.updated));
                lemma_after_after(exit(plan, 0), before, after);
            }
            self.exit(effects, 0)
        }
    }

    /// Waits for something.
    fn wait(&mut self, effects: &Vec<Effect>, stage: Stage, at: usize, request: Request) -> (made:
        Request)
        ensures
            turn(final(self)@, effects@, made) == waiting(
                old(self)@,
                stage,
                at as nat,
                request@,
            ).after(views(effects@)),
    {
        self.stage = stage;
        self.cursor = at;
        proof {
            assert(views(effects@) + Seq::empty() =~= views(effects@));
        }
        request
    }

    /// Asks for the registry of a package.
    fn resolve_at(&mut self, effects: &Vec<Effect>, at: usize) -> (request: Request)
        requires
            at < old(self)@.packages.len(),
        ensures
            turn(final(self)@, effects@, request) == resolve_at(old(self)@, at as nat).after(
                views(effects@),
            ),
    {
        let package: usize = self.packages[at].handle;
        self.wait(effects, Stage::Resolve, at, Request::ResolveRegistry { package })
    }

    /// Asks where an index is kept.
    fn locate_at(&mut self, effects: &Vec<Effect>, at: usize) -> (request: Request)
        requires
            at < old(self)@.groups.len(),
        ensures
            turn(final(self)@, effects@, request) == locate_at(old(self)@, at as nat).after(
                views(effects@),
            ),
    {
        let url: String = self.groups[at].registry.url.clone();
        self.wait(effects, Stage::Locate, at, Request::LocateIndex { url })
    }

    /// Has an index opened.
    fn open_at(&mut self, effects: &Vec<Effect>, at: usize) -> (request: Request)
        ensures
            turn(final(self)@, effects@, request) == open_at(old(self)@, at as nat).after(
                views(effects@),
            ),
    {
        self.wait(effects, Stage::Open, at, Request::OpenIndex { group: at })
    }

    /// Has an index fetched.
    fn refresh_at(&mut self, effects: &Vec<Effect>, at: usize) -> (request: Request)
        requires
            at < old(self)@.groups.len(),
        ensures
            turn(final(self)@, effects@, request) == refresh_at(old(self)@, at as nat).after(
                views(effects@),
            ),
    {
        let url: String = self.groups[at].registry.url.clone();
        let show: bool = !self.options.quiet;
        self.wait(effects, Stage::Refresh, at, Request::RefreshIndex { group: at, url, show })
    }

    /// Has the newest revision of an index looked up.
    fn read_at(&mut self, effects: &Vec<Effect>, at: usize) -> (request: Request)
        ensures
            turn(final(self)@, effects@, request) == read_at(old(self)@, at as nat).after(
                views(effects@),
            ),
    {
        let revision: String = "origin/master".to_owned();
        self.wait(effects, Stage::Read, at, Request::ReadRevision { group: at, revision })
    }

    /// Asks for the versions of a package.
    fn pull_at(&mut self, effects: &Vec<Effect>, at: usize) -> (request: Request)
        requires
            at < old(self)@.packages.len(),
            group_of(old(self)@.groups, old(self)@.packages[at as int].name) is Some,
        ensures
            turn(final(self)@, effects@, request) == pull_at(old(self)@, at as nat).after(
                views(effects@),
            ),
    {
        let package: usize = self.packages[at].handle;
        let group: usize = match find_group(&self.groups, &self.packages[at].name) {
            Some(group) => group,
            None => 0,
        };
        let install_prereleases: Option<bool> = match self.config.get(&self.packages[at].name) {
            Some(settings) => settings.install_prereleases,
            None => None,
        };
        self.wait(
            effects,
            Stage::Pull,
            at,
            Request::PullVersions { package, group, install_prereleases },
        )
    }

    /// Asks for the commits of a git package.
    fn pull_git_at(&mut self, effects: &Vec<Effect>, at: usize) -> (request: Request)
        requires
            at < old(self)@.git_packages.len(),
        ensures
            turn(final(self)@, effects@, request) == pull_git_at(old(self)@, at as nat).after(
                views(effects@),
            ),
    {
        let package: usize = self.git_packages[at].handle;
        self.wait(effects, Stage::PullGit, at, Request::PullCommits { package })
    }

    /// Announces and runs the install of a registry package.
    fn install_at(&mut self, effects: &mut Vec<Effect>, at: usize) -> (request: Request)
        requires
            at < old(self)@.candidates.len(),
            group_of(old(self)@.groups, old(self)@.candidates[at as int].name) is Some,
            old(self)@.candidates[at as int].versions.update_to is Some,
        ensures
            turn(final(self)@, final(effects)@, request) == install_at(
                old(self)@,
                at as nat,
            ).after(views(old(effects)@)),
    {
        let ghost plan = self@;
        let ghost before = views(effects@);
        let ghost job = plan.candidates[at as int];
        let candidate: &Candidate = &self.candidates[at];
        assert(candidate@ == job);
        let mut text: String = if candidate.versions.installed.is_some() {
            "Updating ".to_owned()
        } else {
            "Installing ".to_owned()
        };
        text.append(candidate.name.as_str());
        text.append("\n");
        say(&self.options, effects, text);
        change(effects, save_for(&self.options, candidate));
        let group: usize = match find_group(&self.groups, &candidate.name) {
            Some(group) => group,
            None => 0,
        };
        proof {
            lemma_group_of(plan.groups, job.name);
            assert(holds_at(plan.groups, job.name, group as int));
        }
        let args: Vec<CargoArg> = make_registry_args(
            &self.options,
            &self.config,
            &self.groups[group].registry.name,
            candidate,
        );
        proof {
            let after = printed(plan.options, announcement(job)) + changed(
                save_before(plan.options, job),
            );
            assert(views(effects@) =~= before + after);
            lemma_after_after(
                waiting(
                    plan,
                    Stage::Install,
                    at as nat,
                    RequestView::RunCargo { args: views(args@) },
                ),
                before,
                after,
            );
        }
        self.wait(effects, Stage::Install, at, Request::RunCargo { args })
    }

    /// Announces and runs the install of a git package.
    fn install_git_at(&mut self, effects: &mut Vec<Effect>, at: usize) -> (request: Request)
        requires
            at < old(self)@.git_candidates.len(),
        ensures
            turn(final(self)@, final(effects)@, request) == install_git_at(
                old(self)@,
                at as nat,
            ).after(views(old(effects)@)),
    {
        let ghost plan = self@;
        let ghost before = views(effects@);
        let ghost job = plan.git_candidates[at as int];
        let candidate: &GitCandidate = &self.git_candidates[at];
        assert(candidate@ == job);
        let mut text: String = "Updating ".to_owned();
        text.append(candidate.name.as_str());
        text.append(" from ");
        text.append(candidate.commits.url.as_str());
        text.append("\n");
        say(&self.options, effects, text);
        change(effects, git_save_for(&self.options, candidate));
        let args: Vec<CargoArg> = make_git_args(&self.options, &self.config, candidate);
        proof {
            let after = printed(plan.options, git_announcement(job)) + changed(
                git_save_before(plan.options, job),
            );
            assert(views(effects@) =~= before + after);
            lemma_after_after(
                waiting(
                    plan,
                    Stage::InstallGit,
                    at as nat,
                    RequestView::RunCargo { args: views(args@) },
                ),
                before,
                after,
            );
        }
        self.wait(effects, Stage::InstallGit, at, Request::RunCargo { args })
    }

    /// Shows the git packages, and installs what is to be installed.
    fn listed_git(&mut self, effects: &mut Vec<Effect>) -> (request: Request)
        requires
            old(self)@.overall.consistent(),
            old(self)@.options.quiet || all_newest_known(old(self)@.git_candidates),
        ensures
            turn(final(self)@, final(effects)@, request) == listed_git(old(self)@).after(
                views(old(effects)@),
            ),
            old(self)@.options.quiet || shown_in_order(git_rows(old(self)@.git_candidates)),
    {
        let ghost plan = self@;
        let ghost before = views(effects@);
        let ghost shown = printed(
            plan.options,
            tab_aligned(table(lazy_sorted(git_rows(plan.git_candidates)))),
        );
        if !self.options.quiet {
            say(&self.options, effects, render(make_git_rows(&self.git_candidates)));
        }
        assert(views(effects@) =~= before + shown);
        proof {
            lemma_after_after(upgrade_git(plan), before, shown);
        }
        self.upgrade_git(effects)
    }

    /// Installs what is to be installed of the git packages.
    fn upgrade_git(&mut self, effects: &mut Vec<Effect>) -> (request: Request)
        requires
            old(self)@.overall.consistent(),
        ensures
            turn(final(self)@, final(effects)@, request) == upgrade_git(old(self)@).after(
                views(old(effects)@),
            ),
    {
        let ghost plan = self@;
        let ghost before = views(effects@);
        if !self.options.update {
            return self.finish(effects);
        }
        let mut known: Vec<GitCandidate> = Vec::new();
        std::mem::swap(&mut known, &mut self.git_candidates);
        let due: Vec<GitCandidate> = select_git_jobs(&self.options, known);
        self.git_candidates = due;
        if self.git_candidates.len() == 0 {
            proof {
                let begun = Plan {
                    git_candidates: git_jobs(plan.options, plan.git_candidates),
                    ..plan
                };
                assert(self@ =~= begun);
                lemma_after_after(
                    finish(begun),
                    before,
                    printed(plan.options, "No git packages need updating.\n"@),
                );
            }
            say(&self.options, effects, "No git packages need updating.\n".to_owned());
            self.finish(effects)
        } else {
            self.tally = Tally::empty();
            self.install_git_at(effects, 0)
        }
    }

    /// Goes on with git packages, if they are to be updated.
    fn begin_git(&mut self, effects: &mut Vec<Effect>) -> (request: Request)
        requires
            old(self)@.overall.consistent(),
        ensures
            turn(final(self)@, final(effects)@, request) == begin_git(old(self)@).after(
                views(old(effects)@),
            ),
            all_in_order(tables_of_begin_git(old(self)@)),
    {
        let ghost plan = self@;
        if !self.options.update_git {
            return self.finish(effects);
        }
        let mut all: Vec<Package> = Vec::new();
        std::mem::swap(&mut all, &mut self.git_packages);
        let chosen: Vec<Package> = select_git_packages(&self.options, &self.config, all);
        self.git_packages = chosen;
        self.git_candidates = Vec::new();
        proof {
            let begun = Plan {
                git_packages: selected_git(plan.options, plan.config, plan.git_packages),
                git_candidates: Seq::empty(),
                ..plan
            };
            assert(self@ =~= begun);
            assert(git_rows(Seq::empty()) =~= Seq::empty());
        }
        if self.git_packages.len() == 0 {
            self.listed_git(effects)
        } else {
            self.pull_git_at(effects, 0)
        }
    }

    /// Reports on the git packages.
    fn installed_git(&mut self, effects: &mut Vec<Effect>) -> (request: Request)
        requires
            old(self)@.tally.consistent(),
            old(self)@.overall.consistent(),
        ensures
            turn(final(self)@, final(effects)@, request) == installed_git(old(self)@).after(
                views(old(effects)@),
            ),
    {
        let ghost plan = self@;
        let ghost before = views(effects@);
        let ghost said = printed(
            plan.options,
            updated_report("git package"@, plan.tally.updated.len()),
        );
        say(
            &self.options,
            effects,
            make_updated_report("git package", self.tally.updated.len()),
        );
        let failed: bool = self.tally.failed.len() > 0;
        if failed {
            complain(effects, make_failed_report(&self.tally.failed));
        }
        let first: bool = self.overall.code.is_none();
        let code: i32 = match self.tally.code {
            Some(code) => code,
            None => 0,
        };
        let later: Tally = self.tally.copy();
        self.overall.extend(later);
        let ghost ended = Plan { overall: plan.overall.followed_by(plan.tally), ..plan };
        proof {
            assert(self@ =~= ended);
            assert(ended.overall.consistent());
        }
        if failed {
            let ghost after = said + complained(failed_report(plan.tally.failed));
            assert(views(effects@) =~= before + after);
            if first {
                proof {
                    lemma_after_after(exit(ended, code), before, after);
                }
                self.exit(effects, code)
            } else {
                proof {
                    lemma_after_after(finish(ended), before, after);
                }
                self.finish(effects)
            }
        } else {
            proof {
                lemma_after_after(finish(ended), before, said);
            }
            self.finish(effects)
        }
    }

    /// Reports on the registry packages.
    fn installed(&mut self, effects: &mut Vec<Effect>) -> (request: Request)
        requires
            old(self)@.tally.consistent(),
        ensures
            turn(final(self)@, final(effects)@, request) == installed(old(self)@).after(
                views(old(effects)@),
            ),
            all_in_order(tables_of_begin_git(old(self)@)),
    {
        let ghost plan = self@;
        let ghost before = views(effects@);
        let ghost said = printed(
            plan.options,
            updated_report("package"@, plan.tally.updated.len()),
        );
        say(&self.options, effects, make_updated_report("package", self.tally.updated.len()));
        let failed: bool = self.tally.failed.len() > 0;
        if failed {
            complain(effects, make_failed_report(&self.tally.failed));
        }
        let code: i32 = match self.tally.code {
            Some(code) => code,
            None => 0,
        };
        self.overall = self.tally.copy();
        let ghost ended = Plan { overall: plan.tally, ..plan };
        assert(self@ =~= ended);
        if failed {
            let ghost after = said + complained(failed_report(plan.tally.failed));
            assert(views(effects@) =~= before + after);
            if self.options.update_git {
                proof {
                    lemma_after_after(begin_git(ended), before, after);
                }
                self.begin_git(effects)
            } else {
                proof {
                    lemma_after_after(exit(ended, code), before, after);
                }
                self.exit(effects, code)
            }
        } else {
            proof {
                lemma_after_after(begin_git(ended), before, said);
            }
            self.begin_git(effects)
        }
    }

    /// Installs what is to be installed of the registry packages.
    fn upgrade(&mut self, effects: &mut Vec<Effect>) -> (request: Request)
        requires
            old(self)@.overall.consistent(),
            candidates_found(old(self)@.groups, old(self)@.candidates),
        ensures
            turn(final(self)@, final(effects)@, request) == upgrade(old(self)@).after(
                views(old(effects)@),
            ),
            !old(self)@.options.update || jobs(old(self)@.options, old(self)@.candidates).len() == 0
                ==> all_in_order(tables_of_begin_git(old(self)@)),
    {
        let ghost plan = self@;
        let ghost before = views(effects@);
        if !self.options.update {
            return self.begin_git(effects);
        }
        proof {
            lemma_jobs(plan);
        }
        let mut known: Vec<Candidate> = Vec::new();
        std::mem::swap(&mut known, &mut self.candidates);
        let due: Vec<Candidate> = select_jobs(&self.options, known);
        self.candidates = due;
        if self.candidates.len() == 0 {
            proof {
                let begun = Plan { candidates: jobs(plan.options, plan.candidates), ..plan };
                assert(self@ =~= begun);
                lemma_after_after(
                    begin_git(begun),
                    before,
                    printed(plan.options, "No packages need updating.\n"@),
                );
            }
            say(&self.options, effects, "No packages need updating.\n".to_owned());
            self.begin_git(effects)
        } else {
            self.tally = Tally::empty();
            proof {
                let first = self@.candidates[0];
                assert(first.versions.update_to is Some);
                assert(group_of(self@.groups, first.name) is Some);
            }
            self.install_at(effects, 0)
        }
    }

    /// Shows the registry packages, and installs what is to be installed.
    fn listed(&mut self, effects: &mut Vec<Effect>) -> (request: Request)
        requires
            old(self)@.overall.consistent(),
            candidates_found(old(self)@.groups, old(self)@.candidates),
        ensures
            turn(final(self)@, final(effects)@, request) == listed(old(self)@).after(
                views(old(effects)@),
            ),
            all_in_order(tables_of_listed(old(self)@)),
    {
        let ghost plan = self@;
        let ghost before = views(effects@);
        let ghost shown = printed(
            plan.options,
            tab_aligned(table(lazy_sorted(candidate_rows(plan.config, plan.candidates)))),
        );
        if !self.options.quiet {
            let rows: Vec<Row> = make_candidate_rows(&self.config, &self.candidates);
            say(&self.options, effects, render(rows));
        }
        assert(views(effects@) =~= before + shown);
        proof {
            lemma_after_after(upgrade(plan), before, shown);
        }
        self.upgrade(effects)
    }

    /// Takes the registry of a package.
    fn resolved(&mut self, effects: &Vec<Effect>, registry: Registry) -> (request: Request)
        requires
            well_formed(old(self)@),
            old(self)@.stage is Resolve,
        ensures
            turn(final(self)@, effects@, request) == resolved(old(self)@, registry@).after(
                views(effects@),
            ),
    {
        let ghost plan = self@;
        let ghost found = registry@;
        let name: String = self.packages[self.cursor].name.clone();
        proof {
            lemma_next_well_formed(plan, EventView::Resolved { registry: found });
        }
        add_package(&mut self.groups, registry, name);
        let ghost further = Plan { groups: with_package(plan.groups, found, name@), ..plan };
        assert(self@ =~= further);
        if self.packages.len() - self.cursor > 1 {
            let at: usize = self.cursor + 1;
            self.resolve_at(effects, at)
        } else {
            self.locate_at(effects, 0)
        }
    }

    /// Takes the place of an index.
    fn located(&mut self, effects: &Vec<Effect>, path: String) -> (request: Request)
        requires
            well_formed(old(self)@),
            old(self)@.stage is Locate,
        ensures
            turn(final(self)@, effects@, request) == located(old(self)@, path@).after(
                views(effects@),
            ),
    {
        let ghost plan = self@;
        let ghost place = path@;
        self.paths.push(path);
        assert(self@ =~= Plan { paths: plan.paths.push(place), ..plan });
        if self.groups.len() - self.cursor > 1 {
            let at: usize = self.cursor + 1;
            self.locate_at(effects, at)
        } else {
            self.open_at(effects, 0)
        }
    }

    /// Goes on once an index is open.
    fn opened(&mut self, effects: &Vec<Effect>) -> (request: Request)
        requires
            well_formed(old(self)@),
            old(self)@.stage is Open,
        ensures
            turn(final(self)@, effects@, request) == opened(old(self)@).after(views(effects@)),
    {
        if self.groups.len() - self.cursor > 1 {
            let at: usize = self.cursor + 1;
            self.open_at(effects, at)
        } else {
            self.refresh_at(effects, 0)
        }
    }

    /// Goes on once an index is fetched.
    fn refreshed(&mut self, effects: &Vec<Effect>) -> (request: Request)
        requires
            well_formed(old(self)@),
            old(self)@.stage is Refresh,
        ensures
            turn(final(self)@, effects@, request) == refreshed(old(self)@).after(views(effects@)),
    {
        if self.groups.len() - self.cursor > 1 {
            let at: usize = self.cursor + 1;
            self.refresh_at(effects, at)
        } else {
            self.read_at(effects, 0)
        }
    }

    /// Goes on once a revision of an index is known.
    fn read(&mut self, effects: &Vec<Effect>) -> (request: Request)
        requires
            well_formed(old(self)@),
            old(self)@.stage is Read,
        ensures
            turn(final(self)@, effects@, request) == read(old(self)@).after(views(effects@)),
    {
        let ghost plan = self@;
        if self.groups.len() - self.cursor > 1 {
            let at: usize = self.cursor + 1;
            self.read_at(effects, at)
        } else {
            self.candidates = Vec::new();
            proof {
                assert(self@ =~= Plan { candidates: Seq::empty(), ..plan });
                assert(group_of(plan.groups, plan.packages[0].name) is Some);
            }
            self.pull_at(effects, 0)
        }
    }

    /// Takes the versions of a package.
    fn pulled(&mut self, effects: &mut Vec<Effect>, versions: Versions) -> (request: Request)
        requires
            well_formed(old(self)@),
            old(self)@.stage is Pull,
        ensures
            turn(final(self)@, final(effects)@, request) == pulled(old(self)@, versions@).after(
                views(old(effects)@),
            ),
            all_in_order(shown_tables(old(self)@, EventView::Pulled { versions: versions@ })),
    {
        let ghost plan = self@;
        let ghost name_view = plan.packages[plan.cursor as int].name;
        let ghost candidate = CandidateView { name: name_view, versions: versions@ };
        let name: String = self.packages[self.cursor].name.clone();
        self.candidates.push(Candidate { name, versions });
        let ghost further = Plan { candidates: plan.candidates.push(candidate), ..plan };
        assert(self@ =~= further);
        if self.packages.len() - self.cursor > 1 {
            let at: usize = self.cursor + 1;
            assert(group_of(plan.groups, plan.packages[at as int].name) is Some);
            self.pull_at(effects, at)
        } else {
            assert(group_of(plan.groups, plan.packages[plan.cursor as int].name) is Some);
            assert(candidates_found(further.groups, further.candidates));
            self.listed(effects)
        }
    }

    /// Takes down how the install of a registry package went.
    fn ran(&mut self, effects: &mut Vec<Effect>, outcome: Outcome) -> (request: Request)
        requires
            well_formed(old(self)@),
            old(self)@.stage is Install,
        ensures
            turn(final(self)@, final(effects)@, request) == ran(old(self)@, outcome).after(
                views(old(effects)@),
            ),
            all_in_order(shown_tables(old(self)@, EventView::Ran { outcome: outcome })),
    {
        let ghost plan = self@;
        let ghost before = views(effects@);
        let ghost job = plan.candidates[plan.cursor as int];
        let ghost after = printed(plan.options, "\n"@) + changed(
            restore_after(plan.options, job, outcome),
        );
        let candidate: &Candidate = &self.candidates[self.cursor];
        assert(candidate@ == job);
        say(&self.options, effects, "\n".to_owned());
        change(effects, restore_for(&self.options, candidate, outcome));
        assert(views(effects@) =~= before + after);
        let name: String = candidate.name.clone();
        self.tally.record(name, outcome);
        let ghost further = Plan { tally: plan.tally.with(job.name, outcome), ..plan };
        assert(self@ =~= further);
        if self.candidates.len() - self.cursor > 1 {
            let at: usize = self.cursor + 1;
            proof {
                let following = plan.candidates[at as int];
                assert(following.versions.update_to is Some);
                assert(group_of(plan.groups, following.name) is Some);
                lemma_after_after(install_at(further, at as nat), before, after);
            }
            self.install_at(effects, at)
        } else {
            proof {
                lemma_after_after(installed(further), before, after);
            }
            self.installed(effects)
        }
    }

    /// Takes the commits of a git package.
    fn pulled_git(&mut self, effects: &mut Vec<Effect>, commits: Commits) -> (request: Request)
        requires
            well_formed(old(self)@),
            old(self)@.stage is PullGit,
            old(self)@.options.quiet || commits@.newest is Some,
        ensures
            turn(final(self)@, final(effects)@, request) == pulled_git(
                old(self)@,
                commits@,
            ).after(views(old(effects)@)),
            all_in_order(shown_tables(old(self)@, EventView::PulledCommits { commits: commits@ })),
    {
        let ghost plan = self@;
        let ghost name_view = plan.git_packages[plan.cursor as int].name;
        let ghost candidate = GitCandidateView { name: name_view, commits: commits@ };
        let name: String = self.git_packages[self.cursor].name.clone();
        self.git_candidates.push(GitCandidate { name, commits });
        let ghost further = Plan { git_candidates: plan.git_candidates.push(candidate), ..plan };
        assert(self@ =~= further);
        if self.git_packages.len() - self.cursor > 1 {
            let at: usize = self.cursor + 1;
            self.pull_git_at(effects, at)
        } else {
            self.listed_git(effects)
        }
    }

    /// Takes down how the install of a git package went.
    fn ran_git(&mut self, effects: &mut Vec<Effect>, outcome: Outcome) -> (request: Request)
        requires
            well_formed(old(self)@),
            old(self)@.stage is InstallGit,
        ensures
            turn(final(self)@, final(effects)@, request) == ran_git(old(self)@, outcome).after(
                views(old(effects)@),
            ),
    {
        let ghost plan = self@;
        let ghost before = views(effects@);
        let ghost job = plan.git_candidates[plan.cursor as int];
        let ghost after = printed(plan.options, "\n"@) + changed(
            git_restore_after(plan.options, job, outcome),
        );
        let candidate: &GitCandidate = &self.git_candidates[self.cursor];
        assert(candidate@ == job);
        say(&self.options, effects, "\n".to_owned());
        change(effects, git_restore_for(&self.options, candidate, outcome));
        assert(views(effects@) =~= before + after);
        let name: String = candidate.name.clone();
        self.tally.record(name, outcome);
        let ghost further = Plan { tally: plan.tally.with(job.name, outcome), ..plan };
        assert(self@ =~= further);
        if self.git_candidates.len() - self.cursor > 1 {
            let at: usize = self.cursor + 1;
            proof {
                lemma_after_after(install_git_at(further, at as nat), before, after);
            }
            self.install_git_at(effects, at)
        } else {
            proof {
                lemma_after_after(installed_git(further), before, after);
            }
            self.installed_git(effects)
        }
    }

    /// What is said where a request concerning a registry could not be met.
    fn complaint(&self, reason: &String) -> (text: String)
        requires
            well_formed(self@),
            fits(self@, EventView::Failed { reason: reason@ }),
        ensures
            text@ == complaint(self@, reason@),
    {
        let mut text: String;
        match self.stage {
            Stage::Resolve => {
                text = "Couldn't get registry for ".to_owned();
                text.append(self.packages[self.cursor].name.as_str());
                text.append(": ");
                text.append(reason.as_str());
            },
            Stage::Locate => {
                text = "Couldn't get package repository: ".to_owned();
                text.append(reason.as_str());
            },
            Stage::Open => {
                text = "Failed to open registry repository at ".to_owned();
                text.append(self.paths[self.cursor].as_str());
            },
            Stage::Refresh => {
                text = "Failed to update index repository: ".to_owned();
                text.append(reason.as_str());
            },
            _ => {
                text = "Failed to read master branch of registry repository at ".to_owned();
                text.append(self.paths[self.cursor].as_str());
            },
        }
        text.append(".\n");
        text
    }

    /// Ends the run because a registry cannot be used.
    fn give_up(&mut self, effects: &mut Vec<Effect>, reason: String) -> (request: Request)
        requires
            well_formed(old(self)@),
            fits(old(self)@, EventView::Failed { reason: reason@ }),
        ensures
            turn(final(self)@, final(effects)@, request) == give_up(
                old(self)@,
                complaint(old(self)@, reason@),
            ).after(views(old(effects)@)),
    {
        proof {
            lemma_after_after(
                exit(self@, 2),
                views(effects@),
                complained(complaint(self@, reason@)),
            );
        }
        complain(effects, self.complaint(&reason));
        self.exit(effects, 2)
    }

    /// Begins a run.
    pub fn start(
        options: Options,
        config: Configuration,
        packages: Vec<Package>,
        git_packages: Vec<Package>,
    ) -> (started: (Session, Step))
        ensures
            turn(started.0@, started.1.effects@, started.1.request) == begin(
                fresh(options@, config@, views(packages@), views(git_packages@)),
            ),
            well_formed(started.0@),
            all_in_order(
                first_tables(fresh(options@, config@, views(packages@), views(git_packages@))),
            ),
    {
        let mut session = Session {
            options,
            config,
            packages,
            git_packages,
            groups: Vec::new(),
            paths: Vec::new(),
            candidates: Vec::new(),
            git_candidates: Vec::new(),
            tally: Tally::empty(),
            overall: Tally::empty(),
            stage: Stage::Resolve,
            cursor: 0,
        };
        let ghost plan = fresh(options@, config@, views(packages@), views(git_packages@));
        proof {
            assert(session@ =~= plan);
            lemma_begin_well_formed(plan);
            lemma_after_after(begin(plan), Seq::empty(), Seq::empty());
        }
        let mut effects: Vec<Effect> = Vec::new();
        assert(views(effects@) =~= Seq::empty());
        let request: Request = if session.packages.len() == 0 {
            proof {
                lemma_first_tables(plan);
            }
            session.listed(&mut effects)
        } else {
            session.resolve_at(&effects, 0)
        };
        (session, Step { effects, request })
    }

    /// Whether the event answers what the run waits for.
    pub fn accepts(&self, event: &Event) -> (fitting: bool)
        ensures
            fitting == fits(self@, event@),
    {
        match event {
            Event::Resolved { .. } => match self.stage {
                Stage::Resolve => true,
                _ => false,
            },
            Event::Located { .. } => match self.stage {
                Stage::Locate => true,
                _ => false,
            },
            Event::Succeeded => match self.stage {
                Stage::Open | Stage::Refresh | Stage::Read => true,
                _ => false,
            },
            Event::Failed { .. } => match self.stage {
                Stage::Resolve | Stage::Locate | Stage::Open | Stage::Refresh | Stage::Read => true,
                _ => false,
            },
            Event::Pulled { .. } => match self.stage {
                Stage::Pull => true,
                _ => false,
            },
            Event::PulledCommits { commits } => match self.stage {
                Stage::PullGit => self.options.quiet || commits.newest.is_some(),
                _ => false,
            },
            Event::Ran { .. } => match self.stage {
                Stage::Install | Stage::InstallGit => true,
                _ => false,
            },
        }
    }

    /// Takes the run one turn further.
    #[verifier::rlimit(50)]
    pub fn advance(&mut self, event: Event) -> (step: Step)
        requires
            well_formed(old(self)@),
            fits(old(self)@, event@),
        ensures
            turn(final(self)@, step.effects@, step.request) == next(old(self)@, event@),
            well_formed(final(self)@),
            all_in_order(shown_tables(old(self)@, event@)),
    {
        let ghost plan = self@;
        let ghost answer = event@;
        proof {
            lemma_next_well_formed(plan, answer);
            lemma_after_after(next(plan, answer), Seq::empty(), Seq::empty());
        }
        let mut effects: Vec<Effect> = Vec::new();
        assert(views(effects@) =~= Seq::empty());
        match event {
            Event::Resolved { registry } => {
                let request: Request = self.resolved(&effects, registry);
                Step { effects, request }
            },
            Event::Located { path } => {
                let request: Request = self.located(&effects, path);
                Step { effects, request }
            },
            Event::Succeeded => {
                let request: Request = match self.stage {
                    Stage::Open => self.opened(&effects),
                    Stage::Refresh => self.refreshed(&effects),
                    _ => self.read(&effects),
                };
                Step { effects, request }
            },
            Event::Failed { reason } => {
                let request: Request = self.give_up(&mut effects, reason);
                Step { effects, request }
            },
            Event::Pulled { versions } => {
                let request: Request = self.pulled(&mut effects, versions);
                assert(turn(self@, effects@, request) == next(plan, answer));
                Step { effects, request }
            },
            Event::PulledCommits { commits } => {
                let request: Request = self.pulled_git(&mut effects, commits);
                assert(turn(self@, effects@, request) == next(plan, answer));
                Step { effects, request }
            },
            Event::Ran { outcome } => {
                let request: Request = match self.stage {
                    Stage::Install => self.ran(&mut effects, outcome),
                    _ => self.ran_git(&mut effects, outcome),
                };
                assert(turn(self@, effects@, request) == next(plan, answer));
                Step { effects, request }
            },
        }
    }
}

} // verus!
