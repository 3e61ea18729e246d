//! What it changes in a run that the user asks for quiet.

use vstd::prelude::*;
use crate::command::{complete, first_args, git_args, registry_args, version_to_install};
use crate::command::CargoArgView;
use crate::config::SettingsView;
use crate::course::{answers, course, lemma_course_obeys, reply, requests};
use crate::executable::FileStepView;
use crate::options::OptionsView;
use crate::package::{CandidateView, CommitsView, GitCandidateView, VersionsView};
use crate::plan::{announcement, begin, begin_git, changed, complained, complaint, exit, finish};
use crate::plan::{fits, fresh, git_announcement, git_jobs, git_restore_after, git_save_before};
use crate::plan::{give_up, install_at, install_git_at, installed, installed_git, jobs, listed};
use crate::plan::{listed_git, locate_at, located, open_at, opened, printed, pull_at, pull_git_at};
use crate::plan::{pulled, pulled_git, ran, ran_git, read, read_at, refresh_at, refreshed};
use crate::plan::{resolve_at, resolved, restore_after, save_before, upgrade, upgrade_git, waiting};
use crate::plan::{Plan, Stage, Turn};
use crate::registry::{group_of, with_package, RegistryView};
use crate::select::selected_git;
use crate::step::{EffectView, EventView, RequestView};
use crate::table::{candidate_rows, git_rows, lazy_sorted, tab_aligned, table};
use crate::tally::{failed_report, overall_failed, overall_updated, updated_report, Outcome};
use crate::tally::TallyView;
use crate::text::Text;

verus! {

/// The same run, with quiet asked for.
pub open spec fn hushed(plan: Plan) -> Plan {
    Plan { options: OptionsView { quiet: true, ..plan.options }, ..plan }
}

/// The effect is a complaint or a change to a file.
pub open spec fn is_kept() -> spec_fn(EffectView) -> bool {
    |effect: EffectView| !(effect is Print)
}

/// The arguments in `quiet` are those in `loud` with one `--quiet` more, which stands at `at`,
/// right before what says where the package comes from.
pub open spec fn quiet_at(loud: Seq<CargoArgView>, quiet: Seq<CargoArgView>, at: int) -> bool {
    &&& 0 <= at < loud.len()
    &&& loud[at] == (CargoArgView::Text { text: "--vers"@ }) || loud[at] == (CargoArgView::Text {
        text: "--git"@,
    })
    &&& quiet == loud.insert(at, CargoArgView::Text { text: "--quiet"@ })
}

/// What a quiet run asks for where a loud one asks for `loud`: `cargo` is run with one `--quiet`
/// more, how an index is fetched is not shown, and everything else is the same.
pub open spec fn quieter(loud: RequestView, quiet: RequestView) -> bool {
    match loud {
        RequestView::RunCargo { args } => {
            &&& quiet is RunCargo
            &&& exists|at: int| quiet_at(args, quiet->args, at)
        },
        RequestView::RefreshIndex { group, url, show } => {
            &&& show
            &&& quiet == (RequestView::RefreshIndex { group: group, url: url, show: false })
        },
        _ => quiet == loud,
    }
}

/// The turn of a quiet run beside that of a loud one: it leads to the same state, has the same
/// effects but for what is printed, and makes the same request as far as [`quieter`] says.
pub open spec fn hushes(loud: Turn, quiet: Turn) -> bool {
    &&& !loud.plan.options.quiet
    &&& quiet.plan == hushed(loud.plan)
    &&& quiet.effects == loud.effects.filter(is_kept())
    &&& quieter(loud.request, quiet.request)
}

/// The two turns are as [`hushes`] says. Most proofs keep it folded.
#[verifier::opaque]
spec fn beside(loud: Turn, quiet: Turn) -> bool {
    hushes(loud, quiet)
}

/// Turns that only wait for something.
proof fn lemma_waiting(plan: Plan, stage: Stage, at: nat, loud: RequestView, quiet: RequestView)
    requires
        !plan.options.quiet,
        quieter(loud, quiet),
    ensures
        beside(waiting(plan, stage, at, loud), waiting(hushed(plan), stage, at, quiet)),
{
    reveal(beside);
    reveal(Seq::filter);
}

/// The effects of the two runs may each be put after effects that differ in the same way.
proof fn lemma_after(loud: Turn, quiet: Turn, ahead: Seq<EffectView>, kept: Seq<EffectView>)
    requires
        beside(loud, quiet),
        kept == ahead.filter(is_kept()),
    ensures
        beside(loud.after(ahead), quiet.after(kept)),
{
    reveal(beside);
    Seq::filter_distributes_over_add(ahead, loud.effects, is_kept());
}

/// Changes to files are kept.
proof fn lemma_changed(steps: Seq<FileStepView>)
    ensures
        changed(steps).filter(is_kept()) == changed(steps),
    decreases steps.len(),
{
    reveal(Seq::filter);
    if steps.len() > 0 {
        lemma_changed(steps.drop_last());
        assert(changed(steps).drop_last() =~= changed(steps.drop_last()));
        assert(changed(steps).last() is File);
        assert(changed(steps) =~= changed(steps.drop_last()).push(changed(steps).last()));
    } else {
        assert(changed(steps).len() == 0);
    }
}

/// Of what is printed nothing is kept; of what follows, everything.
proof fn lemma_said(options: OptionsView, said: Text, complaint: Text, steps: Seq<FileStepView>)
    requires
        !options.quiet,
    ensures
        ({
            let quiet = OptionsView { quiet: true, ..options };
            &&& printed(quiet, said) == printed(options, said).filter(is_kept())
            &&& complained(complaint) == complained(complaint).filter(is_kept())
            &&& printed(quiet, said) + complained(complaint) == (printed(options, said)
                + complained(complaint)).filter(is_kept())
            &&& printed(quiet, said) + changed(steps) == (printed(options, said)
                + changed(steps)).filter(is_kept())
        }),
{
    let quiet = OptionsView { quiet: true, ..options };
    reveal_with_fuel(Seq::filter, 2);
    let print = printed(options, said);
    assert(print.drop_last() =~= Seq::empty());
    assert(print.filter(is_kept()) =~= printed(quiet, said));
    let complain = complained(complaint);
    assert(complain.drop_last() =~= Seq::empty());
    assert(complain.filter(is_kept()) =~= complain);
    lemma_changed(steps);
    Seq::filter_distributes_over_add(print, complain, is_kept());
    Seq::filter_distributes_over_add(print, changed(steps), is_kept());
}

/// The end of the program.
proof fn lemma_exit(plan: Plan, code: i32)
    requires
        !plan.options.quiet,
    ensures
        beside(exit(plan, code), exit(hushed(plan), code)),
{
    reveal(beside);
    reveal(Seq::filter);
}

/// Arguments that begin with some and go on with `--vers` or `--git`, with and without quiet.
proof fn lemma_quiet_args(
    options: OptionsView,
    config: Map<Text, SettingsView>,
    name: Text,
    rest: Seq<Text>,
)
    requires
        !options.quiet,
        rest.len() > 0,
        rest[0] == "--vers"@ || rest[0] == "--git"@,
    ensures
        ({
            let quiet = OptionsView { quiet: true, ..options };
            exists|at: int|
                quiet_at(
                    complete(first_args(options, config, name) + rest, options.pass_through),
                    complete(first_args(quiet, config, name) + rest, options.pass_through),
                    at,
                )
        }),
{
    let quiet = OptionsView { quiet: true, ..options };
    let first = first_args(options, config, name);
    let loud_args = complete(first + rest, options.pass_through);
    let quiet_args = complete(first_args(quiet, config, name) + rest, options.pass_through);
    let at = first.len() as int;
    assert(first_args(quiet, config, name) =~= first.push("--quiet"@));
    assert(quiet_args =~= loud_args.insert(at, CargoArgView::Text { text: "--quiet"@ }));
    assert(loud_args[at] == (CargoArgView::Text { text: rest[0] }));
    assert(quiet_at(loud_args, quiet_args, at));
}

/// The install of a registry package.
proof fn lemma_install(plan: Plan, at: nat)
    requires
        !plan.options.quiet,
    ensures
        beside(install_at(plan, at), install_at(hushed(plan), at)),
{
    let job = plan.candidates[at as int];
    let group = group_of(plan.groups, job.name)->0;
    let registry = plan.groups[group as int].registry.name;
    let rest = seq![
        "--vers"@,
        version_to_install(plan.config, job),
        "--registry"@,
        registry,
        job.name,
    ];
    lemma_quiet_args(plan.options, plan.config, job.name, rest);
    assert(registry_args(plan.options, plan.config, registry, job) == complete(
        first_args(plan.options, plan.config, job.name) + rest,
        plan.options.pass_through,
    ));
    let steps = save_before(plan.options, job);
    lemma_said(plan.options, announcement(job), Seq::empty(), steps);
    let loud = RequestView::RunCargo {
        args: registry_args(plan.options, plan.config, registry, job),
    };
    let quiet = RequestView::RunCargo {
        args: registry_args(hushed(plan).options, plan.config, registry, job),
    };
    let more = choose|more: int|
        quiet_at(
            complete(
                first_args(plan.options, plan.config, job.name) + rest,
                plan.options.pass_through,
            ),
            complete(
                first_args(hushed(plan).options, plan.config, job.name) + rest,
                plan.options.pass_through,
            ),
            more,
        );
    assert(quiet_at(loud->args, quiet->args, more));
    lemma_waiting(plan, Stage::Install, at, loud, quiet);
    lemma_after(
        waiting(plan, Stage::Install, at, loud),
        waiting(hushed(plan), Stage::Install, at, quiet),
        printed(plan.options, announcement(job)) + changed(steps),
        printed(hushed(plan).options, announcement(job)) + changed(steps),
    );
}

/// The install of a git package.
proof fn lemma_install_git(plan: Plan, at: nat)
    requires
        !plan.options.quiet,
    ensures
        beside(install_git_at(plan, at), install_git_at(hushed(plan), at)),
{
    let job = plan.git_candidates[at as int];
    let quiet = hushed(plan).options;
    let source = seq!["--git"@, job.commits.url, job.name];
    let branch: Seq<Text> = match job.commits.branch {
        Some(branch) => seq!["--branch"@, branch],
        None => Seq::empty(),
    };
    lemma_quiet_args(plan.options, plan.config, job.name, source + branch);
    let first = first_args(plan.options, plan.config, job.name);
    let quiet_first = first_args(quiet, plan.config, job.name);
    assert((first + source) + branch =~= first + (source + branch));
    assert((quiet_first + source) + branch =~= quiet_first + (source + branch));
    assert(git_args(plan.options, plan.config, job) == complete(
        first + (source + branch),
        plan.options.pass_through,
    ));
    let steps = git_save_before(plan.options, job);
    lemma_said(plan.options, git_announcement(job), Seq::empty(), steps);
    let loud_run = RequestView::RunCargo { args: git_args(plan.options, plan.config, job) };
    let quiet_run = RequestView::RunCargo { args: git_args(quiet, plan.config, job) };
    let more = choose|more: int|
        quiet_at(
            complete(first + (source + branch), plan.options.pass_through),
            complete(quiet_first + (source + branch), plan.options.pass_through),
            more,
        );
    assert(quiet_at(loud_run->args, quiet_run->args, more));
    lemma_waiting(plan, Stage::InstallGit, at, loud_run, quiet_run);
    lemma_after(
        waiting(plan, Stage::InstallGit, at, loud_run),
        waiting(hushed(plan), Stage::InstallGit, at, quiet_run),
        printed(plan.options, git_announcement(job)) + changed(steps),
        printed(quiet, git_announcement(job)) + changed(steps),
    );
}

/// The end of a run.
proof fn lemma_finish(plan: Plan)
    requires
        !plan.options.quiet,
    ensures
        beside(finish(plan), finish(hushed(plan))),
{
    let quiet = hushed(plan);
    let said = overall_updated(plan.overall.updated);
    let missed = overall_failed(plan.overall.failed);
    lemma_said(plan.options, said, missed, Seq::empty());
    lemma_exit(plan, 0);
    lemma_exit(plan, plan.overall.code->0);
    lemma_after(
        exit(plan, 0),
        exit(quiet, 0),
        printed(plan.options, said),
        printed(quiet.options, said),
    );
    lemma_after(
        exit(plan, plan.overall.code->0),
        exit(quiet, plan.overall.code->0),
        printed(plan.options, said) + complained(missed),
        printed(quiet.options, said) + complained(missed),
    );
}

/// What follows the installs of git packages.
proof fn lemma_installed_git(plan: Plan)
    requires
        !plan.options.quiet,
    ensures
        beside(installed_git(plan), installed_git(hushed(plan))),
{
    let ended = Plan { overall: plan.overall.followed_by(plan.tally), ..plan };
    let quiet = hushed(ended);
    let said = updated_report("git package"@, plan.tally.updated.len());
    let missed = failed_report(plan.tally.failed);
    let whole = printed(plan.options, said) + complained(missed);
    let kept = printed(quiet.options, said) + complained(missed);
    let code = plan.tally.code->0;
    lemma_said(plan.options, said, missed, Seq::empty());
    lemma_finish(ended);
    lemma_exit(ended, code);
    lemma_after(finish(ended), finish(quiet), whole, kept);
    lemma_after(exit(ended, code), exit(quiet, code), whole, kept);
    lemma_after(
        finish(ended),
        finish(quiet),
        printed(plan.options, said),
        printed(quiet.options, said),
    );
}

/// What follows when the commits of the git packages are known.
proof fn lemma_listed_git(plan: Plan)
    requires
        !plan.options.quiet,
    ensures
        beside(listed_git(plan), listed_git(hushed(plan))),
{
    let begun = Plan { git_candidates: git_jobs(plan.options, plan.git_candidates), ..plan };
    let shown = tab_aligned(table(lazy_sorted(git_rows(plan.git_candidates))));
    let idle = "No git packages need updating.\n"@;
    lemma_said(plan.options, shown, Seq::empty(), Seq::empty());
    lemma_said(plan.options, idle, Seq::empty(), Seq::empty());
    lemma_finish(plan);
    lemma_finish(begun);
    lemma_after(
        finish(begun),
        finish(hushed(begun)),
        printed(plan.options, idle),
        printed(hushed(plan).options, idle),
    );
    lemma_install_git(Plan { tally: TallyView::empty(), ..begun }, 0);
    assert(git_jobs(hushed(plan).options, plan.git_candidates) == begun.git_candidates);
    assert(beside(upgrade_git(plan), upgrade_git(hushed(plan))));
    lemma_after(
        upgrade_git(plan),
        upgrade_git(hushed(plan)),
        printed(plan.options, shown),
        printed(hushed(plan).options, shown),
    );
}

/// What follows when the registry packages are done with.
proof fn lemma_begin_git(plan: Plan)
    requires
        !plan.options.quiet,
    ensures
        beside(begin_git(plan), begin_git(hushed(plan))),
{
    let chosen = selected_git(plan.options, plan.config, plan.git_packages);
    let begun = Plan { git_packages: chosen, git_candidates: Seq::empty(), ..plan };
    lemma_finish(plan);
    lemma_listed_git(begun);
    assert(selected_git(hushed(plan).options, plan.config, plan.git_packages) == chosen);
    let asked = pull_git_at(begun, 0).request;
    lemma_waiting(begun, Stage::PullGit, 0, asked, asked);
}

/// What follows the installs of registry packages.
proof fn lemma_installed(plan: Plan)
    requires
        !plan.options.quiet,
    ensures
        beside(installed(plan), installed(hushed(plan))),
{
    let ended = Plan { overall: plan.tally, ..plan };
    let quiet = hushed(ended);
    let said = updated_report("package"@, plan.tally.updated.len());
    let missed = failed_report(plan.tally.failed);
    let whole = printed(plan.options, said) + complained(missed);
    let kept = printed(quiet.options, said) + complained(missed);
    let code = plan.tally.code->0;
    lemma_said(plan.options, said, missed, Seq::empty());
    lemma_begin_git(ended);
    lemma_exit(ended, code);
    lemma_after(begin_git(ended), begin_git(quiet), whole, kept);
    lemma_after(exit(ended, code), exit(quiet, code), whole, kept);
    lemma_after(
        begin_git(ended),
        begin_git(quiet),
        printed(plan.options, said),
        printed(quiet.options, said),
    );
}

/// What follows when the versions of the registry packages are known.
proof fn lemma_listed(plan: Plan)
    requires
        !plan.options.quiet,
    ensures
        beside(listed(plan), listed(hushed(plan))),
{
    let begun = Plan { candidates: jobs(plan.options, plan.candidates), ..plan };
    let shown = tab_aligned(table(lazy_sorted(candidate_rows(plan.config, plan.candidates))));
    let idle = "No packages need updating.\n"@;
    lemma_said(plan.options, shown, Seq::empty(), Seq::empty());
    lemma_said(plan.options, idle, Seq::empty(), Seq::empty());
    lemma_begin_git(plan);
    lemma_begin_git(begun);
    lemma_after(
        begin_git(begun),
        begin_git(hushed(begun)),
        printed(plan.options, idle),
        printed(hushed(plan).options, idle),
    );
    lemma_install(Plan { tally: TallyView::empty(), ..begun }, 0);
    assert(jobs(hushed(plan).options, plan.candidates) == begun.candidates);
    assert(beside(upgrade(plan), upgrade(hushed(plan))));
    lemma_after(
        upgrade(plan),
        upgrade(hushed(plan)),
        printed(plan.options, shown),
        printed(hushed(plan).options, shown),
    );
}

/// What follows an install.
proof fn lemma_ran(plan: Plan, outcome: Outcome)
    requires
        !plan.options.quiet,
    ensures
        beside(ran(plan, outcome), ran(hushed(plan), outcome)),
{
    let job = plan.candidates[plan.cursor as int];
    let further = Plan { tally: plan.tally.with(job.name, outcome), ..plan };
    let steps = restore_after(plan.options, job, outcome);
    let ahead = printed(plan.options, "\n"@) + changed(steps);
    let kept = printed(hushed(plan).options, "\n"@) + changed(steps);
    lemma_said(plan.options, "\n"@, Seq::empty(), steps);
    if plan.cursor + 1 < plan.candidates.len() {
        let at = plan.cursor + 1;
        lemma_install(further, at);
        lemma_after(install_at(further, at), install_at(hushed(further), at), ahead, kept);
    } else {
        lemma_installed(further);
        lemma_after(installed(further), installed(hushed(further)), ahead, kept);
    }
}

/// What follows the install of a git package.
proof fn lemma_ran_git(plan: Plan, outcome: Outcome)
    requires
        !plan.options.quiet,
    ensures
        beside(ran_git(plan, outcome), ran_git(hushed(plan), outcome)),
{
    let job = plan.git_candidates[plan.cursor as int];
    let further = Plan { tally: plan.tally.with(job.name, outcome), ..plan };
    let steps = git_restore_after(plan.options, job, outcome);
    let ahead = printed(plan.options, "\n"@) + changed(steps);
    let kept = printed(hushed(plan).options, "\n"@) + changed(steps);
    lemma_said(plan.options, "\n"@, Seq::empty(), steps);
    if plan.cursor + 1 < plan.git_candidates.len() {
        let at = plan.cursor + 1;
        lemma_install_git(further, at);
        lemma_after(install_git_at(further, at), install_git_at(hushed(further), at), ahead, kept);
    } else {
        lemma_installed_git(further);
        lemma_after(installed_git(further), installed_git(hushed(further)), ahead, kept);
    }
}

/// What follows known versions.
proof fn lemma_pulled(plan: Plan, versions: VersionsView)
    requires
        !plan.options.quiet,
    ensures
        beside(pulled(plan, versions), pulled(hushed(plan), versions)),
{
    let name = plan.packages[plan.cursor as int].name;
    let candidate = CandidateView { name: name, versions: versions };
    let further = Plan { candidates: plan.candidates.push(candidate), ..plan };
    lemma_listed(further);
    let asked = pull_at(further, plan.cursor + 1).request;
    lemma_waiting(further, Stage::Pull, plan.cursor + 1, asked, asked);
}

/// What follows known commits.
proof fn lemma_pulled_git(plan: Plan, commits: CommitsView)
    requires
        !plan.options.quiet,
    ensures
        beside(pulled_git(plan, commits), pulled_git(hushed(plan), commits)),
{
    let name = plan.git_packages[plan.cursor as int].name;
    let candidate = GitCandidateView { name: name, commits: commits };
    let further = Plan { git_candidates: plan.git_candidates.push(candidate), ..plan };
    lemma_listed_git(further);
    let asked = pull_git_at(further, plan.cursor + 1).request;
    lemma_waiting(further, Stage::PullGit, plan.cursor + 1, asked, asked);
}

/// A known registry.
proof fn lemma_resolved(plan: Plan, registry: RegistryView)
    requires
        !plan.options.quiet,
    ensures
        beside(resolved(plan, registry), resolved(hushed(plan), registry)),
{
    let name = plan.packages[plan.cursor as int].name;
    let further = Plan { groups: with_package(plan.groups, registry, name), ..plan };
    let resolve = resolve_at(further, plan.cursor + 1).request;
    let locate = locate_at(further, 0).request;
    lemma_waiting(further, Stage::Resolve, plan.cursor + 1, resolve, resolve);
    lemma_waiting(further, Stage::Locate, 0, locate, locate);
}

/// A known place of an index.
proof fn lemma_located(plan: Plan, path: Text)
    requires
        !plan.options.quiet,
    ensures
        beside(located(plan, path), located(hushed(plan), path)),
{
    let further = Plan { paths: plan.paths.push(path), ..plan };
    let locate = locate_at(further, plan.cursor + 1).request;
    let open = open_at(further, 0).request;
    lemma_waiting(further, Stage::Locate, plan.cursor + 1, locate, locate);
    lemma_waiting(further, Stage::Open, 0, open, open);
}

/// An index that was opened, fetched or read.
proof fn lemma_succeeded(plan: Plan)
    requires
        !plan.options.quiet,
    ensures
        beside(opened(plan), opened(hushed(plan))),
        beside(refreshed(plan), refreshed(hushed(plan))),
        beside(read(plan), read(hushed(plan))),
{
    let at = plan.cursor + 1;
    let further = Plan { candidates: Seq::empty(), ..plan };
    let open = open_at(plan, at).request;
    let first = read_at(plan, 0).request;
    let again = read_at(plan, at).request;
    let pull = pull_at(further, 0).request;
    lemma_waiting(plan, Stage::Open, at, open, open);
    lemma_waiting(
        plan,
        Stage::Refresh,
        0,
        refresh_at(plan, 0).request,
        refresh_at(hushed(plan), 0).request,
    );
    lemma_waiting(
        plan,
        Stage::Refresh,
        at,
        refresh_at(plan, at).request,
        refresh_at(hushed(plan), at).request,
    );
    lemma_waiting(plan, Stage::Read, 0, first, first);
    lemma_waiting(plan, Stage::Read, at, again, again);
    lemma_waiting(further, Stage::Pull, 0, pull, pull);
}

/// A request concerning a registry that could not be met.
proof fn lemma_failed(plan: Plan, reason: Text)
    requires
        !plan.options.quiet,
    ensures
        beside(
            give_up(plan, complaint(plan, reason)),
            give_up(hushed(plan), complaint(hushed(plan), reason)),
        ),
{
    let said = complaint(plan, reason);
    lemma_said(plan.options, Seq::empty(), said, Seq::empty());
    lemma_exit(plan, 2);
    lemma_after(exit(plan, 2), exit(hushed(plan), 2), complained(said), complained(said));
}

/// The turns of the two runs on the same event.
#[verifier::rlimit(60)]
proof fn lemma_reply_beside(plan: Plan, event: EventView)
    requires
        !plan.options.quiet,
    ensures
        beside(reply(plan, event), reply(hushed(plan), event)),
        fits(plan, event) ==> fits(hushed(plan), event),
{
    reveal(reply);
    match event {
        EventView::Resolved { registry } => {
            lemma_resolved(plan, registry);
        },
        EventView::Located { path } => {
            lemma_located(plan, path);
        },
        EventView::Succeeded => {
            lemma_succeeded(plan);
        },
        EventView::Failed { reason } => {
            lemma_failed(plan, reason);
        },
        EventView::Pulled { versions } => {
            lemma_pulled(plan, versions);
        },
        EventView::PulledCommits { commits } => {
            lemma_pulled_git(plan, commits);
        },
        EventView::Ran { outcome } => {
            lemma_ran(plan, outcome);
            lemma_ran_git(plan, outcome);
        },
    }
}

/// The two runs stay beside each other, if they begin so.
proof fn lemma_course_hushes(loud: Turn, quiet: Turn, events: Seq<EventView>)
    requires
        beside(loud, quiet),
        answers(loud, events),
    ensures
        answers(quiet, events),
        beside(course(loud, events), course(quiet, events)),
        requests(loud, events).len() == requests(quiet, events).len(),
        forall|i: int|
            0 <= i < requests(loud, events).len() ==> quieter(
                #[trigger] requests(loud, events)[i],
                requests(quiet, events)[i],
            ),
    decreases events.len(),
{
    reveal(beside);
    if events.len() > 0 {
        let front = events.drop_last();
        lemma_course_hushes(loud, quiet, front);
        let before = course(loud, front);
        let quiet_before = course(quiet, front);
        lemma_reply_beside(before.plan, events.last());
        lemma_after(
            reply(before.plan, events.last()),
            reply(quiet_before.plan, events.last()),
            before.effects,
            quiet_before.effects,
        );
    }
}

/// The first turns of the two runs.
proof fn lemma_begin(plan: Plan)
    requires
        !plan.options.quiet,
    ensures
        beside(begin(plan), begin(hushed(plan))),
{
    if plan.packages.len() == 0 {
        lemma_listed(plan);
    } else {
        let asked = resolve_at(plan, 0).request;
        lemma_waiting(plan, Stage::Resolve, 0, asked, asked);
    }
}

/// A quiet run that hears the answers that a loud one hears takes the same course. It comes to
/// the same state, with the same complaints and the same changes to files, in the same order.
/// It makes the same requests one for one, to end with the same exit code among them, except
/// that `cargo` is run with one `--quiet` more, right before `--vers` or `--git`, and that how
/// an index is fetched is not shown. Nothing is printed.
pub proof fn lemma_quiet_course(plan: Plan, events: Seq<EventView>)
    requires
        plan == fresh(plan.options, plan.config, plan.packages, plan.git_packages),
        !plan.options.quiet,
        answers(begin(plan), events),
    ensures
        hushed(plan) == fresh(
            hushed(plan).options,
            plan.config,
            plan.packages,
            plan.git_packages,
        ),
        answers(begin(hushed(plan)), events),
        hushes(course(begin(plan), events), course(begin(hushed(plan)), events)),
        requests(begin(plan), events).len() == requests(begin(hushed(plan)), events).len(),
        forall|i: int|
            0 <= i < requests(begin(plan), events).len() ==> quieter(
                #[trigger] requests(begin(plan), events)[i],
                requests(begin(hushed(plan)), events)[i],
            ),
        forall|i: int|
            0 <= i < course(begin(hushed(plan)), events).effects.len() ==> !(
            #[trigger] course(begin(hushed(plan)), events).effects[i] is Print),
{
    lemma_begin(plan);
    lemma_course_hushes(begin(plan), begin(hushed(plan)), events);
    reveal(beside);
    lemma_course_obeys(hushed(plan), events);
}

} // verus!
