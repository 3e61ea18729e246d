//! What a run was told, what it installs, and which requests it makes.

use vstd::prelude::*;
use crate::command::registry_args;
use crate::config::SettingsView;
use crate::course::{answers, attempted, course, installing, lemma_all_accounted};
use crate::course::{lemma_course_obeys, lemma_next_obeys, obeys, rank, reply, requests};
use crate::course::well_formed;
use crate::package::{CandidateView, CommitsView, GitCandidateView, PackageView, VersionsView};
use crate::plan::{begin, begin_git, fits, fresh, git_jobs, install_prereleases, jobs};
use crate::plan::{listed, listed_git, next, pulled, pulled_git, ran, ran_git, resolved, Plan};
use crate::plan::{Stage, Turn};
use crate::registry::{group_of, grouped, lemma_group_of, lemma_own_group, GroupView, RegistryView};
use crate::select::selected_git;
use crate::step::{EventView, RequestView};
use crate::tally::Outcome;
use crate::text::Text;

verus! {

/// The registries that the run was told of, in order.
pub open spec fn registries_told(events: Seq<EventView>) -> Seq<RegistryView>
    decreases events.len(),
{
    if events.len() == 0 {
        Seq::empty()
    } else {
        match events.last() {
            EventView::Resolved { registry } => registries_told(events.drop_last()).push(registry),
            _ => registries_told(events.drop_last()),
        }
    }
}

/// The places of indices that the run was told of, in order.
pub open spec fn paths_told(events: Seq<EventView>) -> Seq<Text>
    decreases events.len(),
{
    if events.len() == 0 {
        Seq::empty()
    } else {
        match events.last() {
            EventView::Located { path } => paths_told(events.drop_last()).push(path),
            _ => paths_told(events.drop_last()),
        }
    }
}

/// The versions that the run was told of, in order.
pub open spec fn versions_told(events: Seq<EventView>) -> Seq<VersionsView>
    decreases events.len(),
{
    if events.len() == 0 {
        Seq::empty()
    } else {
        match events.last() {
            EventView::Pulled { versions } => versions_told(events.drop_last()).push(versions),
            _ => versions_told(events.drop_last()),
        }
    }
}

/// The commits that the run was told of, in order.
pub open spec fn commits_told(events: Seq<EventView>) -> Seq<CommitsView>
    decreases events.len(),
{
    if events.len() == 0 {
        Seq::empty()
    } else {
        match events.last() {
            EventView::PulledCommits { commits } => commits_told(events.drop_last()).push(commits),
            _ => commits_told(events.drop_last()),
        }
    }
}

/// The last answer that the run heard was that a request could not be met.
pub open spec fn gave_up(events: Seq<EventView>) -> bool {
    events.len() > 0 && events.last() is Failed
}

/// The names of packages.
pub open spec fn package_names(packages: Seq<PackageView>) -> Seq<Text> {
    packages.map_values(|package: PackageView| package.name)
}

/// The names of registry packages whose versions are known.
pub open spec fn candidate_names(candidates: Seq<CandidateView>) -> Seq<Text> {
    candidates.map_values(|candidate: CandidateView| candidate.name)
}

/// The names of git packages whose commits are known.
pub open spec fn git_candidate_names(candidates: Seq<GitCandidateView>) -> Seq<Text> {
    candidates.map_values(|candidate: GitCandidateView| candidate.name)
}

/// The first packages, with these versions of them.
pub open spec fn known(packages: Seq<PackageView>, versions: Seq<VersionsView>) -> Seq<
    CandidateView,
> {
    Seq::new(
        versions.len(),
        |i: int| CandidateView { name: packages[i].name, versions: versions[i] },
    )
}

/// The first git packages, with these commits of them.
pub open spec fn git_known(packages: Seq<PackageView>, commits: Seq<CommitsView>) -> Seq<
    GitCandidateView,
> {
    Seq::new(
        commits.len(),
        |i: int| GitCandidateView { name: packages[i].name, commits: commits[i] },
    )
}

/// The git packages of a run.
pub open spec fn chosen_git(plan: Plan) -> Seq<PackageView> {
    if plan.options.update_git {
        selected_git(plan.options, plan.config, plan.git_packages)
    } else {
        Seq::empty()
    }
}

/// The registry packages to install, where these are the versions of the packages.
pub open spec fn wanted(plan: Plan, versions: Seq<VersionsView>) -> Seq<CandidateView> {
    if plan.options.update {
        jobs(plan.options, known(plan.packages, versions))
    } else {
        Seq::empty()
    }
}

/// The git packages to install, where these are the commits of the packages.
pub open spec fn wanted_git(plan: Plan, commits: Seq<CommitsView>) -> Seq<GitCandidateView> {
    if plan.options.update {
        git_jobs(plan.options, git_known(chosen_git(plan), commits))
    } else {
        Seq::empty()
    }
}

/// The names of all packages to install: those of the registries, then those from git.
pub open spec fn wanted_names(
    plan: Plan,
    versions: Seq<VersionsView>,
    commits: Seq<CommitsView>,
) -> Seq<Text> {
    candidate_names(wanted(plan, versions)) + git_candidate_names(wanted_git(plan, commits))
}

/// The state goes with the run that began as `plan`, and with the registries and the places of
/// indices that it was told of.
spec fn located_as_told(
    plan: Plan,
    now: Plan,
    registries: Seq<RegistryView>,
    paths: Seq<Text>,
) -> bool {
    let names = package_names(plan.packages);
    &&& now.options == plan.options
    &&& now.config == plan.config
    &&& now.packages == plan.packages
    &&& now.paths == paths
    &&& if now.stage is Resolve {
        &&& registries.len() == now.cursor
        &&& now.groups == grouped(registries, names.take(now.cursor as int))
    } else {
        &&& registries.len() == plan.packages.len()
        &&& now.groups == grouped(registries, names)
    }
    &&& rank(now.stage) <= 4 ==> paths.len() == now.groups.len()
}

/// The state goes with the versions and commits that the run was told of, and with the installs
/// that it attempted.
pub open spec fn installed_as_told(
    plan: Plan,
    now: Plan,
    versions: Seq<VersionsView>,
    commits: Seq<CommitsView>,
    tried: Seq<Text>,
) -> bool {
    match now.stage {
        Stage::Resolve | Stage::Locate | Stage::Open | Stage::Refresh | Stage::Read => {
            &&& now.git_packages == plan.git_packages
            &&& versions.len() == 0
            &&& commits.len() == 0
            &&& tried.len() == 0
        },
        Stage::Pull => {
            &&& now.git_packages == plan.git_packages
            &&& versions.len() == now.cursor
            &&& now.candidates == known(plan.packages, versions)
            &&& commits.len() == 0
            &&& tried.len() == 0
        },
        Stage::Install => {
            &&& now.git_packages == plan.git_packages
            &&& versions.len() == plan.packages.len()
            &&& now.candidates == wanted(plan, versions)
            &&& commits.len() == 0
            &&& tried == candidate_names(wanted(plan, versions)).take(now.cursor as int)
        },
        Stage::PullGit => {
            &&& now.git_packages == chosen_git(plan)
            &&& versions.len() == plan.packages.len()
            &&& commits.len() == now.cursor
            &&& now.git_candidates == git_known(chosen_git(plan), commits)
            &&& tried == candidate_names(wanted(plan, versions))
        },
        Stage::InstallGit => {
            &&& versions.len() == plan.packages.len()
            &&& commits.len() == chosen_git(plan).len()
            &&& now.git_candidates == wanted_git(plan, commits)
            &&& tried == candidate_names(wanted(plan, versions)) + git_candidate_names(
                wanted_git(plan, commits),
            ).take(now.cursor as int)
        },
        Stage::Done => {
            &&& versions.len() == plan.packages.len()
            &&& commits.len() == chosen_git(plan).len()
            &&& tried == wanted_names(plan, versions, commits)
        },
    }
}

/// The states of one run have the same options, settings, registry packages, groups and places.
spec fn same_run(a: Plan, b: Plan) -> bool {
    &&& a.options == b.options
    &&& a.config == b.config
    &&& a.packages == b.packages
    &&& a.groups == b.groups
    &&& a.paths == b.paths
}

/// The commits of the git packages are known.
proof fn lemma_listed_git(
    plan: Plan,
    now: Plan,
    versions: Seq<VersionsView>,
    commits: Seq<CommitsView>,
)
    requires
        now.options == plan.options,
        plan.options.update_git,
        versions.len() == plan.packages.len(),
        commits.len() == chosen_git(plan).len(),
        now.git_candidates == git_known(chosen_git(plan), commits),
    ensures
        same_run(now, listed_git(now).plan),
        rank(listed_git(now).plan.stage) <= 1,
        installed_as_told(
            plan,
            listed_git(now).plan,
            versions,
            commits,
            candidate_names(wanted(plan, versions)),
        ),
{
    let first = candidate_names(wanted(plan, versions));
    let names = git_candidate_names(wanted_git(plan, commits));
    assert(first + names.take(0) =~= first);
    if names.len() == 0 {
        assert(first + names =~= first);
    }
}

/// Where git packages are left alone, those of the registries are all that is installed.
proof fn lemma_no_git(plan: Plan, versions: Seq<VersionsView>)
    requires
        !plan.options.update_git,
    ensures
        wanted_names(plan, versions, Seq::empty()) == candidate_names(wanted(plan, versions)),
{
    reveal(Seq::filter);
    let first = candidate_names(wanted(plan, versions));
    let none = Seq::<CommitsView>::empty();
    assert(git_known(chosen_git(plan), none) =~= Seq::empty());
    assert(wanted_git(plan, none).len() == 0);
    assert(first + git_candidate_names(wanted_git(plan, none)) =~= first);
}

/// The registry packages are done with.
proof fn lemma_begin_git(plan: Plan, now: Plan, versions: Seq<VersionsView>)
    requires
        now.options == plan.options,
        now.config == plan.config,
        now.git_packages == plan.git_packages,
        versions.len() == plan.packages.len(),
    ensures
        same_run(now, begin_git(now).plan),
        rank(begin_git(now).plan.stage) <= 2,
        installed_as_told(
            plan,
            begin_git(now).plan,
            versions,
            Seq::empty(),
            candidate_names(wanted(plan, versions)),
        ),
{
    let none = Seq::<CommitsView>::empty();
    if plan.options.update_git {
        let begun = Plan { git_packages: chosen_git(plan), git_candidates: Seq::empty(), ..now };
        assert(git_known(chosen_git(plan), none) =~= Seq::empty());
        if chosen_git(plan).len() == 0 {
            lemma_listed_git(plan, begun, versions, none);
        }
    } else {
        lemma_no_git(plan, versions);
    }
}

/// The versions of the registry packages are known.
proof fn lemma_listed(plan: Plan, now: Plan, versions: Seq<VersionsView>)
    requires
        now.options == plan.options,
        now.config == plan.config,
        now.git_packages == plan.git_packages,
        versions.len() == plan.packages.len(),
        now.candidates == known(plan.packages, versions),
    ensures
        same_run(now, listed(now).plan),
        rank(listed(now).plan.stage) <= 3,
        installed_as_told(plan, listed(now).plan, versions, Seq::empty(), Seq::empty()),
{
    let names = candidate_names(wanted(plan, versions));
    assert(names.take(0) =~= Seq::empty());
    if names.len() == 0 {
        assert(names =~= Seq::empty());
    }
    lemma_begin_git(plan, now, versions);
    lemma_begin_git(
        plan,
        Plan { candidates: jobs(plan.options, now.candidates), ..now },
        versions,
    );
}

/// The install of a registry package ended.
proof fn lemma_ran(
    plan: Plan,
    now: Plan,
    versions: Seq<VersionsView>,
    tried: Seq<Text>,
    outcome: Outcome,
)
    requires
        now.options == plan.options,
        now.config == plan.config,
        now.stage is Install,
        now.cursor < now.candidates.len(),
        installed_as_told(plan, now, versions, Seq::empty(), tried),
    ensures
        same_run(now, ran(now, outcome).plan),
        rank(ran(now, outcome).plan.stage) <= 3,
        installed_as_told(
            plan,
            ran(now, outcome).plan,
            versions,
            Seq::empty(),
            tried.push(now.candidates[now.cursor as int].name),
        ),
{
    let job = now.candidates[now.cursor as int];
    let names = candidate_names(wanted(plan, versions));
    let further = Plan { tally: now.tally.with(job.name, outcome), ..now };
    let ended = Plan { overall: further.tally, ..further };
    assert(tried.push(job.name) =~= names.take(now.cursor as int + 1));
    if now.cursor + 1 >= now.candidates.len() {
        assert(names.take(now.cursor as int + 1) =~= names);
        lemma_begin_git(plan, ended, versions);
        if !plan.options.update_git {
            lemma_no_git(plan, versions);
        }
    }
}

/// The install of a git package ended.
proof fn lemma_ran_git(
    plan: Plan,
    now: Plan,
    versions: Seq<VersionsView>,
    commits: Seq<CommitsView>,
    tried: Seq<Text>,
    outcome: Outcome,
)
    requires
        now.options == plan.options,
        now.stage is InstallGit,
        now.cursor < now.git_candidates.len(),
        installed_as_told(plan, now, versions, commits, tried),
    ensures
        same_run(now, ran_git(now, outcome).plan),
        rank(ran_git(now, outcome).plan.stage) <= 1,
        installed_as_told(
            plan,
            ran_git(now, outcome).plan,
            versions,
            commits,
            tried.push(now.git_candidates[now.cursor as int].name),
        ),
{
    let job = now.git_candidates[now.cursor as int];
    let first = candidate_names(wanted(plan, versions));
    let names = git_candidate_names(wanted_git(plan, commits));
    assert(tried.push(job.name) =~= first + names.take(now.cursor as int + 1));
    if now.cursor + 1 >= now.git_candidates.len() {
        assert(names.take(now.cursor as int + 1) =~= names);
    }
}

/// The versions of a package are known.
proof fn lemma_pulled(
    plan: Plan,
    now: Plan,
    told: Seq<VersionsView>,
    tried: Seq<Text>,
    versions: VersionsView,
)
    requires
        now.options == plan.options,
        now.config == plan.config,
        now.packages == plan.packages,
        now.stage is Pull,
        now.cursor < now.packages.len(),
        installed_as_told(plan, now, told, Seq::empty(), tried),
    ensures
        same_run(now, pulled(now, versions).plan),
        rank(pulled(now, versions).plan.stage) <= 4,
        installed_as_told(
            plan,
            pulled(now, versions).plan,
            told.push(versions),
            Seq::empty(),
            tried,
        ),
{
    let name = now.packages[now.cursor as int].name;
    let candidate = CandidateView { name: name, versions: versions };
    let further = Plan { candidates: now.candidates.push(candidate), ..now };
    assert(further.candidates =~= known(plan.packages, told.push(versions)));
    if now.cursor + 1 >= now.packages.len() {
        assert(tried =~= Seq::empty());
        lemma_listed(plan, further, told.push(versions));
    }
}

/// The commits of a git package are known.
proof fn lemma_pulled_git(
    plan: Plan,
    now: Plan,
    versions: Seq<VersionsView>,
    told: Seq<CommitsView>,
    tried: Seq<Text>,
    commits: CommitsView,
)
    requires
        now.options == plan.options,
        plan.options.update_git,
        now.stage is PullGit,
        now.cursor < now.git_packages.len(),
        installed_as_told(plan, now, versions, told, tried),
    ensures
        same_run(now, pulled_git(now, commits).plan),
        rank(pulled_git(now, commits).plan.stage) <= 2,
        installed_as_told(plan, pulled_git(now, commits).plan, versions, told.push(commits), tried),
{
    let name = now.git_packages[now.cursor as int].name;
    let candidate = GitCandidateView { name: name, commits: commits };
    let further = Plan { git_candidates: now.git_candidates.push(candidate), ..now };
    assert(further.git_candidates =~= git_known(chosen_git(plan), told.push(commits)));
    if now.cursor + 1 >= now.git_packages.len() {
        lemma_listed_git(plan, further, versions, told.push(commits));
    }
}

/// The registry of a package is known.
proof fn lemma_resolved(
    plan: Plan,
    now: Plan,
    told: Seq<RegistryView>,
    paths: Seq<Text>,
    registry: RegistryView,
)
    requires
        now.stage is Resolve,
        now.cursor < now.packages.len(),
        located_as_told(plan, now, told, paths),
    ensures
        located_as_told(plan, resolved(now, registry).plan, told.push(registry), paths),
{
    let names = package_names(plan.packages);
    let further = names.take(now.cursor as int + 1);
    assert(further.drop_last() =~= names.take(now.cursor as int));
    assert(told.push(registry).drop_last() =~= told);
    assert(further.last() == now.packages[now.cursor as int].name);
    assert(grouped(told.push(registry), further) == resolved(now, registry).plan.groups);
    if now.cursor + 1 >= now.packages.len() {
        assert(further =~= names);
    }
}

/// What a run was told of versions.
pub open spec fn versions_after(versions: Seq<VersionsView>, event: EventView) -> Seq<
    VersionsView,
> {
    match event {
        EventView::Pulled { versions: more } => versions.push(more),
        _ => versions,
    }
}

/// What a run was told of commits.
pub open spec fn commits_after(commits: Seq<CommitsView>, event: EventView) -> Seq<CommitsView> {
    match event {
        EventView::PulledCommits { commits: more } => commits.push(more),
        _ => commits,
    }
}

/// What a run was told of registries.
spec fn registries_after(registries: Seq<RegistryView>, event: EventView) -> Seq<RegistryView> {
    match event {
        EventView::Resolved { registry } => registries.push(registry),
        _ => registries,
    }
}

/// What a run was told of the places of indices.
spec fn paths_after(paths: Seq<Text>, event: EventView) -> Seq<Text> {
    match event {
        EventView::Located { path } => paths.push(path),
        _ => paths,
    }
}

/// What a run attempted.
pub open spec fn tried_after(tried: Seq<Text>, now: Plan, event: EventView) -> Seq<Text> {
    if event is Ran {
        tried.push(installing(now))
    } else {
        tried
    }
}

/// The turn on an event that concerns a registry keeps the state with what the run was told.
proof fn lemma_registry_event(
    plan: Plan,
    now: Plan,
    event: EventView,
    registries: Seq<RegistryView>,
    paths: Seq<Text>,
    versions: Seq<VersionsView>,
    commits: Seq<CommitsView>,
    tried: Seq<Text>,
)
    requires
        well_formed(now),
        fits(now, event),
        event is Resolved || event is Located || event is Succeeded,
        located_as_told(plan, now, registries, paths),
        installed_as_told(plan, now, versions, commits, tried),
    ensures
        located_as_told(
            plan,
            next(now, event).plan,
            registries_after(registries, event),
            paths_after(paths, event),
        ),
        installed_as_told(plan, next(now, event).plan, versions, commits, tried),
{
    match event {
        EventView::Resolved { registry } => {
            lemma_resolved(plan, now, registries, paths, registry);
        },
        _ => {},
    }
    assert(known(plan.packages, Seq::empty()) =~= Seq::empty());
    assert(versions.len() == 0 ==> versions =~= Seq::empty());
}

/// The turn on another event keeps the state with what the run was told.
proof fn lemma_package_event(
    plan: Plan,
    now: Plan,
    event: EventView,
    versions: Seq<VersionsView>,
    commits: Seq<CommitsView>,
    tried: Seq<Text>,
)
    requires
        well_formed(now),
        fits(now, event),
        event is Pulled || event is PulledCommits || event is Ran,
        now.options == plan.options,
        now.config == plan.config,
        now.packages == plan.packages,
        installed_as_told(plan, now, versions, commits, tried),
    ensures
        same_run(now, next(now, event).plan),
        rank(next(now, event).plan.stage) <= 4,
        !(event is Pulled) ==> rank(next(now, event).plan.stage) <= 3,
        installed_as_told(
            plan,
            next(now, event).plan,
            versions_after(versions, event),
            commits_after(commits, event),
            tried_after(tried, now, event),
        ),
{
    assert(commits.len() == 0 ==> commits =~= Seq::empty());
    match event {
        EventView::Pulled { versions: more } => {
            lemma_pulled(plan, now, versions, tried, more);
        },
        EventView::PulledCommits { commits: more } => {
            lemma_pulled_git(plan, now, versions, commits, tried, more);
        },
        EventView::Ran { outcome } => {
            if now.stage is Install {
                lemma_ran(plan, now, versions, tried, outcome);
            } else {
                lemma_ran_git(plan, now, versions, commits, tried, outcome);
            }
        },
        _ => {},
    }
}

/// Asking for the registries of the first packages.
pub open spec fn resolving(packages: Seq<PackageView>, count: nat) -> Seq<RequestView> {
    Seq::new(count, |i: int| RequestView::ResolveRegistry { package: packages[i].handle })
}

/// Asking where the first indices are kept.
pub open spec fn locating(groups: Seq<GroupView>, count: nat) -> Seq<RequestView> {
    Seq::new(count, |i: int| RequestView::LocateIndex { url: groups[i].registry.url })
}

/// Having the first indices opened.
pub open spec fn opening(count: nat) -> Seq<RequestView> {
    Seq::new(count, |i: int| RequestView::OpenIndex { group: i as nat })
}

/// Having the first indices fetched.
pub open spec fn fetching(groups: Seq<GroupView>, show: bool, count: nat) -> Seq<RequestView> {
    Seq::new(
        count,
        |i: int|
            RequestView::RefreshIndex {
                group: i as nat,
                url: groups[i].registry.url,
                show: show,
            },
    )
}

/// Having the newest revisions of the first indices looked up.
pub open spec fn reading(count: nat) -> Seq<RequestView> {
    Seq::new(
        count,
        |i: int| RequestView::ReadRevision { group: i as nat, revision: "origin/master"@ },
    )
}

/// Asking for the versions of the first packages.
pub open spec fn pulling(
    config: Map<Text, SettingsView>,
    packages: Seq<PackageView>,
    groups: Seq<GroupView>,
    count: nat,
) -> Seq<RequestView> {
    Seq::new(
        count,
        |i: int|
            RequestView::PullVersions {
                package: packages[i].handle,
                group: group_of(groups, packages[i].name)->0,
                install_prereleases: install_prereleases(config, packages[i].name),
            },
    )
}

/// All that is asked for before any versions: the registry of each package, and then each index
/// to be located, each to be opened, each to be fetched and each to be read.
pub open spec fn preparing(plan: Plan, groups: Seq<GroupView>) -> Seq<RequestView> {
    resolving(plan.packages, plan.packages.len()) + locating(groups, groups.len()) + opening(
        groups.len(),
    ) + fetching(groups, !plan.options.quiet, groups.len()) + reading(groups.len())
}

/// The request concerns no registry.
pub open spec fn is_later(request: RequestView) -> bool {
    request is RunCargo || request is PullCommits || request is Exit
}

/// The requests begin with all those that concern registries, and go on with others.
pub open spec fn prepared(
    plan: Plan,
    groups: Seq<GroupView>,
    asked: Seq<RequestView>,
) -> bool {
    let whole = preparing(plan, groups) + pulling(
        plan.config,
        plan.packages,
        groups,
        plan.packages.len(),
    );
    &&& whole.len() <= asked.len()
    &&& asked.take(whole.len() as int) == whole
    &&& forall|i: int| whole.len() <= i < asked.len() ==> is_later(#[trigger] asked[i])
}

/// The requests so far go with the state.
spec fn asked_for(plan: Plan, now: Plan, asked: Seq<RequestView>) -> bool {
    let first = resolving(plan.packages, plan.packages.len());
    let groups = now.groups;
    let show = !plan.options.quiet;
    match now.stage {
        Stage::Resolve => asked == resolving(plan.packages, now.cursor + 1),
        Stage::Locate => asked == first + locating(groups, now.cursor + 1),
        Stage::Open => asked == first + locating(groups, groups.len()) + opening(now.cursor + 1),
        Stage::Refresh => asked == first + locating(groups, groups.len()) + opening(groups.len())
            + fetching(groups, show, now.cursor + 1),
        Stage::Read => asked == first + locating(groups, groups.len()) + opening(groups.len())
            + fetching(groups, show, groups.len()) + reading(now.cursor + 1),
        Stage::Pull => asked == preparing(plan, groups) + pulling(
            plan.config,
            plan.packages,
            groups,
            now.cursor + 1,
        ),
        _ => prepared(plan, groups, asked),
    }
}

/// A run in its later stages makes requests that concern no registry.
proof fn lemma_later(turn: Turn)
    requires
        obeys(turn.plan.options, turn),
        rank(turn.plan.stage) <= 3,
    ensures
        is_later(turn.request),
{
}

/// A request that concerns no registry may follow.
proof fn lemma_asked_later(
    plan: Plan,
    groups: Seq<GroupView>,
    asked: Seq<RequestView>,
    request: RequestView,
)
    requires
        prepared(plan, groups, asked),
        is_later(request),
    ensures
        prepared(plan, groups, asked.push(request)),
{
    let whole = preparing(plan, groups) + pulling(
        plan.config,
        plan.packages,
        groups,
        plan.packages.len(),
    );
    assert(asked.push(request).take(whole.len() as int) =~= asked.take(whole.len() as int));
}

/// The turn on an event that concerns a registry adds the request that is next in line.
#[verifier::rlimit(40)]
proof fn lemma_registry_asked(plan: Plan, now: Plan, event: EventView, asked: Seq<RequestView>)
    requires
        well_formed(now),
        fits(now, event),
        event is Resolved || event is Located || event is Succeeded,
        now.options == plan.options,
        now.config == plan.config,
        now.packages == plan.packages,
        asked_for(plan, now, asked),
    ensures
        asked_for(plan, next(now, event).plan, asked.push(next(now, event).request)),
{
    let further = asked.push(next(now, event).request);
    let after = next(now, event).plan;
    let groups = after.groups;
    let show = !plan.options.quiet;
    let first = resolving(plan.packages, plan.packages.len());
    match after.stage {
        Stage::Resolve => {
            assert(further =~= resolving(plan.packages, after.cursor + 1));
        },
        Stage::Locate => {
            assert(further =~= first + locating(groups, after.cursor + 1));
        },
        Stage::Open => {
            assert(further =~= first + locating(groups, groups.len()) + opening(after.cursor + 1));
        },
        Stage::Refresh => {
            assert(further =~= first + locating(groups, groups.len()) + opening(groups.len())
                + fetching(groups, show, after.cursor + 1));
        },
        Stage::Read => {
            assert(further =~= first + locating(groups, groups.len()) + opening(groups.len())
                + fetching(groups, show, groups.len()) + reading(after.cursor + 1));
        },
        _ => {
            assert(further =~= preparing(plan, groups) + pulling(
                plan.config,
                plan.packages,
                groups,
                after.cursor + 1,
            ));
        },
    }
}

/// The turn on known versions asks for the next ones, or for nothing more from a registry.
proof fn lemma_pulled_asked(
    plan: Plan,
    now: Plan,
    versions: VersionsView,
    asked: Seq<RequestView>,
)
    requires
        now.stage is Pull,
        now.cursor < now.packages.len(),
        now.config == plan.config,
        now.packages == plan.packages,
        asked_for(plan, now, asked),
        obeys(now.options, pulled(now, versions)),
    ensures
        asked_for(plan, pulled(now, versions).plan, asked.push(pulled(now, versions).request)),
{
    let name = now.packages[now.cursor as int].name;
    let candidate = CandidateView { name: name, versions: versions };
    let further = Plan { candidates: now.candidates.push(candidate), ..now };
    let turn = pulled(now, versions);
    if now.cursor + 1 < now.packages.len() {
        assert(asked.push(turn.request) =~= preparing(plan, now.groups) + pulling(
            plan.config,
            plan.packages,
            now.groups,
            now.cursor + 2,
        ));
    } else {
        lemma_listed_same(further);
        lemma_later(turn);
        assert(asked.take(asked.len() as int) =~= asked);
        lemma_asked_later(plan, now.groups, asked, turn.request);
    }
}

/// What follows when the versions are known leaves the registries alone.
proof fn lemma_listed_same(now: Plan)
    ensures
        listed(now).plan.groups == now.groups,
        rank(listed(now).plan.stage) <= 3,
{
    let versions = Seq::new(now.candidates.len(), |i: int| now.candidates[i].versions);
    let packages = Seq::new(
        now.candidates.len(),
        |i: int| PackageView { handle: 0, name: now.candidates[i].name },
    );
    let plan = Plan { packages: packages, ..now };
    assert(now.candidates =~= known(packages, versions));
    lemma_listed(plan, now, versions);
}

/// What is known of the turn on an event.
proof fn lemma_reply_record(
    plan: Plan,
    now: Plan,
    event: EventView,
    registries: Seq<RegistryView>,
    paths: Seq<Text>,
    versions: Seq<VersionsView>,
    commits: Seq<CommitsView>,
    tried: Seq<Text>,
    asked: Seq<RequestView>,
)
    requires
        well_formed(now),
        fits(now, event),
        !(event is Failed),
        obeys(now.options, reply(now, event)),
        located_as_told(plan, now, registries, paths),
        installed_as_told(plan, now, versions, commits, tried),
        asked_for(plan, now, asked),
    ensures
        located_as_told(
            plan,
            reply(now, event).plan,
            registries_after(registries, event),
            paths_after(paths, event),
        ),
        installed_as_told(
            plan,
            reply(now, event).plan,
            versions_after(versions, event),
            commits_after(commits, event),
            tried_after(tried, now, event),
        ),
        asked_for(plan, reply(now, event).plan, asked.push(reply(now, event).request)),
{
    reveal(reply);
    if event is Resolved || event is Located || event is Succeeded {
        lemma_registry_event(plan, now, event, registries, paths, versions, commits, tried);
        lemma_registry_asked(plan, now, event, asked);
    } else {
        lemma_package_event(plan, now, event, versions, commits, tried);
        match event {
            EventView::Pulled { versions: more } => {
                lemma_pulled_asked(plan, now, more, asked);
            },
            _ => {
                lemma_later(next(now, event));
                lemma_asked_later(plan, now.groups, asked, next(now, event).request);
            },
        }
    }
}

/// The state goes with all that the run was told, attempted and asked for.
spec fn on_record(plan: Plan, first: Turn, events: Seq<EventView>) -> bool {
    let now = course(first, events).plan;
    &&& located_as_told(plan, now, registries_told(events), paths_told(events))
    &&& installed_as_told(
        plan,
        now,
        versions_told(events),
        commits_told(events),
        attempted(first, events),
    )
    &&& asked_for(plan, now, requests(first, events))
}

/// The first turn. Proofs about whole runs keep it folded.
#[verifier::opaque]
pub open spec fn started(plan: Plan) -> Turn {
    begin(plan)
}

/// What is known of a run that is under way.
pub(crate) proof fn lemma_started(plan: Plan, events: Seq<EventView>)
    requires
        plan == fresh(plan.options, plan.config, plan.packages, plan.git_packages),
        answers(started(plan), events),
    ensures
        well_formed(course(started(plan), events).plan),
        obeys(plan.options, course(started(plan), events)),
{
    reveal(started);
    lemma_all_accounted(plan, events);
    lemma_course_obeys(plan, events);
}

/// The first turn is on record.
proof fn lemma_first_on_record(plan: Plan)
    requires
        plan == fresh(plan.options, plan.config, plan.packages, plan.git_packages),
    ensures
        on_record(plan, started(plan), Seq::empty()),
{
    let none = Seq::<EventView>::empty();
    lemma_started(plan, none);
    reveal(started);
    let turn = begin(plan);
    let names = package_names(plan.packages);
    let asked = requests(turn, none);
    assert(names.take(0) =~= Seq::empty());
    assert(asked =~= seq![turn.request]);
    if plan.packages.len() == 0 {
        assert(names =~= Seq::empty());
        assert(known(plan.packages, Seq::empty()) =~= Seq::empty());
        lemma_listed(plan, plan, Seq::empty());
        lemma_later(turn);
        let before = Seq::<RequestView>::empty();
        let whole = preparing(plan, plan.groups) + pulling(
            plan.config,
            plan.packages,
            plan.groups,
            0,
        );
        assert(whole =~= before);
        assert(before.take(0) =~= before);
        lemma_asked_later(plan, plan.groups, before, turn.request);
        assert(before.push(turn.request) =~= asked);
    } else {
        assert(asked =~= resolving(plan.packages, 1));
    }
}

/// A run that heard that a request could not be met is over.
pub(crate) proof fn lemma_gave_up(first: Turn, events: Seq<EventView>)
    requires
        gave_up(events),
    ensures
        course(first, events).plan.stage is Done,
{
    reveal(reply);
}

/// Every run is on record, as long as its requests are met.
proof fn lemma_on_record(plan: Plan, events: Seq<EventView>)
    requires
        plan == fresh(plan.options, plan.config, plan.packages, plan.git_packages),
        answers(started(plan), events),
        !gave_up(events),
    ensures
        on_record(plan, started(plan), events),
    decreases events.len(),
{
    let first = started(plan);
    if events.len() == 0 {
        lemma_first_on_record(plan);
        assert(events =~= Seq::empty());
    } else {
        let front = events.drop_last();
        let now = course(first, front).plan;
        if gave_up(front) {
            lemma_gave_up(first, front);
        }
        lemma_on_record(plan, front);
        lemma_started(plan, front);
        lemma_reply_obeys(now, events.last());
        lemma_reply_record(
            plan,
            now,
            events.last(),
            registries_told(front),
            paths_told(front),
            versions_told(front),
            commits_told(front),
            attempted(first, front),
            requests(first, front),
        );
    }
}

/// As long as its requests are met, the state of a run goes with what it was told.
pub(crate) proof fn lemma_as_told(plan: Plan, events: Seq<EventView>)
    requires
        plan == fresh(plan.options, plan.config, plan.packages, plan.git_packages),
        answers(started(plan), events),
        !gave_up(events),
    ensures
        ({
            let now = course(started(plan), events).plan;
            &&& now.options == plan.options
            &&& now.config == plan.config
            &&& now.packages == plan.packages
            &&& installed_as_told(
                plan,
                now,
                versions_told(events),
                commits_told(events),
                attempted(started(plan), events),
            )
        }),
{
    lemma_on_record(plan, events);
}

/// The turn on an event keeps to the options.
proof fn lemma_reply_obeys(now: Plan, event: EventView)
    requires
        well_formed(now),
        fits(now, event),
    ensures
        obeys(now.options, reply(now, event)),
{
    reveal(reply);
    lemma_next_obeys(now, event);
}

/// A run that comes to its end without a request that could not be met was told of every
/// package. It attempts to install exactly the registry packages that are due and offered, and
/// then exactly the git packages that are due, each once and in order; where updates are only
/// listed, none.
pub proof fn lemma_installs(plan: Plan, events: Seq<EventView>)
    requires
        plan == fresh(plan.options, plan.config, plan.packages, plan.git_packages),
        answers(begin(plan), events),
        course(begin(plan), events).request is Exit,
        !gave_up(events),
    ensures
        versions_told(events).len() == plan.packages.len(),
        commits_told(events).len() == chosen_git(plan).len(),
        attempted(begin(plan), events) == wanted_names(
            plan,
            versions_told(events),
            commits_told(events),
        ),
{
    assert(started(plan) == begin(plan)) by {
        reveal(started);
    }
    lemma_on_record(plan, events);
    lemma_started(plan, events);
}

/// Once versions are asked for, the packages stand in groups as the registries were told of,
/// each index is located, and the requests so far are these, in this order: the registry of
/// each package; each index to be located, each to be opened, each to be fetched and each to be
/// read; the versions of each package, up to the one that the run waits for. After that no
/// request concerns a registry.
pub proof fn lemma_requests(plan: Plan, events: Seq<EventView>)
    requires
        plan == fresh(plan.options, plan.config, plan.packages, plan.git_packages),
        answers(begin(plan), events),
        rank(course(begin(plan), events).plan.stage) <= 4,
        !gave_up(events),
    ensures
        registries_told(events).len() == plan.packages.len(),
        ({
            let now = course(begin(plan), events).plan;
            let asked = requests(begin(plan), events);
            let groups = grouped(registries_told(events), package_names(plan.packages));
            &&& now.groups == groups
            &&& now.paths == paths_told(events)
            &&& paths_told(events).len() == groups.len()
            &&& if now.stage is Pull {
                asked == preparing(plan, groups) + pulling(
                    plan.config,
                    plan.packages,
                    groups,
                    now.cursor + 1,
                )
            } else {
                prepared(plan, groups, asked)
            }
        }),
{
    assert(started(plan) == begin(plan)) by {
        reveal(started);
    }
    lemma_on_record(plan, events);
}

/// The versions of each package are looked up in an index at hand, that of a registry with a
/// package of its name; where no two packages share their name, that of its own registry. The
/// same registry is named where the package is installed.
pub proof fn lemma_own_index(plan: Plan, events: Seq<EventView>, at: int)
    requires
        plan == fresh(plan.options, plan.config, plan.packages, plan.git_packages),
        answers(begin(plan), events),
        rank(course(begin(plan), events).plan.stage) <= 4,
        !gave_up(events),
        0 <= at < plan.packages.len(),
    ensures
        ({
            let now = course(begin(plan), events).plan;
            let groups = now.groups;
            let names = package_names(plan.packages);
            let asked = pulling(plan.config, plan.packages, groups, plan.packages.len())[at];
            let group = asked->PullVersions_group;
            &&& asked->PullVersions_package == plan.packages[at].handle
            &&& group_of(groups, names[at]) == Some(group)
            &&& group < groups.len()
            &&& groups[group as int].packages.contains(names[at])
            &&& names.no_duplicates() ==> groups[group as int].registry == registries_told(
                events,
            )[at]
            &&& now.stage is Install && installing(now) == names[at] ==> course(
                begin(plan),
                events,
            ).request == (RequestView::RunCargo {
                args: registry_args(
                    plan.options,
                    plan.config,
                    groups[group as int].registry.name,
                    now.candidates[now.cursor as int],
                ),
            })
        }),
{
    let names = package_names(plan.packages);
    let groups = grouped(registries_told(events), names);
    assert(started(plan) == begin(plan)) by {
        reveal(started);
    }
    lemma_requests(plan, events);
    lemma_on_record(plan, events);
    lemma_started(plan, events);
    lemma_own_group(registries_told(events), names, at);
    lemma_group_of(groups, names[at]);
    assert(names[at] == plan.packages[at].name);
}

/// The request has an index fetched.
pub open spec fn is_fetch() -> spec_fn(RequestView) -> bool {
    |request: RequestView| request is RefreshIndex
}

/// A filter that nothing passes leaves nothing, one that everything passes leaves everything.
proof fn lemma_filter_none_or_all(asked: Seq<RequestView>)
    ensures
        (forall|i: int| 0 <= i < asked.len() ==> !(#[trigger] asked[i] is RefreshIndex))
            ==> asked.filter(is_fetch()).len() == 0,
        (forall|i: int| 0 <= i < asked.len() ==> #[trigger] asked[i] is RefreshIndex)
            ==> asked.filter(is_fetch()) == asked,
    decreases asked.len(),
{
    reveal(Seq::filter);
    if asked.len() > 0 {
        let front = asked.drop_last();
        lemma_filter_none_or_all(front);
        assert(asked[asked.len() - 1] == asked.last());
        assert(forall|i: int| 0 <= i < front.len() ==> #[trigger] front[i] == asked[i]);
        assert(front.push(asked.last()) =~= asked);
    }
}

/// Of the requests before any versions, those that fetch are in the middle.
proof fn lemma_preparing_fetches(plan: Plan, groups: Seq<GroupView>, rest: Seq<RequestView>)
    requires
        forall|i: int| 0 <= i < rest.len() ==> !(#[trigger] rest[i] is RefreshIndex),
    ensures
        (preparing(plan, groups) + rest).filter(is_fetch()) == fetching(
            groups,
            !plan.options.quiet,
            groups.len(),
        ),
{
    let first = resolving(plan.packages, plan.packages.len());
    let second = locating(groups, groups.len());
    let third = opening(groups.len());
    let fetches = fetching(groups, !plan.options.quiet, groups.len());
    let fifth = reading(groups.len());
    let ahead = first + second + third;
    let behind = fifth + rest;
    lemma_filter_none_or_all(ahead);
    lemma_filter_none_or_all(fetches);
    lemma_filter_none_or_all(behind);
    assert(preparing(plan, groups) + rest =~= (ahead + fetches) + behind);
    Seq::filter_distributes_over_add(ahead, fetches, is_fetch());
    Seq::filter_distributes_over_add(ahead + fetches, behind, is_fetch());
    assert(ahead.filter(is_fetch()) + fetches + behind.filter(is_fetch()) =~= fetches);
}

/// In the course of a run that comes to ask for versions, each index is fetched exactly once, in
/// the order of the registries.
pub proof fn lemma_fetched_once(plan: Plan, events: Seq<EventView>)
    requires
        plan == fresh(plan.options, plan.config, plan.packages, plan.git_packages),
        answers(begin(plan), events),
        rank(course(begin(plan), events).plan.stage) <= 4,
        !gave_up(events),
    ensures
        ({
            let groups = grouped(registries_told(events), package_names(plan.packages));
            requests(begin(plan), events).filter(is_fetch()) == fetching(
                groups,
                !plan.options.quiet,
                groups.len(),
            )
        }),
{
    lemma_requests(plan, events);
    let groups = grouped(registries_told(events), package_names(plan.packages));
    let asked = requests(begin(plan), events);
    let rest = asked.skip(preparing(plan, groups).len() as int);
    if !(course(begin(plan), events).plan.stage is Pull) {
        let pulls = pulling(plan.config, plan.packages, groups, plan.packages.len());
        let whole = preparing(plan, groups) + pulls;
        assert forall|i: int| 0 <= i < whole.len() implies asked[i] == whole[i] by {
            assert(asked.take(whole.len() as int)[i] == asked[i]);
        }
        assert forall|i: int| 0 <= i < rest.len() implies !(#[trigger] rest[i] is RefreshIndex) by {
            let j = i + preparing(plan, groups).len();
            if j < whole.len() {
                assert(rest[i] == pulls[i]);
            } else {
                assert(is_later(asked[j]));
            }
        }
    }
    assert(asked =~= preparing(plan, groups) + rest);
    lemma_preparing_fetches(plan, groups, rest);
}

} // verus!
