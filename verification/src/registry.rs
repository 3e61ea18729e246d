//! Which registry each package comes from.

use vstd::prelude::*;
use crate::text::{contains_name, lemma_precedes_transitive, lemma_precedes_trichotomy};
use crate::text::{precedes, text_precedes, Text};
use crate::views::views;

verus! {

/// A registry: where its index is, and what it is called.
#[derive(Debug, PartialEq, Eq)]
pub struct Registry {
    pub url: String,
    pub name: String,
}

/// What a [`Registry`] holds.
pub struct RegistryView {
    pub url: Text,
    pub name: Text,
}

impl View for Registry {
    type V = RegistryView;

    open spec fn view(&self) -> RegistryView {
        RegistryView { url: self.url@, name: self.name@ }
    }
}

/// A registry and the names of the packages that come from it.
#[derive(Debug, PartialEq, Eq)]
pub struct RegistryGroup {
    pub registry: Registry,
    pub packages: Vec<String>,
}

/// What a [`RegistryGroup`] holds.
#[verifier::ext_equal]
pub struct GroupView {
    pub registry: RegistryView,
    pub packages: Seq<Text>,
}

impl View for RegistryGroup {
    type V = GroupView;

    open spec fn view(&self) -> GroupView {
        GroupView { registry: self.registry@, packages: views(self.packages@) }
    }
}

/// `a` comes before `b`: by the address of the index, and by the name where that is the same.
pub open spec fn comes_before(a: RegistryView, b: RegistryView) -> bool {
    precedes(a.url, b.url) || (a.url == b.url && precedes(a.name, b.name))
}

/// The groups stand in the order of their registries, and no registry occurs twice.
pub open spec fn in_order(groups: Seq<GroupView>) -> bool {
    forall|i: int, j: int|
        0 <= i < j < groups.len() ==> comes_before(
            (#[trigger] groups[i]).registry,
            (#[trigger] groups[j]).registry,
        )
}

/// How many groups from the front on come before `registry`.
pub open spec fn slot(groups: Seq<GroupView>, registry: RegistryView) -> nat
    decreases groups.len(),
{
    if groups.len() > 0 && comes_before(groups[0].registry, registry) {
        1 + slot(groups.drop_first(), registry)
    } else {
        0
    }
}

/// The groups with one package more, in the group of its registry, which stands at its place
/// in the order.
pub open spec fn with_package(
    groups: Seq<GroupView>,
    registry: RegistryView,
    name: Text,
) -> Seq<GroupView> {
    let at = slot(groups, registry) as int;
    if at < groups.len() && groups[at].registry == registry {
        groups.update(
            at,
            GroupView { registry: registry, packages: groups[at].packages.push(name) },
        )
    } else {
        groups.insert(at, GroupView { registry: registry, packages: seq![name] })
    }
}

/// The position of the first group with a package of this name.
pub open spec fn group_of(groups: Seq<GroupView>, name: Text) -> Option<nat>
    decreases groups.len(),
{
    if groups.len() == 0 {
        None
    } else if groups[0].packages.contains(name) {
        Some(0)
    } else {
        match group_of(groups.drop_first(), name) {
            Some(at) => Some(at + 1),
            None => None,
        }
    }
}

/// Whether `a` comes before `b`.
pub fn registry_before(a: &Registry, b: &Registry) -> (before: bool)
    ensures
        before == comes_before(a@, b@),
{
    text_precedes(a.url.as_str(), b.url.as_str()) || (a.url == b.url && text_precedes(
        a.name.as_str(),
        b.name.as_str(),
    ))
}

/// Puts a package into the group of its registry.
pub fn add_package(groups: &mut Vec<RegistryGroup>, registry: Registry, name: String)
    ensures
        views(final(groups)@) == with_package(views(old(groups)@), registry@, name@),
{
    let ghost before = views(groups@);
    let mut at: usize = 0;
    proof {
        assert(before.skip(0) =~= before);
    }
    while at < groups.len() && registry_before(&groups[at].registry, &registry)
        invariant
            at <= groups@.len(),
            before == views(groups@),
            slot(before, registry@) == at + slot(before.skip(at as int), registry@),
        decreases groups@.len() - at,
    {
        proof {
            assert(before.skip(at as int)[0] == before[at as int]);
            assert(before.skip(at as int).drop_first() =~= before.skip(at + 1));
        }
        at = at + 1;
    }
    proof {
        if at < groups@.len() {
            assert(before.skip(at as int)[0] == before[at as int]);
        }
        assert(slot(before, registry@) == at);
    }
    if at < groups.len() && groups[at].registry.url == registry.url && groups[at].registry.name
        == registry.name {
        let ghost name_view = name@;
        let mut group: RegistryGroup = groups.remove(at);
        let ghost packages_before = group.packages@;
        group.packages.push(name);
        let ghost group_after = group;
        groups.insert(at, group);
        proof {
            assert(views(group_after.packages@) =~= views(packages_before).push(name_view));
            assert(views(groups@) =~= with_package(before, registry@, name_view));
        }
    } else {
        let ghost name_view = name@;
        let mut packages: Vec<String> = Vec::new();
        packages.push(name);
        let group = RegistryGroup { registry, packages };
        proof {
            assert(views(packages@) =~= seq![name_view]);
        }
        groups.insert(at, group);
        proof {
            assert(views(groups@) =~= with_package(before, group.registry@, name_view));
        }
    }
}

/// The position of the first group with a package of this name.
pub fn find_group(groups: &Vec<RegistryGroup>, name: &String) -> (found: Option<usize>)
    ensures
        match found {
            Some(at) => group_of(views(groups@), name@) == Some(at as nat),
            None => group_of(views(groups@), name@) is None,
        },
{
    let ghost all = views(groups@);
    let mut at: usize = 0;
    proof {
        assert(all.skip(0) =~= all);
    }
    while at < groups.len()
        invariant
            at <= groups@.len(),
            all == views(groups@),
            group_of(all, name@) == match group_of(all.skip(at as int), name@) {
                Some(further) => Some((at + further) as nat),
                None => None,
            },
        decreases groups@.len() - at,
    {
        proof {
            assert(all.skip(at as int)[0] == all[at as int]);
            assert(all.skip(at as int).drop_first() =~= all.skip(at + 1));
        }
        if contains_name(&groups[at].packages, name) {
            return Some(at);
        }
        at = at + 1;
    }
    None
}

/// The order of registries is strict and total: no registry comes before itself, no two come
/// before each other, and of two different ones one comes before the other.
pub proof fn lemma_comes_before_trichotomy(a: RegistryView, b: RegistryView)
    ensures
        !comes_before(a, a),
        !(comes_before(a, b) && comes_before(b, a)),
        comes_before(a, b) || a == b || comes_before(b, a),
{
    lemma_precedes_trichotomy(a.url, b.url);
    lemma_precedes_trichotomy(a.name, b.name);
}

/// The order of registries is transitive.
pub proof fn lemma_comes_before_transitive(a: RegistryView, b: RegistryView, c: RegistryView)
    requires
        comes_before(a, b),
        comes_before(b, c),
    ensures
        comes_before(a, c),
{
    if precedes(a.url, b.url) && precedes(b.url, c.url) {
        lemma_precedes_transitive(a.url, b.url, c.url);
    }
    if precedes(a.name, b.name) && precedes(b.name, c.name) {
        lemma_precedes_transitive(a.name, b.name, c.name);
    }
}

/// The slot of a registry is the first group that does not come before it.
proof fn lemma_slot(groups: Seq<GroupView>, registry: RegistryView)
    ensures
        slot(groups, registry) <= groups.len(),
        forall|i: int|
            0 <= i < slot(groups, registry) ==> comes_before(
                (#[trigger] groups[i]).registry,
                registry,
            ),
        slot(groups, registry) < groups.len() ==> !comes_before(
            groups[slot(groups, registry) as int].registry,
            registry,
        ),
    decreases groups.len(),
{
    if groups.len() > 0 && comes_before(groups[0].registry, registry) {
        let rest = groups.drop_first();
        lemma_slot(rest, registry);
        assert forall|i: int| 0 <= i < slot(groups, registry) implies comes_before(
            (#[trigger] groups[i]).registry,
            registry,
        ) by {
            if i > 0 {
                assert(rest[i - 1] == groups[i]);
            }
        }
    }
}

/// Putting a package into its group keeps the groups in order.
pub proof fn lemma_with_package_in_order(
    groups: Seq<GroupView>,
    registry: RegistryView,
    name: Text,
)
    requires
        in_order(groups),
    ensures
        in_order(with_package(groups, registry, name)),
{
    lemma_slot(groups, registry);
    let at = slot(groups, registry) as int;
    let after = with_package(groups, registry, name);
    if at < groups.len() && groups[at].registry == registry {
        assert forall|i: int, j: int| 0 <= i < j < after.len() implies comes_before(
            (#[trigger] after[i]).registry,
            (#[trigger] after[j]).registry,
        ) by {
            assert(after[i].registry == groups[i].registry);
            assert(after[j].registry == groups[j].registry);
        }
    } else {
        assert forall|j: int| at <= j < groups.len() implies comes_before(
            registry,
            (#[trigger] groups[j]).registry,
        ) by {
            lemma_comes_before_trichotomy(registry, groups[at].registry);
            if at < j {
                lemma_comes_before_transitive(
                    registry,
                    groups[at].registry,
                    groups[j].registry,
                );
            }
        }
        assert forall|i: int, j: int| 0 <= i < j < after.len() implies comes_before(
            (#[trigger] after[i]).registry,
            (#[trigger] after[j]).registry,
        ) by {
            let before_i = if i < at { i } else { i - 1 };
            let before_j = if j < at { j } else { j - 1 };
            if i != at {
                assert(after[i] == groups[before_i]);
            }
            if j != at {
                assert(after[j] == groups[before_j]);
            }
        }
    }
}

/// A group with a package of this name stands at `at`.
pub open spec fn holds_at(groups: Seq<GroupView>, name: Text, at: int) -> bool {
    0 <= at < groups.len() && groups[at].packages.contains(name)
}

/// The group of a name is the first that holds a package of this name, and there is none only
/// where no group does.
pub proof fn lemma_group_of(groups: Seq<GroupView>, name: Text)
    ensures
        match group_of(groups, name) {
            Some(at) => holds_at(groups, name, at as int) && forall|i: int|
                0 <= i < at ==> !holds_at(groups, name, i),
            None => forall|i: int| !holds_at(groups, name, i),
        },
    decreases groups.len(),
{
    if groups.len() > 0 {
        let rest = groups.drop_first();
        lemma_group_of(rest, name);
        assert(forall|i: int| 1 <= i ==> holds_at(groups, name, i) == holds_at(rest, name, i - 1));
        if groups[0].packages.contains(name) {
            assert(holds_at(groups, name, 0));
        } else {
            assert(!holds_at(groups, name, 0));
            match group_of(rest, name) {
                Some(at) => {
                    assert(holds_at(rest, name, at as int));
                    assert(holds_at(groups, name, at as int + 1));
                },
                None => {
                    assert forall|i: int| !holds_at(groups, name, i) by {
                        if 1 <= i {
                            assert(!holds_at(rest, name, i - 1));
                        }
                    }
                },
            }
        }
    }
}

/// Once a package is in its group it is found, and so is every package that was found before.
pub proof fn lemma_with_package_found(
    groups: Seq<GroupView>,
    registry: RegistryView,
    name: Text,
    other: Text,
)
    requires
        other == name || group_of(groups, other) is Some,
    ensures
        group_of(with_package(groups, registry, name), other) is Some,
{
    lemma_slot(groups, registry);
    let at = slot(groups, registry) as int;
    let after = with_package(groups, registry, name);
    lemma_group_of(groups, other);
    lemma_group_of(after, other);
    let inside = at < groups.len() && groups[at].registry == registry;
    if other == name {
        let packages = after[at].packages;
        assert(packages[packages.len() - 1] == name);
        assert(holds_at(after, name, at));
    } else {
        let i = group_of(groups, other)->0 as int;
        let k = choose|k: int|
            0 <= k < groups[i].packages.len() && groups[i].packages[k] == other;
        if inside {
            assert(after[i].packages[k] == other);
            assert(holds_at(after, other, i));
        } else {
            let j = if i < at { i } else { i + 1 };
            assert(after[j] == groups[i]);
            assert(holds_at(after, other, j));
        }
    }
}

/// The groups that come of packages whose registries were found in this order.
pub open spec fn grouped(registries: Seq<RegistryView>, names: Seq<Text>) -> Seq<GroupView>
    decreases names.len(),
{
    if names.len() == 0 {
        Seq::empty()
    } else {
        with_package(
            grouped(registries.drop_last(), names.drop_last()),
            registries.last(),
            names.last(),
        )
    }
}

/// The names of the packages that come from `registry`, in order.
pub open spec fn names_from(
    registries: Seq<RegistryView>,
    names: Seq<Text>,
    registry: RegistryView,
) -> Seq<Text>
    decreases names.len(),
{
    if names.len() == 0 {
        Seq::empty()
    } else {
        let front = names_from(registries.drop_last(), names.drop_last(), registry);
        if registries.last() == registry {
            front.push(names.last())
        } else {
            front
        }
    }
}

/// Packages grouped one by one end up in order of their registries, in exactly one group for
/// each registry that occurs; each group holds the packages of its registry, in the order in
/// which they came.
pub proof fn lemma_grouped(registries: Seq<RegistryView>, names: Seq<Text>)
    requires
        registries.len() == names.len(),
    ensures
        in_order(grouped(registries, names)),
        forall|j: int|
            0 <= j < grouped(registries, names).len() ==> {
                let group = #[trigger] grouped(registries, names)[j];
                group.packages == names_from(registries, names, group.registry)
                    && registries.contains(group.registry)
            },
        forall|i: int|
            0 <= i < registries.len() ==> exists|j: int|
                0 <= j < grouped(registries, names).len() && #[trigger] grouped(
                    registries,
                    names,
                )[j].registry == #[trigger] registries[i],
    decreases names.len(),
{
    if names.len() > 0 {
        let registry = registries.last();
        let name = names.last();
        let front_registries = registries.drop_last();
        let front_names = names.drop_last();
        let groups = grouped(front_registries, front_names);
        let after = grouped(registries, names);
        lemma_grouped(front_registries, front_names);
        lemma_with_package_in_order(groups, registry, name);
        lemma_slot(groups, registry);
        let at = slot(groups, registry) as int;
        let inside = at < groups.len() && groups[at].registry == registry;
        assert(registries[registries.len() - 1] == registry);
        if !inside {
            assert forall|j: int| 0 <= j < groups.len() implies (
            #[trigger] groups[j]).registry != registry by {
                lemma_comes_before_trichotomy(groups[j].registry, registry);
                if at < j {
                    lemma_comes_before_trichotomy(groups[at].registry, registry);
                    lemma_comes_before_transitive(
                        registry,
                        groups[at].registry,
                        groups[j].registry,
                    );
                }
            }
            lemma_names_from_absent(front_registries, front_names, registry);
        }
        assert forall|j: int| 0 <= j < after.len() implies {
            let group = #[trigger] after[j];
            group.packages == names_from(registries, names, group.registry)
                && registries.contains(group.registry)
        } by {
            let k = if inside || j < at { j } else { j - 1 };
            if j == at {
                assert(after[j].registry == registry);
            } else {
                assert(after[j] == groups[k]);
                let i = choose|i: int|
                    0 <= i < front_registries.len() && front_registries[i]
                        == groups[k].registry;
                assert(registries[i] == groups[k].registry);
                if inside {
                    assert(comes_before(groups[j].registry, groups[at].registry)
                        || comes_before(groups[at].registry, groups[j].registry));
                    lemma_comes_before_trichotomy(groups[j].registry, registry);
                }
            }
        }
        assert forall|i: int| 0 <= i < registries.len() implies exists|j: int|
            0 <= j < after.len() && #[trigger] after[j].registry == #[trigger] registries[i] by {
            if i < front_registries.len() {
                assert(front_registries[i] == registries[i]);
                let k = choose|k: int|
                    0 <= k < groups.len() && #[trigger] groups[k].registry == registries[i];
                let j = if inside || k < at { k } else { k + 1 };
                assert(after[j].registry == registries[i]);
            } else {
                assert(after[at].registry == registries[i]);
            }
        }
    }
}

/// No package comes from a registry that does not occur.
proof fn lemma_names_from_absent(
    registries: Seq<RegistryView>,
    names: Seq<Text>,
    registry: RegistryView,
)
    requires
        registries.len() == names.len(),
        forall|j: int|
            0 <= j < grouped(registries, names).len() ==> (#[trigger] grouped(
                registries,
                names,
            )[j]).registry != registry,
        forall|i: int|
            0 <= i < registries.len() ==> exists|j: int|
                0 <= j < grouped(registries, names).len() && #[trigger] grouped(
                    registries,
                    names,
                )[j].registry == #[trigger] registries[i],
    ensures
        names_from(registries, names, registry) == Seq::<Text>::empty(),
{
    assert forall|i: int| 0 <= i < registries.len() implies #[trigger] registries[i]
        != registry by {
        let j = choose|j: int|
            0 <= j < grouped(registries, names).len() && #[trigger] grouped(
                registries,
                names,
            )[j].registry == registries[i];
    }
    lemma_names_from_none(registries, names, registry);
}

/// Where no package comes from a registry, the list of its packages is empty.
proof fn lemma_names_from_none(
    registries: Seq<RegistryView>,
    names: Seq<Text>,
    registry: RegistryView,
)
    requires
        registries.len() == names.len(),
        forall|i: int| 0 <= i < registries.len() ==> #[trigger] registries[i] != registry,
    ensures
        names_from(registries, names, registry) == Seq::<Text>::empty(),
    decreases names.len(),
{
    if names.len() > 0 {
        assert(registries[registries.len() - 1] != registry);
        lemma_names_from_none(registries.drop_last(), names.drop_last(), registry);
    }
}

/// The package that came at position `at` has this name and this registry.
spec fn came_at(
    registries: Seq<RegistryView>,
    names: Seq<Text>,
    registry: RegistryView,
    name: Text,
    at: int,
) -> bool {
    0 <= at < names.len() && registries[at] == registry && names[at] == name
}

/// The packages of a registry are those names whose registry it is.
proof fn lemma_names_from_members(
    registries: Seq<RegistryView>,
    names: Seq<Text>,
    registry: RegistryView,
)
    requires
        registries.len() == names.len(),
    ensures
        forall|i: int|
            0 <= i < names.len() && registries[i] == registry ==> names_from(
                registries,
                names,
                registry,
            ).contains(#[trigger] names[i]),
        forall|name: Text| #[trigger]
            names_from(registries, names, registry).contains(name) ==> exists|i: int|
                came_at(registries, names, registry, name, i),
    decreases names.len(),
{
    if names.len() > 0 {
        let front_registries = registries.drop_last();
        let front_names = names.drop_last();
        let front = names_from(front_registries, front_names, registry);
        let whole = names_from(registries, names, registry);
        lemma_names_from_members(front_registries, front_names, registry);
        assert forall|i: int| 0 <= i < names.len() && registries[i] == registry implies
            whole.contains(#[trigger] names[i]) by {
            if i < front_names.len() {
                assert(front_names[i] == names[i]);
                assert(front_registries[i] == registry);
                let k = choose|k: int| 0 <= k < front.len() && front[k] == names[i];
                assert(whole[k] == names[i]);
            } else {
                assert(whole[whole.len() - 1] == names[i]);
            }
        }
        assert forall|name: Text| #[trigger] whole.contains(name) implies exists|i: int|
            came_at(registries, names, registry, name, i) by {
            let k = choose|k: int| 0 <= k < whole.len() && whole[k] == name;
            if k < front.len() {
                assert(front[k] == name);
                assert(front.contains(name));
                let i = choose|i: int|
                    came_at(front_registries, front_names, registry, name, i);
                assert(came_at(registries, names, registry, name, i));
            } else {
                assert(came_at(registries, names, registry, name, names.len() - 1));
            }
        }
    }
}

/// Every package that was put into a group is found in one, and where no two packages share
/// their name, in the group of its own registry.
pub proof fn lemma_own_group(registries: Seq<RegistryView>, names: Seq<Text>, at: int)
    requires
        registries.len() == names.len(),
        0 <= at < names.len(),
    ensures
        group_of(grouped(registries, names), names[at]) is Some,
        names.no_duplicates() ==> {
            let found = group_of(grouped(registries, names), names[at])->0 as int;
            grouped(registries, names)[found].registry == registries[at]
        },
{
    let groups = grouped(registries, names);
    lemma_grouped(registries, names);
    lemma_group_of(groups, names[at]);
    let own = choose|j: int|
        0 <= j < groups.len() && #[trigger] groups[j].registry == registries[at];
    lemma_names_from_members(registries, names, registries[at]);
    assert(holds_at(groups, names[at], own));
    let found = group_of(groups, names[at])->0 as int;
    lemma_names_from_members(registries, names, groups[found].registry);
    assert(names_from(registries, names, groups[found].registry).contains(names[at]));
    let i = choose|i: int|
        came_at(registries, names, groups[found].registry, names[at], i);
    assert(came_at(registries, names, groups[found].registry, names[at], i));
}

} // verus!
