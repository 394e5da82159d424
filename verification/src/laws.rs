//! What holds of the analysis as a whole, whatever the project and whatever the build.

use vstd::prelude::*;
use crate::invocation::CmdInfoView;
use crate::model::{group_of, DependencyKind, KindGroup, PackageId};
use crate::names::{
    goes_by,
    is_edge_of,
    is_last_by,
    leads_to,
    lemma_by_alias,
    lemma_edge_recorded,
    lemma_empty_declares_nothing,
    lemma_names_under,
    lemma_no_edges,
    names_of,
    table_of,
    EdgeView,
};
use crate::outcome::{all_clean, has_unused, outcome_of, reported, reports_of, unused};
use crate::project::MemberView;
use crate::text::normalized;
use crate::usage::{
    alias_marks,
    evidence,
    extern_marks,
    library_marks,
    marks,
    marks_in_group,
    used_after,
    ObservationView,
    UsedView,
};

verus! {

/// What one observation gives evidence for: nothing where it lacks its usage analysis.
pub open spec fn evidence_of(
    members: Map<PackageId, MemberView>,
    group: KindGroup,
    observation: ObservationView,
) -> Set<(PackageId, Seq<char>)> {
    match observation.analysis {
        Some(artifact) => evidence(members, group, observation.unit, artifact),
        None => Set::empty(),
    }
}

/// What some observation of a list gives evidence for.
pub open spec fn all_evidence(
    members: Map<PackageId, MemberView>,
    group: KindGroup,
    observations: Seq<ObservationView>,
) -> Set<(PackageId, Seq<char>)> {
    Set::new(
        |p: (PackageId, Seq<char>)|
            exists|i: int|
                0 <= i < observations.len() && #[trigger] evidence_of(
                    members,
                    group,
                    observations[i],
                ).contains(p),
    )
}

/// Matching only ever adds: the used dependencies after a list of observations are
/// those from before and those that some observation of the list gives evidence for.
pub proof fn lemma_used_after(
    members: Map<PackageId, MemberView>,
    start: UsedView,
    observations: Seq<ObservationView>,
    group: KindGroup,
)
    ensures
        used_after(members, start, observations).of_group(group) == start.of_group(group).union(
            all_evidence(members, group, observations),
        ),
    decreases observations.len(),
{
    let goal = start.of_group(group).union(all_evidence(members, group, observations));
    if observations.len() == 0 {
        assert(start.of_group(group) =~= goal);
    } else {
        let rest = observations.drop_last();
        let last = observations.last();
        lemma_used_after(members, start, rest, group);
        let now = used_after(members, start, observations).of_group(group);
        assert forall|p: (PackageId, Seq<char>)| now.contains(p) <==> goal.contains(p) by {
            if all_evidence(members, group, rest).contains(p) {
                let i = choose|i: int|
                    0 <= i < rest.len() && #[trigger] evidence_of(members, group, rest[i]).contains(
                        p,
                    );
                assert(evidence_of(members, group, observations[i]).contains(p));
            }
            if all_evidence(members, group, observations).contains(p) {
                let i = choose|i: int|
                    0 <= i < observations.len() && #[trigger] evidence_of(
                        members,
                        group,
                        observations[i],
                    ).contains(p);
                if i < rest.len() {
                    assert(evidence_of(members, group, rest[i]).contains(p));
                }
            }
            if evidence_of(members, group, last).contains(p) {
                assert(evidence_of(members, group, observations[observations.len() - 1]).contains(
                    p,
                ));
            }
        }
        assert(now =~= goal);
    }
}

/// Matching the same observations a second time adds nothing to the used dependencies.
pub proof fn law_matching_twice_adds_nothing(
    members: Map<PackageId, MemberView>,
    start: UsedView,
    observations: Seq<ObservationView>,
)
    ensures
        used_after(members, used_after(members, start, observations), observations) == used_after(
            members,
            start,
            observations,
        ),
{
    let once = used_after(members, start, observations);
    let twice = used_after(members, once, observations);
    lemma_used_after(members, start, observations, KindGroup::NormalDevelopment);
    lemma_used_after(members, start, observations, KindGroup::Build);
    lemma_used_after(members, once, observations, KindGroup::NormalDevelopment);
    lemma_used_after(members, once, observations, KindGroup::Build);
    assert(twice.normal_development =~= once.normal_development);
    assert(twice.build =~= once.build);
}

/// The order in which observations are matched makes no difference to the used
/// dependencies.
pub proof fn law_matching_order_is_irrelevant(
    members: Map<PackageId, MemberView>,
    start: UsedView,
    first: Seq<ObservationView>,
    second: Seq<ObservationView>,
)
    ensures
        used_after(members, start, first + second) == used_after(members, start, second + first),
{
    let one = used_after(members, start, first + second);
    let other = used_after(members, start, second + first);
    lemma_used_after(members, start, first + second, KindGroup::NormalDevelopment);
    lemma_used_after(members, start, first + second, KindGroup::Build);
    lemma_used_after(members, start, second + first, KindGroup::NormalDevelopment);
    lemma_used_after(members, start, second + first, KindGroup::Build);
    lemma_evidence_of_both(members, KindGroup::NormalDevelopment, first, second);
    lemma_evidence_of_both(members, KindGroup::NormalDevelopment, second, first);
    lemma_evidence_of_both(members, KindGroup::Build, first, second);
    lemma_evidence_of_both(members, KindGroup::Build, second, first);
    assert(one.normal_development =~= other.normal_development);
    assert(one.build =~= other.build);
}

/// What two lists of observations give evidence for when joined is what either gives
/// evidence for.
pub proof fn lemma_evidence_of_both(
    members: Map<PackageId, MemberView>,
    group: KindGroup,
    first: Seq<ObservationView>,
    second: Seq<ObservationView>,
)
    ensures
        all_evidence(members, group, first + second) == all_evidence(members, group, first).union(
            all_evidence(members, group, second),
        ),
{
    let both = first + second;
    let goal = all_evidence(members, group, first).union(all_evidence(members, group, second));
    assert forall|p: (PackageId, Seq<char>)|
        all_evidence(members, group, both).contains(p) <==> goal.contains(p) by {
        if all_evidence(members, group, both).contains(p) {
            let i = choose|i: int|
                0 <= i < both.len() && #[trigger] evidence_of(members, group, both[i]).contains(p);
            if i < first.len() {
                assert(evidence_of(members, group, first[i]).contains(p));
            } else {
                assert(evidence_of(members, group, second[i - first.len()]).contains(p));
            }
        }
        if all_evidence(members, group, first).contains(p) {
            let i = choose|i: int|
                0 <= i < first.len() && #[trigger] evidence_of(members, group, first[i]).contains(
                    p,
                );
            assert(evidence_of(members, group, both[i]).contains(p));
        }
        if all_evidence(members, group, second).contains(p) {
            let i = choose|i: int|
                0 <= i < second.len() && #[trigger] evidence_of(
                    members,
                    group,
                    second[i],
                ).contains(p);
            assert(evidence_of(members, group, both[first.len() + i]).contains(p));
        }
    }
    assert(all_evidence(members, group, both) =~= goal);
}

/// A package that declares no dependency has no report, whatever was seen to be used:
/// neither a member whose tables are those of a package that no edge leaves, nor a
/// package that is no member.
pub proof fn law_no_dependencies_no_report(
    graph: Seq<EdgeView>,
    members: Map<PackageId, MemberView>,
    used: UsedView,
    id: PackageId,
)
    requires
        forall|i: int| 0 <= i < graph.len() ==> (#[trigger] graph[i]).from != id,
        members.contains_key(id) ==> members[id].names == names_of(graph, id),
    ensures
        !outcome_of(members, used).unused_deps.contains_key(id),
{
    if members.contains_key(id) {
        lemma_no_edges(graph, id, DependencyKind::Normal);
        lemma_no_edges(graph, id, DependencyKind::Development);
        lemma_no_edges(graph, id, DependencyKind::Build);
        assert forall|kind: DependencyKind, n: Seq<char>|
            !(#[trigger] unused(members[id], used, id, kind).contains(n)) by {
            lemma_empty_declares_nothing(n);
        }
    }
}

/// A declared name that an alias named by an invocation leads to counts as used from
/// then on, whatever the usage analysis of the unit lists and whatever is matched
/// afterwards.
pub proof fn lemma_alias_marks_used(
    members: Map<PackageId, MemberView>,
    before: Seq<ObservationView>,
    unit: CmdInfoView,
    artifact: Seq<Seq<char>>,
    after: Seq<ObservationView>,
    kind: DependencyKind,
    j: int,
)
    requires
        members.contains_key(unit.pkg),
        0 <= j < unit.externs.len(),
        members[unit.pkg].names.table(kind).by_alias.contains_key(unit.externs[j].0),
    ensures
        ({
            let name = members[unit.pkg].names.table(kind).by_alias[unit.externs[j].0];
            let observations = before.push(
                ObservationView { unit, analysis: Some(artifact) },
            ) + after;
            let used = used_after(members, UsedView::empty(), observations);
            &&& used.of_group(group_of(kind)).contains((unit.pkg, name))
            &&& outcome_of(members, used).unused_deps.contains_key(unit.pkg) ==> !outcome_of(
                members,
                used,
            ).unused_deps[unit.pkg].of_kind(kind).contains(name)
        }),
{
    let table = members[unit.pkg].names.table(kind);
    let name = table.by_alias[unit.externs[j].0];
    let observation = ObservationView { unit, analysis: Some(artifact) };
    let observations = before.push(observation) + after;
    let group = group_of(kind);
    lemma_used_after(members, UsedView::empty(), observations, group);
    assert(extern_marks(table, unit.externs, j, name));
    assert(alias_marks(table, unit.externs).contains(name));
    assert(marks(table, unit.externs, artifact).contains(name));
    assert(marks_in_group(members[unit.pkg].names, group, unit.externs, artifact).contains(name));
    assert(observations[before.len() as int] == observation);
    assert(evidence_of(members, group, observations[before.len() as int]).contains(
        (unit.pkg, name),
    ));
}

/// Whether `name` can be found through the tables of the kinds of `group`: by an alias
/// or by a library name.
pub open spec fn findable(member: MemberView, group: KindGroup, name: Seq<char>) -> bool {
    exists|kind: DependencyKind| #[trigger]
        group_of(kind) == group && (member.names.table(kind).has_alias(name)
            || member.names.table(kind).has_library(name))
}

/// Matching marks only what can be found through the tables of a member.
pub proof fn lemma_used_is_findable(
    members: Map<PackageId, MemberView>,
    observations: Seq<ObservationView>,
    group: KindGroup,
    id: PackageId,
    name: Seq<char>,
)
    requires
        used_after(members, UsedView::empty(), observations).of_group(group).contains((id, name)),
    ensures
        members.contains_key(id),
        findable(members[id], group, name),
{
    lemma_used_after(members, UsedView::empty(), observations, group);
    let p = (id, name);
    let i = choose|i: int|
        0 <= i < observations.len() && #[trigger] evidence_of(
            members,
            group,
            observations[i],
        ).contains(p);
    let unit = observations[i].unit;
    let artifact = observations[i].analysis->0;
    let names = members[id].names;
    let kind = if marks(names.normal, unit.externs, artifact).contains(name) && group
        == KindGroup::NormalDevelopment {
        DependencyKind::Normal
    } else if group == KindGroup::NormalDevelopment {
        DependencyKind::Development
    } else {
        DependencyKind::Build
    };
    let table = names.table(kind);
    assert(marks(table, unit.externs, artifact).contains(name));
    if library_marks(table, artifact).contains(name) {
        let k = choose|k: int|
            0 <= k < artifact.len() && #[trigger] table.names_under(artifact[k]).contains(name);
        assert(table.has_library(name));
    } else {
        let k = choose|k: int| #[trigger] extern_marks(table, unit.externs, k, name);
        assert(table.by_alias.contains_key(unit.externs[k].0) && table.by_alias[unit.externs[k].0]
            == name);
        assert(table.has_alias(name));
    }
    assert(group_of(kind) == group && (members[id].names.table(kind).has_alias(name)
        || members[id].names.table(kind).has_library(name)));
}

/// A declared name among the dependencies without a library that no alias and no
/// library name leads to, in the kinds that are observed together with its kind, is
/// reported whatever the build was seen to use, unless its owner ignores it.
pub proof fn lemma_unfindable_is_reported(
    members: Map<PackageId, MemberView>,
    observations: Seq<ObservationView>,
    id: PackageId,
    kind: DependencyKind,
    name: Seq<char>,
)
    requires
        members.contains_key(id),
        members[id].names.table(kind).non_library.contains(name),
        !members[id].ignore.of_kind(kind).contains(name),
        !findable(members[id], group_of(kind), name),
    ensures
        ({
            let used = used_after(members, UsedView::empty(), observations);
            &&& outcome_of(members, used).unused_deps.contains_key(id)
            &&& outcome_of(members, used).unused_deps[id].of_kind(kind).contains(name)
            &&& !outcome_of(members, used).success
        }),
{
    let used = used_after(members, UsedView::empty(), observations);
    if used.of_group(group_of(kind)).contains((id, name)) {
        lemma_used_is_findable(members, observations, group_of(kind), id, name);
    }
    assert(unused(members[id], used, id, kind).contains(name));
    assert(has_unused(members[id], used, id));
    assert(reported(members[id], used, id, kind).contains(name));
    let reports = reports_of(members, used);
    let report = reports[id];
    assert(reports.contains_key(id));
    assert(report.of_kind(kind).contains(name));
    assert(!report.is_clean()) by {
        if report.is_clean() {
            assert(report.of_kind(kind) =~= Set::<Seq<char>>::empty());
        }
    }
    assert(!all_clean(reports));
}

/// A dependency whose alias an invocation names counts as used, even where the usage
/// analysis of the unit does not list its library, and whatever is matched before and
/// afterwards: no verdict reports it under its kind. This is stated for an alias that
/// stands for one declared name among the dependencies of its kind.
pub proof fn law_alias_marks_used(
    graph: Seq<EdgeView>,
    members: Map<PackageId, MemberView>,
    before: Seq<ObservationView>,
    unit: CmdInfoView,
    artifact: Seq<Seq<char>>,
    after: Seq<ObservationView>,
    i: int,
    j: int,
)
    requires
        members.contains_key(unit.pkg),
        members[unit.pkg].names == names_of(graph, unit.pkg),
        0 <= i < graph.len(),
        graph[i].from == unit.pkg,
        graph[i].library is Some,
        0 <= j < unit.externs.len(),
        unit.externs[j].0 == graph[i].library->0.alias,
        forall|k: int| #[trigger]
            is_edge_of(graph, unit.pkg, graph[i].kind, k) && goes_by(
                graph[k],
                graph[i].library->0.alias,
            ) ==> graph[k].name == graph[i].name,
    ensures
        ({
            let observations = before.push(
                ObservationView { unit, analysis: Some(artifact) },
            ) + after;
            let used = used_after(members, UsedView::empty(), observations);
            &&& used.of_group(group_of(graph[i].kind)).contains((unit.pkg, graph[i].name))
            &&& outcome_of(members, used).unused_deps.contains_key(unit.pkg) ==> !outcome_of(
                members,
                used,
            ).unused_deps[unit.pkg].of_kind(graph[i].kind).contains(graph[i].name)
        }),
{
    let kind = graph[i].kind;
    let alias = graph[i].library->0.alias;
    let table = members[unit.pkg].names.table(kind);
    assert(table == table_of(graph, unit.pkg, kind));
    lemma_by_alias(graph, unit.pkg, kind, alias);
    assert(is_edge_of(graph, unit.pkg, kind, i) && goes_by(graph[i], alias));
    assert(table.by_alias.contains_key(alias));
    let last = choose|l: int| #[trigger] is_last_by(graph, unit.pkg, kind, alias, l);
    assert(is_edge_of(graph, unit.pkg, kind, last));
    assert(table.by_alias[alias] == graph[i].name);
    lemma_alias_marks_used(members, before, unit, artifact, after, kind, j);
}

/// A dependency without a library is reported whatever the build was seen to use,
/// unless its owner ignores it. This is stated for a dependency whose declared name is
/// not also the declared name of a dependency with a library, among the dependencies
/// of its package in the kinds that are observed together with its kind.
pub proof fn law_non_library_is_reported(
    graph: Seq<EdgeView>,
    members: Map<PackageId, MemberView>,
    observations: Seq<ObservationView>,
    id: PackageId,
    i: int,
)
    requires
        members.contains_key(id),
        members[id].names == names_of(graph, id),
        0 <= i < graph.len(),
        graph[i].from == id,
        graph[i].library is None,
        !members[id].ignore.of_kind(graph[i].kind).contains(graph[i].name),
        forall|k: int|
            0 <= k < graph.len() && (#[trigger] graph[k]).from == id && group_of(graph[k].kind)
                == group_of(graph[i].kind) && graph[k].name == graph[i].name
                ==> graph[k].library is None,
    ensures
        ({
            let used = used_after(members, UsedView::empty(), observations);
            &&& outcome_of(members, used).unused_deps.contains_key(id)
            &&& outcome_of(members, used).unused_deps[id].of_kind(graph[i].kind).contains(
                graph[i].name,
            )
            &&& !outcome_of(members, used).success
        }),
{
    let kind = graph[i].kind;
    let name = graph[i].name;
    let group = group_of(kind);
    lemma_edge_recorded(graph, id, i);
    assert(members[id].names.table(kind) == table_of(graph, id, kind));
    if findable(members[id], group, name) {
        let other = choose|other: DependencyKind| #[trigger]
            group_of(other) == group && (members[id].names.table(other).has_alias(name)
                || members[id].names.table(other).has_library(name));
        let table = members[id].names.table(other);
        assert(table == table_of(graph, id, other));
        if table.has_alias(name) {
            let alias = choose|alias: Seq<char>|
                table.by_alias.contains_key(alias) && #[trigger] table.by_alias[alias] == name;
            lemma_by_alias(graph, id, other, alias);
            let l = choose|l: int| #[trigger] is_last_by(graph, id, other, alias, l);
            assert(is_edge_of(graph, id, other, l));
            assert(graph[l].name == name);
            assert(graph[l].library is Some);
        } else {
            let lib = choose|lib: Seq<char>| #[trigger] table.names_under(lib).contains(name);
            lemma_names_under(graph, id, other, lib, name);
            let l = choose|l: int| #[trigger]
                is_edge_of(graph, id, other, l) && leads_to(graph[l], lib) && graph[l].name
                    == name;
            assert(graph[l].library is Some);
        }
    }
    lemma_unfindable_is_reported(members, observations, id, kind, name);
}

/// A dependency that was not seen to be used is reported exactly as long as its owner
/// does not ignore it: with the name on the ignore list of its kind the verdict does not
/// report it, and with nothing else changed but the name taken off the list it does.
pub proof fn law_ignore_suppresses(
    members: Map<PackageId, MemberView>,
    used: UsedView,
    id: PackageId,
    kind: DependencyKind,
    name: Seq<char>,
)
    requires
        members.contains_key(id),
        unused(members[id], used, id, kind).contains(name),
        members[id].ignore.of_kind(kind).contains(name),
    ensures
        outcome_of(members, used).unused_deps.contains_key(id),
        !outcome_of(members, used).unused_deps[id].of_kind(kind).contains(name),
        ({
            let without = members[id].with_ignore(members[id].ignore.remove(kind, name));
            let outcome = outcome_of(members.insert(id, without), used);
            &&& outcome.unused_deps.contains_key(id)
            &&& outcome.unused_deps[id].of_kind(kind).contains(name)
            &&& !outcome.success
        }),
{
    assert(has_unused(members[id], used, id));
    let without = members[id].with_ignore(members[id].ignore.remove(kind, name));
    let others = members.insert(id, without);
    assert(unused(without, used, id, kind).contains(name));
    assert(has_unused(others[id], used, id));
    assert(reported(without, used, id, kind).contains(name));
    let reports = reports_of(others, used);
    let report = reports[id];
    assert(reports.contains_key(id));
    assert(report.of_kind(kind).contains(name));
    assert(!report.is_clean()) by {
        if report.is_clean() {
            assert(report.of_kind(kind) =~= Set::<Seq<char>>::empty());
        }
    }
    assert(!all_clean(reports));
}

/// Two dependencies of one package, declared under different names in kinds that are
/// observed together, whose libraries have one normalized name: that name is ambiguous,
/// and a usage analysis that lists it counts for both dependencies.
pub proof fn law_shared_library_name(
    graph: Seq<EdgeView>,
    members: Map<PackageId, MemberView>,
    from: PackageId,
    i: int,
    j: int,
    before: Seq<ObservationView>,
    unit: CmdInfoView,
    artifact: Seq<Seq<char>>,
    after: Seq<ObservationView>,
    k: int,
)
    requires
        0 <= i < graph.len(),
        0 <= j < graph.len(),
        graph[i].from == from,
        graph[j].from == from,
        group_of(graph[i].kind) == group_of(graph[j].kind),
        graph[i].name != graph[j].name,
        graph[i].library is Some,
        graph[j].library is Some,
        normalized(graph[i].library->0.name) == normalized(graph[j].library->0.name),
        members.contains_key(from),
        members[from].names == names_of(graph, from),
        unit.pkg == from,
        0 <= k < artifact.len(),
        artifact[k] == normalized(graph[i].library->0.name),
    ensures
        names_of(graph, from).ambiguous(
            group_of(graph[i].kind),
            normalized(graph[i].library->0.name),
        ),
        ({
            let observations = before.push(
                ObservationView { unit, analysis: Some(artifact) },
            ) + after;
            let used = used_after(members, UsedView::empty(), observations).of_group(
                group_of(graph[i].kind),
            );
            used.contains((from, graph[i].name)) && used.contains((from, graph[j].name))
        }),
{
    let group = group_of(graph[i].kind);
    let lib = normalized(graph[i].library->0.name);
    let names = names_of(graph, from);
    lemma_edge_recorded(graph, from, i);
    lemma_edge_recorded(graph, from, j);
    let ti = names.table(graph[i].kind);
    let tj = names.table(graph[j].kind);
    assert(ti.names_under(lib).contains(graph[i].name));
    assert(tj.names_under(lib).contains(graph[j].name));
    assert(names.names_in_group(group, lib).contains(graph[i].name));
    assert(names.names_in_group(group, lib).contains(graph[j].name));
    let observation = ObservationView { unit, analysis: Some(artifact) };
    let observations = before.push(observation) + after;
    lemma_used_after(members, UsedView::empty(), observations, group);
    assert(observations[before.len() as int] == observation);
    assert(ti.names_under(artifact[k]).contains(graph[i].name));
    assert(library_marks(ti, artifact).contains(graph[i].name));
    assert(tj.names_under(artifact[k]).contains(graph[j].name));
    assert(library_marks(tj, artifact).contains(graph[j].name));
    assert(marks_in_group(names, group, unit.externs, artifact).contains(graph[i].name));
    assert(marks_in_group(names, group, unit.externs, artifact).contains(graph[j].name));
    assert(evidence_of(members, group, observations[before.len() as int]).contains(
        (from, graph[i].name),
    ));
    assert(evidence_of(members, group, observations[before.len() as int]).contains(
        (from, graph[j].name),
    ));
}

} // verus!
