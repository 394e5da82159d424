//! Which declared dependencies a build was seen to use.
//!
//! Two things count as evidence that a unit uses a dependency: the usage analysis of
//! the unit names the library that the dependency leads to, or the invocation of the
//! unit names the alias of the dependency. Evidence is collected into two sets, one for
//! normal and development dependencies and one for build dependencies, and a set only
//! ever grows.

use vstd::prelude::*;
use crate::invocation::{CmdInfo, CmdInfoView};
use crate::model::{DependencyKind, KindGroup, PackageId};
use crate::name_set::NameSet;
use crate::names::{DependencyNamesView, NameTable, NameTableView};
use crate::package_map::PackageMap;
use crate::project::{members_view, members_wf, Member, MemberView};
use crate::text::{lemma_prefix_grows, texts};

verus! {

/// The pairs of `pkg` with each of `names`.
pub open spec fn pinned(pkg: PackageId, names: Set<Seq<char>>) -> Set<(PackageId, Seq<char>)> {
    Set::new(|p: (PackageId, Seq<char>)| p.0 == pkg && names.contains(p.1))
}

/// The declared names that the library names of a usage analysis lead to.
pub open spec fn library_marks(table: NameTableView, artifact: Seq<Seq<char>>) -> Set<
    Seq<char>,
> {
    Set::new(
        |n: Seq<char>|
            exists|i: int|
                0 <= i < artifact.len() && #[trigger] table.names_under(artifact[i]).contains(n),
    )
}

/// Whether the extern at position `j` names an alias that leads to the declared name `n`.
pub open spec fn extern_marks(
    table: NameTableView,
    externs: Seq<(Seq<char>, Seq<char>)>,
    j: int,
    n: Seq<char>,
) -> bool {
    &&& 0 <= j < externs.len()
    &&& table.by_alias.contains_key(externs[j].0)
    &&& table.by_alias[externs[j].0] == n
}

/// The declared names that the aliases named by an invocation lead to.
pub open spec fn alias_marks(
    table: NameTableView,
    externs: Seq<(Seq<char>, Seq<char>)>,
) -> Set<Seq<char>> {
    Set::new(|n: Seq<char>| exists|j: int| #[trigger] extern_marks(table, externs, j, n))
}

/// The declared names of one table that one unit gives evidence for.
pub open spec fn marks(
    table: NameTableView,
    externs: Seq<(Seq<char>, Seq<char>)>,
    artifact: Seq<Seq<char>>,
) -> Set<Seq<char>> {
    library_marks(table, artifact).union(alias_marks(table, externs))
}

/// The declared names of the kinds of one group that one unit gives evidence for.
pub open spec fn marks_in_group(
    names: DependencyNamesView,
    group: KindGroup,
    externs: Seq<(Seq<char>, Seq<char>)>,
    artifact: Seq<Seq<char>>,
) -> Set<Seq<char>> {
    match group {
        KindGroup::NormalDevelopment => marks(names.normal, externs, artifact).union(
            marks(names.development, externs, artifact),
        ),
        KindGroup::Build => marks(names.build, externs, artifact),
    }
}

/// What one unit with its usage analysis gives evidence for. A unit of a package that
/// is no member of the project gives evidence for nothing.
pub open spec fn evidence(
    members: Map<PackageId, MemberView>,
    group: KindGroup,
    unit: CmdInfoView,
    artifact: Seq<Seq<char>>,
) -> Set<(PackageId, Seq<char>)> {
    if members.contains_key(unit.pkg) {
        pinned(unit.pkg, marks_in_group(members[unit.pkg].names, group, unit.externs, artifact))
    } else {
        Set::empty()
    }
}

/// What the two sets of used dependencies stand for.
#[verifier::ext_equal]
pub struct UsedView {
    pub normal_development: Set<(PackageId, Seq<char>)>,
    pub build: Set<(PackageId, Seq<char>)>,
}

impl UsedView {
    /// Nothing used.
    pub open spec fn empty() -> UsedView {
        UsedView { normal_development: Set::empty(), build: Set::empty() }
    }

    /// The set of one group.
    pub open spec fn of_group(self, group: KindGroup) -> Set<(PackageId, Seq<char>)> {
        match group {
            KindGroup::NormalDevelopment => self.normal_development,
            KindGroup::Build => self.build,
        }
    }

    /// The sets with `more` added to that of `group`.
    pub open spec fn with(self, group: KindGroup, more: Set<(PackageId, Seq<char>)>) -> UsedView {
        match group {
            KindGroup::NormalDevelopment => UsedView {
                normal_development: self.normal_development.union(more),
                build: self.build,
            },
            KindGroup::Build => UsedView {
                normal_development: self.normal_development,
                build: self.build.union(more),
            },
        }
    }

    /// The sets after one more unit was matched.
    pub open spec fn observe(
        self,
        members: Map<PackageId, MemberView>,
        unit: CmdInfoView,
        artifact: Seq<Seq<char>>,
    ) -> UsedView {
        UsedView {
            normal_development: self.normal_development.union(
                evidence(members, KindGroup::NormalDevelopment, unit, artifact),
            ),
            build: self.build.union(evidence(members, KindGroup::Build, unit, artifact)),
        }
    }
}

/// The pairs that a map from packages to sets of names holds.
pub open spec fn pairs_of(m: Map<PackageId, NameSet>) -> Set<(PackageId, Seq<char>)> {
    Set::new(|p: (PackageId, Seq<char>)| m.contains_key(p.0) && m[p.0]@.contains(p.1))
}

/// Every set of the map is well formed.
pub open spec fn sets_wf(m: &PackageMap<NameSet>) -> bool {
    &&& m.wf()
    &&& forall|id: PackageId| #[trigger] m.map().contains_key(id) ==> m.map()[id].wf()
}

/// Adds the pair of `pkg` and `name` to a map from packages to sets of names.
fn mark_in(m: &mut PackageMap<NameSet>, pkg: PackageId, name: &str)
    requires
        sets_wf(old(m)),
    ensures
        sets_wf(final(m)),
        pairs_of(final(m).map()) == pairs_of(old(m).map()).insert((pkg, name@)),
{
    let ghost before = old(m).map();
    let mut names = match m.remove(pkg) {
        Some(names) => names,
        None => NameSet::new(),
    };
    names.insert(name.to_owned());
    m.insert(pkg, names);
    proof {
        assert forall|p: (PackageId, Seq<char>)|
            pairs_of(m.map()).contains(p) <==> pairs_of(before).insert((pkg, name@)).contains(
                p,
            ) by {
            if p.0 == pkg {
                assert(m.map().contains_key(pkg));
            } else {
                assert(m.map().contains_key(p.0) <==> before.contains_key(p.0));
            }
        }
        assert(pairs_of(m.map()) =~= pairs_of(before).insert((pkg, name@)));
    }
}

/// The dependencies seen to be used so far, by package and declared name.
pub struct UsedDependencies {
    normal_development: PackageMap<NameSet>,
    build: PackageMap<NameSet>,
}

impl View for UsedDependencies {
    type V = UsedView;

    closed spec fn view(&self) -> UsedView {
        UsedView {
            normal_development: pairs_of(self.normal_development.map()),
            build: pairs_of(self.build.map()),
        }
    }
}

impl UsedDependencies {
    /// Both sets are well formed.
    pub closed spec fn wf(&self) -> bool {
        &&& sets_wf(&self.normal_development)
        &&& sets_wf(&self.build)
    }

    /// Nothing used.
    pub fn new() -> (r: Self)
        ensures
            r.wf(),
            r@ == UsedView::empty(),
    {
        let r = UsedDependencies {
            normal_development: PackageMap::new(),
            build: PackageMap::new(),
        };
        assert(r@.normal_development =~= Set::empty());
        assert(r@.build =~= Set::empty());
        r
    }

    /// Whether the dependency `name` of package `pkg` was seen to be used, in the set
    /// of `group`.
    pub fn contains(&self, group: KindGroup, pkg: PackageId, name: &str) -> (r: bool)
        requires
            self.wf(),
        ensures
            r == self@.of_group(group).contains((pkg, name@)),
    {
        let found = match group {
            KindGroup::NormalDevelopment => self.normal_development.get(pkg),
            KindGroup::Build => self.build.get(pkg),
        };
        match found {
            Some(names) => names.contains(name),
            None => false,
        }
    }

    /// Marks the dependency `name` of package `pkg` as used, in the set of `group`.
    pub fn mark(&mut self, group: KindGroup, pkg: PackageId, name: &str)
        requires
            old(self).wf(),
        ensures
            final(self).wf(),
            final(self)@ == old(self)@.with(group, set![(pkg, name@)]),
    {
        let ghost before = self@;
        match group {
            KindGroup::NormalDevelopment => {
                mark_in(&mut self.normal_development, pkg, name);
                assert(self@.normal_development =~= before.normal_development.union(
                    set![(pkg, name@)],
                ));
            },
            KindGroup::Build => {
                mark_in(&mut self.build, pkg, name);
                assert(self@.build =~= before.build.union(set![(pkg, name@)]));
            },
        }
    }

    /// Marks each of `names` as a used dependency of package `pkg`, in the set of `group`.
    pub fn mark_all(&mut self, group: KindGroup, pkg: PackageId, names: &NameSet)
        requires
            old(self).wf(),
            names.wf(),
        ensures
            final(self).wf(),
            final(self)@ == old(self)@.with(group, pinned(pkg, names@)),
    {
        let ghost before = self@;
        let ghost all = names.names();
        let mut i: usize = 0;
        assert(before =~= before.with(group, pinned(pkg, all.take(0).to_set())));
        while i < names.len()
            invariant
                self.wf(),
                all == names.names(),
                i <= all.len(),
                self@ == before.with(group, pinned(pkg, all.take(i as int).to_set())),
            decreases all.len() - i,
        {
            self.mark(group, pkg, names.name(i).as_str());
            proof {
                lemma_prefix_grows(all, i as int);
                let next = all.take(i + 1);
                let goal = before.with(group, pinned(pkg, next.to_set()));
                assert(self@.normal_development =~= goal.normal_development);
                assert(self@.build =~= goal.build);
            }
            i += 1;
        }
        proof {
            assert(all.take(i as int) =~= all);
        }
    }

    /// Collects the evidence that one unit gives for the dependencies of one table.
    fn collect_names(
        &mut self,
        group: KindGroup,
        table: &NameTable,
        unit: &CmdInfo,
        artifact: &Vec<String>,
    )
        requires
            old(self).wf(),
            table.wf(),
        ensures
            final(self).wf(),
            final(self)@ == old(self)@.with(
                group,
                pinned(unit.pkg, marks(table@, unit@.externs, texts(artifact@))),
            ),
    {
        let ghost before = self@;
        let ghost libs = texts(artifact@);
        let ghost externs = unit@.externs;
        let pkg = unit.pkg;
        let mut i: usize = 0;
        assert(before =~= before.with(group, pinned(pkg, library_marks(table@, libs.take(0)))));
        while i < artifact.len()
            invariant
                self.wf(),
                table.wf(),
                libs == texts(artifact@),
                i <= artifact.len(),
                self@ == before.with(
                    group,
                    pinned(pkg, library_marks(table@, libs.take(i as int))),
                ),
            decreases artifact.len() - i,
        {
            match table.names_for_library(artifact[i].as_str()) {
                Some(names) => {
                    self.mark_all(group, pkg, names);
                },
                None => {},
            }
            proof {
                lemma_library_marks_step(table@, libs, i as int);
                let goal = before.with(
                    group,
                    pinned(pkg, library_marks(table@, libs.take(i + 1))),
                );
                assert(self@.normal_development =~= goal.normal_development);
                assert(self@.build =~= goal.build);
            }
            i += 1;
        }
        proof {
            assert(libs.take(i as int) =~= libs);
        }
        let ghost middle = self@;
        let mut j: usize = 0;
        assert(middle =~= middle.with(group, pinned(pkg, alias_marks(table@, externs.take(0)))));
        while j < unit.externs.len()
            invariant
                self.wf(),
                table.wf(),
                externs == unit@.externs,
                j <= unit.externs.len(),
                self@ == middle.with(
                    group,
                    pinned(pkg, alias_marks(table@, externs.take(j as int))),
                ),
            decreases unit.externs.len() - j,
        {
            match table.name_for_alias(unit.externs[j].0.as_str()) {
                Some(name) => {
                    self.mark(group, pkg, name.as_str());
                },
                None => {},
            }
            proof {
                lemma_alias_marks_step(table@, externs, j as int);
                let goal = middle.with(
                    group,
                    pinned(pkg, alias_marks(table@, externs.take(j + 1))),
                );
                assert(self@.normal_development =~= goal.normal_development);
                assert(self@.build =~= goal.build);
            }
            j += 1;
        }
        proof {
            assert(externs.take(j as int) =~= externs);
            let goal = before.with(group, pinned(pkg, marks(table@, externs, libs)));
            assert(self@.normal_development =~= goal.normal_development);
            assert(self@.build =~= goal.build);
        }
    }

    /// Matches one unit and its usage analysis against the tables of the package that
    /// the unit belongs to. A unit of a package that is no member changes nothing.
    pub fn match_invocation(
        &mut self,
        members: &PackageMap<Member>,
        unit: &CmdInfo,
        artifact: &Vec<String>,
    )
        requires
            old(self).wf(),
            members_wf(members),
        ensures
            final(self).wf(),
            final(self)@ == old(self)@.observe(members_view(members), unit@, texts(artifact@)),
    {
        let ghost before = self@;
        let ghost goal = before.observe(members_view(members), unit@, texts(artifact@));
        match members.get(unit.pkg) {
            Some(member) => {
                self.collect_names(
                    KindGroup::NormalDevelopment,
                    member.names.table(DependencyKind::Normal),
                    unit,
                    artifact,
                );
                self.collect_names(
                    KindGroup::NormalDevelopment,
                    member.names.table(DependencyKind::Development),
                    unit,
                    artifact,
                );
                self.collect_names(
                    KindGroup::Build,
                    member.names.table(DependencyKind::Build),
                    unit,
                    artifact,
                );
                proof {
                    assert(self@.normal_development =~= goal.normal_development);
                    assert(self@.build =~= goal.build);
                }
            },
            None => {
                proof {
                    assert(self@.normal_development =~= goal.normal_development);
                    assert(self@.build =~= goal.build);
                }
            },
        }
    }
}

/// One recorded unit together with its usage analysis.
pub struct Observation {
    /// The unit.
    pub unit: CmdInfo,
    /// The library names that the usage analysis of the unit lists as referenced, or
    /// nothing where the analysis could not be had.
    pub analysis: Option<Vec<String>>,
}

/// What an `Observation` stands for.
pub struct ObservationView {
    pub unit: CmdInfoView,
    pub analysis: Option<Seq<Seq<char>>>,
}

impl View for Observation {
    type V = ObservationView;

    open spec fn view(&self) -> ObservationView {
        ObservationView {
            unit: self.unit@,
            analysis: match self.analysis {
                Some(analysis) => Some(texts(analysis@)),
                None => None,
            },
        }
    }
}

/// What a list of observations stands for.
pub open spec fn observations_view(observations: Seq<Observation>) -> Seq<ObservationView> {
    Seq::new(observations.len(), |i: int| observations[i]@)
}

/// Whether every observation has its usage analysis.
pub open spec fn all_loaded(observations: Seq<ObservationView>) -> bool {
    forall|i: int| 0 <= i < observations.len() ==> (#[trigger] observations[i]).analysis is Some
}

/// The used dependencies after the observations were matched one after the other,
/// starting from `start`. An observation without its usage analysis adds nothing.
pub open spec fn used_after(
    members: Map<PackageId, MemberView>,
    start: UsedView,
    observations: Seq<ObservationView>,
) -> UsedView
    decreases observations.len(),
{
    if observations.len() == 0 {
        start
    } else {
        let before = used_after(members, start, observations.drop_last());
        match observations.last().analysis {
            Some(artifact) => before.observe(members, observations.last().unit, artifact),
            None => before,
        }
    }
}

/// The usage analysis of a unit could not be had. What the unit uses is then unknown,
/// and nothing can be said to be unused.
#[derive(Clone, Copy, Debug, PartialEq, Eq, Structural)]
pub struct MissingArtifact {
    /// The position of the unit among the observations.
    pub position: usize,
}

impl UsedDependencies {
    /// Matches the observations one after the other, up to the first that lacks its
    /// usage analysis, which is an error.
    pub fn match_all(
        &mut self,
        members: &PackageMap<Member>,
        observations: &Vec<Observation>,
    ) -> (r: Result<(), MissingArtifact>)
        requires
            old(self).wf(),
            members_wf(members),
        ensures
            final(self).wf(),
            match r {
                Ok(_) => all_loaded(observations_view(observations@)) && final(self)@
                    == used_after(
                    members_view(members),
                    old(self)@,
                    observations_view(observations@),
                ),
                Err(e) => {
                    &&& e.position < observations.len()
                    &&& observations[e.position as int].analysis is None
                    &&& all_loaded(observations_view(observations@).take(e.position as int))
                    &&& final(self)@ == used_after(
                        members_view(members),
                        old(self)@,
                        observations_view(observations@).take(e.position as int),
                    )
                },
            },
    {
        let ghost start = self@;
        let ghost all = observations_view(observations@);
        let ghost ms = members_view(members);
        let mut i: usize = 0;
        while i < observations.len()
            invariant
                self.wf(),
                members_wf(members),
                start == old(self)@,
                all == observations_view(observations@),
                ms == members_view(members),
                i <= observations.len(),
                all_loaded(all.take(i as int)),
                self@ == used_after(ms, start, all.take(i as int)),
            decreases observations.len() - i,
        {
            match &observations[i].analysis {
                Some(artifact) => {
                    self.match_invocation(members, &observations[i].unit, artifact);
                },
                None => {
                    return Err(MissingArtifact { position: i });
                },
            }
            proof {
                assert(all.take(i + 1).drop_last() =~= all.take(i as int));
                assert(all.take(i + 1).last() == all[i as int]);
                assert forall|j: int| 0 <= j < i + 1 implies (#[trigger] all.take(
                    i + 1,
                )[j]).analysis is Some by {
                    if j < i {
                        assert(all.take(i as int)[j].analysis is Some);
                    }
                }
            }
            i += 1;
        }
        assert(all.take(i as int) =~= all);
        Ok(())
    }
}

/// The names that a usage analysis leads to, one library name at a time.
pub proof fn lemma_library_marks_step(table: NameTableView, artifact: Seq<Seq<char>>, i: int)
    requires
        0 <= i < artifact.len(),
    ensures
        library_marks(table, artifact.take(i + 1)) == library_marks(
            table,
            artifact.take(i),
        ).union(table.names_under(artifact[i])),
{
    let done = artifact.take(i);
    let next = artifact.take(i + 1);
    let goal = library_marks(table, done).union(table.names_under(artifact[i]));
    assert forall|n: Seq<char>| library_marks(table, next).contains(n) <==> goal.contains(n) by {
        if library_marks(table, next).contains(n) {
            let k = choose|k: int|
                0 <= k < next.len() && #[trigger] table.names_under(next[k]).contains(n);
            if k < i {
                assert(table.names_under(done[k]).contains(n));
            }
        }
        if library_marks(table, done).contains(n) {
            let k = choose|k: int|
                0 <= k < done.len() && #[trigger] table.names_under(done[k]).contains(n);
            assert(table.names_under(next[k]).contains(n));
        }
        if table.names_under(artifact[i]).contains(n) {
            assert(table.names_under(next[i]).contains(n));
        }
    }
    assert(library_marks(table, next) =~= goal);
}

/// The names that the aliases of an invocation lead to, one extern at a time.
pub proof fn lemma_alias_marks_step(
    table: NameTableView,
    externs: Seq<(Seq<char>, Seq<char>)>,
    j: int,
)
    requires
        0 <= j < externs.len(),
    ensures
        alias_marks(table, externs.take(j + 1)) == alias_marks(table, externs.take(j)).union(
            if table.by_alias.contains_key(externs[j].0) {
                set![table.by_alias[externs[j].0]]
            } else {
                Set::empty()
            },
        ),
{
    let done = externs.take(j);
    let next = externs.take(j + 1);
    let last = if table.by_alias.contains_key(externs[j].0) {
        set![table.by_alias[externs[j].0]]
    } else {
        Set::empty()
    };
    let goal = alias_marks(table, done).union(last);
    assert forall|n: Seq<char>| alias_marks(table, next).contains(n) <==> goal.contains(n) by {
        if alias_marks(table, next).contains(n) {
            let k = choose|k: int| #[trigger] extern_marks(table, next, k, n);
            if k < j {
                assert(extern_marks(table, done, k, n));
            }
        }
        if alias_marks(table, done).contains(n) {
            let k = choose|k: int| #[trigger] extern_marks(table, done, k, n);
            assert(extern_marks(table, next, k, n));
        }
        if last.contains(n) {
            assert(extern_marks(table, next, j, n));
        }
    }
    assert(alias_marks(table, next) =~= goal);
}

} // verus!
