//! The verdict of a run: for each member of the project the declared dependencies that
//! nothing was seen to use, and how the verdict is shown to a reader.

use vstd::prelude::*;
use vstd::string::*;
use crate::model::{group_of, DependencyKind, PackageId};
use crate::name_set::NameSet;
use crate::names::NameTable;
use crate::package_map::{ascending_ids, PackageMap};
use crate::project::{members_view, members_wf, IgnoreList, Member, MemberView};
use crate::text::lemma_prefix_grows;
use crate::usage::{UsedDependencies, UsedView};

verus! {

/// The declared dependencies of kind `kind` of the member `id` that nothing was seen to
/// use: what its table knows as declared, less what is in the set of used dependencies
/// that the kind belongs to.
pub open spec fn unused(
    member: MemberView,
    used: UsedView,
    id: PackageId,
    kind: DependencyKind,
) -> Set<Seq<char>> {
    Set::new(
        |n: Seq<char>|
            member.names.table(kind).declared().contains(n) && !used.of_group(
                group_of(kind),
            ).contains((id, n)),
    )
}

/// Whether some declared dependency of the member, of whatever kind, was not seen to
/// be used.
pub open spec fn has_unused(member: MemberView, used: UsedView, id: PackageId) -> bool {
    exists|kind: DependencyKind, n: Seq<char>| #[trigger]
        unused(member, used, id, kind).contains(n)
}

/// The unused dependencies of one kind that are reported: those that the member does
/// not ignore.
pub open spec fn reported(
    member: MemberView,
    used: UsedView,
    id: PackageId,
    kind: DependencyKind,
) -> Set<Seq<char>> {
    unused(member, used, id, kind).difference(member.ignore.of_kind(kind))
}

/// What an `OutcomeUnusedDeps` stands for.
#[verifier::ext_equal]
pub struct UnusedDepsView {
    pub package: Seq<char>,
    pub manifest_path: Seq<char>,
    pub normal: Set<Seq<char>>,
    pub development: Set<Seq<char>>,
    pub build: Set<Seq<char>>,
}

impl UnusedDepsView {
    /// The names reported under one kind.
    pub open spec fn of_kind(self, kind: DependencyKind) -> Set<Seq<char>> {
        match kind {
            DependencyKind::Normal => self.normal,
            DependencyKind::Development => self.development,
            DependencyKind::Build => self.build,
        }
    }

    /// Whether nothing is reported under any kind.
    pub open spec fn is_clean(self) -> bool {
        &&& self.normal == Set::<Seq<char>>::empty()
        &&& self.development == Set::<Seq<char>>::empty()
        &&& self.build == Set::<Seq<char>>::empty()
    }
}

/// What is reported of one member.
pub open spec fn report_of(member: MemberView, used: UsedView, id: PackageId) -> UnusedDepsView {
    UnusedDepsView {
        package: member.label,
        manifest_path: member.manifest_path,
        normal: reported(member, used, id, DependencyKind::Normal),
        development: reported(member, used, id, DependencyKind::Development),
        build: reported(member, used, id, DependencyKind::Build),
    }
}

/// The reports of a run: one for every member with a declared dependency that was not
/// seen to be used, whether or not the member ignores it.
pub open spec fn reports_of(members: Map<PackageId, MemberView>, used: UsedView) -> Map<
    PackageId,
    UnusedDepsView,
> {
    Map::new(
        |id: PackageId| members.contains_key(id) && has_unused(members[id], used, id),
        |id: PackageId| report_of(members[id], used, id),
    )
}

/// Whether no report names a dependency.
pub open spec fn all_clean(reports: Map<PackageId, UnusedDepsView>) -> bool {
    forall|id: PackageId| #[trigger] reports.contains_key(id) ==> reports[id].is_clean()
}

/// The notes that go with every verdict that reports a dependency: the ways in which
/// a dependency can be in use and still be reported.
pub open spec fn advisory_note() -> Seq<char> {
    "Note: These dependencies might be used by other targets.\n      To find dependencies that are not used by any target, enable `--all-targets`.\nNote: Some dependencies are non-library packages.\n      `cargo-udeps` regards them as unused.\nNote: They might be false-positive.\n      For example, `cargo-udeps` cannot detect usage of crates that are only used in doc-tests.\n      To ignore some of dependencies, write `package.metadata.cargo-udeps.ignore` in Cargo.toml.\n"@
}

/// What an `Outcome` stands for.
#[verifier::ext_equal]
pub struct OutcomeView {
    pub success: bool,
    pub unused_deps: Map<PackageId, UnusedDepsView>,
    pub note: Option<Seq<char>>,
}

/// The verdict over the members `members`, given the dependencies that were seen to be
/// used. It is a success where no report names a dependency, and carries the notes
/// where it is none.
pub open spec fn outcome_of(members: Map<PackageId, MemberView>, used: UsedView) -> OutcomeView {
    let reports = reports_of(members, used);
    OutcomeView {
        success: all_clean(reports),
        unused_deps: reports,
        note: if all_clean(reports) {
            None
        } else {
            Some(advisory_note())
        },
    }
}

/// The unused dependencies of one member that are reported, by kind.
pub struct OutcomeUnusedDeps {
    package: String,
    manifest_path: String,
    normal: NameSet,
    development: NameSet,
    build: NameSet,
}

impl View for OutcomeUnusedDeps {
    type V = UnusedDepsView;

    closed spec fn view(&self) -> UnusedDepsView {
        UnusedDepsView {
            package: self.package@,
            manifest_path: self.manifest_path@,
            normal: self.normal@,
            development: self.development@,
            build: self.build@,
        }
    }
}

impl OutcomeUnusedDeps {
    /// Each of the three sets is well formed.
    pub closed spec fn wf(&self) -> bool {
        &&& self.normal.wf()
        &&& self.development.wf()
        &&& self.build.wf()
    }

    /// The names reported under one kind, in ascending order.
    pub closed spec fn names(&self, kind: DependencyKind) -> Seq<Seq<char>> {
        match kind {
            DependencyKind::Normal => self.normal.names(),
            DependencyKind::Development => self.development.names(),
            DependencyKind::Build => self.build.names(),
        }
    }

    /// The order in which the names of a kind are listed is determined by the names.
    pub proof fn lemma_names_determined(&self, other: &OutcomeUnusedDeps, kind: DependencyKind)
        requires
            self.wf(),
            other.wf(),
            self@.of_kind(kind) == other@.of_kind(kind),
        ensures
            self.names(kind) == other.names(kind),
    {
        match kind {
            DependencyKind::Normal => self.normal.lemma_names_unique(&other.normal),
            DependencyKind::Development => self.development.lemma_names_unique(
                &other.development,
            ),
            DependencyKind::Build => self.build.lemma_names_unique(&other.build),
        }
    }

    /// A report that names no dependency.
    pub fn new(package: &str, manifest_path: &str) -> (r: Self)
        ensures
            r.wf(),
            r@ == (UnusedDepsView {
                package: package@,
                manifest_path: manifest_path@,
                normal: Set::empty(),
                development: Set::empty(),
                build: Set::empty(),
            }),
    {
        OutcomeUnusedDeps {
            package: package.to_owned(),
            manifest_path: manifest_path.to_owned(),
            normal: NameSet::new(),
            development: NameSet::new(),
            build: NameSet::new(),
        }
    }

    /// Reports one more name under `kind`.
    pub fn insert(&mut self, kind: DependencyKind, name: String)
        requires
            old(self).wf(),
        ensures
            final(self).wf(),
            final(self)@.package == old(self)@.package,
            final(self)@.manifest_path == old(self)@.manifest_path,
            forall|k: DependencyKind|
                final(self)@.of_kind(k) == if k == kind {
                    old(self)@.of_kind(k).insert(name@)
                } else {
                    old(self)@.of_kind(k)
                },
    {
        match kind {
            DependencyKind::Normal => self.normal.insert(name),
            DependencyKind::Development => self.development.insert(name),
            DependencyKind::Build => self.build.insert(name),
        }
    }

    /// How the package is named in the report.
    pub fn package(&self) -> (r: &String)
        ensures
            r@ == self@.package,
    {
        &self.package
    }

    /// Where the manifest of the package lies.
    pub fn manifest_path(&self) -> (r: &String)
        ensures
            r@ == self@.manifest_path,
    {
        &self.manifest_path
    }

    /// The names reported under one kind.
    pub fn unused_deps(&self, kind: DependencyKind) -> (r: &NameSet)
        requires
            self.wf(),
        ensures
            r.wf(),
            r@ == self@.of_kind(kind),
            r.names() == self.names(kind),
    {
        match kind {
            DependencyKind::Normal => &self.normal,
            DependencyKind::Development => &self.development,
            DependencyKind::Build => &self.build,
        }
    }

    /// Whether nothing is reported under any kind.
    pub fn is_clean(&self) -> (r: bool)
        ensures
            r == self@.is_clean(),
    {
        self.normal.is_empty() && self.development.is_empty() && self.build.is_empty()
    }
}

/// The unused dependencies of one kind that the member ignores: they are kept out of
/// the report.
pub open spec fn suppressed(
    member: MemberView,
    used: UsedView,
    id: PackageId,
    kind: DependencyKind,
) -> Set<Seq<char>> {
    unused(member, used, id, kind).intersect(member.ignore.of_kind(kind))
}

/// The declared dependencies of one kind of one member that nothing was seen to use.
pub struct Findings {
    /// Those that are reported.
    pub reported: NameSet,
    /// Those that the member ignores.
    pub ignored: NameSet,
}

impl Findings {
    /// Whether there is no unused dependency, reported or ignored.
    pub fn is_empty(&self) -> (r: bool)
        ensures
            r == (self.reported@ == Set::<Seq<char>>::empty() && self.ignored@ == Set::<
                Seq<char>,
            >::empty()),
    {
        self.reported.is_empty() && self.ignored.is_empty()
    }
}

/// What was found after the names of `seen` were gone through: those of them that are
/// not used, parted into the ignored ones and the others.
pub open spec fn gathered(
    reported: Set<Seq<char>>,
    suppressed: Set<Seq<char>>,
    seen: Set<Seq<char>>,
    used: Set<(PackageId, Seq<char>)>,
    ignored: Set<Seq<char>>,
    id: PackageId,
) -> bool {
    &&& forall|n: Seq<char>|
        reported.contains(n) <==> seen.contains(n) && !used.contains((id, n)) && !ignored.contains(
            n,
        )
    &&& forall|n: Seq<char>|
        suppressed.contains(n) <==> seen.contains(n) && !used.contains((id, n))
            && ignored.contains(n)
}

/// Goes through one more declared name.
fn consider(
    found: &mut Findings,
    used: &UsedDependencies,
    ignore: &IgnoreList,
    id: PackageId,
    kind: DependencyKind,
    name: &String,
    Ghost(seen): Ghost<Set<Seq<char>>>,
)
    requires
        used.wf(),
        ignore.wf(),
        old(found).reported.wf(),
        old(found).ignored.wf(),
        gathered(
            old(found).reported@,
            old(found).ignored@,
            seen,
            used@.of_group(group_of(kind)),
            ignore@.of_kind(kind),
            id,
        ),
    ensures
        final(found).reported.wf(),
        final(found).ignored.wf(),
        gathered(
            final(found).reported@,
            final(found).ignored@,
            seen.insert(name@),
            used@.of_group(group_of(kind)),
            ignore@.of_kind(kind),
            id,
        ),
{
    if !used.contains(kind.group(), id, name.as_str()) {
        if ignore.contains(kind, name.as_str()) {
            found.ignored.insert(name.clone());
        } else {
            found.reported.insert(name.clone());
        }
    }
}

/// Goes through each of `names`.
fn consider_all(
    found: &mut Findings,
    used: &UsedDependencies,
    ignore: &IgnoreList,
    id: PackageId,
    kind: DependencyKind,
    names: &NameSet,
    Ghost(seen): Ghost<Set<Seq<char>>>,
)
    requires
        used.wf(),
        ignore.wf(),
        names.wf(),
        old(found).reported.wf(),
        old(found).ignored.wf(),
        gathered(
            old(found).reported@,
            old(found).ignored@,
            seen,
            used@.of_group(group_of(kind)),
            ignore@.of_kind(kind),
            id,
        ),
    ensures
        final(found).reported.wf(),
        final(found).ignored.wf(),
        gathered(
            final(found).reported@,
            final(found).ignored@,
            seen.union(names@),
            used@.of_group(group_of(kind)),
            ignore@.of_kind(kind),
            id,
        ),
{
    let ghost all = names.names();
    let ghost mut now = seen;
    let mut i: usize = 0;
    while i < names.len()
        invariant
            used.wf(),
            ignore.wf(),
            all == names.names(),
            i <= all.len(),
            now =~= seen.union(all.take(i as int).to_set()),
            found.reported.wf(),
            found.ignored.wf(),
            gathered(
                found.reported@,
                found.ignored@,
                now,
                used@.of_group(group_of(kind)),
                ignore@.of_kind(kind),
                id,
            ),
        decreases all.len() - i,
    {
        consider(found, used, ignore, id, kind, names.name(i), Ghost(now));
        proof {
            lemma_prefix_grows(all, i as int);
            now = now.insert(all[i as int]);
        }
        i += 1;
    }
    proof {
        assert(all.take(i as int) =~= all);
        assert(now =~= seen.union(names@));
    }
}

/// Finds the unused dependencies of one kind of one member, and parts them into those
/// that are reported and those that the member ignores.
pub fn unused_of_kind(
    member: &Member,
    id: PackageId,
    used: &UsedDependencies,
    kind: DependencyKind,
) -> (r: Findings)
    requires
        member.wf(),
        used.wf(),
    ensures
        r.reported.wf(),
        r.ignored.wf(),
        r.reported@ == reported(member@, used@, id, kind),
        r.ignored@ == suppressed(member@, used@, id, kind),
{
    let table: &NameTable = member.names.table(kind);
    let ignore = &member.ignore;
    let ghost t = table@;
    let mut found = Findings { reported: NameSet::new(), ignored: NameSet::new() };
    let ghost mut seen: Set<Seq<char>> = Set::empty();
    let ghost aliases = table.aliases();
    let mut i: usize = 0;
    while i < table.alias_count()
        invariant
            used.wf(),
            ignore.wf(),
            table.wf(),
            t == table@,
            aliases == table.aliases(),
            i <= aliases.len(),
            found.reported.wf(),
            found.ignored.wf(),
            gathered(
                found.reported@,
                found.ignored@,
                seen,
                used@.of_group(group_of(kind)),
                ignore@.of_kind(kind),
                id,
            ),
            forall|n: Seq<char>| seen.contains(n) ==> t.declared().contains(n),
            forall|j: int|
                0 <= j < i ==> t.by_alias.contains_key(#[trigger] aliases[j]) && seen.contains(
                    t.by_alias[aliases[j]],
                ),
        decreases aliases.len() - i,
    {
        let name = table.alias_dependency(i);
        consider(&mut found, used, ignore, id, kind, name, Ghost(seen));
        proof {
            assert(t.by_alias.contains_key(aliases[i as int]) && t.by_alias[aliases[i as int]]
                == name@);
            assert(t.has_alias(name@));
            seen = seen.insert(name@);
        }
        i += 1;
    }
    let ghost libs = table.library_names();
    let mut k: usize = 0;
    while k < table.library_count()
        invariant
            used.wf(),
            ignore.wf(),
            table.wf(),
            t == table@,
            aliases == table.aliases(),
            libs == table.library_names(),
            k <= libs.len(),
            found.reported.wf(),
            found.ignored.wf(),
            gathered(
                found.reported@,
                found.ignored@,
                seen,
                used@.of_group(group_of(kind)),
                ignore@.of_kind(kind),
                id,
            ),
            forall|n: Seq<char>| seen.contains(n) ==> t.declared().contains(n),
            forall|j: int|
                0 <= j < aliases.len() ==> t.by_alias.contains_key(#[trigger] aliases[j])
                    && seen.contains(t.by_alias[aliases[j]]),
            forall|j: int, n: Seq<char>|
                0 <= j < k && #[trigger] t.names_under(libs[j]).contains(n) ==> seen.contains(n),
        decreases libs.len() - k,
    {
        let names = table.library_dependencies(k);
        consider_all(&mut found, used, ignore, id, kind, names, Ghost(seen));
        proof {
            assert(t.by_library_name.contains_key(libs[k as int])) by {
                table.lemma_library_names();
                assert(libs.contains(libs[k as int]));
            }
            assert forall|n: Seq<char>| names@.contains(n) implies t.declared().contains(n) by {
                assert(t.names_under(libs[k as int]).contains(n));
                assert(t.has_library(n));
            }
            seen = seen.union(names@);
        }
        k += 1;
    }
    consider_all(&mut found, used, ignore, id, kind, table.non_library(), Ghost(seen));
    proof {
        seen = seen.union(t.non_library);
        table.lemma_aliases();
        table.lemma_library_names();
        assert forall|n: Seq<char>| t.declared().contains(n) implies seen.contains(n) by {
            if t.has_alias(n) {
                let alias = choose|alias: Seq<char>|
                    t.by_alias.contains_key(alias) && #[trigger] t.by_alias[alias] == n;
                assert(aliases.contains(alias));
                let j = aliases.index_of(alias);
                assert(seen.contains(t.by_alias[aliases[j]]));
            } else if t.has_library(n) {
                let lib = choose|lib: Seq<char>| #[trigger] t.names_under(lib).contains(n);
                assert(t.by_library_name.contains_key(lib));
                assert(libs.contains(lib));
                let j = libs.index_of(lib);
                assert(t.names_under(libs[j]).contains(n));
            }
        }
        assert forall|n: Seq<char>| seen.contains(n) implies t.declared().contains(n) by {}
        assert(found.reported@ =~= reported(member@, used@, id, kind));
        assert(found.ignored@ =~= suppressed(member@, used@, id, kind));
    }
    found
}

/// How a kind of dependency is named in messages.
pub open spec fn kind_text(kind: DependencyKind) -> Seq<char> {
    match kind {
        DependencyKind::Normal => "Normal"@,
        DependencyKind::Development => "Development"@,
        DependencyKind::Build => "Build"@,
    }
}

/// The message that an unused dependency is kept out of the report.
pub open spec fn ignoring_text(name: Seq<char>, kind: DependencyKind) -> Seq<char> {
    "Ignoring `"@ + name + "` ("@ + kind_text(kind) + ")"@
}

/// Words the message that the unused dependency `name` of kind `kind` is kept out of
/// the report.
pub fn ignoring_message(name: &str, kind: DependencyKind) -> (r: String)
    ensures
        r@ == ignoring_text(name@, kind),
{
    let mut message = String::from_str("Ignoring `");
    message.append(name);
    message.append("` (");
    match kind {
        DependencyKind::Normal => message.append("Normal"),
        DependencyKind::Development => message.append("Development"),
        DependencyKind::Build => message.append("Build"),
    }
    message.append(")");
    message
}

/// Where something is found of a kind, reported or ignored, there is an unused
/// dependency of that kind.
proof fn lemma_found_is_unused(
    member: MemberView,
    used: UsedView,
    id: PackageId,
    kind: DependencyKind,
)
    ensures
        reported(member, used, id, kind) != Set::<Seq<char>>::empty() || suppressed(
            member,
            used,
            id,
            kind,
        ) != Set::<Seq<char>>::empty() ==> exists|n: Seq<char>| #[trigger]
            unused(member, used, id, kind).contains(n),
{
    let r = reported(member, used, id, kind);
    let s = suppressed(member, used, id, kind);
    if r != Set::<Seq<char>>::empty() {
        assert(!(r =~= Set::<Seq<char>>::empty()));
        let n = choose|n: Seq<char>| r.contains(n);
        assert(unused(member, used, id, kind).contains(n));
    } else if s != Set::<Seq<char>>::empty() {
        assert(!(s =~= Set::<Seq<char>>::empty()));
        let n = choose|n: Seq<char>| s.contains(n);
        assert(unused(member, used, id, kind).contains(n));
    }
}

/// The verdict of a run.
pub struct Outcome {
    success: bool,
    unused_deps: PackageMap<OutcomeUnusedDeps>,
    note: Option<String>,
}

impl View for Outcome {
    type V = OutcomeView;

    closed spec fn view(&self) -> OutcomeView {
        OutcomeView {
            success: self.success,
            unused_deps: Map::new(
                |id: PackageId| self.unused_deps.map().contains_key(id),
                |id: PackageId| self.unused_deps.map()[id]@,
            ),
            note: match self.note {
                Some(note) => Some(note@),
                None => None,
            },
        }
    }
}

impl Outcome {
    /// The reports are held in ascending order of their packages, and each is well
    /// formed.
    pub closed spec fn wf(&self) -> bool {
        &&& self.unused_deps.wf()
        &&& forall|id: PackageId| #[trigger]
            self.unused_deps.map().contains_key(id) ==> self.unused_deps.map()[id].wf()
    }

    /// The packages that have a report, in ascending order.
    pub closed spec fn packages(&self) -> Seq<PackageId> {
        self.unused_deps.ids()
    }

    /// The reports, each at the position of its package.
    pub closed spec fn reports(&self) -> Seq<OutcomeUnusedDeps> {
        self.unused_deps.values()
    }

    /// The packages stand in ascending order, and they are the packages with a report.
    pub proof fn lemma_packages(&self)
        requires
            self.wf(),
        ensures
            ascending_ids(self.packages()),
            forall|id: PackageId|
                self.packages().contains(id) <==> self@.unused_deps.contains_key(id),
    {
    }

    /// Every package with a report has one position, and every position one report.
    pub proof fn lemma_lengths(&self)
        requires
            self.wf(),
        ensures
            self.packages().len() == self.reports().len(),
    {
    }

    /// The report at each position is the report of the package at that position.
    pub proof fn lemma_report(&self, i: int)
        requires
            self.wf(),
            0 <= i < self.packages().len(),
        ensures
            self.packages().len() == self.reports().len(),
            self@.unused_deps.contains_key(self.packages()[i]),
            self@.unused_deps[self.packages()[i]] == self.reports()[i]@,
            self.reports()[i].wf(),
    {
        self.unused_deps.lemma_entry(i);
    }

    /// Draws up the verdict over the members of a project, given the dependencies that
    /// were seen to be used.
    pub fn new(members: &PackageMap<Member>, used: &UsedDependencies) -> (r: Self)
        requires
            members_wf(members),
            used.wf(),
        ensures
            r.wf(),
            r@ == outcome_of(members_view(members), used@),
    {
        let ghost ms = members_view(members);
        let ghost goal = reports_of(ms, used@);
        let ghost ids = members.ids();
        let mut unused_deps: PackageMap<OutcomeUnusedDeps> = PackageMap::new();
        let mut success = true;
        let mut i: usize = 0;
        while i < members.len()
            invariant
                members_wf(members),
                used.wf(),
                ms == members_view(members),
                goal == reports_of(ms, used@),
                ids == members.ids(),
                i <= ids.len(),
                unused_deps.wf(),
                forall|id: PackageId| #[trigger]
                    unused_deps.map().contains_key(id) ==> unused_deps.map()[id].wf(),
                forall|id: PackageId| #[trigger]
                    unused_deps.map().contains_key(id) <==> ids.take(i as int).contains(id)
                        && goal.contains_key(id),
                forall|id: PackageId| #[trigger]
                    unused_deps.map().contains_key(id) ==> unused_deps.map()[id]@ == goal[id],
                success <==> forall|id: PackageId| #[trigger]
                    unused_deps.map().contains_key(id) ==> goal[id].is_clean(),
            decreases ids.len() - i,
        {
            let ghost prev = unused_deps.map();
            let ghost was = success;
            let id = members.id(i);
            let member = members.value(i);
            proof {
                members.lemma_entry(i as int);
                assert(members.map().contains_key(id));
                assert(ms[id] == member@);
            }
            let normal = unused_of_kind(member, id, used, DependencyKind::Normal);
            let development = unused_of_kind(member, id, used, DependencyKind::Development);
            let build = unused_of_kind(member, id, used, DependencyKind::Build);
            let none = normal.is_empty() && development.is_empty() && build.is_empty();
            proof {
                let m = ms[id];
                if has_unused(m, used@, id) {
                    let (kind, n) = choose|kind: DependencyKind, n: Seq<char>| #[trigger]
                        unused(m, used@, id, kind).contains(n);
                    assert(reported(m, used@, id, kind).contains(n) || suppressed(
                        m,
                        used@,
                        id,
                        kind,
                    ).contains(n));
                    assert(!none);
                }
                if !none {
                    lemma_found_is_unused(m, used@, id, DependencyKind::Normal);
                    lemma_found_is_unused(m, used@, id, DependencyKind::Development);
                    lemma_found_is_unused(m, used@, id, DependencyKind::Build);
                    assert(has_unused(m, used@, id));
                }
            }
            if !none {
                let report = OutcomeUnusedDeps {
                    package: member.label.clone(),
                    manifest_path: member.manifest_path.clone(),
                    normal: normal.reported,
                    development: development.reported,
                    build: build.reported,
                };
                assert(report@ =~= goal[id]);
                if !report.is_clean() {
                    success = false;
                }
                unused_deps.insert(id, report);
            }
            proof {
                if success {
                    assert forall|k: PackageId| #[trigger]
                        unused_deps.map().contains_key(k) implies goal[k].is_clean() by {
                        if k != id {
                            assert(prev.contains_key(k));
                        }
                    }
                } else if was {
                    assert(unused_deps.map().contains_key(id) && !goal[id].is_clean());
                } else {
                    let bad = choose|k: PackageId| #[trigger]
                        prev.contains_key(k) && !goal[k].is_clean();
                    assert(unused_deps.map().contains_key(bad) && !goal[bad].is_clean());
                }
            }
            proof {
                let done = ids.take(i as int);
                let next = ids.take(i + 1);
                assert forall|k: PackageId| #[trigger]
                    unused_deps.map().contains_key(k) <==> next.contains(k) && goal.contains_key(
                        k,
                    ) by {
                    assert(prev.contains_key(k) <==> done.contains(k) && goal.contains_key(k));
                    if next.contains(k) {
                        let j = next.index_of(k);
                        if j < i {
                            assert(done[j] == k);
                        }
                    }
                    if done.contains(k) {
                        let j = done.index_of(k);
                        assert(next[j] == k);
                    }
                    if k == id {
                        assert(next[i as int] == k);
                    }
                }
                assert forall|k: PackageId| #[trigger]
                    unused_deps.map().contains_key(k) implies unused_deps.map()[k]@ == goal[k]
                    && unused_deps.map()[k].wf() by {
                    if k != id {
                        assert(prev.contains_key(k));
                    }
                }
            }
            i += 1;
        }
        let note = if success {
            None
        } else {
            Some(
                String::from_str(
                    "Note: These dependencies might be used by other targets.\n      To find dependencies that are not used by any target, enable `--all-targets`.\nNote: Some dependencies are non-library packages.\n      `cargo-udeps` regards them as unused.\nNote: They might be false-positive.\n      For example, `cargo-udeps` cannot detect usage of crates that are only used in doc-tests.\n      To ignore some of dependencies, write `package.metadata.cargo-udeps.ignore` in Cargo.toml.\n",
                ),
            )
        };
        let r = Outcome { success, unused_deps, note };
        proof {
            assert(ids.take(i as int) =~= ids);
            assert forall|id: PackageId| #[trigger] goal.contains_key(id) implies ids.contains(
                id,
            ) by {
                assert(members.map().contains_key(id));
            }
            assert(r@.unused_deps =~= goal);
            assert(success == all_clean(goal));
            assert(r@ =~= outcome_of(ms, used@));
        }
        r
    }

    /// Whether no dependency is reported.
    pub fn success(&self) -> (r: bool)
        ensures
            r == self@.success,
    {
        self.success
    }

    /// The notes that go with the verdict, if any.
    pub fn note(&self) -> (r: &Option<String>)
        ensures
            match *r {
                Some(note) => self@.note == Some(note@),
                None => self@.note is None,
            },
    {
        &self.note
    }

    /// The number of reports.
    pub fn len(&self) -> (n: usize)
        ensures
            n == self.packages().len(),
    {
        self.unused_deps.len()
    }

    /// The package at position `i` of the ascending order.
    pub fn package(&self, i: usize) -> (id: PackageId)
        requires
            i < self.packages().len(),
        ensures
            id == self.packages()[i as int],
    {
        self.unused_deps.id(i)
    }

    /// The report at position `i`.
    pub fn report(&self, i: usize) -> (r: &OutcomeUnusedDeps)
        requires
            self.wf(),
            i < self.packages().len(),
        ensures
            r.wf(),
            *r == self.reports()[i as int],
            r@ == self@.unused_deps[self.packages()[i as int]],
    {
        proof {
            self.lemma_report(i as int);
        }
        self.unused_deps.value(i)
    }

    /// The report of the package `id`, if it has one.
    pub fn get(&self, id: PackageId) -> (r: Option<&OutcomeUnusedDeps>)
        requires
            self.wf(),
        ensures
            match r {
                Some(report) => report.wf() && self@.unused_deps.contains_key(id) && report@
                    == self@.unused_deps[id],
                None => !self@.unused_deps.contains_key(id),
            },
    {
        self.unused_deps.get(id)
    }

    /// The status that the process ends with: 0 on success, 1 where a dependency is
    /// reported.
    pub fn exit_code(&self) -> (code: i32)
        ensures
            code == if self@.success {
                0i32
            } else {
                1i32
            },
    {
        if self.success {
            0
        } else {
            1
        }
    }
}

} // verus!
