//! The members of the project under analysis: for each its tables of names, where its
//! manifest lies, and which dependencies its owner has asked not to be reported.

use vstd::prelude::*;
use crate::model::{DependencyKind, PackageId};
use crate::name_set::NameSet;
use crate::names::{DependencyNames, DependencyNamesView};
use crate::package_map::PackageMap;

verus! {

/// The dependencies of a package that are kept out of the report, by kind.
pub struct IgnoreList {
    normal: NameSet,
    development: NameSet,
    build: NameSet,
}

/// What an `IgnoreList` stands for.
pub struct IgnoreView {
    pub normal: Set<Seq<char>>,
    pub development: Set<Seq<char>>,
    pub build: Set<Seq<char>>,
}

impl IgnoreView {
    /// The names ignored under one kind.
    pub open spec fn of_kind(self, kind: DependencyKind) -> Set<Seq<char>> {
        match kind {
            DependencyKind::Normal => self.normal,
            DependencyKind::Development => self.development,
            DependencyKind::Build => self.build,
        }
    }

    /// The list that ignores nothing.
    pub open spec fn empty() -> IgnoreView {
        IgnoreView { normal: Set::empty(), development: Set::empty(), build: Set::empty() }
    }

    /// The list with one more name ignored under `kind`.
    pub open spec fn insert(self, kind: DependencyKind, name: Seq<char>) -> IgnoreView {
        match kind {
            DependencyKind::Normal => IgnoreView { normal: self.normal.insert(name), ..self },
            DependencyKind::Development => IgnoreView {
                development: self.development.insert(name),
                ..self
            },
            DependencyKind::Build => IgnoreView { build: self.build.insert(name), ..self },
        }
    }
}

impl IgnoreView {
    /// The list with `name` no longer ignored under `kind`.
    pub open spec fn remove(self, kind: DependencyKind, name: Seq<char>) -> IgnoreView {
        match kind {
            DependencyKind::Normal => IgnoreView { normal: self.normal.remove(name), ..self },
            DependencyKind::Development => IgnoreView {
                development: self.development.remove(name),
                ..self
            },
            DependencyKind::Build => IgnoreView { build: self.build.remove(name), ..self },
        }
    }
}

impl View for IgnoreList {
    type V = IgnoreView;

    closed spec fn view(&self) -> IgnoreView {
        IgnoreView {
            normal: self.normal@,
            development: self.development@,
            build: self.build@,
        }
    }
}

impl IgnoreList {
    /// Each of the three sets is well formed.
    pub closed spec fn wf(&self) -> bool {
        &&& self.normal.wf()
        &&& self.development.wf()
        &&& self.build.wf()
    }

    /// The list that ignores nothing.
    pub fn new() -> (r: Self)
        ensures
            r.wf(),
            r@ == IgnoreView::empty(),
    {
        IgnoreList { normal: NameSet::new(), development: NameSet::new(), build: NameSet::new() }
    }

    /// Ignores `name` under `kind` from now on.
    pub fn insert(&mut self, kind: DependencyKind, name: String)
        requires
            old(self).wf(),
        ensures
            final(self).wf(),
            final(self)@ == old(self)@.insert(kind, name@),
    {
        match kind {
            DependencyKind::Normal => self.normal.insert(name),
            DependencyKind::Development => self.development.insert(name),
            DependencyKind::Build => self.build.insert(name),
        }
    }

    /// Whether `name_in_toml` is ignored under `kind`.
    pub fn contains(&self, kind: DependencyKind, name_in_toml: &str) -> (r: bool)
        requires
            self.wf(),
        ensures
            r == self@.of_kind(kind).contains(name_in_toml@),
    {
        match kind {
            DependencyKind::Normal => self.normal.contains(name_in_toml),
            DependencyKind::Development => self.development.contains(name_in_toml),
            DependencyKind::Build => self.build.contains(name_in_toml),
        }
    }
}

/// One package of the project.
pub struct Member {
    /// How the package is named in the report.
    pub label: String,
    /// Where the manifest of the package lies.
    pub manifest_path: String,
    /// Under which names its dependencies can show up.
    pub names: DependencyNames,
    /// Which of its dependencies are kept out of the report.
    pub ignore: IgnoreList,
}

/// What a `Member` stands for.
pub struct MemberView {
    pub label: Seq<char>,
    pub manifest_path: Seq<char>,
    pub names: DependencyNamesView,
    pub ignore: IgnoreView,
}

impl MemberView {
    /// The member with another ignore list and nothing else changed.
    pub open spec fn with_ignore(self, ignore: IgnoreView) -> MemberView {
        MemberView {
            label: self.label,
            manifest_path: self.manifest_path,
            names: self.names,
            ignore,
        }
    }
}

impl View for Member {
    type V = MemberView;

    open spec fn view(&self) -> MemberView {
        MemberView {
            label: self.label@,
            manifest_path: self.manifest_path@,
            names: self.names@,
            ignore: self.ignore@,
        }
    }
}

impl Member {
    /// The tables and the ignore list are well formed.
    pub open spec fn wf(&self) -> bool {
        &&& self.names.wf()
        &&& self.ignore.wf()
    }
}

/// The members of a project, each under its identifier.
pub open spec fn members_wf(members: &PackageMap<Member>) -> bool {
    &&& members.wf()
    &&& forall|id: PackageId| #[trigger]
        members.map().contains_key(id) ==> members.map()[id].wf()
}

/// What the members of a project stand for.
pub open spec fn members_view(members: &PackageMap<Member>) -> Map<PackageId, MemberView> {
    Map::new(
        |id: PackageId| members.map().contains_key(id),
        |id: PackageId| members.map()[id]@,
    )
}

} // verus!
