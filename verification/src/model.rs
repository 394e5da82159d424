//! The identifiers that the rest of the library is stated over: packages, and the kinds
//! of dependency that a manifest can declare.

use vstd::prelude::*;

verus! {

/// Identifies one resolved package. The library reads nothing out of an identifier but
/// equality and order; whoever resolves the graph hands them out, one per package.
#[derive(Clone, Copy, Debug, PartialEq, Eq, Structural, Hash)]
pub struct PackageId(pub u64);

/// The build phase that a declared dependency applies to.
#[derive(Clone, Copy, Debug, PartialEq, Eq, Structural, Hash)]
pub enum DependencyKind {
    /// Needed by the package itself.
    Normal,
    /// Needed by tests and examples only.
    Development,
    /// Needed by the build script only.
    Build,
}

/// The kinds whose usage is observed together: what a build script references is
/// accounted for apart from what the package and its tests reference.
#[derive(Clone, Copy, Debug, PartialEq, Eq, Structural, Hash)]
pub enum KindGroup {
    /// Normal and development dependencies.
    NormalDevelopment,
    /// Build dependencies.
    Build,
}

/// The group that a kind belongs to.
pub open spec fn group_of(kind: DependencyKind) -> KindGroup {
    match kind {
        DependencyKind::Normal => KindGroup::NormalDevelopment,
        DependencyKind::Development => KindGroup::NormalDevelopment,
        DependencyKind::Build => KindGroup::Build,
    }
}

impl DependencyKind {
    /// The group that this kind belongs to.
    pub fn group(self) -> (g: KindGroup)
        ensures
            g == group_of(self),
    {
        match self {
            DependencyKind::Normal => KindGroup::NormalDevelopment,
            DependencyKind::Development => KindGroup::NormalDevelopment,
            DependencyKind::Build => KindGroup::Build,
        }
    }
}

} // verus!
