//! Reconciles the dependencies that the packages of a project declare with
//! the dependencies that a build of the project was seen to reference.

use vstd::prelude::*;

pub mod ambiguity;
pub mod invocation;
pub mod laws;
pub mod model;
pub mod name_map;
pub mod name_set;
pub mod names;
pub mod outcome;
pub mod package_map;
pub mod project;
pub mod report;
pub mod style;
pub mod text;
pub mod tree;
pub mod usage;

use crate::outcome::{outcome_of, Outcome};
use crate::package_map::PackageMap;
use crate::project::{members_view, members_wf, Member};
use crate::usage::{
    all_loaded,
    observations_view,
    used_after,
    MissingArtifact,
    Observation,
    UsedDependencies,
    UsedView,
};

verus! {

/// What a run of the analysis comes to.
pub struct Analysis {
    /// The dependencies that the build was seen to use.
    pub used: UsedDependencies,
    /// The verdict over the members of the project.
    pub outcome: Outcome,
}

/// Runs the analysis over what a build left behind: matches every observed unit against
/// the tables of the member that it belongs to, and draws up the verdict over the
/// members. All units are matched before the verdict is drawn up. A unit without its
/// usage analysis fails the run; the error names the first such unit.
pub fn run(members: &PackageMap<Member>, observations: &Vec<Observation>) -> (r: Result<
    Analysis,
    MissingArtifact,
>)
    requires
        members_wf(members),
    ensures
        match r {
            Ok(analysis) => {
                &&& all_loaded(observations_view(observations@))
                &&& analysis.used.wf()
                &&& analysis.used@ == used_after(
                    members_view(members),
                    UsedView::empty(),
                    observations_view(observations@),
                )
                &&& analysis.outcome.wf()
                &&& analysis.outcome@ == outcome_of(members_view(members), analysis.used@)
            },
            Err(e) => {
                &&& e.position < observations.len()
                &&& observations[e.position as int].analysis is None
                &&& all_loaded(observations_view(observations@).take(e.position as int))
            },
        },
{
    let mut used = UsedDependencies::new();
    match used.match_all(members, observations) {
        Ok(_) => {
            let outcome = Outcome::new(members, &used);
            Ok(Analysis { used, outcome })
        },
        Err(e) => Err(e),
    }
}

} // verus!
