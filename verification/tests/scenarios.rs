use cargo_udeps::invocation::CmdInfo;
use cargo_udeps::model::{DependencyKind, KindGroup, PackageId};
use cargo_udeps::name_set::NameSet;
use cargo_udeps::names::{DependencyEdge, DependencyNames, LibraryTarget};
use cargo_udeps::outcome::Outcome;
use cargo_udeps::package_map::PackageMap;
use cargo_udeps::project::{IgnoreList, Member};
use cargo_udeps::run;
use cargo_udeps::usage::{MissingArtifact, Observation, UsedDependencies};

const APP: PackageId = PackageId(1);
const LEFT_PAD: PackageId = PackageId(2);
const TOOL: PackageId = PackageId(3);
const HELPER: PackageId = PackageId(4);

fn library_edge(from: PackageId, to: PackageId, kind: DependencyKind, name: &str, alias: &str, lib: &str) -> DependencyEdge {
    DependencyEdge {
        from,
        to,
        kind,
        name_in_toml: name.to_string(),
        library: Some(LibraryTarget { extern_crate_name: alias.to_string(), lib_name: lib.to_string() }),
    }
}

fn plain_edge(from: PackageId, to: PackageId, kind: DependencyKind, name: &str) -> DependencyEdge {
    DependencyEdge { from, to, kind, name_in_toml: name.to_string(), library: None }
}

fn member(id: PackageId, label: &str, graph: &Vec<DependencyEdge>, ignore: IgnoreList) -> Member {
    Member {
        label: label.to_string(),
        manifest_path: format!("/work/{}/Cargo.toml", label),
        names: DependencyNames::new(id, graph),
        ignore,
    }
}

fn unit(pkg: PackageId, custom_build: bool, externs: Vec<(&str, &str)>) -> CmdInfo {
    CmdInfo {
        pkg,
        custom_build,
        crate_name: "unit".to_string(),
        crate_type: "bin".to_string(),
        extra_filename: "-0123".to_string(),
        cap_lints_allow: false,
        out_dir: "/work/target/debug/deps".to_string(),
        externs: externs.into_iter().map(|(a, p)| (a.to_string(), p.to_string())).collect(),
    }
}

fn observed(unit: CmdInfo, analysis: Vec<&str>) -> Observation {
    Observation { unit, analysis: Some(analysis.into_iter().map(|s| s.to_string()).collect()) }
}

fn names_of(set: &NameSet) -> Vec<String> {
    let mut v = Vec::new();
    for i in 0..set.len() {
        v.push(set.name(i).clone());
    }
    v
}

fn unused(outcome: &Outcome, id: PackageId, kind: DependencyKind) -> Vec<String> {
    match outcome.get(id) {
        Some(report) => names_of(report.unused_deps(kind)),
        None => Vec::new(),
    }
}

fn left_pad_graph() -> Vec<DependencyEdge> {
    vec![library_edge(APP, LEFT_PAD, DependencyKind::Normal, "left-pad", "left_pad", "left-pad")]
}

fn one_member(id: PackageId, label: &str, graph: &Vec<DependencyEdge>, ignore: IgnoreList) -> PackageMap<Member> {
    let mut members = PackageMap::new();
    members.insert(id, member(id, label, graph, ignore));
    members
}

#[test]
fn unreferenced_normal_dependency_is_reported() {
    let members = one_member(APP, "app", &left_pad_graph(), IgnoreList::new());
    let observations = vec![observed(unit(APP, false, vec![]), vec!["std", "core"])];
    let outcome = run(&members, &observations).unwrap().outcome;
    assert_eq!(unused(&outcome, APP, DependencyKind::Normal), vec!["left-pad".to_string()]);
    assert!(unused(&outcome, APP, DependencyKind::Development).is_empty());
    assert!(unused(&outcome, APP, DependencyKind::Build).is_empty());
    assert!(!outcome.success());
    assert_eq!(outcome.exit_code(), 1);
    assert!(outcome.note().is_some());
    assert_eq!(outcome.get(APP).unwrap().manifest_path(), "/work/app/Cargo.toml");
    assert_eq!(outcome.get(APP).unwrap().package(), "app");
}

#[test]
fn ignored_dependency_is_not_reported() {
    let mut ignore = IgnoreList::new();
    ignore.insert(DependencyKind::Normal, "left-pad".to_string());
    assert!(ignore.contains(DependencyKind::Normal, "left-pad"));
    assert!(!ignore.contains(DependencyKind::Build, "left-pad"));
    let members = one_member(APP, "app", &left_pad_graph(), ignore);
    let observations = vec![observed(unit(APP, false, vec![]), vec!["std"])];
    let outcome = run(&members, &observations).unwrap().outcome;
    assert!(unused(&outcome, APP, DependencyKind::Normal).is_empty());
    assert!(outcome.success());
    assert_eq!(outcome.exit_code(), 0);
    assert!(outcome.note().is_none());
    // The member still has its report, with nothing in it.
    assert_eq!(outcome.len(), 1);
    assert!(outcome.get(APP).unwrap().is_clean());
}

#[test]
fn ignoring_under_another_kind_does_not_suppress() {
    let mut ignore = IgnoreList::new();
    ignore.insert(DependencyKind::Development, "left-pad".to_string());
    let members = one_member(APP, "app", &left_pad_graph(), ignore);
    let outcome = run(&members, &Vec::new()).unwrap().outcome;
    assert_eq!(unused(&outcome, APP, DependencyKind::Normal), vec!["left-pad".to_string()]);
    assert!(!outcome.success());
}

#[test]
fn build_dependency_without_library_is_reported() {
    let graph = vec![plain_edge(TOOL, HELPER, DependencyKind::Build, "cc-helper")];
    let members = one_member(TOOL, "tool", &graph, IgnoreList::new());
    // Whatever the build script references, and whatever it is handed.
    let observations = vec![
        observed(unit(TOOL, true, vec![("cc_helper", "/x/libcc_helper.rlib")]), vec!["cc_helper", "cc-helper"]),
        observed(unit(TOOL, false, vec![("cc_helper", "/x/libcc_helper.rlib")]), vec!["cc_helper"]),
    ];
    let outcome = run(&members, &observations).unwrap().outcome;
    assert_eq!(unused(&outcome, TOOL, DependencyKind::Build), vec!["cc-helper".to_string()]);
    assert!(unused(&outcome, TOOL, DependencyKind::Normal).is_empty());
    assert!(!outcome.success());
    assert_eq!(outcome.exit_code(), 1);
    assert!(members.get(TOOL).unwrap().names.has_non_lib());
}

#[test]
fn package_without_dependencies_has_no_report() {
    let other = vec![library_edge(TOOL, LEFT_PAD, DependencyKind::Normal, "left-pad", "left_pad", "left-pad")];
    let members = one_member(APP, "app", &other, IgnoreList::new());
    let observations = vec![observed(unit(APP, false, vec![("left_pad", "p")]), vec!["left_pad"])];
    let outcome = run(&members, &observations).unwrap().outcome;
    assert!(outcome.get(APP).is_none());
    assert_eq!(outcome.len(), 0);
    assert!(outcome.success());
    assert!(!members.get(APP).unwrap().names.has_non_lib());
}

#[test]
fn reference_in_the_analysis_marks_used() {
    let members = one_member(APP, "app", &left_pad_graph(), IgnoreList::new());
    let observations = vec![observed(unit(APP, false, vec![]), vec!["left_pad"])];
    let outcome = run(&members, &observations).unwrap().outcome;
    assert!(outcome.get(APP).is_none());
    assert!(outcome.success());
}

#[test]
fn alias_alone_marks_used() {
    let graph = vec![library_edge(APP, LEFT_PAD, DependencyKind::Normal, "left-pad", "padding", "left-pad")];
    let members = one_member(APP, "app", &graph, IgnoreList::new());
    // The analysis does not name the library; the invocation names the alias.
    let observations = vec![observed(unit(APP, false, vec![("padding", "/x/libleft_pad.rlib")]), vec!["std"])];
    let outcome = run(&members, &observations).unwrap().outcome;
    assert!(outcome.success());
    assert!(outcome.get(APP).is_none());
    // Without the alias it is reported.
    let observations = vec![observed(unit(APP, false, vec![("other", "/x/libother.rlib")]), vec!["std"])];
    let outcome = run(&members, &observations).unwrap().outcome;
    assert_eq!(unused(&outcome, APP, DependencyKind::Normal), vec!["left-pad".to_string()]);
}

#[test]
fn unit_of_a_package_outside_the_project_marks_nothing() {
    let members = one_member(APP, "app", &left_pad_graph(), IgnoreList::new());
    let observations = vec![observed(unit(TOOL, false, vec![("left_pad", "p")]), vec!["left_pad"])];
    let outcome = run(&members, &observations).unwrap().outcome;
    assert_eq!(unused(&outcome, APP, DependencyKind::Normal), vec!["left-pad".to_string()]);
}

#[test]
fn normal_and_development_share_their_evidence_but_build_does_not() {
    let graph = vec![
        library_edge(APP, LEFT_PAD, DependencyKind::Development, "left-pad", "left_pad", "left-pad"),
        library_edge(APP, HELPER, DependencyKind::Build, "helper", "helper", "helper"),
        library_edge(APP, HELPER, DependencyKind::Normal, "helper", "helper", "helper"),
    ];
    let members = one_member(APP, "app", &graph, IgnoreList::new());
    let observations = vec![observed(unit(APP, false, vec![]), vec!["left_pad", "helper"])];
    let outcome = run(&members, &observations).unwrap().outcome;
    // `helper` is found through the table of each kind, so it counts for both sets.
    assert!(outcome.success());
    let mut used = UsedDependencies::new();
    used.mark(KindGroup::NormalDevelopment, APP, "helper");
    assert!(used.contains(KindGroup::NormalDevelopment, APP, "helper"));
    assert!(!used.contains(KindGroup::Build, APP, "helper"));
    assert!(!used.contains(KindGroup::NormalDevelopment, TOOL, "helper"));
    let outcome = Outcome::new(&members, &used);
    assert_eq!(unused(&outcome, APP, DependencyKind::Build), vec!["helper".to_string()]);
    assert_eq!(unused(&outcome, APP, DependencyKind::Development), vec!["left-pad".to_string()]);
    assert!(unused(&outcome, APP, DependencyKind::Normal).is_empty());
}

#[test]
fn matching_twice_changes_nothing() {
    let graph = vec![
        library_edge(APP, LEFT_PAD, DependencyKind::Normal, "left-pad", "left_pad", "left-pad"),
        library_edge(APP, HELPER, DependencyKind::Build, "helper", "helper", "helper"),
    ];
    let members = one_member(APP, "app", &graph, IgnoreList::new());
    let observations = vec![
        observed(unit(APP, false, vec![]), vec!["left_pad"]),
        observed(unit(APP, true, vec![("helper", "p")]), vec![]),
    ];
    let mut once = UsedDependencies::new();
    once.match_all(&members, &observations).unwrap();
    let mut twice = UsedDependencies::new();
    twice.match_all(&members, &observations).unwrap();
    twice.match_all(&members, &observations).unwrap();
    for group in [KindGroup::NormalDevelopment, KindGroup::Build] {
        for name in ["left-pad", "helper", "other"] {
            for id in [APP, TOOL] {
                assert_eq!(once.contains(group, id, name), twice.contains(group, id, name));
            }
        }
    }
    assert!(once.contains(KindGroup::NormalDevelopment, APP, "left-pad"));
    assert!(once.contains(KindGroup::Build, APP, "helper"));
    // The other order gives the same sets.
    let reversed = vec![
        observed(unit(APP, true, vec![("helper", "p")]), vec![]),
        observed(unit(APP, false, vec![]), vec!["left_pad"]),
    ];
    let mut other = UsedDependencies::new();
    other.match_all(&members, &reversed).unwrap();
    assert!(other.contains(KindGroup::NormalDevelopment, APP, "left-pad"));
    assert!(other.contains(KindGroup::Build, APP, "helper"));
    assert!(!other.contains(KindGroup::Build, APP, "left-pad"));
}

#[test]
fn missing_analysis_fails_the_run() {
    let members = one_member(APP, "app", &left_pad_graph(), IgnoreList::new());
    let observations = vec![
        observed(unit(APP, false, vec![]), vec!["left_pad"]),
        Observation { unit: unit(TOOL, false, vec![]), analysis: None },
        Observation { unit: unit(APP, false, vec![]), analysis: None },
    ];
    match run(&members, &observations) {
        Err(e) => assert_eq!(e, MissingArtifact { position: 1 }),
        Ok(_) => panic!("a run without an analysis must fail"),
    }
}

#[test]
fn reports_come_in_the_order_of_the_packages_and_names_in_their_order() {
    let graph = vec![
        library_edge(TOOL, LEFT_PAD, DependencyKind::Normal, "zeta", "zeta", "zeta"),
        library_edge(TOOL, LEFT_PAD, DependencyKind::Normal, "alpha", "alpha", "alpha"),
        library_edge(TOOL, LEFT_PAD, DependencyKind::Normal, "alpha-beta", "alpha_beta", "alpha-beta"),
        library_edge(APP, LEFT_PAD, DependencyKind::Development, "left-pad", "left_pad", "left-pad"),
    ];
    let mut members = PackageMap::new();
    members.insert(TOOL, member(TOOL, "tool", &graph, IgnoreList::new()));
    members.insert(APP, member(APP, "app", &graph, IgnoreList::new()));
    let outcome = run(&members, &Vec::new()).unwrap().outcome;
    assert_eq!(outcome.len(), 2);
    assert_eq!(outcome.package(0), APP);
    assert_eq!(outcome.package(1), TOOL);
    assert_eq!(
        names_of(outcome.report(1).unused_deps(DependencyKind::Normal)),
        vec!["alpha".to_string(), "alpha-beta".to_string(), "zeta".to_string()]
    );
    assert_eq!(names_of(outcome.report(0).unused_deps(DependencyKind::Development)), vec!["left-pad".to_string()]);
}
