use cargo_udeps::ambiguity::ambiguity_warning;
use cargo_udeps::model::{DependencyKind, KindGroup, PackageId};
use cargo_udeps::name_set::NameSet;
use cargo_udeps::names::{DependencyEdge, DependencyNames, LibraryTarget};
use cargo_udeps::outcome::{ignoring_message, unused_of_kind, Outcome, OutcomeUnusedDeps};
use cargo_udeps::package_map::PackageMap;
use cargo_udeps::project::{IgnoreList, Member};
use cargo_udeps::report::OutputKind;
use cargo_udeps::style::{info_line, label, Colour};
use cargo_udeps::tree::write_branch;
use cargo_udeps::usage::UsedDependencies;

const APP: PackageId = PackageId(1);
const OTHER: PackageId = PackageId(2);

const NOTE: &str = "Note: These dependencies might be used by other targets.\n      To find dependencies that are not used by any target, enable `--all-targets`.\nNote: Some dependencies are non-library packages.\n      `cargo-udeps` regards them as unused.\nNote: They might be false-positive.\n      For example, `cargo-udeps` cannot detect usage of crates that are only used in doc-tests.\n      To ignore some of dependencies, write `package.metadata.cargo-udeps.ignore` in Cargo.toml.\n";

fn edge(from: PackageId, kind: DependencyKind, name: &str, lib: Option<&str>) -> DependencyEdge {
    DependencyEdge {
        from,
        to: PackageId(100),
        kind,
        name_in_toml: name.to_string(),
        library: lib.map(|lib| LibraryTarget { extern_crate_name: name.replace('-', "_"), lib_name: lib.to_string() }),
    }
}

fn member(id: PackageId, label: &str, graph: &Vec<DependencyEdge>) -> Member {
    Member {
        label: label.to_string(),
        manifest_path: format!("/work/{}/Cargo.toml", label),
        names: DependencyNames::new(id, graph),
        ignore: IgnoreList::new(),
    }
}

fn verdict(graph: &Vec<DependencyEdge>) -> Outcome {
    let mut members = PackageMap::new();
    members.insert(OTHER, member(OTHER, "other v0.2.0", graph));
    members.insert(APP, member(APP, "app v0.1.0", graph));
    Outcome::new(&members, &UsedDependencies::new())
}

#[test]
fn a_success_is_written_as_one_line() {
    let outcome = verdict(&Vec::new());
    assert!(outcome.success());
    assert_eq!(outcome.print_human(), "All deps seem to have been used.\n");
}

#[test]
fn one_unused_dependency_is_written_as_a_tree() {
    let outcome = verdict(&vec![edge(APP, DependencyKind::Normal, "left-pad", Some("left-pad"))]);
    let expected = format!(
        "{}{}{}{}{}",
        "unused dependencies:\n",
        "`app v0.1.0`\n",
        "└─── dependencies\n",
        "     └─── \"left-pad\"\n",
        NOTE
    );
    assert_eq!(outcome.print_human(), expected);
    assert_eq!(outcome.note(), &Some(NOTE.to_string()));
}

#[test]
fn every_kind_has_its_branch() {
    let outcome = verdict(&vec![
        edge(APP, DependencyKind::Normal, "serde", Some("serde")),
        edge(APP, DependencyKind::Normal, "left-pad", Some("left-pad")),
        edge(APP, DependencyKind::Development, "quickcheck", Some("quickcheck")),
        edge(APP, DependencyKind::Build, "cc-helper", None),
        edge(APP, DependencyKind::Build, "bindgen", Some("bindgen")),
        edge(OTHER, DependencyKind::Development, "tempdir", Some("tempdir")),
    ]);
    let expected = format!(
        "{}{}{}{}{}{}{}{}{}{}{}{}{}{}",
        "unused dependencies:\n",
        "`app v0.1.0`\n",
        "├─── dependencies\n",
        "│    ├─── \"left-pad\"\n",
        "│    └─── \"serde\"\n",
        "├─── dev-dependencies\n",
        "│    └─── \"quickcheck\"\n",
        "└─── build-dependencies\n",
        "     ├─── \"bindgen\"\n",
        "     └─── \"cc-helper\"\n",
        "`other v0.2.0`\n",
        "└─── dev-dependencies\n",
        "     └─── \"tempdir\"\n",
        NOTE
    );
    assert_eq!(outcome.print_human(), expected);
}

#[test]
fn the_trunk_ends_with_the_last_branch() {
    let outcome = verdict(&vec![
        edge(APP, DependencyKind::Normal, "serde", Some("serde")),
        edge(APP, DependencyKind::Development, "quickcheck", Some("quickcheck")),
    ]);
    let expected = format!(
        "{}{}{}{}{}{}{}",
        "unused dependencies:\n",
        "`app v0.1.0`\n",
        "├─── dependencies\n",
        "│    └─── \"serde\"\n",
        "└─── dev-dependencies\n",
        "     └─── \"quickcheck\"\n",
        NOTE
    );
    assert_eq!(outcome.print_human(), expected);
}

#[test]
fn names_are_written_in_their_quoted_form() {
    let outcome = verdict(&vec![edge(APP, DependencyKind::Build, "odd\"name\\", None)]);
    let expected = format!(
        "{}{}{}{}{}",
        "unused dependencies:\n",
        "`app v0.1.0`\n",
        "└─── build-dependencies\n",
        "     └─── \"odd\\\"name\\\\\"\n",
        NOTE
    );
    assert_eq!(outcome.print_human(), expected);
}

#[test]
fn a_branch_without_items_is_not_drawn() {
    let mut out = String::from("head\n");
    write_branch(&mut out, &Vec::new(), "│", "├", "dependencies");
    assert_eq!(out, "head\n");
    write_branch(&mut out, &vec!["one".to_string(), "two".to_string()], "│", "├", "dependencies");
    assert_eq!(out, "head\n├─── dependencies\n│    ├─── one\n│    └─── two\n");
}

#[test]
fn a_report_is_filled_by_kind() {
    let mut report = OutcomeUnusedDeps::new("app v0.1.0", "/work/app/Cargo.toml");
    assert!(report.is_clean());
    report.insert(DependencyKind::Development, "b".to_string());
    report.insert(DependencyKind::Development, "a".to_string());
    assert!(!report.is_clean());
    assert_eq!(report.package(), "app v0.1.0");
    assert_eq!(report.manifest_path(), "/work/app/Cargo.toml");
    assert_eq!(report.unused_deps(DependencyKind::Development).len(), 2);
    assert_eq!(report.unused_deps(DependencyKind::Development).name(0), "a");
    assert!(report.unused_deps(DependencyKind::Normal).is_empty());
    assert!(report.unused_deps(DependencyKind::Build).is_empty());
}

#[test]
fn ignored_dependencies_are_found_apart_from_the_reported() {
    let graph = vec![
        edge(APP, DependencyKind::Normal, "serde", Some("serde")),
        edge(APP, DependencyKind::Normal, "left-pad", Some("left-pad")),
        edge(APP, DependencyKind::Normal, "used", Some("used")),
    ];
    let mut ignore = IgnoreList::new();
    ignore.insert(DependencyKind::Normal, "left-pad".to_string());
    ignore.insert(DependencyKind::Normal, "used".to_string());
    ignore.insert(DependencyKind::Normal, "undeclared".to_string());
    let one = Member {
        label: "app".to_string(),
        manifest_path: "m".to_string(),
        names: DependencyNames::new(APP, &graph),
        ignore,
    };
    let mut used = UsedDependencies::new();
    used.mark(KindGroup::NormalDevelopment, APP, "used");
    let found = unused_of_kind(&one, APP, &used, DependencyKind::Normal);
    assert!(!found.is_empty());
    assert_eq!(found.reported.len(), 1);
    assert_eq!(found.reported.name(0), "serde");
    assert_eq!(found.ignored.len(), 1);
    assert_eq!(found.ignored.name(0), "left-pad");
    assert!(unused_of_kind(&one, APP, &used, DependencyKind::Build).is_empty());
    assert_eq!(ignoring_message("left-pad", DependencyKind::Normal), "Ignoring `left-pad` (Normal)");
    assert_eq!(ignoring_message("x", DependencyKind::Development), "Ignoring `x` (Development)");
    assert_eq!(ignoring_message("", DependencyKind::Build), "Ignoring `` (Build)");
}

#[test]
fn formats_are_known_by_their_names() {
    assert_eq!(OutputKind::from_str("human"), Ok(OutputKind::Human));
    assert_eq!(OutputKind::from_str("json"), Ok(OutputKind::Json));
    assert_eq!(
        OutputKind::from_str("Human"),
        Err("expected \"human\" or \"json\" (you should not see this message)".to_string())
    );
    assert!(OutputKind::from_str("").is_err());
    assert_eq!(OutputKind::variants(), vec!["human".to_string(), "json".to_string()]);
}

#[test]
fn labels_are_painted_where_colour_is_supported() {
    assert_eq!(label(false, Colour::Yellow, "warning:"), "warning:");
    assert_eq!(label(true, Colour::Yellow, "warning:"), "\u{1b}[1;33mwarning:\u{1b}[0m");
    assert_eq!(label(true, Colour::Cyan, "info:"), "\u{1b}[1;36minfo:\u{1b}[0m");
    assert_eq!(label(true, Colour::Cyan, ""), "\u{1b}[1;36m\u{1b}[0m");
    assert_eq!(info_line(false, "Ignoring `x` (Normal)"), "info: Ignoring `x` (Normal)\n");
    assert_eq!(info_line(true, "loading"), "\u{1b}[1;36minfo:\u{1b}[0m loading\n");
}

fn ambiguous_graph() -> Vec<DependencyEdge> {
    vec![
        edge(APP, DependencyKind::Normal, "foo-b", Some("foo")),
        edge(APP, DependencyKind::Development, "foo-a", Some("foo")),
        edge(APP, DependencyKind::Normal, "bar", Some("bar")),
        edge(APP, DependencyKind::Development, "bar", Some("bar")),
        edge(APP, DependencyKind::Build, "foo-c", Some("foo")),
        edge(OTHER, DependencyKind::Normal, "foo-d", Some("foo")),
    ]
}

fn names_of(set: &NameSet) -> Vec<String> {
    (0..set.len()).map(|i| set.name(i).clone()).collect()
}

#[test]
fn a_library_name_shared_by_two_dependencies_is_ambiguous() {
    let names = DependencyNames::new(APP, &ambiguous_graph());
    let found = names.ambiguous_names(KindGroup::NormalDevelopment);
    assert_eq!(found.len(), 1);
    assert_eq!(found.key(0), "foo");
    assert_eq!(names_of(found.value(0)), vec!["foo-a".to_string(), "foo-b".to_string()]);
    // The build dependencies are looked at apart, and there `foo` has one name only.
    assert_eq!(names.ambiguous_names(KindGroup::Build).len(), 0);
    let warning = names.warn_ambiguous("app v0.1.0").unwrap();
    let expected = format!(
        "{}{}{}{}{}",
        "Currently `cargo-udeps` cannot distinguish multiple crates with the same `lib` name. This may cause false negative\n",
        "`app v0.1.0`\n",
        "└─── (dev-)dependencies\n",
        "     ├─── \"foo-a\" → \"foo\"\n",
        "     └─── \"foo-b\" → \"foo\""
    );
    assert_eq!(warning, expected);
    assert_eq!(DependencyNames::new(OTHER, &ambiguous_graph()).warn_ambiguous("other"), None);
}

#[test]
fn hyphens_and_underscores_in_library_names_collide() {
    let graph = vec![
        edge(APP, DependencyKind::Build, "one", Some("my-lib")),
        edge(APP, DependencyKind::Build, "two", Some("my_lib")),
        edge(APP, DependencyKind::Normal, "x", Some("dup")),
        edge(APP, DependencyKind::Normal, "y", Some("dup")),
    ];
    let names = DependencyNames::new(APP, &graph);
    let warning = names.warn_ambiguous("app").unwrap();
    let expected = format!(
        "{}{}{}{}{}{}{}{}",
        "Currently `cargo-udeps` cannot distinguish multiple crates with the same `lib` name. This may cause false negative\n",
        "`app`\n",
        "├─── (dev-)dependencies\n",
        "│    ├─── \"x\" → \"dup\"\n",
        "│    └─── \"y\" → \"dup\"\n",
        "└─── build-dependencies\n",
        "     ├─── \"one\" → \"my_lib\"\n",
        "     └─── \"two\" → \"my_lib\""
    );
    assert_eq!(warning, expected);
    let build = names.ambiguous_names(KindGroup::Build);
    let none = names.ambiguous_names(KindGroup::Build);
    assert_eq!(build.len(), none.len());
    assert_eq!(ambiguity_warning("app", &names.ambiguous_names(KindGroup::NormalDevelopment), &build), Some(expected));
}

#[test]
fn evidence_for_an_ambiguous_library_counts_for_every_name() {
    let names = DependencyNames::new(APP, &ambiguous_graph());
    let table = names.table(DependencyKind::Normal);
    assert_eq!(names_of(table.names_for_library("foo").unwrap()), vec!["foo-b".to_string()]);
    assert_eq!(table.name_for_alias("foo_b").unwrap(), "foo-b");
    assert!(table.names_for_library("foo-b").is_none());
    assert!(table.name_for_alias("foo-b").is_none());
    assert!(table.non_library().is_empty());
    let mut members = PackageMap::new();
    members.insert(APP, member(APP, "app", &ambiguous_graph()));
    let mut used = UsedDependencies::new();
    let unit = cargo_udeps::invocation::CmdInfo {
        pkg: APP,
        custom_build: false,
        crate_name: "app".to_string(),
        crate_type: "bin".to_string(),
        extra_filename: "-1".to_string(),
        cap_lints_allow: false,
        out_dir: "o".to_string(),
        externs: Vec::new(),
    };
    used.match_invocation(&members, &unit, &vec!["foo".to_string()]);
    for name in ["foo-a", "foo-b"] {
        assert!(used.contains(KindGroup::NormalDevelopment, APP, name));
    }
    assert!(used.contains(KindGroup::Build, APP, "foo-c"));
    assert!(!used.contains(KindGroup::NormalDevelopment, APP, "foo-c"));
    assert!(!used.contains(KindGroup::NormalDevelopment, APP, "bar"));
    assert!(!used.contains(KindGroup::NormalDevelopment, OTHER, "foo-d"));
}
