use cargo_udeps::invocation::{
    classify, cmd_info, should_force_rebuild, warn_missing_cargo, CmdInfo, CompilerOption, ExecData,
    InvocationError, RequiredArgument,
};
use cargo_udeps::model::PackageId;

fn args(list: &[&str]) -> Vec<String> {
    list.iter().map(|s| s.to_string()).collect()
}

fn full() -> Vec<String> {
    args(&[
        "--edition=2018",
        "--crate-name",
        "app",
        "src/lib.rs",
        "--crate-type",
        "lib",
        "--emit=dep-info,metadata",
        "-C",
        "debuginfo=2",
        "-C",
        "metadata=0011",
        "-C",
        "extra-filename=-0011",
        "--out-dir",
        "/work/target/debug/deps",
        "-L",
        "dependency=/work/target/debug/deps",
        "--extern",
        "left_pad=/work/target/debug/deps/libleft_pad-77.rmeta",
        "--extern",
        "serde=/work/target/debug/deps/libserde-12.rmeta",
    ])
}

#[test]
fn reads_a_unit_off_its_arguments() {
    let info = cmd_info(PackageId(7), true, &full()).unwrap();
    assert_eq!(info.pkg, PackageId(7));
    assert!(info.custom_build);
    assert_eq!(info.crate_name, "app");
    assert_eq!(info.crate_type, "lib");
    assert_eq!(info.extra_filename, "-0011");
    assert!(!info.cap_lints_allow);
    assert_eq!(info.out_dir, "/work/target/debug/deps");
    assert_eq!(
        info.externs,
        vec![
            ("left_pad".to_string(), "/work/target/debug/deps/libleft_pad-77.rmeta".to_string()),
            ("serde".to_string(), "/work/target/debug/deps/libserde-12.rmeta".to_string()),
        ]
    );
}

#[test]
fn crate_type_defaults_to_bin() {
    let info = cmd_info(PackageId(1), false, &args(&["--crate-name", "x", "-C", "extra-filename=-1", "--out-dir", "o"])).unwrap();
    assert_eq!(info.crate_type, "bin");
    assert!(info.externs.is_empty());
    assert!(!info.custom_build);
}

#[test]
fn cap_lints_counts_only_with_allow() {
    let base = ["--crate-name", "x", "-C", "extra-filename=-1", "--out-dir", "o"];
    let mut with_allow = args(&base);
    with_allow.extend(args(&["--cap-lints", "allow"]));
    assert!(cmd_info(PackageId(1), false, &with_allow).unwrap().cap_lints_allow);
    let mut with_warn = args(&base);
    with_warn.extend(args(&["--cap-lints", "warn"]));
    assert!(!cmd_info(PackageId(1), false, &with_warn).unwrap().cap_lints_allow);
    // Once allowed, a later value does not take it back.
    with_allow.extend(args(&["--cap-lints", "warn"]));
    assert!(cmd_info(PackageId(1), false, &with_allow).unwrap().cap_lints_allow);
}

#[test]
fn a_later_value_replaces_an_earlier_one() {
    let info = cmd_info(
        PackageId(1),
        false,
        &args(&["--crate-name", "a", "--crate-name", "b", "-C", "extra-filename=-1", "-C", "extra-filename=-2", "--out-dir", "o", "--out-dir", "p"]),
    )
    .unwrap();
    assert_eq!(info.crate_name, "b");
    assert_eq!(info.extra_filename, "-2");
    assert_eq!(info.out_dir, "p");
}

#[test]
fn an_option_takes_the_next_argument_whatever_it_is() {
    // `--out-dir` is the value of `--crate-name` here, so no output directory is named.
    let r = cmd_info(PackageId(1), false, &args(&["--crate-name", "--out-dir", "o", "-C", "extra-filename=-1"]));
    assert_eq!(r.err(), Some(InvocationError::MissingRequiredArgument(RequiredArgument::OutDir)));
    let info = cmd_info(PackageId(1), false, &args(&["--crate-name", "--out-dir", "--out-dir", "o", "-C", "extra-filename=-1"])).unwrap();
    assert_eq!(info.crate_name, "--out-dir");
    assert_eq!(info.out_dir, "o");
}

#[test]
fn an_option_at_the_end_says_nothing() {
    let r = cmd_info(PackageId(1), false, &args(&["-C", "extra-filename=-1", "--out-dir", "o", "--crate-name"]));
    assert_eq!(r.err(), Some(InvocationError::MissingRequiredArgument(RequiredArgument::CrateName)));
    let info = cmd_info(PackageId(1), false, &args(&["--crate-name", "x", "-C", "extra-filename=-1", "--out-dir", "o", "--extern"])).unwrap();
    assert!(info.externs.is_empty());
}

#[test]
fn missing_arguments_are_reported_in_order() {
    let none = cmd_info(PackageId(1), false, &args(&[]));
    assert_eq!(none.err(), Some(InvocationError::MissingRequiredArgument(RequiredArgument::CrateName)));
    let name_only = cmd_info(PackageId(1), false, &args(&["--crate-name", "x", "--out-dir", "o"]));
    assert_eq!(name_only.err(), Some(InvocationError::MissingRequiredArgument(RequiredArgument::ExtraFilename)));
    let no_dir = cmd_info(PackageId(1), false, &args(&["--crate-name", "x", "-C", "extra-filename=-1"]));
    assert_eq!(no_dir.err(), Some(InvocationError::MissingRequiredArgument(RequiredArgument::OutDir)));
    // A code generation setting of another name does not count.
    let other = cmd_info(PackageId(1), false, &args(&["--crate-name", "x", "-C", "metadata=-1", "-C", "opt-level", "--out-dir", "o"]));
    assert_eq!(other.err(), Some(InvocationError::MissingRequiredArgument(RequiredArgument::ExtraFilename)));
}

#[test]
fn an_extern_without_a_path_is_malformed() {
    let r = cmd_info(PackageId(1), false, &args(&["--extern", "left_pad", "--crate-name", "x", "-C", "extra-filename=-1", "--out-dir", "o"]));
    assert_eq!(r.err(), Some(InvocationError::MalformedExtern));
    // It is reported before anything that is missing.
    let r = cmd_info(PackageId(1), false, &args(&["--extern", "left_pad"]));
    assert_eq!(r.err(), Some(InvocationError::MalformedExtern));
}

#[test]
fn values_are_split_at_equals_signs() {
    let info = cmd_info(
        PackageId(1),
        false,
        &args(&["--crate-name", "x", "-C", "extra-filename=-1=2", "--out-dir", "o", "--extern", "a=b=c", "--extern", "=p", "--extern", "q="]),
    )
    .unwrap();
    assert_eq!(info.extra_filename, "-1");
    assert_eq!(
        info.externs,
        vec![("a".to_string(), "b".to_string()), ("".to_string(), "p".to_string()), ("q".to_string(), "".to_string())]
    );
}

#[test]
fn errors_have_their_messages() {
    assert_eq!(InvocationError::MissingRequiredArgument(RequiredArgument::CrateName).message(), "crate name needed");
    assert_eq!(InvocationError::MissingRequiredArgument(RequiredArgument::ExtraFilename).message(), "extra-filename needed");
    assert_eq!(InvocationError::MissingRequiredArgument(RequiredArgument::OutDir).message(), "outdir needed");
    assert_eq!(InvocationError::MalformedExtern.message(), "invalid format for extern arg");
}

#[test]
fn options_are_told_apart() {
    assert_eq!(classify("--extern"), Some(CompilerOption::Extern));
    assert_eq!(classify("--crate-name"), Some(CompilerOption::CrateName));
    assert_eq!(classify("--crate-type"), Some(CompilerOption::CrateType));
    assert_eq!(classify("--cap-lints"), Some(CompilerOption::CapLints));
    assert_eq!(classify("--out-dir"), Some(CompilerOption::OutDir));
    assert_eq!(classify("-C"), Some(CompilerOption::Codegen));
    assert_eq!(classify("-c"), None);
    assert_eq!(classify("--extern=a"), None);
    assert_eq!(classify(""), None);
}

fn unit_of_type(crate_type: &str) -> CmdInfo {
    CmdInfo {
        pkg: PackageId(1),
        custom_build: false,
        crate_name: "left_pad".to_string(),
        crate_type: crate_type.to_string(),
        extra_filename: "-77aa".to_string(),
        cap_lints_allow: false,
        out_dir: "/work/target/debug/deps".to_string(),
        externs: Vec::new(),
    }
}

#[test]
fn the_analysis_of_a_library_carries_the_prefix() {
    for crate_type in ["lib", "rlib", "dylib", "cdylib", "staticlib", "proc-macro"] {
        let path = unit_of_type(crate_type).get_save_analysis_path();
        assert_eq!(path.out_dir, "/work/target/debug/deps");
        assert_eq!(path.directory, "save-analysis");
        assert_eq!(path.file_name, "libleft_pad-77aa.json");
    }
}

#[test]
fn the_analysis_of_a_binary_carries_no_prefix() {
    for crate_type in ["bin", "", "li", "library", "proc-macros"] {
        let path = unit_of_type(crate_type).get_save_analysis_path();
        assert_eq!(path.file_name, "left_pad-77aa.json");
    }
}

#[test]
fn a_unit_of_the_project_is_recorded_and_analysed() {
    let mut data = ExecData::new(false);
    let decision = data.on_unit_observed(PackageId(1), "app v0.1.0 (/work/app)", false, true, &full()).unwrap();
    assert!(decision.warning.is_none());
    assert_eq!(decision.extra_args, vec!["-Z".to_string(), "save-analysis".to_string()]);
    assert_eq!(
        decision.env,
        vec![(
            "RUST_SAVE_ANALYSIS_CONFIG".to_string(),
            r#"{ "reachable_only": true, "full_docs": false, "pub_only": false, "distro_crate": false, "signatures": false, "borrow_data": false }"#.to_string()
        )]
    );
    let units = data.drain();
    assert_eq!(units.len(), 1);
    assert_eq!(units[0].crate_name, "app");
    assert_eq!(units[0].pkg, PackageId(1));
    assert!(data.drain().is_empty());
}

#[test]
fn a_unit_from_outside_is_left_alone() {
    let mut data = ExecData::new(true);
    let mut capped = full();
    capped.extend(args(&["--cap-lints", "allow"]));
    let decision = data.on_unit_observed(PackageId(2), "serde v1.0.0", false, false, &capped).unwrap();
    assert!(decision.warning.is_none());
    assert!(decision.extra_args.is_empty());
    assert!(decision.env.is_empty());
    assert!(data.drain().is_empty());
}

#[test]
fn a_mismatch_of_capping_and_origin_is_warned_of() {
    let mut data = ExecData::new(false);
    let mut capped = full();
    capped.extend(args(&["--cap-lints", "allow"]));
    let decision = data.on_unit_observed(PackageId(1), "app v0.1.0 (/work/app)", false, true, &capped).unwrap();
    assert_eq!(
        decision.warning,
        Some("warning: (!cap_lints_allow)=false differs from is_path=true for id=app v0.1.0 (/work/app)".to_string())
    );
    // Still recorded.
    assert_eq!(data.drain().len(), 1);
    let decision = data.on_unit_observed(PackageId(2), "serde v1.0.0", false, false, &full()).unwrap();
    assert_eq!(
        decision.warning,
        Some("warning: (!cap_lints_allow)=true differs from is_path=false for id=serde v1.0.0".to_string())
    );
    assert!(data.drain().is_empty());
}

#[test]
fn the_label_of_a_warning_is_bold_yellow_where_colour_is_supported() {
    let mut data = ExecData::new(true);
    let decision = data.on_unit_observed(PackageId(2), "serde v1.0.0", false, false, &full()).unwrap();
    assert_eq!(
        decision.warning,
        Some("\u{1b}[1;33mwarning:\u{1b}[0m (!cap_lints_allow)=true differs from is_path=false for id=serde v1.0.0".to_string())
    );
}

#[test]
fn arguments_that_describe_no_unit_record_nothing() {
    let mut data = ExecData::new(false);
    let r = data.on_unit_observed(PackageId(1), "app", false, true, &args(&["--crate-name", "x"]));
    assert_eq!(r.err(), Some(InvocationError::MissingRequiredArgument(RequiredArgument::ExtraFilename)));
    assert!(data.drain().is_empty());
}

#[test]
fn units_are_handed_out_in_the_order_of_their_observation() {
    let mut data = ExecData::new(false);
    for name in ["one", "two", "three"] {
        let list = args(&["--crate-name", name, "-C", "extra-filename=-1", "--out-dir", "o"]);
        data.on_unit_observed(PackageId(1), "app", false, true, &list).unwrap();
    }
    let names: Vec<String> = data.drain().into_iter().map(|u| u.crate_name).collect();
    assert_eq!(names, vec!["one".to_string(), "two".to_string(), "three".to_string()]);
}

#[test]
fn only_units_of_the_project_are_compiled_again() {
    assert!(should_force_rebuild(true));
    assert!(!should_force_rebuild(false));
}

#[test]
fn a_missing_toolchain_variable_is_warned_of() {
    assert_eq!(
        warn_missing_cargo("/usr/bin/cargo-udeps"),
        vec![
            "Couldn't find $CARGO environment variable. Setting it to /usr/bin/cargo-udeps".to_string(),
            "`cargo-udeps` currently does not support basic Cargo commands such as `build`".to_string(),
        ]
    );
}
