//! What is recorded of each compiler invocation of a build: the unit that it compiles,
//! read off its arguments, and where the usage analysis of that unit will be found.

use vstd::prelude::*;
use vstd::string::*;
use crate::model::PackageId;
use crate::style::{label, label_text, Colour};
use crate::text::{
    assigned_name,
    assigned_value,
    bool_text,
    ends_with,
    has_assignment,
    same_text,
    split_assignment,
    text_ends_with,
    texts,
    write_bool,
};

verus! {

/// The options of a compiler invocation that say something about the unit. Each of them
/// takes the argument that follows it as its value.
#[derive(Clone, Copy, Debug, PartialEq, Eq, Structural)]
pub enum CompilerOption {
    /// `--extern`, with `alias=path` as its value.
    Extern,
    /// `--crate-name`.
    CrateName,
    /// `--crate-type`.
    CrateType,
    /// `--cap-lints`.
    CapLints,
    /// `--out-dir`.
    OutDir,
    /// `-C`, with a code generation setting as its value.
    Codegen,
}

/// The option that an argument names, if it names one.
pub open spec fn option_named(arg: Seq<char>) -> Option<CompilerOption> {
    if arg == "--extern"@ {
        Some(CompilerOption::Extern)
    } else if arg == "--crate-name"@ {
        Some(CompilerOption::CrateName)
    } else if arg == "--crate-type"@ {
        Some(CompilerOption::CrateType)
    } else if arg == "--cap-lints"@ {
        Some(CompilerOption::CapLints)
    } else if arg == "--out-dir"@ {
        Some(CompilerOption::OutDir)
    } else if arg == "-C"@ {
        Some(CompilerOption::Codegen)
    } else {
        None
    }
}

/// The option that an argument names, if it names one.
pub fn classify(arg: &str) -> (r: Option<CompilerOption>)
    ensures
        r == option_named(arg@),
{
    if same_text(arg, "--extern") {
        Some(CompilerOption::Extern)
    } else if same_text(arg, "--crate-name") {
        Some(CompilerOption::CrateName)
    } else if same_text(arg, "--crate-type") {
        Some(CompilerOption::CrateType)
    } else if same_text(arg, "--cap-lints") {
        Some(CompilerOption::CapLints)
    } else if same_text(arg, "--out-dir") {
        Some(CompilerOption::OutDir)
    } else if same_text(arg, "-C") {
        Some(CompilerOption::Codegen)
    } else {
        None
    }
}

/// What has been read off the arguments of an invocation.
pub struct Scan {
    pub crate_name: Option<Seq<char>>,
    pub crate_type: Option<Seq<char>>,
    pub extra_filename: Option<Seq<char>>,
    pub cap_lints_allow: bool,
    pub out_dir: Option<Seq<char>>,
    pub externs: Seq<(Seq<char>, Seq<char>)>,
    /// Whether some `--extern` had a value that is no `alias=path`.
    pub malformed_extern: bool,
}

impl Scan {
    /// Nothing read yet.
    pub open spec fn start() -> Scan {
        Scan {
            crate_name: None,
            crate_type: None,
            extra_filename: None,
            cap_lints_allow: false,
            out_dir: None,
            externs: Seq::empty(),
            malformed_extern: false,
        }
    }

    /// What has been read once `option` is seen with `value`. A later value of an option
    /// replaces an earlier one; the externs are collected in their order.
    pub open spec fn apply(self, option: CompilerOption, value: Seq<char>) -> Scan {
        match option {
            CompilerOption::Extern => if has_assignment(value) {
                Scan {
                    externs: self.externs.push((assigned_name(value), assigned_value(value))),
                    ..self
                }
            } else {
                Scan { malformed_extern: true, ..self }
            },
            CompilerOption::CrateName => Scan { crate_name: Some(value), ..self },
            CompilerOption::CrateType => Scan { crate_type: Some(value), ..self },
            CompilerOption::CapLints => if value == "allow"@ {
                Scan { cap_lints_allow: true, ..self }
            } else {
                self
            },
            CompilerOption::OutDir => Scan { out_dir: Some(value), ..self },
            CompilerOption::Codegen => if has_assignment(value) && assigned_name(value)
                == "extra-filename"@ {
                Scan { extra_filename: Some(assigned_value(value)), ..self }
            } else {
                self
            },
        }
    }
}

/// What is read off the arguments from position `i` on, after `scan` was read off those
/// before. An option takes the argument behind it as its value, whatever that is; an
/// option that is the last argument has no value and says nothing.
pub open spec fn scan_from(args: Seq<Seq<char>>, i: int, scan: Scan) -> Scan
    decreases args.len() - i,
{
    if i < 0 || i >= args.len() {
        scan
    } else {
        match option_named(args[i]) {
            Some(option) => if i + 1 < args.len() {
                scan_from(args, i + 2, scan.apply(option, args[i + 1]))
            } else {
                scan
            },
            None => scan_from(args, i + 1, scan),
        }
    }
}

/// An argument that is needed to find the usage analysis of a unit.
#[derive(Clone, Copy, Debug, PartialEq, Eq, Structural)]
pub enum RequiredArgument {
    /// The value of `--crate-name`.
    CrateName,
    /// The value of `-C extra-filename=..`, which tells units of one name apart.
    ExtraFilename,
    /// The value of `--out-dir`.
    OutDir,
}

/// Why the arguments of an invocation did not describe a unit.
#[derive(Clone, Copy, Debug, PartialEq, Eq, Structural)]
pub enum InvocationError {
    /// An argument that is needed was not given.
    MissingRequiredArgument(RequiredArgument),
    /// The value of some `--extern` is no `alias=path`.
    MalformedExtern,
}

/// The message of an error.
pub open spec fn error_text(error: InvocationError) -> Seq<char> {
    match error {
        InvocationError::MissingRequiredArgument(RequiredArgument::CrateName) =>
            "crate name needed"@,
        InvocationError::MissingRequiredArgument(RequiredArgument::ExtraFilename) =>
            "extra-filename needed"@,
        InvocationError::MissingRequiredArgument(RequiredArgument::OutDir) => "outdir needed"@,
        InvocationError::MalformedExtern => "invalid format for extern arg"@,
    }
}

impl InvocationError {
    /// The message of the error.
    pub fn message(&self) -> (r: String)
        ensures
            r@ == error_text(*self),
    {
        match self {
            InvocationError::MissingRequiredArgument(RequiredArgument::CrateName) =>
                String::from_str("crate name needed"),
            InvocationError::MissingRequiredArgument(RequiredArgument::ExtraFilename) =>
                String::from_str("extra-filename needed"),
            InvocationError::MissingRequiredArgument(RequiredArgument::OutDir) =>
                String::from_str("outdir needed"),
            InvocationError::MalformedExtern => String::from_str("invalid format for extern arg"),
        }
    }
}

/// One compilation unit, as its invocation describes it.
pub struct CmdInfo {
    /// The package that the unit belongs to.
    pub pkg: PackageId,
    /// Whether the unit is a build script.
    pub custom_build: bool,
    /// The name of the crate that is compiled.
    pub crate_name: String,
    /// The type of the crate; `bin` where the invocation names none.
    pub crate_type: String,
    /// The suffix that tells the outputs of units of one name apart.
    pub extra_filename: String,
    /// Whether lints are capped at `allow`.
    pub cap_lints_allow: bool,
    /// The directory that the outputs are written to.
    pub out_dir: String,
    /// The libraries that the invocation names, each as alias and path.
    pub externs: Vec<(String, String)>,
}

/// What a `CmdInfo` stands for.
pub struct CmdInfoView {
    pub pkg: PackageId,
    pub custom_build: bool,
    pub crate_name: Seq<char>,
    pub crate_type: Seq<char>,
    pub extra_filename: Seq<char>,
    pub cap_lints_allow: bool,
    pub out_dir: Seq<char>,
    pub externs: Seq<(Seq<char>, Seq<char>)>,
}

/// What a list of pairs of strings stands for.
pub open spec fn pairs_view(pairs: Seq<(String, String)>) -> Seq<(Seq<char>, Seq<char>)> {
    Seq::new(pairs.len(), |i: int| (pairs[i].0@, pairs[i].1@))
}

impl View for CmdInfo {
    type V = CmdInfoView;

    open spec fn view(&self) -> CmdInfoView {
        CmdInfoView {
            pkg: self.pkg,
            custom_build: self.custom_build,
            crate_name: self.crate_name@,
            crate_type: self.crate_type@,
            extra_filename: self.extra_filename@,
            cap_lints_allow: self.cap_lints_allow,
            out_dir: self.out_dir@,
            externs: pairs_view(self.externs@),
        }
    }
}

/// The unit that the arguments `args` describe, or why they describe none. A malformed
/// extern is reported before a missing argument, and of the missing arguments the crate
/// name first, then the extra filename, then the output directory.
pub open spec fn parsed(pkg: PackageId, custom_build: bool, args: Seq<Seq<char>>) -> Result<
    CmdInfoView,
    InvocationError,
> {
    let scan = scan_from(args, 0, Scan::start());
    if scan.malformed_extern {
        Err(InvocationError::MalformedExtern)
    } else if scan.crate_name is None {
        Err(InvocationError::MissingRequiredArgument(RequiredArgument::CrateName))
    } else if scan.extra_filename is None {
        Err(InvocationError::MissingRequiredArgument(RequiredArgument::ExtraFilename))
    } else if scan.out_dir is None {
        Err(InvocationError::MissingRequiredArgument(RequiredArgument::OutDir))
    } else {
        Ok(
            CmdInfoView {
                pkg,
                custom_build,
                crate_name: scan.crate_name->0,
                crate_type: match scan.crate_type {
                    Some(crate_type) => crate_type,
                    None => "bin"@,
                },
                extra_filename: scan.extra_filename->0,
                cap_lints_allow: scan.cap_lints_allow,
                out_dir: scan.out_dir->0,
                externs: scan.externs,
            },
        )
    }
}

/// What an optional string stands for.
pub open spec fn optional_text(s: Option<String>) -> Option<Seq<char>> {
    match s {
        Some(s) => Some(s@),
        None => None,
    }
}

/// What has been read off the arguments so far, while they are gone through.
struct Reading {
    crate_name: Option<String>,
    crate_type: Option<String>,
    extra_filename: Option<String>,
    cap_lints_allow: bool,
    out_dir: Option<String>,
    externs: Vec<(String, String)>,
    malformed_extern: bool,
}

impl View for Reading {
    type V = Scan;

    closed spec fn view(&self) -> Scan {
        Scan {
            crate_name: optional_text(self.crate_name),
            crate_type: optional_text(self.crate_type),
            extra_filename: optional_text(self.extra_filename),
            cap_lints_allow: self.cap_lints_allow,
            out_dir: optional_text(self.out_dir),
            externs: pairs_view(self.externs@),
            malformed_extern: self.malformed_extern,
        }
    }
}

impl Reading {
    fn start() -> (r: Self)
        ensures
            r@ == Scan::start(),
    {
        let r = Reading {
            crate_name: None,
            crate_type: None,
            extra_filename: None,
            cap_lints_allow: false,
            out_dir: None,
            externs: Vec::new(),
            malformed_extern: false,
        };
        assert(r@.externs =~= Seq::empty());
        r
    }

    fn apply(&mut self, option: CompilerOption, value: &str)
        ensures
            final(self)@ == old(self)@.apply(option, value@),
    {
        let ghost before = self@;
        match option {
            CompilerOption::Extern => {
                match split_assignment(value) {
                    Some((alias, path)) => {
                        self.externs.push((alias, path));
                        assert(self@.externs =~= before.externs.push(
                            (assigned_name(value@), assigned_value(value@)),
                        ));
                    },
                    None => {
                        self.malformed_extern = true;
                    },
                }
            },
            CompilerOption::CrateName => {
                self.crate_name = Some(value.to_owned());
            },
            CompilerOption::CrateType => {
                self.crate_type = Some(value.to_owned());
            },
            CompilerOption::CapLints => {
                if same_text(value, "allow") {
                    self.cap_lints_allow = true;
                }
            },
            CompilerOption::OutDir => {
                self.out_dir = Some(value.to_owned());
            },
            CompilerOption::Codegen => {
                match split_assignment(value) {
                    Some((setting, assigned)) => {
                        if same_text(setting.as_str(), "extra-filename") {
                            self.extra_filename = Some(assigned);
                        }
                    },
                    None => {},
                }
            },
        }
    }
}

/// Reads the unit that an invocation compiles off its arguments.
pub fn cmd_info(id: PackageId, custom_build: bool, args: &Vec<String>) -> (r: Result<
    CmdInfo,
    InvocationError,
>)
    ensures
        match r {
            Ok(info) => parsed(id, custom_build, texts(args@)) == Ok::<
                CmdInfoView,
                InvocationError,
            >(info@),
            Err(e) => parsed(id, custom_build, texts(args@)) == Err::<
                CmdInfoView,
                InvocationError,
            >(e),
        },
{
    let ghost all = texts(args@);
    let n = args.len();
    let mut reading = Reading::start();
    let mut i: usize = 0;
    while i < n
        invariant
            n == args.len(),
            all == texts(args@),
            i <= n,
            scan_from(all, 0, Scan::start()) == scan_from(all, i as int, reading@),
        decreases n - i,
    {
        match classify(args[i].as_str()) {
            Some(option) => {
                if i + 1 < n {
                    reading.apply(option, args[i + 1].as_str());
                    i += 2;
                } else {
                    i = n;
                }
            },
            None => {
                i += 1;
            },
        }
    }
    let Reading {
        crate_name,
        crate_type,
        extra_filename,
        cap_lints_allow,
        out_dir,
        externs,
        malformed_extern,
    } = reading;
    if malformed_extern {
        return Err(InvocationError::MalformedExtern);
    }
    let crate_name = match crate_name {
        Some(crate_name) => crate_name,
        None => {
            return Err(InvocationError::MissingRequiredArgument(RequiredArgument::CrateName));
        },
    };
    let crate_type = match crate_type {
        Some(crate_type) => crate_type,
        None => String::from_str("bin"),
    };
    let extra_filename = match extra_filename {
        Some(extra_filename) => extra_filename,
        None => {
            return Err(
                InvocationError::MissingRequiredArgument(RequiredArgument::ExtraFilename),
            );
        },
    };
    let out_dir = match out_dir {
        Some(out_dir) => out_dir,
        None => {
            return Err(InvocationError::MissingRequiredArgument(RequiredArgument::OutDir));
        },
    };
    Ok(
        CmdInfo {
            pkg: id,
            custom_build,
            crate_name,
            crate_type,
            extra_filename,
            cap_lints_allow,
            out_dir,
            externs,
        },
    )
}

/// Whether the outputs of a crate of this type carry the prefix of libraries.
pub open spec fn is_library_type(crate_type: Seq<char>) -> bool {
    ends_with(crate_type, "lib"@) || crate_type == "proc-macro"@
}

/// The name of the file that holds the usage analysis of a unit.
pub open spec fn save_analysis_file(unit: CmdInfoView) -> Seq<char> {
    (if is_library_type(unit.crate_type) {
        "lib"@
    } else {
        Seq::<char>::empty()
    }) + unit.crate_name + unit.extra_filename + ".json"@
}

/// Where the usage analysis of a unit is found: a file in a directory of fixed name
/// inside the output directory of the unit.
pub struct SaveAnalysisPath {
    /// The output directory of the unit.
    pub out_dir: String,
    /// The name of the directory inside it.
    pub directory: String,
    /// The name of the file inside that.
    pub file_name: String,
}

impl CmdInfo {
    /// Where the usage analysis of this unit is found.
    pub fn get_save_analysis_path(&self) -> (r: SaveAnalysisPath)
        ensures
            r.out_dir@ == self.out_dir@,
            r.directory@ == "save-analysis"@,
            r.file_name@ == save_analysis_file(self@),
    {
        let library = text_ends_with(self.crate_type.as_str(), "lib") || same_text(
            self.crate_type.as_str(),
            "proc-macro",
        );
        let mut file_name = if library {
            String::from_str("lib")
        } else {
            String::new()
        };
        file_name.append(self.crate_name.as_str());
        file_name.append(self.extra_filename.as_str());
        file_name.append(".json");
        SaveAnalysisPath {
            out_dir: self.out_dir.clone(),
            directory: String::from_str("save-analysis"),
            file_name,
        }
    }
}

/// The warning that the capping of lints and the origin of a unit do not go together:
/// lints are expected to be capped for exactly the units from outside the project.
pub open spec fn mismatch_warning(
    supports_color: bool,
    cap_lints_allow: bool,
    is_path: bool,
    id_label: Seq<char>,
) -> Seq<char> {
    label_text(supports_color, Colour::Yellow, "warning:"@) + " (!cap_lints_allow)="@ + bool_text(
        !cap_lints_allow,
    ) + " differs from is_path="@ + bool_text(is_path) + " for id="@ + id_label
}

/// What is to be done with an invocation that was observed.
pub struct UnitDecision {
    /// The warning to pass on, if the unit calls for one.
    pub warning: Option<String>,
    /// The arguments to add to the invocation.
    pub extra_args: Vec<String>,
    /// The variables to set in the environment, each as name and value.
    pub env: Vec<(String, String)>,
}

/// The arguments that make the compiler write the usage analysis of a unit.
pub open spec fn save_analysis_args() -> Seq<Seq<char>> {
    seq!["-Z"@, "save-analysis"@]
}

/// The variable that says what the usage analysis is to hold, as name and value.
pub open spec fn save_analysis_env() -> (Seq<char>, Seq<char>) {
    (
        "RUST_SAVE_ANALYSIS_CONFIG"@,
        "{ \"reachable_only\": true, \"full_docs\": false, \"pub_only\": false, \"distro_crate\": false, \"signatures\": false, \"borrow_data\": false }"@,
    )
}

/// What is shared between the observations of one build: whether messages may carry
/// colour, and the units recorded so far.
pub struct ExecData {
    supports_color: bool,
    relevant_cmd_infos: Vec<CmdInfo>,
}

/// What a list of units stands for.
pub open spec fn units_view(units: Seq<CmdInfo>) -> Seq<CmdInfoView> {
    Seq::new(units.len(), |i: int| units[i]@)
}

impl ExecData {
    /// Whether messages may carry colour.
    pub closed spec fn supports_color(&self) -> bool {
        self.supports_color
    }

    /// The units recorded so far, in the order in which they were observed.
    pub closed spec fn recorded(&self) -> Seq<CmdInfoView> {
        units_view(self.relevant_cmd_infos@)
    }

    /// Nothing recorded yet.
    pub fn new(supports_color: bool) -> (r: Self)
        ensures
            r.supports_color() == supports_color,
            r.recorded() == Seq::<CmdInfoView>::empty(),
    {
        let r = ExecData { supports_color, relevant_cmd_infos: Vec::new() };
        assert(r.recorded() =~= Seq::<CmdInfoView>::empty());
        r
    }

    /// Adds a unit to the record.
    pub fn append(&mut self, unit: CmdInfo)
        ensures
            final(self).supports_color() == old(self).supports_color(),
            final(self).recorded() == old(self).recorded().push(unit@),
    {
        let ghost before = self.recorded();
        self.relevant_cmd_infos.push(unit);
        assert(self.recorded() =~= before.push(unit@));
    }

    /// Hands out the units recorded so far and leaves the record empty.
    pub fn drain(&mut self) -> (units: Vec<CmdInfo>)
        ensures
            final(self).supports_color() == old(self).supports_color(),
            final(self).recorded() == Seq::<CmdInfoView>::empty(),
            units_view(units@) == old(self).recorded(),
    {
        let mut units: Vec<CmdInfo> = Vec::new();
        std::mem::swap(&mut self.relevant_cmd_infos, &mut units);
        assert(self.recorded() =~= Seq::<CmdInfoView>::empty());
        units
    }

    /// Observes one invocation of the compiler, for a unit of package `id`. `is_path`
    /// says whether the source of the package lies in the project's own tree.
    ///
    /// A unit of the project is recorded, and the decision asks for its usage analysis.
    /// A unit from outside is not recorded and is compiled as it is. Where the capping
    /// of lints does not go together with the origin of the unit, the decision carries
    /// a warning. Arguments that describe no unit are an error, and nothing is recorded.
    pub fn on_unit_observed(
        &mut self,
        id: PackageId,
        id_label: &str,
        custom_build: bool,
        is_path: bool,
        args: &Vec<String>,
    ) -> (r: Result<UnitDecision, InvocationError>)
        ensures
            final(self).supports_color() == old(self).supports_color(),
            match parsed(id, custom_build, texts(args@)) {
                Ok(unit) => {
                    &&& r matches Ok(decision)
                    &&& final(self).recorded() == if is_path {
                        old(self).recorded().push(unit)
                    } else {
                        old(self).recorded()
                    }
                    &&& optional_text(decision.warning) == if !unit.cap_lints_allow != is_path {
                        Some(
                            mismatch_warning(
                                old(self).supports_color(),
                                unit.cap_lints_allow,
                                is_path,
                                id_label@,
                            ),
                        )
                    } else {
                        None
                    }
                    &&& texts(decision.extra_args@) == if is_path {
                        save_analysis_args()
                    } else {
                        Seq::empty()
                    }
                    &&& pairs_view(decision.env@) == if is_path {
                        seq![save_analysis_env()]
                    } else {
                        Seq::empty()
                    }
                },
                Err(e) => r == Err::<UnitDecision, InvocationError>(e) && final(self).recorded()
                    == old(self).recorded(),
            },
    {
        let unit = match cmd_info(id, custom_build, args) {
            Ok(unit) => unit,
            Err(e) => {
                return Err(e);
            },
        };
        let cap_lints_allow = unit.cap_lints_allow;
        if is_path {
            self.append(unit);
        }
        let warning = if (!cap_lints_allow) != is_path {
            let mut message = label(self.supports_color, Colour::Yellow, "warning:");
            message.append(" (!cap_lints_allow)=");
            message.append(write_bool(!cap_lints_allow).as_str());
            message.append(" differs from is_path=");
            message.append(write_bool(is_path).as_str());
            message.append(" for id=");
            message.append(id_label);
            Some(message)
        } else {
            None
        };
        let mut extra_args: Vec<String> = Vec::new();
        let mut env: Vec<(String, String)> = Vec::new();
        if is_path {
            extra_args.push(String::from_str("-Z"));
            extra_args.push(String::from_str("save-analysis"));
            env.push(
                (
                    String::from_str("RUST_SAVE_ANALYSIS_CONFIG"),
                    String::from_str(
                        "{ \"reachable_only\": true, \"full_docs\": false, \"pub_only\": false, \"distro_crate\": false, \"signatures\": false, \"borrow_data\": false }",
                    ),
                ),
            );
        }
        proof {
            assert(texts(extra_args@) =~= if is_path {
                save_analysis_args()
            } else {
                Seq::empty()
            });
            assert(pairs_view(env@) =~= if is_path {
                seq![save_analysis_env()]
            } else {
                Seq::empty()
            });
        }
        Ok(UnitDecision { warning, extra_args, env })
    }
}

/// Whether a unit is compiled again although its outputs are up to date: a unit of the
/// project is, since only a compilation writes the usage analysis.
pub fn should_force_rebuild(is_path: bool) -> (r: bool)
    ensures
        r == is_path,
{
    is_path
}

/// The warnings given where the environment does not name the toolchain's executable
/// and `fallback` is taken in its place.
pub open spec fn missing_cargo_warnings(fallback: Seq<char>) -> Seq<Seq<char>> {
    seq![
        "Couldn't find $CARGO environment variable. Setting it to "@ + fallback,
        "`cargo-udeps` currently does not support basic Cargo commands such as `build`"@,
    ]
}

/// Words the warnings given where the environment does not name the toolchain's
/// executable and `fallback` is taken in its place.
pub fn warn_missing_cargo(fallback: &str) -> (r: Vec<String>)
    ensures
        texts(r@) == missing_cargo_warnings(fallback@),
{
    let mut first = String::from_str("Couldn't find $CARGO environment variable. Setting it to ");
    first.append(fallback);
    let mut r: Vec<String> = Vec::new();
    r.push(first);
    r.push(
        String::from_str(
            "`cargo-udeps` currently does not support basic Cargo commands such as `build`",
        ),
    );
    assert(texts(r@) =~= missing_cargo_warnings(fallback@));
    r
}

} // verus!
