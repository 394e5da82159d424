//! How a verdict is written out for a reader: a tree for each package that has a
//! report, with a branch for each kind of dependency under which something is reported.

use vstd::prelude::*;
use vstd::string::*;
use crate::model::DependencyKind;
use crate::name_set::NameSet;
use crate::outcome::{Outcome, OutcomeUnusedDeps};
use crate::package_map::lemma_ascending_ids_unique;
use crate::style::{debug_quoted, quote};
use crate::text::{same_text, texts};
use crate::tree::{branch_text, write_branch};

verus! {

/// The formats in which a verdict can be written out.
#[derive(Clone, Copy, Debug, PartialEq, Eq, Structural)]
pub enum OutputKind {
    /// A tree, for a reader.
    Human,
    /// One line of JSON, for a program.
    Json,
}

/// What is said of a name that names no format.
pub open spec fn unknown_format_text() -> Seq<char> {
    "expected \"human\" or \"json\" (you should not see this message)"@
}

impl OutputKind {
    /// The names of the formats.
    pub fn variants() -> (r: Vec<String>)
        ensures
            texts(r@) == seq!["human"@, "json"@],
    {
        let mut r: Vec<String> = Vec::new();
        r.push(String::from_str("human"));
        r.push(String::from_str("json"));
        assert(texts(r@) =~= seq!["human"@, "json"@]);
        r
    }

    /// The format of the name `s`.
    pub fn from_str(s: &str) -> (r: Result<OutputKind, String>)
        ensures
            match r {
                Ok(OutputKind::Human) => s@ == "human"@,
                Ok(OutputKind::Json) => s@ != "human"@ && s@ == "json"@,
                Err(message) => s@ != "human"@ && s@ != "json"@ && message@
                    == unknown_format_text(),
            },
    {
        if same_text(s, "human") {
            Ok(OutputKind::Human)
        } else if same_text(s, "json") {
            Ok(OutputKind::Json)
        } else {
            Err(
                String::from_str(
                    "expected \"human\" or \"json\" (you should not see this message)",
                ),
            )
        }
    }
}

/// The names of a branch as they are listed: each in its quoted form.
pub open spec fn quoted_names(names: Seq<Seq<char>>) -> Seq<Seq<char>> {
    Seq::new(names.len(), |i: int| debug_quoted(names[i]))
}

/// What continues the trunk to the left of the items of a branch: nothing where the
/// branch is the last of its package.
pub open spec fn edge(closing: bool) -> Seq<char> {
    if closing {
        " "@
    } else {
        "│"@
    }
}

/// What hangs a branch on the trunk.
pub open spec fn joint(closing: bool) -> Seq<char> {
    if closing {
        "└"@
    } else {
        "├"@
    }
}

/// The tree of one package: its label, and up to three branches.
pub open spec fn package_text(report: &OutcomeUnusedDeps) -> Seq<char> {
    let normal = quoted_names(report.names(DependencyKind::Normal));
    let development = quoted_names(report.names(DependencyKind::Development));
    let build = quoted_names(report.names(DependencyKind::Build));
    "`"@ + report@.package + "`\n"@ + branch_text(
        normal,
        edge(development.len() == 0 && build.len() == 0),
        joint(development.len() == 0 && build.len() == 0),
        "dependencies"@,
    ) + branch_text(
        development,
        edge(build.len() == 0),
        joint(build.len() == 0),
        "dev-dependencies"@,
    ) + branch_text(build, " "@, "└"@, "build-dependencies"@)
}

/// The trees of the first `n` reports.
pub open spec fn packages_text(reports: Seq<OutcomeUnusedDeps>, n: int) -> Seq<char>
    decreases n,
{
    if n <= 0 {
        Seq::empty()
    } else {
        packages_text(reports, n - 1) + package_text(&reports[n - 1])
    }
}

/// A verdict as written out for a reader: one line where it is a success; else a
/// heading, the tree of each package with a report, and the notes.
pub open spec fn human_text(outcome: &Outcome) -> Seq<char> {
    if outcome@.success {
        "All deps seem to have been used.\n"@
    } else {
        "unused dependencies:\n"@ + packages_text(
            outcome.reports(),
            outcome.reports().len() as int,
        ) + match outcome@.note {
            Some(note) => note,
            None => Seq::empty(),
        }
    }
}

/// The tree of a package is determined by what its report stands for.
pub proof fn lemma_package_text_determined(a: &OutcomeUnusedDeps, b: &OutcomeUnusedDeps)
    requires
        a.wf(),
        b.wf(),
        a@ == b@,
    ensures
        package_text(a) == package_text(b),
{
    a.lemma_names_determined(b, DependencyKind::Normal);
    a.lemma_names_determined(b, DependencyKind::Development);
    a.lemma_names_determined(b, DependencyKind::Build);
}

/// The trees of two lists of reports that stand for the same, one by one, are the same.
proof fn lemma_packages_text_determined(
    a: Seq<OutcomeUnusedDeps>,
    b: Seq<OutcomeUnusedDeps>,
    n: int,
)
    requires
        0 <= n <= a.len(),
        n <= b.len(),
        forall|i: int| 0 <= i < n ==> a[i].wf() && b[i].wf() && a[i]@ == b[i]@,
    ensures
        packages_text(a, n) == packages_text(b, n),
    decreases n,
{
    if n > 0 {
        lemma_packages_text_determined(a, b, n - 1);
        lemma_package_text_determined(&a[n - 1], &b[n - 1]);
    }
}

/// What is written out for a reader is determined by what the verdict stands for: the
/// packages come in ascending order, and so do the names under each kind.
pub proof fn lemma_human_text_determined(a: &Outcome, b: &Outcome)
    requires
        a.wf(),
        b.wf(),
        a@ == b@,
    ensures
        human_text(a) == human_text(b),
{
    a.lemma_packages();
    b.lemma_packages();
    a.lemma_lengths();
    b.lemma_lengths();
    assert(a.packages().to_set() =~= b.packages().to_set());
    lemma_ascending_ids_unique(a.packages(), b.packages());
    let n = a.packages().len() as int;
    assert forall|i: int| 0 <= i < n implies a.reports()[i].wf() && b.reports()[i].wf()
        && a.reports()[i]@ == b.reports()[i]@ by {
        a.lemma_report(i);
        b.lemma_report(i);
    }
    lemma_packages_text_determined(a.reports(), b.reports(), n);
}

/// Lists the names of a set, each in its quoted form.
fn quoted(names: &NameSet) -> (r: Vec<String>)
    ensures
        texts(r@) == quoted_names(names.names()),
{
    let mut r: Vec<String> = Vec::new();
    let mut i: usize = 0;
    while i < names.len()
        invariant
            i <= names.names().len(),
            texts(r@) == quoted_names(names.names()).take(i as int),
        decreases names.names().len() - i,
    {
        let ghost prev = texts(r@);
        let item = quote(names.name(i).as_str());
        assert(item@ == quoted_names(names.names())[i as int]);
        r.push(item);
        i += 1;
        assert(texts(r@) =~= prev.push(quoted_names(names.names())[i - 1]));
        assert(texts(r@) =~= quoted_names(names.names()).take(i as int));
    }
    assert(quoted_names(names.names()).take(i as int) =~= quoted_names(names.names()));
    r
}

/// Appends the tree of one package to `out`.
fn write_package(out: &mut String, report: &OutcomeUnusedDeps)
    requires
        report.wf(),
    ensures
        final(out)@ == old(out)@ + package_text(report),
{
    let ghost before = out@;
    let normal = quoted(report.unused_deps(DependencyKind::Normal));
    let development = quoted(report.unused_deps(DependencyKind::Development));
    let build = quoted(report.unused_deps(DependencyKind::Build));
    out.append("`");
    out.append(report.package().as_str());
    out.append("`\n");
    if development.len() == 0 && build.len() == 0 {
        write_branch(out, &normal, " ", "└", "dependencies");
    } else {
        write_branch(out, &normal, "│", "├", "dependencies");
    }
    if build.len() == 0 {
        write_branch(out, &development, " ", "└", "dev-dependencies");
    } else {
        write_branch(out, &development, "│", "├", "dev-dependencies");
    }
    write_branch(out, &build, " ", "└", "build-dependencies");
    assert(out@ =~= before + package_text(report));
}

impl Outcome {
    /// Writes the verdict out for a reader.
    pub fn print_human(&self) -> (r: String)
        requires
            self.wf(),
        ensures
            r@ == human_text(self),
    {
        if self.success() {
            return String::from_str("All deps seem to have been used.\n");
        }
        let mut out = String::from_str("unused dependencies:\n");
        let ghost head = out@;
        let n = self.len();
        let mut i: usize = 0;
        assert(out@ =~= head + packages_text(self.reports(), 0));
        while i < n
            invariant
                self.wf(),
                n == self.packages().len(),
                i <= n,
                out@ == head + packages_text(self.reports(), i as int),
            decreases n - i,
        {
            write_package(&mut out, self.report(i));
            i += 1;
            assert(out@ =~= head + packages_text(self.reports(), i as int));
        }
        proof {
            self.lemma_lengths();
        }
        match self.note() {
            Some(note) => {
                out.append(note.as_str());
            },
            None => {},
        }
        assert(out@ =~= human_text(self));
        out
    }
}

} // verus!
