//! Finds the library names that more than one declared dependency of a package leads to.
//!
//! The usage analysis of a unit names libraries, not dependencies. Where two declared
//! dependencies lead to libraries of one name, a reference to that name counts for both,
//! and neither can be told to be unused. This is looked for among the normal and
//! development dependencies taken together, and among the build dependencies.

use vstd::prelude::*;
use vstd::string::*;
use crate::model::{DependencyKind, KindGroup};
use crate::name_map::{lemma_ascending_unique, NameMap};
use crate::name_set::{several, NameSet};
use crate::names::{DependencyNames, DependencyNamesView, NameTable};
use crate::style::{debug_quoted, quote};
use crate::text::texts;
use crate::tree::{branch_text, write_branch};

verus! {

impl DependencyNamesView {
    /// The declared names of the kinds of `group` that lead to a library of the
    /// normalized name `lib`.
    pub open spec fn names_in_group(self, group: KindGroup, lib: Seq<char>) -> Set<Seq<char>> {
        match group {
            KindGroup::NormalDevelopment => self.normal.names_under(lib).union(
                self.development.names_under(lib),
            ),
            KindGroup::Build => self.build.names_under(lib),
        }
    }

    /// Whether more than one declared name of the kinds of `group` leads to a library
    /// of the normalized name `lib`.
    pub open spec fn ambiguous(self, group: KindGroup, lib: Seq<char>) -> bool {
        several(self.names_in_group(group, lib))
    }
}

/// The names that a map holds under `lib`.
pub open spec fn held_under(m: Map<Seq<char>, NameSet>, lib: Seq<char>) -> Set<Seq<char>> {
    if m.contains_key(lib) {
        m[lib]@
    } else {
        Set::empty()
    }
}

/// The map and each of its sets are well formed.
pub open spec fn name_sets_wf(m: &NameMap<NameSet>) -> bool {
    &&& m.wf()
    &&& forall|k: Seq<char>| #[trigger] m.map().contains_key(k) ==> m.map()[k].wf()
}

/// Whether `found` is what there is to find in the kinds of `group`: it holds exactly
/// the ambiguous library names, each with all the declared names that lead to it. The
/// order in which a finding is walked is determined by what it holds.
pub open spec fn is_finding(
    names: DependencyNamesView,
    group: KindGroup,
    found: &NameMap<NameSet>,
) -> bool {
    &&& name_sets_wf(found)
    &&& forall|lib: Seq<char>| #[trigger]
        found.map().contains_key(lib) <==> names.ambiguous(group, lib)
    &&& forall|lib: Seq<char>| #[trigger]
        found.map().contains_key(lib) ==> found.map()[lib]@ == names.names_in_group(group, lib)
}

/// Adds what `table` holds under each library name to what `merged` holds under it.
fn merge_table(merged: &mut NameMap<NameSet>, table: &NameTable)
    requires
        name_sets_wf(old(merged)),
        table.wf(),
    ensures
        name_sets_wf(final(merged)),
        forall|lib: Seq<char>| #[trigger]
            held_under(final(merged).map(), lib) == held_under(old(merged).map(), lib).union(
                table@.names_under(lib),
            ),
{
    let ghost before = merged.map();
    let ghost libs = table.library_names();
    let mut i: usize = 0;
    assert forall|lib: Seq<char>| #[trigger]
        held_under(merged.map(), lib) == held_under(before, lib).union(
            if libs.take(0).contains(lib) {
                table@.by_library_name[lib]
            } else {
                Set::empty()
            },
        ) by {
        assert(held_under(before, lib).union(Set::empty()) =~= held_under(before, lib));
    }
    while i < table.library_count()
        invariant
            name_sets_wf(merged),
            table.wf(),
            libs == table.library_names(),
            i <= libs.len(),
            forall|lib: Seq<char>| #[trigger]
                held_under(merged.map(), lib) == held_under(before, lib).union(
                    if libs.take(i as int).contains(lib) {
                        table@.by_library_name[lib]
                    } else {
                        Set::empty()
                    },
                ),
        decreases libs.len() - i,
    {
        let ghost prev = merged.map();
        let lib = table.library_name(i);
        let more = table.library_dependencies(i);
        let mut names = match merged.remove(lib.as_str()) {
            Some(names) => names,
            None => NameSet::new(),
        };
        names.insert_all(more);
        merged.insert(lib.clone(), names);
        proof {
            let done = libs.take(i as int);
            let next = libs.take(i + 1);
            assert forall|k: Seq<char>| #[trigger]
                held_under(merged.map(), k) == held_under(before, k).union(
                    if next.contains(k) {
                        table@.by_library_name[k]
                    } else {
                        Set::empty()
                    },
                ) by {
                assert(held_under(prev, k) == held_under(before, k).union(
                    if done.contains(k) {
                        table@.by_library_name[k]
                    } else {
                        Set::empty()
                    },
                ));
                if k == libs[i as int] {
                    assert(next[i as int] == k);
                    assert(held_under(merged.map(), k) =~= held_under(prev, k).union(more@));
                    assert(held_under(merged.map(), k) =~= held_under(before, k).union(
                        table@.by_library_name[k],
                    ));
                } else {
                    if next.contains(k) {
                        let j = next.index_of(k);
                        assert(done[j] == k);
                    }
                    if done.contains(k) {
                        let j = done.index_of(k);
                        assert(next[j] == k);
                    }
                    assert(merged.map().contains_key(k) <==> prev.contains_key(k));
                }
            }
        }
        i += 1;
    }
    proof {
        assert(libs.take(i as int) =~= libs);
        table.lemma_library_names();
        assert forall|lib: Seq<char>| #[trigger]
            held_under(merged.map(), lib) == held_under(before, lib).union(
                table@.names_under(lib),
            ) by {
            assert(libs.contains(lib) <==> table@.by_library_name.contains_key(lib));
        }
    }
}

impl DependencyNames {
    /// The library names that more than one declared name of the kinds of `group` leads
    /// to, each with all the declared names that lead to it.
    pub fn ambiguous_names(&self, group: KindGroup) -> (r: NameMap<NameSet>)
        requires
            self.wf(),
        ensures
            is_finding(self@, group, &r),
    {
        let mut merged: NameMap<NameSet> = NameMap::new();
        match group {
            KindGroup::NormalDevelopment => {
                merge_table(&mut merged, self.table(DependencyKind::Normal));
                let ghost middle = merged.map();
                merge_table(&mut merged, self.table(DependencyKind::Development));
                assert forall|lib: Seq<char>| #[trigger]
                    held_under(merged.map(), lib) == self@.names_in_group(group, lib) by {
                    assert(held_under(middle, lib) =~= self@.normal.names_under(lib));
                }
            },
            KindGroup::Build => {
                merge_table(&mut merged, self.table(DependencyKind::Build));
                assert forall|lib: Seq<char>| #[trigger]
                    held_under(merged.map(), lib) == self@.names_in_group(group, lib) by {
                    assert(held_under(merged.map(), lib) =~= self@.build.names_under(lib));
                }
            },
        }
        let ghost libs = merged.keys();
        let mut r: NameMap<NameSet> = NameMap::new();
        let mut i: usize = 0;
        while i < merged.len()
            invariant
                name_sets_wf(&merged),
                name_sets_wf(&r),
                libs == merged.keys(),
                i <= libs.len(),
                forall|lib: Seq<char>| #[trigger]
                    r.map().contains_key(lib) <==> libs.take(i as int).contains(lib) && several(
                        held_under(merged.map(), lib),
                    ),
                forall|lib: Seq<char>| #[trigger]
                    r.map().contains_key(lib) ==> r.map()[lib]@ == held_under(merged.map(), lib),
            decreases libs.len() - i,
        {
            let ghost prev = r.map();
            let names = merged.value(i);
            proof {
                merged.lemma_entry(i as int);
                names.lemma_several();
            }
            if names.len() > 1 {
                let mut copy = NameSet::new();
                copy.insert_all(names);
                r.insert(merged.key(i).clone(), copy);
            }
            proof {
                let done = libs.take(i as int);
                let next = libs.take(i + 1);
                assert forall|lib: Seq<char>| #[trigger]
                    r.map().contains_key(lib) <==> next.contains(lib) && several(
                        held_under(merged.map(), lib),
                    ) by {
                    assert(prev.contains_key(lib) <==> done.contains(lib) && several(
                        held_under(merged.map(), lib),
                    ));
                    if next.contains(lib) {
                        let j = next.index_of(lib);
                        if j < i {
                            assert(done[j] == lib);
                        }
                    }
                    if done.contains(lib) {
                        let j = done.index_of(lib);
                        assert(next[j] == lib);
                    }
                    if lib == libs[i as int] {
                        assert(next[i as int] == lib);
                    }
                }
            }
            i += 1;
        }
        proof {
            assert(libs.take(i as int) =~= libs);
            assert forall|lib: Seq<char>| #[trigger]
                r.map().contains_key(lib) <==> self@.ambiguous(group, lib) by {
                assert(held_under(merged.map(), lib) == self@.names_in_group(group, lib));
                if several(held_under(merged.map(), lib)) {
                    assert(merged.map().contains_key(lib));
                }
            }
            assert forall|lib: Seq<char>| #[trigger]
                r.map().contains_key(lib) implies r.map()[lib]@ == self@.names_in_group(
                group,
                lib,
            ) by {
                assert(held_under(merged.map(), lib) == self@.names_in_group(group, lib));
            }
        }
        r
    }
}

impl DependencyNames {
    /// Words the warning about the library names that several declared dependencies of
    /// this package lead to, for the package of label `from_label`. Where there is no
    /// such library name there is no warning.
    pub fn warn_ambiguous(&self, from_label: &str) -> (r: Option<String>)
        requires
            self.wf(),
        ensures
            r is Some <==> exists|group: KindGroup, lib: Seq<char>| #[trigger]
                self@.ambiguous(group, lib),
            r matches Some(warning) ==> exists|
                normal_development: NameMap<NameSet>,
                build: NameMap<NameSet>,
            |
                {
                    &&& #[trigger] is_finding(
                        self@,
                        KindGroup::NormalDevelopment,
                        &normal_development,
                    )
                    &&& #[trigger] is_finding(self@, KindGroup::Build, &build)
                    &&& warning@ == ambiguity_text(
                        from_label@,
                        finding_items(&normal_development),
                        finding_items(&build),
                    ).drop_last()
                },
    {
        let normal_development = self.ambiguous_names(KindGroup::NormalDevelopment);
        let build = self.ambiguous_names(KindGroup::Build);
        proof {
            lemma_finding_items(&normal_development);
            lemma_finding_items(&build);
            if exists|group: KindGroup, lib: Seq<char>| #[trigger] self@.ambiguous(group, lib) {
                let (group, lib) = choose|group: KindGroup, lib: Seq<char>| #[trigger]
                    self@.ambiguous(group, lib);
                match group {
                    KindGroup::NormalDevelopment => {
                        assert(normal_development.map().contains_key(lib));
                    },
                    KindGroup::Build => {
                        assert(build.map().contains_key(lib));
                    },
                }
            }
            if exists|k: Seq<char>| normal_development.map().contains_key(k) {
                let k = choose|k: Seq<char>| normal_development.map().contains_key(k);
                assert(self@.ambiguous(KindGroup::NormalDevelopment, k));
            }
            if exists|k: Seq<char>| build.map().contains_key(k) {
                let k = choose|k: Seq<char>| build.map().contains_key(k);
                assert(self@.ambiguous(KindGroup::Build, k));
            }
        }
        assert(is_finding(self@, KindGroup::NormalDevelopment, &normal_development));
        assert(is_finding(self@, KindGroup::Build, &build));
        ambiguity_warning(from_label, &normal_development, &build)
    }
}

/// How one declared name that shares its library name with another is listed.
pub open spec fn collision_item(dependency: Seq<char>, library: Seq<char>) -> Seq<char> {
    debug_quoted(dependency) + " → "@ + debug_quoted(library)
}

/// The items of the declared names under one library name.
pub open spec fn library_items(library: Seq<char>, names: Seq<Seq<char>>) -> Seq<Seq<char>> {
    Seq::new(names.len(), |j: int| collision_item(names[j], library))
}

/// The items of the first `n` library names, each with its declared names in their
/// order.
pub open spec fn collision_items(libraries: Seq<Seq<char>>, names: Seq<NameSet>, n: int) -> Seq<
    Seq<char>,
>
    decreases n,
{
    if n <= 0 {
        Seq::empty()
    } else {
        collision_items(libraries, names, n - 1) + library_items(
            libraries[n - 1],
            names[n - 1].names(),
        )
    }
}

/// All the items of a finding.
pub open spec fn finding_items(found: &NameMap<NameSet>) -> Seq<Seq<char>> {
    collision_items(found.keys(), found.values(), found.keys().len() as int)
}

/// The full text about what was found, each line ended.
pub open spec fn ambiguity_text(
    from_label: Seq<char>,
    normal_development: Seq<Seq<char>>,
    build: Seq<Seq<char>>,
) -> Seq<char> {
    "Currently `cargo-udeps` cannot distinguish multiple crates with the same `lib` name. This may cause false negative\n`"@
        + from_label + "`\n"@ + branch_text(
        normal_development,
        if build.len() == 0 {
            " "@
        } else {
            "│"@
        },
        if build.len() == 0 {
            "└"@
        } else {
            "├"@
        },
        "(dev-)dependencies"@,
    ) + branch_text(build, " "@, "└"@, "build-dependencies"@)
}

/// A finding in which every library name has several declared names lists something
/// exactly if it holds a library name.
pub proof fn lemma_finding_items(found: &NameMap<NameSet>)
    requires
        name_sets_wf(found),
        forall|k: Seq<char>| #[trigger]
            found.map().contains_key(k) ==> several(found.map()[k]@),
    ensures
        finding_items(found).len() == 0 <==> forall|k: Seq<char>| !found.map().contains_key(k),
{
    let n = found.keys().len() as int;
    if n > 0 {
        found.lemma_entry(n - 1);
        found.values()[n - 1].lemma_several();
        assert(found.map().contains_key(found.keys()[n - 1]));
    } else {
        assert forall|k: Seq<char>| !found.map().contains_key(k) by {}
    }
}

/// The items of two lists of library names with their declared names are the same
/// where the lists agree, name by name and set by set.
proof fn lemma_collision_items_determined(
    libraries: Seq<Seq<char>>,
    a: Seq<NameSet>,
    b: Seq<NameSet>,
    n: int,
)
    requires
        0 <= n <= libraries.len(),
        n <= a.len(),
        n <= b.len(),
        forall|i: int| 0 <= i < n ==> a[i].wf() && b[i].wf() && a[i]@ == b[i]@,
    ensures
        collision_items(libraries, a, n) == collision_items(libraries, b, n),
    decreases n,
{
    if n > 0 {
        lemma_collision_items_determined(libraries, a, b, n - 1);
        a[n - 1].lemma_names_unique(&b[n - 1]);
    }
}

/// The items of a finding, and with them the text of the warning, are determined by
/// what there is to find: two findings of the same are walked in the same order.
pub proof fn lemma_finding_determined(
    names: DependencyNamesView,
    group: KindGroup,
    a: &NameMap<NameSet>,
    b: &NameMap<NameSet>,
)
    requires
        is_finding(names, group, a),
        is_finding(names, group, b),
    ensures
        finding_items(a) == finding_items(b),
{
    assert forall|k: Seq<char>| a.keys().to_set().contains(k) <==> b.keys().to_set().contains(
        k,
    ) by {
        assert(a.map().contains_key(k) <==> names.ambiguous(group, k));
        assert(b.map().contains_key(k) <==> names.ambiguous(group, k));
    }
    assert(a.keys().to_set() =~= b.keys().to_set());
    lemma_ascending_unique(a.keys(), b.keys());
    let n = a.keys().len() as int;
    assert forall|i: int| 0 <= i < n implies a.values()[i].wf() && b.values()[i].wf()
        && a.values()[i]@ == b.values()[i]@ by {
        a.lemma_entry(i);
        b.lemma_entry(i);
    }
    lemma_collision_items_determined(a.keys(), a.values(), b.values(), n);
}

/// Lists the items of a finding.
fn collision_lines(found: &NameMap<NameSet>) -> (r: Vec<String>)
    requires
        name_sets_wf(found),
    ensures
        texts(r@) == finding_items(found),
{
    let mut r: Vec<String> = Vec::new();
    let mut i: usize = 0;
    assert(texts(r@) =~= collision_items(found.keys(), found.values(), 0));
    while i < found.len()
        invariant
            name_sets_wf(found),
            i <= found.keys().len(),
            texts(r@) == collision_items(found.keys(), found.values(), i as int),
        decreases found.keys().len() - i,
    {
        let library = quote(found.key(i).as_str());
        let names = found.value(i);
        let ghost done = texts(r@);
        let ghost items = library_items(found.keys()[i as int], names.names());
        let mut j: usize = 0;
        assert(texts(r@) =~= done + items.take(0));
        while j < names.len()
            invariant
                i < found.keys().len(),
                j <= names.names().len(),
                library@ == debug_quoted(found.keys()[i as int]),
                items == library_items(found.keys()[i as int], names.names()),
                texts(r@) == done + items.take(j as int),
            decreases names.names().len() - j,
        {
            let mut item = quote(names.name(j).as_str());
            item.append(" → ");
            item.append(library.as_str());
            let ghost prev = texts(r@);
            assert(item@ =~= items[j as int]);
            r.push(item);
            j += 1;
            assert(texts(r@) =~= prev.push(items[j - 1]));
            assert(texts(r@) =~= done + items.take(j as int));
        }
        assert(items.take(j as int) =~= items);
        i += 1;
    }
    r
}

/// Words the warning about a finding for the package of label `from_label`, given what
/// was found among its normal and development dependencies and among its build
/// dependencies. Where nothing was found there is no warning. The last line of the
/// warning is not ended.
pub fn ambiguity_warning(
    from_label: &str,
    normal_development: &NameMap<NameSet>,
    build: &NameMap<NameSet>,
) -> (r: Option<String>)
    requires
        name_sets_wf(normal_development),
        name_sets_wf(build),
    ensures
        r is None <==> finding_items(normal_development).len() == 0 && finding_items(
            build,
        ).len() == 0,
        r matches Some(warning) ==> warning@ == ambiguity_text(
            from_label@,
            finding_items(normal_development),
            finding_items(build),
        ).drop_last(),
{
    let first = collision_lines(normal_development);
    let second = collision_lines(build);
    if first.len() == 0 && second.len() == 0 {
        return None;
    }
    let mut text = String::from_str(
        "Currently `cargo-udeps` cannot distinguish multiple crates with the same `lib` name. This may cause false negative\n`",
    );
    text.append(from_label);
    text.append("`\n");
    if second.len() == 0 {
        write_branch(&mut text, &first, " ", "└", "(dev-)dependencies");
    } else {
        write_branch(&mut text, &first, "│", "├", "(dev-)dependencies");
    }
    write_branch(&mut text, &second, " ", "└", "build-dependencies");
    let n = text.as_str().unicode_len();
    proof {
        reveal_strlit("`\n");
        assert(n >= 2);
    }
    let warning = text.as_str().substring_char(0, n - 1).to_owned();
    assert(warning@ =~= text@.drop_last());
    Some(warning)
}

} // verus!
