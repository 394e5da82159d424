//! The tables that say, for one package, under which names each of its declared
//! dependencies can show up in what is compiled.
//!
//! A dependency that has a library is found in two ways: by the alias that the compiler
//! is handed for it, and by the normalized name of the library itself. The two lookups
//! are kept apart. A dependency without a library is found in neither way.

use vstd::prelude::*;
use crate::model::{DependencyKind, PackageId};
use crate::name_map::NameMap;
use crate::name_set::NameSet;
use crate::text::{normalize, normalized};

verus! {

/// The library that a package exposes, as a package depending on it sees it.
pub struct LibraryTarget {
    /// The alias under which the compiler is handed the library.
    pub extern_crate_name: String,
    /// The name of the library target itself.
    pub lib_name: String,
}

/// One dependency that a manifest declares, as resolved.
pub struct DependencyEdge {
    /// The package that declares the dependency.
    pub from: PackageId,
    /// The package that the dependency resolved to.
    pub to: PackageId,
    /// The kind under which it is declared.
    pub kind: DependencyKind,
    /// The name by which the manifest declares it.
    pub name_in_toml: String,
    /// The library of `to`, if it has one.
    pub library: Option<LibraryTarget>,
}

/// What a `LibraryTarget` stands for.
pub struct LibraryView {
    pub alias: Seq<char>,
    pub name: Seq<char>,
}

/// What a `DependencyEdge` stands for.
pub struct EdgeView {
    pub from: PackageId,
    pub to: PackageId,
    pub kind: DependencyKind,
    pub name: Seq<char>,
    pub library: Option<LibraryView>,
}

impl View for LibraryTarget {
    type V = LibraryView;

    open spec fn view(&self) -> LibraryView {
        LibraryView { alias: self.extern_crate_name@, name: self.lib_name@ }
    }
}

impl View for DependencyEdge {
    type V = EdgeView;

    open spec fn view(&self) -> EdgeView {
        EdgeView {
            from: self.from,
            to: self.to,
            kind: self.kind,
            name: self.name_in_toml@,
            library: match self.library {
                Some(lib) => Some(lib@),
                None => None,
            },
        }
    }
}

/// What a list of edges stands for.
pub open spec fn edges_view(edges: Seq<DependencyEdge>) -> Seq<EdgeView> {
    Seq::new(edges.len(), |i: int| edges[i]@)
}

/// What a `NameTable` stands for.
pub struct NameTableView {
    /// From the alias that the compiler is handed to the declared name.
    pub by_alias: Map<Seq<char>, Seq<char>>,
    /// From the normalized name of a library to the declared names that lead to a
    /// library of that name.
    pub by_library_name: Map<Seq<char>, Set<Seq<char>>>,
    /// The declared names of the dependencies without a library.
    pub non_library: Set<Seq<char>>,
}

impl NameTableView {
    /// The table of a package without dependencies.
    pub open spec fn empty() -> NameTableView {
        NameTableView {
            by_alias: Map::empty(),
            by_library_name: Map::empty(),
            non_library: Set::empty(),
        }
    }

    /// The declared names that lead to a library of the normalized name `lib`.
    pub open spec fn names_under(self, lib: Seq<char>) -> Set<Seq<char>> {
        if self.by_library_name.contains_key(lib) {
            self.by_library_name[lib]
        } else {
            Set::empty()
        }
    }

    /// The table with one more edge entered into it.
    pub open spec fn record(self, edge: EdgeView) -> NameTableView {
        match edge.library {
            Some(lib) => NameTableView {
                by_alias: self.by_alias.insert(lib.alias, edge.name),
                by_library_name: self.by_library_name.insert(
                    normalized(lib.name),
                    self.names_under(normalized(lib.name)).insert(edge.name),
                ),
                non_library: self.non_library,
            },
            None => NameTableView {
                by_alias: self.by_alias,
                by_library_name: self.by_library_name,
                non_library: self.non_library.insert(edge.name),
            },
        }
    }

    /// Whether `name` is found under some library name.
    pub open spec fn has_library(self, name: Seq<char>) -> bool {
        exists|lib: Seq<char>| #[trigger] self.names_under(lib).contains(name)
    }

    /// Whether some alias leads to `name`.
    pub open spec fn has_alias(self, name: Seq<char>) -> bool {
        exists|alias: Seq<char>|
            self.by_alias.contains_key(alias) && #[trigger] self.by_alias[alias] == name
    }

    /// The names that the table knows as declared: those that an alias or a library
    /// name leads to, and those without a library.
    pub open spec fn declared(self) -> Set<Seq<char>> {
        Set::new(
            |name: Seq<char>|
                self.has_alias(name) || self.has_library(name) || self.non_library.contains(
                    name,
                ),
        )
    }
}

/// The table of the dependencies of kind `kind` that package `from` declares in `graph`:
/// its edges entered one after the other.
pub open spec fn table_of(
    graph: Seq<EdgeView>,
    from: PackageId,
    kind: DependencyKind,
) -> NameTableView
    decreases graph.len(),
{
    if graph.len() == 0 {
        NameTableView::empty()
    } else {
        let before = table_of(graph.drop_last(), from, kind);
        let edge = graph.last();
        if edge.from == from && edge.kind == kind {
            before.record(edge)
        } else {
            before
        }
    }
}

/// Whether the edge at position `i` of `graph` leaves `from` and is of kind `kind`.
pub open spec fn is_edge_of(
    graph: Seq<EdgeView>,
    from: PackageId,
    kind: DependencyKind,
    i: int,
) -> bool {
    0 <= i < graph.len() && graph[i].from == from && graph[i].kind == kind
}

/// Whether the edge leads to a library that goes by the alias `alias`.
pub open spec fn goes_by(edge: EdgeView, alias: Seq<char>) -> bool {
    edge.library is Some && edge.library->0.alias == alias
}

/// Whether the edge leads to a library of the normalized name `lib`.
pub open spec fn leads_to(edge: EdgeView, lib: Seq<char>) -> bool {
    edge.library is Some && normalized(edge.library->0.name) == lib
}

/// The dependencies without a library of a table are the declared names of the edges of
/// its package and kind that lead to no library.
pub proof fn lemma_non_library(
    graph: Seq<EdgeView>,
    from: PackageId,
    kind: DependencyKind,
    name: Seq<char>,
)
    ensures
        table_of(graph, from, kind).non_library.contains(name) <==> exists|i: int| #[trigger]
            is_edge_of(graph, from, kind, i) && graph[i].library is None && graph[i].name == name,
    decreases graph.len(),
{
    if graph.len() > 0 {
        let rest = graph.drop_last();
        let n = graph.len() - 1;
        lemma_non_library(rest, from, kind, name);
        if exists|i: int| #[trigger]
            is_edge_of(rest, from, kind, i) && rest[i].library is None && rest[i].name == name {
            let i = choose|i: int| #[trigger]
                is_edge_of(rest, from, kind, i) && rest[i].library is None && rest[i].name
                    == name;
            assert(is_edge_of(graph, from, kind, i) && graph[i].library is None && graph[i].name
                == name);
        }
        if exists|i: int| #[trigger]
            is_edge_of(graph, from, kind, i) && graph[i].library is None && graph[i].name == name {
            let i = choose|i: int| #[trigger]
                is_edge_of(graph, from, kind, i) && graph[i].library is None && graph[i].name
                    == name;
            if i < n {
                assert(is_edge_of(rest, from, kind, i) && rest[i].library is None && rest[i].name
                    == name);
            }
        }
        if is_edge_of(graph, from, kind, n) && graph[n].library is None && graph[n].name == name {
            assert(is_edge_of(graph, from, kind, n));
        }
    }
}

/// The declared names that a table holds under a library name are those of the edges of
/// its package and kind that lead to a library of that normalized name.
pub proof fn lemma_names_under(
    graph: Seq<EdgeView>,
    from: PackageId,
    kind: DependencyKind,
    lib: Seq<char>,
    name: Seq<char>,
)
    ensures
        table_of(graph, from, kind).names_under(lib).contains(name) <==> exists|i: int| #[trigger]
            is_edge_of(graph, from, kind, i) && leads_to(graph[i], lib) && graph[i].name == name,
    decreases graph.len(),
{
    if graph.len() > 0 {
        let rest = graph.drop_last();
        let n = graph.len() - 1;
        lemma_names_under(rest, from, kind, lib, name);
        if exists|i: int| #[trigger]
            is_edge_of(rest, from, kind, i) && leads_to(rest[i], lib) && rest[i].name == name {
            let i = choose|i: int| #[trigger]
                is_edge_of(rest, from, kind, i) && leads_to(rest[i], lib) && rest[i].name == name;
            assert(is_edge_of(graph, from, kind, i) && leads_to(graph[i], lib) && graph[i].name
                == name);
        }
        if exists|i: int| #[trigger]
            is_edge_of(graph, from, kind, i) && leads_to(graph[i], lib) && graph[i].name == name {
            let i = choose|i: int| #[trigger]
                is_edge_of(graph, from, kind, i) && leads_to(graph[i], lib) && graph[i].name
                    == name;
            if i < n {
                assert(is_edge_of(rest, from, kind, i) && leads_to(rest[i], lib) && rest[i].name
                    == name);
            }
        }
        if is_edge_of(graph, from, kind, n) && leads_to(graph[n], lib) && graph[n].name == name {
            assert(is_edge_of(graph, from, kind, n));
        }
    }
}

/// Whether position `i` holds the last edge of the package and kind that goes by the
/// alias `alias`.
pub open spec fn is_last_by(
    graph: Seq<EdgeView>,
    from: PackageId,
    kind: DependencyKind,
    alias: Seq<char>,
    i: int,
) -> bool {
    &&& is_edge_of(graph, from, kind, i)
    &&& goes_by(graph[i], alias)
    &&& forall|j: int|
        i < j && #[trigger] is_edge_of(graph, from, kind, j) ==> !goes_by(graph[j], alias)
}

/// The aliases of a table are those of the edges of its package and kind that lead to
/// a library, and each alias leads to the declared name of the last edge that goes by it.
pub proof fn lemma_by_alias(
    graph: Seq<EdgeView>,
    from: PackageId,
    kind: DependencyKind,
    alias: Seq<char>,
)
    ensures
        table_of(graph, from, kind).by_alias.contains_key(alias) <==> exists|i: int| #[trigger]
            is_last_by(graph, from, kind, alias, i),
        forall|i: int| #[trigger]
            is_last_by(graph, from, kind, alias, i) ==> table_of(graph, from, kind).by_alias[alias]
                == graph[i].name,
        forall|i: int|
            is_edge_of(graph, from, kind, i) && goes_by(graph[i], alias) ==> table_of(
                graph,
                from,
                kind,
            ).by_alias.contains_key(alias),
    decreases graph.len(),
{
    if graph.len() > 0 {
        let rest = graph.drop_last();
        let n = graph.len() - 1;
        let last = graph[n];
        lemma_by_alias(rest, from, kind, alias);
        let table = table_of(graph, from, kind);
        let taken = last.from == from && last.kind == kind && goes_by(last, alias);
        if taken {
            assert(is_edge_of(graph, from, kind, n));
            assert(is_last_by(graph, from, kind, alias, n));
        }
        assert forall|i: int| #[trigger]
            is_last_by(graph, from, kind, alias, i) implies table.by_alias[alias] == graph[i].name
            && table.by_alias.contains_key(alias) by {
            if i < n {
                assert(!taken) by {
                    if taken {
                        assert(is_edge_of(graph, from, kind, n));
                    }
                }
                assert(is_edge_of(rest, from, kind, i));
                assert forall|j: int| i < j && #[trigger] is_edge_of(rest, from, kind, j)
                    implies !goes_by(rest[j], alias) by {
                    assert(is_edge_of(graph, from, kind, j));
                }
                assert(is_last_by(rest, from, kind, alias, i));
            }
        }
        if table.by_alias.contains_key(alias) && !taken {
            let i = choose|i: int| #[trigger] is_last_by(rest, from, kind, alias, i);
            assert(is_edge_of(graph, from, kind, i));
            assert forall|j: int| i < j && #[trigger] is_edge_of(graph, from, kind, j)
                implies !goes_by(graph[j], alias) by {
                if j < n {
                    assert(is_edge_of(rest, from, kind, j));
                }
            }
            assert(is_last_by(graph, from, kind, alias, i));
        }
        assert forall|i: int| is_edge_of(graph, from, kind, i) && goes_by(graph[i], alias)
            implies table.by_alias.contains_key(alias) by {
            if i < n {
                assert(is_edge_of(rest, from, kind, i) && goes_by(rest[i], alias));
            }
        }
    }
}

/// A package that no edge of the graph leaves has empty tables.
pub proof fn lemma_no_edges(graph: Seq<EdgeView>, from: PackageId, kind: DependencyKind)
    requires
        forall|i: int| 0 <= i < graph.len() ==> (#[trigger] graph[i]).from != from,
    ensures
        table_of(graph, from, kind) == NameTableView::empty(),
    decreases graph.len(),
{
    if graph.len() > 0 {
        let rest = graph.drop_last();
        assert forall|i: int| 0 <= i < rest.len() implies (#[trigger] rest[i]).from != from by {
            assert(rest[i] == graph[i]);
        }
        lemma_no_edges(rest, from, kind);
        assert(graph.last() == graph[graph.len() - 1]);
    }
}

/// The empty table knows no name as declared.
pub proof fn lemma_empty_declares_nothing(name: Seq<char>)
    ensures
        !NameTableView::empty().declared().contains(name),
{
    let t = NameTableView::empty();
    assert forall|lib: Seq<char>| !(#[trigger] t.names_under(lib)).contains(name) by {}
}

/// Whether a table knows the edge: under its alias and under the normalized name of its
/// library where it has one, and among the dependencies without a library where it has
/// none.
pub open spec fn knows(table: NameTableView, edge: EdgeView) -> bool {
    match edge.library {
        Some(lib) => table.by_alias.contains_key(lib.alias) && table.names_under(
            normalized(lib.name),
        ).contains(edge.name),
        None => table.non_library.contains(edge.name),
    }
}

/// What a table knows it still knows after another edge is entered.
pub proof fn lemma_record_keeps(table: NameTableView, edge: EdgeView, other: EdgeView)
    requires
        knows(table, edge),
    ensures
        knows(table.record(other), edge),
{
}

/// Every edge that leaves a package is known to the table of its kind: to the lookups
/// by alias and by library name where the edge leads to a library, and else to the set
/// of the dependencies without a library. It is then among the declared names.
pub proof fn lemma_edge_recorded(graph: Seq<EdgeView>, from: PackageId, i: int)
    requires
        0 <= i < graph.len(),
        graph[i].from == from,
    ensures
        knows(table_of(graph, from, graph[i].kind), graph[i]),
        table_of(graph, from, graph[i].kind).declared().contains(graph[i].name),
    decreases graph.len(),
{
    let kind = graph[i].kind;
    let rest = graph.drop_last();
    let last = graph.last();
    if i == graph.len() - 1 {
    } else {
        assert(rest[i] == graph[i]);
        lemma_edge_recorded(rest, from, i);
        if last.from == from && last.kind == kind {
            lemma_record_keeps(table_of(rest, from, kind), graph[i], last);
        }
    }
    let table = table_of(graph, from, kind);
    match graph[i].library {
        Some(lib) => {
            assert(table.names_under(normalized(lib.name)).contains(graph[i].name));
            assert(table.has_library(graph[i].name));
        },
        None => {},
    }
}

/// The lookups for the dependencies of one kind of one package.
pub struct NameTable {
    by_alias: NameMap<String>,
    by_library_name: NameMap<NameSet>,
    non_library: NameSet,
}

impl View for NameTable {
    type V = NameTableView;

    closed spec fn view(&self) -> NameTableView {
        NameTableView {
            by_alias: Map::new(
                |k: Seq<char>| self.by_alias.map().contains_key(k),
                |k: Seq<char>| self.by_alias.map()[k]@,
            ),
            by_library_name: Map::new(
                |k: Seq<char>| self.by_library_name.map().contains_key(k),
                |k: Seq<char>| self.by_library_name.map()[k]@,
            ),
            non_library: self.non_library@,
        }
    }
}

impl NameTable {
    /// Each of the three lookups is well formed.
    pub closed spec fn wf(&self) -> bool {
        &&& self.by_alias.wf()
        &&& self.by_library_name.wf()
        &&& forall|k: Seq<char>| #[trigger]
            self.by_library_name.map().contains_key(k) ==> self.by_library_name.map()[k].wf()
        &&& self.non_library.wf()
    }

    /// The table of a package without dependencies.
    pub fn new() -> (t: Self)
        ensures
            t.wf(),
            t@ == NameTableView::empty(),
    {
        let t = NameTable {
            by_alias: NameMap::new(),
            by_library_name: NameMap::new(),
            non_library: NameSet::new(),
        };
        assert(t@.by_alias =~= Map::empty());
        assert(t@.by_library_name =~= Map::empty());
        t
    }

    /// Enters one edge into the table.
    pub fn record(&mut self, edge: &DependencyEdge)
        requires
            old(self).wf(),
        ensures
            final(self).wf(),
            final(self)@ == old(self)@.record(edge@),
    {
        let ghost before = *self;
        match &edge.library {
            Some(lib) => {
                self.by_alias.insert(lib.extern_crate_name.clone(), edge.name_in_toml.clone());
                let key = normalize(lib.lib_name.as_str());
                let ghost k = key@;
                let mut names = match self.by_library_name.remove(key.as_str()) {
                    Some(names) => names,
                    None => NameSet::new(),
                };
                assert(names@ == before@.names_under(k));
                names.insert(edge.name_in_toml.clone());
                self.by_library_name.insert(key, names);
                proof {
                    let goal = before@.record(edge@);
                    assert(self@.by_alias =~= goal.by_alias);
                    assert(self@.by_library_name =~= goal.by_library_name);
                }
            },
            None => {
                self.non_library.insert(edge.name_in_toml.clone());
                proof {
                    let goal = before@.record(edge@);
                    assert(self@.by_alias =~= goal.by_alias);
                    assert(self@.by_library_name =~= goal.by_library_name);
                }
            },
        }
    }

    /// The declared name that the alias `alias` leads to, if any.
    pub fn name_for_alias(&self, alias: &str) -> (r: Option<&String>)
        requires
            self.wf(),
        ensures
            match r {
                Some(name) => self@.by_alias.contains_key(alias@) && name@
                    == self@.by_alias[alias@],
                None => !self@.by_alias.contains_key(alias@),
            },
    {
        self.by_alias.get(alias)
    }

    /// The declared names that lead to a library of the normalized name `lib`, if any.
    pub fn names_for_library(&self, lib: &str) -> (r: Option<&NameSet>)
        requires
            self.wf(),
        ensures
            match r {
                Some(names) => self@.by_library_name.contains_key(lib@) && names@
                    == self@.by_library_name[lib@] && names.wf(),
                None => !self@.by_library_name.contains_key(lib@),
            },
    {
        self.by_library_name.get(lib)
    }

    /// The declared names of the dependencies without a library.
    pub fn non_library(&self) -> (r: &NameSet)
        requires
            self.wf(),
        ensures
            r.wf(),
            r@ == self@.non_library,
    {
        &self.non_library
    }

    /// The library names of the table, in ascending order.
    pub closed spec fn library_names(&self) -> Seq<Seq<char>> {
        self.by_library_name.keys()
    }

    /// The library names in ascending order are the keys of the lookup by library name.
    pub proof fn lemma_library_names(&self)
        requires
            self.wf(),
        ensures
            forall|k: Seq<char>|
                self.library_names().contains(k) <==> self@.by_library_name.contains_key(k),
    {
    }

    /// The number of library names in the table.
    pub fn library_count(&self) -> (n: usize)
        ensures
            n == self.library_names().len(),
    {
        self.by_library_name.len()
    }

    /// The library name at position `i` of the ascending order.
    pub fn library_name(&self, i: usize) -> (r: &String)
        requires
            self.wf(),
            i < self.library_names().len(),
        ensures
            r@ == self.library_names()[i as int],
            self@.by_library_name.contains_key(r@),
    {
        proof {
            self.by_library_name.lemma_entry(i as int);
        }
        self.by_library_name.key(i)
    }

    /// The declared names under the library name at position `i`.
    pub fn library_dependencies(&self, i: usize) -> (r: &NameSet)
        requires
            self.wf(),
            i < self.library_names().len(),
        ensures
            r.wf(),
            r@ == self@.by_library_name[self.library_names()[i as int]],
    {
        proof {
            self.by_library_name.lemma_entry(i as int);
        }
        self.by_library_name.value(i)
    }

    /// The aliases of the table, in ascending order.
    pub closed spec fn aliases(&self) -> Seq<Seq<char>> {
        self.by_alias.keys()
    }

    /// The aliases in ascending order are the keys of the lookup by alias.
    pub proof fn lemma_aliases(&self)
        requires
            self.wf(),
        ensures
            forall|k: Seq<char>| self.aliases().contains(k) <==> self@.by_alias.contains_key(k),
    {
    }

    /// The number of aliases in the table.
    pub fn alias_count(&self) -> (n: usize)
        ensures
            n == self.aliases().len(),
    {
        self.by_alias.len()
    }

    /// The declared name that the alias at position `i` leads to.
    pub fn alias_dependency(&self, i: usize) -> (r: &String)
        requires
            self.wf(),
            i < self.aliases().len(),
        ensures
            self@.by_alias.contains_key(self.aliases()[i as int]),
            r@ == self@.by_alias[self.aliases()[i as int]],
    {
        proof {
            self.by_alias.lemma_entry(i as int);
        }
        self.by_alias.value(i)
    }
}

/// The tables of one package, one for each kind of dependency.
pub struct DependencyNames {
    normal: NameTable,
    development: NameTable,
    build: NameTable,
}

/// What a `DependencyNames` stands for.
pub struct DependencyNamesView {
    pub normal: NameTableView,
    pub development: NameTableView,
    pub build: NameTableView,
}

impl DependencyNamesView {
    /// The table of one kind.
    pub open spec fn table(self, kind: DependencyKind) -> NameTableView {
        match kind {
            DependencyKind::Normal => self.normal,
            DependencyKind::Development => self.development,
            DependencyKind::Build => self.build,
        }
    }

    /// Whether some dependency of some kind has no library.
    pub open spec fn has_non_lib(self) -> bool {
        ||| self.normal.non_library != Set::<Seq<char>>::empty()
        ||| self.development.non_library != Set::<Seq<char>>::empty()
        ||| self.build.non_library != Set::<Seq<char>>::empty()
    }
}

/// The tables of package `from` over the resolved graph `graph`.
pub open spec fn names_of(graph: Seq<EdgeView>, from: PackageId) -> DependencyNamesView {
    DependencyNamesView {
        normal: table_of(graph, from, DependencyKind::Normal),
        development: table_of(graph, from, DependencyKind::Development),
        build: table_of(graph, from, DependencyKind::Build),
    }
}

impl View for DependencyNames {
    type V = DependencyNamesView;

    closed spec fn view(&self) -> DependencyNamesView {
        DependencyNamesView {
            normal: self.normal@,
            development: self.development@,
            build: self.build@,
        }
    }
}

impl DependencyNames {
    /// Each of the three tables is well formed.
    pub closed spec fn wf(&self) -> bool {
        &&& self.normal.wf()
        &&& self.development.wf()
        &&& self.build.wf()
    }

    /// Builds the tables of package `from` out of the resolved graph: every edge that
    /// leaves `from` is entered into the table of its kind, in the order of the graph.
    pub fn new(from: PackageId, graph: &Vec<DependencyEdge>) -> (r: Self)
        ensures
            r.wf(),
            r@ == names_of(edges_view(graph@), from),
    {
        let mut normal = NameTable::new();
        let mut development = NameTable::new();
        let mut build = NameTable::new();
        let ghost all = edges_view(graph@);
        let mut i: usize = 0;
        while i < graph.len()
            invariant
                i <= graph.len(),
                all == edges_view(graph@),
                normal.wf(),
                development.wf(),
                build.wf(),
                normal@ == table_of(all.take(i as int), from, DependencyKind::Normal),
                development@ == table_of(all.take(i as int), from, DependencyKind::Development),
                build@ == table_of(all.take(i as int), from, DependencyKind::Build),
            decreases graph.len() - i,
        {
            let edge = &graph[i];
            proof {
                assert(all.take(i + 1).drop_last() =~= all.take(i as int));
                assert(all.take(i + 1).last() == edge@);
            }
            if edge.from == from {
                match edge.kind {
                    DependencyKind::Normal => normal.record(edge),
                    DependencyKind::Development => development.record(edge),
                    DependencyKind::Build => build.record(edge),
                }
            }
            i += 1;
        }
        assert(all.take(i as int) =~= all);
        DependencyNames { normal, development, build }
    }

    /// The table of one kind.
    pub fn table(&self, kind: DependencyKind) -> (t: &NameTable)
        requires
            self.wf(),
        ensures
            t.wf(),
            t@ == self@.table(kind),
    {
        match kind {
            DependencyKind::Normal => &self.normal,
            DependencyKind::Development => &self.development,
            DependencyKind::Build => &self.build,
        }
    }

    /// Whether some dependency of some kind has no library.
    pub fn has_non_lib(&self) -> (r: bool)
        requires
            self.wf(),
        ensures
            r == self@.has_non_lib(),
    {
        !self.normal.non_library().is_empty() || !self.development.non_library().is_empty()
            || !self.build.non_library().is_empty()
    }
}

} // verus!
