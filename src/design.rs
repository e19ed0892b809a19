//! The design database of a run: records gathered file by file, the
//! hierarchy, and the marking of what the designated top reaches.
use vstd::prelude::*;

use crate::files::FileTable;
use crate::hierarchy::{HierarchyNode, SvHierarchy, build, is_top, top_view, tree_of};
use crate::interfaces;
use crate::modules;
use crate::out::{IdentifierMissing, ModuleView, SvInterface, SvModule, SvPackage};
use crate::packages;
use crate::syntax::{SyntaxTree, missing_spec};
use crate::table::{Table, insert_all, keyed};

verus! {

/// Every module named in the tree below `node`, `node` itself included.
pub open spec fn tree_modules(node: HierarchyNode) -> Set<Seq<char>>
    decreases node, 0int,
{
    set![node.module@].union(children_modules(node.children@, node.children@.len() as int))
}

/// Every module named in the trees of the first `n` children `cs`.
pub open spec fn children_modules(cs: Seq<crate::hierarchy::HierarchyChild>, n: int) -> Set<Seq<char>>
    decreases cs, n,
{
    if n <= 0 || n > cs.len() {
        Set::empty()
    } else {
        children_modules(cs, n - 1).union(tree_modules(cs[n - 1].node))
    }
}

/// `v` marked as reachable from the designated top.
pub open spec fn marked(v: ModuleView) -> ModuleView {
    ModuleView { included: true, ..v }
}

/// `m` with the modules named in `s` marked.
pub open spec fn mark_modules(m: Map<Seq<char>, ModuleView>, s: Set<Seq<char>>) -> Map<Seq<char>, ModuleView> {
    Map::new(
        |k: Seq<char>| m.contains_key(k),
        |k: Seq<char>|
            if s.contains(k) {
                marked(m[k])
            } else {
                m[k]
            },
    )
}

/// Some module named in `s` is defined in the file at `path`.
pub open spec fn defines_one_of(m: Map<Seq<char>, ModuleView>, s: Set<Seq<char>>, path: Seq<char>) -> bool {
    exists|k: Seq<char>| s.contains(k) && m.contains_key(k) && #[trigger] m[k].path == path
}

/// `after` is `before` with each file marked that defines a module of `s`.
pub open spec fn files_marked(
    before: FileTable,
    after: FileTable,
    m: Map<Seq<char>, ModuleView>,
    s: Set<Seq<char>>,
) -> bool {
    &&& after@.len() == before@.len()
    &&& forall|a: int|
        0 <= a < before@.len() ==> (#[trigger] after@[a]).filename == before@[a].filename && after@[a].path
            == before@[a].path && after@[a].included == (before@[a].included || defines_one_of(
            m,
            s,
            before@[a].path,
        ))
}

/// Marks every module named in the tree below `node`, and the files that
/// define them.
fn mark_tree(modules: &mut Table<SvModule>, files: &mut FileTable, node: &HierarchyNode)
    requires
        old(modules).wf(),
        old(files).wf(),
    ensures
        final(modules).wf(),
        final(files).wf(),
        final(modules).names@ == old(modules).names@,
        final(modules)@ == mark_modules(old(modules)@, tree_modules(*node)),
        files_marked(*old(files), *final(files), old(modules)@, tree_modules(*node)),
    decreases node,
{
    let ghost m0 = modules@;
    let ghost f0 = *files;
    let ghost names0 = modules.names@;
    let ghost s0 = set![node.module@];
    match modules.find(&node.module) {
        Some(i) => {
            let ghost before = *modules;
            proof {
                before.lemma_view();
            }
            let mut rec = modules.records.remove(i);
            rec.included = true;
            files.mark(&rec.path);
            modules.records.insert(i, rec);
            proof {
                assert(modules.records@ =~= before.records@.update(i as int, rec));
                Table::lemma_replace_record(before, *modules, i as int, rec);
                assert(rec@ == marked(m0[node.module@]));
                assert(modules@ =~= mark_modules(m0, s0));
                assert forall|a: int| 0 <= a < f0@.len() implies (#[trigger] files@[a]).included == (
                f0@[a].included || defines_one_of(m0, s0, f0@[a].path)) by {
                    if f0@[a].path == rec.path@ {
                        assert(m0[node.module@].path == f0@[a].path);
                    }
                }
            }
        },
        None => {
            proof {
                assert(modules@ =~= mark_modules(m0, s0));
                assert(*files == f0);
            }
        },
    }
    let n = node.children.len();
    let mut j: usize = 0;
    while j < n
        invariant
            modules.wf(),
            files.wf(),
            f0.wf(),
            modules.names@ == names0,
            m0.dom() == modules@.dom(),
            n == node.children@.len(),
            j <= n,
            modules@ == mark_modules(
                m0,
                s0.union(children_modules(node.children@, j as int)),
            ),
            files_marked(f0, *files, m0, s0.union(children_modules(node.children@, j as int))),
        decreases n - j,
    {
        let ghost mid_m = modules@;
        let ghost mid_f = *files;
        let ghost s = s0.union(children_modules(node.children@, j as int));
        let child = &node.children[j].node;
        assert(decreases_to!(*node => *child));
        mark_tree(modules, files, child);
        proof {
            let t = tree_modules(*child);
            let s2 = s0.union(children_modules(node.children@, j + 1));
            assert(s2 =~= s.union(t));
            assert(modules@ =~= mark_modules(m0, s2));
            assert forall|a: int| 0 <= a < f0@.len() implies (#[trigger] files@[a]).included == (
            f0@[a].included || defines_one_of(m0, s2, f0@[a].path)) by {
                let p = f0@[a].path;
                if defines_one_of(mid_m, t, p) {
                    let k = choose|k: Seq<char>| t.contains(k) && mid_m.contains_key(k) && #[trigger] mid_m[k].path == p;
                    assert(m0[k].path == p);
                }
                if defines_one_of(m0, s2, p) {
                    let k = choose|k: Seq<char>| s2.contains(k) && m0.contains_key(k) && #[trigger] m0[k].path == p;
                    if !s.contains(k) {
                        assert(mid_m[k].path == p);
                    }
                }
                if defines_one_of(m0, s, p) {
                    let k = choose|k: Seq<char>| s.contains(k) && m0.contains_key(k) && #[trigger] m0[k].path == p;
                    assert(s2.contains(k));
                }
            }
        }
        j = j + 1;
    }
    proof {
        assert(s0.union(children_modules(node.children@, n as int)) =~= tree_modules(*node));
    }
}

/// Inserting records in order leaves under a name the last record of that
/// name.
pub proof fn lemma_insert_all_last<V>(m: Map<Seq<char>, V>, s: Seq<(Seq<char>, V)>, j: int)
    requires
        0 <= j < s.len(),
        forall|k: int| j < k < s.len() ==> (#[trigger] s[k]).0 != s[j].0,
    ensures
        insert_all(m, s).contains_key(s[j].0),
        insert_all(m, s)[s[j].0] == s[j].1,
    decreases s.len(),
{
    if j < s.len() - 1 {
        lemma_insert_all_last(m, s.drop_last(), j);
        assert(s.last() == s[s.len() - 1]);
    }
}

/// Each module record paired with its name.
pub open spec fn keyed_modules(s: Seq<ModuleView>) -> Seq<(Seq<char>, ModuleView)> {
    s.map_values(|v: ModuleView| (v.name, v))
}

/// When two files define a module of the same name, the table holds the
/// record of the file added second, whole: its ports, parameters, edges and
/// path.
pub proof fn lemma_second_file_wins(
    m: Map<Seq<char>, ModuleView>,
    first: Seq<ModuleView>,
    second: Seq<ModuleView>,
    j: int,
)
    requires
        0 <= j < second.len(),
        forall|k: int| j < k < second.len() ==> (#[trigger] second[k]).name != second[j].name,
    ensures
        insert_all(insert_all(m, keyed_modules(first)), keyed_modules(second))[second[j].name]
            == second[j],
{
    let s = keyed_modules(second);
    assert forall|k: int| j < k < s.len() implies (#[trigger] s[k]).0 != s[j].0 by {
        assert(s[k].0 == second[k].name);
    }
    lemma_insert_all_last(insert_all(m, keyed_modules(first)), s, j);
}

/// Position of the entry named `t` in `h`.
fn entry_position(h: &Vec<(String, SvHierarchy)>, t: &String) -> (r: Option<usize>)
    ensures
        match r {
            Some(a) => a < h@.len() && h@[a as int].0@ == t@,
            None => forall|b: int| 0 <= b < h@.len() ==> (#[trigger] h@[b]).0@ != t@,
        },
{
    let mut a: usize = 0;
    while a < h.len()
        invariant
            a <= h@.len(),
            forall|b: int| 0 <= b < a ==> (#[trigger] h@[b]).0@ != t@,
        decreases h@.len() - a,
    {
        if h[a].0 == *t {
            return Some(a);
        }
        a = a + 1;
    }
    None
}

/// Skipped declarations as (file, node) pairs.
pub open spec fn missing_view(v: Seq<(String, IdentifierMissing)>) -> Seq<(Seq<char>, usize)> {
    v.map_values(|e: (String, IdentifierMissing)| (e.0@, e.1.node))
}

/// Each node of `nodes` paired with the file `path`.
pub open spec fn in_file(path: Seq<char>, nodes: Seq<usize>) -> Seq<(Seq<char>, usize)> {
    nodes.map_values(|n: usize| (path, n))
}

/// The design database: one table per kind of declaration, the source files,
/// the hierarchy, and the declarations skipped for lack of an identifier.
pub struct Design {
    pub modules: Table<SvModule>,
    pub interfaces: Table<SvInterface>,
    pub packages: Table<SvPackage>,
    pub files: FileTable,
    pub hierarchy: Vec<(String, SvHierarchy)>,
    pub missing: Vec<(String, IdentifierMissing)>,
}

impl Design {
    pub open spec fn wf(&self) -> bool {
        &&& self.modules.wf()
        &&& self.interfaces.wf()
        &&& self.packages.wf()
        &&& self.files.wf()
    }

    pub fn new() -> (r: Self)
        ensures
            r.wf(),
            r.modules@ == Map::<Seq<char>, ModuleView>::empty(),
            r.interfaces@.is_empty(),
            r.packages@.is_empty(),
            r.files@.len() == 0,
            r.files.unmarked(),
            r.hierarchy@.len() == 0,
            r.missing@.len() == 0,
    {
        let r = Design {
            modules: Table::new(),
            interfaces: Table::new(),
            packages: Table::new(),
            files: FileTable::new(),
            hierarchy: Vec::new(),
            missing: Vec::new(),
        };
        assert(r.interfaces@ =~= Map::empty());
        assert(r.packages@ =~= Map::empty());
        r
    }

    /// Records the file at `path`, and, when it parsed, every declaration in
    /// its syntax tree: a record replaces an earlier one of the same name.
    pub fn add_file(&mut self, path: &String, tree: Option<&SyntaxTree>)
        requires
            old(self).wf(),
            tree matches Some(t) ==> t.wf(),
        ensures
            final(self).wf(),
            old(self).files.lists(path@) ==> final(self).files@ == old(self).files@,
            !old(self).files.lists(path@) ==> final(self).files@ == old(self).files@.push(
                crate::files::FileEntryView {
                    filename: crate::files::listed_name(path@),
                    path: path@,
                    included: false,
                },
            ),
            old(self).files.unmarked() ==> final(self).files.unmarked(),
            final(self).hierarchy@ == old(self).hierarchy@,
            match tree {
                Some(t) => missing_view(final(self).missing@) == missing_view(old(self).missing@) + in_file(
                    path@,
                    missing_spec(t.nodes@),
                ),
                None => final(self).missing@ == old(self).missing@,
            },
            match tree {
                Some(t) => {
                    &&& final(self).modules@ == insert_all(
                        old(self).modules@,
                        keyed_modules(modules::module_records(t.nodes@, path@, t.nodes@.len() as int)),
                    )
                    &&& final(self).interfaces@ == insert_all(
                        old(self).interfaces@,
                        interfaces::interface_records(t.nodes@, path@, t.nodes@.len() as int).map_values(
                            |v: crate::out::InterfaceView| (v.name, v),
                        ),
                    )
                    &&& final(self).packages@ == insert_all(
                        old(self).packages@,
                        packages::package_records(t.nodes@, path@, t.nodes@.len() as int).map_values(
                            |v: crate::out::PackageView| (v.name, v),
                        ),
                    )
                },
                None => {
                    &&& final(self).modules@ == old(self).modules@
                    &&& final(self).interfaces@ == old(self).interfaces@
                    &&& final(self).packages@ == old(self).packages@
                },
            },
    {
        self.files.add(path);
        match tree {
            Some(t) => {
                let found_modules = modules::parse_tree(t, path);
                let found_interfaces = interfaces::parse_tree(t, path);
                let found_packages = packages::parse_tree(t, path);
                proof {
                    assert(keyed(found_modules@) =~= keyed_modules(
                        modules::module_records(t.nodes@, path@, t.nodes@.len() as int),
                    ));
                    assert(keyed(found_interfaces@) =~= interfaces::interface_records(
                        t.nodes@,
                        path@,
                        t.nodes@.len() as int,
                    ).map_values(|v: crate::out::InterfaceView| (v.name, v)));
                    assert(keyed(found_packages@) =~= packages::package_records(
                        t.nodes@,
                        path@,
                        t.nodes@.len() as int,
                    ).map_values(|v: crate::out::PackageView| (v.name, v)));
                }
                self.modules.insert_all(found_modules);
                self.interfaces.insert_all(found_interfaces);
                self.packages.insert_all(found_packages);
                self.note_missing(path, t.missing_identifiers());
            },
            None => {},
        }
    }

    /// Builds the hierarchy of every top-level module and, when a top module
    /// is designated and defined, marks each module its tree reaches and the
    /// files that define them.
    pub fn finish(&mut self, top_module: Option<&String>)
        requires
            old(self).wf(),
        ensures
            final(self).wf(),
            final(self).interfaces == old(self).interfaces,
            final(self).packages == old(self).packages,
            final(self).modules.names@ == old(self).modules.names@,
            forall|a: int, b: int|
                0 <= a < b < final(self).hierarchy@.len() ==> #[trigger] final(self).hierarchy@[a].0@
                    != #[trigger] final(self).hierarchy@[b].0@,
            forall|n: Seq<char>|
                is_top(old(self).modules@, n, top_view(top_module)) <==> exists|a: int|
                    0 <= a < final(self).hierarchy@.len() && #[trigger] final(self).hierarchy@[a].0@ == n,
            forall|a: int|
                0 <= a < final(self).hierarchy@.len() ==> tree_of(
                    #[trigger] final(self).hierarchy@[a].1.tree,
                    old(self).modules@,
                    final(self).hierarchy@[a].0@,
                    Seq::empty(),
                ),
            forall|a: int|
                0 <= a < final(self).hierarchy@.len() ==> (#[trigger] final(self).hierarchy@[a].1.included
                    <==> top_view(top_module) == Some(final(self).hierarchy@[a].0@)),
            crate::hierarchy::hierarchy_of(final(self).hierarchy@, old(self).modules@, top_view(top_module)),
            top_module is None ==> final(self).modules@ == old(self).modules@ && final(self).files
                == old(self).files,
            top_module is None && old(self).files.unmarked() ==> final(self).files.unmarked(),
            forall|a: int|
                0 <= a < final(self).hierarchy@.len() && top_view(top_module) == Some(
                    #[trigger] final(self).hierarchy@[a].0@,
                ) ==> {
                    &&& final(self).modules@ == mark_modules(
                        old(self).modules@,
                        tree_modules(final(self).hierarchy@[a].1.tree),
                    )
                    &&& files_marked(
                        old(self).files,
                        final(self).files,
                        old(self).modules@,
                        tree_modules(final(self).hierarchy@[a].1.tree),
                    )
                },
            (forall|a: int|
                0 <= a < final(self).hierarchy@.len() ==> top_view(top_module) != Some(
                    #[trigger] final(self).hierarchy@[a].0@,
                )) ==> final(self).modules@ == old(self).modules@ && final(self).files == old(self).files,
    {
        let ghost m0 = self.modules@;
        let h = build(&self.modules, top_module);
        let ghost hv = h@;
        match top_module {
            Some(t) => match entry_position(&h, t) {
                Some(a) => {
                    mark_tree(&mut self.modules, &mut self.files, &h[a].1.tree);
                    assert(top_view(top_module) == Some(h@[a as int].0@));
                },
                None => {},
            },
            None => {},
        }
        self.hierarchy = h;
        assert(self.hierarchy@ == hv);
        assert forall|n: Seq<char>|
            is_top(m0, n, top_view(top_module)) <==> exists|a: int|
                0 <= a < hv.len() && #[trigger] hv[a].0@ == n by {}
    }

    fn note_missing(&mut self, path: &String, found: Vec<IdentifierMissing>)
        ensures
            final(self).modules == old(self).modules,
            final(self).interfaces == old(self).interfaces,
            final(self).packages == old(self).packages,
            final(self).files == old(self).files,
            final(self).hierarchy == old(self).hierarchy,
            missing_view(final(self).missing@) == missing_view(old(self).missing@) + in_file(
                path@,
                crate::syntax::missing_view(found@),
            ),
    {
        let mut i: usize = 0;
        while i < found.len()
            invariant
                i <= found@.len(),
                self.modules == old(self).modules,
                self.interfaces == old(self).interfaces,
                self.packages == old(self).packages,
                self.files == old(self).files,
                self.hierarchy == old(self).hierarchy,
                missing_view(self.missing@) == missing_view(old(self).missing@) + in_file(
                    path@,
                    crate::syntax::missing_view(found@.subrange(0, i as int)),
                ),
            decreases found@.len() - i,
        {
            let ghost before = missing_view(self.missing@);
            self.missing.push((path.clone(), found[i]));
            proof {
                assert(missing_view(self.missing@) =~= before.push((path@, found@[i as int].node)));
                assert(crate::syntax::missing_view(found@.subrange(0, i + 1)) =~= crate::syntax::missing_view(
                    found@.subrange(0, i as int),
                ).push(found@[i as int].node));
                assert(missing_view(self.missing@) =~= missing_view(old(self).missing@) + in_file(
                    path@,
                    crate::syntax::missing_view(found@.subrange(0, i + 1)),
                ));
            }
            i = i + 1;
        }
        assert(found@.subrange(0, i as int) =~= found@);
    }
}

} // verus!
