//! The design hierarchy: top-level modules and the nested trees of their
//! instantiations.
use vstd::prelude::*;

use crate::out::{ModuleView, SubmoduleView, SvModule, submodules_view};
use crate::table::{Table, contains_name, names_view};

verus! {

/// One module of a hierarchy tree.
pub struct HierarchyNode {
    /// The module this node stands for.
    pub module: String,
    /// One child per instance, in the order of the module's edges.
    pub children: Vec<HierarchyChild>,
    /// The module is already on the path from the root: the branch is cut
    /// here and the node is a leaf.
    pub cyclic: bool,
}

/// An instance inside a module, and the tree of its module type.
pub struct HierarchyChild {
    pub instance: String,
    pub node: HierarchyNode,
}

/// Describes the hierarchy of one top-level module.
pub struct SvHierarchy {
    /// The module is the designated top.
    pub included: bool,
    pub tree: HierarchyNode,
}

/// `node` is a leaf for `name`.
pub open spec fn leaf(node: HierarchyNode, name: Seq<char>, cyclic: bool) -> bool {
    &&& node.module@ == name
    &&& node.children@.len() == 0
    &&& node.cyclic == cyclic
}

/// `n` is the type of an instance in some module of `m`.
pub open spec fn is_instantiated(m: Map<Seq<char>, ModuleView>, n: Seq<char>) -> bool {
    exists|k: Seq<char>, j: int|
        m.contains_key(k) && 0 <= j < m[k].submodules.len() && #[trigger] m[k].submodules[j].module
            == n
}

/// `n` heads a hierarchy: it is defined, and either no module instantiates it
/// or it is the designated top.
pub open spec fn is_top(m: Map<Seq<char>, ModuleView>, n: Seq<char>, top: Option<Seq<char>>) -> bool {
    &&& m.contains_key(n)
    &&& (top == Some(n) || !is_instantiated(m, n))
}

/// A path of ancestors: defined modules, none twice.
pub open spec fn valid_path(m: Map<Seq<char>, ModuleView>, path: Seq<Seq<char>>) -> bool {
    &&& path.no_duplicates()
    &&& forall|i: int| 0 <= i < path.len() ==> m.contains_key(#[trigger] path[i])
}

/// `node` is the hierarchy tree of module `name` below the ancestors `path`:
/// an undefined module is a leaf; a defined one has a child per edge, in
/// order, keyed by instance name.
pub open spec fn tree_of(
    node: HierarchyNode,
    m: Map<Seq<char>, ModuleView>,
    name: Seq<char>,
    path: Seq<Seq<char>>,
) -> bool
    decreases m.dom().len() - path.len(), 1int,
    when path.len() < m.dom().len()
{
    if !m.contains_key(name) {
        leaf(node, name, false)
    } else {
        let p = path.push(name);
        let es = m[name].submodules;
        &&& node.module@ == name
        &&& !node.cyclic
        &&& node.children@.len() == es.len()
        &&& forall|i: int| 0 <= i < es.len() ==> child_of(#[trigger] node.children@[i], m, es[i], p)
    }
}

/// `c` is the child for edge `e` below the ancestors `p`: a module already
/// on the path gives a cyclic leaf, an undefined one a plain leaf.
pub open spec fn child_of(
    c: HierarchyChild,
    m: Map<Seq<char>, ModuleView>,
    e: SubmoduleView,
    p: Seq<Seq<char>>,
) -> bool
    decreases m.dom().len() - p.len(), 2int,
{
    &&& c.instance@ == e.instance
    &&& if p.contains(e.module) {
        leaf(c.node, e.module, true)
    } else if !m.contains_key(e.module) {
        leaf(c.node, e.module, false)
    } else {
        tree_of(c.node, m, e.module, p)
    }
}

pub open spec fn top_view(top: Option<&String>) -> Option<Seq<char>> {
    match top {
        Some(t) => Some(t@),
        None => None,
    }
}

/// A path of distinct defined modules that misses one defined module is
/// shorter than the number of defined modules.
pub proof fn lemma_path_bound(m: Map<Seq<char>, ModuleView>, path: Seq<Seq<char>>, name: Seq<char>)
    requires
        m.dom().finite(),
        valid_path(m, path),
        m.contains_key(name),
        !path.contains(name),
    ensures
        path.len() < m.dom().len(),
{
    path.unique_seq_to_set();
    assert(path.to_set().subset_of(m.dom().remove(name)));
    vstd::set_lib::lemma_len_subset(path.to_set(), m.dom().remove(name));
}

/// Recursively builds the tree of the module at position `idx` of `modules`,
/// below the ancestors `path`.
fn build_tree(modules: &Table<SvModule>, idx: usize, path: &mut Vec<String>) -> (r: HierarchyNode)
    requires
        modules.wf(),
        idx < modules.names@.len(),
        valid_path(modules@, names_view(old(path)@)),
        !names_view(old(path)@).contains(modules.keys()[idx as int]),
    ensures
        final(path)@ == old(path)@,
        tree_of(r, modules@, modules.keys()[idx as int], names_view(old(path)@)),
    decreases modules.names@.len() - old(path)@.len(),
{
    let ghost m = modules@;
    let ghost name = modules.keys()[idx as int];
    let ghost path0 = names_view(path@);
    let ghost old_path = path@;
    proof {
        modules.lemma_view();
        lemma_path_bound(m, path0, name);
    }
    let name_s = modules.names[idx].clone();
    path.push(modules.names[idx].clone());
    let ghost p = names_view(path@);
    proof {
        assert(p =~= path0.push(name));
        assert(valid_path(m, p));
    }
    let record = &modules.records[idx];
    let ghost es = submodules_view(record.submodules@);
    assert(es == m[name].submodules);
    let mut children: Vec<HierarchyChild> = Vec::new();
    let n = record.submodules.len();
    let mut j: usize = 0;
    while j < n
        invariant
            modules.wf(),
            m == modules@,
            m.dom().finite(),
            m.dom().len() == modules.names@.len(),
            path@ == old_path.push(modules.names@[idx as int]),
            p == names_view(path@),
            valid_path(m, p),
            p.len() == old_path.len() + 1,
            old_path.len() < modules.names@.len(),
            old_path == old(path)@,
            n == record.submodules@.len(),
            es == submodules_view(record.submodules@),
            j <= n,
            children@.len() == j,
            forall|i: int| 0 <= i < j ==> child_of(#[trigger] children@[i], m, es[i], p),
        decreases n - j,
    {
        let e = &record.submodules[j];
        let ghost ev = es[j as int];
        assert(ev == e@);
        let node = if contains_name(path, &e.module) {
            HierarchyNode { module: e.module.clone(), children: Vec::new(), cyclic: true }
        } else {
            match modules.find(&e.module) {
                Some(k) => {
                    build_tree(modules, k, path)
                },
                None => HierarchyNode { module: e.module.clone(), children: Vec::new(), cyclic: false },
            }
        };
        let child = HierarchyChild { instance: e.instance.clone(), node };
        proof {
            if !p.contains(ev.module) && m.contains_key(ev.module) {
                lemma_path_bound(m, p, ev.module);
            }
            assert(child_of(child, m, ev, p));
        }
        let ghost pushed = child;
        let ghost before = children@;
        children.push(child);
        proof {
            assert forall|i: int| 0 <= i < j + 1 implies child_of(#[trigger] children@[i], m, es[i], p) by {
                if i < j {
                    assert(children@[i] == before[i]);
                } else {
                    assert(children@[i] == pushed);
                }
            }
        }
        j = j + 1;
    }
    path.pop();
    proof {
        assert(path@ =~= old_path);
    }
    HierarchyNode { module: name_s, children, cyclic: false }
}

/// Whether some module of `modules` instantiates `name`.
fn instantiated(modules: &Table<SvModule>, name: &String) -> (r: bool)
    requires
        modules.wf(),
    ensures
        r == is_instantiated(modules@, name@),
{
    let ghost m = modules@;
    proof {
        modules.lemma_view();
    }
    let mut i: usize = 0;
    while i < modules.records.len()
        invariant
            modules.wf(),
            m == modules@,
            i <= modules.records@.len(),
            forall|a: int, j: int|
                0 <= a < i && 0 <= j < modules.records@[a].submodules@.len() ==> #[trigger] modules.records@[a].submodules@[j].module@
                    != name@,
        decreases modules.records@.len() - i,
    {
        let edges = &modules.records[i].submodules;
        let mut j: usize = 0;
        while j < edges.len()
            invariant
                modules.wf(),
                m == modules@,
                i < modules.records@.len(),
                edges == modules.records@[i as int].submodules,
                j <= edges@.len(),
                forall|a: int, b: int|
                    0 <= a < i && 0 <= b < modules.records@[a].submodules@.len() ==> #[trigger] modules.records@[a].submodules@[b].module@
                        != name@,
                forall|b: int| 0 <= b < j ==> #[trigger] edges@[b].module@ != name@,
            decreases edges@.len() - j,
        {
            if edges[j].module == *name {
                proof {
                    modules.lemma_view();
                    let k = modules.keys()[i as int];
                    assert(m[k] == modules.records@[i as int]@);
                    assert(m[k].submodules[j as int].module == name@);
                }
                return true;
            }
            j = j + 1;
        }
        i = i + 1;
    }
    proof {
        assert forall|k: Seq<char>, j: int|
            m.contains_key(k) && 0 <= j < m[k].submodules.len() implies #[trigger] m[k].submodules[j].module
            != name@ by {
            let a = choose|a: int| 0 <= a < modules.keys().len() && modules.keys()[a] == k;
            assert(m[modules.keys()[a]] == modules.records@[a]@);
            assert(modules.records@[a].submodules@[j].module@ != name@);
        }
    }
    false
}

/// Positions in `modules` of the modules that head a hierarchy, in order.
fn top_positions(modules: &Table<SvModule>, top_module: Option<&String>) -> (r: Vec<usize>)
    requires
        modules.wf(),
    ensures
        forall|a: int, b: int| 0 <= a < b < r@.len() ==> #[trigger] r@[a] < #[trigger] r@[b],
        forall|a: int|
            0 <= a < r@.len() ==> #[trigger] r@[a] < modules.names@.len() && is_top(
                modules@,
                modules.keys()[r@[a] as int],
                top_view(top_module),
            ),
        forall|q: int|
            0 <= q < modules.names@.len() && is_top(modules@, #[trigger] modules.keys()[q], top_view(top_module))
                ==> exists|a: int| 0 <= a < r@.len() && r@[a] as int == q,
{
    let ghost m = modules@;
    let ghost top = top_view(top_module);
    proof {
        modules.lemma_view();
    }
    let mut out: Vec<usize> = Vec::new();
    let n = modules.names.len();
    let mut i: usize = 0;
    while i < n
        invariant
            modules.wf(),
            m == modules@,
            top == top_view(top_module),
            n == modules.names@.len(),
            i <= n,
            forall|a: int, b: int| 0 <= a < b < out@.len() ==> #[trigger] out@[a] < #[trigger] out@[b],
            forall|a: int| 0 <= a < out@.len() ==> #[trigger] out@[a] < i,
            forall|a: int| 0 <= a < out@.len() ==> is_top(m, modules.keys()[#[trigger] out@[a] as int], top),
            forall|q: int|
                0 <= q < i && is_top(m, #[trigger] modules.keys()[q], top) ==> exists|a: int|
                    0 <= a < out@.len() && out@[a] as int == q,
        decreases n - i,
    {
        let name = &modules.names[i];
        let designated = match top_module {
            Some(t) => *t == *name,
            None => false,
        };
        if designated || !instantiated(modules, name) {
            proof {
                assert(m.contains_key(modules.keys()[i as int]));
            }
            let ghost before = out@;
            out.push(i);
            proof {
                assert forall|q: int|
                    0 <= q < i + 1 && is_top(m, #[trigger] modules.keys()[q], top) implies exists|a: int|
                    0 <= a < out@.len() && out@[a] as int == q by {
                    if q == i {
                        assert(out@[out@.len() - 1] == q);
                    } else {
                        let a = choose|a: int| 0 <= a < before.len() && before[a] as int == q;
                        assert(out@[a] == before[a]);
                    }
                }
            }
        }
        i = i + 1;
    }
    out
}

/// `r` is the hierarchy of the modules `m` with designated top `top`: one
/// entry per module that heads a hierarchy, each with its tree, marked exactly
/// when it is the designated top.
pub open spec fn hierarchy_of(
    r: Seq<(String, SvHierarchy)>,
    m: Map<Seq<char>, ModuleView>,
    top: Option<Seq<char>>,
) -> bool {
    &&& forall|a: int, b: int| 0 <= a < b < r.len() ==> #[trigger] r[a].0@ != #[trigger] r[b].0@
    &&& forall|n: Seq<char>|
        is_top(m, n, top) <==> exists|a: int| 0 <= a < r.len() && #[trigger] r[a].0@ == n
    &&& forall|a: int| 0 <= a < r.len() ==> tree_of(#[trigger] r[a].1.tree, m, r[a].0@, Seq::empty())
    &&& forall|a: int| 0 <= a < r.len() ==> (#[trigger] r[a].1.included <==> top == Some(r[a].0@))
}

/// Creates the hierarchy of every top-level module of `modules`: each defined
/// module that no module instantiates, plus `top_module` when it is defined.
/// Each entry holds the module's tree, and is marked when it is the
/// designated top.
pub fn build(modules: &Table<SvModule>, top_module: Option<&String>) -> (r: Vec<(String, SvHierarchy)>)
    requires
        modules.wf(),
    ensures
        forall|a: int, b: int|
            0 <= a < b < r@.len() ==> #[trigger] r@[a].0@ != #[trigger] r@[b].0@,
        forall|n: Seq<char>|
            is_top(modules@, n, top_view(top_module)) <==> exists|a: int|
                0 <= a < r@.len() && #[trigger] r@[a].0@ == n,
        forall|a: int|
            0 <= a < r@.len() ==> tree_of(#[trigger] r@[a].1.tree, modules@, r@[a].0@, Seq::empty()),
        forall|a: int|
            0 <= a < r@.len() ==> (#[trigger] r@[a].1.included <==> top_view(top_module) == Some(
                r@[a].0@,
            )),
        hierarchy_of(r@, modules@, top_view(top_module)),
{
    let ghost m = modules@;
    let ghost top = top_view(top_module);
    proof {
        modules.lemma_view();
    }
    let tops = top_positions(modules, top_module);
    let mut out: Vec<(String, SvHierarchy)> = Vec::new();
    let mut j: usize = 0;
    while j < tops.len()
        invariant
            modules.wf(),
            m == modules@,
            top == top_view(top_module),
            j <= tops@.len(),
            out@.len() == j,
            forall|a: int| 0 <= a < tops@.len() ==> #[trigger] tops@[a] < modules.names@.len(),
            forall|a: int| 0 <= a < j ==> (#[trigger] out@[a]).0@ == modules.keys()[tops@[a] as int],
            forall|a: int|
                0 <= a < j ==> tree_of(#[trigger] out@[a].1.tree, m, out@[a].0@, Seq::empty()),
            forall|a: int| 0 <= a < j ==> (#[trigger] out@[a].1.included <==> top == Some(out@[a].0@)),
        decreases tops@.len() - j,
    {
        let i = tops[j];
        let name = &modules.names[i];
        let designated = match top_module {
            Some(t) => *t == *name,
            None => false,
        };
        let mut path: Vec<String> = Vec::new();
        proof {
            assert(names_view(path@) =~= Seq::<Seq<char>>::empty());
        }
        let tree = build_tree(modules, i, &mut path);
        let ghost before = out@;
        out.push((name.clone(), SvHierarchy { included: designated, tree }));
        proof {
            assert(forall|a: int| 0 <= a < j ==> out@[a] == before[a]);
        }
        j = j + 1;
    }
    proof {
        assert forall|a: int, b: int| 0 <= a < b < out@.len() implies #[trigger] out@[a].0@
            != #[trigger] out@[b].0@ by {
            assert(tops@[a] < tops@[b]);
        }
        assert forall|n: Seq<char>|
            is_top(m, n, top) <==> exists|a: int| 0 <= a < out@.len() && #[trigger] out@[a].0@ == n by {
            if is_top(m, n, top) {
                let q = choose|q: int| 0 <= q < modules.keys().len() && modules.keys()[q] == n;
                let a = choose|a: int| 0 <= a < tops@.len() && tops@[a] as int == q;
                assert(out@[a].0@ == n);
            }
            if exists|a: int| 0 <= a < out@.len() && #[trigger] out@[a].0@ == n {
                let a = choose|a: int| 0 <= a < out@.len() && #[trigger] out@[a].0@ == n;
                assert(is_top(m, modules.keys()[tops@[a] as int], top));
            }
        }
    }
    out
}

/// Number of instantiation levels below `node`: 0 for a leaf.
pub open spec fn tree_depth(node: HierarchyNode) -> nat
    decreases node, 0int,
{
    children_depth(node.children@, node.children@.len() as int)
}

/// Deepest level among the first `n` children `cs`, counting the level of
/// the children themselves.
pub open spec fn children_depth(cs: Seq<HierarchyChild>, n: int) -> nat
    decreases cs, n,
{
    if n <= 0 || n > cs.len() {
        0
    } else {
        let d = 1 + tree_depth(cs[n - 1].node);
        let rest = children_depth(cs, n - 1);
        if d > rest {
            d as nat
        } else {
            rest
        }
    }
}

/// Length of the longest chain of instantiations from module `name` that
/// does not return to a module of `path` or of the chain itself.
pub open spec fn inst_depth(m: Map<Seq<char>, ModuleView>, name: Seq<char>, path: Seq<Seq<char>>) -> nat
    decreases m.dom().len() - path.len(), 1int, 0int,
    when path.len() < m.dom().len()
{
    if !m.contains_key(name) {
        0
    } else {
        let es = m[name].submodules;
        edges_depth(m, es, path.push(name), es.len() as int)
    }
}

/// Longest chain of instantiations through the first `n` edges `es` of a
/// module whose ancestors, itself included, are `p`.
pub open spec fn edges_depth(
    m: Map<Seq<char>, ModuleView>,
    es: Seq<SubmoduleView>,
    p: Seq<Seq<char>>,
    n: int,
) -> nat
    decreases m.dom().len() - p.len(), 2int, n,
{
    if n <= 0 || n > es.len() {
        0
    } else {
        let ty = es[n - 1].module;
        let below: nat = if p.contains(ty) || !m.contains_key(ty) {
            0
        } else {
            inst_depth(m, ty, p)
        };
        let rest = edges_depth(m, es, p, n - 1);
        if 1 + below > rest {
            (1 + below) as nat
        } else {
            rest
        }
    }
}

/// A module that no module instantiates heads a hierarchy when no top is
/// designated.
pub proof fn lemma_uninstantiated_is_top(m: Map<Seq<char>, ModuleView>, n: Seq<char>)
    requires
        m.contains_key(n),
        !is_instantiated(m, n),
    ensures
        is_top(m, n, None),
{
}

/// A designated top that is defined heads a hierarchy even when another
/// module instantiates it: the hierarchy has an entry for it, marked, and
/// every other entry is unmarked.
pub proof fn lemma_designated_top(
    r: Seq<(String, SvHierarchy)>,
    m: Map<Seq<char>, ModuleView>,
    t: Seq<char>,
)
    requires
        m.contains_key(t),
        hierarchy_of(r, m, Some(t)),
    ensures
        is_top(m, t, Some(t)),
        exists|a: int| 0 <= a < r.len() && #[trigger] r[a].0@ == t && r[a].1.included,
        forall|a: int| 0 <= a < r.len() && #[trigger] r[a].0@ != t ==> !r[a].1.included,
{
    assert(is_top(m, t, Some(t)));
    let a = choose|a: int| 0 <= a < r.len() && #[trigger] r[a].0@ == t;
    assert(r[a].1.included);
}

/// Builds the tree of module `name` as the root of a hierarchy: its
/// instantiation tree when it is defined, an empty leaf when it is not.
pub fn module_tree(modules: &Table<SvModule>, name: &String) -> (r: HierarchyNode)
    requires
        modules.wf(),
    ensures
        modules@.contains_key(name@) ==> tree_of(r, modules@, name@, Seq::empty()),
        !modules@.contains_key(name@) ==> leaf(r, name@, false),
{
    match modules.find(name) {
        Some(i) => {
            let mut path: Vec<String> = Vec::new();
            proof {
                assert(names_view(path@) =~= Seq::<Seq<char>>::empty());
            }
            build_tree(modules, i, &mut path)
        },
        None => HierarchyNode { module: name.clone(), children: Vec::new(), cyclic: false },
    }
}

/// A defined module without instances has a node without children.
pub proof fn lemma_no_instances_no_children(
    node: HierarchyNode,
    m: Map<Seq<char>, ModuleView>,
    name: Seq<char>,
    path: Seq<Seq<char>>,
)
    requires
        m.dom().finite(),
        valid_path(m, path),
        m.contains_key(name),
        !path.contains(name),
        m[name].submodules.len() == 0,
        tree_of(node, m, name, path),
    ensures
        node.module@ == name,
        node.children@.len() == 0,
        tree_depth(node) == 0,
{
    lemma_path_bound(m, path, name);
}

/// An instance of a module type that is not defined becomes an empty,
/// non-cyclic leaf under its instance name.
pub proof fn lemma_undefined_type_is_leaf(
    node: HierarchyNode,
    m: Map<Seq<char>, ModuleView>,
    name: Seq<char>,
    path: Seq<Seq<char>>,
    i: int,
)
    requires
        m.dom().finite(),
        valid_path(m, path),
        m.contains_key(name),
        !path.contains(name),
        tree_of(node, m, name, path),
        0 <= i < m[name].submodules.len(),
        !m.contains_key(m[name].submodules[i].module),
    ensures
        node.children@.len() == m[name].submodules.len(),
        node.children@[i].instance@ == m[name].submodules[i].instance,
        leaf(node.children@[i].node, m[name].submodules[i].module, false),
{
    lemma_path_bound(m, path, name);
    let p = path.push(name);
    let e = m[name].submodules[i];
    assert(child_of(node.children@[i], m, e, p));
    if p.contains(e.module) {
        let q = choose|q: int| 0 <= q < p.len() && p[q] == e.module;
        if q < path.len() {
            assert(m.contains_key(path[q]));
        }
    }
}

/// The depth of the tree of a defined module equals the length of its
/// longest instantiation chain that revisits no module.
pub proof fn lemma_tree_depth(node: HierarchyNode, m: Map<Seq<char>, ModuleView>, name: Seq<char>, path: Seq<Seq<char>>)
    requires
        m.dom().finite(),
        valid_path(m, path),
        m.contains_key(name),
        !path.contains(name),
        tree_of(node, m, name, path),
    ensures
        tree_depth(node) == inst_depth(m, name, path),
    decreases m.dom().len() - path.len(), 1int, 0int,
{
    lemma_path_bound(m, path, name);
    lemma_children_depth(node, m, name, path, node.children@.len() as int);
}

/// The tree of a top-level module is as deep as the longest instantiation
/// chain from it that revisits no module.
pub proof fn lemma_top_tree_depth(node: HierarchyNode, m: Map<Seq<char>, ModuleView>, name: Seq<char>)
    requires
        m.dom().finite(),
        m.contains_key(name),
        tree_of(node, m, name, Seq::empty()),
    ensures
        tree_depth(node) == inst_depth(m, name, Seq::empty()),
{
    lemma_tree_depth(node, m, name, Seq::empty());
}

proof fn lemma_children_depth(
    node: HierarchyNode,
    m: Map<Seq<char>, ModuleView>,
    name: Seq<char>,
    path: Seq<Seq<char>>,
    n: int,
)
    requires
        m.dom().finite(),
        valid_path(m, path),
        m.contains_key(name),
        !path.contains(name),
        path.len() < m.dom().len(),
        tree_of(node, m, name, path),
        0 <= n <= node.children@.len(),
    ensures
        node.children@.len() == m[name].submodules.len(),
        children_depth(node.children@, n) == edges_depth(m, m[name].submodules, path.push(name), n),
    decreases m.dom().len() - path.len() - 1, 2int, n,
{
    let p = path.push(name);
    assert(valid_path(m, p)) by {
        assert forall|q: int| 0 <= q < p.len() implies m.contains_key(#[trigger] p[q]) by {
            if q < path.len() {
                assert(p[q] == path[q]);
            }
        }
    }
    if n > 0 {
        lemma_children_depth(node, m, name, path, n - 1);
        let es = m[name].submodules;
        let e = es[n - 1];
        let c = node.children@[n - 1];
        assert(child_of(c, m, e, p));
        if !p.contains(e.module) && m.contains_key(e.module) {
            lemma_path_bound(m, p, e.module);
            assert(tree_of(c.node, m, e.module, p));
            lemma_tree_depth(c.node, m, e.module, p);
        } else {
            assert(c.node.children@.len() == 0);
            assert(children_depth(c.node.children@, 0) == 0);
            assert(tree_depth(c.node) == 0);
        }
        assert(c == node.children@[n - 1]);
    }
}

/// A tree is never deeper than the number of defined modules minus the
/// ancestors above it: every path through it visits each module once.
pub proof fn lemma_depth_bound(m: Map<Seq<char>, ModuleView>, name: Seq<char>, path: Seq<Seq<char>>)
    requires
        m.dom().finite(),
        valid_path(m, path),
        m.contains_key(name),
        !path.contains(name),
    ensures
        path.len() < m.dom().len(),
        inst_depth(m, name, path) <= m.dom().len() - path.len(),
    decreases m.dom().len() - path.len(), 1int, 0int,
{
    lemma_path_bound(m, path, name);
    let es = m[name].submodules;
    lemma_edges_depth_bound(m, name, path, es.len() as int);
}

proof fn lemma_edges_depth_bound(m: Map<Seq<char>, ModuleView>, name: Seq<char>, path: Seq<Seq<char>>, n: int)
    requires
        m.dom().finite(),
        valid_path(m, path),
        m.contains_key(name),
        !path.contains(name),
        path.len() < m.dom().len(),
        0 <= n <= m[name].submodules.len(),
    ensures
        edges_depth(m, m[name].submodules, path.push(name), n) <= m.dom().len() - path.len(),
    decreases m.dom().len() - path.len() - 1, 2int, n,
{
    let p = path.push(name);
    assert(valid_path(m, p)) by {
        assert forall|q: int| 0 <= q < p.len() implies m.contains_key(#[trigger] p[q]) by {
            if q < path.len() {
                assert(p[q] == path[q]);
            }
        }
    }
    if n > 0 {
        lemma_edges_depth_bound(m, name, path, n - 1);
        let ty = m[name].submodules[n - 1].module;
        if !p.contains(ty) && m.contains_key(ty) {
            lemma_depth_bound(m, ty, p);
        }
    }
}

/// The tree of a top-level module is at most as deep as the number of
/// defined modules, whatever cycles the instantiations form.
pub proof fn lemma_tree_bounded(node: HierarchyNode, m: Map<Seq<char>, ModuleView>, name: Seq<char>)
    requires
        m.dom().finite(),
        m.contains_key(name),
        tree_of(node, m, name, Seq::empty()),
    ensures
        tree_depth(node) <= m.dom().len(),
{
    let path = Seq::<Seq<char>>::empty();
    lemma_tree_depth(node, m, name, path);
    lemma_depth_bound(m, name, path);
}

/// Two modules that instantiate each other: below the first, the instance of
/// the second holds the instance of the first as a leaf marked cyclic.
pub proof fn lemma_mutual_instantiation_cut(
    node: HierarchyNode,
    m: Map<Seq<char>, ModuleView>,
    a: Seq<char>,
    b: Seq<char>,
    i: int,
    j: int,
)
    requires
        m.dom().finite(),
        m.contains_key(a),
        m.contains_key(b),
        a != b,
        0 <= i < m[a].submodules.len(),
        m[a].submodules[i].module == b,
        0 <= j < m[b].submodules.len(),
        m[b].submodules[j].module == a,
        tree_of(node, m, a, Seq::empty()),
    ensures
        node.children@[i].node.module@ == b,
        node.children@[i].node.children@[j].instance@ == m[b].submodules[j].instance,
        leaf(node.children@[i].node.children@[j].node, a, true),
{
    let path = Seq::<Seq<char>>::empty();
    lemma_path_bound(m, path, a);
    let p = path.push(a);
    assert(child_of(node.children@[i], m, m[a].submodules[i], p));
    assert(!p.contains(b)) by {
        assert(p[0] == a);
    }
    assert(valid_path(m, p)) by {
        assert(p[0] == a);
    }
    lemma_path_bound(m, p, b);
    let child = node.children@[i].node;
    assert(tree_of(child, m, b, p));
    let p_b = p.push(b);
    assert(child_of(child.children@[j], m, m[b].submodules[j], p_b));
    assert(p_b[0] == a);
}

/// A branch cut at a cycle: module `parent` instantiates `module` as
/// `instance`, while `module` is already on the path above.
pub struct Cycle {
    pub parent: String,
    pub instance: String,
    pub module: String,
}

pub open spec fn cycles_view(v: Seq<Cycle>) -> Seq<(Seq<char>, Seq<char>, Seq<char>)> {
    v.map_values(|c: Cycle| (c.parent@, c.instance@, c.module@))
}

/// The cycles cut in the tree below `node`, in pre-order.
pub open spec fn tree_cycles(node: HierarchyNode) -> Seq<(Seq<char>, Seq<char>, Seq<char>)>
    decreases node, 0int,
{
    children_cycles(node.module@, node.children@, node.children@.len() as int)
}

/// The cycles cut among the first `n` children `cs` of module `parent` and
/// below them.
pub open spec fn children_cycles(parent: Seq<char>, cs: Seq<HierarchyChild>, n: int) -> Seq<
    (Seq<char>, Seq<char>, Seq<char>),
>
    decreases cs, n,
{
    if n <= 0 || n > cs.len() {
        Seq::empty()
    } else {
        let c = cs[n - 1];
        let here = if c.node.cyclic {
            seq![(parent, c.instance@, c.node.module@)]
        } else {
            Seq::empty()
        };
        children_cycles(parent, cs, n - 1) + here + tree_cycles(c.node)
    }
}

/// Appends the cycles cut below `node` to `out`.
fn collect_cycles(node: &HierarchyNode, out: &mut Vec<Cycle>)
    ensures
        cycles_view(final(out)@) == cycles_view(old(out)@) + tree_cycles(*node),
    decreases node,
{
    let n = node.children.len();
    let mut j: usize = 0;
    assert(cycles_view(out@) =~= cycles_view(old(out)@) + children_cycles(node.module@, node.children@, 0));
    while j < n
        invariant
            n == node.children@.len(),
            j <= n,
            cycles_view(out@) == cycles_view(old(out)@) + children_cycles(node.module@, node.children@, j as int),
        decreases n - j,
    {
        let c = &node.children[j];
        let ghost before = cycles_view(out@);
        if c.node.cyclic {
            out.push(
                Cycle { parent: node.module.clone(), instance: c.instance.clone(), module: c.node.module.clone() },
            );
        }
        let ghost mid = cycles_view(out@);
        assert(decreases_to!(*node => c.node));
        collect_cycles(&c.node, out);
        proof {
            let here = if c.node.cyclic {
                seq![(node.module@, c.instance@, c.node.module@)]
            } else {
                Seq::empty()
            };
            assert(mid =~= before + here);
            assert(cycles_view(out@) =~= cycles_view(old(out)@) + children_cycles(node.module@, node.children@, j + 1));
        }
        j = j + 1;
    }
}

impl HierarchyNode {
    /// The cycles cut in this tree, in pre-order.
    pub fn cycles(&self) -> (r: Vec<Cycle>)
        ensures
            cycles_view(r@) == tree_cycles(*self),
    {
        let mut out: Vec<Cycle> = Vec::new();
        collect_cycles(self, &mut out);
        assert(cycles_view(out@) =~= tree_cycles(*self));
        out
    }
}

proof fn lemma_children_cycles_contain(parent: Seq<char>, cs: Seq<HierarchyChild>, n: int, k: int)
    requires
        0 <= k < n <= cs.len(),
    ensures
        cs[k].node.cyclic ==> children_cycles(parent, cs, n).contains(
            (parent, cs[k].instance@, cs[k].node.module@),
        ),
        forall|x| #[trigger] tree_cycles(cs[k].node).contains(x) ==> children_cycles(parent, cs, n).contains(x),
    decreases n,
{
    let c = cs[n - 1];
    let here = if c.node.cyclic {
        seq![(parent, c.instance@, c.node.module@)]
    } else {
        Seq::empty()
    };
    let prev = children_cycles(parent, cs, n - 1);
    let all = children_cycles(parent, cs, n);
    assert(all == prev + here + tree_cycles(c.node));
    if k < n - 1 {
        lemma_children_cycles_contain(parent, cs, n - 1, k);
        assert forall|x| prev.contains(x) implies all.contains(x) by {
            let q = choose|q: int| 0 <= q < prev.len() && prev[q] == x;
            assert(all[q] == x);
        }
    } else {
        if c.node.cyclic {
            assert(all[prev.len() as int] == (parent, c.instance@, c.node.module@));
        }
        assert forall|x| #[trigger] tree_cycles(c.node).contains(x) implies all.contains(x) by {
            let q = choose|q: int| 0 <= q < tree_cycles(c.node).len() && tree_cycles(c.node)[q] == x;
            assert(all[prev.len() + here.len() + q] == x);
        }
    }
}

/// Two modules that instantiate each other: the tree of the first reports
/// the cycle where the second instantiates the first.
pub proof fn lemma_mutual_instantiation_reported(
    node: HierarchyNode,
    m: Map<Seq<char>, ModuleView>,
    a: Seq<char>,
    b: Seq<char>,
    i: int,
    j: int,
)
    requires
        m.dom().finite(),
        m.contains_key(a),
        m.contains_key(b),
        a != b,
        0 <= i < m[a].submodules.len(),
        m[a].submodules[i].module == b,
        0 <= j < m[b].submodules.len(),
        m[b].submodules[j].module == a,
        tree_of(node, m, a, Seq::empty()),
    ensures
        tree_cycles(node).contains((b, m[b].submodules[j].instance, a)),
{
    lemma_mutual_instantiation_cut(node, m, a, b, i, j);
    lemma_path_bound(m, Seq::empty(), a);
    let child = node.children@[i].node;
    assert(node.children@.len() == m[a].submodules.len());
    lemma_path_bound(m, seq![a], b);
    assert(tree_of(child, m, b, Seq::empty().push(a))) by {
        assert(child_of(node.children@[i], m, m[a].submodules[i], Seq::empty().push(a)));
        assert(Seq::<Seq<char>>::empty().push(a)[0] == a);
    }
    assert(child.children@.len() == m[b].submodules.len());
    let x = (b, m[b].submodules[j].instance, a);
    lemma_children_cycles_contain(b, child.children@, child.children@.len() as int, j);
    assert(tree_cycles(child) == children_cycles(b, child.children@, child.children@.len() as int));
    assert(tree_cycles(child).contains(x));
    lemma_children_cycles_contain(a, node.children@, node.children@.len() as int, i);
    assert(node.module@ == a);
    assert(tree_cycles(node) == children_cycles(a, node.children@, node.children@.len() as int));
}

} // verus!
