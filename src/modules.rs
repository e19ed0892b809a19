//! Module declarations: parameters, ports and instantiation edges.
use vstd::prelude::*;

use crate::out::{
    ModuleView, Parameter, ParameterView, Submodule, SubmoduleView, SvModule, parameters_view,
    submodules_view,
};
use crate::ports::{get_ports, ports_spec};
use crate::syntax::{
    NodeKind, SyntaxNode, SyntaxTree, end_of, gathered, identifier, identifier_under, text_under,
};
use crate::text::{trim, trimmed};

verus! {

/// The parameter assigned at node `k`, if it is a parameter assignment that
/// names its parameter.
pub open spec fn parameter_item(nodes: Seq<SyntaxNode>) -> spec_fn(int) -> Seq<ParameterView> {
    |k: int|
        if nodes[k].kind == NodeKind::ParamAssignment {
            match identifier_under(nodes, k, NodeKind::ParameterIdentifier) {
                Some(name) => seq![
                    ParameterView {
                        dimension: text_under(nodes, k, NodeKind::UnpackedDimension),
                        name: trimmed(name),
                        value: text_under(nodes, k, NodeKind::ConstantParamExpression),
                    },
                ],
                None => Seq::empty(),
            }
        } else {
            Seq::empty()
        }
}

/// One parameter per assignment of the parameter declaration at node `j`.
pub open spec fn declared_parameters(nodes: Seq<SyntaxNode>, j: int) -> Seq<ParameterView> {
    gathered(j, end_of(nodes, j), parameter_item(nodes))
}

/// The parameters of node `j` if it is a (non-local) parameter declaration.
pub open spec fn parameters_item(nodes: Seq<SyntaxNode>) -> spec_fn(int) -> Seq<ParameterView> {
    |j: int|
        if nodes[j].kind == NodeKind::ParameterDeclaration {
            declared_parameters(nodes, j)
        } else {
            Seq::empty()
        }
}

/// Parameters declared in the subtree of node `i`, in order.
pub open spec fn parameters_spec(nodes: Seq<SyntaxNode>, i: int) -> Seq<ParameterView> {
    gathered(i, end_of(nodes, i), parameters_item(nodes))
}

/// The edge of instance node `q` of an instantiation of `module`.
pub open spec fn instance_item(nodes: Seq<SyntaxNode>, module: Seq<char>) -> spec_fn(int) -> Seq<SubmoduleView> {
    |q: int|
        if nodes[q].kind == NodeKind::InstanceIdentifier {
            match identifier(nodes, q) {
                Some(instance) => seq![SubmoduleView { instance, module }],
                None => Seq::empty(),
            }
        } else {
            Seq::empty()
        }
}

/// One edge per instance of the instantiation at node `j`; none when it
/// does not name its module type.
pub open spec fn instantiation_edges(nodes: Seq<SyntaxNode>, j: int) -> Seq<SubmoduleView> {
    match identifier_under(nodes, j, NodeKind::ModuleIdentifier) {
        Some(module) => gathered(j, end_of(nodes, j), instance_item(nodes, module)),
        None => Seq::empty(),
    }
}

/// The edges of node `j` if it is an instantiation.
pub open spec fn edges_item(nodes: Seq<SyntaxNode>) -> spec_fn(int) -> Seq<SubmoduleView> {
    |j: int|
        if nodes[j].kind == NodeKind::ModuleInstantiation {
            instantiation_edges(nodes, j)
        } else {
            Seq::empty()
        }
}

/// Every instantiation edge in the subtree of node `i`, in order.
pub open spec fn edge_list(nodes: Seq<SyntaxNode>, i: int) -> Seq<SubmoduleView> {
    gathered(i, end_of(nodes, i), edges_item(nodes))
}

/// Position of the edge with instance name `instance` in `s`.
pub open spec fn edge_position(s: Seq<SubmoduleView>, instance: Seq<char>) -> Option<int>
    decreases s.len(),
{
    if s.len() == 0 {
        None
    } else if s.last().instance == instance {
        Some(s.len() - 1)
    } else {
        edge_position(s.drop_last(), instance)
    }
}

/// `s` with edge `e` added; an edge with the same instance name is replaced
/// in place.
pub open spec fn insert_edge(s: Seq<SubmoduleView>, e: SubmoduleView) -> Seq<SubmoduleView> {
    match edge_position(s, e.instance) {
        Some(k) => s.update(k, e),
        None => s.push(e),
    }
}

/// The edges of `s` keyed by instance name: each added in order, a later
/// edge replacing an earlier one of the same instance.
pub open spec fn keyed_edges(s: Seq<SubmoduleView>) -> Seq<SubmoduleView>
    decreases s.len(),
{
    if s.len() == 0 {
        Seq::empty()
    } else {
        insert_edge(keyed_edges(s.drop_last()), s.last())
    }
}

/// The module declared at node `i` of a file at `path`; `None` when it does
/// not name itself.
pub open spec fn module_spec(nodes: Seq<SyntaxNode>, i: int, path: Seq<char>) -> Option<ModuleView> {
    match identifier_under(nodes, i, NodeKind::ModuleIdentifier) {
        Some(name) => Some(
            ModuleView {
                name: trimmed(name),
                parameters: parameters_spec(nodes, i),
                ports: ports_spec(nodes, i),
                endname: trimmed(name),
                included: false,
                path,
                submodules: keyed_edges(edge_list(nodes, i)),
            },
        ),
        None => None,
    }
}

/// Modules declared at nodes `0 .. n`, in order.
pub open spec fn module_records(nodes: Seq<SyntaxNode>, path: Seq<char>, n: int) -> Seq<ModuleView>
    decreases n,
{
    if n <= 0 {
        Seq::empty()
    } else if nodes[n - 1].kind == NodeKind::ModuleDeclaration && module_spec(
        nodes,
        n - 1,
        path,
    ) is Some {
        module_records(nodes, path, n - 1).push(module_spec(nodes, n - 1, path)->0)
    } else {
        module_records(nodes, path, n - 1)
    }
}

/// All non-local parameters declared in the subtree of node `i`: one per
/// assignment that names its parameter.
pub fn get_params(tree: &SyntaxTree, i: usize) -> (r: Vec<Parameter>)
    requires
        tree.wf(),
        i < tree.nodes@.len(),
    ensures
        parameters_view(r@) == parameters_spec(tree.nodes@, i as int),
{
    let ghost nodes = tree.nodes@;
    let hi = tree.nodes[i].end;
    let mut params: Vec<Parameter> = Vec::new();
    let mut j: usize = i;
    assert(parameters_view(params@) =~= gathered(i as int, i as int, parameters_item(nodes)));
    while j < hi
        invariant
            tree.wf(),
            nodes == tree.nodes@,
            i <= j <= hi,
            hi == end_of(nodes, i as int),
            hi <= nodes.len(),
            parameters_view(params@) == gathered(i as int, j as int, parameters_item(nodes)),
        decreases hi - j,
    {
        let ghost outer = parameters_view(params@);
        if tree.nodes[j].kind == NodeKind::ParameterDeclaration {
            let end = tree.nodes[j].end;
            let mut k: usize = j;
            assert(parameters_view(params@) =~= outer + gathered(j as int, j as int, parameter_item(nodes)));
            while k < end
                invariant
                    tree.wf(),
                    nodes == tree.nodes@,
                    j <= k <= end,
                    end == end_of(nodes, j as int),
                    end <= nodes.len(),
                    parameters_view(params@) == outer + gathered(j as int, k as int, parameter_item(nodes)),
                decreases end - k,
            {
                let ghost before = parameters_view(params@);
                if tree.nodes[k].kind == NodeKind::ParamAssignment {
                    match tree.identifier_under(k, NodeKind::ParameterIdentifier) {
                        Some(name) => {
                            let name = trim(name.as_str());
                            let dimension = tree.text_under(k, NodeKind::UnpackedDimension);
                            let value = tree.text_under(k, NodeKind::ConstantParamExpression);
                            params.push(Parameter { dimension, name, value });
                        },
                        None => {},
                    }
                }
                assert(parameters_view(params@) =~= before + parameter_item(nodes)(k as int));
                assert(outer + gathered(j as int, k + 1, parameter_item(nodes)) =~= before + parameter_item(
                    nodes,
                )(k as int));
                k = k + 1;
            }
        }
        assert(parameters_view(params@) =~= outer + parameters_item(nodes)(j as int));
        j = j + 1;
    }
    params
}

/// Adds edge `e` to `edges`, replacing the edge with the same instance name.
pub fn insert_submodule(edges: &mut Vec<Submodule>, e: Submodule)
    ensures
        submodules_view(final(edges)@) == insert_edge(submodules_view(old(edges)@), e@),
{
    let ghost s = submodules_view(edges@);
    let ghost ev = e@;
    let mut k: usize = edges.len();
    assert(s.subrange(0, k as int) =~= s);
    while k > 0
        invariant
            k <= edges@.len(),
            s == submodules_view(edges@),
            ev == e@,
            edges@ == old(edges)@,
            edge_position(s, e.instance@) == edge_position(s.subrange(0, k as int), e.instance@),
        decreases k,
    {
        assert(s.subrange(0, k as int).drop_last() =~= s.subrange(0, k - 1));
        if edges[k - 1].instance == e.instance {
            assert(s.subrange(0, k as int).last() == s[k - 1]);
            assert(edge_position(s, e.instance@) == Some(k - 1));
            let ghost before = edges@;
            let ghost ev_exec = e;
            edges.set(k - 1, e);
            proof {
                let t = s.update(k - 1, ev);
                assert forall|j: int| 0 <= j < edges@.len() implies submodules_view(edges@)[j] == t[j] by {
                    assert(submodules_view(edges@)[j] == edges@[j]@);
                    if j != k - 1 {
                        assert(edges@[j] == before[j]);
                        assert(s[j] == before[j]@);
                    } else {
                        assert(edges@[j] == ev_exec);
                    }
                }
                assert(submodules_view(edges@) =~= t);
            }
            return;
        }
        k = k - 1;
    }
    edges.push(e);
    proof {
        assert(submodules_view(edges@) =~= s.push(ev));
    }
}

/// Instantiation edges in the subtree of node `i`, keyed by instance name:
/// for each instance of each instantiation, the instance identifier and the
/// instantiated type.
pub fn get_submodules(tree: &SyntaxTree, i: usize) -> (r: Vec<Submodule>)
    requires
        tree.wf(),
        i < tree.nodes@.len(),
    ensures
        submodules_view(r@) == keyed_edges(edge_list(tree.nodes@, i as int)),
{
    let ghost nodes = tree.nodes@;
    let hi = tree.nodes[i].end;
    let mut edges: Vec<Submodule> = Vec::new();
    let mut j: usize = i;
    assert(submodules_view(edges@) =~= keyed_edges(gathered(i as int, i as int, edges_item(nodes))));
    while j < hi
        invariant
            tree.wf(),
            nodes == tree.nodes@,
            i <= j <= hi,
            hi == end_of(nodes, i as int),
            hi <= nodes.len(),
            submodules_view(edges@) == keyed_edges(gathered(i as int, j as int, edges_item(nodes))),
        decreases hi - j,
    {
        let ghost outer = gathered(i as int, j as int, edges_item(nodes));
        if tree.nodes[j].kind == NodeKind::ModuleInstantiation {
            match tree.identifier_under(j, NodeKind::ModuleIdentifier) {
                Some(module) => {
                    let ghost item = instance_item(nodes, module@);
                    let end = tree.nodes[j].end;
                    let mut q: usize = j;
                    assert(outer + gathered(j as int, j as int, item) =~= outer);
                    while q < end
                        invariant
                            tree.wf(),
                            nodes == tree.nodes@,
                            j <= q <= end,
                            end == end_of(nodes, j as int),
                            end <= nodes.len(),
                            item == instance_item(nodes, module@),
                            submodules_view(edges@) == keyed_edges(outer + gathered(j as int, q as int, item)),
                        decreases end - q,
                    {
                        let ghost flat = outer + gathered(j as int, q as int, item);
                        if tree.nodes[q].kind == NodeKind::InstanceIdentifier {
                            match tree.identifier(q) {
                                Some(instance) => {
                                    let e = Submodule { instance, module: module.clone() };
                                    let ghost ev = e@;
                                    insert_submodule(&mut edges, e);
                                    assert(flat.push(ev).drop_last() =~= flat);
                                    assert(outer + gathered(j as int, q + 1, item) =~= flat.push(ev));
                                },
                                None => {
                                    assert(outer + gathered(j as int, q + 1, item) =~= flat);
                                },
                            }
                        } else {
                            assert(outer + gathered(j as int, q + 1, item) =~= flat);
                        }
                        q = q + 1;
                    }
                    assert(gathered(i as int, j + 1, edges_item(nodes)) =~= outer + gathered(
                        j as int,
                        end as int,
                        item,
                    ));
                },
                None => {
                    assert(gathered(i as int, j + 1, edges_item(nodes)) =~= outer);
                },
            }
        } else {
            assert(gathered(i as int, j + 1, edges_item(nodes)) =~= outer);
        }
        j = j + 1;
    }
    edges
}

/// The module declared at node `i`.
fn module_at(tree: &SyntaxTree, i: usize, path: &String) -> (r: Option<SvModule>)
    requires
        tree.wf(),
        i < tree.nodes@.len(),
    ensures
        match r {
            Some(m) => module_spec(tree.nodes@, i as int, path@) == Some(m@),
            None => module_spec(tree.nodes@, i as int, path@) is None,
        },
{
    let name = match tree.identifier_under(i, NodeKind::ModuleIdentifier) {
        Some(name) => trim(name.as_str()),
        None => return None,
    };
    let parameters = get_params(tree, i);
    let ports = get_ports(tree, i);
    let submodules = get_submodules(tree, i);
    let endname = name.clone();
    Some(SvModule { name, parameters, ports, endname, included: false, path: path.clone(), submodules })
}

/// Every module declared in `tree`, a file at `path`, in order; a module
/// that does not name itself is skipped.
pub fn parse_tree(tree: &SyntaxTree, path: &String) -> (r: Vec<SvModule>)
    requires
        tree.wf(),
    ensures
        r@.map_values(|m: SvModule| m@) == module_records(tree.nodes@, path@, tree.nodes@.len() as int),
{
    let ghost nodes = tree.nodes@;
    let mut modules: Vec<SvModule> = Vec::new();
    let n = tree.nodes.len();
    let mut i: usize = 0;
    while i < n
        invariant
            tree.wf(),
            nodes == tree.nodes@,
            n == nodes.len(),
            i <= n,
            modules@.map_values(|m: SvModule| m@) == module_records(nodes, path@, i as int),
        decreases n - i,
    {
        if tree.nodes[i].kind == NodeKind::ModuleDeclaration {
            match module_at(tree, i, path) {
                Some(m) => {
                    modules.push(m);
                },
                None => {},
            }
        }
        assert(modules@.map_values(|m: SvModule| m@) =~= module_records(nodes, path@, i + 1));
        i = i + 1;
    }
    modules
}

} // verus!
