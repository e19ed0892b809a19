//! Interface declarations and their ports.
use vstd::prelude::*;

use crate::out::{InterfaceView, SvInterface};
use crate::ports::{get_ports, ports_spec};
use crate::syntax::{NodeKind, SyntaxNode, SyntaxTree, identifier_under};
use crate::text::{trim, trimmed};

verus! {

/// The interface declared at node `i` of a file at `path`; `None` when its
/// syntax does not name it.
pub open spec fn interface_spec(nodes: Seq<SyntaxNode>, i: int, path: Seq<char>) -> Option<InterfaceView> {
    match identifier_under(nodes, i, NodeKind::InterfaceIdentifier) {
        Some(name) => Some(
            InterfaceView {
                name: trimmed(name),
                endname: trimmed(name),
                ports: ports_spec(nodes, i),
                included: false,
                path,
            },
        ),
        None => None,
    }
}

/// Interfaces declared at nodes `0 .. n`, in order.
pub open spec fn interface_records(nodes: Seq<SyntaxNode>, path: Seq<char>, n: int) -> Seq<InterfaceView>
    decreases n,
{
    if n <= 0 {
        Seq::empty()
    } else if nodes[n - 1].kind == NodeKind::InterfaceDeclaration && interface_spec(
        nodes,
        n - 1,
        path,
    ) is Some {
        interface_records(nodes, path, n - 1).push(interface_spec(nodes, n - 1, path)->0)
    } else {
        interface_records(nodes, path, n - 1)
    }
}

/// The interface declared at node `i`.
fn interface_at(tree: &SyntaxTree, i: usize, path: &String) -> (r: Option<SvInterface>)
    requires
        tree.wf(),
        i < tree.nodes@.len(),
    ensures
        match r {
            Some(m) => interface_spec(tree.nodes@, i as int, path@) == Some(m@),
            None => interface_spec(tree.nodes@, i as int, path@) is None,
        },
{
    let name = match tree.identifier_under(i, NodeKind::InterfaceIdentifier) {
        Some(name) => trim(name.as_str()),
        None => return None,
    };
    let ports = get_ports(tree, i);
    let endname = name.clone();
    Some(SvInterface { name, endname, ports, included: false, path: path.clone() })
}

/// Every interface declared in `tree`, a file at `path`, in order;
/// a declaration that does not name itself is skipped.
pub fn parse_tree(tree: &SyntaxTree, path: &String) -> (r: Vec<SvInterface>)
    requires
        tree.wf(),
    ensures
        r@.map_values(|m: SvInterface| m@) == interface_records(tree.nodes@, path@, tree.nodes@.len() as int),
{
    let ghost nodes = tree.nodes@;
    let mut found: Vec<SvInterface> = Vec::new();
    let n = tree.nodes.len();
    let mut i: usize = 0;
    while i < n
        invariant
            tree.wf(),
            nodes == tree.nodes@,
            n == nodes.len(),
            i <= n,
            found@.map_values(|m: SvInterface| m@) == interface_records(nodes, path@, i as int),
        decreases n - i,
    {
        if tree.nodes[i].kind == NodeKind::InterfaceDeclaration {
            match interface_at(tree, i, path) {
                Some(m) => {
                    found.push(m);
                },
                None => {},
            }
        }
        assert(found@.map_values(|m: SvInterface| m@) =~= interface_records(nodes, path@, i + 1));
        i = i + 1;
    }
    found
}

} // verus!
