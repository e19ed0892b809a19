//! Port lists in both declaration styles, normalized to one record shape.
use vstd::prelude::*;

use crate::out::{Port, PortView, ports_view};
use crate::syntax::{
    NodeKind, SyntaxNode, SyntaxTree, end_of, find_in, gathered, identifier, identifier_under,
    text_under,
};
use crate::text::{first_word, first_word_of, trim, trimmed};

verus! {

/// Direction of the ports declared at node `j`: the trimmed text of its first
/// direction, empty when it has none.
pub open spec fn direction_spec(nodes: Seq<SyntaxNode>, j: int) -> Seq<char> {
    match find_in(nodes, j, NodeKind::PortDirection, NodeKind::DirectedDeclaration) {
        Some(k) => trimmed(nodes[k].text@),
        None => Seq::empty(),
    }
}

/// Net type of the ports declared at node `j`: a net type's trimmed text,
/// the first word of a data type, or empty.
pub open spec fn net_type_spec(nodes: Seq<SyntaxNode>, j: int) -> Seq<char> {
    match find_in(nodes, j, NodeKind::NetType, NodeKind::DataType) {
        Some(k) => if nodes[k].kind == NodeKind::NetType {
            trimmed(nodes[k].text@)
        } else {
            first_word(nodes[k].text@)
        },
        None => Seq::empty(),
    }
}

/// The port `name` declared by the declaration at node `j`.
pub open spec fn port_with(nodes: Seq<SyntaxNode>, j: int, name: Seq<char>) -> PortView {
    PortView {
        direction: direction_spec(nodes, j),
        net_type: net_type_spec(nodes, j),
        dimension: text_under(nodes, j, NodeKind::PackedDimension),
        name,
    }
}

/// The port of a direction-first declaration at node `q`, if it is one and
/// names its port.
pub open spec fn ansi_item(nodes: Seq<SyntaxNode>) -> spec_fn(int) -> Seq<PortView> {
    |q: int|
        if nodes[q].kind == NodeKind::AnsiPortDeclaration {
            match identifier_under(nodes, q, NodeKind::PortIdentifier) {
                Some(name) => seq![port_with(nodes, q, name)],
                None => Seq::empty(),
            }
        } else {
            Seq::empty()
        }
}

/// The port named by node `q` inside the separate declaration at node `j`.
pub open spec fn declared_item(nodes: Seq<SyntaxNode>, j: int) -> spec_fn(int) -> Seq<PortView> {
    |q: int|
        if nodes[q].kind == NodeKind::PortIdentifier || nodes[q].kind == NodeKind::VariableIdentifier {
            match identifier(nodes, q) {
                Some(name) => seq![port_with(nodes, j, name)],
                None => Seq::empty(),
            }
        } else {
            Seq::empty()
        }
}

/// One port per identifier of the separate declaration at node `j`, each
/// with the declaration's direction, type and dimension.
pub open spec fn declared_ports(nodes: Seq<SyntaxNode>, j: int) -> Seq<PortView> {
    gathered(j, end_of(nodes, j), declared_item(nodes, j))
}

/// The ports of node `j` if it is a separate port declaration.
pub open spec fn nonansi_item(nodes: Seq<SyntaxNode>) -> spec_fn(int) -> Seq<PortView> {
    |j: int|
        if nodes[j].kind == NodeKind::PortDeclaration {
            declared_ports(nodes, j)
        } else {
            Seq::empty()
        }
}

/// Ports declared direction-first in the subtree of node `i`.
pub open spec fn ansi_ports_spec(nodes: Seq<SyntaxNode>, i: int) -> Seq<PortView> {
    gathered(i, end_of(nodes, i), ansi_item(nodes))
}

/// Ports of the separate declarations in the subtree of node `i`.
pub open spec fn nonansi_ports_spec(nodes: Seq<SyntaxNode>, i: int) -> Seq<PortView> {
    gathered(i, end_of(nodes, i), nonansi_item(nodes))
}

/// Ports of the declaration at node `i`: the direction-first style when a
/// port declaration list comes first in its subtree, the separate style when a
/// plain port list does, none otherwise.
pub open spec fn ports_spec(nodes: Seq<SyntaxNode>, i: int) -> Seq<PortView> {
    match find_in(nodes, i, NodeKind::ListOfPortDeclarations, NodeKind::ListOfPorts) {
        Some(k) => if nodes[k].kind == NodeKind::ListOfPortDeclarations {
            ansi_ports_spec(nodes, i)
        } else {
            nonansi_ports_spec(nodes, i)
        },
        None => Seq::empty(),
    }
}

/// Direction, net type and dimension of the declaration at node `j`.
fn port_fields(tree: &SyntaxTree, j: usize) -> (r: (String, String, String))
    requires
        tree.wf(),
        j < tree.nodes@.len(),
    ensures
        r.0@ == direction_spec(tree.nodes@, j as int),
        r.1@ == net_type_spec(tree.nodes@, j as int),
        r.2@ == text_under(tree.nodes@, j as int, NodeKind::PackedDimension),
{
    let direction = match tree.find_in(j, NodeKind::PortDirection, NodeKind::DirectedDeclaration) {
        Some(k) => trim(tree.nodes[k].text.as_str()),
        None => String::new(),
    };
    let net_type = match tree.find_in(j, NodeKind::NetType, NodeKind::DataType) {
        Some(k) => if tree.nodes[k].kind == NodeKind::NetType {
            trim(tree.nodes[k].text.as_str())
        } else {
            first_word_of(tree.nodes[k].text.as_str())
        },
        None => String::new(),
    };
    let dimension = tree.text_under(j, NodeKind::PackedDimension);
    (direction, net_type, dimension)
}

/// Ports of the declaration at node `i` in the direction-first style.
pub fn get_ansi_ports(tree: &SyntaxTree, i: usize) -> (r: Vec<Port>)
    requires
        tree.wf(),
        i < tree.nodes@.len(),
    ensures
        ports_view(r@) == ansi_ports_spec(tree.nodes@, i as int),
{
    let ghost nodes = tree.nodes@;
    let hi = tree.nodes[i].end;
    let mut ports: Vec<Port> = Vec::new();
    let mut q: usize = i;
    assert(ports_view(ports@) =~= gathered(i as int, i as int, ansi_item(nodes)));
    while q < hi
        invariant
            tree.wf(),
            nodes == tree.nodes@,
            i <= q <= hi,
            hi == end_of(nodes, i as int),
            hi <= nodes.len(),
            ports_view(ports@) == gathered(i as int, q as int, ansi_item(nodes)),
        decreases hi - q,
    {
        let ghost before = ports_view(ports@);
        if tree.nodes[q].kind == NodeKind::AnsiPortDeclaration {
            match tree.identifier_under(q, NodeKind::PortIdentifier) {
                Some(name) => {
                    let (direction, net_type, dimension) = port_fields(tree, q);
                    ports.push(Port { direction, net_type, dimension, name });
                },
                None => {},
            }
        }
        assert(ports_view(ports@) =~= before + ansi_item(nodes)(q as int));
        q = q + 1;
    }
    ports
}

/// One port per identifier of the separate declaration at node `j`.
fn get_declared_ports(tree: &SyntaxTree, j: usize, ports: &mut Vec<Port>)
    requires
        tree.wf(),
        j < tree.nodes@.len(),
    ensures
        ports_view(final(ports)@) == ports_view(old(ports)@) + declared_ports(tree.nodes@, j as int),
{
    let ghost nodes = tree.nodes@;
    let (direction, net_type, dimension) = port_fields(tree, j);
    let hi = tree.nodes[j].end;
    let mut q: usize = j;
    assert(ports_view(ports@) =~= ports_view(old(ports)@) + gathered(j as int, j as int, declared_item(nodes, j as int)));
    while q < hi
        invariant
            tree.wf(),
            nodes == tree.nodes@,
            j <= q <= hi,
            hi == end_of(nodes, j as int),
            hi <= nodes.len(),
            direction@ == direction_spec(nodes, j as int),
            net_type@ == net_type_spec(nodes, j as int),
            dimension@ == text_under(nodes, j as int, NodeKind::PackedDimension),
            ports_view(ports@) == ports_view(old(ports)@) + gathered(j as int, q as int, declared_item(nodes, j as int)),
        decreases hi - q,
    {
        let ghost before = ports_view(ports@);
        let k = tree.nodes[q].kind;
        if k == NodeKind::PortIdentifier || k == NodeKind::VariableIdentifier {
            match tree.identifier(q) {
                Some(name) => {
                    ports.push(
                        Port {
                            direction: direction.clone(),
                            net_type: net_type.clone(),
                            dimension: dimension.clone(),
                            name,
                        },
                    );
                },
                None => {},
            }
        }
        assert(ports_view(ports@) =~= before + declared_item(nodes, j as int)(q as int));
        assert(ports_view(old(ports)@) + gathered(j as int, q + 1, declared_item(nodes, j as int)) =~= before
            + declared_item(nodes, j as int)(q as int));
        q = q + 1;
    }
}

/// Ports of the declaration at node `i` in the separate-declaration style:
/// one per identifier of each port declaration.
pub fn get_nonansi_ports(tree: &SyntaxTree, i: usize) -> (r: Vec<Port>)
    requires
        tree.wf(),
        i < tree.nodes@.len(),
    ensures
        ports_view(r@) == nonansi_ports_spec(tree.nodes@, i as int),
{
    let ghost nodes = tree.nodes@;
    let hi = tree.nodes[i].end;
    let mut ports: Vec<Port> = Vec::new();
    let mut j: usize = i;
    assert(ports_view(ports@) =~= gathered(i as int, i as int, nonansi_item(nodes)));
    while j < hi
        invariant
            tree.wf(),
            nodes == tree.nodes@,
            i <= j <= hi,
            hi == end_of(nodes, i as int),
            hi <= nodes.len(),
            ports_view(ports@) == gathered(i as int, j as int, nonansi_item(nodes)),
        decreases hi - j,
    {
        let ghost before = ports_view(ports@);
        if tree.nodes[j].kind == NodeKind::PortDeclaration {
            get_declared_ports(tree, j, &mut ports);
        }
        assert(ports_view(ports@) =~= before + nonansi_item(nodes)(j as int));
        j = j + 1;
    }
    ports
}

/// Ports of the module or interface declared at node `i`, in whichever of
/// the two styles its port list uses.
pub fn get_ports(tree: &SyntaxTree, i: usize) -> (r: Vec<Port>)
    requires
        tree.wf(),
        i < tree.nodes@.len(),
    ensures
        ports_view(r@) == ports_spec(tree.nodes@, i as int),
{
    match tree.find_in(i, NodeKind::ListOfPortDeclarations, NodeKind::ListOfPorts) {
        Some(k) => if tree.nodes[k].kind == NodeKind::ListOfPortDeclarations {
            get_ansi_ports(tree, i)
        } else {
            get_nonansi_ports(tree, i)
        },
        None => {
            let r: Vec<Port> = Vec::new();
            assert(ports_view(r@) =~= Seq::empty());
            r
        },
    }
}

} // verus!
