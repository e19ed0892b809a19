//! Package declarations.
use vstd::prelude::*;

use crate::out::{PackageView, SvPackage};
use crate::syntax::{NodeKind, SyntaxNode, SyntaxTree, identifier_under};
use crate::text::{trim, trimmed};

verus! {

/// The package declared at node `i` of a file at `path`; `None` when its
/// syntax lacks an identifier.
pub open spec fn package_spec(nodes: Seq<SyntaxNode>, i: int, path: Seq<char>) -> Option<PackageView> {
    match identifier_under(nodes, i, NodeKind::PackageIdentifier) {
        Some(name) => Some(
            PackageView { name: trimmed(name), endname: trimmed(name), included: false, path },
        ),
        None => None,
    }
}

/// Packages declared at nodes `0 .. n`, in order.
pub open spec fn package_records(nodes: Seq<SyntaxNode>, path: Seq<char>, n: int) -> Seq<PackageView>
    decreases n,
{
    if n <= 0 {
        Seq::empty()
    } else if nodes[n - 1].kind == NodeKind::PackageDeclaration && package_spec(
        nodes,
        n - 1,
        path,
    ) is Some {
        package_records(nodes, path, n - 1).push(package_spec(nodes, n - 1, path)->0)
    } else {
        package_records(nodes, path, n - 1)
    }
}

/// Every package declared in `tree`, a file at `path`, in order;
/// a declaration that does not name itself is skipped.
pub fn parse_tree(tree: &SyntaxTree, path: &String) -> (r: Vec<SvPackage>)
    requires
        tree.wf(),
    ensures
        r@.map_values(|m: SvPackage| m@) == package_records(tree.nodes@, path@, tree.nodes@.len() as int),
{
    let ghost nodes = tree.nodes@;
    let mut found: Vec<SvPackage> = Vec::new();
    let n = tree.nodes.len();
    let mut i: usize = 0;
    while i < n
        invariant
            tree.wf(),
            nodes == tree.nodes@,
            n == nodes.len(),
            i <= n,
            found@.map_values(|m: SvPackage| m@) == package_records(nodes, path@, i as int),
        decreases n - i,
    {
        if tree.nodes[i].kind == NodeKind::PackageDeclaration {
            match tree.identifier_under(i, NodeKind::PackageIdentifier) {
                Some(name) => {
                    let name = trim(name.as_str());
                    let endname = name.clone();
                    found.push(SvPackage { name, endname, included: false, path: path.clone() });
                },
                None => {},
            }
        }
        assert(found@.map_values(|m: SvPackage| m@) =~= package_records(nodes, path@, i + 1));
        i = i + 1;
    }
    found
}

} // verus!
