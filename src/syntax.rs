//! A parsed source file, reduced to the declaration-related nodes that the
//! extraction reads, laid out in pre-order.
use vstd::prelude::*;

use crate::out::IdentifierMissing;
use crate::text::{trim, trimmed};

verus! {

/// The kinds of syntax node that entity extraction distinguishes.
#[derive(Clone, Copy, Debug, PartialEq, Eq, Structural)]
pub enum NodeKind {
    ModuleDeclaration,
    InterfaceDeclaration,
    PackageDeclaration,
    ModuleIdentifier,
    InterfaceIdentifier,
    PackageIdentifier,
    SimpleIdentifier,
    EscapedIdentifier,
    ListOfPortDeclarations,
    ListOfPorts,
    AnsiPortDeclaration,
    PortDeclaration,
    /// A separate-style port declaration of one direction; its text is the
    /// direction keyword.
    DirectedDeclaration,
    PortDirection,
    NetType,
    DataType,
    PackedDimension,
    PortIdentifier,
    VariableIdentifier,
    ParameterDeclaration,
    ParamAssignment,
    ParameterIdentifier,
    UnpackedDimension,
    ConstantParamExpression,
    ModuleInstantiation,
    InstanceIdentifier,
    Other,
}

/// One node: its kind, its source text, and the index just past its subtree.
pub struct SyntaxNode {
    pub kind: NodeKind,
    pub text: String,
    pub end: usize,
}

/// Nodes in pre-order; the subtree of node `i` is the index range
/// `i .. nodes[i].end`.
pub struct SyntaxTree {
    pub nodes: Vec<SyntaxNode>,
}

/// An optional index as a mathematical integer.
pub open spec fn index_view(o: Option<usize>) -> Option<int> {
    match o {
        Some(j) => Some(j as int),
        None => None,
    }
}

/// An optional string as its characters.
pub open spec fn text_view(o: Option<String>) -> Option<Seq<char>> {
    match o {
        Some(s) => Some(s@),
        None => None,
    }
}

/// Every node's subtree starts at the node and stays inside the sequence.
pub open spec fn nodes_wf(nodes: Seq<SyntaxNode>) -> bool {
    forall|i: int| 0 <= i < nodes.len() ==> i < #[trigger] nodes[i].end <= nodes.len()
}

/// Index just past the subtree of node `i`.
pub open spec fn end_of(nodes: Seq<SyntaxNode>, i: int) -> int {
    nodes[i].end as int
}

/// First index in `lo .. hi` whose node has kind `a` or `b`.
pub open spec fn find_kind(nodes: Seq<SyntaxNode>, lo: int, hi: int, a: NodeKind, b: NodeKind) -> Option<int>
    decreases hi - lo,
{
    if lo >= hi {
        None
    } else if nodes[lo].kind == a || nodes[lo].kind == b {
        Some(lo)
    } else {
        find_kind(nodes, lo + 1, hi, a, b)
    }
}

/// First node of kind `a` or `b` in the subtree of node `i` (the node itself
/// included).
pub open spec fn find_in(nodes: Seq<SyntaxNode>, i: int, a: NodeKind, b: NodeKind) -> Option<int> {
    find_kind(nodes, i, end_of(nodes, i), a, b)
}

/// Text of the first plain or escaped identifier in the subtree of node `i`.
pub open spec fn identifier(nodes: Seq<SyntaxNode>, i: int) -> Option<Seq<char>> {
    match find_in(nodes, i, NodeKind::SimpleIdentifier, NodeKind::EscapedIdentifier) {
        Some(j) => Some(nodes[j].text@),
        None => None,
    }
}

/// Identifier text under the first node of kind `k` in the subtree of node `i`.
pub open spec fn identifier_under(nodes: Seq<SyntaxNode>, i: int, k: NodeKind) -> Option<Seq<char>> {
    match find_in(nodes, i, k, k) {
        Some(j) => identifier(nodes, j),
        None => None,
    }
}

/// Trimmed text of the first node of kind `k` in the subtree of node `i`,
/// empty when there is none.
pub open spec fn text_under(nodes: Seq<SyntaxNode>, i: int, k: NodeKind) -> Seq<char> {
    match find_in(nodes, i, k, k) {
        Some(j) => trimmed(nodes[j].text@),
        None => Seq::empty(),
    }
}

/// The items `f(q)` for each node `q` in `lo .. hi`, concatenated in order.
pub open spec fn gathered<R>(lo: int, hi: int, f: spec_fn(int) -> Seq<R>) -> Seq<R>
    decreases hi - lo,
{
    if hi <= lo {
        Seq::empty()
    } else {
        gathered(lo, hi - 1, f) + f(hi - 1)
    }
}

/// Node `q` requires an identifier that its syntax lacks: a declaration
/// without its name, or an identifier node without identifier text.
pub open spec fn lacks_identifier(nodes: Seq<SyntaxNode>, q: int) -> bool {
    match nodes[q].kind {
        NodeKind::ModuleDeclaration => identifier_under(nodes, q, NodeKind::ModuleIdentifier) is None,
        NodeKind::InterfaceDeclaration => identifier_under(nodes, q, NodeKind::InterfaceIdentifier) is None,
        NodeKind::PackageDeclaration => identifier_under(nodes, q, NodeKind::PackageIdentifier) is None,
        NodeKind::AnsiPortDeclaration => identifier_under(nodes, q, NodeKind::PortIdentifier) is None,
        NodeKind::ParamAssignment => identifier_under(nodes, q, NodeKind::ParameterIdentifier) is None,
        NodeKind::ModuleInstantiation => identifier_under(nodes, q, NodeKind::ModuleIdentifier) is None,
        NodeKind::PortIdentifier | NodeKind::VariableIdentifier | NodeKind::InstanceIdentifier => identifier(
            nodes,
            q,
        ) is None,
        _ => false,
    }
}

/// The nodes lacking an identifier, in order.
pub open spec fn missing_spec(nodes: Seq<SyntaxNode>) -> Seq<usize> {
    gathered(
        0,
        nodes.len() as int,
        |q: int|
            if lacks_identifier(nodes, q) {
                seq![q as usize]
            } else {
                Seq::empty()
            },
    )
}

pub open spec fn missing_view(v: Seq<IdentifierMissing>) -> Seq<usize> {
    v.map_values(|e: IdentifierMissing| e.node)
}

impl SyntaxTree {
    /// Whether node `q` requires an identifier that its syntax lacks.
    pub fn lacks_identifier(&self, q: usize) -> (r: bool)
        requires
            self.wf(),
            q < self.nodes@.len(),
        ensures
            r == lacks_identifier(self.nodes@, q as int),
    {
        match self.nodes[q].kind {
            NodeKind::ModuleDeclaration => self.identifier_under(q, NodeKind::ModuleIdentifier).is_none(),
            NodeKind::InterfaceDeclaration => self.identifier_under(q, NodeKind::InterfaceIdentifier).is_none(),
            NodeKind::PackageDeclaration => self.identifier_under(q, NodeKind::PackageIdentifier).is_none(),
            NodeKind::AnsiPortDeclaration => self.identifier_under(q, NodeKind::PortIdentifier).is_none(),
            NodeKind::ParamAssignment => self.identifier_under(q, NodeKind::ParameterIdentifier).is_none(),
            NodeKind::ModuleInstantiation => self.identifier_under(q, NodeKind::ModuleIdentifier).is_none(),
            NodeKind::PortIdentifier | NodeKind::VariableIdentifier | NodeKind::InstanceIdentifier => self.identifier(
                q,
            ).is_none(),
            _ => false,
        }
    }

    /// Every node whose syntax lacks a required identifier, in order: the
    /// declarations and ports, parameters and instances that extraction
    /// skips.
    pub fn missing_identifiers(&self) -> (r: Vec<IdentifierMissing>)
        requires
            self.wf(),
        ensures
            missing_view(r@) == missing_spec(self.nodes@),
    {
        let ghost nodes = self.nodes@;
        let ghost f = |q: int|
            if lacks_identifier(nodes, q) {
                seq![q as usize]
            } else {
                Seq::<usize>::empty()
            };
        let mut out: Vec<IdentifierMissing> = Vec::new();
        let mut q: usize = 0;
        assert(missing_view(out@) =~= gathered(0, 0, f));
        while q < self.nodes.len()
            invariant
                self.wf(),
                nodes == self.nodes@,
                q <= nodes.len(),
                f == (|q: int|
                    if lacks_identifier(nodes, q) {
                        seq![q as usize]
                    } else {
                        Seq::<usize>::empty()
                    }),
                missing_view(out@) == gathered(0, q as int, f),
            decreases nodes.len() - q,
        {
            if self.lacks_identifier(q) {
                out.push(IdentifierMissing { node: q });
            }
            assert(missing_view(out@) =~= gathered(0, q + 1, f));
            q = q + 1;
        }
        out
    }

    pub open spec fn wf(&self) -> bool {
        nodes_wf(self.nodes@)
    }

    /// First index in `lo .. hi` whose node has kind `a` or `b`.
    pub fn find(&self, lo: usize, hi: usize, a: NodeKind, b: NodeKind) -> (r: Option<usize>)
        requires
            hi <= self.nodes@.len(),
        ensures
            index_view(r) == find_kind(self.nodes@, lo as int, hi as int, a, b),
            r matches Some(j) ==> lo <= j < hi,
    {
        let mut i: usize = lo;
        while i < hi
            invariant
                lo <= i,
                hi <= self.nodes@.len(),
                find_kind(self.nodes@, lo as int, hi as int, a, b) == find_kind(
                    self.nodes@,
                    i as int,
                    hi as int,
                    a,
                    b,
                ),
            decreases hi - i,
        {
            let k = self.nodes[i].kind;
            if k == a || k == b {
                return Some(i);
            }
            i = i + 1;
        }
        None
    }

    /// First node of kind `a` or `b` in the subtree of node `i`.
    pub fn find_in(&self, i: usize, a: NodeKind, b: NodeKind) -> (r: Option<usize>)
        requires
            self.wf(),
            i < self.nodes@.len(),
        ensures
            index_view(r) == find_in(self.nodes@, i as int, a, b),
            r matches Some(j) ==> i <= j < self.nodes@.len(),
    {
        self.find(i, self.nodes[i].end, a, b)
    }

    /// Text of the first plain or escaped identifier in the subtree of node `i`.
    pub fn identifier(&self, i: usize) -> (r: Option<String>)
        requires
            self.wf(),
            i < self.nodes@.len(),
        ensures
            text_view(r) == identifier(self.nodes@, i as int),
    {
        match self.find_in(i, NodeKind::SimpleIdentifier, NodeKind::EscapedIdentifier) {
            Some(j) => Some(self.nodes[j].text.clone()),
            None => None,
        }
    }

    /// Identifier text under the first node of kind `k` in the subtree of node `i`.
    pub fn identifier_under(&self, i: usize, k: NodeKind) -> (r: Option<String>)
        requires
            self.wf(),
            i < self.nodes@.len(),
        ensures
            text_view(r) == identifier_under(self.nodes@, i as int, k),
    {
        match self.find_in(i, k, k) {
            Some(j) => self.identifier(j),
            None => None,
        }
    }

    /// Trimmed text of the first node of kind `k` in the subtree of node `i`.
    pub fn text_under(&self, i: usize, k: NodeKind) -> (r: String)
        requires
            self.wf(),
            i < self.nodes@.len(),
        ensures
            r@ == text_under(self.nodes@, i as int, k),
    {
        match self.find_in(i, k, k) {
            Some(j) => trim(self.nodes[j].text.as_str()),
            None => String::new(),
        }
    }
}

/// Builds a `SyntaxTree` from a walk of a syntax tree: `enter` on reaching
/// a node, `leave` once its subtree is done.
pub struct TreeBuilder {
    pub nodes: Vec<SyntaxNode>,
    /// Nodes entered and not yet left, innermost last.
    pub open: Vec<usize>,
}

impl TreeBuilder {
    pub open spec fn wf(&self) -> bool {
        &&& forall|a: int| 0 <= a < self.open@.len() ==> #[trigger] self.open@[a] < self.nodes@.len()
        &&& forall|a: int, b: int|
            0 <= a < b < self.open@.len() ==> #[trigger] self.open@[a] < #[trigger] self.open@[b]
        &&& forall|i: int|
            0 <= i < self.nodes@.len() && !self.open@.contains(i as usize) ==> i < #[trigger] self.nodes@[i].end
                <= self.nodes@.len()
    }

    pub fn new() -> (r: Self)
        ensures
            r.wf(),
            r.nodes@.len() == 0,
    {
        TreeBuilder { nodes: Vec::new(), open: Vec::new() }
    }

    /// Starts a node of kind `kind` with source text `text`.
    pub fn enter(&mut self, kind: NodeKind, text: String)
        requires
            old(self).wf(),
            old(self).nodes@.len() < usize::MAX,
        ensures
            final(self).wf(),
            final(self).nodes@.len() == old(self).nodes@.len() + 1,
            final(self).nodes@.drop_last() == old(self).nodes@,
            final(self).nodes@.last().kind == kind,
            final(self).nodes@.last().text@ == text@,
            final(self).open@ == old(self).open@.push(old(self).nodes@.len() as usize),
    {
        let i = self.nodes.len();
        self.nodes.push(SyntaxNode { kind, text, end: 0 });
        self.open.push(i);
        assert(self.nodes@.drop_last() =~= old(self).nodes@);
        assert forall|q: int|
            0 <= q < self.nodes@.len() && !self.open@.contains(q as usize) implies q < #[trigger] self.nodes@[q].end
            <= self.nodes@.len() by {
            if q == i {
                assert(self.open@[self.open@.len() - 1] == i);
            } else {
                assert(forall|a: int| 0 <= a < self.open@.len() - 1 ==> self.open@[a] == old(self).open@[a]);
                if old(self).open@.contains(q as usize) {
                    let a = choose|a: int| 0 <= a < old(self).open@.len() && old(self).open@[a] == q as usize;
                    assert(self.open@[a] == q as usize);
                }
            }
        }
    }

    /// Ends the innermost open node, whose subtree then reaches the last
    /// node; nothing happens when no node is open.
    pub fn leave(&mut self)
        requires
            old(self).wf(),
        ensures
            final(self).wf(),
            old(self).open@.len() == 0 ==> final(self).open@ == old(self).open@ && final(self).nodes@
                == old(self).nodes@,
            old(self).open@.len() > 0 ==> {
                let k = old(self).open@.last() as int;
                &&& final(self).open@ == old(self).open@.drop_last()
                &&& final(self).nodes@.len() == old(self).nodes@.len()
                &&& forall|i: int|
                    0 <= i < old(self).nodes@.len() && i != k ==> #[trigger] final(self).nodes@[i]
                        == old(self).nodes@[i]
                &&& final(self).nodes@[k].kind == old(self).nodes@[k].kind
                &&& final(self).nodes@[k].text == old(self).nodes@[k].text
                &&& final(self).nodes@[k].end == old(self).nodes@.len()
            },
    {
        match self.open.pop() {
            Some(k) => {
                let len = self.nodes.len();
                let mut node = SyntaxNode { kind: NodeKind::Other, text: String::new(), end: 0 };
                self.nodes.set_and_swap(k, &mut node);
                node.end = len;
                self.nodes.set_and_swap(k, &mut node);
                assert forall|q: int|
                    0 <= q < self.nodes@.len() && !self.open@.contains(q as usize) implies q
                    < #[trigger] self.nodes@[q].end <= self.nodes@.len() by {
                    if q != k {
                        if old(self).open@.contains(q as usize) {
                            let a = choose|a: int| 0 <= a < old(self).open@.len() && old(self).open@[a] == q as usize;
                            if a < self.open@.len() {
                                assert(self.open@[a] == q as usize);
                            }
                        }
                    }
                }
            },
            None => {},
        }
    }

    /// The finished tree: the nodes entered, in order, where the subtree of
    /// each node still open reaches the last node.
    pub fn build(self) -> (r: SyntaxTree)
        requires
            self.wf(),
        ensures
            r.wf(),
            r.nodes@.len() == self.nodes@.len(),
            forall|i: int|
                0 <= i < self.nodes@.len() ==> (#[trigger] r.nodes@[i]).kind == self.nodes@[i].kind
                    && r.nodes@[i].text == self.nodes@[i].text && r.nodes@[i].end == if self.open@.contains(
                    i as usize,
                ) {
                    self.nodes@.len()
                } else {
                    self.nodes@[i].end as nat
                },
    {
        let ghost orig = self;
        let mut b = self;
        while b.open.len() > 0
            invariant
                b.wf(),
                orig.wf(),
                b.nodes@.len() == orig.nodes@.len(),
                b.open@.len() <= orig.open@.len(),
                b.open@ == orig.open@.subrange(0, b.open@.len() as int),
                forall|i: int|
                    0 <= i < orig.nodes@.len() ==> (#[trigger] b.nodes@[i]).kind == orig.nodes@[i].kind
                        && b.nodes@[i].text == orig.nodes@[i].text && (!b.open@.contains(i as usize) ==> b.nodes@[i].end
                        == if orig.open@.contains(i as usize) {
                        orig.nodes@.len()
                    } else {
                        orig.nodes@[i].end as nat
                    }),
            decreases b.open@.len(),
        {
            let ghost before = b;
            b.leave();
            proof {
                let k = before.open@.last();
                assert(b.open@ =~= orig.open@.subrange(0, b.open@.len() as int));
                assert(orig.open@[before.open@.len() - 1] == k);
                assert forall|i: int| 0 <= i < orig.nodes@.len() implies (#[trigger] b.nodes@[i]).kind
                    == orig.nodes@[i].kind && b.nodes@[i].text == orig.nodes@[i].text && (
                !b.open@.contains(i as usize) ==> b.nodes@[i].end == if orig.open@.contains(i as usize) {
                    orig.nodes@.len()
                } else {
                    orig.nodes@[i].end as nat
                }) by {
                    if i != k as int {
                        assert(b.nodes@[i] == before.nodes@[i]);
                        if !b.open@.contains(i as usize) && before.open@.contains(i as usize) {
                            let a = choose|a: int| 0 <= a < before.open@.len() && before.open@[a] == i as usize;
                            if a < b.open@.len() {
                                assert(b.open@[a] == i as usize);
                            }
                        }
                    } else {
                        assert(orig.open@.contains(i as usize));
                    }
                }
            }
        }
        assert forall|i: int| 0 <= i < b.nodes@.len() implies i < #[trigger] b.nodes@[i].end <= b.nodes@.len() by {
            assert(!b.open@.contains(i as usize));
        }
        SyntaxTree { nodes: b.nodes }
    }
}

} // verus!
