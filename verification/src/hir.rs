//! The HIR expression tree, the lowering pass's input. Every node is an
//! index into its owning arena, and a node's children are allocated before
//! it, so every tree is finite and acyclic by construction.

use vstd::prelude::*;

verus! {

/// One HIR expression node. Child references are indices into the same
/// arena, each strictly smaller than the node's own index.
#[derive(Clone, PartialEq, Eq, Debug)]
pub enum HirExpr {
    /// A literal whose form the lexer already validated.
    Lit { value: u64 },
    /// A reference to an identifier.
    Ident { name: Vec<u8> },
    /// `let name = value in body`: the binding is visible in `body` alone.
    Let { name: Vec<u8>, value: usize, body: usize },
    /// A declaration that binds into the scope it stands in, visible to the
    /// expressions that follow it there.
    Decl { name: Vec<u8>, value: usize },
    /// A branch; both arms are part of the tree and both are lowered.
    If { cond: usize, thn: usize, els: usize },
    /// A call: callee first, then the arguments in written order.
    Call { func: usize, args: Vec<usize> },
    /// A sequence of expressions evaluated in order, in a scope of its own.
    Block { items: Vec<usize> },
}

/// A node fits at index `i` when all its children lie below `i`.
pub open spec fn hir_node_wf(n: HirExpr, i: int) -> bool {
    match n {
        HirExpr::Lit { .. } => true,
        HirExpr::Ident { .. } => true,
        HirExpr::Let { value, body, .. } => value < i && body < i,
        HirExpr::Decl { value, .. } => value < i,
        HirExpr::If { cond, thn, els } => cond < i && thn < i && els < i,
        HirExpr::Call { func, args } => func < i && forall|k: int| #![auto]
            0 <= k < args@.len() ==> args@[k] < i,
        HirExpr::Block { items } => forall|k: int| #![auto]
            0 <= k < items@.len() ==> items@[k] < i,
    }
}

/// Every node's children precede it: each tree in the arena is finite and
/// acyclic.
pub open spec fn hir_wf(h: Seq<HirExpr>) -> bool {
    forall|i: int| 0 <= i < h.len() ==> hir_node_wf(#[trigger] h[i], i)
}

/// The arena that owns one HIR tree. The parsing stage fills it bottom-up;
/// the lowering pass only borrows it.
pub struct HirArena {
    nodes: Vec<HirExpr>,
}

impl View for HirArena {
    type V = Seq<HirExpr>;

    closed spec fn view(&self) -> Seq<HirExpr> {
        self.nodes@
    }
}

impl HirArena {
    /// Every node's children precede it.
    pub open spec fn wf(&self) -> bool {
        hir_wf(self@)
    }

    /// An empty arena.
    pub fn new() -> (r: Self)
        ensures
            r@ == Seq::<HirExpr>::empty(),
            r.wf(),
    {
        HirArena { nodes: Vec::new() }
    }

    /// Allocates a node whose children already stand in the arena and
    /// returns its index.
    pub fn push_node(&mut self, n: HirExpr) -> (r: usize)
        requires
            old(self).wf(),
            hir_node_wf(n, old(self)@.len() as int),
        ensures
            final(self)@ == old(self)@.push(n),
            r == old(self)@.len(),
            final(self).wf(),
    {
        let r = self.nodes.len();
        self.nodes.push(n);
        proof {
            assert forall|i: int| 0 <= i < self@.len() implies hir_node_wf(self@[i], i) by {
                if i < old(self)@.len() {
                    assert(self@[i] == old(self)@[i]);
                } else {
                    assert(self@[i] == n);
                }
            }
        }
        r
    }

    /// Reads the node at `i`.
    pub fn node(&self, i: usize) -> (r: &HirExpr)
        requires
            i < self@.len(),
        ensures
            *r == self@[i as int],
    {
        &self.nodes[i]
    }

    /// How many nodes the arena holds.
    pub fn len(&self) -> (r: usize)
        ensures
            r == self@.len(),
    {
        self.nodes.len()
    }
}

} // verus!
