//! The MIR expression tree, the lowering pass's output. Nodes live in a
//! caller-supplied arena and reference each other by index; the builder only
//! ever appends, so everything already produced stays valid.

use vstd::prelude::*;

verus! {

/// One MIR expression node. Child references are indices into the same
/// arena; `slot` fields carry the storage slot a binding was given.
#[derive(Clone, PartialEq, Eq, Debug)]
pub enum MirExpr {
    /// A literal carried over unchanged.
    Lit { value: u64 },
    /// A resolved identifier reference: holds the storage slot it refers to.
    Ref { slot: usize },
    /// The placeholder a subtree that failed to lower is replaced with, so
    /// lowering of the surrounding tree can continue.
    Error,
    /// A scoped binding: `value` is stored into `slot`, visible in `body`.
    Let { slot: usize, value: usize, body: usize },
    /// A declaration into the enclosing block's scope.
    Def { slot: usize, value: usize },
    /// A branch with both arms lowered.
    If { cond: usize, thn: usize, els: usize },
    /// A call: callee, then arguments in written order.
    Call { func: usize, args: Vec<usize> },
    /// A sequence of expressions in written order.
    Block { items: Vec<usize> },
}

/// The ghost value of a [`MirExpr`]: child indices as mathematical integers,
/// variadic children as sequences.
pub enum MirExprV {
    Lit { value: u64 },
    Ref { slot: usize },
    Error,
    Let { slot: usize, value: int, body: int },
    Def { slot: usize, value: int },
    If { cond: int, thn: int, els: int },
    Call { func: int, args: Seq<int> },
    Block { items: Seq<int> },
}

impl View for MirExpr {
    type V = MirExprV;

    open spec fn view(&self) -> MirExprV {
        match self {
            MirExpr::Lit { value } => MirExprV::Lit { value: *value },
            MirExpr::Ref { slot } => MirExprV::Ref { slot: *slot },
            MirExpr::Error => MirExprV::Error,
            MirExpr::Let { slot, value, body } => MirExprV::Let {
                slot: *slot,
                value: *value as int,
                body: *body as int,
            },
            MirExpr::Def { slot, value } => MirExprV::Def { slot: *slot, value: *value as int },
            MirExpr::If { cond, thn, els } => MirExprV::If {
                cond: *cond as int,
                thn: *thn as int,
                els: *els as int,
            },
            MirExpr::Call { func, args } => MirExprV::Call {
                func: *func as int,
                args: args@.map_values(|a: usize| a as int),
            },
            MirExpr::Block { items } => MirExprV::Block {
                items: items@.map_values(|a: usize| a as int),
            },
        }
    }
}

/// A node fits at index `i` when all its children lie in `[0, i)`.
pub open spec fn mir_node_wf(n: MirExprV, i: int) -> bool {
    match n {
        MirExprV::Lit { .. } => true,
        MirExprV::Ref { .. } => true,
        MirExprV::Error => true,
        MirExprV::Let { value, body, .. } => 0 <= value < i && 0 <= body < i,
        MirExprV::Def { value, .. } => 0 <= value < i,
        MirExprV::If { cond, thn, els } => 0 <= cond < i && 0 <= thn < i && 0 <= els < i,
        MirExprV::Call { func, args } => 0 <= func < i && forall|k: int|
            0 <= k < args.len() ==> 0 <= #[trigger] args[k] < i,
        MirExprV::Block { items } => forall|k: int|
            0 <= k < items.len() ==> 0 <= #[trigger] items[k] < i,
    }
}

/// The caller-supplied output arena one lowering pass allocates into.
pub struct MirArena {
    nodes: Vec<MirExpr>,
}

impl View for MirArena {
    type V = Seq<MirExprV>;

    closed spec fn view(&self) -> Seq<MirExprV> {
        self.nodes@.map_values(|n: MirExpr| n@)
    }
}

impl MirArena {
    /// Every node's children precede it.
    pub open spec fn wf(&self) -> bool {
        forall|i: int| 0 <= i < self@.len() ==> mir_node_wf(#[trigger] self@[i], i)
    }

    /// An empty arena.
    pub fn new() -> (r: Self)
        ensures
            r@ == Seq::<MirExprV>::empty(),
            r.wf(),
    {
        let r = MirArena { nodes: Vec::new() };
        proof {
            assert(r@ =~= Seq::<MirExprV>::empty());
        }
        r
    }

    /// Allocates a node whose children already stand in the arena and
    /// returns its index.
    pub fn push_node(&mut self, n: MirExpr) -> (r: usize)
        requires
            old(self).wf(),
            mir_node_wf(n@, old(self)@.len() as int),
        ensures
            final(self)@ == old(self)@.push(n@),
            r == old(self)@.len(),
            final(self).wf(),
    {
        let r = self.nodes.len();
        self.nodes.push(n);
        proof {
            assert(self@ =~= old(self)@.push(n@));
            assert forall|i: int| 0 <= i < self@.len() implies mir_node_wf(self@[i], i) by {
                if i < old(self)@.len() {
                    assert(self@[i] == old(self)@[i]);
                } else {
                    assert(self@[i] == n@);
                }
            }
        }
        r
    }

    /// Reads the node at `i`.
    pub fn node(&self, i: usize) -> (r: &MirExpr)
        requires
            i < self@.len(),
        ensures
            r@ == self@[i as int],
    {
        &self.nodes[i]
    }

    /// How many nodes the arena holds.
    pub fn len(&self) -> (r: usize)
        ensures
            r == self@.len(),
    {
        self.nodes.len()
    }
}

} // verus!
