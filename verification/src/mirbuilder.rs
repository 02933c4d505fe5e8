//! The MIR Builder: a structural recursion over HIR node kinds that resolves
//! identifiers through the scope environment, allocates MIR nodes into the
//! caller's output arena, and reports every defect it finds through the
//! diagnostic logger — substituting an error placeholder and continuing, so
//! one pass yields one diagnostic per defect and always a complete tree.
//!
//! The whole pass is pinned by one specification function, [`lower_node`]:
//! lowering appends exactly the nodes it describes to the arena, appends
//! exactly the diagnostics it describes to the logger, and leaves the
//! environment exactly as it describes.

use crate::diagnostic::{copy_bytes, DiagView, Diagnostic};
use crate::dlogger::DiagnosticLogger;
use crate::hir::{hir_node_wf, hir_wf, HirArena, HirExpr};
use crate::mir::{mir_node_wf, MirArena, MirExpr, MirExprV};
use crate::scope::{env_bind, env_resolve, frame_lookup, EnvView, ScopeEnv};
use vstd::prelude::*;

verus! {

/// What lowering one HIR expression produces: the MIR nodes appended to the
/// arena (children first, the subtree's root last), the diagnostics emitted
/// in order, and the scope environment afterwards.
pub struct Lowered {
    pub nodes: Seq<MirExprV>,
    pub diags: Seq<DiagView>,
    pub env: EnvView,
}

/// What lowering a child list produces: also the root index of each child,
/// in order, for the parent node to reference.
pub struct LoweredList {
    pub nodes: Seq<MirExprV>,
    pub roots: Seq<int>,
    pub diags: Seq<DiagView>,
    pub env: EnvView,
}

/// The value of lowering nothing; reached only on malformed child indices,
/// which a well-formed arena excludes.
pub open spec fn lowered_nothing(env: EnvView) -> Lowered {
    Lowered { nodes: Seq::empty(), diags: Seq::empty(), env }
}

/// The meaning of lowering the node at `i` of `h` under environment `env`,
/// into an arena whose next free index is `base`.
pub open spec fn lower_node(h: Seq<HirExpr>, i: int, env: EnvView, base: int) -> Lowered
    decreases i, 1int, 0int,
{
    if 0 <= i < h.len() {
        match h[i] {
            HirExpr::Lit { value } => Lowered {
                nodes: seq![MirExprV::Lit { value }],
                diags: Seq::empty(),
                env,
            },
            HirExpr::Ident { name } => match env_resolve(env, name@) {
                Some(slot) => Lowered {
                    nodes: seq![MirExprV::Ref { slot }],
                    diags: Seq::empty(),
                    env,
                },
                None => Lowered {
                    nodes: seq![MirExprV::Error],
                    diags: seq![DiagView::UnboundIdentifier { name: name@ }],
                    env,
                },
            },
            HirExpr::Let { name, value, body } => {
                let v = if value < i {
                    lower_node(h, value as int, env, base)
                } else {
                    lowered_nothing(env)
                };
                let slot = (base + v.nodes.len() - 1) as usize;
                let benv = v.env.push(seq![(name@, slot)]);
                let b = if body < i {
                    lower_node(h, body as int, benv, base + v.nodes.len())
                } else {
                    lowered_nothing(benv)
                };
                Lowered {
                    nodes: v.nodes + b.nodes + seq![
                        MirExprV::Let {
                            slot,
                            value: base + v.nodes.len() - 1,
                            body: base + v.nodes.len() + b.nodes.len() - 1,
                        },
                    ],
                    diags: v.diags + b.diags,
                    env: b.env.drop_last(),
                }
            },
            HirExpr::Decl { name, value } => {
                let v = if value < i {
                    lower_node(h, value as int, env, base)
                } else {
                    lowered_nothing(env)
                };
                let slot = (base + v.nodes.len() - 1) as usize;
                match frame_lookup(v.env.last(), name@) {
                    None => Lowered {
                        nodes: v.nodes + seq![
                            MirExprV::Def { slot, value: base + v.nodes.len() - 1 },
                        ],
                        diags: v.diags,
                        env: env_bind(v.env, name@, slot),
                    },
                    Some(prior) => Lowered {
                        nodes: v.nodes + seq![
                            MirExprV::Def { slot: prior, value: base + v.nodes.len() - 1 },
                        ],
                        diags: v.diags + seq![DiagView::DuplicateBinding { name: name@ }],
                        env: v.env,
                    },
                }
            },
            HirExpr::If { cond, thn, els } => {
                let c = if cond < i {
                    lower_node(h, cond as int, env, base)
                } else {
                    lowered_nothing(env)
                };
                let t = if thn < i {
                    lower_node(h, thn as int, c.env, base + c.nodes.len())
                } else {
                    lowered_nothing(c.env)
                };
                let e = if els < i {
                    lower_node(h, els as int, t.env, base + c.nodes.len() + t.nodes.len())
                } else {
                    lowered_nothing(t.env)
                };
                Lowered {
                    nodes: c.nodes + t.nodes + e.nodes + seq![
                        MirExprV::If {
                            cond: base + c.nodes.len() - 1,
                            thn: base + c.nodes.len() + t.nodes.len() - 1,
                            els: base + c.nodes.len() + t.nodes.len() + e.nodes.len() - 1,
                        },
                    ],
                    diags: c.diags + t.diags + e.diags,
                    env: e.env,
                }
            },
            HirExpr::Call { func, args } => {
                let f = if func < i {
                    lower_node(h, func as int, env, base)
                } else {
                    lowered_nothing(env)
                };
                let rest = lower_list(
                    h,
                    i,
                    args@.map_values(|a: usize| a as int),
                    f.env,
                    base + f.nodes.len(),
                );
                Lowered {
                    nodes: f.nodes + rest.nodes + seq![
                        MirExprV::Call { func: base + f.nodes.len() - 1, args: rest.roots },
                    ],
                    diags: f.diags + rest.diags,
                    env: rest.env,
                }
            },
            HirExpr::Block { items } => {
                let inner = lower_list(
                    h,
                    i,
                    items@.map_values(|a: usize| a as int),
                    env.push(Seq::empty()),
                    base,
                );
                Lowered {
                    nodes: inner.nodes + seq![MirExprV::Block { items: inner.roots }],
                    diags: inner.diags,
                    env: inner.env.drop_last(),
                }
            },
        }
    } else {
        lowered_nothing(env)
    }
}

/// The meaning of lowering the children `cs` (all below `bound`) in order,
/// threading the environment left to right.
pub open spec fn lower_list(h: Seq<HirExpr>, bound: int, cs: Seq<int>, env: EnvView, base: int) -> LoweredList
    decreases bound, 0int, cs.len(),
{
    if cs.len() == 0 {
        LoweredList { nodes: Seq::empty(), roots: Seq::empty(), diags: Seq::empty(), env }
    } else {
        let p = lower_list(h, bound, cs.drop_last(), env, base);
        let q = if 0 <= cs.last() < bound {
            lower_node(h, cs.last(), p.env, base + p.nodes.len())
        } else {
            lowered_nothing(p.env)
        };
        LoweredList {
            nodes: p.nodes + q.nodes,
            roots: p.roots.push(base + p.nodes.len() + q.nodes.len() - 1),
            diags: p.diags + q.diags,
            env: q.env,
        }
    }
}

/// Lowering an in-range node always produces at least its own node, so the
/// subtree's root index `base + nodes.len() - 1` is meaningful.
pub proof fn lemma_lower_node_nonempty(h: Seq<HirExpr>, i: int, env: EnvView, base: int)
    requires
        0 <= i < h.len(),
    ensures
        lower_node(h, i, env, base).nodes.len() >= 1,
{
}

/// Lowers the HIR subtree rooted at `root` into the output arena, resolving
/// identifiers through `env` and reporting defects through `logger`. Never
/// aborts: a defective subtree becomes an error placeholder plus exactly one
/// diagnostic, and lowering continues.
///
/// The pass appends to the arena exactly the nodes [`lower_node`] describes
/// (the returned index, the subtree's root, is the last of them), appends to
/// the logger exactly the diagnostics it describes, and leaves the scope
/// environment exactly as it describes — balanced, with its depth restored.
pub fn construct_mir(
    h: &HirArena,
    root: usize,
    env: &mut ScopeEnv,
    out: &mut MirArena,
    logger: &mut DiagnosticLogger,
) -> (r: usize)
    requires
        h.wf(),
        root < h@.len(),
        old(env).wf(),
        old(out).wf(),
    ensures
        final(out)@ == old(out)@ + lower_node(
            h@,
            root as int,
            old(env)@,
            old(out)@.len() as int,
        ).nodes,
        r == final(out)@.len() - 1,
        final(out).wf(),
        final(logger)@ == old(logger)@ + lower_node(
            h@,
            root as int,
            old(env)@,
            old(out)@.len() as int,
        ).diags,
        final(env)@ == lower_node(h@, root as int, old(env)@, old(out)@.len() as int).env,
        final(env)@.len() == old(env)@.len(),
        final(env).wf(),
    decreases root,
{
    let ghost spec_l = lower_node(h@, root as int, old(env)@, old(out)@.len() as int);
    let ghost base = out@.len() as int;
    proof {
        assert(hir_node_wf(h@[root as int], root as int));
    }
    match h.node(root) {
        HirExpr::Lit { value } => {
            let idx = out.push_node(MirExpr::Lit { value: *value });
            proof {
                assert(out@ =~= old(out)@ + spec_l.nodes);
                assert(logger@ =~= old(logger)@ + spec_l.diags);
            }
            idx
        },
        HirExpr::Ident { name } => {
            match env.resolve(name) {
                Some(slot) => {
                    let idx = out.push_node(MirExpr::Ref { slot });
                    proof {
                        assert(out@ =~= old(out)@ + spec_l.nodes);
                        assert(logger@ =~= old(logger)@ + spec_l.diags);
                    }
                    idx
                },
                None => {
                    logger.log(Diagnostic::UnboundIdentifier { name: copy_bytes(name) });
                    let idx = out.push_node(MirExpr::Error);
                    proof {
                        assert(out@ =~= old(out)@ + spec_l.nodes);
                        assert(logger@ =~= old(logger)@ + spec_l.diags);
                    }
                    idx
                },
            }
        },
        HirExpr::Let { name, value, body } => {
            let ghost v = lower_node(h@, *value as int, old(env)@, base);
            let vroot = construct_mir(h, *value, env, out, logger);
            let slot = vroot;
            env.enter_scope();
            let ghost pushed = v.env.push(Seq::<(Seq<u8>, usize)>::empty());
            proof {
                assert(frame_lookup(pushed.last(), name@) is None);
            }
            // The scope was entered this instant, so the binding cannot be a
            // duplicate: the result is provably `Ok` and needs no inspection.
            let _ = env.bind(copy_bytes(name), slot);
            let ghost benv = v.env.push(seq![(name@, slot)]);
            proof {
                assert(env@ =~~= benv);
            }
            let ghost b = lower_node(h@, *body as int, benv, base + v.nodes.len());
            let broot = construct_mir(h, *body, env, out, logger);
            env.exit_scope();
            let idx = out.push_node(MirExpr::Let { slot, value: vroot, body: broot });
            proof {
                assert(out@ =~= old(out)@ + spec_l.nodes);
                assert(logger@ =~= old(logger)@ + spec_l.diags);
            }
            idx
        },
        HirExpr::Decl { name, value } => {
            let ghost v = lower_node(h@, *value as int, old(env)@, base);
            let vroot = construct_mir(h, *value, env, out, logger);
            let slot = vroot;
            match env.bind(copy_bytes(name), slot) {
                Ok(_) => {
                    let idx = out.push_node(MirExpr::Def { slot, value: vroot });
                    proof {
                        assert(out@ =~= old(out)@ + spec_l.nodes);
                        assert(logger@ =~= old(logger)@ + spec_l.diags);
                        assert(env@ == spec_l.env);
                    }
                    idx
                },
                Err(prior) => {
                    logger.log(Diagnostic::DuplicateBinding { name: copy_bytes(name) });
                    let idx = out.push_node(MirExpr::Def { slot: prior, value: vroot });
                    proof {
                        assert(out@ =~= old(out)@ + spec_l.nodes);
                        assert(logger@ =~= old(logger)@ + spec_l.diags);
                    }
                    idx
                },
            }
        },
        HirExpr::If { cond, thn, els } => {
            let ghost c = lower_node(h@, *cond as int, old(env)@, base);
            let croot = construct_mir(h, *cond, env, out, logger);
            let ghost t = lower_node(h@, *thn as int, c.env, base + c.nodes.len());
            let troot = construct_mir(h, *thn, env, out, logger);
            let ghost e = lower_node(h@, *els as int, t.env, base + c.nodes.len() + t.nodes.len());
            let eroot = construct_mir(h, *els, env, out, logger);
            let idx = out.push_node(MirExpr::If { cond: croot, thn: troot, els: eroot });
            proof {
                assert(out@ =~= old(out)@ + spec_l.nodes);
                assert(logger@ =~= old(logger)@ + spec_l.diags);
            }
            idx
        },
        HirExpr::Call { func, args } => {
            let ghost f = lower_node(h@, *func as int, old(env)@, base);
            let froot = construct_mir(h, *func, env, out, logger);
            let ghost cs = args@.map_values(|a: usize| a as int);
            let ghost base2 = base + f.nodes.len();
            let mut roots: Vec<usize> = Vec::new();
            let mut k: usize = 0;
            proof {
                assert(cs.take(0) =~= Seq::<int>::empty());
            }
            while k < args.len()
                invariant
                    h.wf(),
                    root < h@.len(),
                    h@[root as int] == (HirExpr::Call { func: *func, args: *args }),
                    hir_node_wf(h@[root as int], root as int),
                    cs == args@.map_values(|a: usize| a as int),
                    k <= args@.len(),
                    base2 == base + f.nodes.len(),
                    ({
                        let ll = lower_list(h@, root as int, cs.take(k as int), f.env, base2);
                        &&& out@ == old(out)@ + f.nodes + ll.nodes
                        &&& logger@ == old(logger)@ + f.diags + ll.diags
                        &&& env@ == ll.env
                        &&& roots@.map_values(|a: usize| a as int) == ll.roots
                    }),
                    base == old(out)@.len() as int,
                    env@.len() == old(env)@.len(),
                    env.wf(),
                    out.wf(),
                    forall|m: int| 0 <= m < roots@.len() ==> #[trigger] roots@[m] < out@.len(),
                decreases args@.len() - k,
            {
                let c = args[k];
                proof {
                    assert(h@[root as int] == (HirExpr::Call { func: *func, args: *args }));
                    assert(hir_node_wf(h@[root as int], root as int));
                    assert(h@[root as int]->Call_args == *args);
                    assert(0 <= k < args@.len());
                    assert(args@[k as int] < root);
                    assert(cs.take(k as int + 1).drop_last() =~= cs.take(k as int));
                    assert(cs.take(k as int + 1).last() == c as int);
                }
                let childroot = construct_mir(h, c, env, out, logger);
                roots.push(childroot);
                k = k + 1;
                proof {
                    let ll2 = lower_list(h@, root as int, cs.take(k as int), f.env, base2);
                    assert(out@ =~= old(out)@ + f.nodes + ll2.nodes);
                    assert(logger@ =~= old(logger)@ + f.diags + ll2.diags);
                    assert(roots@.map_values(|a: usize| a as int) =~= ll2.roots);
                }
            }
            proof {
                assert(cs.take(args@.len() as int) =~= cs);
            }
            let idx = out.push_node(MirExpr::Call { func: froot, args: roots });
            proof {
                assert(out@ =~= old(out)@ + spec_l.nodes);
                assert(logger@ =~= old(logger)@ + spec_l.diags);
            }
            idx
        },
        HirExpr::Block { items } => {
            env.enter_scope();
            let ghost env0 = old(env)@.push(Seq::<(Seq<u8>, usize)>::empty());
            let ghost cs = items@.map_values(|a: usize| a as int);
            let mut roots: Vec<usize> = Vec::new();
            let mut k: usize = 0;
            proof {
                assert(cs.take(0) =~= Seq::<int>::empty());
            }
            while k < items.len()
                invariant
                    h.wf(),
                    root < h@.len(),
                    h@[root as int] == (HirExpr::Block { items: *items }),
                    hir_node_wf(h@[root as int], root as int),
                    cs == items@.map_values(|a: usize| a as int),
                    k <= items@.len(),
                    env0 == old(env)@.push(Seq::<(Seq<u8>, usize)>::empty()),
                    ({
                        let ll = lower_list(h@, root as int, cs.take(k as int), env0, base);
                        &&& out@ == old(out)@ + ll.nodes
                        &&& logger@ == old(logger)@ + ll.diags
                        &&& env@ == ll.env
                        &&& roots@.map_values(|a: usize| a as int) == ll.roots
                    }),
                    base == old(out)@.len() as int,
                    env@.len() == old(env)@.len() + 1,
                    env.wf(),
                    out.wf(),
                    forall|m: int| 0 <= m < roots@.len() ==> #[trigger] roots@[m] < out@.len(),
                decreases items@.len() - k,
            {
                let c = items[k];
                proof {
                    assert(h@[root as int] == (HirExpr::Block { items: *items }));
                    assert(hir_node_wf(h@[root as int], root as int));
                    assert(h@[root as int]->Block_items == *items);
                    assert(0 <= k < items@.len());
                    assert(items@[k as int] < root);
                    assert(cs.take(k as int + 1).drop_last() =~= cs.take(k as int));
                    assert(cs.take(k as int + 1).last() == c as int);
                }
                let childroot = construct_mir(h, c, env, out, logger);
                roots.push(childroot);
                k = k + 1;
                proof {
                    let ll2 = lower_list(h@, root as int, cs.take(k as int), env0, base);
                    assert(out@ =~= old(out)@ + ll2.nodes);
                    assert(logger@ =~= old(logger)@ + ll2.diags);
                    assert(roots@.map_values(|a: usize| a as int) =~= ll2.roots);
                }
            }
            proof {
                assert(cs.take(items@.len() as int) =~= cs);
            }
            env.exit_scope();
            let idx = out.push_node(MirExpr::Block { items: roots });
            proof {
                assert(out@ =~= old(out)@ + spec_l.nodes);
                assert(logger@ =~= old(logger)@ + spec_l.diags);
            }
            idx
        },
    }
}

/// Whether the MIR node at `j` of `m` has, node for node, the same arity as
/// the HIR node at `i` of `h`: literals stay leaves, identifier references
/// become a reference or an error placeholder (both leaves), and every
/// compound node keeps exactly one lowered child per HIR child, in order.
pub open spec fn shape_matches(h: Seq<HirExpr>, i: int, m: Seq<MirExprV>, j: int) -> bool
    decreases i, 1int, 0int,
{
    if 0 <= i < h.len() && 0 <= j < m.len() {
        match h[i] {
            HirExpr::Lit { .. } => m[j] is Lit,
            HirExpr::Ident { .. } => m[j] is Ref || m[j] is Error,
            HirExpr::Let { value, body, .. } => m[j] matches MirExprV::Let {
                value: mv,
                body: mb,
                ..
            } && (value < i && shape_matches(h, value as int, m, mv)) && (body < i
                && shape_matches(h, body as int, m, mb)),
            HirExpr::Decl { value, .. } => m[j] matches MirExprV::Def { value: mv, .. } && (value
                < i && shape_matches(h, value as int, m, mv)),
            HirExpr::If { cond, thn, els } => m[j] matches MirExprV::If {
                cond: mc,
                thn: mt,
                els: me,
            } && (cond < i && shape_matches(h, cond as int, m, mc)) && (thn < i && shape_matches(
                h,
                thn as int,
                m,
                mt,
            )) && (els < i && shape_matches(h, els as int, m, me)),
            HirExpr::Call { func, args } => m[j] matches MirExprV::Call {
                func: mf,
                args: margs,
            } && (func < i && shape_matches(h, func as int, m, mf)) && margs.len() == args@.len()
                && (forall|k: int|
                0 <= k < args@.len() ==> ((#[trigger] args@[k]) < i && shape_matches(
                    h,
                    args@[k] as int,
                    m,
                    margs[k],
                ))),
            HirExpr::Block { items } => m[j] matches MirExprV::Block { items: mitems }
                && mitems.len() == items@.len() && (forall|k: int|
                0 <= k < items@.len() ==> ((#[trigger] items@[k]) < i && shape_matches(
                    h,
                    items@[k] as int,
                    m,
                    mitems[k],
                ))),
        }
    } else {
        false
    }
}

/// Law (lowering totality): lowering any node of a finite, well-formed HIR
/// tree yields a MIR tree of the same shape — the same arity at every node —
/// however many defects were reported along the way. Termination itself is
/// part of [`construct_mir`]'s verification: it carries a decreasing measure.
///
/// `m` is any arena that holds the lowered nodes at `[base, base + n)`, as
/// [`construct_mir`] ensures of its output arena; the subtree's root is the
/// last of them.
pub proof fn lemma_lowering_preserves_shape(
    h: Seq<HirExpr>,
    i: int,
    env: EnvView,
    base: int,
    m: Seq<MirExprV>,
)
    requires
        hir_wf(h),
        0 <= i < h.len(),
        0 <= base,
        base + lower_node(h, i, env, base).nodes.len() <= m.len(),
        m.subrange(base, base + lower_node(h, i, env, base).nodes.len() as int) == lower_node(
            h,
            i,
            env,
            base,
        ).nodes,
    ensures
        shape_matches(h, i, m, base + lower_node(h, i, env, base).nodes.len() - 1),
    decreases i, 1int, 0int,
{
    let l = lower_node(h, i, env, base);
    assert(hir_node_wf(h[i], i));
    assert forall|t: int| 0 <= t < l.nodes.len() implies m[base + t] == l.nodes[t] by {
        assert(m.subrange(base, base + l.nodes.len() as int)[t] == l.nodes[t]);
    }
    match h[i] {
        HirExpr::Lit { value } => {
            assert(m[base] == l.nodes[0]);
        },
        HirExpr::Ident { name } => {
            assert(m[base] == l.nodes[0]);
            assert(l.nodes[0] is Ref || l.nodes[0] is Error);
        },
        HirExpr::Let { name, value, body } => {
            let v = lower_node(h, value as int, env, base);
            let slot = (base + v.nodes.len() - 1) as usize;
            let benv = v.env.push(seq![(name@, slot)]);
            let b = lower_node(h, body as int, benv, base + v.nodes.len());
            lemma_lower_node_nonempty(h, value as int, env, base);
            lemma_lower_node_nonempty(h, body as int, benv, base + v.nodes.len());
            assert(l.nodes == v.nodes + b.nodes + seq![
                MirExprV::Let {
                    slot,
                    value: base + v.nodes.len() - 1,
                    body: base + v.nodes.len() + b.nodes.len() - 1,
                },
            ]);
            assert(v.nodes =~= m.subrange(base, base + v.nodes.len() as int));
            lemma_lowering_preserves_shape(h, value as int, env, base, m);
            assert forall|t: int| 0 <= t < b.nodes.len() implies m[base + v.nodes.len() + t] == b.nodes[t] by {
                assert(m.subrange(base, base + l.nodes.len() as int)[(base + v.nodes.len() - base) + t] == m[base + v.nodes.len()
                    + t]);
            }
            assert(b.nodes =~= m.subrange(
                base + v.nodes.len(),
                base + v.nodes.len() + b.nodes.len(),
            ));
            lemma_lowering_preserves_shape(h, body as int, benv, base + v.nodes.len(), m);
            assert(m[base + l.nodes.len() - 1] == l.nodes[l.nodes.len() - 1]);
        },
        HirExpr::Decl { name, value } => {
            let v = lower_node(h, value as int, env, base);
            lemma_lower_node_nonempty(h, value as int, env, base);
            assert(l.nodes.len() == v.nodes.len() + 1);
            assert(v.nodes =~= m.subrange(base, base + v.nodes.len() as int));
            lemma_lowering_preserves_shape(h, value as int, env, base, m);
            assert(m[base + l.nodes.len() - 1] == l.nodes[l.nodes.len() - 1]);
        },
        HirExpr::If { cond, thn, els } => {
            let c = lower_node(h, cond as int, env, base);
            let t = lower_node(h, thn as int, c.env, base + c.nodes.len());
            let e = lower_node(h, els as int, t.env, base + c.nodes.len() + t.nodes.len());
            lemma_lower_node_nonempty(h, cond as int, env, base);
            lemma_lower_node_nonempty(h, thn as int, c.env, base + c.nodes.len());
            lemma_lower_node_nonempty(h, els as int, t.env, base + c.nodes.len() + t.nodes.len());
            assert(l.nodes == c.nodes + t.nodes + e.nodes + seq![
                MirExprV::If {
                    cond: base + c.nodes.len() - 1,
                    thn: base + c.nodes.len() + t.nodes.len() - 1,
                    els: base + c.nodes.len() + t.nodes.len() + e.nodes.len() - 1,
                },
            ]);
            assert(c.nodes =~= m.subrange(base, base + c.nodes.len() as int));
            lemma_lowering_preserves_shape(h, cond as int, env, base, m);
            assert forall|t2: int| 0 <= t2 < t.nodes.len() implies m[base + c.nodes.len() + t2]
                == t.nodes[t2] by {
                assert(m.subrange(base, base + l.nodes.len() as int)[c.nodes.len() + t2] == m[base
                    + c.nodes.len() + t2]);
            }
            assert(t.nodes =~= m.subrange(
                base + c.nodes.len(),
                base + c.nodes.len() + t.nodes.len(),
            ));
            lemma_lowering_preserves_shape(h, thn as int, c.env, base + c.nodes.len(), m);
            assert forall|t2: int| 0 <= t2 < e.nodes.len() implies m[base + c.nodes.len()
                + t.nodes.len() + t2] == e.nodes[t2] by {
                assert(m.subrange(base, base + l.nodes.len() as int)[c.nodes.len() + t.nodes.len()
                    + t2] == m[base + c.nodes.len() + t.nodes.len() + t2]);
            }
            assert(e.nodes =~= m.subrange(
                base + c.nodes.len() + t.nodes.len(),
                base + c.nodes.len() + t.nodes.len() + e.nodes.len(),
            ));
            lemma_lowering_preserves_shape(
                h,
                els as int,
                t.env,
                base + c.nodes.len() + t.nodes.len(),
                m,
            );
            assert(m[base + l.nodes.len() - 1] == l.nodes[l.nodes.len() - 1]);
        },
        HirExpr::Call { func, args } => {
            let f = lower_node(h, func as int, env, base);
            let cs = args@.map_values(|a: usize| a as int);
            let rest = lower_list(h, i, cs, f.env, base + f.nodes.len());
            lemma_lower_node_nonempty(h, func as int, env, base);
            assert(l.nodes == f.nodes + rest.nodes + seq![
                MirExprV::Call { func: base + f.nodes.len() - 1, args: rest.roots },
            ]);
            assert(f.nodes =~= m.subrange(base, base + f.nodes.len() as int));
            lemma_lowering_preserves_shape(h, func as int, env, base, m);
            assert forall|t: int| 0 <= t < rest.nodes.len() implies m[base + f.nodes.len() + t] == rest.nodes[t] by {
                assert(m.subrange(base, base + l.nodes.len() as int)[(base + f.nodes.len() - base) + t] == m[base + f.nodes.len()
                    + t]);
            }
            assert(rest.nodes =~= m.subrange(
                base + f.nodes.len(),
                base + f.nodes.len() + rest.nodes.len(),
            ));
            assert(forall|k: int| 0 <= k < cs.len() ==> 0 <= #[trigger] cs[k] < i);
            lemma_list_preserves_shape(h, i, cs, f.env, base + f.nodes.len(), m);
            assert(m[base + l.nodes.len() - 1] == l.nodes[l.nodes.len() - 1]);
            assert(h[i]->Call_args == args);
            assert forall|k: int|
                0 <= k < args@.len() implies ((#[trigger] args@[k]) < i && shape_matches(
                h,
                args@[k] as int,
                m,
                rest.roots[k],
            )) by {
                assert(cs[k] == args@[k] as int);
                assert(shape_matches(h, cs[k], m, rest.roots[k]));
            }
        },
        HirExpr::Block { items } => {
            let cs = items@.map_values(|a: usize| a as int);
            let inner = lower_list(h, i, cs, env.push(Seq::empty()), base);
            assert(l.nodes == inner.nodes + seq![MirExprV::Block { items: inner.roots }]);
            assert(inner.nodes =~= m.subrange(base, base + inner.nodes.len() as int));
            assert(forall|k: int| 0 <= k < cs.len() ==> 0 <= #[trigger] cs[k] < i);
            lemma_list_preserves_shape(h, i, cs, env.push(Seq::empty()), base, m);
            assert(m[base + l.nodes.len() - 1] == l.nodes[l.nodes.len() - 1]);
            assert(h[i]->Block_items == items);
            assert forall|k: int|
                0 <= k < items@.len() implies ((#[trigger] items@[k]) < i && shape_matches(
                h,
                items@[k] as int,
                m,
                inner.roots[k],
            )) by {
                assert(cs[k] == items@[k] as int);
                assert(shape_matches(h, cs[k], m, inner.roots[k]));
            }
        },
    }
}

/// The list form of [`lemma_lowering_preserves_shape`]: each child of a
/// lowered child list keeps its shape, and its root index is recorded in
/// order.
pub proof fn lemma_list_preserves_shape(
    h: Seq<HirExpr>,
    bound: int,
    cs: Seq<int>,
    env: EnvView,
    base: int,
    m: Seq<MirExprV>,
)
    requires
        hir_wf(h),
        0 <= bound <= h.len(),
        forall|k: int| 0 <= k < cs.len() ==> 0 <= #[trigger] cs[k] < bound,
        0 <= base,
        base + lower_list(h, bound, cs, env, base).nodes.len() <= m.len(),
        m.subrange(base, base + lower_list(h, bound, cs, env, base).nodes.len() as int)
            == lower_list(h, bound, cs, env, base).nodes,
    ensures
        lower_list(h, bound, cs, env, base).roots.len() == cs.len(),
        forall|k: int|
            0 <= k < cs.len() ==> shape_matches(
                h,
                #[trigger] cs[k],
                m,
                lower_list(h, bound, cs, env, base).roots[k],
            ),
    decreases bound, 0int, cs.len(),
{
    if cs.len() > 0 {
        let full = lower_list(h, bound, cs, env, base);
        let p = lower_list(h, bound, cs.drop_last(), env, base);
        let q = lower_node(h, cs.last(), p.env, base + p.nodes.len());
        assert forall|t: int| 0 <= t < full.nodes.len() implies m[base + t] == full.nodes[t] by {
            assert(m.subrange(base, base + full.nodes.len() as int)[t] == full.nodes[t]);
        }
        assert(forall|k: int|
            0 <= k < cs.drop_last().len() ==> 0 <= #[trigger] cs.drop_last()[k] < bound);
        assert(full.nodes == p.nodes + q.nodes);
        assert(p.nodes =~= m.subrange(base, base + p.nodes.len() as int));
        lemma_list_preserves_shape(h, bound, cs.drop_last(), env, base, m);
        lemma_lower_node_nonempty(h, cs.last(), p.env, base + p.nodes.len());
        assert forall|t: int| 0 <= t < q.nodes.len() implies m[base + p.nodes.len() + t]
            == q.nodes[t] by {
            assert(m.subrange(base, base + full.nodes.len() as int)[p.nodes.len() + t] == m[base
                + p.nodes.len() + t]);
        }
        assert(q.nodes =~= m.subrange(
            base + p.nodes.len(),
            base + p.nodes.len() + q.nodes.len(),
        ));
        lemma_lowering_preserves_shape(h, cs.last(), p.env, base + p.nodes.len(), m);
        assert forall|k: int|
            0 <= k < cs.len() implies shape_matches(h, cs[k], m, full.roots[k]) by {
            if k < cs.len() - 1 {
                assert(cs.drop_last()[k] == cs[k]);
                assert(full.roots[k] == p.roots[k]);
            } else {
                assert(cs[k] == cs.last());
                assert(full.roots[k] == base + p.nodes.len() + q.nodes.len() - 1);
            }
        }
    }
}


} // verus!
