//! The lowering pass observed from outside: error recovery, scope handling,
//! and the exact trees and diagnostics it produces.

use mir_lower::diagnostic::Diagnostic;
use mir_lower::dlogger::DiagnosticLog;
use mir_lower::hir::{HirArena, HirExpr};
use mir_lower::mir::{MirArena, MirExpr};
use mir_lower::mirbuilder::construct_mir;
use mir_lower::scope::ScopeEnv;

fn drain(bus: &mut DiagnosticLog) -> Vec<Diagnostic> {
    let mut out = Vec::new();
    while let Some(d) = bus.take_next() {
        out.push(d);
    }
    out
}

#[test]
fn let_y_eq_x_in_y_recovers_from_unbound_x() {
    let mut h = HirArena::new();
    let x = h.push_node(HirExpr::Ident { name: vec![b'x'] });
    let y = h.push_node(HirExpr::Ident { name: vec![b'y'] });
    let root = h.push_node(HirExpr::Let { name: vec![b'y'], value: x, body: y });

    let mut bus = DiagnosticLog::new();
    let mut logger = bus.getLogger();
    let mut env = ScopeEnv::new();
    let mut out = MirArena::new();
    let r = construct_mir(&h, root, &mut env, &mut out, &mut logger);

    assert_eq!(r, 2);
    assert_eq!(out.len(), 3);
    // The unresolved `x` became an error placeholder...
    assert_eq!(*out.node(0), MirExpr::Error);
    // ...while `y` resolved to the slot the `let` introduced.
    assert_eq!(*out.node(1), MirExpr::Ref { slot: 0 });
    assert_eq!(*out.node(2), MirExpr::Let { slot: 0, value: 0, body: 1 });

    assert!(bus.collect(&mut logger).is_ok());
    assert_eq!(
        drain(&mut bus),
        vec![Diagnostic::UnboundIdentifier { name: vec![b'x'] }]
    );
}

#[test]
fn literal_lowers_to_literal_with_no_diagnostics() {
    let mut h = HirArena::new();
    let root = h.push_node(HirExpr::Lit { value: 42 });

    let mut bus = DiagnosticLog::new();
    let mut logger = bus.getLogger();
    let mut env = ScopeEnv::new();
    let mut out = MirArena::new();
    let r = construct_mir(&h, root, &mut env, &mut out, &mut logger);

    assert_eq!(r, 0);
    assert_eq!(*out.node(0), MirExpr::Lit { value: 42 });
    assert!(bus.collect(&mut logger).is_ok());
    assert_eq!(drain(&mut bus), Vec::new());
}

#[test]
fn duplicate_declaration_reports_once_and_keeps_first_slot() {
    let mut h = HirArena::new();
    let one = h.push_node(HirExpr::Lit { value: 1 });
    let d1 = h.push_node(HirExpr::Decl { name: vec![b'x'], value: one });
    let two = h.push_node(HirExpr::Lit { value: 2 });
    let d2 = h.push_node(HirExpr::Decl { name: vec![b'x'], value: two });
    let usex = h.push_node(HirExpr::Ident { name: vec![b'x'] });
    let root = h.push_node(HirExpr::Block { items: vec![d1, d2, usex] });

    let mut bus = DiagnosticLog::new();
    let mut logger = bus.getLogger();
    let mut env = ScopeEnv::new();
    let mut out = MirArena::new();
    let r = construct_mir(&h, root, &mut env, &mut out, &mut logger);

    assert_eq!(r, 5);
    assert_eq!(*out.node(0), MirExpr::Lit { value: 1 });
    assert_eq!(*out.node(1), MirExpr::Def { slot: 0, value: 0 });
    assert_eq!(*out.node(2), MirExpr::Lit { value: 2 });
    // The rebinding was refused: the second declaration keeps the first slot.
    assert_eq!(*out.node(3), MirExpr::Def { slot: 0, value: 2 });
    // And the use still resolves to the original binding.
    assert_eq!(*out.node(4), MirExpr::Ref { slot: 0 });
    assert_eq!(*out.node(5), MirExpr::Block { items: vec![1, 3, 4] });

    assert!(bus.collect(&mut logger).is_ok());
    assert_eq!(
        drain(&mut bus),
        vec![Diagnostic::DuplicateBinding { name: vec![b'x'] }]
    );
}

#[test]
fn every_defect_is_reported_separately_in_order() {
    let mut h = HirArena::new();
    let f = h.push_node(HirExpr::Ident { name: vec![b'f'] });
    let g = h.push_node(HirExpr::Ident { name: vec![b'g'] });
    let root = h.push_node(HirExpr::Call { func: f, args: vec![g] });

    let mut bus = DiagnosticLog::new();
    let mut logger = bus.getLogger();
    let mut env = ScopeEnv::new();
    let mut out = MirArena::new();
    let r = construct_mir(&h, root, &mut env, &mut out, &mut logger);

    assert_eq!(r, 2);
    assert_eq!(*out.node(0), MirExpr::Error);
    assert_eq!(*out.node(1), MirExpr::Error);
    assert_eq!(*out.node(2), MirExpr::Call { func: 0, args: vec![1] });

    assert!(bus.collect(&mut logger).is_ok());
    assert_eq!(
        drain(&mut bus),
        vec![
            Diagnostic::UnboundIdentifier { name: vec![b'f'] },
            Diagnostic::UnboundIdentifier { name: vec![b'g'] },
        ]
    );
}

#[test]
fn nested_let_shadows_and_restores() {
    let mut h = HirArena::new();
    let one = h.push_node(HirExpr::Lit { value: 1 });
    let two = h.push_node(HirExpr::Lit { value: 2 });
    let usex = h.push_node(HirExpr::Ident { name: vec![b'x'] });
    let inner = h.push_node(HirExpr::Let { name: vec![b'x'], value: two, body: usex });
    let root = h.push_node(HirExpr::Let { name: vec![b'x'], value: one, body: inner });

    let mut bus = DiagnosticLog::new();
    let mut logger = bus.getLogger();
    let mut env = ScopeEnv::new();
    let mut out = MirArena::new();
    let r = construct_mir(&h, root, &mut env, &mut out, &mut logger);

    assert_eq!(r, 4);
    assert_eq!(*out.node(0), MirExpr::Lit { value: 1 });
    assert_eq!(*out.node(1), MirExpr::Lit { value: 2 });
    // The use of `x` sees the inner binding's slot, not the outer one's.
    assert_eq!(*out.node(2), MirExpr::Ref { slot: 1 });
    assert_eq!(*out.node(3), MirExpr::Let { slot: 1, value: 1, body: 2 });
    assert_eq!(*out.node(4), MirExpr::Let { slot: 0, value: 0, body: 3 });

    assert!(bus.collect(&mut logger).is_ok());
    assert_eq!(drain(&mut bus), Vec::new());
    // The pass left the environment balanced: the let bindings are gone.
    assert_eq!(env.resolve(&vec![b'x']), None);
}

#[test]
fn branch_lowers_both_arms_left_to_right() {
    let mut h = HirArena::new();
    let c = h.push_node(HirExpr::Lit { value: 0 });
    let t = h.push_node(HirExpr::Lit { value: 10 });
    let e = h.push_node(HirExpr::Ident { name: vec![b'e'] });
    let root = h.push_node(HirExpr::If { cond: c, thn: t, els: e });

    let mut bus = DiagnosticLog::new();
    let mut logger = bus.getLogger();
    let mut env = ScopeEnv::new();
    let mut out = MirArena::new();
    let r = construct_mir(&h, root, &mut env, &mut out, &mut logger);

    assert_eq!(r, 3);
    assert_eq!(*out.node(0), MirExpr::Lit { value: 0 });
    assert_eq!(*out.node(1), MirExpr::Lit { value: 10 });
    assert_eq!(*out.node(2), MirExpr::Error);
    assert_eq!(*out.node(3), MirExpr::If { cond: 0, thn: 1, els: 2 });

    assert!(bus.collect(&mut logger).is_ok());
    assert_eq!(
        drain(&mut bus),
        vec![Diagnostic::UnboundIdentifier { name: vec![b'e'] }]
    );
}

#[test]
fn block_scope_is_closed_on_exit() {
    let mut h = HirArena::new();
    let one = h.push_node(HirExpr::Lit { value: 1 });
    let d = h.push_node(HirExpr::Decl { name: vec![b'b'], value: one });
    let blk = h.push_node(HirExpr::Block { items: vec![d] });
    let useb = h.push_node(HirExpr::Ident { name: vec![b'b'] });
    let root = h.push_node(HirExpr::Block { items: vec![blk, useb] });

    let mut bus = DiagnosticLog::new();
    let mut logger = bus.getLogger();
    let mut env = ScopeEnv::new();
    let mut out = MirArena::new();
    construct_mir(&h, root, &mut env, &mut out, &mut logger);

    // `b` was declared in the inner block, so the use outside it fails.
    assert!(bus.collect(&mut logger).is_ok());
    assert_eq!(
        drain(&mut bus),
        vec![Diagnostic::UnboundIdentifier { name: vec![b'b'] }]
    );
}

#[test]
fn top_level_declaration_outlives_the_pass() {
    let mut h = HirArena::new();
    let one = h.push_node(HirExpr::Lit { value: 9 });
    let root = h.push_node(HirExpr::Decl { name: vec![b'k'], value: one });

    let mut bus = DiagnosticLog::new();
    let mut logger = bus.getLogger();
    let mut env = ScopeEnv::new();
    let mut out = MirArena::new();
    let r = construct_mir(&h, root, &mut env, &mut out, &mut logger);

    assert_eq!(r, 1);
    assert_eq!(*out.node(0), MirExpr::Lit { value: 9 });
    assert_eq!(*out.node(1), MirExpr::Def { slot: 0, value: 0 });
    // A declaration in the caller's own scope stays bound after the pass.
    assert_eq!(env.resolve(&vec![b'k']), Some(0));
    assert!(bus.collect(&mut logger).is_ok());
    assert_eq!(drain(&mut bus), Vec::new());
}

#[test]
fn lowering_appends_after_existing_output() {
    let mut h = HirArena::new();
    let root = h.push_node(HirExpr::Lit { value: 5 });

    let mut bus = DiagnosticLog::new();
    let mut logger = bus.getLogger();
    let mut env = ScopeEnv::new();
    let mut out = MirArena::new();
    out.push_node(MirExpr::Lit { value: 99 });
    let r = construct_mir(&h, root, &mut env, &mut out, &mut logger);

    // Earlier output is untouched; the new tree sits after it.
    assert_eq!(r, 1);
    assert_eq!(*out.node(0), MirExpr::Lit { value: 99 });
    assert_eq!(*out.node(1), MirExpr::Lit { value: 5 });
}

#[test]
fn caller_bindings_are_visible_to_the_pass() {
    let mut h = HirArena::new();
    let root = h.push_node(HirExpr::Ident { name: vec![b'g'] });

    let mut bus = DiagnosticLog::new();
    let mut logger = bus.getLogger();
    let mut env = ScopeEnv::new();
    assert!(env.bind(vec![b'g'], 77).is_ok());
    let mut out = MirArena::new();
    let r = construct_mir(&h, root, &mut env, &mut out, &mut logger);

    assert_eq!(r, 0);
    assert_eq!(*out.node(0), MirExpr::Ref { slot: 77 });
    assert!(bus.collect(&mut logger).is_ok());
    assert_eq!(drain(&mut bus), Vec::new());
}
