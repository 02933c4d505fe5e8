//! Mid-level lowering stage of a compiler front end: a diagnostic-reporting
//! bus shared by every pipeline stage, a lexically scoped binding environment,
//! and the HIR-to-MIR lowering pass that uses both.

pub mod diagnostic;
pub mod dlogger;
pub mod scope;
pub mod hir;
pub mod mir;
pub mod mirbuilder;
