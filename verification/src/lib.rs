//! Dependency-manifest reconciliation and project scaffolding plans for
//! Python packages.

pub mod add;
pub mod error;
pub mod lines;
pub mod reconcile;
pub mod reconcile_laws;
pub mod scaffold;
