//! Compiler for DEML, a small textual language describing task-dependency
//! graphs: named tasks are arranged in tiers separated by delimiter lines,
//! and dependencies are declared explicitly (`<` / `>` relation lists) or
//! implied by tier position. The compiler tokenizes a document, extracts one
//! draft task per declaration, resolves declared successor relations into
//! reciprocal precursor edges, validates a strict tier-elevation invariant
//! that makes the resulting graph acyclic by construction, and resolves
//! precursor names to stable numeric ids. A validated graph can be rendered
//! as a Mermaid flowchart or handed to an external execution engine.

pub mod builder;
pub mod errors;
pub mod grammar;
mod ids;
pub mod laws;
pub mod mermaid;
pub mod tasks;
