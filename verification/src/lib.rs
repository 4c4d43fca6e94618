//! Cycle-breaking elaboration for mutually dependent interface groups.
//!
//! A group of interfaces whose implementations depend on one another in a
//! cycle cannot be accepted by a resolver that insists on well-founded,
//! finitely checkable proofs.  This library models such groups as plain data
//! and rewrites them into rank-indexed variants: each dependency edge consumes
//! one unit of a type-level fuel numeral, and a sentinel implementation at
//! fuel zero either fails with a recursion limit or redirects through a
//! lazily installed trampoline table, allowing unbounded logical recursion at
//! runtime while the static unrolling stays finite.

pub mod ast;
pub mod collect;
pub mod engine;
pub mod entry;
pub mod laws;
pub mod names;
pub mod payload;
pub mod runtime;
pub mod standalone;

use vstd::prelude::*;

verus! {

/// Marker trait used by generated code to track staged type expansion: a
/// resolution entry binds an interned type reference, keyed by index under a
/// caller-supplied marker type, to the type it stands for.
pub trait Repeater<const RANDOM: u64, const IX: usize, PARAM> {
    /// The resolved type at the given stage.
    type Type;
}

} // verus!
