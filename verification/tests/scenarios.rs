//! End-to-end scenarios: the bounded chain within and beyond its budget,
//! the trampoline past the static budget, a standalone declaration without
//! a marker, and a version mismatch in the chained protocol.

use decycle::ast::{ItemKind, Name, Receiver, TraitDecl, TraitItem, TypeExpr, Path};
use decycle::engine::FinalizeArgs;
use decycle::names::get_random;
use decycle::payload::{version_of_this_build, Payload, ProtocolError, VersionTag};
use decycle::runtime::{
    call_cyclic, call_unranked, eval_tramp, new_slot_table, CycleProgram, Node, RuntimeError,
};
use decycle::standalone::{process_trait, ConfigError, InternScan};

/// A chain of `depth + 1` nodes, each of value one, alternating between the
/// two participants.
fn chain(depth: usize) -> Node {
    let mut node = Node { value: 1, child: None };
    for _ in 0..depth {
        node = Node { value: 1, child: Some(Box::new(node)) };
    }
    node
}

#[test]
fn test_bounded_within_budget() {
    // Two participants A and B, L's record requiring R: B and R's
    // requiring L: A; budget ten, bounded mode.  A call on data the budget
    // covers is resolved statically and computes the unrolled sum.
    let prog = CycleProgram { offsets: vec![0, 0] };
    let node = chain(9);
    assert_eq!(call_unranked(&prog, 0, &node, 10), Ok(10));
}

#[test]
fn test_bounded_budget_exceeded() {
    // Budget two: a logical chain needing a third unrolling fails with the
    // recursion limit instead of hanging or resolving wrongly.
    let prog = CycleProgram { offsets: vec![0, 0] };
    let fits = chain(1);
    assert_eq!(call_unranked(&prog, 0, &fits, 2), Ok(2));
    let too_deep = chain(2);
    assert_eq!(
        call_unranked(&prog, 0, &too_deep, 2),
        Err(RuntimeError::RecursionLimitExceeded)
    );
}

#[test]
fn test_trampoline_extends_past_budget() {
    // Unbounded mode, budget two, a logical chain fifty levels deep: the
    // result equals the direct unbounded mutual recursion.
    let prog = CycleProgram { offsets: vec![0, 0] };
    let node = chain(50);
    let mut slots = new_slot_table(2);
    let got = call_cyclic(&prog, 0, &node, 2, &mut slots);
    assert_eq!(got, Ok(51));
    // both slots were installed on the way down
    assert!(slots.iter().all(|s| s.is_some()));
}

#[test]
fn test_trampoline_idempotent_installation() {
    // Repeated invocation installs each cell at most once: the second call
    // finds the same installed entries and produces the same result.
    let prog = CycleProgram { offsets: vec![3, 4] };
    let node = chain(7);
    let mut slots = new_slot_table(2);
    let first = call_cyclic(&prog, 0, &node, 2, &mut slots);
    let installed = slots.clone();
    let second = call_cyclic(&prog, 0, &node, 2, &mut slots);
    assert_eq!(first, second);
    assert_eq!(slots, installed);
    assert_eq!(slots[0], Some(0));
    assert_eq!(slots[1], Some(1));
}

#[test]
fn test_trampoline_cold_sentinel_fails() {
    // With a budget smaller than the cycle, the very first call reaches a
    // sentinel whose slot nobody warmed.
    let prog = CycleProgram { offsets: vec![0, 0] };
    let node = chain(3);
    let mut slots = new_slot_table(2);
    let got = eval_tramp(&prog, 0, &node, 1, 1, &mut slots);
    assert_eq!(got, Err(RuntimeError::TrampolineUnset));
    // And with no budget at all, no registration can ever happen.
    let mut empty = new_slot_table(2);
    let got0 = call_cyclic(&prog, 0, &node, 0, &mut empty);
    assert_eq!(got0, Err(RuntimeError::TrampolineUnset));
}

#[test]
fn test_standalone_without_marker_aborts() {
    // A standalone declaration with a locally scoped reference in its
    // signature and no marker: a configuration error, not a silent
    // mis-elaboration.
    let decl = TraitDecl {
        ident: Name::User(7),
        params: Vec::new(),
        items: vec![TraitItem {
            kind: ItemKind::Method(Receiver::Ref, 0),
            ident: Name::User(8),
        }],
    };
    let local_ref = TypeExpr::Named(Path {
        leading_colon: false,
        segments: vec![Name::User(9)],
        args: Vec::new(),
    });
    let got = process_trait(
        &decl,
        None,
        None,
        InternScan::Found(vec![local_ref]),
        get_random(),
    );
    assert!(matches!(got, Err(ConfigError::MarkerRequired)));
    // A reference that cannot be interned at all is refused too.
    let got2 = process_trait(&decl, None, None, InternScan::NotInternable, get_random());
    assert!(matches!(got2, Err(ConfigError::NonAbsoluteReference)));
}

#[test]
fn test_version_mismatch_aborts() {
    // Two independently processed units with mismatched version tags must
    // abort before any code is emitted.
    let stale = Payload {
        identity: b"decycle".to_vec(),
        version: VersionTag { major: 0, minor: 4, patch: 9 },
        working_list: Vec::new(),
        traits: Vec::new(),
        contents: Vec::new(),
        recurse_level: 10,
        support_infinite_cycle: true,
    };
    let got = FinalizeArgs::parse(stale);
    assert!(matches!(got, Err(ProtocolError::VersionMismatch)));
    let current = Payload {
        identity: b"decycle".to_vec(),
        version: version_of_this_build(),
        working_list: Vec::new(),
        traits: Vec::new(),
        contents: Vec::new(),
        recurse_level: 2,
        support_infinite_cycle: false,
    };
    let args = FinalizeArgs::parse(current).unwrap();
    assert_eq!(args.recurse_level, 2);
    assert!(!args.support_infinite_cycle);
}
