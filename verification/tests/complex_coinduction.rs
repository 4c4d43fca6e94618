//! Standalone interface declarations: each becomes a deferred expansion
//! step under a hygienic forwarding name.

use decycle::ast::{
    GenericParam, ItemKind, Name, ParamKind, Path, Receiver, TraitDecl, TraitItem, TypeExpr,
};
use decycle::names::get_random;
use decycle::standalone::{process_trait, InternScan};

fn declared(ident: u64) -> TraitDecl {
    TraitDecl {
        ident: Name::User(ident),
        params: Vec::new(),
        items: vec![TraitItem {
            kind: ItemKind::Method(Receiver::Ref, 1),
            ident: Name::User(ident + 1),
        }],
    }
}

#[test]
fn test_trait_macro_generation() {
    // Compute, Process, Validate and Transform each get a forwarding
    // macro under a distinct hygienic name.
    let suffix = get_random();
    let names: Vec<u64> = vec![1, 2, 3, 4];
    let mut macro_names = Vec::new();
    for ident in names {
        let export = process_trait(
            &declared(ident),
            None,
            None,
            InternScan::Found(Vec::new()),
            suffix,
        )
        .unwrap();
        assert_eq!(export.macro_name, Name::Temporal(ident, suffix));
        assert!(!macro_names.contains(&export.macro_name));
        macro_names.push(export.macro_name);
    }
    assert_eq!(macro_names.len(), 4);
}

#[test]
fn test_hygienic_rename_covers_uses() {
    // trait T<A, B: Into<A>>: the rename touches A at its declaration, B at
    // its declaration, and the use of A inside B's bound — but not the
    // foreign interface name in that bound.
    let a_ref = TypeExpr::Named(Path {
        leading_colon: false,
        segments: vec![Name::User(10)],
        args: Vec::new(),
    });
    let decl = TraitDecl {
        ident: Name::User(1),
        params: vec![
            GenericParam { kind: ParamKind::Ty, ident: Name::User(10), bounds: Vec::new() },
            GenericParam {
                kind: ParamKind::Ty,
                ident: Name::User(11),
                bounds: vec![Path {
                    leading_colon: false,
                    segments: vec![Name::User(20)],
                    args: vec![a_ref],
                }],
            },
        ],
        items: Vec::new(),
    };
    let suffix = get_random();
    let export = process_trait(&decl, None, None, InternScan::Found(Vec::new()), suffix).unwrap();
    assert_eq!(export.decl.params[0].ident, Name::RenamedParam(10, suffix));
    assert_eq!(export.decl.params[1].ident, Name::RenamedParam(11, suffix));
    let bound = &export.decl.params[1].bounds[0];
    // the foreign interface keeps its name; the use of A is renamed
    assert_eq!(bound.segments, vec![Name::User(20)]);
    match &bound.args[0] {
        TypeExpr::Named(p) => assert_eq!(p.segments, vec![Name::RenamedParam(10, suffix)]),
        _ => panic!("the bound argument is the renamed parameter"),
    }
}

#[test]
fn test_lifetimes_keep_their_names() {
    let decl = TraitDecl {
        ident: Name::User(1),
        params: vec![GenericParam {
            kind: ParamKind::Lifetime,
            ident: Name::User(30),
            bounds: Vec::new(),
        }],
        items: Vec::new(),
    };
    let suffix = get_random();
    let export = process_trait(&decl, None, None, InternScan::Found(Vec::new()), suffix).unwrap();
    assert_eq!(export.decl.params[0].ident, Name::User(30));
}
