//! The elaboration engine and the collector on concrete groups.

use decycle::ast::{
    Diag, GenBody, GenItem, ImplItem, ImplRecord, ItemKind, Name, ParamKind, Path, Predicate,
    Receiver, TraitDecl, TraitItem, TypeExpr,
};
use decycle::collect::{
    check_submodule, is_decycle_attribute, process_module, process_trait_path, CollectError,
    CollectorCall, ModItem, UseTree,
};
use decycle::engine::{finalize, first_non_lifetime, get_initial_rank, FinalizeArgs};
use decycle::entry::{decycle, AnnotationTarget, Args, ExpandError, Expansion};
use decycle::names::get_random;
use decycle::standalone::InternScan;

fn bare(n: Name) -> Path {
    Path { leading_colon: false, segments: vec![n], args: Vec::new() }
}

fn one_method_trait(ident: u64, m: u64) -> TraitDecl {
    TraitDecl {
        ident: Name::User(ident),
        params: Vec::new(),
        items: vec![TraitItem { kind: ItemKind::Method(Receiver::Ref, 0), ident: Name::User(m) }],
    }
}

fn one_impl(target: u64, self_sym: u64, dep_target: u64, dep_self: u64) -> ImplRecord {
    ImplRecord {
        self_ty: TypeExpr::Named(bare(Name::User(self_sym))),
        trait_path: bare(Name::User(target)),
        params: Vec::new(),
        preds: vec![Predicate {
            subject: TypeExpr::Named(bare(Name::User(dep_self))),
            bounds: vec![bare(Name::User(dep_target))],
        }],
        items: vec![ImplItem {
            kind: ItemKind::Method(Receiver::Ref, 0),
            ident: Name::User(target * 100),
            body: target,
        }],
    }
}

fn two_cycle(budget: usize, unbounded: bool) -> FinalizeArgs {
    FinalizeArgs {
        working_list: Vec::new(),
        traits: vec![one_method_trait(1, 101), one_method_trait(2, 201)],
        contents: vec![one_impl(1, 11, 2, 12), one_impl(2, 12, 1, 11)],
        recurse_level: budget,
        support_infinite_cycle: unbounded,
    }
}

#[test]
fn test_initial_rank_numeral() {
    // The initial rank is the budget-deep chain of one-element tuples.
    let mut t = get_initial_rank(3);
    let mut depth: usize = 0;
    loop {
        match t {
            TypeExpr::Wrap(inner) => {
                depth += 1;
                t = *inner;
            }
            TypeExpr::Unit => break,
            _ => panic!("a numeral holds only wraps and the unit"),
        }
    }
    assert_eq!(depth, 3);
    assert!(matches!(get_initial_rank(0), TypeExpr::Unit));
}

#[test]
fn test_rank_slot_after_lifetimes() {
    let params = vec![
        decycle::ast::GenericParam {
            kind: ParamKind::Lifetime,
            ident: Name::User(1),
            bounds: Vec::new(),
        },
        decycle::ast::GenericParam {
            kind: ParamKind::Lifetime,
            ident: Name::User(2),
            bounds: Vec::new(),
        },
        decycle::ast::GenericParam {
            kind: ParamKind::Ty,
            ident: Name::User(3),
            bounds: Vec::new(),
        },
    ];
    assert_eq!(first_non_lifetime(&params), 2);
    let no_types = vec![decycle::ast::GenericParam {
        kind: ParamKind::Lifetime,
        ident: Name::User(1),
        bounds: Vec::new(),
    }];
    assert_eq!(first_non_lifetime(&no_types), 1);
    assert_eq!(first_non_lifetime(&Vec::new()), 0);
}

#[test]
fn test_rewritten_record_ranks() {
    // The rewritten record implements the ranked interface one wrap above
    // the rank parameter; its dependency bound carries the bare rank.
    let suffix = get_random();
    let unit = finalize(two_cycle(10, true));
    match &unit.items[2] {
        GenItem::Impl(g) => {
            assert_eq!(g.trait_path.segments, vec![Name::Ranked(1, suffix)]);
            match &g.trait_path.args[0] {
                TypeExpr::Wrap(inner) => match &**inner {
                    TypeExpr::Named(p) => {
                        assert_eq!(p.segments, vec![Name::RankParam(suffix)])
                    }
                    _ => panic!("the wrapped rank is the rank parameter"),
                },
                _ => panic!("the implemented rank is one wrap deep"),
            }
            // the fresh rank parameter is appended to the generics
            assert_eq!(g.params.last().unwrap().ident, Name::RankParam(suffix));
            // the dependency bound references the other ranked interface
            // at the bare rank parameter
            let dep = &g.preds[0].bounds[0];
            assert_eq!(dep.segments, vec![Name::Ranked(2, suffix)]);
            match &dep.args[0] {
                TypeExpr::Named(p) => assert_eq!(p.segments, vec![Name::RankParam(suffix)]),
                _ => panic!("the dependency rank is the bare rank parameter"),
            }
        }
        _ => panic!("expected the rewritten implementation"),
    }
}

#[test]
fn test_sentinel_has_no_participant_bounds() {
    // The sentinel implements the ranked interface at the unit rank, with
    // every participant dependency bound stripped.
    let suffix = get_random();
    let unit = finalize(two_cycle(10, false));
    match &unit.items[3] {
        GenItem::Impl(g) => {
            assert_eq!(g.trait_path.segments, vec![Name::Ranked(1, suffix)]);
            assert!(matches!(g.trait_path.args[0], TypeExpr::Unit));
            // the only bound of the record named the other participant, so
            // the whole predicate is gone
            assert_eq!(g.preds.len(), 0);
            assert!(matches!(g.items[0].body, GenBody::LimitFail));
        }
        _ => panic!("expected the sentinel implementation"),
    }
    // one sentinel per (participant, implementing type) pair
    let sentinels = unit
        .items
        .iter()
        .filter(|it| match it {
            GenItem::Impl(g) => matches!(g.trait_path.args.get(0), Some(TypeExpr::Unit)),
            _ => false,
        })
        .count();
    assert_eq!(sentinels, 2);
}

#[test]
fn test_participant_without_records_is_dropped() {
    // A participant with no implementation record contributes nothing and
    // is reported with a non-fatal diagnostic.
    let mut args = two_cycle(10, true);
    args.traits.push(one_method_trait(3, 301));
    let unit = finalize(args);
    assert_eq!(unit.items.len(), 8);
    assert_eq!(unit.diags, vec![Diag::NoImplementations(Name::User(3))]);
    assert_eq!(unit.shadowed, vec![Name::User(1), Name::User(2)]);
}

#[test]
fn test_non_participant_bounds_pass_through() {
    // A dependency bound naming an interface outside the group is left as
    // declared.
    let mut args = two_cycle(10, true);
    args.contents[0].preds.push(Predicate {
        subject: TypeExpr::Named(bare(Name::User(11))),
        bounds: vec![bare(Name::User(99))],
    });
    let unit = finalize(args);
    match &unit.items[2] {
        GenItem::Impl(g) => {
            let kept = &g.preds[1].bounds[0];
            assert_eq!(kept.segments, vec![Name::User(99)]);
            assert_eq!(kept.args.len(), 0);
        }
        _ => panic!("expected the rewritten implementation"),
    }
}

fn marker_attr() -> Path {
    bare(Name::User(0))
}

fn module_items() -> Vec<ModItem> {
    vec![
        ModItem::TraitDef { attrs: vec![marker_attr()], decl: one_method_trait(1, 101) },
        ModItem::TraitDef { attrs: vec![marker_attr()], decl: one_method_trait(2, 201) },
        ModItem::ImplDef { record: one_impl(1, 11, 2, 12) },
        ModItem::ImplDef { record: one_impl(2, 12, 1, 11) },
        ModItem::Other(55),
    ]
}

#[test]
fn test_collector_partitions_members() {
    let out = process_module(module_items(), &bare(Name::User(0)), 0, &Vec::new(), 10, true)
        .unwrap();
    // the participant impls move to the engine; the rest stays untouched
    assert_eq!(out.raw.len(), 3);
    match out.call {
        CollectorCall::Direct(args) => {
            assert_eq!(args.traits.len(), 2);
            assert_eq!(args.contents.len(), 2);
            assert_eq!(args.recurse_level, 10);
            // the work list holds only the final step
            assert_eq!(args.working_list.len(), 1);
            assert_eq!(
                args.working_list[0].segments.last(),
                Some(&Name::FinalizeEntry)
            );
        }
        CollectorCall::Chained(_, _) => panic!("a local group elaborates directly"),
    }
}

#[test]
fn test_collector_chains_external_participants() {
    let mut items = module_items();
    items.push(ModItem::UseDecl {
        attrs: vec![marker_attr()],
        tree: UseTree::Prefix(Name::User(70), Box::new(UseTree::Leaf(Name::User(3)))),
    });
    let out = process_module(items, &bare(Name::User(0)), 0, &Vec::new(), 10, true).unwrap();
    match out.call {
        CollectorCall::Chained(first, payload) => {
            assert_eq!(first.segments, vec![Name::User(3)]);
            assert_eq!(payload.working_list.len(), 2);
            assert_eq!(payload.traits.len(), 2);
            assert_eq!(payload.recurse_level, 10);
        }
        CollectorCall::Direct(_) => panic!("an external participant defers the call"),
    }
}

#[test]
fn test_collector_refuses_glob_use() {
    let mut items = module_items();
    items.push(ModItem::UseDecl { attrs: vec![marker_attr()], tree: UseTree::Glob });
    let got = process_module(items, &bare(Name::User(0)), 0, &Vec::new(), 10, true);
    assert!(matches!(got, Err(CollectError::GlobInUse)));
}

#[test]
fn test_collector_refuses_nested_marker() {
    let mut items = module_items();
    items.push(ModItem::SubMod {
        items: vec![ModItem::TraitDef {
            attrs: vec![marker_attr()],
            decl: one_method_trait(4, 401),
        }],
    });
    let got = process_module(items, &bare(Name::User(0)), 0, &Vec::new(), 10, true);
    assert!(matches!(got, Err(CollectError::NestedGroupMarker)));
}

#[test]
fn test_collector_refuses_macros() {
    let mut items = module_items();
    items.push(ModItem::MacroDef);
    let got = process_module(items, &bare(Name::User(0)), 0, &Vec::new(), 10, true);
    assert!(matches!(got, Err(CollectError::MacroUnsupported)));
}

#[test]
fn test_collector_needs_a_marked_member() {
    let items = vec![ModItem::Other(55)];
    let got = process_module(items, &bare(Name::User(0)), 0, &Vec::new(), 10, true);
    assert!(matches!(got, Err(CollectError::NothingMarked)));
}

#[test]
fn test_marker_recognition() {
    // decycle, decycle::decycle, and a manifest rename of the crate.
    let renames = vec![(77u64, 0u64)];
    assert!(is_decycle_attribute(&bare(Name::User(0)), 0, &renames));
    let qualified = Path {
        leading_colon: false,
        segments: vec![Name::User(0), Name::User(0)],
        args: Vec::new(),
    };
    assert!(is_decycle_attribute(&qualified, 0, &renames));
    let renamed = Path {
        leading_colon: false,
        segments: vec![Name::User(77), Name::User(0)],
        args: Vec::new(),
    };
    assert!(is_decycle_attribute(&renamed, 0, &renames));
    let other = Path {
        leading_colon: false,
        segments: vec![Name::User(78), Name::User(0)],
        args: Vec::new(),
    };
    assert!(!is_decycle_attribute(&other, 0, &renames));
}

#[test]
fn test_submodule_scan_sees_deep_markers() {
    let deep = vec![ModItem::SubMod {
        items: vec![ModItem::UseDecl {
            attrs: vec![marker_attr()],
            tree: UseTree::Leaf(Name::User(3)),
        }],
    }];
    assert!(check_submodule(&deep, 0, &Vec::new()));
    let clean = vec![ModItem::Other(1), ModItem::SubMod { items: Vec::new() }];
    assert!(!check_submodule(&clean, 0, &Vec::new()));
}

#[test]
fn test_use_tree_extraction() {
    // a::{b, c as d} brings in b and d
    let tree = UseTree::Prefix(
        Name::User(1),
        Box::new(UseTree::Group(vec![
            UseTree::Leaf(Name::User(2)),
            UseTree::Rename(Name::User(3), Name::User(4)),
        ])),
    );
    let ps = process_trait_path(&tree).unwrap();
    assert_eq!(ps.len(), 2);
    assert_eq!(ps[0].segments, vec![Name::User(2)]);
    assert_eq!(ps[1].segments, vec![Name::User(4)]);
}

fn no_args() -> Args {
    Args {
        decycle: None,
        marker: None,
        alter_macro_name: None,
        allowed_paths: None,
        recurse_level: None,
        support_infinite_cycle: None,
    }
}

#[test]
fn test_dispatch_rejects_misplaced_options() {
    // marker on a module
    let mut args = no_args();
    args.marker = Some(bare(Name::User(5)));
    let got = decycle(args, AnnotationTarget::Module(module_items()), 0, &Vec::new(), 1);
    assert!(matches!(got, Err(ExpandError::MarkerUnsupported)));
    // recurse_level on a standalone declaration
    let mut args = no_args();
    args.recurse_level = Some(3);
    let got = decycle(
        args,
        AnnotationTarget::TraitTarget(one_method_trait(1, 101), InternScan::Found(Vec::new())),
        0,
        &Vec::new(),
        1,
    );
    assert!(matches!(got, Err(ExpandError::RecurseLevelUnsupported)));
    // a bare marked use belongs inside a unit
    let got = decycle(no_args(), AnnotationTarget::UseTarget, 0, &Vec::new(), 1);
    assert!(matches!(got, Err(ExpandError::PlaceInsideModule)));
    // anything else is refused
    let got = decycle(no_args(), AnnotationTarget::Unsupported(9), 0, &Vec::new(), 1);
    assert!(matches!(got, Err(ExpandError::UnsupportedTarget)));
}

#[test]
fn test_dispatch_defaults() {
    // budget ten and the unbounded mode, unless overridden
    let got = decycle(no_args(), AnnotationTarget::Module(module_items()), 0, &Vec::new(), 1)
        .unwrap();
    match got {
        Expansion::Unit(out) => match out.call {
            CollectorCall::Direct(a) => {
                assert_eq!(a.recurse_level, 10);
                assert!(a.support_infinite_cycle);
            }
            _ => panic!("a local group elaborates directly"),
        },
        _ => panic!("a module expands as a unit"),
    }
    let mut args = no_args();
    args.recurse_level = Some(2);
    args.support_infinite_cycle = Some(false);
    let got = decycle(args, AnnotationTarget::Module(module_items()), 0, &Vec::new(), 1)
        .unwrap();
    match got {
        Expansion::Unit(out) => match out.call {
            CollectorCall::Direct(a) => {
                assert_eq!(a.recurse_level, 2);
                assert!(!a.support_infinite_cycle);
            }
            _ => panic!("a local group elaborates directly"),
        },
        _ => panic!("a module expands as a unit"),
    }
}

#[test]
fn test_marker_stripped_from_kept_members() {
    // A re-emitted marked declaration no longer carries the group marker;
    // its other attributes stay in order.
    let other_attr = |sym: u64| bare(Name::User(sym));
    let items = vec![
        ModItem::TraitDef {
            attrs: vec![other_attr(90), marker_attr(), other_attr(91)],
            decl: one_method_trait(1, 101),
        },
        ModItem::ImplDef { record: one_impl(1, 11, 1, 11) },
    ];
    let out = process_module(items, &bare(Name::User(0)), 0, &Vec::new(), 10, true).unwrap();
    assert_eq!(out.raw.len(), 1);
    match &out.raw[0] {
        ModItem::TraitDef { attrs, decl } => {
            assert_eq!(attrs.len(), 2);
            assert_eq!(attrs[0].segments, vec![Name::User(90)]);
            assert_eq!(attrs[1].segments, vec![Name::User(91)]);
            assert_eq!(decl.ident, Name::User(1));
        }
        _ => panic!("the declaration stays among the untouched members"),
    }
}
