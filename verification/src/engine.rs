//! The rank elaboration engine.
//!
//! Given the participant interface declarations and the implementation
//! records of one group, `finalize` emits, per participant with at least one
//! record: the rank-indexed variant of the declaration, a delegating
//! implementation that makes the rewrite transparent to unranked callers,
//! and, per record, a rewritten implementation one fuel step above its
//! dependency bounds together with the sentinel implementation at fuel zero.
//!
//! The spec functions in this module are the mathematical definition of the
//! transformation; `finalize` and its helpers are proved to compute exactly
//! these functions.

use vstd::prelude::*;

use crate::ast::{
    Diag, GenBody, GenImpl, GenImplItem, GenImplV, GenItem, GenItemV, GeneratedUnit, GenericParam,
    ImplItem, ImplRecord, ImplRecordV, ItemKind, Name, ParamKind, ParamV, Path, PathV, PredV,
    Predicate, Sym, TraitDecl, TraitDeclV, TraitItem, TypeExpr, TypeV, UnitV,
};
use crate::ast::{
    clone_param, clone_params, clone_path, clone_paths, clone_pred, clone_preds, clone_type,
    clone_types, gen_items_view, lemma_types_view, params_view, paths_view, path_view, preds_view,
    records_view, traits_view, types_view, type_view,
};
use crate::names::{get_random, hygiene_suffix};

verus! {

broadcast use {vstd::std_specs::vec::group_vec_axioms, vstd::seq::group_seq_axioms};

// ---------------------------------------------------------------------------
// Grouping records under their target participant
// ---------------------------------------------------------------------------

/// Does this record implement the participant interface named `ident`?
/// A record is grouped under a participant exactly when its interface path
/// is the bare, single-segment name of that participant.
pub open spec fn targets(r: ImplRecordV, ident: Name) -> bool {
    &&& !r.trait_path.leading_colon
    &&& r.trait_path.segments.len() == 1
    &&& r.trait_path.segments[0] == ident
}

/// The records implementing participant `ident`, in input order.
pub open spec fn impls_of(contents: Seq<ImplRecordV>, ident: Name) -> Seq<ImplRecordV>
    decreases contents.len(),
{
    if contents.len() == 0 {
        Seq::empty()
    } else {
        let rest = impls_of(contents.drop_last(), ident);
        if targets(contents.last(), ident) {
            rest.push(contents.last())
        } else {
            rest
        }
    }
}

// ---------------------------------------------------------------------------
// The rank-parameter slot and the replacing table
// ---------------------------------------------------------------------------

/// The insertion position of the rank parameter: the first non-lifetime
/// parameter slot, or the end of the list when every parameter is a
/// lifetime.
pub open spec fn loc_of(params: Seq<ParamV>) -> int
    decreases params.len(),
{
    if params.len() == 0 {
        0
    } else if params[0].kind != ParamKind::Lifetime {
        0
    } else {
        1 + loc_of(params.drop_first())
    }
}

/// `loc_of` is a position within the list (or just past it), every slot
/// before it is a lifetime, and the slot itself — when it exists — is not.
pub proof fn lemma_loc_of(params: Seq<ParamV>)
    ensures
        0 <= loc_of(params) <= params.len(),
        forall|i: int| 0 <= i < loc_of(params) ==> params[i].kind == ParamKind::Lifetime,
        loc_of(params) < params.len() ==> params[loc_of(params)].kind != ParamKind::Lifetime,
    decreases params.len(),
{
    if params.len() > 0 && params[0].kind == ParamKind::Lifetime {
        lemma_loc_of(params.drop_first());
        assert forall|i: int| 0 <= i < loc_of(params) implies params[i].kind
            == ParamKind::Lifetime by {
            if i > 0 {
                assert(params.drop_first()[i - 1] == params[i]);
            }
        }
        if loc_of(params) < params.len() {
            assert(params.drop_first()[loc_of(params) - 1] == params[loc_of(params)]);
        }
    }
}

/// The base symbol of a name, as far as a ranked variant is derived from it.
pub open spec fn base_sym(n: Name) -> Sym {
    match n {
        Name::User(s) => s,
        Name::Ranked(s, _) => s,
        Name::Temporal(s, _) => s,
        Name::RankParam(s) => s,
        Name::SelfParam(s) => s,
        Name::FinalizeEntry => 0,
        Name::RenamedParam(s, _) => s,
    }
}

/// The identity of a participant's ranked variant.
pub open spec fn ranked_name(ident: Name, suffix: u64) -> Name {
    Name::Ranked(base_sym(ident), suffix)
}

/// The replacing table: per participant with at least one record, in
/// declaration order, its identity and its rank-parameter slot.
pub open spec fn table_of(traits: Seq<TraitDeclV>, contents: Seq<ImplRecordV>) -> Seq<
    (Name, int),
>
    decreases traits.len(),
{
    if traits.len() == 0 {
        Seq::empty()
    } else {
        let rest = table_of(traits.drop_last(), contents);
        let t = traits.last();
        if impls_of(contents, t.ident).len() > 0 {
            rest.push((t.ident, loc_of(t.params)))
        } else {
            rest
        }
    }
}

/// First match in the replacing table.
pub open spec fn table_lookup(table: Seq<(Name, int)>, n: Name) -> Option<int>
    decreases table.len(),
{
    if table.len() == 0 {
        None
    } else if table[0].0 == n {
        Some(table[0].1)
    } else {
        table_lookup(table.drop_first(), n)
    }
}

// ---------------------------------------------------------------------------
// Rank numerals and rank arguments
// ---------------------------------------------------------------------------

/// The type-level numeral of the given depth: `depth` one-element tuples
/// nested around the unit sentinel.
pub open spec fn numeral_v(depth: nat) -> TypeV
    decreases depth,
{
    if depth == 0 {
        TypeV::Unit
    } else {
        TypeV::Wrap(Box::new(numeral_v((depth - 1) as nat)))
    }
}

/// The depth of a numeral; zero on anything that is not a numeral.
pub open spec fn numeral_depth(t: TypeV) -> nat
    decreases t,
{
    match t {
        TypeV::Wrap(inner) => numeral_depth(*inner) + 1,
        _ => 0,
    }
}

/// Is this type expression a rank numeral?
pub open spec fn is_numeral(t: TypeV) -> bool
    decreases t,
{
    match t {
        TypeV::Unit => true,
        TypeV::Wrap(inner) => is_numeral(*inner),
        _ => false,
    }
}

/// One more layer of fuel.
pub open spec fn step_v(t: TypeV) -> TypeV {
    TypeV::Wrap(Box::new(t))
}

/// The bare path of a generated identifier.
pub open spec fn bare_path(n: Name) -> PathV {
    PathV { leading_colon: false, segments: seq![n], args: Seq::empty() }
}

/// The rank type parameter as a type argument.
pub open spec fn rank_param_ty(suffix: u64) -> TypeV {
    TypeV::Named(bare_path(Name::RankParam(suffix)))
}

/// The fresh rank generic parameter.
pub open spec fn rank_param_v(suffix: u64) -> ParamV {
    ParamV { kind: ParamKind::Ty, ident: Name::RankParam(suffix), bounds: Seq::empty() }
}

/// A generic parameter used as a type argument of its own interface.
pub open spec fn param_as_arg(p: ParamV) -> TypeV {
    if p.kind == ParamKind::Lifetime {
        TypeV::Lifetime(p.ident)
    } else {
        TypeV::Named(bare_path(p.ident))
    }
}

/// The declaration's parameters as the argument list of a reference to it.
pub open spec fn params_as_args(params: Seq<ParamV>) -> Seq<TypeV> {
    Seq::new(params.len(), |i: int| param_as_arg(params[i]))
}

// ---------------------------------------------------------------------------
// Rewriting dependency bounds
// ---------------------------------------------------------------------------

/// Rewrites one bound: a single-segment path naming a participant becomes
/// the participant's ranked variant, with the bound's own arguments
/// preserved and the rank parameter inserted at the participant's slot;
/// any other bound is left as declared.
pub open spec fn rewrite_bound(b: PathV, table: Seq<(Name, int)>, suffix: u64) -> PathV {
    if b.segments.len() == 1 {
        match table_lookup(table, b.segments[0]) {
            Some(loc) => PathV {
                leading_colon: false,
                segments: seq![ranked_name(b.segments[0], suffix)],
                args: b.args.insert(loc, rank_param_ty(suffix)),
            },
            None => b,
        }
    } else {
        b
    }
}

/// Rewrites a bound list elementwise.
pub open spec fn rewrite_bounds(bs: Seq<PathV>, table: Seq<(Name, int)>, suffix: u64) -> Seq<
    PathV,
> {
    Seq::new(bs.len(), |i: int| rewrite_bound(bs[i], table, suffix))
}

/// Rewrites the bounds carried by a generic parameter.
pub open spec fn rewrite_param(p: ParamV, table: Seq<(Name, int)>, suffix: u64) -> ParamV {
    ParamV { kind: p.kind, ident: p.ident, bounds: rewrite_bounds(p.bounds, table, suffix) }
}

/// Rewrites a generic-parameter list elementwise.
pub open spec fn rewrite_params(ps: Seq<ParamV>, table: Seq<(Name, int)>, suffix: u64) -> Seq<
    ParamV,
> {
    Seq::new(ps.len(), |i: int| rewrite_param(ps[i], table, suffix))
}

/// Rewrites the bounds of a where-clause predicate.
pub open spec fn rewrite_pred(p: PredV, table: Seq<(Name, int)>, suffix: u64) -> PredV {
    PredV { subject: p.subject, bounds: rewrite_bounds(p.bounds, table, suffix) }
}

/// Rewrites a where clause elementwise.
pub open spec fn rewrite_preds(ps: Seq<PredV>, table: Seq<(Name, int)>, suffix: u64) -> Seq<
    PredV,
> {
    Seq::new(ps.len(), |i: int| rewrite_pred(ps[i], table, suffix))
}

// ---------------------------------------------------------------------------
// Stripping participant bounds for the sentinel implementation
// ---------------------------------------------------------------------------

/// Keep a bound unless it is a single-segment reference to a participant.
pub open spec fn keep_bound(b: PathV, table: Seq<(Name, int)>) -> bool {
    !(b.segments.len() == 1 && table_lookup(table, b.segments[0]) is Some)
}

/// The bounds that survive stripping, in order.
pub open spec fn strip_bounds(bs: Seq<PathV>, table: Seq<(Name, int)>) -> Seq<PathV>
    decreases bs.len(),
{
    if bs.len() == 0 {
        Seq::empty()
    } else {
        let rest = strip_bounds(bs.drop_last(), table);
        if keep_bound(bs.last(), table) {
            rest.push(bs.last())
        } else {
            rest
        }
    }
}

/// Strips the participant bounds from one generic parameter.
pub open spec fn strip_param(p: ParamV, table: Seq<(Name, int)>) -> ParamV {
    ParamV { kind: p.kind, ident: p.ident, bounds: strip_bounds(p.bounds, table) }
}

/// Strips a generic-parameter list elementwise; emptied parameters stay.
pub open spec fn strip_params(ps: Seq<ParamV>, table: Seq<(Name, int)>) -> Seq<ParamV> {
    Seq::new(ps.len(), |i: int| strip_param(ps[i], table))
}

/// Strips a where clause: participant bounds are removed, and a predicate
/// whose bounds are all removed is dropped entirely.
pub open spec fn strip_preds(ps: Seq<PredV>, table: Seq<(Name, int)>) -> Seq<PredV>
    decreases ps.len(),
{
    if ps.len() == 0 {
        Seq::empty()
    } else {
        let rest = strip_preds(ps.drop_last(), table);
        let kept = strip_bounds(ps.last().bounds, table);
        if kept.len() == 0 {
            rest
        } else {
            rest.push(PredV { subject: ps.last().subject, bounds: kept })
        }
    }
}

// ---------------------------------------------------------------------------
// The generated pieces
// ---------------------------------------------------------------------------

/// The rank-indexed variant of a participant declaration: the same
/// declaration with the fresh rank parameter inserted at its slot.
pub open spec fn ranked_decl_v(t: TraitDeclV, suffix: u64) -> TraitDeclV {
    TraitDeclV {
        ident: ranked_name(t.ident, suffix),
        params: t.params.insert(loc_of(t.params), rank_param_v(suffix)),
        items: t.items,
    }
}

/// A reference to the ranked variant with the given rank argument, applied
/// to the declaration's own parameters.
pub open spec fn ranked_self_bound(t: TraitDeclV, suffix: u64, rank: TypeV) -> PathV {
    PathV {
        leading_colon: false,
        segments: seq![ranked_name(t.ident, suffix)],
        args: params_as_args(t.params).insert(loc_of(t.params), rank),
    }
}

/// The delegating implementation: any type satisfying the ranked variant at
/// the initial rank also satisfies the original interface, every item
/// forwarding to the ranked bound.
pub open spec fn delegating_impl_v(t: TraitDeclV, suffix: u64, budget: nat) -> GenImplV {
    GenImplV {
        self_ty: TypeV::Named(bare_path(Name::SelfParam(suffix))),
        trait_path: PathV {
            leading_colon: false,
            segments: seq![t.ident],
            args: params_as_args(t.params),
        },
        params: t.params.insert(
            loc_of(t.params),
            ParamV {
                kind: ParamKind::Ty,
                ident: Name::SelfParam(suffix),
                bounds: seq![ranked_self_bound(t, suffix, numeral_v(budget))],
            },
        ),
        preds: Seq::empty(),
        items: Seq::new(
            t.items.len(),
            |i: int|
                GenImplItem {
                    kind: t.items[i].kind,
                    ident: t.items[i].ident,
                    body: GenBody::Forward,
                },
        ),
    }
}

/// One generated item of a rewritten implementation: methods keep their
/// user body, preceded in unbounded mode by the trampoline registration;
/// associated types and constants are copied through.
pub open spec fn rewritten_item(it: ImplItem, unbounded: bool) -> GenImplItem {
    match it.kind {
        ItemKind::Method(_, _) => GenImplItem {
            kind: it.kind,
            ident: it.ident,
            body: GenBody::User(it.body, unbounded),
        },
        _ => GenImplItem { kind: it.kind, ident: it.ident, body: GenBody::Copied(it.body) },
    }
}

/// One generated item of a sentinel implementation: methods read the
/// trampoline slot in unbounded mode and fail with the recursion limit in
/// bounded mode; associated types and constants are copied through.
pub open spec fn sentinel_item(it: ImplItem, unbounded: bool) -> GenImplItem {
    match it.kind {
        ItemKind::Method(_, _) => GenImplItem {
            kind: it.kind,
            ident: it.ident,
            body: if unbounded {
                GenBody::TrampolineRead
            } else {
                GenBody::LimitFail
            },
        },
        _ => GenImplItem { kind: it.kind, ident: it.ident, body: GenBody::Copied(it.body) },
    }
}

/// The rewritten implementation of one record: the implemented interface is
/// the ranked variant one fuel step above the fresh rank parameter, every
/// participant dependency bound references a ranked variant at the bare rank
/// parameter, and the fresh rank parameter is appended to the generics.
pub open spec fn rewritten_impl_v(
    r: ImplRecordV,
    loc: int,
    table: Seq<(Name, int)>,
    suffix: u64,
    unbounded: bool,
) -> GenImplV {
    GenImplV {
        self_ty: r.self_ty,
        trait_path: PathV {
            leading_colon: false,
            segments: seq![ranked_name(r.trait_path.segments[0], suffix)],
            args: r.trait_path.args.insert(loc, step_v(rank_param_ty(suffix))),
        },
        params: rewrite_params(r.params, table, suffix).push(rank_param_v(suffix)),
        preds: rewrite_preds(r.preds, table, suffix),
        items: Seq::new(r.items.len(), |i: int| rewritten_item(r.items[i], unbounded)),
    }
}

/// The sentinel implementation of one record: the ranked variant at the
/// unit rank, with every participant bound stripped.
pub open spec fn sentinel_impl_v(
    r: ImplRecordV,
    loc: int,
    table: Seq<(Name, int)>,
    suffix: u64,
    unbounded: bool,
) -> GenImplV {
    GenImplV {
        self_ty: r.self_ty,
        trait_path: PathV {
            leading_colon: false,
            segments: seq![ranked_name(r.trait_path.segments[0], suffix)],
            args: r.trait_path.args.insert(loc, TypeV::Unit),
        },
        params: strip_params(r.params, table),
        preds: strip_preds(r.preds, table),
        items: Seq::new(r.items.len(), |i: int| sentinel_item(r.items[i], unbounded)),
    }
}

/// The rewritten and sentinel implementations of a record list, in order.
pub open spec fn items_for_records(
    rs: Seq<ImplRecordV>,
    loc: int,
    table: Seq<(Name, int)>,
    suffix: u64,
    unbounded: bool,
) -> Seq<GenItemV>
    decreases rs.len(),
{
    if rs.len() == 0 {
        Seq::empty()
    } else {
        items_for_records(rs.drop_last(), loc, table, suffix, unbounded) + seq![
            GenItemV::Impl(rewritten_impl_v(rs.last(), loc, table, suffix, unbounded)),
            GenItemV::Impl(sentinel_impl_v(rs.last(), loc, table, suffix, unbounded)),
        ]
    }
}

/// Everything generated for one participant with at least one record.
pub open spec fn items_for_trait(
    t: TraitDeclV,
    contents: Seq<ImplRecordV>,
    table: Seq<(Name, int)>,
    suffix: u64,
    budget: nat,
    unbounded: bool,
) -> Seq<GenItemV> {
    seq![
        GenItemV::RankedTrait(ranked_decl_v(t, suffix)),
        GenItemV::Impl(delegating_impl_v(t, suffix, budget)),
    ] + items_for_records(impls_of(contents, t.ident), loc_of(t.params), table, suffix, unbounded)
}

/// The generated items of the whole unit, participants in declaration
/// order; a participant with no record contributes nothing.
pub open spec fn unit_items(
    traits: Seq<TraitDeclV>,
    contents: Seq<ImplRecordV>,
    table: Seq<(Name, int)>,
    suffix: u64,
    budget: nat,
    unbounded: bool,
) -> Seq<GenItemV>
    decreases traits.len(),
{
    if traits.len() == 0 {
        Seq::empty()
    } else {
        let rest = unit_items(traits.drop_last(), contents, table, suffix, budget, unbounded);
        let t = traits.last();
        if impls_of(contents, t.ident).len() > 0 {
            rest + items_for_trait(t, contents, table, suffix, budget, unbounded)
        } else {
            rest
        }
    }
}

/// The diagnostics: one warning per participant with no record.
pub open spec fn unit_diags(traits: Seq<TraitDeclV>, contents: Seq<ImplRecordV>) -> Seq<Diag>
    decreases traits.len(),
{
    if traits.len() == 0 {
        Seq::empty()
    } else {
        let rest = unit_diags(traits.drop_last(), contents);
        let t = traits.last();
        if impls_of(contents, t.ident).len() == 0 {
            rest.push(Diag::NoImplementations(t.ident))
        } else {
            rest
        }
    }
}

/// The interface names removed from the namespace by the shadowing module.
pub open spec fn unit_shadowed(traits: Seq<TraitDeclV>, contents: Seq<ImplRecordV>) -> Seq<Name>
    decreases traits.len(),
{
    if traits.len() == 0 {
        Seq::empty()
    } else {
        let rest = unit_shadowed(traits.drop_last(), contents);
        let t = traits.last();
        if impls_of(contents, t.ident).len() > 0 {
            rest.push(t.ident)
        } else {
            rest
        }
    }
}

// ---------------------------------------------------------------------------
// Well-formedness of the input group
// ---------------------------------------------------------------------------

/// A bound can absorb a rank argument at the participant's slot only when it
/// carries at least that many arguments already.
pub open spec fn bound_wf(b: PathV, table: Seq<(Name, int)>) -> bool {
    b.segments.len() == 1 ==> match table_lookup(table, b.segments[0]) {
        Some(loc) => loc <= b.args.len(),
        None => true,
    }
}

/// Every dependency bound of the record, and its interface path itself, can
/// absorb the rank argument.
pub open spec fn record_wf(r: ImplRecordV, table: Seq<(Name, int)>) -> bool {
    &&& bound_wf(r.trait_path, table)
    &&& forall|i: int, j: int|
        0 <= i < r.params.len() && 0 <= j < r.params[i].bounds.len() ==> bound_wf(
            #[trigger] r.params[i].bounds[j],
            table,
        )
    &&& forall|i: int, j: int|
        0 <= i < r.preds.len() && 0 <= j < r.preds[i].bounds.len() ==> bound_wf(
            #[trigger] r.preds[i].bounds[j],
            table,
        )
}

/// Well-formedness of a participant group: the declarations carry user
/// identifiers, distinct within the group, and every record can absorb the
/// rank arguments the rewrite inserts.
pub open spec fn group_wf(traits: Seq<TraitDeclV>, contents: Seq<ImplRecordV>) -> bool {
    &&& forall|i: int| 0 <= i < traits.len() ==> (#[trigger] traits[i].ident) is User
    &&& forall|i: int, j: int|
        0 <= i < j < traits.len() ==> traits[i].ident != traits[j].ident
    &&& forall|i: int|
        0 <= i < contents.len() ==> record_wf(#[trigger] contents[i], table_of(traits, contents))
}

// ---------------------------------------------------------------------------
// Executable helpers
// ---------------------------------------------------------------------------

/// View of the executable replacing table.
pub open spec fn table_view(s: Seq<(Name, usize)>) -> Seq<(Name, int)> {
    Seq::new(s.len(), |i: int| (s[i].0, s[i].1 as int))
}

/// The numeral of the initial, maximal rank: `count` layers of fuel.
pub fn get_initial_rank(count: usize) -> (t: TypeExpr)
    ensures
        t@ == numeral_v(count as nat),
    decreases count,
{
    if count == 0 {
        TypeExpr::Unit
    } else {
        let inner = get_initial_rank(count - 1);
        TypeExpr::Wrap(Box::new(inner))
    }
}

/// The first non-lifetime parameter slot.
pub fn first_non_lifetime(params: &Vec<GenericParam>) -> (loc: usize)
    ensures
        loc as int == loc_of(params_view(params@)),
        loc <= params@.len(),
{
    proof {
        lemma_loc_of(params_view(params@));
    }
    let mut i: usize = 0;
    while i < params.len()
        invariant
            i <= params@.len(),
            forall|j: int|
                0 <= j < i ==> (#[trigger] params_view(params@)[j]).kind == ParamKind::Lifetime,
            loc_of(params_view(params@)) >= i,
        decreases params@.len() - i,
    {
        if !matches!(params[i].kind, ParamKind::Lifetime) {
            proof {
                lemma_loc_of_at(params_view(params@), i as int);
            }
            return i;
        }
        proof {
            lemma_loc_of_at_least(params_view(params@), i as int + 1);
        }
        i += 1;
    }
    proof {
        lemma_loc_of(params_view(params@));
    }
    i
}

/// If every slot before `i` is a lifetime and slot `i` is not, the rank slot
/// is `i`.
proof fn lemma_loc_of_at(params: Seq<ParamV>, i: int)
    requires
        0 <= i < params.len(),
        forall|j: int| 0 <= j < i ==> (#[trigger] params[j]).kind == ParamKind::Lifetime,
        params[i].kind != ParamKind::Lifetime,
    ensures
        loc_of(params) == i,
    decreases params.len(),
{
    if i > 0 {
        assert forall|j: int| 0 <= j < i - 1 implies (#[trigger] params.drop_first()[j]).kind
            == ParamKind::Lifetime by {
            assert(params.drop_first()[j] == params[j + 1]);
        }
        assert(params.drop_first()[i - 1] == params[i]);
        lemma_loc_of_at(params.drop_first(), i - 1);
    }
}

/// If every slot before `i` is a lifetime, the rank slot is at least `i`.
proof fn lemma_loc_of_at_least(params: Seq<ParamV>, i: int)
    requires
        0 <= i <= params.len(),
        forall|j: int| 0 <= j < i ==> (#[trigger] params[j]).kind == ParamKind::Lifetime,
    ensures
        loc_of(params) >= i,
    decreases params.len(),
{
    lemma_loc_of(params);
    if i > 0 {
        assert forall|j: int| 0 <= j < i - 1 implies (#[trigger] params.drop_first()[j]).kind
            == ParamKind::Lifetime by {
            assert(params.drop_first()[j] == params[j + 1]);
        }
        lemma_loc_of_at_least(params.drop_first(), i - 1);
    }
}

/// The base symbol of a name.
pub fn base_sym_of(n: Name) -> (s: Sym)
    ensures
        s == base_sym(n),
{
    match n {
        Name::User(s) => s,
        Name::Ranked(s, _) => s,
        Name::Temporal(s, _) => s,
        Name::RankParam(s) => s,
        Name::SelfParam(s) => s,
        Name::FinalizeEntry => 0,
        Name::RenamedParam(s, _) => s,
    }
}

/// First match in the executable replacing table.
pub fn table_get(table: &Vec<(Name, usize)>, n: Name) -> (r: Option<usize>)
    ensures
        match r {
            Some(loc) => table_lookup(table_view(table@), n) == Some(loc as int),
            None => table_lookup(table_view(table@), n) is None,
        },
{
    let ghost full = table_view(table@);
    proof {
        assert(full.skip(0) =~= full);
    }
    let mut i: usize = 0;
    while i < table.len()
        invariant
            i <= table@.len(),
            full == table_view(table@),
            table_lookup(full, n) == table_lookup(full.skip(i as int), n),
        decreases table@.len() - i,
    {
        if table[i].0 == n {
            proof {
                assert(full.skip(i as int)[0] == full[i as int]);
            }
            return Some(table[i].1);
        }
        proof {
            assert(full.skip(i as int)[0] == full[i as int]);
            assert(full.skip(i as int).drop_first() =~= full.skip(i as int + 1));
        }
        i += 1;
    }
    proof {
        assert(full.skip(table@.len() as int) =~= Seq::<(Name, int)>::empty());
    }
    None
}

/// Does any record implement the participant named `ident`?
pub fn has_impls(contents: &Vec<ImplRecord>, ident: Name) -> (r: bool)
    ensures
        r == (impls_of(records_view(contents@), ident).len() > 0),
{
    let ghost cs = records_view(contents@);
    let mut i: usize = 0;
    while i < contents.len()
        invariant
            i <= contents@.len(),
            cs == records_view(contents@),
            impls_of(cs.take(i as int), ident).len() == 0,
        decreases contents@.len() - i,
    {
        let c = &contents[i];
        let is_target = !c.trait_path.leading_colon && c.trait_path.segments.len() == 1
            && c.trait_path.segments[0] == ident;
        proof {
            assert(cs.take(i as int + 1).drop_last() =~= cs.take(i as int));
            assert(cs.take(i as int + 1).last() == cs[i as int]);
        }
        if is_target {
            proof {
                lemma_impls_of_prefix(cs, ident, i as int + 1);
            }
            return true;
        }
        i += 1;
    }
    proof {
        assert(cs.take(cs.len() as int) =~= cs);
    }
    false
}

/// A record in a prefix stays in the grouping of the whole list.
proof fn lemma_impls_of_prefix(cs: Seq<ImplRecordV>, ident: Name, k: int)
    requires
        0 <= k <= cs.len(),
        impls_of(cs.take(k), ident).len() > 0,
    ensures
        impls_of(cs, ident).len() > 0,
    decreases cs.len() - k,
{
    if k < cs.len() {
        assert(cs.take(k + 1).drop_last() =~= cs.take(k));
        lemma_impls_of_prefix(cs, ident, k + 1);
    } else {
        assert(cs.take(k) =~= cs);
    }
}

/// The records implementing `ident`, copied out of the contents in order.
pub fn collect_impls(contents: &Vec<ImplRecord>, ident: Name) -> (out: Vec<ImplRecord>)
    ensures
        records_view(out@) == impls_of(records_view(contents@), ident),
{
    let ghost cs = records_view(contents@);
    let mut out: Vec<ImplRecord> = Vec::new();
    let mut i: usize = 0;
    while i < contents.len()
        invariant
            i <= contents@.len(),
            cs == records_view(contents@),
            records_view(out@) =~= impls_of(cs.take(i as int), ident),
        decreases contents@.len() - i,
    {
        let c = &contents[i];
        proof {
            assert(cs.take(i as int + 1).drop_last() =~= cs.take(i as int));
            assert(cs.take(i as int + 1).last() == cs[i as int]);
        }
        if !c.trait_path.leading_colon && c.trait_path.segments.len() == 1
            && c.trait_path.segments[0] == ident {
            let ghost pre = records_view(out@);
            out.push(crate::ast::clone_record(c));
            proof {
                assert(records_view(out@) =~= pre.push(cs[i as int]));
            }
        }
        i += 1;
    }
    proof {
        assert(cs.take(cs.len() as int) =~= cs);
    }
    out
}

/// Inserting into an argument list maps through the view elementwise.
pub proof fn lemma_types_view_insert(s: Seq<TypeExpr>, i: int, x: TypeExpr)
    requires
        0 <= i <= s.len(),
    ensures
        types_view(s.insert(i, x)) == types_view(s).insert(i, type_view(x)),
{
    lemma_types_view(s.insert(i, x));
    lemma_types_view(s);
    assert(types_view(s.insert(i, x)) =~= types_view(s).insert(i, type_view(x)));
}

/// Inserts a type expression at the given position in the path's argument
/// list, as the rank rewrite does.
pub fn path_insert_type_arg(path: &mut Path, index: usize, ty: TypeExpr)
    requires
        index <= old(path).args@.len(),
    ensures
        final(path)@.leading_colon == old(path)@.leading_colon,
        final(path)@.segments == old(path)@.segments,
        final(path)@.args == old(path)@.args.insert(index as int, ty@),
{
    proof {
        lemma_types_view_insert(path.args@, index as int, ty);
    }
    path.args.insert(index, ty);
}

/// The bare, argument-free path of a single identifier.
pub fn ident_to_path(ident: Name) -> (r: Path)
    ensures
        r@ == bare_path(ident),
{
    let r = Path { leading_colon: false, segments: vec![ident], args: Vec::new() };
    proof {
        assert(r@.segments =~= seq![ident]);
        assert(r@.args =~= Seq::<TypeV>::empty());
        assert(r@ =~= bare_path(ident));
    }
    r
}

/// The rank parameter as an executable type argument.
fn rank_param_arg(suffix: u64) -> (t: TypeExpr)
    ensures
        t@ == rank_param_ty(suffix),
{
    TypeExpr::Named(ident_to_path(Name::RankParam(suffix)))
}

/// Rewrites every bound in a list against the replacing table.
fn rewrite_bounds_exec(bs: &Vec<Path>, table: &Vec<(Name, usize)>, suffix: u64) -> (r: Vec<Path>)
    requires
        forall|j: int| 0 <= j < bs@.len() ==> bound_wf((#[trigger] bs@[j])@, table_view(table@)),
    ensures
        paths_view(r@) == rewrite_bounds(paths_view(bs@), table_view(table@), suffix),
{
    let mut r: Vec<Path> = Vec::new();
    let mut i: usize = 0;
    while i < bs.len()
        invariant
            i <= bs@.len(),
            r@.len() == i,
            forall|j: int| 0 <= j < bs@.len() ==> bound_wf((#[trigger] bs@[j])@, table_view(table@)),
            forall|j: int|
                0 <= j < i ==> (#[trigger] r@[j])@ == rewrite_bound(
                    bs@[j]@,
                    table_view(table@),
                    suffix,
                ),
        decreases bs@.len() - i,
    {
        r.push(rewrite_bound_exec(&bs[i], table, suffix));
        i += 1;
    }
    proof {
        assert(paths_view(r@) =~= rewrite_bounds(paths_view(bs@), table_view(table@), suffix));
    }
    r
}

/// Rewrites the bounds of every generic parameter.
fn rewrite_params_exec(ps: &Vec<GenericParam>, table: &Vec<(Name, usize)>, suffix: u64) -> (r: Vec<
    GenericParam,
>)
    requires
        forall|i: int, j: int|
            0 <= i < ps@.len() && 0 <= j < ps@[i].bounds@.len() ==> bound_wf(
                (#[trigger] ps@[i].bounds@[j])@,
                table_view(table@),
            ),
    ensures
        params_view(r@) == rewrite_params(params_view(ps@), table_view(table@), suffix),
{
    let mut r: Vec<GenericParam> = Vec::new();
    let mut i: usize = 0;
    while i < ps.len()
        invariant
            i <= ps@.len(),
            r@.len() == i,
            forall|i0: int, j: int|
                0 <= i0 < ps@.len() && 0 <= j < ps@[i0].bounds@.len() ==> bound_wf(
                    (#[trigger] ps@[i0].bounds@[j])@,
                    table_view(table@),
                ),
            forall|j: int|
                0 <= j < i ==> (#[trigger] r@[j])@ == rewrite_param(
                    ps@[j]@,
                    table_view(table@),
                    suffix,
                ),
        decreases ps@.len() - i,
    {
        let p = &ps[i];
        let bounds = rewrite_bounds_exec(&p.bounds, table, suffix);
        r.push(GenericParam { kind: p.kind, ident: p.ident, bounds });
        proof {
            assert(r@[i as int]@ =~= rewrite_param(ps@[i as int]@, table_view(table@), suffix));
        }
        i += 1;
    }
    proof {
        assert forall|j: int| 0 <= j < ps@.len() implies params_view(r@)[j] == rewrite_params(
            params_view(ps@),
            table_view(table@),
            suffix,
        )[j] by {
            assert(r@[j]@ == rewrite_param(ps@[j]@, table_view(table@), suffix));
        }
        assert(params_view(r@) =~= rewrite_params(params_view(ps@), table_view(table@), suffix));
    }
    r
}

/// Rewrites the bounds of every where-clause predicate.
fn rewrite_preds_exec(ps: &Vec<Predicate>, table: &Vec<(Name, usize)>, suffix: u64) -> (r: Vec<
    Predicate,
>)
    requires
        forall|i: int, j: int|
            0 <= i < ps@.len() && 0 <= j < ps@[i].bounds@.len() ==> bound_wf(
                (#[trigger] ps@[i].bounds@[j])@,
                table_view(table@),
            ),
    ensures
        preds_view(r@) == rewrite_preds(preds_view(ps@), table_view(table@), suffix),
{
    let mut r: Vec<Predicate> = Vec::new();
    let mut i: usize = 0;
    while i < ps.len()
        invariant
            i <= ps@.len(),
            r@.len() == i,
            forall|i0: int, j: int|
                0 <= i0 < ps@.len() && 0 <= j < ps@[i0].bounds@.len() ==> bound_wf(
                    (#[trigger] ps@[i0].bounds@[j])@,
                    table_view(table@),
                ),
            forall|j: int|
                0 <= j < i ==> (#[trigger] r@[j])@ == rewrite_pred(
                    ps@[j]@,
                    table_view(table@),
                    suffix,
                ),
        decreases ps@.len() - i,
    {
        let p = &ps[i];
        let bounds = rewrite_bounds_exec(&p.bounds, table, suffix);
        let subject = clone_type(&p.subject);
        r.push(Predicate { subject, bounds });
        proof {
            assert(r@[i as int]@ =~= rewrite_pred(ps@[i as int]@, table_view(table@), suffix));
        }
        i += 1;
    }
    proof {
        assert forall|j: int| 0 <= j < ps@.len() implies preds_view(r@)[j] == rewrite_preds(
            preds_view(ps@),
            table_view(table@),
            suffix,
        )[j] by {
            assert(r@[j]@ == rewrite_pred(ps@[j]@, table_view(table@), suffix));
        }
        assert(preds_view(r@) =~= rewrite_preds(preds_view(ps@), table_view(table@), suffix));
    }
    r
}

/// Is this bound kept when participant bounds are stripped?
pub fn should_keep_bound(bound: &Path, table: &Vec<(Name, usize)>) -> (r: bool)
    ensures
        r == keep_bound(bound@, table_view(table@)),
{
    if bound.segments.len() == 1 {
        match table_get(table, bound.segments[0]) {
            Some(_) => false,
            None => true,
        }
    } else {
        true
    }
}

/// The bounds that survive stripping, copied in order.
fn strip_bounds_exec(bs: &Vec<Path>, table: &Vec<(Name, usize)>) -> (r: Vec<Path>)
    ensures
        paths_view(r@) == strip_bounds(paths_view(bs@), table_view(table@)),
{
    let ghost pv = paths_view(bs@);
    let mut r: Vec<Path> = Vec::new();
    let mut i: usize = 0;
    while i < bs.len()
        invariant
            i <= bs@.len(),
            pv == paths_view(bs@),
            paths_view(r@) =~= strip_bounds(pv.take(i as int), table_view(table@)),
        decreases bs@.len() - i,
    {
        proof {
            assert(pv.take(i as int + 1).drop_last() =~= pv.take(i as int));
            assert(pv.take(i as int + 1).last() == pv[i as int]);
        }
        if should_keep_bound(&bs[i], table) {
            let ghost pre = paths_view(r@);
            r.push(clone_path(&bs[i]));
            proof {
                assert(paths_view(r@) =~= pre.push(pv[i as int]));
            }
        }
        i += 1;
    }
    proof {
        assert(pv.take(pv.len() as int) =~= pv);
    }
    r
}

/// Strips bounds matching the replacing table from a generics list and a
/// where clause: participant bounds are removed from every parameter, and a
/// predicate left without bounds is dropped.
pub fn strip_replaced_bounds(
    params: &mut Vec<GenericParam>,
    preds: &mut Vec<Predicate>,
    table: &Vec<(Name, usize)>,
)
    ensures
        params_view(final(params)@) == strip_params(params_view(old(params)@), table_view(table@)),
        preds_view(final(preds)@) == strip_preds(preds_view(old(preds)@), table_view(table@)),
{
    let mut new_params: Vec<GenericParam> = Vec::new();
    let mut i: usize = 0;
    while i < params.len()
        invariant
            i <= params@.len(),
            new_params@.len() == i,
            params@ == old(params)@,
            forall|j: int|
                0 <= j < i ==> (#[trigger] new_params@[j])@ == strip_param(
                    params@[j]@,
                    table_view(table@),
                ),
        decreases params@.len() - i,
    {
        let p = &params[i];
        let bounds = strip_bounds_exec(&p.bounds, table);
        new_params.push(GenericParam { kind: p.kind, ident: p.ident, bounds });
        proof {
            assert(new_params@[i as int]@ =~= strip_param(params@[i as int]@, table_view(table@)));
        }
        i += 1;
    }
    proof {
        assert forall|j: int| 0 <= j < params@.len() implies params_view(new_params@)[j]
            == strip_params(params_view(params@), table_view(table@))[j] by {
            assert(new_params@[j]@ == strip_param(params@[j]@, table_view(table@)));
        }
        assert(params_view(new_params@) =~= strip_params(
            params_view(params@),
            table_view(table@),
        ));
    }
    *params = new_params;

    let ghost opv = preds_view(old(preds)@);
    let mut new_preds: Vec<Predicate> = Vec::new();
    let mut i: usize = 0;
    while i < preds.len()
        invariant
            i <= preds@.len(),
            preds@ == old(preds)@,
            opv == preds_view(preds@),
            preds_view(new_preds@) =~= strip_preds(opv.take(i as int), table_view(table@)),
        decreases preds@.len() - i,
    {
        let p = &preds[i];
        proof {
            assert(opv.take(i as int + 1).drop_last() =~= opv.take(i as int));
            assert(opv.take(i as int + 1).last() == opv[i as int]);
        }
        let bounds = strip_bounds_exec(&p.bounds, table);
        if bounds.len() > 0 {
            let subject = clone_type(&p.subject);
            let ghost pre = preds_view(new_preds@);
            new_preds.push(Predicate { subject, bounds });
            proof {
                assert(preds_view(new_preds@) =~= pre.push(
                    PredV {
                        subject: opv[i as int].subject,
                        bounds: strip_bounds(opv[i as int].bounds, table_view(table@)),
                    },
                ));
            }
        } else {
            proof {
                assert(paths_view(bounds@).len() == 0);
            }
        }
        i += 1;
    }
    proof {
        assert(opv.take(opv.len() as int) =~= opv);
    }
    *preds = new_preds;
}

/// The declaration's parameters as the arguments of a reference to itself.
fn params_to_args(params: &Vec<GenericParam>) -> (r: Vec<TypeExpr>)
    ensures
        types_view(r@) == params_as_args(params_view(params@)),
{
    let mut r: Vec<TypeExpr> = Vec::new();
    let mut i: usize = 0;
    while i < params.len()
        invariant
            i <= params@.len(),
            r@.len() == i,
            forall|j: int|
                0 <= j < i ==> type_view(r@[j]) == param_as_arg(#[trigger] params_view(params@)[j]),
        decreases params@.len() - i,
    {
        let p = &params[i];
        let arg = if matches!(p.kind, ParamKind::Lifetime) {
            TypeExpr::Lifetime(p.ident)
        } else {
            TypeExpr::Named(ident_to_path(p.ident))
        };
        r.push(arg);
        i += 1;
    }
    proof {
        lemma_types_view(r@);
        assert(types_view(r@) =~= params_as_args(params_view(params@)));
    }
    r
}

/// The items of a rewritten implementation.
fn rewritten_items_exec(items: &Vec<ImplItem>, unbounded: bool) -> (r: Vec<GenImplItem>)
    ensures
        r@ == Seq::new(items@.len(), |i: int| rewritten_item(items@[i], unbounded)),
{
    let mut r: Vec<GenImplItem> = Vec::new();
    let mut i: usize = 0;
    while i < items.len()
        invariant
            i <= items@.len(),
            r@.len() == i,
            forall|j: int| 0 <= j < i ==> r@[j] == rewritten_item(#[trigger] items@[j], unbounded),
        decreases items@.len() - i,
    {
        let it = items[i];
        let body = if matches!(it.kind, ItemKind::Method(_, _)) {
            GenBody::User(it.body, unbounded)
        } else {
            GenBody::Copied(it.body)
        };
        r.push(GenImplItem { kind: it.kind, ident: it.ident, body });
        i += 1;
    }
    proof {
        assert(r@ =~= Seq::new(items@.len(), |i: int| rewritten_item(items@[i], unbounded)));
    }
    r
}

/// The items of a sentinel implementation.
fn sentinel_items_exec(items: &Vec<ImplItem>, unbounded: bool) -> (r: Vec<GenImplItem>)
    ensures
        r@ == Seq::new(items@.len(), |i: int| sentinel_item(items@[i], unbounded)),
{
    let mut r: Vec<GenImplItem> = Vec::new();
    let mut i: usize = 0;
    while i < items.len()
        invariant
            i <= items@.len(),
            r@.len() == i,
            forall|j: int| 0 <= j < i ==> r@[j] == sentinel_item(#[trigger] items@[j], unbounded),
        decreases items@.len() - i,
    {
        let it = items[i];
        let body = if matches!(it.kind, ItemKind::Method(_, _)) {
            if unbounded {
                GenBody::TrampolineRead
            } else {
                GenBody::LimitFail
            }
        } else {
            GenBody::Copied(it.body)
        };
        r.push(GenImplItem { kind: it.kind, ident: it.ident, body });
        i += 1;
    }
    proof {
        assert(r@ =~= Seq::new(items@.len(), |i: int| sentinel_item(items@[i], unbounded)));
    }
    r
}

/// The forwarding items of a delegating implementation.
fn forward_items_exec(items: &Vec<TraitItem>) -> (r: Vec<GenImplItem>)
    ensures
        r@ == Seq::new(
            items@.len(),
            |i: int|
                GenImplItem {
                    kind: items@[i].kind,
                    ident: items@[i].ident,
                    body: GenBody::Forward,
                },
        ),
{
    let mut r: Vec<GenImplItem> = Vec::new();
    let mut i: usize = 0;
    while i < items.len()
        invariant
            i <= items@.len(),
            r@.len() == i,
            forall|j: int|
                0 <= j < i ==> r@[j] == (GenImplItem {
                    kind: (#[trigger] items@[j]).kind,
                    ident: items@[j].ident,
                    body: GenBody::Forward,
                }),
        decreases items@.len() - i,
    {
        let it = items[i];
        r.push(GenImplItem { kind: it.kind, ident: it.ident, body: GenBody::Forward });
        i += 1;
    }
    proof {
        assert(r@ =~= Seq::new(
            items@.len(),
            |i: int|
                GenImplItem {
                    kind: items@[i].kind,
                    ident: items@[i].ident,
                    body: GenBody::Forward,
                },
        ));
    }
    r
}

/// Rewrites one dependency bound against the replacing table.
pub fn rewrite_bound_exec(b: &Path, table: &Vec<(Name, usize)>, suffix: u64) -> (r: Path)
    requires
        bound_wf(b@, table_view(table@)),
    ensures
        r@ == rewrite_bound(b@, table_view(table@), suffix),
{
    if b.segments.len() == 1 {
        match table_get(table, b.segments[0]) {
            Some(loc) => {
                let mut args = clone_types(&b.args);
                let rank = rank_param_arg(suffix);
                proof {
                    lemma_types_view(args@);
                    lemma_types_view(b.args@);
                    assert(args@.len() == b.args@.len());
                    lemma_types_view_insert(args@, loc as int, rank);
                }
                args.insert(loc, rank);
                let seg = Name::Ranked(base_sym_of(b.segments[0]), suffix);
                let r = Path { leading_colon: false, segments: vec![seg], args };
                proof {
                    assert(r@.segments =~= seq![ranked_name(b@.segments[0], suffix)]);
                    assert(r@ =~= rewrite_bound(b@, table_view(table@), suffix));
                }
                r
            },
            None => clone_path(b),
        }
    } else {
        clone_path(b)
    }
}

// ---------------------------------------------------------------------------
// Lemmas connecting the replacing table to lookups
// ---------------------------------------------------------------------------

/// Looking a name up in a table extended at the back: the front entries win.
proof fn lemma_lookup_push(t: Seq<(Name, int)>, e: (Name, int), n: Name)
    ensures
        table_lookup(t.push(e), n) == match table_lookup(t, n) {
            Some(l) => Some(l),
            None => if e.0 == n {
                Some(e.1)
            } else {
                None::<int>
            },
        },
    decreases t.len(),
{
    if t.len() == 0 {
        assert(t.push(e)[0] == e);
        assert(t.push(e).drop_first() =~= Seq::<(Name, int)>::empty());
        assert(table_lookup(t.push(e).drop_first(), n) is None);
        if e.0 == n {
            assert(table_lookup(t.push(e), n) == Some(e.1));
        } else {
            assert(table_lookup(t.push(e), n) is None);
        }
    } else {
        assert(t.push(e)[0] == t[0]);
        assert(t.push(e).drop_first() =~= t.drop_first().push(e));
        lemma_lookup_push(t.drop_first(), e, n);
        if t[0].0 == n {
            assert(table_lookup(t.push(e), n) == Some(t[0].1));
            assert(table_lookup(t, n) == Some(t[0].1));
        } else {
            assert(table_lookup(t.push(e), n) == table_lookup(t.drop_first().push(e), n));
            assert(table_lookup(t, n) == table_lookup(t.drop_first(), n));
        }
    }
}

/// A name matching no key is not found.
proof fn lemma_lookup_none(t: Seq<(Name, int)>, n: Name)
    requires
        forall|j: int| 0 <= j < t.len() ==> (#[trigger] t[j]).0 != n,
    ensures
        table_lookup(t, n) is None,
    decreases t.len(),
{
    if t.len() > 0 {
        assert forall|j: int| 0 <= j < t.drop_first().len() implies (#[trigger] t.drop_first()[j]).0
            != n by {
            assert(t.drop_first()[j] == t[j + 1]);
        }
        lemma_lookup_none(t.drop_first(), n);
    }
}

/// Every entry of the replacing table comes from a declaration.
proof fn lemma_table_of_keys(tv: Seq<TraitDeclV>, cv: Seq<ImplRecordV>)
    ensures
        forall|j: int|
            0 <= j < table_of(tv, cv).len() ==> exists|i: int|
                0 <= i < tv.len() && #[trigger] table_of(tv, cv)[j] == (
                    tv[i].ident,
                    loc_of(tv[i].params),
                ),
    decreases tv.len(),
{
    if tv.len() > 0 {
        lemma_table_of_keys(tv.drop_last(), cv);
        assert forall|j: int| 0 <= j < table_of(tv, cv).len() implies exists|i: int|
            0 <= i < tv.len() && #[trigger] table_of(tv, cv)[j] == (
                tv[i].ident,
                loc_of(tv[i].params),
            ) by {
            let prev = table_of(tv.drop_last(), cv);
            if j < prev.len() {
                let i = choose|i: int|
                    0 <= i < tv.drop_last().len() && prev[j] == (
                        tv.drop_last()[i].ident,
                        loc_of(tv.drop_last()[i].params),
                    );
                assert(tv.drop_last()[i] == tv[i]);
                assert(table_of(tv, cv)[j] == (tv[i].ident, loc_of(tv[i].params)));
            } else {
                let i = tv.len() - 1;
                assert(tv.last() == tv[i]);
                assert(table_of(tv, cv)[j] == (tv[i].ident, loc_of(tv[i].params)));
            }
        }
    }
}

/// For a participant with at least one record, the table's entry is its own
/// identity and slot, provided the group's identities are distinct.
pub proof fn lemma_table_of_lookup(tv: Seq<TraitDeclV>, cv: Seq<ImplRecordV>, ti: int)
    requires
        forall|i: int, j: int| 0 <= i < j < tv.len() ==> tv[i].ident != tv[j].ident,
        0 <= ti < tv.len(),
        impls_of(cv, tv[ti].ident).len() > 0,
    ensures
        table_lookup(table_of(tv, cv), tv[ti].ident) == Some(loc_of(tv[ti].params)),
    decreases tv.len(),
{
    let t = tv.last();
    let prev = table_of(tv.drop_last(), cv);
    if ti == tv.len() - 1 {
        assert forall|j: int| 0 <= j < prev.len() implies (#[trigger] prev[j]).0
            != tv[ti].ident by {
            lemma_table_of_keys(tv.drop_last(), cv);
            let i = choose|i: int|
                0 <= i < tv.drop_last().len() && prev[j] == (
                    tv.drop_last()[i].ident,
                    loc_of(tv.drop_last()[i].params),
                );
            assert(tv.drop_last()[i] == tv[i]);
        }
        lemma_lookup_none(prev, tv[ti].ident);
        lemma_lookup_push(prev, (t.ident, loc_of(t.params)), tv[ti].ident);
    } else {
        assert forall|i: int, j: int| 0 <= i < j < tv.drop_last().len() implies (
        tv.drop_last()[i]).ident != tv.drop_last()[j].ident by {
            assert(tv.drop_last()[i] == tv[i]);
            assert(tv.drop_last()[j] == tv[j]);
        }
        assert(tv.drop_last()[ti] == tv[ti]);
        lemma_table_of_lookup(tv.drop_last(), cv, ti);
        if impls_of(cv, t.ident).len() > 0 {
            lemma_lookup_push(prev, (t.ident, loc_of(t.params)), tv[ti].ident);
        }
    }
}

/// Every record grouped under a participant is one of the group's records,
/// and names that participant.
pub proof fn lemma_impls_of_elem(cv: Seq<ImplRecordV>, ident: Name, j: int)
    requires
        0 <= j < impls_of(cv, ident).len(),
    ensures
        targets(impls_of(cv, ident)[j], ident),
        exists|i: int| 0 <= i < cv.len() && cv[i] == impls_of(cv, ident)[j],
    decreases cv.len(),
{
    if cv.len() > 0 {
        let rest = impls_of(cv.drop_last(), ident);
        if targets(cv.last(), ident) && j == rest.len() {
            assert(cv[cv.len() - 1] == impls_of(cv, ident)[j]);
        } else {
            lemma_impls_of_elem(cv.drop_last(), ident, j);
            let i = choose|i: int| 0 <= i < cv.drop_last().len() && cv.drop_last()[i] == rest[j];
            assert(cv[i] == impls_of(cv, ident)[j]);
        }
    }
}

/// Inserting a generic parameter maps through the view elementwise.
proof fn lemma_params_view_insert(s: Seq<GenericParam>, i: int, p: GenericParam)
    requires
        0 <= i <= s.len(),
    ensures
        params_view(s.insert(i, p)) == params_view(s).insert(i, p@),
{
    s.insert_ensures(i, p);
    params_view(s).insert_ensures(i, p@);
    assert forall|j: int| 0 <= j < s.len() + 1 implies params_view(s.insert(i, p))[j]
        == params_view(s).insert(i, p@)[j] by {
        if j < i {
            assert(s.insert(i, p)[j] == s[j]);
        } else if j == i {
            assert(s.insert(i, p)[j] == p);
        } else {
            assert(s.insert(i, p)[j] == s[j - 1]);
            assert(params_view(s).insert(i, p@)[j] == params_view(s)[j - 1]);
        }
    }
    assert(params_view(s.insert(i, p)) =~= params_view(s).insert(i, p@));
}

/// Appending a generic parameter maps through the view elementwise.
proof fn lemma_params_view_push(s: Seq<GenericParam>, p: GenericParam)
    ensures
        params_view(s.push(p)) == params_view(s).push(p@),
{
    assert(params_view(s.push(p)) =~= params_view(s).push(p@));
}

// ---------------------------------------------------------------------------
// The engine
// ---------------------------------------------------------------------------

/// The input of one elaboration call: the remaining work list of deferred
/// steps, the participant declarations, the implementation records, the fuel
/// budget and the mode flag.
pub struct FinalizeArgs {
    pub working_list: Vec<Path>,
    pub traits: Vec<TraitDecl>,
    pub contents: Vec<ImplRecord>,
    pub recurse_level: usize,
    pub support_infinite_cycle: bool,
}

impl FinalizeArgs {
    /// The declarations, viewed.
    pub open spec fn traits_v(&self) -> Seq<TraitDeclV> {
        traits_view(self.traits@)
    }

    /// The records, viewed.
    pub open spec fn contents_v(&self) -> Seq<ImplRecordV> {
        records_view(self.contents@)
    }

    /// Well-formedness of the group this call elaborates.
    pub open spec fn wf(&self) -> bool {
        group_wf(self.traits_v(), self.contents_v())
    }
}

/// The rank-indexed variant of one participant declaration.
fn emit_ranked_decl(t: &TraitDecl, loc: usize, suffix: u64) -> (d: TraitDecl)
    requires
        loc as int == loc_of(t@.params),
    ensures
        d@ == ranked_decl_v(t@, suffix),
{
    proof {
        lemma_loc_of(t@.params);
    }
    let mut rparams = clone_params(&t.params);
    let ghost cl = rparams@;
    proof {
        assert(params_view(rparams@).len() == params_view(t.params@).len());
    }
    let rank_param = GenericParam {
        kind: ParamKind::Ty,
        ident: Name::RankParam(suffix),
        bounds: Vec::new(),
    };
    let ghost rpv = rank_param@;
    proof {
        assert(rpv =~= rank_param_v(suffix));
        lemma_params_view_insert(cl, loc as int, rank_param);
    }
    rparams.insert(loc, rank_param);
    let d = TraitDecl {
        ident: Name::Ranked(base_sym_of(t.ident), suffix),
        params: rparams,
        items: t.items.clone(),
    };
    proof {
        assert(params_view(d.params@) == params_view(cl).insert(loc as int, rpv));
        assert(d@ =~= ranked_decl_v(t@, suffix));
    }
    d
}

/// The delegating implementation of one participant.
fn emit_delegating(t: &TraitDecl, loc: usize, suffix: u64, budget: usize) -> (g: GenImpl)
    requires
        loc as int == loc_of(t@.params),
    ensures
        g@ == delegating_impl_v(t@, suffix, budget as nat),
{
    proof {
        lemma_loc_of(t@.params);
    }
    let ranked_ident = Name::Ranked(base_sym_of(t.ident), suffix);
    let mut iargs = params_to_args(&t.params);
    let init = get_initial_rank(budget);
    proof {
        lemma_types_view(iargs@);
        assert(iargs@.len() == params_view(t.params@).len());
        lemma_types_view_insert(iargs@, loc as int, init);
    }
    iargs.insert(loc, init);
    let bound = Path { leading_colon: false, segments: vec![ranked_ident], args: iargs };
    proof {
        assert(bound@.segments =~= seq![ranked_name(t@.ident, suffix)]);
        assert(bound@ =~= ranked_self_bound(t@, suffix, numeral_v(budget as nat)));
    }
    let mut self_bounds: Vec<Path> = Vec::new();
    self_bounds.push(bound);
    let self_param = GenericParam {
        kind: ParamKind::Ty,
        ident: Name::SelfParam(suffix),
        bounds: self_bounds,
    };
    let ghost spv = self_param@;
    proof {
        assert(spv.bounds =~= seq![ranked_self_bound(t@, suffix, numeral_v(budget as nat))]);
        assert(spv =~= ParamV {
            kind: ParamKind::Ty,
            ident: Name::SelfParam(suffix),
            bounds: seq![ranked_self_bound(t@, suffix, numeral_v(budget as nat))],
        });
    }
    let mut dparams = clone_params(&t.params);
    let ghost dcl = dparams@;
    proof {
        assert(params_view(dparams@).len() == params_view(t.params@).len());
        lemma_params_view_insert(dcl, loc as int, self_param);
    }
    dparams.insert(loc, self_param);
    let dargs = params_to_args(&t.params);
    let dpath = Path { leading_colon: false, segments: vec![t.ident], args: dargs };
    let ditems = forward_items_exec(&t.items);
    let g = GenImpl {
        self_ty: TypeExpr::Named(ident_to_path(Name::SelfParam(suffix))),
        trait_path: dpath,
        params: dparams,
        preds: Vec::new(),
        items: ditems,
    };
    proof {
        assert(g@.trait_path.segments =~= seq![t@.ident]);
        assert(g@.trait_path =~= delegating_impl_v(t@, suffix, budget as nat).trait_path);
        assert(params_view(g.params@) == params_view(dcl).insert(loc as int, spv));
        assert(g@.params =~= delegating_impl_v(t@, suffix, budget as nat).params);
        assert(g@.preds =~= Seq::<PredV>::empty());
        assert(g@ =~= delegating_impl_v(t@, suffix, budget as nat));
    }
    g
}

/// Transfers well-formedness of a record's bounds to the element form the
/// rewriting helpers expect.
proof fn lemma_record_wf_elementwise(r: &ImplRecord, tbl: Seq<(Name, int)>)
    requires
        record_wf(r@, tbl),
    ensures
        forall|i0: int, j: int|
            0 <= i0 < r.params@.len() && 0 <= j < r.params@[i0].bounds@.len() ==> bound_wf(
                (#[trigger] r.params@[i0].bounds@[j])@,
                tbl,
            ),
        forall|i0: int, j: int|
            0 <= i0 < r.preds@.len() && 0 <= j < r.preds@[i0].bounds@.len() ==> bound_wf(
                (#[trigger] r.preds@[i0].bounds@[j])@,
                tbl,
            ),
{
    let rv = r@;
    assert forall|i0: int, j: int|
        0 <= i0 < r.params@.len() && 0 <= j < r.params@[i0].bounds@.len() implies bound_wf(
        (#[trigger] r.params@[i0].bounds@[j])@,
        tbl,
    ) by {
        assert(rv.params[i0] == r.params@[i0]@);
        assert(rv.params[i0].bounds[j] == r.params@[i0].bounds@[j]@);
    }
    assert forall|i0: int, j: int|
        0 <= i0 < r.preds@.len() && 0 <= j < r.preds@[i0].bounds@.len() implies bound_wf(
        (#[trigger] r.preds@[i0].bounds@[j])@,
        tbl,
    ) by {
        assert(rv.preds[i0] == r.preds@[i0]@);
        assert(rv.preds[i0].bounds[j] == r.preds@[i0].bounds@[j]@);
    }
}

/// The rewritten implementation of one record.
fn emit_rewritten(
    r: &ImplRecord,
    loc: usize,
    table: &Vec<(Name, usize)>,
    suffix: u64,
    unbounded: bool,
) -> (g: GenImpl)
    requires
        record_wf(r@, table_view(table@)),
        r@.trait_path.segments.len() == 1,
        table_lookup(table_view(table@), r@.trait_path.segments[0]) == Some(loc as int),
    ensures
        g@ == rewritten_impl_v(r@, loc as int, table_view(table@), suffix, unbounded),
{
    let ghost tbl = table_view(table@);
    let ghost rv = r@;
    proof {
        lemma_record_wf_elementwise(r, tbl);
    }
    let mut rw_params = rewrite_params_exec(&r.params, table, suffix);
    let ghost rwp = rw_params@;
    let rank_param = GenericParam {
        kind: ParamKind::Ty,
        ident: Name::RankParam(suffix),
        bounds: Vec::new(),
    };
    proof {
        assert(rank_param@ =~= rank_param_v(suffix));
        lemma_params_view_push(rwp, rank_param);
    }
    rw_params.push(rank_param);
    let rw_preds = rewrite_preds_exec(&r.preds, table, suffix);
    let rw_items = rewritten_items_exec(&r.items, unbounded);
    let mut rw_args = clone_types(&r.trait_path.args);
    proof {
        lemma_types_view(rw_args@);
        lemma_types_view(r.trait_path.args@);
        assert(rw_args@.len() == r.trait_path.args@.len());
        assert(rv.trait_path.args.len() == r.trait_path.args@.len());
    }
    let step_arg = TypeExpr::Wrap(Box::new(rank_param_arg(suffix)));
    proof {
        lemma_types_view_insert(rw_args@, loc as int, step_arg);
    }
    rw_args.insert(loc, step_arg);
    let seg0 = r.trait_path.segments[0];
    let rw_path = Path {
        leading_colon: false,
        segments: vec![Name::Ranked(base_sym_of(seg0), suffix)],
        args: rw_args,
    };
    let g = GenImpl {
        self_ty: clone_type(&r.self_ty),
        trait_path: rw_path,
        params: rw_params,
        preds: rw_preds,
        items: rw_items,
    };
    proof {
        assert(g@.trait_path.segments =~= seq![ranked_name(rv.trait_path.segments[0], suffix)]);
        assert(params_view(g.params@) == params_view(rwp).push(rank_param_v(suffix)));
        assert(g@.params =~= rewrite_params(rv.params, tbl, suffix).push(rank_param_v(suffix)));
        assert(g@ =~= rewritten_impl_v(rv, loc as int, tbl, suffix, unbounded));
    }
    g
}

/// The sentinel implementation of one record.
fn emit_sentinel(
    r: &ImplRecord,
    loc: usize,
    table: &Vec<(Name, usize)>,
    suffix: u64,
    unbounded: bool,
) -> (g: GenImpl)
    requires
        record_wf(r@, table_view(table@)),
        r@.trait_path.segments.len() == 1,
        table_lookup(table_view(table@), r@.trait_path.segments[0]) == Some(loc as int),
    ensures
        g@ == sentinel_impl_v(r@, loc as int, table_view(table@), suffix, unbounded),
{
    let ghost tbl = table_view(table@);
    let ghost rv = r@;
    let mut st_params = clone_params(&r.params);
    let mut st_preds = clone_preds(&r.preds);
    strip_replaced_bounds(&mut st_params, &mut st_preds, table);
    let st_items = sentinel_items_exec(&r.items, unbounded);
    let mut st_args = clone_types(&r.trait_path.args);
    proof {
        lemma_types_view(st_args@);
        lemma_types_view(r.trait_path.args@);
        assert(st_args@.len() == r.trait_path.args@.len());
        assert(rv.trait_path.args.len() == r.trait_path.args@.len());
        lemma_types_view_insert(st_args@, loc as int, TypeExpr::Unit);
    }
    st_args.insert(loc, TypeExpr::Unit);
    let seg0 = r.trait_path.segments[0];
    let st_path = Path {
        leading_colon: false,
        segments: vec![Name::Ranked(base_sym_of(seg0), suffix)],
        args: st_args,
    };
    let g = GenImpl {
        self_ty: clone_type(&r.self_ty),
        trait_path: st_path,
        params: st_params,
        preds: st_preds,
        items: st_items,
    };
    proof {
        assert(g@.trait_path.segments =~= seq![ranked_name(rv.trait_path.segments[0], suffix)]);
        assert(g@ =~= sentinel_impl_v(rv, loc as int, tbl, suffix, unbounded));
    }
    g
}

/// Builds the replacing table of a group: per participant with at least
/// one record, in declaration order, its identity and rank-parameter slot.
pub fn build_replacing_table(traits: &Vec<TraitDecl>, contents: &Vec<ImplRecord>) -> (table: Vec<
    (Name, usize),
>)
    ensures
        table_view(table@) == table_of(traits_view(traits@), records_view(contents@)),
{
    let ghost tv = traits_view(traits@);
    let ghost cv = records_view(contents@);
    let mut table: Vec<(Name, usize)> = Vec::new();
    let mut ti: usize = 0;
    proof {
        assert(table_view(table@) =~= table_of(tv.take(0), cv));
    }
    while ti < traits.len()
        invariant
            ti <= traits@.len(),
            tv == traits_view(traits@),
            cv == records_view(contents@),
            table_view(table@) =~= table_of(tv.take(ti as int), cv),
        decreases traits@.len() - ti,
    {
        let t = &traits[ti];
        proof {
            assert(tv.take(ti as int + 1).drop_last() =~= tv.take(ti as int));
            assert(tv.take(ti as int + 1).last() == tv[ti as int]);
            assert(tv[ti as int] == traits@[ti as int]@);
        }
        if has_impls(contents, t.ident) {
            let loc = first_non_lifetime(&t.params);
            let ghost pre = table_view(table@);
            table.push((t.ident, loc));
            proof {
                assert(table_view(table@) =~= pre.push((tv[ti as int].ident, loc_of(
                    tv[ti as int].params,
                ))));
            }
        }
        ti += 1;
    }
    proof {
        assert(tv.take(tv.len() as int) =~= tv);
    }
    table
}

/// Can this bound absorb a rank argument at its participant's slot?
fn bound_wf_exec(b: &Path, table: &Vec<(Name, usize)>) -> (r: bool)
    ensures
        r == bound_wf(b@, table_view(table@)),
{
    if b.segments.len() != 1 {
        return true;
    }
    match table_get(table, b.segments[0]) {
        Some(loc) => {
            proof {
                lemma_types_view(b.args@);
            }
            loc <= b.args.len()
        },
        None => true,
    }
}

/// Is every bound of every member of this bound list well formed?
fn bounds_wf_exec(bs: &Vec<Path>, table: &Vec<(Name, usize)>) -> (r: bool)
    ensures
        r == forall|j: int| 0 <= j < bs@.len() ==> bound_wf((#[trigger] bs@[j])@, table_view(table@)),
{
    let mut j: usize = 0;
    while j < bs.len()
        invariant
            j <= bs@.len(),
            forall|i: int| 0 <= i < j ==> bound_wf((#[trigger] bs@[i])@, table_view(table@)),
        decreases bs@.len() - j,
    {
        if !bound_wf_exec(&bs[j], table) {
            return false;
        }
        j += 1;
    }
    true
}

/// Is this record well formed against the replacing table?
fn record_wf_exec(r: &ImplRecord, table: &Vec<(Name, usize)>) -> (ok: bool)
    ensures
        ok == record_wf(r@, table_view(table@)),
{
    let ghost tbl = table_view(table@);
    let ghost rv = r@;
    if !bound_wf_exec(&r.trait_path, table) {
        return false;
    }
    let mut i: usize = 0;
    while i < r.params.len()
        invariant
            i <= r.params@.len(),
            bound_wf(rv.trait_path, tbl),
            rv == r@,
            tbl == table_view(table@),
            forall|i0: int, j: int|
                0 <= i0 < i && 0 <= j < rv.params[i0].bounds.len() ==> bound_wf(
                    #[trigger] rv.params[i0].bounds[j],
                    tbl,
                ),
        decreases r.params@.len() - i,
    {
        if !bounds_wf_exec(&r.params[i].bounds, table) {
            proof {
                let j = choose|j: int|
                    0 <= j < r.params@[i as int].bounds@.len() && !bound_wf(
                        (#[trigger] r.params@[i as int].bounds@[j])@,
                        tbl,
                    );
                assert(rv.params[i as int].bounds[j] == r.params@[i as int].bounds@[j]@);
            }
            return false;
        }
        proof {
            assert forall|j: int| 0 <= j < rv.params[i as int].bounds.len() implies bound_wf(
                #[trigger] rv.params[i as int].bounds[j],
                tbl,
            ) by {
                assert(rv.params[i as int].bounds[j] == r.params@[i as int].bounds@[j]@);
            }
        }
        i += 1;
    }
    let mut i: usize = 0;
    while i < r.preds.len()
        invariant
            i <= r.preds@.len(),
            bound_wf(rv.trait_path, tbl),
            rv == r@,
            tbl == table_view(table@),
            forall|i0: int, j: int|
                0 <= i0 < rv.params.len() && 0 <= j < rv.params[i0].bounds.len() ==> bound_wf(
                    #[trigger] rv.params[i0].bounds[j],
                    tbl,
                ),
            forall|i0: int, j: int|
                0 <= i0 < i && 0 <= j < rv.preds[i0].bounds.len() ==> bound_wf(
                    #[trigger] rv.preds[i0].bounds[j],
                    tbl,
                ),
        decreases r.preds@.len() - i,
    {
        if !bounds_wf_exec(&r.preds[i].bounds, table) {
            proof {
                let j = choose|j: int|
                    0 <= j < r.preds@[i as int].bounds@.len() && !bound_wf(
                        (#[trigger] r.preds@[i as int].bounds@[j])@,
                        tbl,
                    );
                assert(rv.preds[i as int].bounds[j] == r.preds@[i as int].bounds@[j]@);
            }
            return false;
        }
        proof {
            assert forall|j: int| 0 <= j < rv.preds[i as int].bounds.len() implies bound_wf(
                #[trigger] rv.preds[i as int].bounds[j],
                tbl,
            ) by {
                assert(rv.preds[i as int].bounds[j] == r.preds@[i as int].bounds@[j]@);
            }
        }
        i += 1;
    }
    true
}

/// Decides the engine's precondition: the declarations carry distinct user
/// identifiers and every record can absorb the rank arguments the rewrite
/// inserts.  An unverified caller tests this before invoking `finalize`.
#[verifier::loop_isolation(false)]
pub fn check_group_wf(args: &FinalizeArgs) -> (ok: bool)
    ensures
        ok == args.wf(),
{
    let ghost tv = traits_view(args.traits@);
    let ghost cv = records_view(args.contents@);
    let mut i: usize = 0;
    while i < args.traits.len()
        invariant
            i <= args.traits@.len(),
            forall|j: int| 0 <= j < i ==> (#[trigger] tv[j].ident) is User,
            forall|j: int, k: int| 0 <= j < k < i ==> tv[j].ident != tv[k].ident,
        decreases args.traits@.len() - i,
    {
        proof {
            assert(tv[i as int] == args.traits@[i as int]@);
        }
        if !matches!(args.traits[i].ident, Name::User(_)) {
            return false;
        }
        let mut j: usize = 0;
        while j < i
            invariant
                j <= i,
                i < args.traits@.len(),
                forall|k: int| 0 <= k < j ==> tv[k].ident != tv[i as int].ident,
            decreases i - j,
        {
            proof {
                assert(tv[j as int] == args.traits@[j as int]@);
                assert(tv[i as int] == args.traits@[i as int]@);
            }
            if args.traits[j].ident == args.traits[i].ident {
                return false;
            }
            j += 1;
        }
        i += 1;
    }
    let table = build_replacing_table(&args.traits, &args.contents);
    let mut i: usize = 0;
    while i < args.contents.len()
        invariant
            i <= args.contents@.len(),
            table_view(table@) == table_of(tv, cv),
            forall|j: int| 0 <= j < tv.len() ==> (#[trigger] tv[j].ident) is User,
            forall|j: int, k: int| 0 <= j < k < tv.len() ==> tv[j].ident != tv[k].ident,
            forall|j: int| 0 <= j < i ==> record_wf(#[trigger] cv[j], table_of(tv, cv)),
        decreases args.contents@.len() - i,
    {
        proof {
            assert(cv[i as int] == args.contents@[i as int]@);
        }
        if !record_wf_exec(&args.contents[i], &table) {
            return false;
        }
        i += 1;
    }
    true
}

/// Elaborates one participant group: emits, per participant with at least
/// one record, the ranked variant, the delegating implementation, and per
/// record the rewritten and the sentinel implementation; participants with
/// no record are dropped with a diagnostic.
#[verifier::loop_isolation(false)]
#[verifier::rlimit(60)]
pub fn finalize(args: FinalizeArgs) -> (out: GeneratedUnit)
    requires
        args.wf(),
    ensures
        out@.trampoline_support == args.support_infinite_cycle,
        out@.shadowed == unit_shadowed(args.traits_v(), args.contents_v()),
        out@.diags == unit_diags(args.traits_v(), args.contents_v()),
        out@.items == unit_items(
            args.traits_v(),
            args.contents_v(),
            table_of(args.traits_v(), args.contents_v()),
            hygiene_suffix(),
            args.recurse_level as nat,
            args.support_infinite_cycle,
        ),
{
    let suffix = get_random();
    let budget = args.recurse_level;
    let unb = args.support_infinite_cycle;
    let ghost tv = traits_view(args.traits@);
    let ghost cv = records_view(args.contents@);

    // The replacing table: participants with at least one record, each with
    // its rank-parameter slot.
    let table = build_replacing_table(&args.traits, &args.contents);
    let ghost tbl = table_of(tv, cv);

    let mut items: Vec<GenItem> = Vec::new();
    let mut diags: Vec<Diag> = Vec::new();
    let mut shadowed: Vec<Name> = Vec::new();

    let mut ti: usize = 0;
    proof {
        assert(gen_items_view(items@) =~= unit_items(
            tv.take(0),
            cv,
            tbl,
            suffix,
            budget as nat,
            unb,
        ));
        assert(diags@ =~= unit_diags(tv.take(0), cv));
        assert(shadowed@ =~= unit_shadowed(tv.take(0), cv));
    }
    while ti < args.traits.len()
        invariant
            ti <= args.traits@.len(),
            gen_items_view(items@) =~= unit_items(
                tv.take(ti as int),
                cv,
                tbl,
                suffix,
                budget as nat,
                unb,
            ),
            diags@ =~= unit_diags(tv.take(ti as int), cv),
            shadowed@ =~= unit_shadowed(tv.take(ti as int), cv),
        decreases args.traits@.len() - ti,
    {
        let t = &args.traits[ti];
        proof {
            assert(tv.take(ti as int + 1).drop_last() =~= tv.take(ti as int));
            assert(tv.take(ti as int + 1).last() == tv[ti as int]);
            assert(tv[ti as int] == args.traits@[ti as int]@);
        }
        let impls = collect_impls(&args.contents, t.ident);
        if impls.len() == 0 {
            diags.push(Diag::NoImplementations(t.ident));
            proof {
                assert(impls_of(cv, tv[ti as int].ident).len() == 0);
                assert(diags@ =~= unit_diags(tv.take(ti as int + 1), cv));
                assert(gen_items_view(items@) =~= unit_items(
                    tv.take(ti as int + 1),
                    cv,
                    tbl,
                    suffix,
                    budget as nat,
                    unb,
                ));
                assert(shadowed@ =~= unit_shadowed(tv.take(ti as int + 1), cv));
            }
        } else {
            let ghost tvi = tv[ti as int];
            proof {
                assert(impls_of(cv, tvi.ident).len() > 0);
                lemma_table_of_lookup(tv, cv, ti as int);
            }
            shadowed.push(t.ident);
            let loc = first_non_lifetime(&t.params);
            let ghost base_items = gen_items_view(items@);
            items.push(GenItem::RankedTrait(emit_ranked_decl(t, loc, suffix)));
            items.push(GenItem::Impl(emit_delegating(t, loc, suffix, budget)));
            proof {
                assert(gen_items_view(items@) =~= base_items + seq![
                    GenItemV::RankedTrait(ranked_decl_v(tvi, suffix)),
                    GenItemV::Impl(delegating_impl_v(tvi, suffix, budget as nat)),
                ]);
            }

            let ghost rsv = impls_of(cv, tvi.ident);
            let ghost head = gen_items_view(items@);
            let mut ri: usize = 0;
            proof {
                assert(gen_items_view(items@) =~= head + items_for_records(
                    rsv.take(0),
                    loc as int,
                    tbl,
                    suffix,
                    unb,
                ));
            }
            while ri < impls.len()
                invariant
                    ri <= impls@.len(),
                    gen_items_view(items@) =~= head + items_for_records(
                        rsv.take(ri as int),
                        loc as int,
                        tbl,
                        suffix,
                        unb,
                    ),
                decreases impls@.len() - ri,
            {
                let r = &impls[ri];
                proof {
                    assert(records_view(impls@)[ri as int] == impls@[ri as int]@);
                    lemma_impls_of_elem(cv, tvi.ident, ri as int);
                    let i = choose|i: int| 0 <= i < cv.len() && cv[i] == rsv[ri as int];
                    assert(record_wf(cv[i], tbl));
                    assert(record_wf(r@, tbl));
                    assert(targets(r@, tvi.ident));
                    assert(rsv.take(ri as int + 1).drop_last() =~= rsv.take(ri as int));
                    assert(rsv.take(ri as int + 1).last() == rsv[ri as int]);
                }
                let rw = emit_rewritten(r, loc, &table, suffix, unb);
                let st = emit_sentinel(r, loc, &table, suffix, unb);
                let ghost pre = gen_items_view(items@);
                items.push(GenItem::Impl(rw));
                items.push(GenItem::Impl(st));
                proof {
                    assert(gen_items_view(items@) =~= pre + seq![
                        GenItemV::Impl(rewritten_impl_v(rsv[ri as int], loc as int, tbl, suffix, unb)),
                        GenItemV::Impl(sentinel_impl_v(rsv[ri as int], loc as int, tbl, suffix, unb)),
                    ]);
                    assert(gen_items_view(items@) =~= head + items_for_records(
                        rsv.take(ri as int + 1),
                        loc as int,
                        tbl,
                        suffix,
                        unb,
                    ));
                }
                ri += 1;
            }
            proof {
                assert(rsv.take(rsv.len() as int) =~= rsv);
                assert(gen_items_view(items@) =~= unit_items(
                    tv.take(ti as int + 1),
                    cv,
                    tbl,
                    suffix,
                    budget as nat,
                    unb,
                ));
                assert(diags@ =~= unit_diags(tv.take(ti as int + 1), cv));
                assert(shadowed@ =~= unit_shadowed(tv.take(ti as int + 1), cv));
            }
        }
        ti += 1;
    }
    proof {
        assert(tv.take(tv.len() as int) =~= tv);
    }
    GeneratedUnit { shadowed, trampoline_support: unb, items, diags }
}

} // verus!
