//! The laws of the elaboration: rank monotonicity and sentinel coverage.
//!
//! These proof functions state, over the mathematical model of the
//! transformation, the properties the rewrite is designed to have: every
//! rewritten record implements its interface exactly one fuel step above the
//! rank it demands of its dependencies, and every (participant, implementing
//! type) pair receives exactly one sentinel implementation, free of
//! participant bounds.

use vstd::prelude::*;

use crate::ast::{
    GenBody, GenImplItem, GenItemV, ImplRecordV, Name, ParamV, PathV, PredV, TraitDeclV, TypeV,
};
use crate::engine::{
    bound_wf, delegating_impl_v, group_wf, impls_of, lemma_impls_of_elem, items_for_records,
    items_for_trait, keep_bound, lemma_loc_of, lemma_table_of_lookup, loc_of, numeral_v,
    ranked_decl_v, ranked_name, ranked_self_bound, rank_param_ty, record_wf, rewrite_bound,
    rewrite_params, rewrite_preds, rewritten_impl_v, sentinel_impl_v, step_v,
    strip_bounds, strip_params, strip_preds, table_lookup, table_of, targets, unit_items,
};

verus! {

broadcast use {vstd::std_specs::vec::group_vec_axioms, vstd::seq::group_seq_axioms};

/// The slot recorded in the replacing table for a name; meaningful only when
/// the name is a participant.
pub open spec fn slot_of(table: Seq<(Name, int)>, n: Name) -> int {
    match table_lookup(table, n) {
        Some(l) => l,
        None => 0,
    }
}

/// A successful lookup returns one of the table's entries.
proof fn lemma_lookup_in_table(table: Seq<(Name, int)>, n: Name)
    requires
        table_lookup(table, n) is Some,
    ensures
        exists|j: int|
            0 <= j < table.len() && #[trigger] table[j] == (
                n,
                table_lookup(table, n).unwrap(),
            ),
    decreases table.len(),
{
    if table.len() > 0 && table[0].0 != n {
        lemma_lookup_in_table(table.drop_first(), n);
        let j = choose|j: int|
            0 <= j < table.drop_first().len() && #[trigger] table.drop_first()[j] == (
                n,
                table_lookup(table.drop_first(), n).unwrap(),
            );
        assert(table[j + 1] == (n, table_lookup(table, n).unwrap()));
    }
}

/// Rank monotonicity: in the rewritten implementation of a record, the
/// implemented interface carries, at the participant's slot, a rank exactly
/// one fuel step above the rank carried by every dependency bound that names
/// a participant — whether the bound stands on a generic parameter or in the
/// where clause.
pub proof fn lemma_rank_monotonicity(
    r: ImplRecordV,
    loc: int,
    table: Seq<(Name, int)>,
    suffix: u64,
    unbounded: bool,
)
    requires
        record_wf(r, table),
        0 <= loc <= r.trait_path.args.len(),
        forall|j: int| 0 <= j < table.len() ==> (#[trigger] table[j]).1 >= 0,
    ensures
        rewritten_impl_v(r, loc, table, suffix, unbounded).trait_path.args[loc] == step_v(
            rank_param_ty(suffix),
        ),
        forall|i: int, j: int|
            0 <= i < r.params.len() && 0 <= j < r.params[i].bounds.len() && !keep_bound(
                #[trigger] r.params[i].bounds[j],
                table,
            ) ==> {
                let g = rewritten_impl_v(r, loc, table, suffix, unbounded);
                let loc_q = slot_of(table, r.params[i].bounds[j].segments[0]);
                &&& g.params[i].bounds[j].args[loc_q] == rank_param_ty(suffix)
                &&& g.trait_path.args[loc] == step_v(g.params[i].bounds[j].args[loc_q])
            },
        forall|i: int, j: int|
            0 <= i < r.preds.len() && 0 <= j < r.preds[i].bounds.len() && !keep_bound(
                #[trigger] r.preds[i].bounds[j],
                table,
            ) ==> {
                let g = rewritten_impl_v(r, loc, table, suffix, unbounded);
                let loc_q = slot_of(table, r.preds[i].bounds[j].segments[0]);
                &&& g.preds[i].bounds[j].args[loc_q] == rank_param_ty(suffix)
                &&& g.trait_path.args[loc] == step_v(g.preds[i].bounds[j].args[loc_q])
            },
{
    let g = rewritten_impl_v(r, loc, table, suffix, unbounded);
    r.trait_path.args.insert_ensures(loc, step_v(rank_param_ty(suffix)));
    assert(g.trait_path.args[loc] == step_v(rank_param_ty(suffix)));
    assert forall|i: int, j: int|
        0 <= i < r.params.len() && 0 <= j < r.params[i].bounds.len() && !keep_bound(
            #[trigger] r.params[i].bounds[j],
            table,
        ) implies {
        let loc_q = slot_of(table, r.params[i].bounds[j].segments[0]);
        &&& g.params[i].bounds[j].args[loc_q] == rank_param_ty(suffix)
        &&& g.trait_path.args[loc] == step_v(g.params[i].bounds[j].args[loc_q])
    } by {
        let b = r.params[i].bounds[j];
        let loc_q = slot_of(table, b.segments[0]);
        assert(g.params[i] == rewrite_params(r.params, table, suffix)[i]);
        assert(g.params[i].bounds[j] == rewrite_bound(b, table, suffix));
        assert(bound_wf(b, table));
        lemma_lookup_in_table(table, b.segments[0]);
        b.args.insert_ensures(loc_q, rank_param_ty(suffix));
    }
    assert forall|i: int, j: int|
        0 <= i < r.preds.len() && 0 <= j < r.preds[i].bounds.len() && !keep_bound(
            #[trigger] r.preds[i].bounds[j],
            table,
        ) implies {
        let loc_q = slot_of(table, r.preds[i].bounds[j].segments[0]);
        &&& g.preds[i].bounds[j].args[loc_q] == rank_param_ty(suffix)
        &&& g.trait_path.args[loc] == step_v(g.preds[i].bounds[j].args[loc_q])
    } by {
        let b = r.preds[i].bounds[j];
        let loc_q = slot_of(table, b.segments[0]);
        assert(g.preds[i] == rewrite_preds(r.preds, table, suffix)[i]);
        assert(g.preds[i].bounds[j] == rewrite_bound(b, table, suffix));
        assert(bound_wf(b, table));
        lemma_lookup_in_table(table, b.segments[0]);
        b.args.insert_ensures(loc_q, rank_param_ty(suffix));
    }
}

/// Every bound that survives stripping is kept by the filter.
proof fn lemma_strip_bounds_kept(bs: Seq<PathV>, table: Seq<(Name, int)>)
    ensures
        forall|j: int|
            0 <= j < strip_bounds(bs, table).len() ==> keep_bound(
                #[trigger] strip_bounds(bs, table)[j],
                table,
            ),
    decreases bs.len(),
{
    if bs.len() > 0 {
        lemma_strip_bounds_kept(bs.drop_last(), table);
        let rest = strip_bounds(bs.drop_last(), table);
        if keep_bound(bs.last(), table) {
            assert forall|j: int| 0 <= j < strip_bounds(bs, table).len() implies keep_bound(
                #[trigger] strip_bounds(bs, table)[j],
                table,
            ) by {
                if j < rest.len() {
                    assert(strip_bounds(bs, table)[j] == rest[j]);
                } else {
                    assert(strip_bounds(bs, table)[j] == bs.last());
                }
            }
        }
    }
}

/// A sentinel implementation carries no participant dependency bound: every
/// bound left on its generic parameters and in its where clause is one the
/// stripping filter keeps, so none is a single-segment reference to a
/// participant of the group.
pub proof fn lemma_sentinel_stripped(
    r: ImplRecordV,
    loc: int,
    table: Seq<(Name, int)>,
    suffix: u64,
    unbounded: bool,
)
    ensures
        ({
            let g = sentinel_impl_v(r, loc, table, suffix, unbounded);
            &&& forall|i: int, j: int|
                0 <= i < g.params.len() && 0 <= j < g.params[i].bounds.len() ==> keep_bound(
                    (#[trigger] g.params[i].bounds[j]),
                    table,
                )
            &&& forall|i: int, j: int|
                0 <= i < g.preds.len() && 0 <= j < g.preds[i].bounds.len() ==> keep_bound(
                    (#[trigger] g.preds[i].bounds[j]),
                    table,
                )
        }),
{
    let g = sentinel_impl_v(r, loc, table, suffix, unbounded);
    assert forall|i: int, j: int|
        0 <= i < g.params.len() && 0 <= j < g.params[i].bounds.len() implies keep_bound(
        (#[trigger] g.params[i].bounds[j]),
        table,
    ) by {
        assert(g.params[i] == strip_params(r.params, table)[i]);
        lemma_strip_bounds_kept(r.params[i].bounds, table);
    }
    assert forall|i: int, j: int|
        0 <= i < g.preds.len() && 0 <= j < g.preds[i].bounds.len() implies keep_bound(
        (#[trigger] g.preds[i].bounds[j]),
        table,
    ) by {
        lemma_strip_preds_kept(r.preds, table, i, j);
    }
}

/// Every bound of every stripped predicate is kept by the filter.
proof fn lemma_strip_preds_kept(ps: Seq<PredV>, table: Seq<(Name, int)>, i: int, j: int)
    requires
        0 <= i < strip_preds(ps, table).len(),
        0 <= j < strip_preds(ps, table)[i].bounds.len(),
    ensures
        keep_bound(strip_preds(ps, table)[i].bounds[j], table),
    decreases ps.len(),
{
    if ps.len() > 0 {
        let rest = strip_preds(ps.drop_last(), table);
        let kept = strip_bounds(ps.last().bounds, table);
        if kept.len() == 0 || i < rest.len() {
            lemma_strip_preds_kept(ps.drop_last(), table, i, j);
        } else {
            lemma_strip_bounds_kept(ps.last().bounds, table);
        }
    }
}

/// Index layout of the implementations generated for a record list: the
/// rewritten implementation of the `k`-th record at slot `2k`, its sentinel
/// at `2k + 1`.
proof fn lemma_items_for_records_index(
    rs: Seq<ImplRecordV>,
    loc: int,
    table: Seq<(Name, int)>,
    suffix: u64,
    unbounded: bool,
)
    ensures
        items_for_records(rs, loc, table, suffix, unbounded).len() == 2 * rs.len(),
        forall|k: int|
            0 <= k < rs.len() ==> items_for_records(rs, loc, table, suffix, unbounded)[2 * k]
                == GenItemV::Impl(rewritten_impl_v(#[trigger] rs[k], loc, table, suffix, unbounded))
                && items_for_records(rs, loc, table, suffix, unbounded)[2 * k + 1]
                == GenItemV::Impl(sentinel_impl_v(rs[k], loc, table, suffix, unbounded)),
    decreases rs.len(),
{
    if rs.len() > 0 {
        lemma_items_for_records_index(rs.drop_last(), loc, table, suffix, unbounded);
        let prev = items_for_records(rs.drop_last(), loc, table, suffix, unbounded);
        let all = items_for_records(rs, loc, table, suffix, unbounded);
        assert forall|k: int| 0 <= k < rs.len() implies all[2 * k] == GenItemV::Impl(
            rewritten_impl_v(#[trigger] rs[k], loc, table, suffix, unbounded),
        ) && all[2 * k + 1] == GenItemV::Impl(
            sentinel_impl_v(rs[k], loc, table, suffix, unbounded),
        ) by {
            if k < rs.len() - 1 {
                assert(rs.drop_last()[k] == rs[k]);
                assert(all[2 * k] == prev[2 * k]);
                assert(all[2 * k + 1] == prev[2 * k + 1]);
            } else {
                assert(all[2 * k] == GenItemV::Impl(
                    rewritten_impl_v(rs.last(), loc, table, suffix, unbounded),
                ));
                assert(all[2 * k + 1] == GenItemV::Impl(
                    sentinel_impl_v(rs.last(), loc, table, suffix, unbounded),
                ));
            }
        }
    }
}

/// Index layout of one participant's chunk within the generated unit: the
/// ranked declaration, then the delegating implementation, then the
/// rewritten/sentinel pairs of its records, starting where the preceding
/// participants' chunks end.
proof fn lemma_unit_items_at(
    traits: Seq<TraitDeclV>,
    contents: Seq<ImplRecordV>,
    table: Seq<(Name, int)>,
    suffix: u64,
    budget: nat,
    unbounded: bool,
    ti: int,
)
    requires
        0 <= ti < traits.len(),
        impls_of(contents, traits[ti].ident).len() > 0,
    ensures
        ({
            let base = unit_items(traits.take(ti), contents, table, suffix, budget, unbounded).len() as int;
            let rs = impls_of(contents, traits[ti].ident);
            let all = unit_items(traits, contents, table, suffix, budget, unbounded);
            let loc = loc_of(traits[ti].params);
            &&& base + 2 + 2 * rs.len() <= all.len()
            &&& all[base] == GenItemV::RankedTrait(ranked_decl_v(traits[ti], suffix))
            &&& all[base + 1] == GenItemV::Impl(delegating_impl_v(traits[ti], suffix, budget))
            &&& forall|k: int|
                0 <= k < rs.len() ==> all[base + 2 + 2 * k] == GenItemV::Impl(
                    rewritten_impl_v(#[trigger] rs[k], loc, table, suffix, unbounded),
                ) && all[base + 2 + 2 * k + 1] == GenItemV::Impl(
                    sentinel_impl_v(rs[k], loc, table, suffix, unbounded),
                )
        }),
    decreases traits.len(),
{
    let base = unit_items(traits.take(ti), contents, table, suffix, budget, unbounded).len() as int;
    let rs = impls_of(contents, traits[ti].ident);
    let all = unit_items(traits, contents, table, suffix, budget, unbounded);
    let loc = loc_of(traits[ti].params);
    let prefix = unit_items(traits.drop_last(), contents, table, suffix, budget, unbounded);
    if ti == traits.len() - 1 {
        assert(traits.take(ti) =~= traits.drop_last());
        let chunk = items_for_trait(traits.last(), contents, table, suffix, budget, unbounded);
        assert(traits.last() == traits[ti]);
        assert(all == prefix + chunk);
        lemma_items_for_records_index(rs, loc, table, suffix, unbounded);
        assert(all[base] == chunk[0]);
        assert(all[base + 1] == chunk[1]);
        assert forall|k: int| 0 <= k < rs.len() implies all[base + 2 + 2 * k] == GenItemV::Impl(
            rewritten_impl_v(#[trigger] rs[k], loc, table, suffix, unbounded),
        ) && all[base + 2 + 2 * k + 1] == GenItemV::Impl(
            sentinel_impl_v(rs[k], loc, table, suffix, unbounded),
        ) by {
            let recs = items_for_records(rs, loc, table, suffix, unbounded);
            assert(chunk[2 + 2 * k] == recs[2 * k]);
            assert(chunk[2 + 2 * k + 1] == recs[2 * k + 1]);
            assert(all[base + 2 + 2 * k] == chunk[2 + 2 * k]);
            assert(all[base + 2 + 2 * k + 1] == chunk[2 + 2 * k + 1]);
        }
    } else {
        assert(traits.drop_last()[ti] == traits[ti]);
        assert(traits.drop_last().take(ti) =~= traits.take(ti));
        lemma_unit_items_at(traits.drop_last(), contents, table, suffix, budget, unbounded, ti);
        assert forall|m: int| 0 <= m < prefix.len() implies all[m] == prefix[m] by {
            if impls_of(contents, traits.last().ident).len() > 0 {
                let chunk = items_for_trait(
                    traits.last(),
                    contents,
                    table,
                    suffix,
                    budget,
                    unbounded,
                );
                assert(all == prefix + chunk);
            } else {
                assert(all == prefix);
            }
        }
    }
}

/// Two distinct positions of a participant's record list come from two
/// distinct positions of the group's record list, in order.
proof fn lemma_impls_of_injective(cv: Seq<ImplRecordV>, ident: Name, k1: int, k2: int)
    requires
        0 <= k1 < k2 < impls_of(cv, ident).len(),
    ensures
        exists|i1: int, i2: int|
            0 <= i1 < i2 < cv.len() && #[trigger] cv[i1] == impls_of(cv, ident)[k1]
                && #[trigger] cv[i2] == impls_of(cv, ident)[k2],
    decreases cv.len(),
{
    let rs = impls_of(cv, ident);
    let rest = impls_of(cv.drop_last(), ident);
    if targets(cv.last(), ident) && k2 == rest.len() {
        lemma_impls_of_elem(cv.drop_last(), ident, k1);
        let i1 = choose|i1: int|
            0 <= i1 < cv.drop_last().len() && cv.drop_last()[i1] == rest[k1];
        assert(cv[i1] == rs[k1]);
        assert(cv[cv.len() - 1] == rs[k2]);
    } else {
        lemma_impls_of_injective(cv.drop_last(), ident, k1, k2);
        let (i1, i2) = choose|i1: int, i2: int|
            0 <= i1 < i2 < cv.drop_last().len() && #[trigger] cv.drop_last()[i1] == rest[k1]
                && #[trigger] cv.drop_last()[i2] == rest[k2];
        assert(cv[i1] == rs[k1]);
        assert(cv[i2] == rs[k2]);
    }
}


/// Which participant's chunk, and which slot within it, position `m` of the
/// generated unit belongs to.
spec fn shape_at(
    traits: Seq<TraitDeclV>,
    contents: Seq<ImplRecordV>,
    table: Seq<(Name, int)>,
    suffix: u64,
    budget: nat,
    unbounded: bool,
    ti: int,
    m: int,
) -> bool {
    let base = unit_items(traits.take(ti), contents, table, suffix, budget, unbounded).len() as int;
    let rs = impls_of(contents, traits[ti].ident);
    let all = unit_items(traits, contents, table, suffix, budget, unbounded);
    let loc = loc_of(traits[ti].params);
    ||| (m == base && all[m] == GenItemV::RankedTrait(ranked_decl_v(traits[ti], suffix)))
    ||| (m == base + 1 && all[m] == GenItemV::Impl(delegating_impl_v(traits[ti], suffix, budget)))
    ||| (exists|k: int|
        0 <= k < rs.len() && ((m == base + 2 + 2 * k && all[m] == GenItemV::Impl(
            rewritten_impl_v(#[trigger] rs[k], loc, table, suffix, unbounded),
        )) || (m == base + 2 + 2 * k + 1 && all[m] == GenItemV::Impl(
            sentinel_impl_v(rs[k], loc, table, suffix, unbounded),
        ))))
}

/// A shape established for a prefix of the declarations carries over to the
/// whole list.
proof fn lemma_shape_transfer(
    traits: Seq<TraitDeclV>,
    contents: Seq<ImplRecordV>,
    table: Seq<(Name, int)>,
    suffix: u64,
    budget: nat,
    unbounded: bool,
    ti: int,
    m: int,
)
    requires
        traits.len() > 0,
        0 <= ti < traits.len() - 1,
        0 <= m < unit_items(traits.drop_last(), contents, table, suffix, budget, unbounded).len(),
        shape_at(traits.drop_last(), contents, table, suffix, budget, unbounded, ti, m),
    ensures
        shape_at(traits, contents, table, suffix, budget, unbounded, ti, m),
{
    let all = unit_items(traits, contents, table, suffix, budget, unbounded);
    let prefix = unit_items(traits.drop_last(), contents, table, suffix, budget, unbounded);
    assert(traits.drop_last()[ti] == traits[ti]);
    assert(traits.drop_last().take(ti) =~= traits.take(ti));
    if impls_of(contents, traits.last().ident).len() > 0 {
        let chunk = items_for_trait(traits.last(), contents, table, suffix, budget, unbounded);
        assert(all == prefix + chunk);
        assert(all[m] == prefix[m]);
    } else {
        assert(all == prefix);
    }
    let rs = impls_of(contents, traits[ti].ident);
    let loc = loc_of(traits[ti].params);
    let base = unit_items(traits.take(ti), contents, table, suffix, budget, unbounded).len() as int;
    if m == base || m == base + 1 {
    } else {
        let k = choose|k: int|
            0 <= k < rs.len() && ((m == base + 2 + 2 * k && prefix[m] == GenItemV::Impl(
                rewritten_impl_v(#[trigger] rs[k], loc, table, suffix, unbounded),
            )) || (m == base + 2 + 2 * k + 1 && prefix[m] == GenItemV::Impl(
                sentinel_impl_v(rs[k], loc, table, suffix, unbounded),
            )));
        assert(0 <= k < rs.len() && ((m == base + 2 + 2 * k && all[m] == GenItemV::Impl(
            rewritten_impl_v(rs[k], loc, table, suffix, unbounded),
        )) || (m == base + 2 + 2 * k + 1 && all[m] == GenItemV::Impl(
            sentinel_impl_v(rs[k], loc, table, suffix, unbounded),
        ))));
    }
}

/// Every position of the generated unit belongs to the chunk of exactly one
/// participant, in one of the four generated roles.
proof fn lemma_unit_items_shape(
    traits: Seq<TraitDeclV>,
    contents: Seq<ImplRecordV>,
    table: Seq<(Name, int)>,
    suffix: u64,
    budget: nat,
    unbounded: bool,
    m: int,
)
    requires
        0 <= m < unit_items(traits, contents, table, suffix, budget, unbounded).len(),
    ensures
        exists|ti: int|
            0 <= ti < traits.len() && impls_of(contents, traits[ti].ident).len() > 0
                && #[trigger] shape_at(traits, contents, table, suffix, budget, unbounded, ti, m),
    decreases traits.len(),
{
    let all = unit_items(traits, contents, table, suffix, budget, unbounded);
    let prefix = unit_items(traits.drop_last(), contents, table, suffix, budget, unbounded);
    if impls_of(contents, traits.last().ident).len() > 0 {
        let chunk = items_for_trait(traits.last(), contents, table, suffix, budget, unbounded);
        assert(all == prefix + chunk);
        if m < prefix.len() {
            lemma_unit_items_shape(traits.drop_last(), contents, table, suffix, budget, unbounded, m);
            let ti = choose|ti: int|
                0 <= ti < traits.drop_last().len() && impls_of(
                    contents,
                    traits.drop_last()[ti].ident,
                ).len() > 0 && #[trigger] shape_at(
                    traits.drop_last(),
                    contents,
                    table,
                    suffix,
                    budget,
                    unbounded,
                    ti,
                    m,
                );
            assert(traits.drop_last()[ti] == traits[ti]);
            lemma_shape_transfer(traits, contents, table, suffix, budget, unbounded, ti, m);
        } else {
            let ti = traits.len() - 1;
            assert(traits.take(ti) =~= traits.drop_last());
            assert(traits.last() == traits[ti]);
            let base = prefix.len() as int;
            let rs = impls_of(contents, traits[ti].ident);
            let loc = loc_of(traits[ti].params);
            let c = m - base;
            lemma_items_for_records_index(rs, loc, table, suffix, unbounded);
            assert(chunk.len() == 2 + 2 * rs.len());
            assert(all[m] == chunk[c]);
            if c == 0 || c == 1 {
                assert(shape_at(traits, contents, table, suffix, budget, unbounded, ti, m));
            } else {
                let k = (c - 2) / 2;
                let recs = items_for_records(rs, loc, table, suffix, unbounded);
                assert(chunk[c] == recs[c - 2]);
                if (c - 2) % 2 == 0 {
                    assert(c - 2 == 2 * k);
                    assert(recs[2 * k] == GenItemV::Impl(
                        rewritten_impl_v(rs[k], loc, table, suffix, unbounded),
                    ));
                    assert(shape_at(traits, contents, table, suffix, budget, unbounded, ti, m));
                } else {
                    assert(c - 2 == 2 * k + 1);
                    assert(recs[2 * k + 1] == GenItemV::Impl(
                        sentinel_impl_v(rs[k], loc, table, suffix, unbounded),
                    ));
                    assert(shape_at(traits, contents, table, suffix, budget, unbounded, ti, m));
                }
            }
        }
    } else {
        assert(all == prefix);
        lemma_unit_items_shape(traits.drop_last(), contents, table, suffix, budget, unbounded, m);
        let ti = choose|ti: int|
            0 <= ti < traits.drop_last().len() && impls_of(
                contents,
                traits.drop_last()[ti].ident,
            ).len() > 0 && #[trigger] shape_at(
                traits.drop_last(),
                contents,
                table,
                suffix,
                budget,
                unbounded,
                ti,
                m,
            );
        assert(traits.drop_last()[ti] == traits[ti]);
        lemma_shape_transfer(traits, contents, table, suffix, budget, unbounded, ti, m);
    }
}

/// Is this generated item a sentinel-rank implementation of participant `q`
/// for implementing type `ty`?  The unit rank argument at the participant's
/// slot distinguishes the sentinel from every other generated
/// implementation.
pub open spec fn is_sentinel_for(
    item: GenItemV,
    q: Name,
    loc_q: int,
    ty: TypeV,
    suffix: u64,
) -> bool {
    match item {
        GenItemV::Impl(g) => {
            &&& g.trait_path.segments == seq![ranked_name(q, suffix)]
            &&& g.self_ty == ty
            &&& 0 <= loc_q < g.trait_path.args.len()
            &&& g.trait_path.args[loc_q] == TypeV::Unit
        },
        _ => false,
    }
}

/// No two records of the group pair the same implementing type with the
/// same participant.
pub open spec fn distinct_pairs(contents: Seq<ImplRecordV>) -> bool {
    forall|a: int, b: int|
        0 <= a < b < contents.len() && (#[trigger] contents[a]).trait_path.segments.len() == 1
            && (#[trigger] contents[b]).trait_path.segments.len() == 1
            && contents[a].trait_path.segments[0] == contents[b].trait_path.segments[0]
            ==> contents[a].self_ty != contents[b].self_ty
}

/// Sentinel coverage: for every (participant, implementing type) pair that
/// appears in an implementation record of a well-formed group, the generated
/// unit holds the pair's sentinel-rank implementation at exactly one
/// position.
pub proof fn lemma_sentinel_coverage(
    traits: Seq<TraitDeclV>,
    contents: Seq<ImplRecordV>,
    suffix: u64,
    budget: nat,
    unbounded: bool,
    ti: int,
    k: int,
)
    requires
        group_wf(traits, contents),
        distinct_pairs(contents),
        0 <= ti < traits.len(),
        0 <= k < impls_of(contents, traits[ti].ident).len(),
    ensures
        ({
            let table = table_of(traits, contents);
            let all = unit_items(traits, contents, table, suffix, budget, unbounded);
            let rs = impls_of(contents, traits[ti].ident);
            let loc = loc_of(traits[ti].params);
            let pos = unit_items(traits.take(ti), contents, table, suffix, budget, unbounded).len()
                + 2 + 2 * k + 1;
            &&& 0 <= pos < all.len()
            &&& all[pos as int] == GenItemV::Impl(
                sentinel_impl_v(rs[k], loc, table, suffix, unbounded),
            )
            &&& is_sentinel_for(all[pos as int], traits[ti].ident, loc, rs[k].self_ty, suffix)
            &&& forall|m: int|
                0 <= m < all.len() && is_sentinel_for(
                    #[trigger] all[m],
                    traits[ti].ident,
                    loc,
                    rs[k].self_ty,
                    suffix,
                ) ==> m == pos
        }),
{
    let table = table_of(traits, contents);
    let all = unit_items(traits, contents, table, suffix, budget, unbounded);
    let rs = impls_of(contents, traits[ti].ident);
    let loc = loc_of(traits[ti].params);
    let q = traits[ti].ident;
    let pos = unit_items(traits.take(ti), contents, table, suffix, budget, unbounded).len() + 2 + 2
        * k + 1;
    lemma_unit_items_at(traits, contents, table, suffix, budget, unbounded, ti);
    lemma_loc_of(traits[ti].params);
    lemma_table_of_lookup(traits, contents, ti);
    lemma_impls_of_elem(contents, q, k);

    // The sentinel item stands at `pos` and matches the sentinel predicate.
    assert(all[pos as int] == GenItemV::Impl(sentinel_impl_v(rs[k], loc, table, suffix, unbounded)));
    let i0 = choose|i: int| 0 <= i < contents.len() && contents[i] == rs[k];
    assert(record_wf(contents[i0], table));
    assert(bound_wf(rs[k].trait_path, table));
    assert(rs[k].trait_path.segments[0] == q);
    assert(loc <= rs[k].trait_path.args.len());
    rs[k].trait_path.args.insert_ensures(loc, TypeV::Unit);
    assert(is_sentinel_for(all[pos as int], q, loc, rs[k].self_ty, suffix));

    // Any position matching the sentinel predicate for the pair is `pos`.
    assert forall|m: int|
        0 <= m < all.len() && is_sentinel_for(#[trigger] all[m], q, loc, rs[k].self_ty, suffix)
        implies m == pos by {
        lemma_unit_items_shape(traits, contents, table, suffix, budget, unbounded, m);
        let ti2 = choose|ti2: int|
            0 <= ti2 < traits.len() && impls_of(contents, traits[ti2].ident).len() > 0
                && #[trigger] shape_at(traits, contents, table, suffix, budget, unbounded, ti2, m);
        let base2 = unit_items(traits.take(ti2), contents, table, suffix, budget, unbounded).len()
            as int;
        let rs2 = impls_of(contents, traits[ti2].ident);
        let loc2 = loc_of(traits[ti2].params);
        if m == base2 {
            // the ranked declaration is not an implementation
            assert(false);
        } else if m == base2 + 1 {
            // the delegating implementation targets the unranked name
            let g = delegating_impl_v(traits[ti2], suffix, budget);
            assert(g.trait_path.segments[0] == traits[ti2].ident);
            assert(seq![ranked_name(q, suffix)][0] == ranked_name(q, suffix));
            assert(traits[ti2].ident is User);
            assert(false);
        } else {
            let k2 = choose|k2: int|
                0 <= k2 < rs2.len() && ((m == base2 + 2 + 2 * k2 && all[m] == GenItemV::Impl(
                    rewritten_impl_v(#[trigger] rs2[k2], loc2, table, suffix, unbounded),
                )) || (m == base2 + 2 + 2 * k2 + 1 && all[m] == GenItemV::Impl(
                    sentinel_impl_v(rs2[k2], loc2, table, suffix, unbounded),
                )));
            lemma_impls_of_elem(contents, traits[ti2].ident, k2);
            assert(rs2[k2].trait_path.segments[0] == traits[ti2].ident);
            // the ranked names agree, so the participants agree
            assert(seq![ranked_name(rs2[k2].trait_path.segments[0], suffix)][0] == ranked_name(
                traits[ti2].ident,
                suffix,
            ));
            assert(seq![ranked_name(q, suffix)][0] == ranked_name(q, suffix));
            assert(traits[ti2].ident is User && q is User);
            assert(traits[ti2].ident == q);
            assert(ti2 == ti);
            let i2 = choose|i: int| 0 <= i < contents.len() && contents[i] == rs2[k2];
            assert(record_wf(contents[i2], table));
            assert(bound_wf(rs2[k2].trait_path, table));
            assert(loc2 <= rs2[k2].trait_path.args.len());
            lemma_loc_of(traits[ti2].params);
            if m == base2 + 2 + 2 * k2 {
                // a rewritten implementation carries a wrapped rank, not the unit
                rs2[k2].trait_path.args.insert_ensures(loc2, step_v(rank_param_ty(suffix)));
                assert(false);
            } else {
                rs2[k2].trait_path.args.insert_ensures(loc2, TypeV::Unit);
                assert(rs2[k2].self_ty == rs[k].self_ty);
                if k2 != k {
                    if k < k2 {
                        lemma_impls_of_injective(contents, q, k, k2);
                    } else {
                        lemma_impls_of_injective(contents, q, k2, k);
                    }
                    assert(false);
                }
                assert(m == pos);
            }
        }
    }
}

/// Transparency of the delegating implementation: it adds no behaviour of
/// its own.  Every associated item of the original interface appears in it
/// under the same identity and shape as a pure forward to the ranked bound
/// at the initial rank; it carries no where clause; and the one constraint
/// it introduces on its blanket implementing type is exactly the ranked
/// variant at the initial, budget-deep rank.  A caller of the unranked
/// interface therefore observes exactly the fully unrolled ranked chain.
pub proof fn lemma_delegation_transparent(t: TraitDeclV, suffix: u64, budget: nat)
    ensures
        ({
            let g = delegating_impl_v(t, suffix, budget);
            &&& g.items.len() == t.items.len()
            &&& forall|i: int|
                0 <= i < t.items.len() ==> g.items[i] == (GenImplItem {
                    kind: (#[trigger] t.items[i]).kind,
                    ident: t.items[i].ident,
                    body: GenBody::Forward,
                })
            &&& g.preds == Seq::<PredV>::empty()
            &&& g.params.len() == t.params.len() + 1
            &&& g.params[loc_of(t.params)].bounds == seq![
                ranked_self_bound(t, suffix, numeral_v(budget)),
            ]
            &&& forall|i: int|
                0 <= i < loc_of(t.params) ==> g.params[i] == #[trigger] t.params[i]
            &&& forall|i: int|
                loc_of(t.params) <= i < t.params.len() ==> g.params[i + 1] == #[trigger] t.params[i]
        }),
{
    let g = delegating_impl_v(t, suffix, budget);
    lemma_loc_of(t.params);
    t.params.insert_ensures(
        loc_of(t.params),
        ParamV {
            kind: crate::ast::ParamKind::Ty,
            ident: Name::SelfParam(suffix),
            bounds: seq![ranked_self_bound(t, suffix, numeral_v(budget))],
        },
    );
}

} // verus!
