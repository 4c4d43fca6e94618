//! A participant interface declared outside any grouping unit.
//!
//! Such a declaration cannot be elaborated on its own: it is turned into a
//! deferred expansion step — a forwarding macro under a hygienic name — that
//! a later grouping unit folds into its participant set through the chained
//! protocol.  Its non-lifetime generic parameters are renamed under the
//! hygiene suffix, consistently at the declaration site and at every use
//! inside the other parameters' bounds, so that repeated expansions cannot
//! collide.
//!
//! Type references inside the declaration that are not globally addressable
//! are found by the reference interner, an external collaborator; its
//! findings enter here as a list of interned references.  Each is bound,
//! keyed by index under a caller-supplied marker type, to a resolution
//! entry; a declaration with interned references and no marker is a
//! configuration error, reported before anything is produced.

use vstd::prelude::*;

use crate::ast::{
    clone_type, type_view, types_view, lemma_types_view, params_view, paths_view, GenericParam,
    Name, ParamKind, ParamV, Path, PathV, TraitDecl, TraitItem, TypeExpr, TypeV,
};
use crate::engine::{base_sym, base_sym_of};

verus! {

broadcast use {vstd::std_specs::vec::group_vec_axioms, vstd::seq::group_seq_axioms};

/// What the reference interner reported of the declaration.
pub enum InternScan {
    /// A type reference cannot be interned at all: it is not reducible to a
    /// globally addressable form.
    NotInternable,
    /// The non-globally-addressable references found, in order; empty when
    /// every reference is absolute.
    Found(Vec<TypeExpr>),
}

/// A configuration error of a standalone declaration.
#[derive(Clone, Copy, Debug, PartialEq, Eq, Structural)]
pub enum ConfigError {
    /// A type reference is not reducible to a globally addressable form.
    NonAbsoluteReference,
    /// The declaration holds interned references but no marker type was
    /// supplied to key them under.
    MarkerRequired,
}

/// One resolution entry: under the marker type, the reference with this
/// index resolves to the recorded type.
pub struct ResolutionEntry {
    pub index: usize,
    pub target: TypeExpr,
}

/// The deferred expansion step of a standalone declaration.
pub struct TraitExport {
    /// The hygienic name of the forwarding macro.
    pub macro_name: Name,
    /// The declaration as the step re-emits it, generics renamed.
    pub decl: TraitDecl,
    /// The resolution entries of the interned references, in order.
    pub entries: Vec<ResolutionEntry>,
}

// ---------------------------------------------------------------------------
// The hygienic rename
// ---------------------------------------------------------------------------

/// Is `n` the identifier of a non-lifetime generic parameter of the
/// declaration — one of the identifiers the rename replaces?
pub open spec fn is_renamed_ident(n: Name, params: Seq<ParamV>) -> bool {
    exists|i: int|
        0 <= i < params.len() && (#[trigger] params[i]).kind != ParamKind::Lifetime
            && params[i].ident == n
}

/// The hygienic form of one identifier occurrence.
pub open spec fn renamed_ident(n: Name, params: Seq<ParamV>, suffix: u64) -> Name {
    if is_renamed_ident(n, params) {
        Name::RenamedParam(base_sym(n), suffix)
    } else {
        n
    }
}

/// The hygienic rename applied through a type expression: every occurrence
/// of a renamed parameter's identifier, in any path segment or nested type
/// argument, takes its hygienic form.
pub open spec fn rename_type(t: TypeV, params: Seq<ParamV>, suffix: u64) -> TypeV
    decreases t,
{
    match t {
        TypeV::Unit => TypeV::Unit,
        TypeV::Wrap(inner) => TypeV::Wrap(Box::new(rename_type(*inner, params, suffix))),
        TypeV::Named(p) => TypeV::Named(rename_path(p, params, suffix)),
        TypeV::Lifetime(n) => TypeV::Lifetime(n),
        TypeV::Int(k) => TypeV::Int(k),
        TypeV::Opaque(s) => TypeV::Opaque(s),
    }
}

/// The hygienic rename through an argument list.
pub open spec fn rename_types(s: Seq<TypeV>, params: Seq<ParamV>, suffix: u64) -> Seq<TypeV>
    decreases s,
{
    if s.len() == 0 {
        Seq::empty()
    } else {
        rename_types(s.drop_last(), params, suffix).push(
            rename_type(s.last(), params, suffix),
        )
    }
}

/// The hygienic rename through a path: each segment, and each type
/// argument, recursively.
pub open spec fn rename_path(p: PathV, params: Seq<ParamV>, suffix: u64) -> PathV
    decreases p,
{
    PathV {
        leading_colon: p.leading_colon,
        segments: Seq::new(p.segments.len(), |i: int| renamed_ident(p.segments[i], params, suffix)),
        args: rename_types(p.args, params, suffix),
    }
}

/// `rename_types` maps elementwise.
pub proof fn lemma_rename_types(s: Seq<TypeV>, params: Seq<ParamV>, suffix: u64)
    ensures
        rename_types(s, params, suffix).len() == s.len(),
        forall|i: int|
            0 <= i < s.len() ==> #[trigger] rename_types(s, params, suffix)[i] == rename_type(
                s[i],
                params,
                suffix,
            ),
    decreases s,
{
    if s.len() > 0 {
        lemma_rename_types(s.drop_last(), params, suffix);
        assert forall|i: int| 0 <= i < s.len() implies #[trigger] rename_types(
            s,
            params,
            suffix,
        )[i] == rename_type(s[i], params, suffix) by {
            if i < s.len() - 1 {
                assert(s.drop_last()[i] == s[i]);
                assert(rename_types(s, params, suffix)[i] == rename_types(
                    s.drop_last(),
                    params,
                    suffix,
                )[i]);
            } else {
                assert(s[i] == s.last());
            }
        }
    }
}

/// The hygienic rename of one generic parameter: lifetimes keep their
/// names; every other parameter carries the suffix at its declaration site,
/// and its bounds are renamed throughout.
pub open spec fn renamed_param(p: ParamV, params: Seq<ParamV>, suffix: u64) -> ParamV {
    ParamV {
        kind: p.kind,
        ident: if p.kind == ParamKind::Lifetime {
            p.ident
        } else {
            Name::RenamedParam(base_sym(p.ident), suffix)
        },
        bounds: Seq::new(p.bounds.len(), |i: int| rename_path(p.bounds[i], params, suffix)),
    }
}

/// The consistent hygienic rename of the whole parameter list: every
/// parameter renamed against the same set — the declaration's own
/// non-lifetime parameters — so a declaration site and every use agree.
pub open spec fn renamed_params(ps: Seq<ParamV>, suffix: u64) -> Seq<ParamV> {
    Seq::new(ps.len(), |i: int| renamed_param(ps[i], ps, suffix))
}

/// Is `n` among the identifiers the rename replaces?
fn is_renamed_exec(n: Name, params: &Vec<GenericParam>) -> (r: bool)
    ensures
        r == is_renamed_ident(n, params_view(params@)),
{
    let ghost pv = params_view(params@);
    let mut i: usize = 0;
    while i < params.len()
        invariant
            i <= params@.len(),
            pv == params_view(params@),
            forall|j: int|
                0 <= j < i ==> !((#[trigger] pv[j]).kind != ParamKind::Lifetime && pv[j].ident
                    == n),
        decreases params@.len() - i,
    {
        proof {
            assert(pv[i as int] == params@[i as int]@);
        }
        let p = &params[i];
        if !matches!(p.kind, ParamKind::Lifetime) && p.ident == n {
            return true;
        }
        i += 1;
    }
    false
}

/// One identifier occurrence, hygienically renamed.
fn renamed_ident_exec(n: Name, params: &Vec<GenericParam>, suffix: u64) -> (r: Name)
    ensures
        r == renamed_ident(n, params_view(params@), suffix),
{
    if is_renamed_exec(n, params) {
        Name::RenamedParam(base_sym_of(n), suffix)
    } else {
        n
    }
}

/// The hygienic rename through a type expression.
fn rename_type_exec(t: &TypeExpr, params: &Vec<GenericParam>, suffix: u64) -> (r: TypeExpr)
    ensures
        r@ == rename_type(t@, params_view(params@), suffix),
    decreases t,
{
    match t {
        TypeExpr::Unit => TypeExpr::Unit,
        TypeExpr::Wrap(inner) => TypeExpr::Wrap(
            Box::new(rename_type_exec(&**inner, params, suffix)),
        ),
        TypeExpr::Named(p) => TypeExpr::Named(rename_path_exec(p, params, suffix)),
        TypeExpr::Lifetime(n) => TypeExpr::Lifetime(*n),
        TypeExpr::Int(k) => TypeExpr::Int(*k),
        TypeExpr::Opaque(s) => TypeExpr::Opaque(*s),
    }
}

/// The hygienic rename through an argument list.
fn rename_types_exec(v: &Vec<TypeExpr>, params: &Vec<GenericParam>, suffix: u64) -> (r: Vec<
    TypeExpr,
>)
    ensures
        types_view(r@) == rename_types(types_view(v@), params_view(params@), suffix),
    decreases v,
{
    let ghost pv = params_view(params@);
    let mut r: Vec<TypeExpr> = Vec::new();
    let mut i: usize = 0;
    while i < v.len()
        invariant
            i <= v@.len(),
            pv == params_view(params@),
            r@.len() == i,
            forall|j: int|
                0 <= j < i ==> type_view(r@[j]) == rename_type(
                    type_view(#[trigger] v@[j]),
                    pv,
                    suffix,
                ),
        decreases v@.len() - i,
    {
        r.push(rename_type_exec(&v[i], params, suffix));
        i += 1;
    }
    proof {
        lemma_types_view(r@);
        lemma_types_view(v@);
        lemma_rename_types(types_view(v@), pv, suffix);
        assert(types_view(r@) =~= rename_types(types_view(v@), pv, suffix));
    }
    r
}

/// The hygienic rename through a path.
fn rename_path_exec(p: &Path, params: &Vec<GenericParam>, suffix: u64) -> (r: Path)
    ensures
        r@ == rename_path(p@, params_view(params@), suffix),
    decreases p,
{
    let ghost pv = params_view(params@);
    let mut segments: Vec<Name> = Vec::new();
    let mut i: usize = 0;
    while i < p.segments.len()
        invariant
            i <= p.segments@.len(),
            pv == params_view(params@),
            segments@.len() == i,
            forall|j: int|
                0 <= j < i ==> segments@[j] == renamed_ident(
                    #[trigger] p.segments@[j],
                    pv,
                    suffix,
                ),
        decreases p.segments@.len() - i,
    {
        segments.push(renamed_ident_exec(p.segments[i], params, suffix));
        i += 1;
    }
    let args = rename_types_exec(&p.args, params, suffix);
    let r = Path { leading_colon: p.leading_colon, segments, args };
    proof {
        assert(r@.segments =~= rename_path(p@, pv, suffix).segments);
        assert(r@ =~= rename_path(p@, pv, suffix));
    }
    r
}

// ---------------------------------------------------------------------------
// The deferred expansion step
// ---------------------------------------------------------------------------

/// Turns one standalone declaration into its deferred expansion step.
///
/// The step's macro carries a hygienic name derived from the declaration —
/// unless an alternate name is supplied for re-export — and re-emits the
/// declaration with its non-lifetime generic parameters renamed under the
/// hygiene suffix, consistently at every declaration site and at every use
/// inside the parameters' bounds.  A declaration whose references cannot be
/// interned, or whose interned references have no marker to be keyed under,
/// is refused with nothing produced.
pub fn process_trait(
    trait_item: &TraitDecl,
    marker_path: Option<&Path>,
    alter_macro_name: Option<Name>,
    scan: InternScan,
    suffix: u64,
) -> (r: Result<TraitExport, ConfigError>)
    ensures
        r matches Err(e) ==> match e {
            ConfigError::NonAbsoluteReference => scan is NotInternable,
            ConfigError::MarkerRequired => {
                &&& scan matches InternScan::Found(refs) && refs@.len() > 0
                &&& marker_path is None
            },
        },
        r is Ok <==> (scan matches InternScan::Found(refs) && (refs@.len() == 0
            || marker_path is Some)),
        r matches Ok(out) ==> {
            &&& out.macro_name == match alter_macro_name {
                Some(n) => n,
                None => Name::Temporal(base_sym(trait_item.ident), suffix),
            }
            &&& out.decl.ident == trait_item.ident
            &&& out.decl.items@ == trait_item.items@
            &&& params_view(out.decl.params@) == renamed_params(
                params_view(trait_item.params@),
                suffix,
            )
            &&& scan matches InternScan::Found(refs) ==> {
                &&& out.entries@.len() == refs@.len()
                &&& forall|i: int|
                    0 <= i < refs@.len() ==> (#[trigger] out.entries@[i]).index == i
                        && out.entries@[i].target@ == refs@[i]@
            }
        },
{
    let refs = match scan {
        InternScan::NotInternable => {
            return Err(ConfigError::NonAbsoluteReference);
        },
        InternScan::Found(refs) => refs,
    };
    if refs.len() > 0 && marker_path.is_none() {
        return Err(ConfigError::MarkerRequired);
    }
    let macro_name = match alter_macro_name {
        Some(n) => n,
        None => Name::Temporal(base_sym_of(trait_item.ident), suffix),
    };

    // Rename the generic parameters under the hygiene suffix: each
    // declaration site, and each use inside any parameter's bounds.
    let ghost opv = params_view(trait_item.params@);
    let mut params: Vec<GenericParam> = Vec::new();
    let mut i: usize = 0;
    while i < trait_item.params.len()
        invariant
            i <= trait_item.params@.len(),
            opv == params_view(trait_item.params@),
            params@.len() == i,
            forall|j: int|
                0 <= j < i ==> (#[trigger] params@[j])@ == renamed_param(opv[j], opv, suffix),
        decreases trait_item.params@.len() - i,
    {
        let p = &trait_item.params[i];
        proof {
            assert(opv[i as int] == trait_item.params@[i as int]@);
        }
        let new_ident = if matches!(p.kind, ParamKind::Lifetime) {
            p.ident
        } else {
            Name::RenamedParam(base_sym_of(p.ident), suffix)
        };
        let ghost obs = paths_view(p.bounds@);
        let mut bounds: Vec<Path> = Vec::new();
        let mut j: usize = 0;
        while j < p.bounds.len()
            invariant
                j <= p.bounds@.len(),
                opv == params_view(trait_item.params@),
                obs == paths_view(p.bounds@),
                bounds@.len() == j,
                forall|k: int|
                    0 <= k < j ==> (#[trigger] bounds@[k])@ == rename_path(obs[k], opv, suffix),
            decreases p.bounds@.len() - j,
        {
            proof {
                assert(obs[j as int] == p.bounds@[j as int]@);
            }
            bounds.push(rename_path_exec(&p.bounds[j], &trait_item.params, suffix));
            j += 1;
        }
        params.push(GenericParam { kind: p.kind, ident: new_ident, bounds });
        proof {
            assert(params@[i as int]@.bounds =~= renamed_param(opv[i as int], opv, suffix).bounds);
            assert(params@[i as int]@ =~= renamed_param(opv[i as int], opv, suffix));
        }
        i += 1;
    }
    let decl = TraitDecl { ident: trait_item.ident, params, items: trait_item.items.clone() };
    proof {
        assert(params_view(decl.params@) =~= renamed_params(opv, suffix));
    }

    // The resolution entries of the interned references, in order.
    let mut entries: Vec<ResolutionEntry> = Vec::new();
    let mut i: usize = 0;
    while i < refs.len()
        invariant
            i <= refs@.len(),
            entries@.len() == i,
            forall|j: int|
                0 <= j < i ==> (#[trigger] entries@[j]).index == j && entries@[j].target@
                    == refs@[j]@,
        decreases refs@.len() - i,
    {
        entries.push(ResolutionEntry { index: i, target: clone_type(&refs[i]) });
        i += 1;
    }
    Ok(TraitExport { macro_name, decl, entries })
}

} // verus!
