//! The annotation surface: the options of the group marker, and the
//! dispatch on what it was attached to.
//!
//! The marker accepts keyword options — an override path for locating the
//! system's own items, the marker type of a standalone declaration, an
//! alternate name for its forwarding macro, the allowed path roots of the
//! reference interner, the fuel budget and the mode flag.  A grouping unit
//! takes the budget and the flag; a standalone declaration takes the marker
//! and the alternate name; an option on the wrong kind of target is
//! refused, as is the marker on anything that is neither a unit nor an
//! interface declaration.

use vstd::prelude::*;

use crate::ast::{Name, Path, Sym, TraitDecl};
use crate::collect::{process_module, CollectError, CollectorCall, CollectorOutput, ModItem};
use crate::collect::{
    finalize_path_v, group_records, marked_glob, marked_traits, marked_working, marker_stripped,
    raw_items, structural_refusal,
};
use crate::standalone::{process_trait, ConfigError, InternScan, TraitExport};

verus! {

broadcast use {vstd::std_specs::vec::group_vec_axioms, vstd::seq::group_seq_axioms};

/// One keyword option, as the annotation's argument list carries it.
pub enum ArgToken {
    /// `decycle = path`: where the system's own items live.
    DecyclePath(Path),
    /// `marker = path`: the marker type for interned references.
    Marker(Path),
    /// `alter_macro_name = name`: the forwarding macro's name.
    AlterMacroName(Name),
    /// `allowed_paths = [path, ...]`: roots the interner treats as
    /// globally addressable.
    AllowedPaths(Vec<Path>),
    /// `recurse_level = n`: the fuel budget.
    RecurseLevel(usize),
    /// `support_infinite_cycle = b`: the mode flag.
    SupportInfiniteCycle(bool),
    /// Any other keyword.
    Unknown(Sym),
}

/// The parsed options.
pub struct Args {
    pub decycle: Option<Path>,
    pub marker: Option<Path>,
    pub alter_macro_name: Option<Name>,
    pub allowed_paths: Option<Vec<Path>>,
    pub recurse_level: Option<usize>,
    pub support_infinite_cycle: Option<bool>,
}

/// A refusal of the annotation surface.
#[derive(Clone, Copy, Debug, PartialEq, Eq, Structural)]
pub enum ArgError {
    /// A keyword that is none of the accepted options.
    UnknownArgument,
}

/// The last `decycle` option, which wins.
pub open spec fn last_decycle(tokens: Seq<ArgToken>) -> Option<Path>
    decreases tokens.len(),
{
    if tokens.len() == 0 {
        None
    } else {
        match tokens.last() {
            ArgToken::DecyclePath(p) => Some(p),
            _ => last_decycle(tokens.drop_last()),
        }
    }
}

/// The last `marker` option.
pub open spec fn last_marker(tokens: Seq<ArgToken>) -> Option<Path>
    decreases tokens.len(),
{
    if tokens.len() == 0 {
        None
    } else {
        match tokens.last() {
            ArgToken::Marker(p) => Some(p),
            _ => last_marker(tokens.drop_last()),
        }
    }
}

/// The last `alter_macro_name` option.
pub open spec fn last_alter(tokens: Seq<ArgToken>) -> Option<Name>
    decreases tokens.len(),
{
    if tokens.len() == 0 {
        None
    } else {
        match tokens.last() {
            ArgToken::AlterMacroName(n) => Some(n),
            _ => last_alter(tokens.drop_last()),
        }
    }
}

/// The last `allowed_paths` option.
pub open spec fn last_allowed(tokens: Seq<ArgToken>) -> Option<Vec<Path>>
    decreases tokens.len(),
{
    if tokens.len() == 0 {
        None
    } else {
        match tokens.last() {
            ArgToken::AllowedPaths(ps) => Some(ps),
            _ => last_allowed(tokens.drop_last()),
        }
    }
}

/// The last `recurse_level` option.
pub open spec fn last_level(tokens: Seq<ArgToken>) -> Option<usize>
    decreases tokens.len(),
{
    if tokens.len() == 0 {
        None
    } else {
        match tokens.last() {
            ArgToken::RecurseLevel(n) => Some(n),
            _ => last_level(tokens.drop_last()),
        }
    }
}

/// The last `support_infinite_cycle` option.
pub open spec fn last_mode(tokens: Seq<ArgToken>) -> Option<bool>
    decreases tokens.len(),
{
    if tokens.len() == 0 {
        None
    } else {
        match tokens.last() {
            ArgToken::SupportInfiniteCycle(b) => Some(b),
            _ => last_mode(tokens.drop_last()),
        }
    }
}

/// Is any keyword unknown?
pub open spec fn any_unknown(tokens: Seq<ArgToken>) -> bool {
    exists|i: int| 0 <= i < tokens.len() && (#[trigger] tokens[i]) is Unknown
}

impl Args {
    /// Parses the keyword options in order, later occurrences of a keyword
    /// overriding earlier ones; a keyword outside the accepted set is
    /// refused.
    #[verifier::loop_isolation(false)]
    pub fn parse(tokens: Vec<ArgToken>) -> (r: Result<Args, ArgError>)
        ensures
            r is Ok <==> !any_unknown(tokens@),
            r matches Err(e) ==> e == ArgError::UnknownArgument,
            r matches Ok(a) ==> {
                &&& a.decycle == last_decycle(tokens@)
                &&& a.marker == last_marker(tokens@)
                &&& a.alter_macro_name == last_alter(tokens@)
                &&& a.allowed_paths == last_allowed(tokens@)
                &&& a.recurse_level == last_level(tokens@)
                &&& a.support_infinite_cycle == last_mode(tokens@)
            },
    {
        let ghost toks = tokens@;
        let n = tokens.len();
        let mut args = Args {
            decycle: None,
            marker: None,
            alter_macro_name: None,
            allowed_paths: None,
            recurse_level: None,
            support_infinite_cycle: None,
        };
        let mut rem = tokens;
        let mut i: usize = 0;
        proof {
            assert(rem@ =~= toks.skip(0));
            assert(toks.take(0) =~= Seq::<ArgToken>::empty());
        }
        while rem.len() > 0
            invariant
                i <= toks.len(),
                n == toks.len(),
                i + rem@.len() == n,
                rem@ == toks.skip(i as int),
                args.decycle == last_decycle(toks.take(i as int)),
                args.marker == last_marker(toks.take(i as int)),
                args.alter_macro_name == last_alter(toks.take(i as int)),
                args.allowed_paths == last_allowed(toks.take(i as int)),
                args.recurse_level == last_level(toks.take(i as int)),
                args.support_infinite_cycle == last_mode(toks.take(i as int)),
                !any_unknown(toks.take(i as int)),
            decreases rem@.len(),
        {
            let tok = rem.remove(0);
            proof {
                assert(toks.skip(i as int)[0] == toks[i as int]);
                assert(toks.skip(i as int).remove(0) =~= toks.skip(i as int + 1));
                assert(toks.take(i as int + 1).drop_last() =~= toks.take(i as int));
                assert(toks.take(i as int + 1).last() == toks[i as int]);
            }
            match tok {
                ArgToken::DecyclePath(p) => {
                    args.decycle = Some(p);
                },
                ArgToken::Marker(p) => {
                    args.marker = Some(p);
                },
                ArgToken::AlterMacroName(n) => {
                    args.alter_macro_name = Some(n);
                },
                ArgToken::AllowedPaths(ps) => {
                    args.allowed_paths = Some(ps);
                },
                ArgToken::RecurseLevel(n) => {
                    args.recurse_level = Some(n);
                },
                ArgToken::SupportInfiniteCycle(b) => {
                    args.support_infinite_cycle = Some(b);
                },
                ArgToken::Unknown(_) => {
                    proof {
                        assert((i as int) < toks.len());
                        assert(toks[i as int] is Unknown);
                        assert(any_unknown(toks));
                    }
                    return Err(ArgError::UnknownArgument);
                },
            }
            i += 1;
        }
        proof {
            assert(toks.take(toks.len() as int) =~= toks);
        }
        Ok(args)
    }
}

/// What the group marker was attached to.
pub enum AnnotationTarget {
    /// A grouping unit with its members.
    Module(Vec<ModItem>),
    /// A standalone interface declaration, with the reference interner's
    /// findings about it.
    TraitTarget(TraitDecl, InternScan),
    /// A `use` declaration outside any unit.
    UseTarget,
    /// Anything else.
    Unsupported(Sym),
}

/// A refusal of the dispatch.
#[derive(Clone, Copy, Debug, PartialEq, Eq, Structural)]
pub enum ExpandError {
    /// The collector refused the unit.
    Collect(CollectError),
    /// The standalone declaration is misconfigured.
    Config(ConfigError),
    /// `marker` is not an option of a grouping unit.
    MarkerUnsupported,
    /// `alter_macro_name` is not an option of a grouping unit.
    AlterMacroNameUnsupported,
    /// `recurse_level` is not an option of a standalone declaration.
    RecurseLevelUnsupported,
    /// `support_infinite_cycle` is not an option of a standalone
    /// declaration.
    SupportInfiniteCycleUnsupported,
    /// A marked `use` belongs inside a grouping unit.
    PlaceInsideModule,
    /// The marker supports only units and interface declarations.
    UnsupportedTarget,
}

/// What one annotation expands to.
pub enum Expansion {
    /// A grouping unit: the collector's partition and call.
    Unit(CollectorOutput),
    /// A standalone declaration: its deferred expansion step.
    Standalone(TraitExport),
}

/// The default fuel budget.
pub const DEFAULT_RECURSE_LEVEL: usize = 10;

/// The default path under which the system's own items are located when
/// no override is given.
pub open spec fn default_root_v(dsym: Sym) -> crate::ast::PathV {
    crate::ast::PathV {
        leading_colon: true,
        segments: seq![Name::User(dsym)],
        args: Seq::empty(),
    }
}

/// Dispatches one annotation: a grouping unit goes to the collector with
/// the budget and mode options, defaulting to a budget of ten and the
/// unbounded mode, its finalize step keyed under the system's root path —
/// `::decycle` unless overridden; a standalone declaration goes to its
/// deferred expansion with the marker and naming options; everything else
/// is refused, each misplaced option with its own report.
pub fn decycle(
    args: Args,
    target: AnnotationTarget,
    dsym: Sym,
    renames: &Vec<(Sym, Sym)>,
    suffix: u64,
) -> (r: Result<Expansion, ExpandError>)
    ensures
        target is UseTarget ==> r == Result::<Expansion, ExpandError>::Err(
            ExpandError::PlaceInsideModule,
        ),
        target is Unsupported ==> r == Result::<Expansion, ExpandError>::Err(
            ExpandError::UnsupportedTarget,
        ),
        target matches AnnotationTarget::Module(items) ==> {
            let root = match args.decycle {
                Some(p) => p@,
                None => default_root_v(dsym),
            };
            let budget = match args.recurse_level {
                Some(n) => n,
                None => DEFAULT_RECURSE_LEVEL,
            };
            let mode = match args.support_infinite_cycle {
                Some(b) => b,
                None => true,
            };
            let collected = !marked_glob(items@, dsym, renames@) && structural_refusal(
                items@,
                dsym,
                renames@,
            ) is None && (marked_traits(items@, dsym, renames@).len() > 0 || marked_working(
                items@,
                dsym,
                renames@,
            ).len() > 0);
            &&& (!collected ==> (r matches Err(e) && match e {
                ExpandError::Collect(ce) => match ce {
                    CollectError::GlobInUse => marked_glob(items@, dsym, renames@),
                    CollectError::NestedGroupMarker => !marked_glob(items@, dsym, renames@)
                        && structural_refusal(items@, dsym, renames@) == Some(
                        CollectError::NestedGroupMarker,
                    ),
                    CollectError::MacroUnsupported => !marked_glob(items@, dsym, renames@)
                        && structural_refusal(items@, dsym, renames@) == Some(
                        CollectError::MacroUnsupported,
                    ),
                    CollectError::NothingMarked => !marked_glob(items@, dsym, renames@)
                        && structural_refusal(items@, dsym, renames@) is None && marked_traits(
                        items@,
                        dsym,
                        renames@,
                    ).len() == 0 && marked_working(items@, dsym, renames@).len() == 0,
                },
                _ => false,
            }))
            &&& (collected && args.marker is Some ==> r == Result::<Expansion, ExpandError>::Err(
                ExpandError::MarkerUnsupported,
            ))
            &&& (collected && args.marker is None && args.alter_macro_name is Some ==> r
                == Result::<Expansion, ExpandError>::Err(ExpandError::AlterMacroNameUnsupported))
            &&& (collected && args.marker is None && args.alter_macro_name is None ==> (r matches
            Ok(Expansion::Unit(out)) && {
                &&& out.raw@.len() == raw_items(items@, items@, dsym, renames@).len()
                &&& forall|j: int|
                    0 <= j < out.raw@.len() ==> marker_stripped(
                        raw_items(items@, items@, dsym, renames@)[j],
                        #[trigger] out.raw@[j],
                        dsym,
                        renames@,
                    )
                &&& (out.call is Direct <==> marked_working(items@, dsym, renames@).len() == 0)
                &&& match out.call {
                    CollectorCall::Direct(a) => {
                        &&& crate::ast::paths_view(a.working_list@) == marked_working(
                            items@,
                            dsym,
                            renames@,
                        ).push(finalize_path_v(root))
                        &&& crate::ast::traits_view(a.traits@) == crate::ast::traits_view(
                            marked_traits(items@, dsym, renames@),
                        )
                        &&& a.contents@ == group_records(items@, items@, dsym, renames@)
                        &&& a.recurse_level == budget
                        &&& a.support_infinite_cycle == mode
                    },
                    CollectorCall::Chained(first, p) => {
                        &&& first@ == marked_working(items@, dsym, renames@)[0]
                        &&& p.version == crate::payload::current_version()
                        &&& p.identity@ == crate::names::crate_identity_bytes()
                        &&& crate::ast::paths_view(p.working_list@) == marked_working(
                            items@,
                            dsym,
                            renames@,
                        ).push(finalize_path_v(root))
                        &&& crate::ast::traits_view(p.traits@) == crate::ast::traits_view(
                            marked_traits(items@, dsym, renames@),
                        )
                        &&& p.contents@ == group_records(items@, items@, dsym, renames@)
                        &&& p.recurse_level == budget
                        &&& p.support_infinite_cycle == mode
                    },
                }
            }))
        },
        target matches AnnotationTarget::TraitTarget(t, scan) ==> {
            let exported = scan matches InternScan::Found(refs) && (refs@.len() == 0
                || args.marker is Some);
            &&& (scan is NotInternable ==> r == Result::<Expansion, ExpandError>::Err(
                ExpandError::Config(ConfigError::NonAbsoluteReference),
            ))
            &&& (scan matches InternScan::Found(refs) && refs@.len() > 0 && args.marker is None
                ==> r == Result::<Expansion, ExpandError>::Err(
                ExpandError::Config(ConfigError::MarkerRequired),
            ))
            &&& (exported && args.recurse_level is Some ==> r == Result::<
                Expansion,
                ExpandError,
            >::Err(ExpandError::RecurseLevelUnsupported))
            &&& (exported && args.recurse_level is None && args.support_infinite_cycle is Some
                ==> r == Result::<Expansion, ExpandError>::Err(
                ExpandError::SupportInfiniteCycleUnsupported,
            ))
            &&& (exported && args.recurse_level is None && args.support_infinite_cycle is None
                ==> (r matches Ok(Expansion::Standalone(out)) && {
                &&& out.macro_name == match args.alter_macro_name {
                    Some(n) => n,
                    None => Name::Temporal(crate::engine::base_sym(t.ident), suffix),
                }
                &&& out.decl.ident == t.ident
                &&& out.decl.items@ == t.items@
                &&& crate::ast::params_view(out.decl.params@) == crate::standalone::renamed_params(
                    crate::ast::params_view(t.params@),
                    suffix,
                )
                &&& scan matches InternScan::Found(refs) ==> {
                    &&& out.entries@.len() == refs@.len()
                    &&& forall|i: int|
                        0 <= i < refs@.len() ==> (#[trigger] out.entries@[i]).index == i
                            && out.entries@[i].target@ == refs@[i]@
                }
            }))
        },
{
    match target {
        AnnotationTarget::Module(items) => {
            let decycle_root = match &args.decycle {
                Some(p) => crate::ast::clone_path(p),
                None => {
                    let mut segs: Vec<Name> = Vec::new();
                    segs.push(Name::User(dsym));
                    let root = Path { leading_colon: true, segments: segs, args: Vec::new() };
                    proof {
                        assert(root@.segments =~= seq![Name::User(dsym)]);
                        assert(root@ =~= default_root_v(dsym));
                    }
                    root
                },
            };
            let budget = match args.recurse_level {
                Some(n) => n,
                None => DEFAULT_RECURSE_LEVEL,
            };
            let mode = match args.support_infinite_cycle {
                Some(b) => b,
                None => true,
            };
            let out = match process_module(items, &decycle_root, dsym, renames, budget, mode) {
                Ok(out) => out,
                Err(e) => {
                    return Err(ExpandError::Collect(e));
                },
            };
            if args.marker.is_some() {
                return Err(ExpandError::MarkerUnsupported);
            }
            if args.alter_macro_name.is_some() {
                return Err(ExpandError::AlterMacroNameUnsupported);
            }
            Ok(Expansion::Unit(out))
        },
        AnnotationTarget::TraitTarget(t, scan) => {
            let export = match process_trait(
                &t,
                args.marker.as_ref(),
                args.alter_macro_name,
                scan,
                suffix,
            ) {
                Ok(export) => export,
                Err(e) => {
                    return Err(ExpandError::Config(e));
                },
            };
            if args.recurse_level.is_some() {
                return Err(ExpandError::RecurseLevelUnsupported);
            }
            if args.support_infinite_cycle.is_some() {
                return Err(ExpandError::SupportInfiniteCycleUnsupported);
            }
            Ok(Expansion::Standalone(export))
        },
        AnnotationTarget::UseTarget => Err(ExpandError::PlaceInsideModule),
        AnnotationTarget::Unsupported(_) => Err(ExpandError::UnsupportedTarget),
    }
}

} // verus!
